use blog::post::{Post, MAX_TIMESTAMP};
use blog::store::{assure_is_json_path, check_snapshot_extension, DbConnection, StoreError};

fn post(title: &str, timestamp: u64, slug: &str) -> Post {
    Post { title: title.to_string(), timestamp, slug: slug.to_string() }
}

fn summary(posts: &[Post]) -> Vec<(String, u64, String)> {
    posts.iter().map(|p| (p.title.clone(), p.timestamp, p.slug.clone())).collect()
}

#[test]
fn insert_then_get() {
    let mut db = DbConnection::new();
    assert!(db.add_post_data(post("First", 10, "first"), true).is_ok());
    let got = db.get("first").unwrap();
    assert_eq!(got.title, "First");
    assert_eq!(got.timestamp, 10);
    assert_eq!(db.len(), 1);
}

#[test]
fn get_of_unknown_slug_is_none() {
    let db = DbConnection::new();
    assert!(db.get("nothing").is_none());
}

#[test]
fn duplicate_slug_is_refused() {
    let mut db = DbConnection::new();
    db.add_post_data(post("First", 10, "same"), true).unwrap();
    let r = db.add_post_data(post("Second", 20, "same"), true);
    assert!(matches!(r, Err(StoreError::UniqueConstraintViolation)));
    assert_eq!(db.get("same").unwrap().title, "First");
    assert_eq!(db.len(), 1);
}

#[test]
fn missing_content_is_refused() {
    let mut db = DbConnection::new();
    let r = db.add_post_data(post("First", 10, "first"), false);
    assert!(matches!(r, Err(StoreError::ContentNotFoundOnDisk)));
    assert!(db.get("first").is_none());
}

#[test]
fn timestamp_past_year_9999_is_refused() {
    let mut db = DbConnection::new();
    let r = db.add_post_data(post("Far", MAX_TIMESTAMP + 1, "far"), true);
    assert!(matches!(r, Err(StoreError::InvalidTimestamp)));
    assert!(db.add_post_data(post("Last", MAX_TIMESTAMP, "last"), true).is_ok());
}

#[test]
fn listing_is_most_recent_first() {
    let mut db = DbConnection::new();
    db.add_post_data(post("Ten", 10, "ten"), true).unwrap();
    db.add_post_data(post("Thirty", 30, "thirty"), true).unwrap();
    db.add_post_data(post("Twenty", 20, "twenty"), true).unwrap();
    let listed: Vec<u64> = db.list_metadata().iter().map(|m| m.timestamp).collect();
    assert_eq!(listed, vec![30, 20, 10]);
    let all: Vec<String> = db.all_posts().iter().map(|p| p.slug.clone()).collect();
    assert_eq!(all, vec!["thirty", "twenty", "ten"]);
}

#[test]
fn listing_of_empty_table() {
    let db = DbConnection::new();
    assert!(db.list_metadata().is_empty());
}

#[test]
fn load_replaces_row_with_same_slug() {
    let mut db = DbConnection::new();
    db.add_post_data(post("Old title", 10, "post"), true).unwrap();
    db.load_json(&vec![post("New title", 15, "post")]).unwrap();
    assert_eq!(db.len(), 1);
    let got = db.get("post").unwrap();
    assert_eq!(got.title, "New title");
    assert_eq!(got.timestamp, 15);
}

#[test]
fn load_adds_new_rows_and_last_record_wins() {
    let mut db = DbConnection::new();
    db.load_json(&vec![post("A", 1, "a"), post("B", 2, "b"), post("A again", 3, "a")]).unwrap();
    assert_eq!(db.len(), 2);
    assert_eq!(db.get("a").unwrap().title, "A again");
}

#[test]
fn load_with_undisplayable_timestamp_changes_nothing() {
    let mut db = DbConnection::new();
    db.add_post_data(post("Kept", 10, "kept"), true).unwrap();
    let r = db.load_json(&vec![post("New", 1, "new"), post("Bad", MAX_TIMESTAMP + 1, "bad")]);
    assert!(matches!(r, Err(StoreError::InvalidTimestamp)));
    assert_eq!(db.len(), 1);
    assert!(db.get("new").is_none());
}

#[test]
fn dump_then_load_gives_the_same_rows() {
    let mut db = DbConnection::new();
    db.add_post_data(post("One", 100, "one"), true).unwrap();
    db.add_post_data(post("Two", 300, "two"), true).unwrap();
    db.add_post_data(post("Three", 200, "three"), true).unwrap();
    let dumped = db.dump_json("posts.json").unwrap();
    let mut fresh = DbConnection::new();
    fresh.load_json(&dumped).unwrap();
    assert_eq!(summary(&fresh.all_posts()), summary(&db.all_posts()));
    let mut reversed = dumped.clone();
    reversed.reverse();
    let mut other = DbConnection::new();
    other.load_json(&reversed).unwrap();
    assert_eq!(summary(&other.all_posts()), summary(&db.all_posts()));
}

#[test]
fn dump_is_most_recent_first() {
    let mut db = DbConnection::new();
    db.add_post_data(post("Old", 1, "old"), true).unwrap();
    db.add_post_data(post("New", 2, "new"), true).unwrap();
    let dumped = db.dump_json("./assets/posts.json").unwrap();
    assert_eq!(summary(&dumped), vec![("New".to_string(), 2, "new".to_string()), ("Old".to_string(), 1, "old".to_string())]);
}

#[test]
fn dump_to_other_extension_is_refused() {
    let mut db = DbConnection::new();
    db.add_post_data(post("One", 1, "one"), true).unwrap();
    assert!(matches!(db.dump_json("posts.txt"), Err(StoreError::InvalidSnapshotExtension)));
    assert!(matches!(db.dump_json("posts"), Err(StoreError::InvalidSnapshotExtension)));
    assert!(matches!(db.dump_json("posts.JSON"), Err(StoreError::InvalidSnapshotExtension)));
}

#[test]
fn snapshot_path_extension() {
    assert!(assure_is_json_path("./assets/posts.json").is_ok());
    assert!(assure_is_json_path("dir.json/posts").is_err());
    assert!(assure_is_json_path(".json").is_err());
    assert!(assure_is_json_path("a.b.json").is_ok());
}

#[test]
fn extension_check_on_given_values() {
    assert!(check_snapshot_extension(&Some("json".to_string())).is_ok());
    assert!(matches!(
        check_snapshot_extension(&Some("txt".to_string())),
        Err(StoreError::InvalidSnapshotExtension)
    ));
    assert!(check_snapshot_extension(&None).is_err());
}
