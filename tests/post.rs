use blog::post::{
    path_to_url, timestamp_date_format, validate_token, Post, PostMetadata, StaticPage,
    MAX_TIMESTAMP,
};

fn post(title: &str, timestamp: u64, slug: &str) -> Post {
    Post { title: title.to_string(), timestamp, slug: slug.to_string() }
}

#[test]
fn date_of_epoch() {
    assert_eq!(post("t", 0, "s").date_str(), "1970-01-01");
}

#[test]
fn date_of_a_known_timestamp() {
    assert_eq!(post("t", 1431648000, "s").date_str(), "2015-05-15");
    assert_eq!(timestamp_date_format(1431647999), "2015-05-14");
}

#[test]
fn date_of_the_last_timestamp() {
    assert_eq!(timestamp_date_format(MAX_TIMESTAMP), "9999-12-31");
}

#[test]
fn metadata_date() {
    let m = PostMetadata { title: "t".to_string(), slug: "s".to_string(), timestamp: 86400 };
    assert_eq!(m.date_str(), "1970-01-02");
}

#[test]
fn post_file_paths() {
    let p = post("Hello", 10, "hello-world");
    assert_eq!(p.md_path(), "./assets/posts/md/hello-world.md");
    assert_eq!(p.html_path(), "./assets/posts/html/hello-world.html");
}

#[test]
fn metadata_copies_fields() {
    let m = post("Hello", 10, "hello").metadata();
    assert_eq!(m.title, "Hello");
    assert_eq!(m.slug, "hello");
    assert_eq!(m.timestamp, 10);
    let c = post("Hello", 10, "hello").copy();
    assert_eq!(c.title, "Hello");
}

#[test]
fn static_pages() {
    assert_eq!(StaticPage::Home.title(), "Home");
    assert_eq!(StaticPage::About.title(), "About");
    assert_eq!(StaticPage::Home.page_path(), "./assets/static/homepage.html");
    assert_eq!(StaticPage::About.page_path(), "./assets/static/about.html");
}

#[test]
fn token_must_equal_key() {
    assert!(validate_token(b"secret", b"secret"));
    assert!(!validate_token(b"secret", b"secreT"));
    assert!(!validate_token(b"secre", b"secret"));
    assert!(validate_token(b"", b""));
}

#[test]
fn file_url() {
    assert_eq!(path_to_url("/srv/site/style.css"), "file:///srv/site/style.css");
}
