//! The post table and its synchronisation with the JSON snapshot.
//!
//! The snapshot file is the durable truth: the table is rebuilt from it when a store is
//! opened (`load_json`, an upsert by slug) and written back to it when the store is closed
//! (`dump_json`, which hands out the rows to write, most recent first).
use vstd::prelude::*;

use crate::post::{Post, PostMetadata, PostView, MAX_TIMESTAMP};

verus! {

/// Why a store operation was refused.
#[derive(Debug, Clone)]
pub enum StoreError {
    /// A post with this slug is already in the table.
    UniqueConstraintViolation,
    /// The post's markdown file does not exist.
    ContentNotFoundOnDisk,
    /// The timestamp lies past the last date that can be displayed.
    InvalidTimestamp,
    /// The snapshot path does not end in `.json`.
    InvalidSnapshotExtension,
    /// The snapshot could not be read or parsed.
    SnapshotLoadError(String),
    /// The snapshot could not be written.
    SnapshotDumpError(String),
}

/// Extension of the file named by `path` (`Path::extension`), without its dot.
pub uninterp spec fn extension_of(path: Seq<char>) -> Option<Seq<char>>;

/// Relies on std's `Path::extension`: the part of the file name after its last `.`, if any.
/// A `&str` path is valid UTF-8, so the conversion back to a string is exact.
#[verifier::external_body]
fn path_extension(path: &str) -> (r: Option<String>)
    ensures
        r is None <==> extension_of(path@) is None,
        r matches Some(e) ==> extension_of(path@) == Some(e@),
{
    std::path::Path::new(path).extension().map(|e| e.to_string_lossy().into_owned())
}

/// Accepts the extension `json` and nothing else.
pub fn check_snapshot_extension(ext: &Option<String>) -> (r: Result<(), StoreError>)
    ensures
        r is Ok <==> (ext matches Some(e) && e@ == "json"@),
        r matches Err(e) ==> e is InvalidSnapshotExtension,
{
    match ext {
        Some(e) => {
            let json = String::from_str("json");
            if *e == json {
                Ok(())
            } else {
                Err(StoreError::InvalidSnapshotExtension)
            }
        },
        None => Err(StoreError::InvalidSnapshotExtension),
    }
}

/// Accepts a snapshot path only when its extension is `json`.
pub fn assure_is_json_path(path: &str) -> (r: Result<(), StoreError>)
    ensures
        r is Ok <==> extension_of(path@) == Some("json"@),
        r matches Err(e) ==> e is InvalidSnapshotExtension,
{
    let ext = path_extension(path);
    check_snapshot_extension(&ext)
}

/// The table made of `rows`: each row under its slug, later rows winning.
pub open spec fn table_of(rows: Seq<PostView>) -> Map<Seq<char>, PostView>
    decreases rows.len(),
{
    if rows.len() == 0 {
        Map::empty()
    } else {
        table_of(rows.drop_last()).insert(rows.last().slug, rows.last())
    }
}

/// `table` after each record of `records`, in order, replaced or added under its slug.
pub open spec fn upserted(table: Map<Seq<char>, PostView>, records: Seq<PostView>) -> Map<
    Seq<char>,
    PostView,
>
    decreases records.len(),
{
    if records.len() == 0 {
        table
    } else {
        upserted(table.insert(records[0].slug, records[0]), records.drop_first())
    }
}

pub open spec fn distinct_slugs(rows: Seq<PostView>) -> bool {
    forall|i: int, j: int| 0 <= i < j < rows.len() ==> rows[i].slug != rows[j].slug
}

/// `list` holds every row of `table` exactly once, most recent first.
pub open spec fn is_listing(table: Map<Seq<char>, PostView>, list: Seq<PostView>) -> bool {
    &&& list.len() == table.len()
    &&& distinct_slugs(list)
    &&& forall|i: int|
        0 <= i < list.len() ==> table.contains_key(#[trigger] list[i].slug) && table[list[i].slug]
            == list[i]
    &&& forall|k: Seq<char>| table.contains_key(k) ==> exists|i: int| 0 <= i < list.len() && #[trigger] list[i].slug == k
    &&& forall|i: int, j: int| 0 <= i < j < list.len() ==> list[i].timestamp >= list[j].timestamp
}

pub open spec fn post_views(posts: Seq<Post>) -> Seq<PostView> {
    posts.map_values(|p: Post| p@)
}

pub open spec fn metadata_views(posts: Seq<PostMetadata>) -> Seq<PostView> {
    posts.map_values(|p: PostMetadata| p@)
}

proof fn lemma_table_of(rows: Seq<PostView>)
    requires
        distinct_slugs(rows),
    ensures
        forall|k: Seq<char>|
            table_of(rows).contains_key(k) <==> exists|i: int| 0 <= i < rows.len() && #[trigger] rows[i].slug == k,
        forall|i: int| 0 <= i < rows.len() ==> table_of(rows)[#[trigger] rows[i].slug] == rows[i],
        table_of(rows).dom().finite(),
        table_of(rows).len() == rows.len(),
    decreases rows.len(),
{
    if rows.len() > 0 {
        let init = rows.drop_last();
        assert(distinct_slugs(init));
        lemma_table_of(init);
        let last = rows.last();
        assert forall|k: Seq<char>|
            table_of(rows).contains_key(k) <==> exists|i: int| 0 <= i < rows.len() && #[trigger] rows[i].slug == k by {
            if table_of(init).contains_key(k) {
                let i = choose|i: int| 0 <= i < init.len() && #[trigger] init[i].slug == k;
                assert(rows[i].slug == k);
            }
            if exists|i: int| 0 <= i < rows.len() && #[trigger] rows[i].slug == k {
                let i = choose|i: int| 0 <= i < rows.len() && #[trigger] rows[i].slug == k;
                if i < rows.len() - 1 {
                    assert(init[i].slug == k);
                }
            }
        }
        assert forall|i: int| 0 <= i < rows.len() implies table_of(rows)[#[trigger] rows[i].slug] == rows[i] by {
            if i < rows.len() - 1 {
                assert(init[i] == rows[i]);
                assert(rows[i].slug != last.slug);
            }
        }
        assert(!table_of(init).contains_key(last.slug)) by {
            if table_of(init).contains_key(last.slug) {
                let i = choose|i: int| 0 <= i < init.len() && #[trigger] init[i].slug == last.slug;
                assert(rows[i].slug == rows[rows.len() - 1].slug);
            }
        }
    }
}

proof fn lemma_table_of_update(rows: Seq<PostView>, i: int, row: PostView)
    requires
        distinct_slugs(rows),
        0 <= i < rows.len(),
        rows[i].slug == row.slug,
    ensures
        distinct_slugs(rows.update(i, row)),
        table_of(rows.update(i, row)) == table_of(rows).insert(row.slug, row),
{
    let next = rows.update(i, row);
    assert(distinct_slugs(next)) by {
        assert forall|a: int, b: int| 0 <= a < b < next.len() implies next[a].slug != next[b].slug by {
            assert(next[a].slug == rows[a].slug);
            assert(next[b].slug == rows[b].slug);
        }
    }
    lemma_table_of(rows);
    lemma_table_of(next);
    let lhs = table_of(next);
    let rhs = table_of(rows).insert(row.slug, row);
    assert forall|k: Seq<char>| lhs.contains_key(k) <==> rhs.contains_key(k) by {
        if lhs.contains_key(k) {
            let j = choose|j: int| 0 <= j < next.len() && #[trigger] next[j].slug == k;
            assert(rows[j].slug == k);
        }
        if table_of(rows).contains_key(k) {
            let j = choose|j: int| 0 <= j < rows.len() && #[trigger] rows[j].slug == k;
            assert(next[j].slug == k);
        }
        if k == row.slug {
            assert(next[i].slug == k);
        }
    }
    assert forall|k: Seq<char>| lhs.contains_key(k) implies lhs[k] == rhs[k] by {
        let j = choose|j: int| 0 <= j < next.len() && #[trigger] next[j].slug == k;
        if j != i {
            assert(rows[j].slug == k);
            assert(next[j] == rows[j]);
        }
    }
    assert(lhs =~= rhs);
}

proof fn lemma_upserted_distinct(table: Map<Seq<char>, PostView>, list: Seq<PostView>)
    requires
        distinct_slugs(list),
    ensures
        forall|k: Seq<char>|
            upserted(table, list).contains_key(k) <==> (table.contains_key(k) || exists|i: int|
                0 <= i < list.len() && #[trigger] list[i].slug == k),
        forall|i: int| 0 <= i < list.len() ==> upserted(table, list)[#[trigger] list[i].slug] == list[i],
        forall|k: Seq<char>|
            table.contains_key(k) && !(exists|i: int| 0 <= i < list.len() && #[trigger] list[i].slug == k)
                ==> #[trigger] upserted(table, list)[k] == table[k],
    decreases list.len(),
{
    if list.len() > 0 {
        let rest = list.drop_first();
        let next = table.insert(list[0].slug, list[0]);
        assert forall|a: int, b: int| 0 <= a < b < rest.len() implies rest[a].slug != rest[b].slug by {
            assert(rest[a] == list[a + 1] && rest[b] == list[b + 1]);
        }
        lemma_upserted_distinct(next, rest);
        let result = upserted(table, list);
        assert(result == upserted(next, rest));
        assert forall|k: Seq<char>|
            result.contains_key(k) <==> (table.contains_key(k) || exists|i: int|
                0 <= i < list.len() && #[trigger] list[i].slug == k) by {
            let in_list = exists|i: int| 0 <= i < list.len() && #[trigger] list[i].slug == k;
            let in_rest = exists|i: int| 0 <= i < rest.len() && #[trigger] rest[i].slug == k;
            assert(next.contains_key(k) <==> (table.contains_key(k) || k == list[0].slug));
            if in_rest {
                let i = choose|i: int| 0 <= i < rest.len() && #[trigger] rest[i].slug == k;
                assert(list[i + 1].slug == k);
            }
            if in_list {
                let i = choose|i: int| 0 <= i < list.len() && #[trigger] list[i].slug == k;
                if i > 0 {
                    assert(rest[i - 1].slug == k);
                }
            }
            if k == list[0].slug {
                assert(in_list);
            }
            assert(in_list <==> (k == list[0].slug || in_rest));
            assert(result.contains_key(k) <==> (next.contains_key(k) || in_rest));
        }
        assert forall|i: int| 0 <= i < list.len() implies result[#[trigger] list[i].slug] == list[i] by {
            if i > 0 {
                assert(rest[i - 1] == list[i]);
            } else {
                assert forall|j: int| 0 <= j < rest.len() implies rest[j].slug != list[0].slug by {
                    assert(rest[j] == list[j + 1]);
                }
                assert(!(exists|j: int| 0 <= j < rest.len() && #[trigger] rest[j].slug == list[0].slug));
                assert(next[list[0].slug] == list[0]);
            }
        }
        assert forall|k: Seq<char>|
            table.contains_key(k) && !(exists|i: int| 0 <= i < list.len() && #[trigger] list[i].slug == k)
                implies #[trigger] result[k] == table[k] by {
            assert(k != list[0].slug);
            if exists|i: int| 0 <= i < rest.len() && #[trigger] rest[i].slug == k {
                let i = choose|i: int| 0 <= i < rest.len() && #[trigger] rest[i].slug == k;
                assert(list[i + 1].slug == k);
            }
        }
    }
}

/// Round trip of the snapshot: the rows that a dump writes, loaded into an empty table,
/// give back the same table, whatever the order of the rows.
pub proof fn lemma_snapshot_round_trip(table: Map<Seq<char>, PostView>, dumped: Seq<PostView>)
    requires
        is_listing(table, dumped),
    ensures
        upserted(Map::empty(), dumped) == table,
{
    lemma_upserted_distinct(Map::empty(), dumped);
    let loaded = upserted(Map::empty(), dumped);
    assert forall|k: Seq<char>| loaded.contains_key(k) <==> table.contains_key(k) by {
        assert(!Map::<Seq<char>, PostView>::empty().contains_key(k));
        if table.contains_key(k) {
            let i = choose|i: int| 0 <= i < dumped.len() && #[trigger] dumped[i].slug == k;
        }
        if exists|i: int| 0 <= i < dumped.len() && #[trigger] dumped[i].slug == k {
            let i = choose|i: int| 0 <= i < dumped.len() && #[trigger] dumped[i].slug == k;
            assert(table.contains_key(dumped[i].slug));
        }
    }
    assert forall|k: Seq<char>| loaded.contains_key(k) implies loaded[k] == table[k] by {
        let i = choose|i: int| 0 <= i < dumped.len() && #[trigger] dumped[i].slug == k;
    }
    assert(loaded =~= table);
}

/// Loading a record whose slug is already in the table replaces that row, and adds none.
pub proof fn lemma_upsert_replaces(table: Map<Seq<char>, PostView>, record: PostView)
    requires
        table.contains_key(record.slug),
    ensures
        upserted(table, seq![record]) == table.insert(record.slug, record),
        upserted(table, seq![record])[record.slug] == record,
        upserted(table, seq![record]).dom() == table.dom(),
{
    let one = seq![record];
    assert(one[0] == record);
    assert(one.drop_first() =~= Seq::<PostView>::empty());
    assert(upserted(table, one) == upserted(table.insert(record.slug, record), one.drop_first()));
    assert(table.insert(record.slug, record).dom() =~= table.dom());
}

/// The post table: one row per slug, kept in memory and rebuilt from the JSON snapshot
/// (`load_json`) each time the site opens it.
pub struct DbConnection {
    rows: Vec<Post>,
}

impl View for DbConnection {
    type V = Map<Seq<char>, PostView>;

    closed spec fn view(&self) -> Map<Seq<char>, PostView> {
        table_of(post_views(self.rows@))
    }
}

impl DbConnection {
    /// Slugs are unique and every timestamp can be displayed as a date.
    pub closed spec fn wf(&self) -> bool {
        &&& distinct_slugs(post_views(self.rows@))
        &&& forall|i: int| 0 <= i < self.rows@.len() ==> #[trigger] self.rows@[i].timestamp <= MAX_TIMESTAMP
    }

    /// An empty table.
    pub fn new() -> (r: DbConnection)
        ensures
            r.wf(),
            r@ == Map::<Seq<char>, PostView>::empty(),
    {
        let r = DbConnection { rows: Vec::new() };
        assert(post_views(r.rows@) =~= Seq::<PostView>::empty());
        r
    }

    /// In a well-formed table each row is stored under its own slug and has a displayable
    /// date, so any listing of it can be rendered.
    pub proof fn lemma_rows_displayable(&self)
        requires
            self.wf(),
        ensures
            self@.dom().finite(),
            forall|k: Seq<char>| #[trigger] self@.contains_key(k) ==> self@[k].slug == k && self@[k].timestamp <= MAX_TIMESTAMP,
    {
        lemma_table_of(post_views(self.rows@));
        assert forall|k: Seq<char>| #[trigger] self@.contains_key(k) implies self@[k].slug == k
            && self@[k].timestamp <= MAX_TIMESTAMP by {
            let i = choose|i: int| 0 <= i < post_views(self.rows@).len() && #[trigger] post_views(self.rows@)[i].slug == k;
            assert(self.rows@[i].timestamp <= MAX_TIMESTAMP);
        }
    }

    /// Number of posts in the table.
    pub fn len(&self) -> (r: usize)
        requires
            self.wf(),
        ensures
            r == self@.len(),
    {
        proof {
            lemma_table_of(post_views(self.rows@));
        }
        self.rows.len()
    }

    fn position(&self, slug: &String) -> (r: Option<usize>)
        requires
            self.wf(),
        ensures
            r is None <==> !self@.contains_key(slug@),
            r matches Some(i) ==> i < self.rows@.len() && self.rows@[i as int].slug@ == slug@,
    {
        proof {
            lemma_table_of(post_views(self.rows@));
        }
        let mut i: usize = 0;
        while i < self.rows.len()
            invariant
                self.wf(),
                i <= self.rows@.len(),
                forall|j: int| 0 <= j < i ==> self.rows@[j].slug@ != slug@,
            decreases self.rows@.len() - i,
        {
            if self.rows[i].slug == *slug {
                proof {
                    lemma_table_of(post_views(self.rows@));
                    assert(post_views(self.rows@)[i as int].slug == slug@);
                }
                return Some(i);
            }
            i = i + 1;
        }
        proof {
            lemma_table_of(post_views(self.rows@));
        }
        assert forall|j: int| 0 <= j < post_views(self.rows@).len() implies #[trigger] post_views(
            self.rows@,
        )[j].slug != slug@ by {
            assert(self.rows@[j].slug@ != slug@);
        }
        None
    }

    /// Inserts a new post whose markdown file exists (`content_found`).
    pub fn add_post_data(&mut self, post: Post, content_found: bool) -> (r: Result<(), StoreError>)
        requires
            old(self).wf(),
        ensures
            final(self).wf(),
            !content_found ==> r matches Err(StoreError::ContentNotFoundOnDisk),
            content_found && post.timestamp > MAX_TIMESTAMP ==> r matches Err(StoreError::InvalidTimestamp),
            content_found && post.timestamp <= MAX_TIMESTAMP && old(self)@.contains_key(post.slug@)
                ==> r matches Err(StoreError::UniqueConstraintViolation),
            r is Ok <==> content_found && post.timestamp <= MAX_TIMESTAMP && !old(self)@.contains_key(post.slug@),
            r is Ok ==> final(self)@ == old(self)@.insert(post.slug@, post@),
            r is Err ==> final(self)@ == old(self)@,
    {
        if !content_found {
            return Err(StoreError::ContentNotFoundOnDisk);
        }
        if post.timestamp > MAX_TIMESTAMP {
            return Err(StoreError::InvalidTimestamp);
        }
        match self.position(&post.slug) {
            Some(_) => Err(StoreError::UniqueConstraintViolation),
            None => {
                self.push_new(post);
                Ok(())
            },
        }
    }

    fn push_new(&mut self, post: Post)
        requires
            old(self).wf(),
            !old(self)@.contains_key(post.slug@),
            post.timestamp <= MAX_TIMESTAMP,
        ensures
            final(self).wf(),
            final(self)@ == old(self)@.insert(post.slug@, post@),
    {
        let ghost before = post_views(self.rows@);
        proof {
            lemma_table_of(before);
        }
        self.rows.push(post);
        proof {
            let after = post_views(self.rows@);
            assert(after.drop_last() =~= before);
            assert(distinct_slugs(after)) by {
                assert forall|a: int, b: int| 0 <= a < b < after.len() implies after[a].slug != after[b].slug by {
                    if b == after.len() - 1 {
                        assert(before[a].slug == after[a].slug);
                        assert(table_of(before).contains_key(before[a].slug));
                    } else {
                        assert(before[a] == after[a] && before[b] == after[b]);
                    }
                }
            }
        }
    }

    fn replace_at(&mut self, i: usize, post: Post)
        requires
            old(self).wf(),
            i < old(self).rows@.len(),
            old(self).rows@[i as int].slug@ == post.slug@,
            post.timestamp <= MAX_TIMESTAMP,
        ensures
            final(self).wf(),
            final(self)@ == old(self)@.insert(post.slug@, post@),
    {
        let ghost before = post_views(self.rows@);
        self.rows.set(i, post);
        proof {
            assert(post_views(self.rows@) =~= before.update(i as int, post@));
            lemma_table_of_update(before, i as int, post@);
        }
    }

    /// Upserts the snapshot's records, in order, by slug: a record whose slug is present
    /// replaces that row. Nothing is loaded when a record's timestamp cannot be displayed.
    pub fn load_json(&mut self, records: &Vec<Post>) -> (r: Result<(), StoreError>)
        requires
            old(self).wf(),
        ensures
            final(self).wf(),
            r is Err <==> exists|i: int| 0 <= i < records@.len() && #[trigger] records@[i].timestamp > MAX_TIMESTAMP,
            r matches Err(e) ==> e is InvalidTimestamp,
            r is Err ==> final(self)@ == old(self)@,
            r is Ok ==> final(self)@ == upserted(old(self)@, post_views(records@)),
    {
        let mut k: usize = 0;
        while k < records.len()
            invariant
                *self == *old(self),
                old(self).wf(),
                k <= records@.len(),
                forall|i: int| 0 <= i < k ==> #[trigger] records@[i].timestamp <= MAX_TIMESTAMP,
            decreases records@.len() - k,
        {
            if records[k].timestamp > MAX_TIMESTAMP {
                return Err(StoreError::InvalidTimestamp);
            }
            k = k + 1;
        }
        let ghost all = post_views(records@);
        proof {
            assert(all.skip(0) =~= all);
        }
        let mut k: usize = 0;
        while k < records.len()
            invariant
                self.wf(),
                all == post_views(records@),
                k <= records@.len(),
                forall|i: int| 0 <= i < records@.len() ==> #[trigger] records@[i].timestamp <= MAX_TIMESTAMP,
                upserted(self@, all.skip(k as int)) == upserted(old(self)@, all),
            decreases records@.len() - k,
        {
            let record = records[k].copy();
            match self.position(&record.slug) {
                Some(i) => self.replace_at(i, record),
                None => self.push_new(record),
            }
            proof {
                assert(all.skip(k as int)[0] == all[k as int]);
                assert(all.skip(k as int).drop_first() =~= all.skip(k as int + 1));
            }
            k = k + 1;
        }
        proof {
            assert(all.skip(k as int) =~= Seq::<PostView>::empty());
        }
        Ok(())
    }

    /// The rows to write to the snapshot at `path`, most recent first; refused unless the
    /// path's extension is `json`.
    pub fn dump_json(&self, path: &str) -> (r: Result<Vec<Post>, StoreError>)
        requires
            self.wf(),
        ensures
            r is Ok <==> extension_of(path@) == Some("json"@),
            r matches Err(e) ==> e is InvalidSnapshotExtension,
            r matches Ok(rows) ==> is_listing(self@, post_views(rows@)),
    {
        match assure_is_json_path(path) {
            Ok(()) => Ok(self.all_posts()),
            Err(e) => Err(e),
        }
    }

    /// What the index page lists of each post, most recent first.
    pub fn list_metadata(&self) -> (r: Vec<PostMetadata>)
        requires
            self.wf(),
        ensures
            is_listing(self@, metadata_views(r@)),
    {
        let posts = self.all_posts();
        let mut out: Vec<PostMetadata> = Vec::new();
        let mut k: usize = 0;
        while k < posts.len()
            invariant
                k <= posts@.len(),
                metadata_views(out@) == post_views(posts@).take(k as int),
            decreases posts@.len() - k,
        {
            let ghost before = out@;
            let m = posts[k].metadata();
            out.push(m);
            proof {
                assert(out@ == before.push(m));
                assert(metadata_views(out@) =~= metadata_views(before).push(m@));
                assert(post_views(posts@).take(k as int + 1) =~= post_views(posts@).take(k as int).push(posts@[k as int]@));
            }
            k = k + 1;
        }
        assert(post_views(posts@).take(k as int) =~= post_views(posts@));
        out
    }

    /// The post stored under `slug`, if any.
    pub fn get(&self, slug: &str) -> (r: Option<Post>)
        requires
            self.wf(),
        ensures
            r is None <==> !self@.contains_key(slug@),
            r matches Some(p) ==> p@ == self@[slug@],
    {
        let key = String::from_str(slug);
        match self.position(&key) {
            Some(i) => {
                proof {
                    lemma_table_of(post_views(self.rows@));
                    assert(post_views(self.rows@)[i as int].slug == slug@);
                }
                Some(self.rows[i].copy())
            },
            None => None,
        }
    }

    /// All posts, most recent first.
    pub fn all_posts(&self) -> (r: Vec<Post>)
        requires
            self.wf(),
        ensures
            is_listing(self@, post_views(r@)),
    {
        let ghost rows = post_views(self.rows@);
        let mut out: Vec<Post> = Vec::new();
        let mut k: usize = 0;
        proof {
            assert(post_views(out@) =~= Seq::<PostView>::empty());
            reveal(drawn_from);
            reveal(covers);
        }
        while k < self.rows.len()
            invariant
                rows == post_views(self.rows@),
                distinct_slugs(rows),
                k <= rows.len(),
                sorted_part(rows, k as int, post_views(out@)),
            decreases rows.len() - k,
        {
            let row = self.rows[k].copy();
            let mut pos: usize = 0;
            while pos < out.len() && out[pos].timestamp >= row.timestamp
                invariant
                    pos <= out@.len(),
                    forall|j: int| 0 <= j < pos ==> out@[j].timestamp >= row.timestamp,
                decreases out@.len() - pos,
            {
                pos = pos + 1;
            }
            let ghost before = out@;
            out.insert(pos, row);
            proof {
                assert(post_views(out@) =~= post_views(before).insert(pos as int, row@));
                lemma_sorted_insert(rows, k as int, post_views(before), pos as int, row@);
            }
            k = k + 1;
        }
        proof {
            lemma_sorted_listing(rows, post_views(out@));
        }
        out
    }
}

/// `list` is the first `k` rows of `rows`, each once, most recent first.
spec fn sorted_part(rows: Seq<PostView>, k: int, list: Seq<PostView>) -> bool {
    &&& list.len() == k
    &&& distinct_slugs(list)
    &&& forall|a: int, b: int| 0 <= a < b < list.len() ==> list[a].timestamp >= list[b].timestamp
    &&& drawn_from(rows, k, list)
    &&& covers(rows, k, list)
}

/// `row`, the next of `rows` after the first `k`, goes at `pos` in the sorted `list`: after
/// every entry at least as recent, before the first older one.
spec fn insertion_point(rows: Seq<PostView>, k: int, list: Seq<PostView>, pos: int, row: PostView) -> bool {
    &&& distinct_slugs(rows)
    &&& 0 <= k < rows.len()
    &&& rows[k] == row
    &&& sorted_part(rows, k, list)
    &&& 0 <= pos <= list.len()
    &&& forall|j: int| 0 <= j < pos ==> list[j].timestamp >= row.timestamp
    &&& pos < list.len() ==> list[pos].timestamp < row.timestamp
}

/// Every entry of `list` is one of the first `k` rows.
#[verifier::opaque]
spec fn drawn_from(rows: Seq<PostView>, k: int, list: Seq<PostView>) -> bool {
    forall|j: int| #![trigger list[j]] 0 <= j < list.len() ==> exists|i: int| 0 <= i < k && #[trigger] rows[i] == list[j]
}

/// Each of the first `k` rows is an entry of `list`.
#[verifier::opaque]
spec fn covers(rows: Seq<PostView>, k: int, list: Seq<PostView>) -> bool {
    forall|i: int| #![trigger rows[i]] 0 <= i < k ==> exists|j: int| 0 <= j < list.len() && #[trigger] list[j] == rows[i]
}

proof fn lemma_insert_keeps_order(rows: Seq<PostView>, k: int, list: Seq<PostView>, pos: int, row: PostView)
    requires
        insertion_point(rows, k, list, pos, row),
    ensures
        forall|a: int, b: int| 0 <= a < b < list.insert(pos, row).len() ==> list.insert(pos, row)[a].timestamp >= list.insert(pos, row)[b].timestamp,
{
    let out = list.insert(pos, row);
    assert forall|a: int, b: int| 0 <= a < b < out.len() implies out[a].timestamp >= out[b].timestamp by {
        if a < pos && b > pos {
            assert(out[b] == list[b - 1]);
        } else if a == pos && b > pos {
            assert(out[b] == list[b - 1]);
        } else if a > pos {
            assert(out[a] == list[a - 1] && out[b] == list[b - 1]);
        }
    }
}

#[verifier::rlimit(40)]
proof fn lemma_insert_keeps_slugs_distinct(rows: Seq<PostView>, k: int, list: Seq<PostView>, pos: int, row: PostView)
    requires
        insertion_point(rows, k, list, pos, row),
    ensures
        distinct_slugs(list.insert(pos, row)),
{
    reveal(drawn_from);
    let out = list.insert(pos, row);
    assert forall|a: int, b: int| 0 <= a < b < out.len() implies out[a].slug != out[b].slug by {
        if a == pos || b == pos {
            let other = if a == pos { b } else { a };
            let oj = if other < pos { other } else { other - 1 };
            assert(out[other] == list[oj]);
            let i = choose|i: int| 0 <= i < k && #[trigger] rows[i] == list[oj];
            assert(rows[i].slug != rows[k].slug);
        } else {
            let oa = if a < pos { a } else { a - 1 };
            let ob = if b < pos { b } else { b - 1 };
            assert(out[a] == list[oa] && out[b] == list[ob]);
        }
    }
}

proof fn lemma_insert_from_rows(rows: Seq<PostView>, k: int, list: Seq<PostView>, pos: int, row: PostView)
    requires
        insertion_point(rows, k, list, pos, row),
    ensures
        drawn_from(rows, k + 1, list.insert(pos, row)),
{
    reveal(drawn_from);
    let out = list.insert(pos, row);
    assert forall|j: int| #![trigger out[j]] 0 <= j < out.len() implies exists|i: int| 0 <= i < k + 1 && #[trigger] rows[i] == out[j] by {
        if j < pos {
            assert(out[j] == list[j]);
            let i = choose|i: int| 0 <= i < k && #[trigger] rows[i] == list[j];
            assert(rows[i] == out[j]);
        } else if j == pos {
            assert(rows[k] == out[j]);
        } else {
            assert(out[j] == list[j - 1]);
            let i = choose|i: int| 0 <= i < k && #[trigger] rows[i] == list[j - 1];
            assert(rows[i] == out[j]);
        }
    }
}

proof fn lemma_insert_covers_rows(rows: Seq<PostView>, k: int, list: Seq<PostView>, pos: int, row: PostView)
    requires
        insertion_point(rows, k, list, pos, row),
    ensures
        covers(rows, k + 1, list.insert(pos, row)),
{
    reveal(covers);
    let out = list.insert(pos, row);
    assert forall|i: int| #![trigger rows[i]] 0 <= i < k + 1 implies exists|j: int| 0 <= j < out.len() && #[trigger] out[j] == rows[i] by {
        if i == k {
            assert(out[pos] == rows[i]);
        } else {
            let j = choose|j: int| 0 <= j < list.len() && #[trigger] list[j] == rows[i];
            if j < pos {
                assert(out[j] == rows[i]);
            } else {
                assert(out[j + 1] == rows[i]);
            }
        }
    }
}

proof fn lemma_sorted_insert(rows: Seq<PostView>, k: int, list: Seq<PostView>, pos: int, row: PostView)
    requires
        insertion_point(rows, k, list, pos, row),
    ensures
        sorted_part(rows, k + 1, list.insert(pos, row)),
{
    lemma_insert_keeps_order(rows, k, list, pos, row);
    lemma_insert_keeps_slugs_distinct(rows, k, list, pos, row);
    lemma_insert_from_rows(rows, k, list, pos, row);
    lemma_insert_covers_rows(rows, k, list, pos, row);
}

proof fn lemma_sorted_listing(rows: Seq<PostView>, list: Seq<PostView>)
    requires
        distinct_slugs(rows),
        sorted_part(rows, rows.len() as int, list),
    ensures
        is_listing(table_of(rows), list),
{
    reveal(drawn_from);
    reveal(covers);
    lemma_table_of(rows);
    let table = table_of(rows);
    assert forall|i: int| 0 <= i < list.len() implies table.contains_key(#[trigger] list[i].slug)
        && table[list[i].slug] == list[i] by {
        let j = choose|j: int| 0 <= j < rows.len() && #[trigger] rows[j] == list[i];
        assert(rows[j].slug == list[i].slug);
    }
    assert forall|key: Seq<char>| table.contains_key(key) implies exists|i: int| 0 <= i < list.len() && #[trigger] list[i].slug == key by {
        let i = choose|i: int| 0 <= i < rows.len() && #[trigger] rows[i].slug == key;
        let j = choose|j: int| 0 <= j < list.len() && #[trigger] list[j] == rows[i];
        assert(list[j].slug == key);
    }
}

} // verus!
