//! Post records and the values derived from them: display dates and file locations.
use vstd::prelude::*;

verus! {

/// Directory of the markdown source of each post, `{slug}.md`.
pub const POSTS_MARKDOWN_PATH: &'static str = "./assets/posts/md";

/// Directory of the rendered page of each post, `{slug}.html`.
pub const POSTS_FILES_PATH: &'static str = "./assets/posts/html";

/// The JSON snapshot that the post table is rebuilt from.
pub const POSTS_JSON_PATH: &'static str = "./assets/posts.json";

/// Directory of the page templates.
pub const TEMPLATES_PATH: &'static str = "./assets/templates";

/// Directory of the static pages.
pub const STATIC_PAGES_PATH: &'static str = "./assets/static";

/// Last timestamp with a four-digit year: 9999-12-31 23:59:59 UTC.
pub const MAX_TIMESTAMP: u64 = 253402300799;

/// Calendar date (`YYYY-MM-DD`, UTC) of the Unix timestamp `ts`.
pub uninterp spec fn utc_date_text(ts: int) -> Seq<char>;

/// Relies on chrono's `DateTime::from_timestamp`, which returns a date for every timestamp
/// up to the last day of year 262142, and on the `YYYY-MM-DD` display of `NaiveDate`.
#[verifier::external_body]
fn utc_date(ts: u64) -> (r: Option<String>)
    requires
        ts <= MAX_TIMESTAMP,
    ensures
        r is Some,
        r matches Some(s) ==> s@ == utc_date_text(ts as int),
{
    chrono::DateTime::from_timestamp(ts as i64, 0).map(|d| d.date_naive().to_string())
}

/// Formats `timestamp` as its UTC calendar date, `YYYY-MM-DD`.
pub fn timestamp_date_format(timestamp: u64) -> (r: String)
    requires
        timestamp <= MAX_TIMESTAMP,
    ensures
        r@ == utc_date_text(timestamp as int),
{
    utc_date(timestamp).unwrap()
}

/// Title, timestamp and slug of a post.
pub struct PostView {
    pub title: Seq<char>,
    pub timestamp: u64,
    pub slug: Seq<char>,
}

/// A post's row: its markdown content lives in `{slug}.md` under `POSTS_MARKDOWN_PATH`.
#[derive(Debug, Clone)]
pub struct Post {
    pub title: String,
    pub timestamp: u64,
    pub slug: String,
}

impl View for Post {
    type V = PostView;

    open spec fn view(&self) -> PostView {
        PostView { title: self.title@, timestamp: self.timestamp, slug: self.slug@ }
    }
}

/// `dir/{slug}{ext}`.
pub open spec fn file_path(dir: Seq<char>, slug: Seq<char>, ext: Seq<char>) -> Seq<char> {
    dir + seq!['/'] + slug + ext
}

fn join_file_path(dir: &str, slug: &str, ext: &str) -> (r: String)
    ensures
        r@ == file_path(dir@, slug@, ext@),
{
    let mut p = String::from_str(dir);
    p.push('/');
    p.append(slug);
    p.append(ext);
    p
}

impl Post {
    /// A field-by-field copy.
    pub fn copy(&self) -> (r: Post)
        ensures
            r@ == self@,
    {
        Post { title: self.title.clone(), timestamp: self.timestamp, slug: self.slug.clone() }
    }

    /// The post's date, `YYYY-MM-DD` in UTC.
    pub fn date_str(&self) -> (r: String)
        requires
            self.timestamp <= MAX_TIMESTAMP,
        ensures
            r@ == utc_date_text(self.timestamp as int),
    {
        timestamp_date_format(self.timestamp)
    }

    /// Where the post's markdown source is kept.
    pub fn md_path(&self) -> (r: String)
        ensures
            r@ == file_path(POSTS_MARKDOWN_PATH@, self.slug@, ".md"@),
    {
        join_file_path(POSTS_MARKDOWN_PATH, self.slug.as_str(), ".md")
    }

    /// Where the post's rendered page is kept.
    pub fn html_path(&self) -> (r: String)
        ensures
            r@ == file_path(POSTS_FILES_PATH@, self.slug@, ".html"@),
    {
        join_file_path(POSTS_FILES_PATH, self.slug.as_str(), ".html")
    }

    /// The listing projection of the post.
    pub fn metadata(&self) -> (r: PostMetadata)
        ensures
            r@ == self@,
    {
        PostMetadata { title: self.title.clone(), slug: self.slug.clone(), timestamp: self.timestamp }
    }
}

/// What a listing shows of a post.
#[derive(Debug, Clone)]
pub struct PostMetadata {
    pub title: String,
    pub slug: String,
    pub timestamp: u64,
}

impl View for PostMetadata {
    type V = PostView;

    open spec fn view(&self) -> PostView {
        PostView { title: self.title@, timestamp: self.timestamp, slug: self.slug@ }
    }
}

impl PostMetadata {
    /// The post's date, `YYYY-MM-DD` in UTC.
    pub fn date_str(&self) -> (r: String)
        requires
            self.timestamp <= MAX_TIMESTAMP,
        ensures
            r@ == utc_date_text(self.timestamp as int),
    {
        timestamp_date_format(self.timestamp)
    }
}

/// The pages that are served from a file of their own.
pub enum StaticPage {
    Home,
    About,
}

impl StaticPage {
    /// The page's title.
    pub fn title(&self) -> (r: String)
        ensures
            r@ == match self {
                StaticPage::Home => "Home"@,
                StaticPage::About => "About"@,
            },
    {
        match self {
            StaticPage::Home => String::from_str("Home"),
            StaticPage::About => String::from_str("About"),
        }
    }

    /// The file that holds the page's content.
    pub fn page_path(&self) -> (r: String)
        ensures
            r@ == match self {
                StaticPage::Home => file_path(STATIC_PAGES_PATH@, "homepage"@, ".html"@),
                StaticPage::About => file_path(STATIC_PAGES_PATH@, "about"@, ".html"@),
            },
    {
        match self {
            StaticPage::Home => join_file_path(STATIC_PAGES_PATH, "homepage", ".html"),
            StaticPage::About => join_file_path(STATIC_PAGES_PATH, "about", ".html"),
        }
    }
}

/// The `file://` URL of a file, given its canonical path.
pub fn path_to_url(canonical_path: &str) -> (r: String)
    ensures
        r@ == "file://"@ + canonical_path@,
{
    let mut url = String::from_str("file://");
    url.append(canonical_path);
    url
}

/// Whether the bearer token presented with an upload equals the site's admin key.
pub fn validate_token(token: &[u8], admin_key: &[u8]) -> (r: bool)
    ensures
        r == (token@ == admin_key@),
{
    if token.len() != admin_key.len() {
        return false;
    }
    let mut i: usize = 0;
    while i < token.len()
        invariant
            token@.len() == admin_key@.len(),
            i <= token@.len(),
            forall|k: int| 0 <= k < i ==> token@[k] == admin_key@[k],
        decreases token@.len() - i,
    {
        if token[i] != admin_key[i] {
            return false;
        }
        i = i + 1;
    }
    assert(token@ =~= admin_key@);
    true
}

} // verus!
