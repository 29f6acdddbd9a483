//! The rendering pipeline: markdown to HTML, sidenote expansion, then the page template.
use vstd::prelude::*;

use crate::post::{utc_date_text, Post, PostMetadata, PostView, MAX_TIMESTAMP};
use crate::sidenote::{process_sidenotes, with_margin_notes};
use crate::store::{metadata_views, post_views};
use crate::template::{template_outcome, wrapped_page, rendered_list, TemplateComposer, TemplateError};

verus! {

/// The HTML that markdown's GitHub-flavoured options give for `markdown`; `None` when the
/// parser reports an error.
pub uninterp spec fn gfm_html(markdown: Seq<char>) -> Option<Seq<char>>;

#[verifier::external_type_specification]
#[verifier::external_body]
pub struct ExMessage(markdown::message::Message);

/// Relies on markdown's `to_html_with_options` with `Options::gfm()` (tables, strikethrough,
/// autolinks, footnotes, task lists, tag filter): a function of the input alone.
#[verifier::external_body]
fn markdown_gfm(markdown: &str) -> (r: Result<String, markdown::message::Message>)
    ensures
        r is Ok <==> gfm_html(markdown@) is Some,
        r matches Ok(html) ==> gfm_html(markdown@) == Some(html@),
{
    markdown::to_html_with_options(markdown, &markdown::Options::gfm())
}

/// Why a page could not be rendered.
#[derive(Debug, Clone)]
pub enum PipelineError {
    /// Neither markdown nor HTML content was given.
    MissingContent,
    /// Both markdown and HTML content were given.
    AmbiguousContent,
    /// The markdown parser reported an error; its message.
    MarkdownParseError(String),
    /// The base page template was never registered.
    TemplateNotRegistered,
    /// The template engine failed; its message.
    TemplateRenderError(String),
}

/// The kinds of `PipelineError`, without their messages.
pub enum RenderFailure {
    MissingContent,
    AmbiguousContent,
    MarkdownParse,
    TemplateNotRegistered,
    TemplateRender,
}

/// The outcome of a rendering call, with error messages left out.
pub open spec fn outcome(r: Result<String, PipelineError>) -> Result<Seq<char>, RenderFailure> {
    match r {
        Ok(s) => Ok(s@),
        Err(PipelineError::MissingContent) => Err(RenderFailure::MissingContent),
        Err(PipelineError::AmbiguousContent) => Err(RenderFailure::AmbiguousContent),
        Err(PipelineError::MarkdownParseError(_)) => Err(RenderFailure::MarkdownParse),
        Err(PipelineError::TemplateNotRegistered) => Err(RenderFailure::TemplateNotRegistered),
        Err(PipelineError::TemplateRenderError(_)) => Err(RenderFailure::TemplateRender),
    }
}

/// HTML of `markdown`, or the parse failure.
pub open spec fn markdown_outcome(markdown: Seq<char>) -> Result<Seq<char>, RenderFailure> {
    match gfm_html(markdown) {
        Some(html) => Ok(html),
        None => Err(RenderFailure::MarkdownParse),
    }
}

/// A page-template outcome as a rendering outcome.
pub open spec fn page_outcome(r: Result<Seq<char>, bool>) -> Result<Seq<char>, RenderFailure> {
    match r {
        Ok(s) => Ok(s),
        Err(false) => Err(RenderFailure::TemplateNotRegistered),
        Err(true) => Err(RenderFailure::TemplateRender),
    }
}

/// Turns markdown into HTML.
pub fn markdown_to_html(markdown: &str) -> (r: Result<String, PipelineError>)
    ensures
        outcome(r) == markdown_outcome(markdown@),
{
    match markdown_gfm(markdown) {
        Ok(html) => Ok(html),
        Err(message) => Err(PipelineError::MarkdownParseError(message.to_string())),
    }
}

fn page_error(e: TemplateError) -> (r: PipelineError)
    ensures
        outcome(Err(r)) == page_outcome(template_outcome(Err(e))),
{
    match e {
        TemplateError::TemplateNotRegistered => PipelineError::TemplateNotRegistered,
        TemplateError::TemplateRenderError(m) => PipelineError::TemplateRenderError(m),
    }
}

pub open spec fn text_of(o: Option<String>) -> Option<Seq<char>> {
    match o {
        Some(s) => Some(s@),
        None => None,
    }
}

/// What a `RenderBuilder` holds.
pub struct BuilderView {
    pub title: Option<Seq<char>>,
    pub md_content: Option<Seq<char>>,
    pub html_content: Option<Seq<char>>,
    pub sidenotes: bool,
    pub into_base_template: bool,
}

/// The content to post-process: the HTML given, or the markdown given turned into HTML.
pub open spec fn resolved_content(b: BuilderView) -> Result<Seq<char>, RenderFailure> {
    match b.html_content {
        Some(html) => if b.md_content is Some {
            Err(RenderFailure::AmbiguousContent)
        } else {
            Ok(html)
        },
        None => match b.md_content {
            Some(md) => markdown_outcome(md),
            None => Err(RenderFailure::MissingContent),
        },
    }
}

/// `html` with sidenotes expanded if asked, then wrapped in the page template if asked.
pub open spec fn post_processed(b: BuilderView, c: crate::template::ComposerView, html: Seq<char>) -> Result<
    Seq<char>,
    RenderFailure,
> {
    let body = if b.sidenotes {
        with_margin_notes(html)
    } else {
        html
    };
    if b.into_base_template {
        let title = match b.title {
            Some(t) => t,
            None => Seq::empty(),
        };
        page_outcome(wrapped_page(c, title, body))
    } else {
        Ok(body)
    }
}

/// What `render` gives for a builder holding `b`.
pub open spec fn rendered(b: BuilderView, c: crate::template::ComposerView) -> Result<Seq<char>, RenderFailure> {
    match resolved_content(b) {
        Ok(html) => post_processed(b, c, html),
        Err(f) => Err(f),
    }
}

/// Collects the content of a page and the steps to apply to it; `render` does the work.
pub struct RenderBuilder {
    title: Option<String>,
    md_content: Option<String>,
    html_content: Option<String>,
    sidenotes: bool,
    into_base_template: bool,
}

impl View for RenderBuilder {
    type V = BuilderView;

    closed spec fn view(&self) -> BuilderView {
        BuilderView {
            title: text_of(self.title),
            md_content: text_of(self.md_content),
            html_content: text_of(self.html_content),
            sidenotes: self.sidenotes,
            into_base_template: self.into_base_template,
        }
    }
}

impl RenderBuilder {
    /// A builder with no content and no post-processing.
    pub fn new() -> (r: RenderBuilder)
        ensures
            r@ == (BuilderView {
                title: None,
                md_content: None,
                html_content: None,
                sidenotes: false,
                into_base_template: false,
            }),
    {
        RenderBuilder {
            title: None,
            md_content: None,
            html_content: None,
            sidenotes: false,
            into_base_template: false,
        }
    }

    /// Gives HTML content, used as it is.
    pub fn html_content(&mut self, html_content: &str) -> (r: &mut RenderBuilder)
        ensures
            r@ == (BuilderView { html_content: Some(html_content@), ..old(self)@ }),
            final(self)@ == final(r)@,
    {
        self.html_content = Some(String::from_str(html_content));
        self
    }

    /// Gives markdown content, turned into HTML when rendering.
    pub fn md_content(&mut self, content: &str) -> (r: &mut RenderBuilder)
        ensures
            r@ == (BuilderView { md_content: Some(content@), ..old(self)@ }),
            final(self)@ == final(r)@,
    {
        self.md_content = Some(String::from_str(content));
        self
    }

    /// Asks for sidenote expansion.
    pub fn sidenotes(&mut self) -> (r: &mut RenderBuilder)
        ensures
            r@ == (BuilderView { sidenotes: true, ..old(self)@ }),
            final(self)@ == final(r)@,
    {
        self.sidenotes = true;
        self
    }

    /// Asks for the result to be wrapped in the base page template, under `title`.
    pub fn into_base_template(&mut self, title: &str) -> (r: &mut RenderBuilder)
        ensures
            r@ == (BuilderView { title: Some(title@), into_base_template: true, ..old(self)@ }),
            final(self)@ == final(r)@,
    {
        self.title = Some(String::from_str(title));
        self.into_base_template = true;
        self
    }

    /// Applies the requested steps to the resolved content `html`.
    pub fn post_process(&self, composer: &TemplateComposer, html: String) -> (r: Result<String, PipelineError>)
        ensures
            outcome(r) == post_processed(self@, composer@, html@),
    {
        let body = if self.sidenotes {
            process_sidenotes(html.as_str())
        } else {
            html
        };
        if self.into_base_template {
            let title = match &self.title {
                Some(t) => t.clone(),
                None => String::new(),
            };
            match composer.wrap_page(title.as_str(), body.as_str()) {
                Ok(page) => Ok(page),
                Err(e) => Err(page_error(e)),
            }
        } else {
            Ok(body)
        }
    }

    /// Resolves the content, then applies the requested steps. Fails before any work when
    /// both or neither of markdown and HTML content were given.
    pub fn render(&self, composer: &TemplateComposer) -> (r: Result<String, PipelineError>)
        ensures
            outcome(r) == rendered(self@, composer@),
    {
        let html = match &self.html_content {
            Some(html) => {
                if self.md_content.is_some() {
                    return Err(PipelineError::AmbiguousContent);
                }
                html.clone()
            },
            None => match &self.md_content {
                Some(md) => match markdown_to_html(md.as_str()) {
                    Ok(html) => html,
                    Err(e) => return Err(e),
                },
                None => return Err(PipelineError::MissingContent),
            },
        };
        self.post_process(composer, html)
    }
}

/// Giving both markdown and HTML content makes `render` fail with `AmbiguousContent`,
/// whatever the markdown and the templates are.
pub proof fn lemma_both_contents_ambiguous(b: BuilderView, c: crate::template::ComposerView)
    requires
        b.md_content is Some,
        b.html_content is Some,
    ensures
        rendered(b, c) == Err::<Seq<char>, RenderFailure>(RenderFailure::AmbiguousContent),
{
}

/// Giving no content makes `render` fail with `MissingContent`.
pub proof fn lemma_no_content_missing(b: BuilderView, c: crate::template::ComposerView)
    requires
        b.md_content is None,
        b.html_content is None,
    ensures
        rendered(b, c) == Err::<Seq<char>, RenderFailure>(RenderFailure::MissingContent),
{
}

/// Options of `render_markdown`.
pub struct MdRenderOpts {
    pub with_template: bool,
    pub with_sidenotes: bool,
}

/// Value of the last entry named `name` in `entries`, or `false` when there is none.
pub open spec fn last_flag(entries: Seq<(Seq<char>, bool)>, name: Seq<char>) -> bool
    decreases entries.len(),
{
    if entries.len() == 0 {
        false
    } else if entries.last().0 == name {
        entries.last().1
    } else {
        last_flag(entries.drop_last(), name)
    }
}

impl MdRenderOpts {
    /// Reads the options from an object's boolean entries, `with_template` and
    /// `with_sidenotes`; other entries are ignored and a later entry overrides an earlier one.
    pub fn from_obj(entries: &Vec<(String, bool)>) -> (r: MdRenderOpts)
        ensures
            r.with_template == last_flag(entries.deep_view(), "with_template"@),
            r.with_sidenotes == last_flag(entries.deep_view(), "with_sidenotes"@),
    {
        let with_template = String::from_str("with_template");
        let with_sidenotes = String::from_str("with_sidenotes");
        proof {
            reveal_strlit("with_template");
            reveal_strlit("with_sidenotes");
            assert("with_template"@.len() != "with_sidenotes"@.len());
        }
        let mut opts = MdRenderOpts { with_template: false, with_sidenotes: false };
        let mut k: usize = 0;
        while k < entries.len()
            invariant
                k <= entries@.len(),
                with_template@ == "with_template"@,
                with_sidenotes@ == "with_sidenotes"@,
                "with_template"@ != "with_sidenotes"@,
                opts.with_template == last_flag(entries.deep_view().take(k as int), "with_template"@),
                opts.with_sidenotes == last_flag(entries.deep_view().take(k as int), "with_sidenotes"@),
            decreases entries@.len() - k,
        {
            let (name, value) = &entries[k];
            proof {
                let prefix = entries.deep_view().take(k as int + 1);
                assert(prefix.drop_last() =~= entries.deep_view().take(k as int));
                assert(prefix.last() == (name@, *value));
            }
            if *name == with_template {
                opts.with_template = *value;
            } else if *name == with_sidenotes {
                opts.with_sidenotes = *value;
            }
            k = k + 1;
        }
        assert(entries.deep_view().take(k as int) =~= entries.deep_view());
        opts
    }
}

/// Renders `md_content` with the steps that `opts` asks for; the page title is `Page`.
pub fn render_markdown(md_content: &str, opts: &MdRenderOpts, composer: &TemplateComposer) -> (r: Result<
    String,
    PipelineError,
>)
    ensures
        outcome(r) == rendered(
            BuilderView {
                title: if opts.with_template {
                    Some("Page"@)
                } else {
                    None
                },
                md_content: Some(md_content@),
                html_content: None,
                sidenotes: opts.with_sidenotes,
                into_base_template: opts.with_template,
            },
            composer@,
        ),
{
    let mut builder = RenderBuilder::new();
    builder.md_content(md_content);
    if opts.with_sidenotes {
        builder.sidenotes();
    }
    if opts.with_template {
        builder.into_base_template("Page");
    }
    builder.render(composer)
}

/// A post's page: its markdown turned into HTML, sidenotes expanded, in the base template.
pub fn render_md(page_title: &str, markdown: &str, composer: &TemplateComposer) -> (r: Result<
    String,
    PipelineError,
>)
    ensures
        outcome(r) == rendered(
            BuilderView {
                title: Some(page_title@),
                md_content: Some(markdown@),
                html_content: None,
                sidenotes: true,
                into_base_template: true,
            },
            composer@,
        ),
{
    let mut builder = RenderBuilder::new();
    builder.md_content(markdown).sidenotes().into_base_template(page_title);
    builder.render(composer)
}

/// An HTML page: sidenotes expanded, in the base template.
pub fn render_html_str(page_title: &str, page_content: &str, composer: &TemplateComposer) -> (r: Result<
    String,
    PipelineError,
>)
    ensures
        outcome(r) == rendered(
            BuilderView {
                title: Some(page_title@),
                md_content: None,
                html_content: Some(page_content@),
                sidenotes: true,
                into_base_template: true,
            },
            composer@,
        ),
{
    let mut builder = RenderBuilder::new();
    builder.html_content(page_content).sidenotes().into_base_template(page_title);
    builder.render(composer)
}

/// The listing data of `posts`: title, date and slug of each, in order.
pub open spec fn listing_rows(posts: Seq<PostView>) -> Seq<Seq<(Seq<char>, Seq<char>)>> {
    posts.map_values(
        |p: PostView|
            seq![("title"@, p.title), ("date"@, utc_date_text(p.timestamp as int)), ("slug"@, p.slug)],
    )
}

fn listing_row(title: &String, date: String, slug: &String) -> (r: Vec<(String, String)>)
    ensures
        r.deep_view() == seq![("title"@, title@), ("date"@, date@), ("slug"@, slug@)],
{
    let mut r: Vec<(String, String)> = Vec::new();
    r.push((String::from_str("title"), title.clone()));
    r.push((String::from_str("date"), date));
    r.push((String::from_str("slug"), slug.clone()));
    assert(r.deep_view() =~= seq![("title"@, title@), ("date"@, date@), ("slug"@, slug@)]);
    r
}

/// Renders the posts listing over `posts`, keeping their order.
pub fn format_posts_list(posts: &Vec<PostMetadata>, composer: &TemplateComposer) -> (r: Result<
    String,
    TemplateError,
>)
    requires
        forall|i: int| 0 <= i < posts@.len() ==> #[trigger] posts@[i].timestamp <= MAX_TIMESTAMP,
    ensures
        template_outcome(r) == rendered_list(composer@, listing_rows(metadata_views(posts@))),
{
    let mut rows: Vec<Vec<(String, String)>> = Vec::new();
    let mut k: usize = 0;
    while k < posts.len()
        invariant
            k <= posts@.len(),
            forall|i: int| 0 <= i < posts@.len() ==> #[trigger] posts@[i].timestamp <= MAX_TIMESTAMP,
            rows.deep_view() == listing_rows(metadata_views(posts@)).take(k as int),
        decreases posts@.len() - k,
    {
        let p = &posts[k];
        let row = listing_row(&p.title, p.date_str(), &p.slug);
        let ghost before = rows.deep_view();
        rows.push(row);
        proof {
            assert(rows.deep_view() =~= before.push(row.deep_view()));
            assert(listing_rows(metadata_views(posts@)).take(k as int + 1) =~= listing_rows(
                metadata_views(posts@),
            ).take(k as int).push(row.deep_view()));
        }
        k = k + 1;
    }
    assert(listing_rows(metadata_views(posts@)).take(k as int) =~= listing_rows(
        metadata_views(posts@),
    ));
    composer.render_list(rows)
}

/// Renders the posts listing over `posts`, keeping their order.
pub fn post_index_display(posts: &Vec<Post>, composer: &TemplateComposer) -> (r: Result<
    String,
    TemplateError,
>)
    requires
        forall|i: int| 0 <= i < posts@.len() ==> #[trigger] posts@[i].timestamp <= MAX_TIMESTAMP,
    ensures
        template_outcome(r) == rendered_list(composer@, listing_rows(post_views(posts@))),
{
    let mut listed: Vec<PostMetadata> = Vec::new();
    let mut k: usize = 0;
    while k < posts.len()
        invariant
            k <= posts@.len(),
            metadata_views(listed@) == post_views(posts@).take(k as int),
            forall|i: int| 0 <= i < listed@.len() ==> #[trigger] listed@[i].timestamp <= MAX_TIMESTAMP,
            forall|i: int| 0 <= i < posts@.len() ==> #[trigger] posts@[i].timestamp <= MAX_TIMESTAMP,
        decreases posts@.len() - k,
    {
        let ghost before = listed@;
        let m = posts[k].metadata();
        listed.push(m);
        proof {
            assert(listed@ == before.push(m));
            assert(metadata_views(listed@) =~= metadata_views(before).push(m@));
            assert(post_views(posts@).take(k as int + 1) =~= post_views(posts@).take(k as int).push(
                posts@[k as int]@,
            ));
            assert(listed@[k as int] == m);
        }
        k = k + 1;
    }
    assert(post_views(posts@).take(k as int) =~= post_views(posts@));
    format_posts_list(&listed, composer)
}

} // verus!
