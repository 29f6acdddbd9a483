//! Page and listing templates, rendered with handlebars.
use vstd::prelude::*;


verus! {

/// Link to the site's favicon.
pub const FAVICON_URL: &'static str = "/static/favicon.io";

/// Link to the site's home page.
pub const HOME_URL: &'static str = "/";

/// What handlebars renders from `template` with an object whose string fields are `fields`
/// and whose array fields are `lists` (each item an object of string fields); `None` when
/// rendering fails.
pub uninterp spec fn handlebars_output(
    template: Seq<char>,
    fields: Seq<(Seq<char>, Seq<char>)>,
    lists: Seq<(Seq<char>, Seq<Seq<(Seq<char>, Seq<char>)>>)>,
) -> Option<Seq<char>>;

#[verifier::external_type_specification]
#[verifier::external_body]
pub struct ExRenderError(handlebars::RenderError);

/// Relies on handlebars' `Registry::render_template`, on a fresh registry, with the data as a
/// JSON object built field for field: the output depends on the template and the data alone.
#[verifier::external_body]
fn render_handlebars(
    template: &str,
    fields: &Vec<(String, String)>,
    lists: &Vec<(String, Vec<Vec<(String, String)>>)>,
) -> (r: Result<String, handlebars::RenderError>)
    ensures
        r is Ok <==> handlebars_output(template@, fields.deep_view(), lists.deep_view()) is Some,
        r matches Ok(s) ==> handlebars_output(template@, fields.deep_view(), lists.deep_view())
            == Some(s@),
{
    let mut data = serde_json::Map::new();
    for (k, v) in fields.iter() {
        data.insert(k.clone(), v.as_str().into());
    }
    for (k, rows) in lists.iter() {
        let items: Vec<serde_json::Value> = rows.iter().map(|row| {
            row.iter().map(|(a, b)| (a.clone(), b.as_str().into())).collect::<serde_json::Map<String, serde_json::Value>>().into()
        }).collect();
        data.insert(k.clone(), items.into());
    }
    handlebars::Handlebars::new().render_template(template, &data)
}

/// Why a template could not be rendered.
#[derive(Debug, Clone)]
pub enum TemplateError {
    /// No template of that kind was given to the composer.
    TemplateNotRegistered,
    /// Handlebars refused the template or the data; its message.
    TemplateRenderError(String),
}

/// The values substituted into the base page template.
pub struct RenderParams {
    pub title: String,
    pub home_url: String,
    pub content: String,
    pub favicon_path: String,
    pub quotes_list_json: String,
    pub css: String,
}

/// The template fields of a page, by name.
pub open spec fn page_fields(
    title: Seq<char>,
    home_url: Seq<char>,
    content: Seq<char>,
    favicon_path: Seq<char>,
    quotes: Seq<char>,
    css: Seq<char>,
) -> Seq<(Seq<char>, Seq<char>)> {
    seq![
        ("title"@, title),
        ("home_url"@, home_url),
        ("content"@, content),
        ("favicon_path"@, favicon_path),
        ("quotes_list_json"@, quotes),
        ("css"@, css),
    ]
}

fn field(name: &str, value: &String) -> (r: (String, String))
    ensures
        r.0@ == name@,
        r.1@ == value@,
{
    (String::from_str(name), value.clone())
}

impl RenderParams {
    /// A page titled `title` showing `content`, with empty stylesheet and quotes.
    pub fn new(title: &str, content: &str) -> (r: RenderParams)
        ensures
            r.title@ == title@,
            r.content@ == content@,
            r.home_url@ == HOME_URL@,
            r.favicon_path@ == FAVICON_URL@,
            r.quotes_list_json@ == Seq::<char>::empty(),
            r.css@ == Seq::<char>::empty(),
    {
        RenderParams {
            title: String::from_str(title),
            home_url: String::from_str(HOME_URL),
            content: String::from_str(content),
            favicon_path: String::from_str(FAVICON_URL),
            quotes_list_json: String::new(),
            css: String::new(),
        }
    }

    /// The parameters as template fields.
    pub fn fields(&self) -> (r: Vec<(String, String)>)
        ensures
            r.deep_view() == page_fields(
                self.title@,
                self.home_url@,
                self.content@,
                self.favicon_path@,
                self.quotes_list_json@,
                self.css@,
            ),
    {
        let mut r: Vec<(String, String)> = Vec::new();
        r.push(field("title", &self.title));
        r.push(field("home_url", &self.home_url));
        r.push(field("content", &self.content));
        r.push(field("favicon_path", &self.favicon_path));
        r.push(field("quotes_list_json", &self.quotes_list_json));
        r.push(field("css", &self.css));
        assert(r.deep_view() =~= page_fields(
            self.title@,
            self.home_url@,
            self.content@,
            self.favicon_path@,
            self.quotes_list_json@,
            self.css@,
        ));
        r
    }
}


/// The templates of the site and the static values that every page shows.
pub struct TemplateComposer {
    base: Option<String>,
    posts_list: Option<String>,
    quotes_list_json: String,
    css: String,
}

pub struct ComposerView {
    pub base: Option<Seq<char>>,
    pub posts_list: Option<Seq<char>>,
    pub quotes_list_json: Seq<char>,
    pub css: Seq<char>,
}

impl View for TemplateComposer {
    type V = ComposerView;

    closed spec fn view(&self) -> ComposerView {
        ComposerView {
            base: match self.base {
                Some(t) => Some(t@),
                None => None,
            },
            posts_list: match self.posts_list {
                Some(t) => Some(t@),
                None => None,
            },
            quotes_list_json: self.quotes_list_json@,
            css: self.css@,
        }
    }
}

/// Outcome of rendering, with the error's message left out.
pub open spec fn template_outcome(r: Result<String, TemplateError>) -> Result<Seq<char>, bool> {
    match r {
        Ok(s) => Ok(s@),
        Err(TemplateError::TemplateNotRegistered) => Err(false),
        Err(TemplateError::TemplateRenderError(_)) => Err(true),
    }
}

/// What `wrap_page` gives: `Err(false)` with no base template, `Err(true)` when handlebars fails.
pub open spec fn wrapped_page(c: ComposerView, title: Seq<char>, body: Seq<char>) -> Result<
    Seq<char>,
    bool,
> {
    match c.base {
        None => Err(false),
        Some(t) => match handlebars_output(
            t,
            page_fields(title, HOME_URL@, body, FAVICON_URL@, c.quotes_list_json, c.css),
            Seq::empty(),
        ) {
            Some(s) => Ok(s),
            None => Err(true),
        },
    }
}

/// What `render_list` gives for the listing rows `rows`.
pub open spec fn rendered_list(c: ComposerView, rows: Seq<Seq<(Seq<char>, Seq<char>)>>) -> Result<
    Seq<char>,
    bool,
> {
    match c.posts_list {
        None => Err(false),
        Some(t) => match handlebars_output(t, Seq::empty(), seq![("posts"@, rows)]) {
            Some(s) => Ok(s),
            None => Err(true),
        },
    }
}

fn render_error(e: handlebars::RenderError) -> (r: TemplateError)
    ensures
        r is TemplateRenderError,
{
    TemplateError::TemplateRenderError(e.to_string())
}

impl TemplateComposer {
    /// A composer with no templates yet, whose pages carry `css` and `quotes_list_json`.
    pub fn new(css: &str, quotes_list_json: &str) -> (r: TemplateComposer)
        ensures
            r@.base is None,
            r@.posts_list is None,
            r@.css == css@,
            r@.quotes_list_json == quotes_list_json@,
    {
        TemplateComposer {
            base: None,
            posts_list: None,
            quotes_list_json: String::from_str(quotes_list_json),
            css: String::from_str(css),
        }
    }

    /// Registers the base page template.
    pub fn register_base(&mut self, template: &str)
        ensures
            final(self)@ == (ComposerView { base: Some(template@), ..old(self)@ }),
    {
        self.base = Some(String::from_str(template));
    }

    /// Registers the posts listing template.
    pub fn register_posts_list(&mut self, template: &str)
        ensures
            final(self)@ == (ComposerView { posts_list: Some(template@), ..old(self)@ }),
    {
        self.posts_list = Some(String::from_str(template));
    }

    /// Substitutes `title` and `body`, with the site's stylesheet, favicon and quotes, into
    /// the base page template.
    pub fn wrap_page(&self, title: &str, body: &str) -> (r: Result<String, TemplateError>)
        ensures
            template_outcome(r) == wrapped_page(self@, title@, body@),
    {
        match &self.base {
            None => Err(TemplateError::TemplateNotRegistered),
            Some(t) => {
                let mut params = RenderParams::new(title, body);
                params.quotes_list_json = self.quotes_list_json.clone();
                params.css = self.css.clone();
                let fields = params.fields();
                let lists: Vec<(String, Vec<Vec<(String, String)>>)> = Vec::new();
                proof {
                    assert(lists.deep_view() =~= Seq::empty());
                }
                match render_handlebars(t.as_str(), &fields, &lists) {
                    Ok(s) => Ok(s),
                    Err(e) => Err(render_error(e)),
                }
            },
        }
    }

    /// Renders the posts listing template over `rows`, in the order given.
    pub fn render_list(&self, rows: Vec<Vec<(String, String)>>) -> (r: Result<String, TemplateError>)
        ensures
            template_outcome(r) == rendered_list(self@, rows.deep_view()),
    {
        match &self.posts_list {
            None => Err(TemplateError::TemplateNotRegistered),
            Some(t) => {
                let fields: Vec<(String, String)> = Vec::new();
                let mut lists: Vec<(String, Vec<Vec<(String, String)>>)> = Vec::new();
                let ghost row_view = rows.deep_view();
                lists.push((String::from_str("posts"), rows));
                proof {
                    assert(fields.deep_view() =~= Seq::empty());
                    assert(lists.deep_view() =~= seq![("posts"@, row_view)]);
                }
                match render_handlebars(t.as_str(), &fields, &lists) {
                    Ok(s) => Ok(s),
                    Err(e) => Err(render_error(e)),
                }
            },
        }
    }
}

} // verus!
