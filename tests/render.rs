use blog::post::{Post, PostMetadata};
use blog::render::{
    format_posts_list, markdown_to_html, post_index_display, render_html_str, render_markdown,
    render_md, MdRenderOpts, PipelineError, RenderBuilder,
};
use blog::template::{RenderParams, TemplateComposer, TemplateError};

const BASE: &str = "<title>{{title}}</title><link href=\"{{favicon_path}}\"><a href=\"{{home_url}}\"></a><style>{{css}}</style><q>{{quotes_list_json}}</q><main>{{{content}}}</main>";
const LIST: &str = "{{#each posts}}[{{title}}|{{date}}|{{slug}}]{{/each}}";

fn composer() -> TemplateComposer {
    let mut c = TemplateComposer::new("body{}", "[\"q\"]");
    c.register_base(BASE);
    c.register_posts_list(LIST);
    c
}

fn page(title: &str, content: &str) -> String {
    format!(
        "<title>{title}</title><link href=\"/static/favicon.io\"><a href=\"/\"></a><style>body{{}}</style><q>[&quot;q&quot;]</q><main>{content}</main>"
    )
}

fn count(haystack: &str, needle: &str) -> usize {
    haystack.matches(needle).count()
}

#[test]
fn markdown_becomes_html() {
    assert_eq!(markdown_to_html("~Venus~Mars!").unwrap(), "<p><del>Venus</del>Mars!</p>");
    assert_eq!(markdown_to_html("# Title").unwrap(), "<h1>Title</h1>");
    assert_eq!(markdown_to_html("").unwrap(), "");
}

#[test]
fn markdown_with_sidenotes_end_to_end() {
    let c = TemplateComposer::new("", "");
    let mut b = RenderBuilder::new();
    b.md_content("# T\n(:sidenote foo :sidenote) body").sidenotes();
    let out = b.render(&c).unwrap();
    assert_eq!(count(&out, "<h1>T</h1>"), 1);
    assert_eq!(count(&out, "<h1"), 1);
    assert_eq!(count(&out, "class=\"marginnote\""), 1);
    assert!(out.contains("<label for=\"mn-1\""));
    assert!(out.contains("id=\"mn-1\""));
    assert!(!out.contains("mn-2"));
    assert!(out.contains(" foo "));
    assert!(!out.contains("(:sidenote"));
}

#[test]
fn both_contents_are_ambiguous() {
    let c = TemplateComposer::new("", "");
    let mut b = RenderBuilder::new();
    b.md_content("# x").html_content("<p>x</p>").sidenotes().into_base_template("T");
    assert!(matches!(b.render(&c), Err(PipelineError::AmbiguousContent)));
}

#[test]
fn no_content_is_missing() {
    let c = composer();
    let mut b = RenderBuilder::new();
    b.sidenotes();
    assert!(matches!(b.render(&c), Err(PipelineError::MissingContent)));
    assert!(matches!(RenderBuilder::new().render(&c), Err(PipelineError::MissingContent)));
}

#[test]
fn html_content_is_used_as_is() {
    let c = TemplateComposer::new("", "");
    let mut b = RenderBuilder::new();
    b.html_content("<p>(:sidenote n :sidenote)</p>");
    assert_eq!(b.render(&c).unwrap(), "<p>(:sidenote n :sidenote)</p>");
}

#[test]
fn template_wraps_the_page() {
    let c = composer();
    let mut b = RenderBuilder::new();
    b.html_content("<p>hi</p>").into_base_template("Home & more");
    assert_eq!(b.render(&c).unwrap(), page("Home &amp; more", "<p>hi</p>"));
}

#[test]
fn missing_base_template_is_reported() {
    let c = TemplateComposer::new("", "");
    let mut b = RenderBuilder::new();
    b.html_content("<p>hi</p>").into_base_template("T");
    assert!(matches!(b.render(&c), Err(PipelineError::TemplateNotRegistered)));
    assert!(matches!(c.wrap_page("T", "x"), Err(TemplateError::TemplateNotRegistered)));
}

#[test]
fn broken_template_is_reported() {
    let mut c = TemplateComposer::new("", "");
    c.register_base("{{#if}}");
    assert!(matches!(c.wrap_page("T", "x"), Err(TemplateError::TemplateRenderError(_))));
    let mut b = RenderBuilder::new();
    b.html_content("x").into_base_template("T");
    assert!(matches!(b.render(&c), Err(PipelineError::TemplateRenderError(_))));
}

#[test]
fn post_process_applies_steps_to_given_html() {
    let c = composer();
    let mut b = RenderBuilder::new();
    b.sidenotes().into_base_template("P");
    let out = b.post_process(&c, "(:sidenote a :sidenote)".to_string()).unwrap();
    assert!(out.starts_with("<title>P</title>"));
    assert!(out.contains("for=\"mn-1\""));
}

#[test]
fn render_md_page() {
    let c = composer();
    let out = render_md("Post", "Text (:sidenote n :sidenote)", &c).unwrap();
    assert!(out.starts_with("<title>Post</title>"));
    assert!(out.contains("<p>Text <label for=\"mn-1\""));
}

#[test]
fn render_html_page() {
    let c = composer();
    let out = render_html_str("About", "<p>me</p>", &c).unwrap();
    assert_eq!(out, page("About", "<p>me</p>"));
}

#[test]
fn render_markdown_options() {
    let c = composer();
    let plain = MdRenderOpts { with_template: false, with_sidenotes: false };
    assert_eq!(render_markdown("(:sidenote x :sidenote)", &plain, &c).unwrap(), "<p>(:sidenote x :sidenote)</p>");
    let full = MdRenderOpts { with_template: true, with_sidenotes: true };
    let out = render_markdown("(:sidenote x :sidenote)", &full, &c).unwrap();
    assert!(out.starts_with("<title>Page</title>"));
    assert!(out.contains("mn-1"));
}

#[test]
fn options_from_entries() {
    let entries = vec![
        ("with_template".to_string(), true),
        ("other".to_string(), true),
        ("with_sidenotes".to_string(), true),
        ("with_template".to_string(), false),
    ];
    let o = MdRenderOpts::from_obj(&entries);
    assert!(!o.with_template);
    assert!(o.with_sidenotes);
    let none = MdRenderOpts::from_obj(&vec![]);
    assert!(!none.with_template && !none.with_sidenotes);
}

#[test]
fn listing_keeps_given_order() {
    let c = composer();
    let posts = vec![
        PostMetadata { title: "B".to_string(), slug: "b".to_string(), timestamp: 86400 },
        PostMetadata { title: "A".to_string(), slug: "a".to_string(), timestamp: 0 },
    ];
    assert_eq!(format_posts_list(&posts, &c).unwrap(), "[B|1970-01-02|b][A|1970-01-01|a]");
    let rows = vec![Post { title: "<x>".to_string(), timestamp: 0, slug: "x".to_string() }];
    assert_eq!(post_index_display(&rows, &c).unwrap(), "[&lt;x&gt;|1970-01-01|x]");
}

#[test]
fn listing_without_template() {
    let c = TemplateComposer::new("", "");
    assert!(matches!(format_posts_list(&vec![], &c), Err(TemplateError::TemplateNotRegistered)));
}

#[test]
fn render_params_defaults() {
    let p = RenderParams::new("T", "C");
    assert_eq!(p.home_url, "/");
    assert_eq!(p.favicon_path, "/static/favicon.io");
    let fields = p.fields();
    assert_eq!(fields.len(), 6);
    assert_eq!(fields[0], ("title".to_string(), "T".to_string()));
    assert_eq!(fields[2], ("content".to_string(), "C".to_string()));
}
