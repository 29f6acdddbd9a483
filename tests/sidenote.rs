use blog::sidenote::process_sidenotes;

const TAIL: &str = "\n            </span> ";

fn head(n: usize) -> String {
    format!(
        "<label for=\"mn-{n}\" class=\"margin-toggle\"> &#8853;</label> \n            <input type=\"checkbox\" id=\"mn-{n}\" class=\"margin-toggle\"/>\n            <span class=\"marginnote\">\n            "
    )
}

fn note(n: usize, body: &str) -> String {
    format!("{}{}{}", head(n), body, TAIL)
}

#[test]
fn text_without_markers_is_unchanged() {
    let doc = "<p>Nothing to see (here): sidenote)</p>";
    assert_eq!(process_sidenotes(doc), doc);
}

#[test]
fn empty_document_is_unchanged() {
    assert_eq!(process_sidenotes(""), "");
}

#[test]
fn one_pair_becomes_one_margin_note() {
    let doc = "before (:sidenote a note :sidenote) after";
    let expected = format!("before {} after", note(1, " a note "));
    assert_eq!(process_sidenotes(doc), expected);
}

#[test]
fn pairs_are_numbered_left_to_right() {
    let doc = "(:sidenote one :sidenote) x (:sidenote two :sidenote) y (:sidenote three :sidenote)";
    let expected = format!("{} x {} y {}", note(1, " one "), note(2, " two "), note(3, " three "));
    let out = process_sidenotes(doc);
    assert_eq!(out, expected);
    assert!(out.contains("id=\"mn-3\""));
    assert!(!out.contains("mn-4"));
    assert!(!out.contains("(:sidenote"));
}

#[test]
fn unterminated_marker_is_left_verbatim() {
    let doc = "(:sidenote abc";
    assert_eq!(process_sidenotes(doc), doc);
}

#[test]
fn closing_marker_alone_is_left_verbatim() {
    let doc = "text :sidenote) more";
    assert_eq!(process_sidenotes(doc), doc);
}

#[test]
fn overlapping_markers_do_not_match() {
    let doc = "(:sidenote)";
    assert_eq!(process_sidenotes(doc), doc);
}

#[test]
fn body_may_span_lines() {
    let doc = "(:sidenote line one\nline two :sidenote)";
    assert_eq!(process_sidenotes(doc), note(1, " line one\nline two "));
}

#[test]
fn empty_body_is_kept() {
    let doc = "(:sidenote:sidenote)";
    assert_eq!(process_sidenotes(doc), note(1, ""));
}

#[test]
fn first_closing_marker_ends_a_pair_and_the_rest_is_rescanned() {
    let doc = "(:sidenote a (:sidenote b :sidenote) c :sidenote)";
    let inner_body = format!(" b {} c ", TAIL);
    let expected = format!("{} a {}", head(1), note(2, &inner_body));
    assert_eq!(process_sidenotes(doc), expected);
}

#[test]
fn unterminated_marker_after_a_pair_stays() {
    let doc = "(:sidenote x :sidenote) and (:sidenote y";
    let expected = format!("{} and (:sidenote y", note(1, " x "));
    assert_eq!(process_sidenotes(doc), expected);
}

#[test]
fn ten_pairs_get_two_digit_ids() {
    let doc = "(:sidenote n :sidenote)".repeat(10);
    let out = process_sidenotes(&doc);
    let expected: String = (1..=10).map(|n| note(n, " n ")).collect();
    assert_eq!(out, expected);
    assert!(out.contains("for=\"mn-10\""));
}

#[test]
fn non_ascii_text_is_preserved() {
    let doc = "é (:sidenote ü → ✓ :sidenote) ñ";
    let expected = format!("é {} ñ", note(1, " ü → ✓ "));
    assert_eq!(process_sidenotes(doc), expected);
}
