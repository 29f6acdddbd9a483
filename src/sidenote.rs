//! Expansion of inline `(:sidenote <body> :sidenote)` markers into margin-note markup.
//!
//! The document is rewritten by repeatedly replacing the leftmost marker pair, rescanning
//! from the start after each replacement. The `n`-th replacement of a call gets the
//! identifier `mn-n`. Nesting is not supported: a pair ends at the first closing marker
//! after its opening marker.
use vstd::prelude::*;

use crate::text::{chars_of, string_of};

verus! {

/// Start of the toggle label, up to the identifier's number.
pub const NOTE_LABEL_START: &'static str = "<label for=\"mn-";

/// From the label's identifier to the checkbox's identifier number.
pub const NOTE_INPUT_START: &'static str = "\" class=\"margin-toggle\"> &#8853;</label> \n            <input type=\"checkbox\" id=\"mn-";

/// From the checkbox's identifier to the note body.
pub const NOTE_BODY_START: &'static str = "\" class=\"margin-toggle\"/>\n            <span class=\"marginnote\">\n            ";

/// After the note body.
pub const NOTE_END: &'static str = "\n            </span> ";

/// The opening marker `(:sidenote` starts at `i` in `s`.
pub open spec fn opens_at(s: Seq<char>, i: int) -> bool {
    &&& 0 <= i && i + 10 <= s.len()
    &&& s[i] == '(' && s[i + 1] == ':' && s[i + 2] == 's' && s[i + 3] == 'i' && s[i + 4] == 'd'
    &&& s[i + 5] == 'e' && s[i + 6] == 'n' && s[i + 7] == 'o' && s[i + 8] == 't' && s[i + 9] == 'e'
}

/// The closing marker `:sidenote)` starts at `i` in `s`.
pub open spec fn closes_at(s: Seq<char>, i: int) -> bool {
    &&& 0 <= i && i + 10 <= s.len()
    &&& s[i] == ':' && s[i + 1] == 's' && s[i + 2] == 'i' && s[i + 3] == 'd' && s[i + 4] == 'e'
    &&& s[i + 5] == 'n' && s[i + 6] == 'o' && s[i + 7] == 't' && s[i + 8] == 'e' && s[i + 9] == ')'
}

/// An opening marker at `a` together with the first closing marker that starts after it, at `c`.
pub open spec fn is_pair(s: Seq<char>, a: int, c: int) -> bool {
    &&& opens_at(s, a)
    &&& a + 10 <= c
    &&& closes_at(s, c)
    &&& forall|j: int| a + 10 <= j < c ==> !closes_at(s, j)
}

/// The marker pair of `s` that starts first.
pub open spec fn is_leftmost_pair(s: Seq<char>, a: int, c: int) -> bool {
    &&& is_pair(s, a, c)
    &&& forall|a2: int, c2: int| #[trigger] is_pair(s, a2, c2) ==> a <= a2
}

pub open spec fn has_pair(s: Seq<char>) -> bool {
    exists|a: int, c: int| is_pair(s, a, c)
}

pub open spec fn leftmost_pair(s: Seq<char>) -> (int, int) {
    choose|p: (int, int)| is_leftmost_pair(s, p.0, p.1)
}

pub open spec fn digit_char(d: int) -> char {
    if d == 0 {
        '0'
    } else if d == 1 {
        '1'
    } else if d == 2 {
        '2'
    } else if d == 3 {
        '3'
    } else if d == 4 {
        '4'
    } else if d == 5 {
        '5'
    } else if d == 6 {
        '6'
    } else if d == 7 {
        '7'
    } else if d == 8 {
        '8'
    } else {
        '9'
    }
}

/// Decimal digits of `n`, without leading zeros.
pub open spec fn decimal(n: nat) -> Seq<char>
    decreases n,
{
    if n < 10 {
        seq![digit_char(n as int)]
    } else {
        decimal(n / 10).push(digit_char((n % 10) as int))
    }
}

/// The markup before the body of the note numbered `n`.
pub open spec fn note_head(n: nat) -> Seq<char> {
    NOTE_LABEL_START@ + decimal(n) + NOTE_INPUT_START@ + decimal(n) + NOTE_BODY_START@
}

/// Toggle control bound to `mn-n` and a margin-note container holding `body` unchanged.
pub open spec fn margin_note(n: nat, body: Seq<char>) -> Seq<char> {
    note_head(n) + body + NOTE_END@
}

/// `s` with the pair at `a`, `c` replaced by the margin note numbered `n`.
pub open spec fn replace_pair(s: Seq<char>, a: int, c: int, n: nat) -> Seq<char> {
    s.subrange(0, a) + margin_note(n, s.subrange(a + 10, c)) + s.subrange(c + 10, s.len() as int)
}

pub open spec fn is_bracket(c: char) -> bool {
    c == '(' || c == ')'
}

/// Number of parentheses in `s`; every replacement removes two of them.
pub open spec fn bracket_count(s: Seq<char>) -> nat
    decreases s.len(),
{
    if s.len() == 0 {
        0
    } else {
        bracket_count(s.drop_last()) + if is_bracket(s.last()) {
            1nat
        } else {
            0nat
        }
    }
}

/// Rewrites the leftmost pair of `s` into note number `n`, then the rest from note `n + 1` on.
pub open spec fn rewrite_from(s: Seq<char>, n: nat) -> Seq<char>
    decreases bracket_count(s),
{
    if has_pair(s) {
        proof {
            lemma_leftmost_pair(s);
            lemma_replace_pair_brackets(s, leftmost_pair(s).0, leftmost_pair(s).1, n);
        }
        rewrite_from(replace_pair(s, leftmost_pair(s).0, leftmost_pair(s).1, n), n + 1)
    } else {
        s
    }
}

/// The document `s` with every sidenote marker pair expanded, numbered from 1.
pub open spec fn with_margin_notes(s: Seq<char>) -> Seq<char> {
    rewrite_from(s, 1)
}

proof fn lemma_bracket_count_concat(x: Seq<char>, y: Seq<char>)
    ensures
        bracket_count(x + y) == bracket_count(x) + bracket_count(y),
    decreases y.len(),
{
    if y.len() == 0 {
        assert(x + y =~= x);
    } else {
        assert((x + y).drop_last() =~= x + y.drop_last());
        lemma_bracket_count_concat(x, y.drop_last());
    }
}

proof fn lemma_bracket_count_le_len(s: Seq<char>)
    ensures
        bracket_count(s) <= s.len(),
    decreases s.len(),
{
    if s.len() > 0 {
        lemma_bracket_count_le_len(s.drop_last());
    }
}

proof fn lemma_no_brackets(s: Seq<char>)
    requires
        forall|i: int| 0 <= i < s.len() ==> !is_bracket(#[trigger] s[i]),
    ensures
        bracket_count(s) == 0,
    decreases s.len(),
{
    if s.len() > 0 {
        lemma_no_brackets(s.drop_last());
    }
}

proof fn lemma_one_bracket(c: char)
    ensures
        bracket_count(seq![c]) == if is_bracket(c) {
            1nat
        } else {
            0nat
        },
{
    let one = seq![c];
    assert(one.drop_last() =~= Seq::<char>::empty());
    assert(bracket_count(Seq::<char>::empty()) == 0);
    assert(one.last() == c);
}

proof fn lemma_decimal_digits(n: nat)
    ensures
        decimal(n).len() > 0,
        forall|i: int|
            0 <= i < decimal(n).len() ==> '0' <= #[trigger] decimal(n)[i] && decimal(n)[i] <= '9',
    decreases n,
{
    if n >= 10 {
        lemma_decimal_digits(n / 10);
    }
}

proof fn lemma_note_head_plain(n: nat)
    ensures
        forall|i: int|
            0 <= i < note_head(n).len() ==> !is_bracket(#[trigger] note_head(n)[i]) && note_head(
                n,
            )[i] != ':',
        note_head(n).len() > 0,
        note_head(n)[0] == '<',
        note_head(n).last() == ' ',
{
    reveal_strlit("<label for=\"mn-");
    reveal_strlit(
        "\" class=\"margin-toggle\"> &#8853;</label> \n            <input type=\"checkbox\" id=\"mn-",
    );
    reveal_strlit("\" class=\"margin-toggle\"/>\n            <span class=\"marginnote\">\n            ");
    lemma_decimal_digits(n);
    let h = note_head(n);
    assert(h == NOTE_LABEL_START@ + decimal(n) + NOTE_INPUT_START@ + decimal(n) + NOTE_BODY_START@);
}

proof fn lemma_note_end_plain()
    ensures
        forall|i: int|
            0 <= i < NOTE_END@.len() ==> !is_bracket(#[trigger] NOTE_END@[i]) && NOTE_END@[i]
                != ':',
        NOTE_END@.len() > 0,
        NOTE_END@[0] == '\n',
        NOTE_END@.last() == ' ',
{
    reveal_strlit("\n            </span> ");
}

/// Each replacement removes exactly the two parentheses of the markers.
pub proof fn lemma_replace_pair_brackets(s: Seq<char>, a: int, c: int, n: nat)
    requires
        is_pair(s, a, c),
    ensures
        bracket_count(s) == bracket_count(replace_pair(s, a, c, n)) + 2,
{
    let pre = s.subrange(0, a);
    let body = s.subrange(a + 10, c);
    let post = s.subrange(c + 10, s.len() as int);
    let open_rest = s.subrange(a + 1, a + 10);
    let close_rest = s.subrange(c, c + 9);
    assert(s =~= pre + seq![s[a]] + open_rest + body + close_rest + seq![s[c + 9]] + post);
    lemma_bracket_count_concat(pre + seq![s[a]] + open_rest + body + close_rest + seq![s[c + 9]], post);
    lemma_bracket_count_concat(pre + seq![s[a]] + open_rest + body + close_rest, seq![s[c + 9]]);
    lemma_bracket_count_concat(pre + seq![s[a]] + open_rest + body, close_rest);
    lemma_bracket_count_concat(pre + seq![s[a]] + open_rest, body);
    lemma_bracket_count_concat(pre + seq![s[a]], open_rest);
    lemma_bracket_count_concat(pre, seq![s[a]]);
    lemma_one_bracket(s[a]);
    lemma_one_bracket(s[c + 9]);
    lemma_no_brackets(open_rest);
    lemma_no_brackets(close_rest);
    lemma_note_head_plain(n);
    lemma_note_end_plain();
    lemma_no_brackets(note_head(n));
    lemma_no_brackets(NOTE_END@);
    lemma_bracket_count_concat(pre + note_head(n) + body, NOTE_END@);
    lemma_bracket_count_concat(pre + note_head(n), body);
    lemma_bracket_count_concat(pre, note_head(n));
    lemma_bracket_count_concat(pre + margin_note(n, body), post);
    assert(pre + margin_note(n, body) =~= pre + note_head(n) + body + NOTE_END@);
}

proof fn lemma_leftmost_exists(s: Seq<char>, a: int, c: int)
    requires
        is_pair(s, a, c),
    ensures
        exists|a1: int, c1: int| is_leftmost_pair(s, a1, c1),
    decreases a,
{
    if forall|a2: int, c2: int| is_pair(s, a2, c2) ==> a <= a2 {
        assert(is_leftmost_pair(s, a, c));
    } else {
        let (a2, c2) = choose|a2: int, c2: int| is_pair(s, a2, c2) && a2 < a;
        lemma_leftmost_exists(s, a2, c2);
    }
}

proof fn lemma_leftmost_unique(s: Seq<char>, a: int, c: int, a2: int, c2: int)
    requires
        is_leftmost_pair(s, a, c),
        is_leftmost_pair(s, a2, c2),
    ensures
        a == a2,
        c == c2,
{
    assert(a <= a2);
    assert(a2 <= a);
    if c < c2 {
        assert(!closes_at(s, c));
    } else if c2 < c {
        assert(!closes_at(s, c2));
    }
}

/// The leftmost pair exists whenever some pair does, and `leftmost_pair` names it.
pub proof fn lemma_leftmost_pair(s: Seq<char>)
    requires
        has_pair(s),
    ensures
        is_leftmost_pair(s, leftmost_pair(s).0, leftmost_pair(s).1),
{
    let (a, c) = choose|a: int, c: int| is_pair(s, a, c);
    lemma_leftmost_exists(s, a, c);
    let (a1, c1) = choose|a1: int, c1: int| is_leftmost_pair(s, a1, c1);
    assert(is_leftmost_pair(s, (a1, c1).0, (a1, c1).1));
}

/// `(:sidenote`
pub open spec fn opening_marker() -> Seq<char> {
    seq!['(', ':', 's', 'i', 'd', 'e', 'n', 'o', 't', 'e']
}

/// `:sidenote)`
pub open spec fn closing_marker() -> Seq<char> {
    seq![':', 's', 'i', 'd', 'e', 'n', 'o', 't', 'e', ')']
}

/// `s` holds neither marker anywhere.
pub open spec fn marker_free(s: Seq<char>) -> bool {
    forall|i: int| !opens_at(s, i) && !closes_at(s, i)
}

/// `texts[0] (:sidenote bodies[0] :sidenote) texts[1] ... texts[k]`, for `k` bodies.
pub open spec fn marked_document(texts: Seq<Seq<char>>, bodies: Seq<Seq<char>>) -> Seq<char>
    decreases bodies.len(),
{
    if bodies.len() == 0 {
        texts[0]
    } else {
        texts[0] + opening_marker() + bodies[0] + closing_marker() + marked_document(
            texts.drop_first(),
            bodies.drop_first(),
        )
    }
}

/// `texts[0] note(n, bodies[0]) texts[1] note(n + 1, bodies[1]) ... texts[k]`.
pub open spec fn noted_document(texts: Seq<Seq<char>>, bodies: Seq<Seq<char>>, n: nat) -> Seq<
    char,
>
    decreases bodies.len(),
{
    if bodies.len() == 0 {
        texts[0]
    } else {
        texts[0] + margin_note(n, bodies[0]) + noted_document(
            texts.drop_first(),
            bodies.drop_first(),
            n + 1,
        )
    }
}

spec fn marker_char(c: char) -> bool {
    c == '(' || c == ':' || c == 's' || c == 'i' || c == 'd' || c == 'e' || c == 'n' || c == 'o'
        || c == 't' || c == ')'
}

proof fn lemma_marker_chars(s: Seq<char>, i: int)
    requires
        opens_at(s, i) || closes_at(s, i),
    ensures
        forall|k: int| i <= k < i + 10 ==> marker_char(#[trigger] s[k]),
        opens_at(s, i) ==> forall|k: int| i < k < i + 10 ==> #[trigger] s[k] != '(',
        closes_at(s, i) ==> forall|k: int| i <= k < i + 9 ==> #[trigger] s[k] != ')',
{
    assert forall|k: int| i <= k < i + 10 implies marker_char(#[trigger] s[k]) && (opens_at(s, i)
        && i < k ==> s[k] != '(') && (closes_at(s, i) && k < i + 9 ==> s[k] != ')') by {
        assert(k == i || k == i + 1 || k == i + 2 || k == i + 3 || k == i + 4 || k == i + 5 || k
            == i + 6 || k == i + 7 || k == i + 8 || k == i + 9);
    }
}

proof fn lemma_concat_marker_free(x: Seq<char>, y: Seq<char>)
    requires
        marker_free(x),
        marker_free(y),
        x.len() == 0 || y.len() == 0 || !marker_char(x.last()) || !marker_char(y[0]),
    ensures
        marker_free(x + y),
{
    let s = x + y;
    assert forall|i: int| !opens_at(s, i) && !closes_at(s, i) by {
        if opens_at(s, i) || closes_at(s, i) {
            lemma_marker_chars(s, i);
            if i + 10 <= x.len() {
                assert(!opens_at(x, i) && !closes_at(x, i));
            } else if i >= x.len() {
                assert(!opens_at(y, i - x.len()) && !closes_at(y, i - x.len()));
            } else {
                assert(s[x.len() - 1] == x.last());
                assert(marker_char(s[x.len() - 1]));
                assert(marker_char(s[x.len() as int]));
            }
        }
    }
}

proof fn lemma_plain_marker_free(s: Seq<char>)
    requires
        forall|i: int| 0 <= i < s.len() ==> !is_bracket(#[trigger] s[i]),
    ensures
        marker_free(s),
{
    assert forall|i: int| !opens_at(s, i) && !closes_at(s, i) by {
        if opens_at(s, i) {
            assert(is_bracket(s[i]));
        }
        if closes_at(s, i) {
            assert(is_bracket(s[i + 9]));
        }
    }
}

proof fn lemma_note_joins_marker_free(x: Seq<char>, n: nat, body: Seq<char>, y: Seq<char>)
    requires
        marker_free(x),
        marker_free(body),
        marker_free(y),
    ensures
        marker_free(x + margin_note(n, body) + y),
{
    lemma_note_head_plain(n);
    lemma_note_end_plain();
    lemma_plain_marker_free(note_head(n));
    lemma_plain_marker_free(NOTE_END@);
    lemma_concat_marker_free(x, note_head(n));
    lemma_concat_marker_free(x + note_head(n), body);
    lemma_concat_marker_free(x + note_head(n) + body, NOTE_END@);
    lemma_concat_marker_free(x + note_head(n) + body + NOTE_END@, y);
    assert(x + margin_note(n, body) + y =~= x + note_head(n) + body + NOTE_END@ + y);
}

proof fn lemma_first_pair_of_marked(t: Seq<char>, body: Seq<char>, rest: Seq<char>)
    requires
        marker_free(t),
        marker_free(body),
    ensures
        ({
            let doc = t + opening_marker() + body + closing_marker() + rest;
            let c = (t.len() + 10 + body.len()) as int;
            &&& is_leftmost_pair(doc, t.len() as int, c)
            &&& doc.subrange(0, t.len() as int) == t
            &&& doc.subrange(t.len() + 10int, c) == body
            &&& doc.subrange(c + 10, doc.len() as int) == rest
        }),
{
    let doc = t + opening_marker() + body + closing_marker() + rest;
    let a = t.len() as int;
    let c = (t.len() + 10 + body.len()) as int;
    assert(opens_at(doc, a));
    assert(closes_at(doc, c));
    assert forall|j: int| a + 10 <= j < c implies !closes_at(doc, j) by {
        if closes_at(doc, j) {
            lemma_marker_chars(doc, j);
            if j + 10 <= c {
                assert(closes_at(body, j - a - 10));
            } else {
                assert(doc[j + 9] == closing_marker()[j + 9 - c]);
            }
        }
    }
    assert(is_pair(doc, a, c));
    assert forall|a2: int, c2: int| #[trigger] is_pair(doc, a2, c2) implies a <= a2 by {
        if a2 < a {
            lemma_marker_chars(doc, a2);
            if a2 + 10 <= a {
                assert(opens_at(t, a2));
            } else {
                assert(doc[a] == '(');
            }
        }
    }
    assert(doc.subrange(0, a) =~= t);
    assert(doc.subrange(a + 10, c) =~= body);
    assert(doc.subrange(c + 10, doc.len() as int) =~= rest);
}

proof fn lemma_merge_first_text(texts: Seq<Seq<char>>, bodies: Seq<Seq<char>>, front: Seq<char>)
    requires
        texts.len() == bodies.len() + 1,
    ensures
        marked_document(texts.update(0, front + texts[0]), bodies) == front + marked_document(
            texts,
            bodies,
        ),
        forall|n: nat|
            noted_document(texts.update(0, front + texts[0]), bodies, n) == front
                + noted_document(texts, bodies, n),
{
    let merged = texts.update(0, front + texts[0]);
    assert(merged.drop_first() =~= texts.drop_first());
    if bodies.len() == 0 {
        assert(marked_document(merged, bodies) =~= front + marked_document(texts, bodies));
    } else {
        assert(marked_document(merged, bodies) =~= front + marked_document(texts, bodies));
    }
    assert forall|n: nat|
        noted_document(merged, bodies, n) == front + noted_document(texts, bodies, n) by {
        assert(noted_document(merged, bodies, n) =~= front + noted_document(texts, bodies, n));
    }
}

proof fn lemma_rewrite_first_pair(t: Seq<char>, body: Seq<char>, rest: Seq<char>, n: nat)
    requires
        marker_free(t),
        marker_free(body),
    ensures
        rewrite_from(t + opening_marker() + body + closing_marker() + rest, n) == rewrite_from(
            t + margin_note(n, body) + rest,
            n + 1,
        ),
{
    let doc = t + opening_marker() + body + closing_marker() + rest;
    lemma_first_pair_of_marked(t, body, rest);
    let c = (t.len() + 10 + body.len()) as int;
    lemma_leftmost_pair(doc);
    lemma_leftmost_unique(doc, t.len() as int, c, leftmost_pair(doc).0, leftmost_pair(doc).1);
    assert(replace_pair(doc, t.len() as int, c, n) == t + margin_note(n, body) + rest);
}

proof fn lemma_rewrite_marked(texts: Seq<Seq<char>>, bodies: Seq<Seq<char>>, n: nat)
    requires
        texts.len() == bodies.len() + 1,
        forall|i: int| 0 <= i < texts.len() ==> marker_free(#[trigger] texts[i]),
        forall|i: int| 0 <= i < bodies.len() ==> marker_free(#[trigger] bodies[i]),
    ensures
        rewrite_from(marked_document(texts, bodies), n) == noted_document(texts, bodies, n),
    decreases bodies.len(),
{
    let doc = marked_document(texts, bodies);
    if bodies.len() == 0 {
        assert(marker_free(texts[0]));
        assert(!has_pair(doc));
    } else {
        let t = texts[0];
        let body = bodies[0];
        let tail_texts = texts.drop_first();
        let tail_bodies = bodies.drop_first();
        let rest = marked_document(tail_texts, tail_bodies);
        assert(marker_free(texts[0]));
        assert(marker_free(bodies[0]));
        assert(marker_free(tail_texts[0]));
        lemma_rewrite_first_pair(t, body, rest, n);
        let front = t + margin_note(n, body);
        let merged = tail_texts.update(0, front + tail_texts[0]);
        lemma_merge_first_text(tail_texts, tail_bodies, front);
        lemma_note_joins_marker_free(t, n, body, tail_texts[0]);
        assert forall|i: int| 0 <= i < merged.len() implies marker_free(#[trigger] merged[i]) by {
            if i > 0 {
                assert(merged[i] == texts[i + 1]);
            }
        }
        assert forall|i: int| 0 <= i < tail_bodies.len() implies marker_free(
            #[trigger] tail_bodies[i],
        ) by {
            assert(tail_bodies[i] == bodies[i + 1]);
        }
        lemma_rewrite_marked(merged, tail_bodies, n + 1);
    }
}

/// A document made of `k` well-formed, non-nested marker pairs around marker-free text comes
/// out with exactly `k` margin notes, numbered `mn-1` to `mn-k` from left to right, and with
/// the text between them unchanged.
pub proof fn lemma_pairs_numbered_in_order(texts: Seq<Seq<char>>, bodies: Seq<Seq<char>>)
    requires
        texts.len() == bodies.len() + 1,
        forall|i: int| 0 <= i < texts.len() ==> marker_free(#[trigger] texts[i]),
        forall|i: int| 0 <= i < bodies.len() ==> marker_free(#[trigger] bodies[i]),
    ensures
        with_margin_notes(marked_document(texts, bodies)) == noted_document(texts, bodies, 1),
{
    lemma_rewrite_marked(texts, bodies, 1);
}

/// A document without an opening marker comes back unchanged.
pub proof fn lemma_no_opening_unchanged(s: Seq<char>)
    requires
        forall|i: int| !opens_at(s, i),
    ensures
        with_margin_notes(s) == s,
{
    assert(!has_pair(s));
}

/// A document without a closing marker comes back unchanged: an unterminated opening marker
/// stays as plain text.
pub proof fn lemma_no_closing_unchanged(s: Seq<char>)
    requires
        forall|i: int| !closes_at(s, i),
    ensures
        with_margin_notes(s) == s,
{
    assert(!has_pair(s));
}

fn opens_at_exec(doc: &Vec<char>, i: usize) -> (r: bool)
    requires
        i + 10 <= doc.len(),
    ensures
        r == opens_at(doc@, i as int),
{
    doc[i] == '(' && doc[i + 1] == ':' && doc[i + 2] == 's' && doc[i + 3] == 'i' && doc[i + 4]
        == 'd' && doc[i + 5] == 'e' && doc[i + 6] == 'n' && doc[i + 7] == 'o' && doc[i + 8] == 't'
        && doc[i + 9] == 'e'
}

fn closes_at_exec(doc: &Vec<char>, i: usize) -> (r: bool)
    requires
        i + 10 <= doc.len(),
    ensures
        r == closes_at(doc@, i as int),
{
    doc[i] == ':' && doc[i + 1] == 's' && doc[i + 2] == 'i' && doc[i + 3] == 'd' && doc[i + 4]
        == 'e' && doc[i + 5] == 'n' && doc[i + 6] == 'o' && doc[i + 7] == 't' && doc[i + 8] == 'e'
        && doc[i + 9] == ')'
}

/// Finds the leftmost marker pair: the first opening marker, and the first closing marker
/// after it. When the first opening marker has no closing marker after it, no later one has.
fn find_pair(doc: &Vec<char>) -> (r: Option<(usize, usize)>)
    ensures
        r is None <==> !has_pair(doc@),
        r matches Some(p) ==> is_leftmost_pair(doc@, p.0 as int, p.1 as int),
{
    let n = doc.len();
    let mut i: usize = 0;
    while i < n && n - i >= 10
        invariant
            n == doc.len(),
            i <= n,
            forall|k: int| 0 <= k < i ==> !opens_at(doc@, k),
        decreases n - i,
    {
        if opens_at_exec(doc, i) {
            let mut j: usize = i + 10;
            while j < n && n - j >= 10
                invariant
                    n == doc.len(),
                    i + 10 <= j <= n,
                    opens_at(doc@, i as int),
                    forall|k: int| 0 <= k < i ==> !opens_at(doc@, k),
                    forall|k: int| i + 10 <= k < j ==> !closes_at(doc@, k),
                decreases n - j,
            {
                if closes_at_exec(doc, j) {
                    assert(is_pair(doc@, i as int, j as int));
                    return Some((i, j));
                }
                j = j + 1;
            }
            assert forall|a2: int, c2: int| !is_pair(doc@, a2, c2) by {
                if is_pair(doc@, a2, c2) {
                    assert(a2 >= i);
                    assert(!closes_at(doc@, c2));
                }
            }
            return None;
        }
        i = i + 1;
    }
    assert forall|a2: int, c2: int| !is_pair(doc@, a2, c2) by {
        if is_pair(doc@, a2, c2) {
            assert(!opens_at(doc@, a2));
        }
    }
    None
}

fn digit_exec(d: usize) -> (r: char)
    requires
        d < 10,
    ensures
        r == digit_char(d as int),
{
    if d == 0 {
        '0'
    } else if d == 1 {
        '1'
    } else if d == 2 {
        '2'
    } else if d == 3 {
        '3'
    } else if d == 4 {
        '4'
    } else if d == 5 {
        '5'
    } else if d == 6 {
        '6'
    } else if d == 7 {
        '7'
    } else if d == 8 {
        '8'
    } else {
        '9'
    }
}

fn push_decimal(out: &mut Vec<char>, n: usize)
    ensures
        final(out)@ == old(out)@ + decimal(n as nat),
    decreases n,
{
    if n >= 10 {
        push_decimal(out, n / 10);
    }
    out.push(digit_exec(n % 10));
    assert(out@ =~= old(out)@ + decimal(n as nat));
}

fn push_str(out: &mut Vec<char>, s: &str)
    ensures
        final(out)@ == old(out)@ + s@,
{
    let ghost start = out@;
    for c in it: s.chars()
        invariant
            out@ == start + it.seq().take(it.index() as int),
            start == old(out)@,
    {
        out.push(c);
        assert(out@ =~= start + it.seq().take(it.index() as int + 1));
    }
}

fn push_range(out: &mut Vec<char>, doc: &Vec<char>, from: usize, to: usize)
    requires
        from <= to <= doc.len(),
    ensures
        final(out)@ == old(out)@ + doc@.subrange(from as int, to as int),
{
    let mut i: usize = from;
    while i < to
        invariant
            from <= i <= to <= doc.len(),
            out@ == old(out)@ + doc@.subrange(from as int, i as int),
        decreases to - i,
    {
        out.push(doc[i]);
        i = i + 1;
        assert(out@ =~= old(out)@ + doc@.subrange(from as int, i as int));
    }
}

fn replace_pair_exec(doc: &Vec<char>, a: usize, c: usize, n: usize) -> (r: Vec<char>)
    requires
        a + 10 <= c,
        c + 10 <= doc.len(),
    ensures
        r@ == replace_pair(doc@, a as int, c as int, n as nat),
{
    let mut out: Vec<char> = Vec::new();
    push_range(&mut out, doc, 0, a);
    push_str(&mut out, NOTE_LABEL_START);
    push_decimal(&mut out, n);
    push_str(&mut out, NOTE_INPUT_START);
    push_decimal(&mut out, n);
    push_str(&mut out, NOTE_BODY_START);
    push_range(&mut out, doc, a + 10, c);
    push_str(&mut out, NOTE_END);
    push_range(&mut out, doc, c + 10, doc.len());
    assert(out@ =~= replace_pair(doc@, a as int, c as int, n as nat));
    out
}

/// Expands every sidenote marker pair of `document_input` into margin-note markup.
pub fn process_sidenotes(document_input: &str) -> (r: String)
    ensures
        r@ == with_margin_notes(document_input@),
{
    let mut doc = chars_of(document_input);
    let ghost total = bracket_count(doc@);
    let initial_len = doc.len();
    proof {
        lemma_bracket_count_le_len(doc@);
        assert(total <= initial_len);
    }
    let mut counter: usize = 1;
    loop
        invariant
            rewrite_from(doc@, counter as nat) == with_margin_notes(document_input@),
            counter >= 1,
            2 * (counter - 1) + bracket_count(doc@) == total,
            total <= usize::MAX,
        decreases bracket_count(doc@),
    {
        match find_pair(&doc) {
            None => {
                return string_of(&doc);
            },
            Some((a, c)) => {
                proof {
                    lemma_leftmost_pair(doc@);
                    lemma_leftmost_unique(
                        doc@,
                        a as int,
                        c as int,
                        leftmost_pair(doc@).0,
                        leftmost_pair(doc@).1,
                    );
                    lemma_replace_pair_brackets(doc@, a as int, c as int, counter as nat);
                }
                doc = replace_pair_exec(&doc, a, c, counter);
                counter = counter + 1;
            },
        }
    }
}

} // verus!
