//! Path templates. A template marks a variable segment with braces, as in
//! `/users/{userId}`; a route marks it with a colon, as in `/users/:userId`.

use vstd::prelude::*;
use vstd::string::StringExecFns;
use crate::text::{
    chars_of, join, join_strings, lemma_join_split, lemma_split_append, lemma_split_join,
    lemma_split_len, lemma_split_pieces, split, split_chars,
};

verus! {

/// A segment that is wrapped in braces as a whole. A line feed between the
/// braces prevents it.
pub open spec fn is_placeholder(segment: Seq<char>) -> bool {
    &&& segment.len() >= 2
    &&& segment[0] == '{'
    &&& segment.last() == '}'
    &&& forall|i: int| 0 < i < segment.len() - 1 ==> segment[i] != '\n'
}

/// Whether a character is something else than a brace.
pub open spec fn is_no_brace() -> spec_fn(char) -> bool {
    |c: char| c != '{' && c != '}'
}

/// A segment without the braces in it.
pub open spec fn without_braces(segment: Seq<char>) -> Seq<char> {
    segment.filter(is_no_brace())
}

/// A segment as a route has it: a placeholder loses its braces and gets a
/// colon in front, and any other segment stays as it is.
pub open spec fn normalized_segment(segment: Seq<char>) -> Seq<char> {
    if is_placeholder(segment) {
        seq![':'] + without_braces(segment)
    } else {
        segment
    }
}

/// The segments as a route has them.
pub open spec fn normalized_segments(segments: Seq<Seq<char>>) -> Seq<Seq<char>> {
    Seq::new(segments.len(), |i: int| normalized_segment(segments[i]))
}

/// A path as a route has it: each of its segments between the slashes is
/// normalized by itself.
pub open spec fn normalized_path(path: Seq<char>) -> Seq<char> {
    join(normalized_segments(split(path, '/')), "/"@)
}

/// A segment that is no placeholder stays as it is, and a normalized
/// segment is no placeholder: to normalize it again changes nothing.
pub proof fn law_segment_idempotent(segment: Seq<char>)
    ensures
        !is_placeholder(segment) ==> normalized_segment(segment) == segment,
        !is_placeholder(normalized_segment(segment)),
        normalized_segment(normalized_segment(segment)) == normalized_segment(segment),
{
    if is_placeholder(segment) {
        assert(normalized_segment(segment)[0] == ':');
    }
}

/// A segment without a slash has none after it is normalized.
pub proof fn lemma_normalized_keeps_segment(segment: Seq<char>)
    requires
        !segment.contains('/'),
    ensures
        !normalized_segment(segment).contains('/'),
{
    if is_placeholder(segment) {
        let kept = without_braces(segment);
        let out = normalized_segment(segment);
        assert forall|i: int| 0 <= i < out.len() implies out[i] != '/' by {
            if i > 0 {
                assert(out[i] == kept[i - 1]);
                assert(kept.contains(kept[i - 1]));
                segment.lemma_filter_contains_rev(is_no_brace(), kept[i - 1]);
            }
        }
    }
}

/// The segments of a normalized path are the normalized segments of the
/// path: nothing but the segments between the slashes is touched, one by
/// one, and the slashes stay where they are.
pub proof fn law_segments_normalized(path: Seq<char>)
    ensures
        split(normalized_path(path), '/') == normalized_segments(split(path, '/')),
{
    reveal_strlit("/");
    let segments = split(path, '/');
    let normalized = normalized_segments(segments);
    lemma_split_len(path, '/');
    lemma_split_pieces(path, '/');
    assert forall|i: int| 0 <= i < normalized.len() implies !(#[trigger] normalized[i]).contains(
        '/',
    ) by {
        assert(!segments[i].contains('/'));
        lemma_normalized_keeps_segment(segments[i]);
    }
    assert("/"@ == seq!['/']);
    lemma_split_join(normalized, '/');
}

/// To normalize a normalized path changes nothing.
pub proof fn law_path_idempotent(path: Seq<char>)
    ensures
        normalized_path(normalized_path(path)) == normalized_path(path),
{
    let segments = split(path, '/');
    let normalized = normalized_segments(segments);
    law_segments_normalized(path);
    assert forall|i: int| 0 <= i < normalized.len() implies normalized_segment(normalized[i])
        == normalized[i] by {
        law_segment_idempotent(segments[i]);
    }
    assert(normalized_segments(normalized) == normalized);
}

/// A path without a placeholder among its segments stays as it is.
pub proof fn law_plain_path_unchanged(path: Seq<char>)
    requires
        forall|i: int|
            0 <= i < split(path, '/').len() ==> !is_placeholder(#[trigger] split(path, '/')[i]),
    ensures
        normalized_path(path) == path,
{
    reveal_strlit("/");
    assert("/"@ == seq!['/']);
    let segments = split(path, '/');
    assert(normalized_segments(segments) == segments);
    lemma_join_split(path, '/');
}

/// Behind `/a/`, a text without a slash is one segment, and it alone is
/// normalized.
pub proof fn law_last_segment(segment: Seq<char>)
    requires
        !segment.contains('/'),
    ensures
        normalized_path("/a/"@ + segment) == "/a/"@ + normalized_segment(segment),
{
    reveal_strlit("/");
    reveal_strlit("/a/");
    let prefix = "/a/"@;
    let empty = Seq::<char>::empty();
    assert("/"@ == seq!['/']);
    assert(prefix == seq!['/', 'a', '/']);
    assert(prefix.drop_last() == seq!['/', 'a']);
    assert(seq!['/', 'a'].drop_last() == seq!['/']);
    assert(seq!['/'].drop_last() == empty);
    assert(split(empty, '/') == seq![empty]);
    assert(split(seq!['/'], '/') == seq![empty, empty]);
    assert(seq![empty, empty].drop_last() == seq![empty]);
    assert(split(seq!['/', 'a'], '/') == seq![empty, seq!['a']]);
    assert(split(prefix, '/') == seq![empty, seq!['a'], empty]);
    lemma_split_append(prefix, segment, '/');
    assert(empty + segment == segment);
    assert(seq![empty, seq!['a'], empty].drop_last() == seq![empty, seq!['a']]);
    let segments = seq![empty, seq!['a'], segment];
    assert(split(prefix + segment, '/') == segments);
    let last = normalized_segment(segment);
    let normalized = seq![empty, seq!['a'], last];
    assert(normalized_segments(segments) == normalized);
    assert(normalized.drop_last() == seq![empty, seq!['a']]);
    assert(seq![empty, seq!['a']].drop_last() == seq![empty]);
    assert(join(seq![empty], "/"@) == empty);
    assert(join(seq![empty, seq!['a']], "/"@) == seq!['/', 'a']);
    assert(join(normalized, "/"@) == seq!['/', 'a'] + seq!['/'] + last);
    assert(seq!['/', 'a'] + seq!['/'] + last == prefix + last);
}

/// A compiled regular expression, `regex::Regex`. Nothing inside it is
/// visible; it is made by `compile` and handed to `is_match` and
/// `replace_all`.
#[verifier::external_type_specification]
#[verifier::external_body]
pub struct ExRegex(regex::Regex);

/// The pattern that a compiled expression was made from: what
/// `regex::Regex::as_str` returns. The name stands for an expression that
/// `regex::Regex::new` compiled, with the default options: the anchors mean
/// the two ends of the text, and the dot leaves out the line feed alone.
/// No expression in this crate is made in another way.
pub uninterp spec fn regex_source(expression: regex::Regex) -> Seq<char>;

/// Compiles a pattern with the default options. This is
/// `regex::Regex::new`, which is taken on trust: an expression that it
/// returns was made from `pattern`, and it does return one for each of the
/// two patterns of this module, which are well formed and small.
#[verifier::external_body]
fn compile(pattern: &str) -> (out: Option<regex::Regex>)
    ensures
        out matches Some(expression) ==> regex_source(expression) == pattern@,
        pattern@ == "^\\{.*\\}$"@ || pattern@ == "[{}]"@ ==> out is Some,
{
    regex::Regex::new(pattern).ok()
}

/// Whether the expression matches somewhere in `text`. This is
/// `regex::Regex::is_match`, which is taken on trust for the one pattern
/// `^\{.*\}$`, compiled with the default options: anchored at both ends, it
/// matches a text that begins with an opening brace and ends with a closing
/// one, with anything but a line feed in between.
#[verifier::external_body]
fn is_match(expression: &regex::Regex, text: &str) -> (out: bool)
    ensures
        regex_source(*expression) == "^\\{.*\\}$"@ ==> out == is_placeholder(text@),
{
    expression.is_match(text)
}

/// The text with every match of the expression replaced. This is
/// `regex::Regex::replace_all`, which is taken on trust for the one pattern
/// `[{}]` and the empty replacement: every brace leaves the text, and
/// nothing else does.
#[verifier::external_body]
fn replace_all(expression: &regex::Regex, text: &str, replacement: &str) -> (out: String)
    ensures
        regex_source(*expression) == "[{}]"@ && replacement@.len() == 0 ==> out@
            == without_braces(text@),
{
    expression.replace_all(text, replacement).into_owned()
}

/// Writes one segment as a route has it.
fn normalize_segment(placeholder: &regex::Regex, brace: &regex::Regex, segment: &str) -> (out:
    String)
    requires
        regex_source(*placeholder) == "^\\{.*\\}$"@,
        regex_source(*brace) == "[{}]"@,
    ensures
        out@ == normalized_segment(segment@),
{
    if is_match(placeholder, segment) {
        proof {
            reveal_strlit("");
            reveal_strlit(":");
        }
        let stripped = replace_all(brace, segment, "");
        let mut out = ":".to_owned();
        out.append(stripped.as_str());
        assert(out@ == seq![':'] + without_braces(segment@));
        out
    } else {
        segment.to_owned()
    }
}

/// Writes a path template as a route has it: `/users/{userId}` becomes
/// `/users/:userId`.
pub fn nomalize_play_variable_path(path: String) -> (out: String)
    ensures
        out@ == normalized_path(path@),
{
    let placeholder = match compile("^\\{.*\\}$") {
        Some(expression) => expression,
        None => vstd::pervasive::unreached(),
    };
    let brace = match compile("[{}]") {
        Some(expression) => expression,
        None => vstd::pervasive::unreached(),
    };
    let chars = chars_of(path.as_str());
    let segments = split_chars(&chars, '/');
    let ghost views = segments.deep_view();
    let mut normalized: Vec<String> = Vec::new();
    assert(normalized.deep_view() == normalized_segments(views.take(0)));
    let mut i: usize = 0;
    while i < segments.len()
        invariant
            i <= segments.len(),
            views == segments.deep_view(),
            regex_source(placeholder) == "^\\{.*\\}$"@,
            regex_source(brace) == "[{}]"@,
            normalized.deep_view() == normalized_segments(views.take(i as int)),
        decreases segments.len() - i,
    {
        assert(views[i as int] == segments[i as int]@);
        let ghost before = normalized.deep_view();
        let segment = normalize_segment(&placeholder, &brace, segments[i].as_str());
        let ghost added = segment@;
        normalized.push(segment);
        assert(normalized.deep_view() == before.push(added));
        i = i + 1;
        assert(normalized_segments(views.take(i as int)) == normalized_segments(
            views.take(i - 1),
        ).push(added));
    }
    assert(views.take(i as int) == views);
    join_strings(&normalized, "/")
}

} // verus!
