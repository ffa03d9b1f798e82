//! Character sequences: the mathematical vocabulary that the contracts of
//! this crate are written in, and the executable helpers that build Rust
//! strings against it.

use vstd::prelude::*;
use vstd::string::*;

verus! {

/// The parts joined into one sequence, with `sep` between each two neighbours.
pub open spec fn join(parts: Seq<Seq<char>>, sep: Seq<char>) -> Seq<char>
    decreases parts.len(),
{
    if parts.len() == 0 {
        Seq::empty()
    } else if parts.len() == 1 {
        parts[0]
    } else {
        join(parts.drop_last(), sep) + sep + parts.last()
    }
}

/// The pieces of `s` between the occurrences of `sep`. There is always at
/// least one piece; a separator at either end leaves an empty piece there.
pub open spec fn split(s: Seq<char>, sep: char) -> Seq<Seq<char>>
    decreases s.len(),
{
    if s.len() == 0 {
        seq![Seq::empty()]
    } else {
        let before = split(s.drop_last(), sep);
        if s.last() == sep {
            before.push(Seq::empty())
        } else {
            before.drop_last().push(before.last().push(s.last()))
        }
    }
}

/// The characters with the Unicode property `White_Space`.
pub open spec fn is_white_space(c: char) -> bool {
    let u = c as u32;
    ||| 0x09 <= u <= 0x0D
    ||| u == 0x20
    ||| u == 0x85
    ||| u == 0xA0
    ||| u == 0x1680
    ||| 0x2000 <= u <= 0x200A
    ||| u == 0x2028
    ||| u == 0x2029
    ||| u == 0x202F
    ||| u == 0x205F
    ||| u == 0x3000
}

/// A text is blank when nothing but white space is in it.
pub open spec fn is_blank(s: Seq<char>) -> bool {
    forall|i: int| 0 <= i < s.len() ==> is_white_space(#[trigger] s[i])
}

/// A text always has at least one piece.
pub proof fn lemma_split_len(s: Seq<char>, sep: char)
    ensures
        split(s, sep).len() >= 1,
    decreases s.len(),
{
    if s.len() > 0 {
        lemma_split_len(s.drop_last(), sep);
    }
}

/// No piece of a text holds the separator.
pub proof fn lemma_split_pieces(s: Seq<char>, sep: char)
    ensures
        forall|i: int| 0 <= i < split(s, sep).len() ==> !(#[trigger] split(s, sep)[i]).contains(sep),
    decreases s.len(),
{
    if s.len() > 0 {
        let before = split(s.drop_last(), sep);
        lemma_split_len(s.drop_last(), sep);
        lemma_split_pieces(s.drop_last(), sep);
        assert forall|i: int| 0 <= i < split(s, sep).len() implies !(#[trigger] split(
            s,
            sep,
        )[i]).contains(sep) by {
            if i < before.len() - 1 {
                assert(split(s, sep)[i] == before[i]);
            } else if s.last() != sep {
                assert(!before.last().contains(sep));
            }
        }
    }
}

/// The pieces of a text, joined by the separator, are the text.
pub proof fn lemma_join_split(s: Seq<char>, sep: char)
    ensures
        join(split(s, sep), seq![sep]) == s,
    decreases s.len(),
{
    if s.len() > 0 {
        let rest = s.drop_last();
        let before = split(rest, sep);
        lemma_split_len(rest, sep);
        lemma_join_split(rest, sep);
        assert(s == rest.push(s.last()));
        if s.last() == sep {
            assert(before.push(Seq::empty()).drop_last() == before);
            assert(join(before, seq![sep]) + seq![sep] + Seq::<char>::empty() == rest.push(sep));
        } else {
            let piece = before.last().push(s.last());
            let pieces = before.drop_last().push(piece);
            assert(pieces.drop_last() == before.drop_last());
            if before.len() == 1 {
                assert(join(pieces, seq![sep]) == piece);
            } else {
                assert(join(before.drop_last(), seq![sep]) + seq![sep] + piece == (join(
                    before.drop_last(),
                    seq![sep],
                ) + seq![sep] + before.last()).push(s.last()));
            }
        }
    }
}

/// A text without the separator, put behind another text, goes to the end
/// of that text's last piece.
pub proof fn lemma_split_append(s: Seq<char>, more: Seq<char>, sep: char)
    requires
        !more.contains(sep),
    ensures
        split(s + more, sep) == split(s, sep).drop_last().push(split(s, sep).last() + more),
    decreases more.len(),
{
    lemma_split_len(s, sep);
    let pieces = split(s, sep);
    if more.len() == 0 {
        assert(s + more == s);
        assert(pieces.last() + more == pieces.last());
        assert(pieces.drop_last().push(pieces.last()) == pieces);
    } else {
        let rest = more.drop_last();
        assert(rest.len() < more.len());
        assert forall|i: int| 0 <= i < rest.len() implies rest[i] != sep by {
            assert(rest[i] == more[i]);
            assert(more.contains(more[i]));
        }
        assert(!rest.contains(sep));
        lemma_split_append(s, rest, sep);
        assert((s + more).drop_last() == s + rest);
        assert((s + more).last() == more.last());
        assert(more.contains(more.last()));
        let before = split(s + rest, sep);
        assert(before.last() == pieces.last() + rest);
        assert(before.drop_last() == pieces.drop_last());
        assert((pieces.last() + rest).push(more.last()) == pieces.last() + more);
    }
}

/// Texts without the separator, joined by it, are the pieces of the result.
pub proof fn lemma_split_join(parts: Seq<Seq<char>>, sep: char)
    requires
        parts.len() >= 1,
        forall|i: int| 0 <= i < parts.len() ==> !(#[trigger] parts[i]).contains(sep),
    ensures
        split(join(parts, seq![sep]), sep) == parts,
    decreases parts.len(),
{
    if parts.len() == 1 {
        lemma_split_append(Seq::empty(), parts[0], sep);
        assert(Seq::<char>::empty() + parts[0] == parts[0]);
        assert(split(Seq::empty(), sep).drop_last().push(
            split(Seq::empty(), sep).last() + parts[0],
        ) == parts);
    } else {
        let before = parts.drop_last();
        assert forall|i: int| 0 <= i < before.len() implies !(#[trigger] before[i]).contains(
            sep,
        ) by {
            assert(before[i] == parts[i]);
        }
        lemma_split_join(before, sep);
        let head = join(before, seq![sep]) + seq![sep];
        assert(head.drop_last() == join(before, seq![sep]));
        assert(split(head, sep) == before.push(Seq::empty()));
        lemma_split_append(head, parts.last(), sep);
        assert(before.push(Seq::empty()).drop_last() == before);
        assert(Seq::<char>::empty() + parts.last() == parts.last());
        assert(before.push(parts.last()) == parts);
    }
}

/// Appends one character to a string. This is `String::push` of the standard
/// library, which is taken on trust: the string afterwards is the string
/// before with `c` at its end.
#[verifier::external_body]
pub(crate) fn push_char(s: &mut String, c: char)
    ensures
        final(s)@ == old(s)@.push(c),
{
    s.push(c)
}

/// The characters of a string slice, in order.
pub fn chars_of(s: &str) -> (out: Vec<char>)
    ensures
        out@ == s@,
{
    broadcast use vstd::string::group_string_axioms;

    let mut out: Vec<char> = Vec::new();
    let chars = s.chars();
    for c in it: chars
        invariant
            it.seq() == s@,
            out@ == it.seq().take(it.index()),
    {
        out.push(c);
    }
    out
}

/// The string made of the characters `chars[from..to]`.
pub(crate) fn string_of(chars: &Vec<char>, from: usize, to: usize) -> (out: String)
    requires
        from <= to <= chars.len(),
    ensures
        out@ == chars@.subrange(from as int, to as int),
{
    let mut out = String::new();
    let mut i: usize = from;
    while i < to
        invariant
            from <= i <= to <= chars.len(),
            out@ == chars@.subrange(from as int, i as int),
        decreases to - i,
    {
        push_char(&mut out, chars[i]);
        i = i + 1;
        assert(chars@.subrange(from as int, i as int) == chars@.subrange(
            from as int,
            i - 1,
        ).push(chars@[i - 1]));
    }
    out
}

/// Whether two string slices hold the same characters.
pub fn same_text(a: &str, b: &str) -> (out: bool)
    ensures
        out == (a@ == b@),
{
    a.to_owned() == b.to_owned()
}

/// Whether `c` is white space.
pub fn white_space(c: char) -> (out: bool)
    ensures
        out == is_white_space(c),
{
    let u: u32 = c as u32;
    (0x09 <= u && u <= 0x0D) || u == 0x20 || u == 0x85 || u == 0xA0 || u == 0x1680 || (0x2000 <= u
        && u <= 0x200A) || u == 0x2028 || u == 0x2029 || u == 0x202F || u == 0x205F || u == 0x3000
}

/// Whether a text holds nothing but white space.
pub fn blank(s: &str) -> (out: bool)
    ensures
        out == is_blank(s@),
{
    let chars = chars_of(s);
    let mut i: usize = 0;
    while i < chars.len()
        invariant
            i <= chars.len(),
            chars@ == s@,
            forall|k: int| 0 <= k < i ==> is_white_space(#[trigger] chars@[k]),
        decreases chars.len() - i,
    {
        if !white_space(chars[i]) {
            return false;
        }
        i = i + 1;
    }
    true
}

/// The strings joined into one, with `sep` between each two neighbours.
pub fn join_strings(parts: &Vec<String>, sep: &str) -> (out: String)
    ensures
        out@ == join(parts.deep_view(), sep@),
{
    let ghost views = parts.deep_view();
    let mut out = String::new();
    assert(views.take(0) == Seq::<Seq<char>>::empty());
    let mut i: usize = 0;
    while i < parts.len()
        invariant
            i <= parts.len(),
            views == parts.deep_view(),
            out@ == join(views.take(i as int), sep@),
        decreases parts.len() - i,
    {
        assert(views[i as int] == parts[i as int]@);
        assert(views.take(i + 1).drop_last() == views.take(i as int));
        if i > 0 {
            out.append(sep);
            out.append(parts[i].as_str());
        } else {
            out = parts[i].clone();
        }
        i = i + 1;
    }
    assert(views.take(i as int) == views);
    out
}

/// The pieces of a text between the occurrences of `sep`.
pub fn split_chars(chars: &Vec<char>, sep: char) -> (out: Vec<String>)
    ensures
        out.deep_view() == split(chars@, sep),
{
    let mut out: Vec<String> = Vec::new();
    let mut current = String::new();
    assert(chars@.take(0) == Seq::<char>::empty());
    assert(out.deep_view().push(current@) == seq![Seq::<char>::empty()]);
    let mut i: usize = 0;
    while i < chars.len()
        invariant
            i <= chars.len(),
            split(chars@.take(i as int), sep) == out.deep_view().push(current@),
        decreases chars.len() - i,
    {
        let ghost before = out.deep_view();
        let ghost piece = current@;
        assert(chars@.take(i + 1).drop_last() == chars@.take(i as int));
        assert(before.push(piece).drop_last() == before);
        if chars[i] == sep {
            out.push(current);
            current = String::new();
            assert(out.deep_view() == before.push(piece));
        } else {
            push_char(&mut current, chars[i]);
        }
        i = i + 1;
    }
    assert(chars@.take(i as int) == chars@);
    let ghost before = out.deep_view();
    let ghost piece = current@;
    out.push(current);
    assert(out.deep_view() == before.push(piece));
    out
}

} // verus!
