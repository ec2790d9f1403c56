//! Plain text.

use vstd::prelude::*;
use vstd::string::StrSliceExecFns;

verus! {

/// Whether a character has the Unicode property `White_Space`.
pub open spec fn is_white_space(c: char) -> bool {
    ||| '\u{9}' <= c <= '\u{d}'
    ||| c == '\u{20}'
    ||| c == '\u{85}'
    ||| c == '\u{a0}'
    ||| c == '\u{1680}'
    ||| '\u{2000}' <= c <= '\u{200a}'
    ||| c == '\u{2028}'
    ||| c == '\u{2029}'
    ||| c == '\u{202f}'
    ||| c == '\u{205f}'
    ||| c == '\u{3000}'
}

/// Whether nothing is left of a text when the white space around it is taken away.
pub open spec fn is_blank_text(text: Seq<char>) -> bool {
    forall|i: int| 0 <= i < text.len() ==> is_white_space(#[trigger] text[i])
}

/// Whether a character is white space.
pub fn is_space(c: char) -> (r: bool)
    ensures
        r == is_white_space(c),
{
    ('\u{9}' <= c && c <= '\u{d}') || c == '\u{20}' || c == '\u{85}' || c == '\u{a0}' || c
        == '\u{1680}' || ('\u{2000}' <= c && c <= '\u{200a}') || c == '\u{2028}' || c == '\u{2029}'
        || c == '\u{202f}' || c == '\u{205f}' || c == '\u{3000}'
}

/// Whether a text is empty or white space only.
pub fn is_blank(text: &str) -> (r: bool)
    ensures
        r == is_blank_text(text@),
{
    for c in it: text.chars()
        invariant
            it.seq() == text@,
            forall|i: int| 0 <= i < it.index() ==> is_white_space(#[trigger] text@[i]),
    {
        if !is_space(c) {
            assert(text@[it.index() as int] == c);
            return false;
        }
    }
    true
}

/// The text without the white space around it.
pub open spec fn trimmed(text: Seq<char>) -> Seq<char>
    decreases text.len(),
{
    if text.len() > 0 && is_white_space(text[0]) {
        trimmed(text.skip(1))
    } else if text.len() > 0 && is_white_space(text.last()) {
        trimmed(text.drop_last())
    } else {
        text
    }
}

/// What is left of a text is what stands between the white space around it.
proof fn trimmed_between(text: Seq<char>, start: int, end: int)
    requires
        0 <= start <= end <= text.len(),
        forall|i: int| 0 <= i < start ==> is_white_space(#[trigger] text[i]),
        forall|i: int| end <= i < text.len() ==> is_white_space(#[trigger] text[i]),
        start < end ==> !is_white_space(text[start]) && !is_white_space(text[end - 1]),
    ensures
        trimmed(text) == text.subrange(start, end),
    decreases text.len(),
{
    if text.len() == 0 {
        assert(text.subrange(start, end) =~= text);
    } else if start > 0 {
        trimmed_between(text.skip(1), start - 1, end - 1);
        assert(text.skip(1).subrange(start - 1, end - 1) =~= text.subrange(start, end));
    } else if end == 0 {
        trimmed_between(text.skip(1), 0, 0);
        assert(text.skip(1).subrange(0, 0) =~= text.subrange(start, end));
    } else if end < text.len() {
        trimmed_between(text.drop_last(), start, end);
        assert(text.drop_last().subrange(start, end) =~= text.subrange(start, end));
    } else {
        assert(text.subrange(start, end) =~= text);
    }
}

/// The text without the white space around it.
pub fn trim(text: &str) -> (r: &str)
    ensures
        r@ == trimmed(text@),
{
    let len: usize = text.unicode_len();
    let mut start: usize = 0;
    let mut end: usize = 0;
    let mut i: usize = 0;
    for c in it: text.chars()
        invariant
            it.seq() == text@,
            len == text@.len(),
            i == it.index(),
            start <= end <= i <= len,
            end == 0 ==> start == 0,
            forall|k: int| 0 <= k < start ==> is_white_space(#[trigger] text@[k]),
            forall|k: int| end <= k < i ==> is_white_space(#[trigger] text@[k]),
            start < end ==> !is_white_space(text@[start as int]) && !is_white_space(
                text@[end - 1],
            ),
            start == end ==> end == 0,
    {
        assert(text@[i as int] == c);
        if !is_space(c) {
            if end == 0 {
                start = i;
            }
            end = i + 1;
        }
        i = i + 1;
    }
    proof {
        trimmed_between(text@, start as int, end as int);
    }
    text.substring_char(start, end)
}

/// A text is blank if and only if nothing is left of it without the white space around it.
pub proof fn blank_text_trims_to_nothing(text: Seq<char>)
    ensures
        is_blank_text(text) == (trimmed(text).len() == 0),
    decreases text.len(),
{
    if text.len() > 0 && is_white_space(text[0]) {
        let rest = text.skip(1);
        blank_text_trims_to_nothing(rest);
        assert forall|i: int| 0 <= i < rest.len() implies #[trigger] rest[i] == text[i + 1] by {}
        if is_blank_text(rest) {
            assert forall|i: int| 0 <= i < text.len() implies is_white_space(
                #[trigger] text[i],
            ) by {
                if i > 0 {
                    assert(rest[i - 1] == text[i]);
                }
            }
        }
    } else if text.len() > 0 && is_white_space(text.last()) {
        let rest = text.drop_last();
        blank_text_trims_to_nothing(rest);
        assert(rest[0] == text[0]);
    }
}

/// What is left of a text when it is trimmed is the part between two places: all characters
/// before and after it are white space, and neither its first nor its last character is.
pub proof fn trimming_takes_white_space_off_both_ends(text: Seq<char>) -> (r: (int, int))
    ensures
        0 <= r.0 <= r.1 <= text.len(),
        trimmed(text) == text.subrange(r.0, r.1),
        forall|i: int|
            0 <= i < text.len() && !(r.0 <= i < r.1) ==> is_white_space(#[trigger] text[i]),
        r.0 < r.1 ==> !is_white_space(text[r.0]) && !is_white_space(text[r.1 - 1]),
    decreases text.len(),
{
    if text.len() > 0 && is_white_space(text[0]) {
        let rest = text.skip(1);
        let (a, b) = trimming_takes_white_space_off_both_ends(rest);
        assert(rest.subrange(a, b) =~= text.subrange(a + 1, b + 1));
        assert forall|i: int|
            0 <= i < text.len() && !(a + 1 <= i < b + 1) implies is_white_space(
            #[trigger] text[i],
        ) by {
            if i > 0 {
                assert(rest[i - 1] == text[i]);
            }
        }
        (a + 1, b + 1)
    } else if text.len() > 0 && is_white_space(text.last()) {
        let rest = text.drop_last();
        let (a, b) = trimming_takes_white_space_off_both_ends(rest);
        assert(rest.subrange(a, b) =~= text.subrange(a, b));
        assert forall|i: int| 0 <= i < text.len() && !(a <= i < b) implies is_white_space(
            #[trigger] text[i],
        ) by {
            if i < rest.len() {
                assert(rest[i] == text[i]);
            }
        }
        (a, b)
    } else {
        assert(text.subrange(0, text.len() as int) =~= text);
        (0, text.len() as int)
    }
}

/// Of the ASCII characters, the space and those from the tab to the carriage return are white
/// space, and no other.
pub proof fn ascii_white_space(c: char)
    requires
        c as int <= 127,
    ensures
        is_white_space(c) <==> c as int == 32 || 9 <= c as int <= 13,
{
}

/// A text is blank if and only if it has no character but white space.
pub proof fn blank_text_has_white_space_only(text: Seq<char>)
    ensures
        is_blank_text(text) <==> !(exists|i: int|
            0 <= i < text.len() && !is_white_space(#[trigger] text[i])),
{
}

/// The texts as plain character sequences.
pub open spec fn texts_of(texts: Seq<&'static str>) -> Seq<Seq<char>> {
    texts.map_values(|text: &'static str| text@)
}

} // verus!
