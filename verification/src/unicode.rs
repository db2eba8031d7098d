//! The universal part of title normalization: compatibility composition,
//! lowercasing, removal of invisible format characters, straightening of
//! curly quotes, and collapsing of whitespace.

use vstd::prelude::*;
use crate::text::push_char;
use unicode_normalization::UnicodeNormalization;

verus! {

/// The NFKC normal form of a string (`unicode-normalization`'s `nfkc`).
pub uninterp spec fn nfkc(s: Seq<char>) -> Seq<char>;

/// The lowercase mapping of one character (std `char::to_lowercase`), which
/// may be several characters long.
pub uninterp spec fn char_lowercase(c: char) -> Seq<char>;

/// The character's Unicode general category is Format (Cf)
/// (`unicode-general-category`'s `get_general_category`).
pub uninterp spec fn is_format_char(c: char) -> bool;

/// NFKC-normalizes a string with `unicode-normalization`.
#[verifier::external_body]
fn nfkc_text(s: &str) -> (out: String)
    ensures
        out@ == nfkc(s@),
{
    s.nfkc().collect()
}

/// The characters of `c.to_lowercase()` (std).
#[verifier::external_body]
fn lowercase_of(c: char) -> (out: String)
    ensures
        out@ == char_lowercase(c),
{
    c.to_lowercase().collect()
}

/// Whether `get_general_category(c)` is `GeneralCategory::Format`.
#[verifier::external_body]
fn is_format(c: char) -> (format: bool)
    ensures
        format == is_format_char(c),
{
    unicode_general_category::get_general_category(c) == unicode_general_category::GeneralCategory::Format
}

/// `char::is_whitespace`: the Unicode White_Space property.
pub open spec fn is_white_space(c: char) -> bool {
    ('\u{9}' <= c && c <= '\u{d}') || c == ' ' || c == '\u{85}' || c == '\u{a0}' || c
        == '\u{1680}' || ('\u{2000}' <= c && c <= '\u{200a}') || c == '\u{2028}' || c
        == '\u{2029}' || c == '\u{202f}' || c == '\u{205f}' || c == '\u{3000}'
}

/// Tests the Unicode White_Space property.
pub fn white_space(c: char) -> (ws: bool)
    ensures
        ws == is_white_space(c),
{
    ('\u{9}' <= c && c <= '\u{d}') || c == ' ' || c == '\u{85}' || c == '\u{a0}' || c
        == '\u{1680}' || ('\u{2000}' <= c && c <= '\u{200a}') || c == '\u{2028}' || c
        == '\u{2029}' || c == '\u{202f}' || c == '\u{205f}' || c == '\u{3000}'
}

/// Curly single quotes become `'` and curly double quotes become `"`.
pub open spec fn straight_quote(c: char) -> char {
    if c == '\u{2018}' || c == '\u{2019}' || c == '\u{201a}' || c == '\u{201b}' {
        '\''
    } else if c == '\u{201c}' || c == '\u{201d}' || c == '\u{201e}' || c == '\u{201f}' {
        '"'
    } else {
        c
    }
}

/// Straightens one curly quotation mark.
pub fn normalize_quote(c: char) -> (out: char)
    ensures
        out == straight_quote(c),
{
    if c == '\u{2018}' || c == '\u{2019}' || c == '\u{201a}' || c == '\u{201b}' {
        '\''
    } else if c == '\u{201c}' || c == '\u{201d}' || c == '\u{201e}' || c == '\u{201f}' {
        '"'
    } else {
        c
    }
}

/// Lowercased characters of a string, format characters dropped and quotes
/// straightened.
pub open spec fn cleaned_char(c: char) -> Seq<char> {
    cleaned_chars(char_lowercase(c))
}

/// Format characters dropped and quotes straightened.
pub open spec fn cleaned_chars(s: Seq<char>) -> Seq<char>
    decreases s.len(),
{
    if s.len() == 0 {
        Seq::empty()
    } else {
        cleaned_chars(s.drop_last()) + if is_format_char(s.last()) {
            Seq::empty()
        } else {
            seq![straight_quote(s.last())]
        }
    }
}

/// Every character lowercased, then cleaned.
pub open spec fn lowered(s: Seq<char>) -> Seq<char>
    decreases s.len(),
{
    if s.len() == 0 {
        Seq::empty()
    } else {
        lowered(s.drop_last()) + cleaned_char(s.last())
    }
}

/// What becomes of one character of a lowercase mapping: format
/// characters (Cf) are dropped, curly quotes straightened, anything else
/// kept.
pub open spec fn kept_char(c: char) -> Option<char> {
    if is_format_char(c) {
        None
    } else {
        Some(straight_quote(c))
    }
}

proof fn lemma_cleaned_is_filter_map(s: Seq<char>)
    ensures
        cleaned_chars(s) == s.filter_map(|x: char| kept_char(x)),
    decreases s.len(),
{
    if s.len() > 0 {
        lemma_cleaned_is_filter_map(s.drop_last());
    }
}

/// Lowercasing works character by character, every character through
/// `char::to_lowercase`: the lowered text of two texts one after the other
/// is their lowered texts one after the other, and one character becomes
/// the characters of its lowercase mapping, format characters dropped and
/// quotes straightened. No character, ASCII or not, is left out of the
/// lowercase mapping.
pub proof fn law_lowering_is_per_character(a: Seq<char>, b: Seq<char>, c: char)
    ensures
        lowered(a + b) == lowered(a) + lowered(b),
        lowered(seq![c]) == char_lowercase(c).filter_map(|x: char| kept_char(x)),
    decreases b.len(),
{
    lemma_cleaned_is_filter_map(char_lowercase(c));
    assert(seq![c].drop_last() =~= Seq::<char>::empty());
    assert(seq![c].last() == c);
    assert(lowered(seq![c]) == lowered(Seq::<char>::empty()) + cleaned_char(c));
    assert(lowered(seq![c]) =~= cleaned_chars(char_lowercase(c)));
    if b.len() == 0 {
        assert(a + b =~= a);
    } else {
        law_lowering_is_per_character(a, b.drop_last(), c);
        assert((a + b).drop_last() =~= a + b.drop_last());
        assert((a + b).last() == b.last());
    }
}

/// `split_whitespace().join(" ")`: words are the maximal runs of
/// non-whitespace; they are kept in order and separated by one space, and
/// leading and trailing whitespace disappears.
pub open spec fn collapse_whitespace(s: Seq<char>) -> Seq<char>
    decreases s.len(),
{
    if s.len() == 0 {
        Seq::empty()
    } else {
        let c = s.last();
        let before = s.drop_last();
        let rest = collapse_whitespace(before);
        if is_white_space(c) {
            rest
        } else if before.len() > 0 && !is_white_space(before.last()) {
            rest.push(c)
        } else if rest.len() == 0 {
            seq![c]
        } else {
            rest.push(' ').push(c)
        }
    }
}

/// The universal normalization of a title: NFKC, lowercase, format
/// characters removed, quotes straightened, whitespace collapsed.
pub open spec fn universal_title(title: Seq<char>) -> Seq<char> {
    collapse_whitespace(lowered(nfkc(title)))
}

fn push_cleaned(out: &mut String, lower: &str)
    ensures
        final(out)@ == old(out)@ + cleaned_chars(lower@),
{
    let ghost chars = lower@;
    let ghost start = out@;
    proof { broadcast use vstd::string::group_string_axioms; }
    for c in it: lower.chars()
        invariant
            it.seq() == chars,
            out@ == start + cleaned_chars(chars.take(it.index() as int)),
    {
        let ghost i = it.index();
        if !is_format(c) {
            push_char(out, normalize_quote(c));
        }
        proof {
            assert(chars.take(i + 1).drop_last() =~= chars.take(i as int));
            assert(out@ =~= start + cleaned_chars(chars.take(i + 1)));
        }
    }
    proof {
        assert(chars.take(chars.len() as int) =~= chars);
    }
}

fn lower_and_clean(s: &str) -> (out: String)
    ensures
        out@ == lowered(s@),
{
    let mut out = String::new();
    let ghost chars = s@;
    proof { broadcast use vstd::string::group_string_axioms; }
    for c in it: s.chars()
        invariant
            it.seq() == chars,
            out@ == lowered(chars.take(it.index() as int)),
    {
        let ghost i = it.index();
        let lower = lowercase_of(c);
        push_cleaned(&mut out, lower.as_str());
        proof {
            assert(chars.take(i + 1).drop_last() =~= chars.take(i as int));
            assert(out@ =~= lowered(chars.take(i + 1)));
        }
    }
    proof {
        assert(chars.take(chars.len() as int) =~= chars);
    }
    out
}

/// Collapses runs of whitespace into single spaces and trims both ends.
pub fn collapse_spaces(s: &str) -> (out: String)
    ensures
        out@ == collapse_whitespace(s@),
{
    let mut out = String::new();
    let mut previous_is_space = true;
    let ghost chars = s@;
    proof { broadcast use vstd::string::group_string_axioms; }
    for c in it: s.chars()
        invariant
            it.seq() == chars,
            out@ == collapse_whitespace(chars.take(it.index() as int)),
            previous_is_space == (it.index() == 0 || is_white_space(chars[it.index() - 1])),
    {
        let ghost i = it.index();
        let ghost before = chars.take(i as int);
        proof {
            assert(chars.take(i + 1).drop_last() =~= before);
            assert(chars.take(i + 1).last() == c);
            if i > 0 {
                assert(before.last() == chars[i - 1]);
            }
        }
        let space = white_space(c);
        if space {
        } else if !previous_is_space {
            push_char(&mut out, c);
        } else if out.as_str().is_empty() {
            push_char(&mut out, c);
        } else {
            push_char(&mut out, ' ');
            push_char(&mut out, c);
        }
        previous_is_space = space;
        proof {
            assert(out@ =~= collapse_whitespace(chars.take(i + 1)));
        }
    }
    proof {
        assert(chars.take(chars.len() as int) =~= chars);
    }
    out
}

/// Applies the universal normalization to a title.
pub fn normalize_universal_title(title: &str) -> (out: String)
    ensures
        out@ == universal_title(title@),
{
    let composed = nfkc_text(title);
    let lowered = lower_and_clean(composed.as_str());
    collapse_spaces(lowered.as_str())
}

} // verus!
