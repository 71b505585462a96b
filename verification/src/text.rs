//! Characters and strings: the few facts about `std`'s text handling that the
//! rest of the crate builds on.
//!
//! Which characters count as digits, letters or blanks, and what a character
//! lower-cases to, is decided by the Unicode tables inside `std`; how many
//! columns a character takes on a terminal, by those of `unicode-width`.
//! Those tables are not restated here. Each gets a name, and the contracts of
//! the crate are written over the names.
//!
//! Everything that the crate takes on trust is in this file: the functions
//! that are declared here without a body, the contracts that are given to
//! functions of `std`, and the three functions that call out and whose bodies
//! are not verified.

use vstd::prelude::*;

verus! {

/// Whether `std` counts `c` as numeric (`char::is_numeric`).
pub uninterp spec fn is_numeric_char(c: char) -> bool;

/// Whether `std` counts `c` as alphabetic (`char::is_alphabetic`).
pub uninterp spec fn is_alphabetic_char(c: char) -> bool;

/// Whether `std` counts `c` as white space (`char::is_whitespace`).
pub uninterp spec fn is_whitespace_char(c: char) -> bool;

/// The characters that `c` lower-cases to (`char::to_lowercase`), in order.
pub uninterp spec fn lowercase_mapping(c: char) -> Seq<char>;

/// `char::is_numeric`: a function of the character alone, named
/// [`is_numeric_char`]. Nothing more is claimed of it.
pub assume_specification[ char::is_numeric ](c: char) -> (b: bool)
    ensures
        b == is_numeric_char(c),
;

/// `char::is_alphabetic`: a function of the character alone, named
/// [`is_alphabetic_char`]. Nothing more is claimed of it.
pub assume_specification[ char::is_alphabetic ](c: char) -> (b: bool)
    ensures
        b == is_alphabetic_char(c),
;

/// `char::is_whitespace`: a function of the character alone, named
/// [`is_whitespace_char`]. Nothing more is claimed of it.
pub assume_specification[ char::is_whitespace ](c: char) -> (b: bool)
    ensures
        b == is_whitespace_char(c),
;

/// `String::push`: appends one character and changes nothing else.
pub assume_specification[ String::push ](s: &mut String, ch: char)
    ensures
        final(s)@ == old(s)@.push(ch),
;

/// `str`'s `==`: two string slices are equal exactly when they hold the same
/// characters.
pub assume_specification[ <str as PartialEq>::eq ](a: &str, b: &str) -> (r: bool)
    ensures
        r == (a@ == b@),
;

/// `s` without the white space at its start.
pub open spec fn without_leading_blanks(s: Seq<char>) -> Seq<char>
    decreases s.len(),
{
    if s.len() > 0 && is_whitespace_char(s.first()) {
        without_leading_blanks(s.drop_first())
    } else {
        s
    }
}

/// `s` without the white space at its end.
pub open spec fn without_trailing_blanks(s: Seq<char>) -> Seq<char>
    decreases s.len(),
{
    if s.len() > 0 && is_whitespace_char(s.last()) {
        without_trailing_blanks(s.drop_last())
    } else {
        s
    }
}

/// `s` without the white space at its start and at its end.
pub open spec fn without_blanks_around(s: Seq<char>) -> Seq<char> {
    without_trailing_blanks(without_leading_blanks(s))
}

/// `str::trim`: the slice without leading and trailing white space, where
/// white space is what `char::is_whitespace` takes for it.
pub assume_specification<'a>[ str::trim ](s: &'a str) -> (r: &'a str)
    ensures
        r@ == without_blanks_around(s@),
;

/// Calls `char::to_lowercase` and collects what it yields. `std` documents
/// that the mapping of a character has one or more characters; which ones is
/// named [`lowercase_mapping`].
#[verifier::external_body]
pub(crate) fn to_lowercase(c: char) -> (lower: Vec<char>)
    ensures
        lower@ == lowercase_mapping(c),
        lower@.len() >= 1,
{
    c.to_lowercase().collect()
}

/// The number of terminal columns that `c` takes up, as `unicode-width`
/// computes it; `None` for a control character.
pub uninterp spec fn display_width(c: char) -> Option<usize>;

/// Calls `unicode_width::UnicodeWidthChar::width`. The result depends on the
/// character alone and is named [`display_width`]. Beside the name, the
/// contract states what the function's source shows at a glance: code points
/// below U+0020 and from U+007F up to U+00A0 are control characters and have
/// no width, the rest of ASCII is one column wide, every other character has
/// a width, and no width exceeds three columns.
#[verifier::external_body]
pub(crate) fn char_width(c: char) -> (w: Option<usize>)
    ensures
        w == display_width(c),
        w matches Some(n) ==> n <= 3,
        (c as u32) < 0x20 || 0x7f <= (c as u32) < 0xa0 ==> w is None,
        0x20 <= (c as u32) < 0x7f ==> w == Some(1usize),
        0xa0 <= (c as u32) ==> w is Some,
{
    unicode_width::UnicodeWidthChar::width(c)
}

/// The columns that `c` adds to a line: its display width, or none at all for
/// a control character.
pub open spec fn columns_of(c: char) -> nat {
    match display_width(c) {
        Some(n) => n as nat,
        None => 0,
    }
}

/// The number of terminal columns that the text `s` takes up, as
/// `unicode-width` computes it. This need not be the sum over its characters:
/// some sequences of characters are drawn as one.
pub uninterp spec fn text_width(s: Seq<char>) -> usize;

/// Calls `unicode_width::UnicodeWidthStr::width`. The result depends on the
/// characters of the text alone and is named [`text_width`].
#[verifier::external_body]
pub(crate) fn str_width(s: &str) -> (w: usize)
    ensures
        w == text_width(s@),
{
    unicode_width::UnicodeWidthStr::width(s)
}

/// The text that is made of the characters `chars`.
pub(crate) fn string_of(chars: &Vec<char>) -> (s: String)
    ensures
        s@ == chars@,
{
    let mut s = String::new();
    let mut i: usize = 0;
    while i < chars.len()
        invariant
            i <= chars@.len(),
            s@ == chars@.take(i as int),
        decreases chars@.len() - i,
    {
        s.push(chars[i]);
        assert(chars@.take(i + 1) =~= chars@.take(i as int).push(chars@[i as int]));
        i += 1;
    }
    assert(chars@.take(i as int) =~= chars@);
    s
}

/// The character that stands for `c` once case is folded away: the first
/// character of its lower-case mapping.
pub open spec fn fold_case(c: char) -> char {
    lowercase_mapping(c)[0]
}

/// [`fold_case`] applied to every character of `s`.
pub open spec fn fold_case_all(s: Seq<char>) -> Seq<char> {
    s.map_values(|c: char| fold_case(c))
}

/// Folds the case of one character.
pub(crate) fn lower(c: char) -> (r: char)
    ensures
        r == fold_case(c),
{
    let mapping = to_lowercase(c);
    mapping[0]
}

/// The characters of `s`, in order.
pub(crate) fn chars_of(s: &str) -> (v: Vec<char>)
    ensures
        v@ == s@,
{
    let mut v: Vec<char> = Vec::new();
    for c in it: s.chars()
        invariant
            it.seq() == s@,
            v@ == it.seq().take(it.index()),
    {
        v.push(c);
    }
    v
}

/// Whether `name` is spelled exactly as `word`.
pub(crate) fn is_word(name: &String, word: &str) -> (r: bool)
    ensures
        r == (name@ == word@),
{
    name.as_str().eq(word)
}

} // verus!
