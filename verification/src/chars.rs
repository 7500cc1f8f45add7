//! Character classes of the lexical layer.

use vstd::prelude::*;
use vstd::std_specs::iter::IteratorSpec;

verus! {

/// Whether a character has the Unicode property `White_Space`: the tab, the
/// line feed, the vertical tab, the form feed, the carriage return, the
/// blank, the next line, the no-break space, the Ogham space mark, the
/// spaces from the en quad to the hair space, the line and the paragraph
/// separator, the narrow no-break space, the medium mathematical space and
/// the ideographic space.
pub open spec fn white_space(c: char) -> bool {
    ('\u{9}' <= c && c <= '\u{D}') || c == ' ' || c == '\u{85}' || c == '\u{A0}' || c
        == '\u{1680}' || ('\u{2000}' <= c && c <= '\u{200A}') || c == '\u{2028}' || c
        == '\u{2029}' || c == '\u{202F}' || c == '\u{205F}' || c == '\u{3000}'
}

/// Whether a character is in one of the Unicode number categories, as
/// `char::is_numeric` decides it.
pub uninterp spec fn numeric(c: char) -> bool;

/// `char::is_whitespace` tells whether the character has the Unicode
/// property `White_Space`, which [`white_space`] writes out.
pub assume_specification[ char::is_whitespace ](c: char) -> (b: bool)
    ensures
        b == white_space(c),
;

/// `char::is_numeric` depends on the character alone; its answer is the named
/// predicate [`numeric`]. Nothing else is claimed of it.
pub assume_specification[ char::is_numeric ](c: char) -> (b: bool)
    ensures
        b == numeric(c),
;

/// `String::push` appends the character to the end of the string.
pub assume_specification[ String::push ](s: &mut String, c: char)
    ensures
        final(s)@ == old(s)@.push(c),
;

/// The sets of characters that the grammar scans for.
#[derive(Clone, Copy, Debug, PartialEq, Eq)]
pub enum CharClass {
    /// Any white space, line breaks included.
    Space,
    /// White space that stays on the line: a blank or a tab.
    Inline,
    /// A character of a phoneme or word: anything but white space and the
    /// structural punctuation.
    Word,
    /// The first character of an identifier.
    IdentStart,
    /// A later character of an identifier.
    IdentPart,
    /// A character of free text: anything that neither ends the line nor is a
    /// brace.
    FreeText,
    /// A numeric character.
    Numeric,
    /// An ASCII upper-case letter.
    Upper,
    /// The sign of a feature.
    Sign,
    /// A line break other than the line feed.
    Break,
}

/// The structural punctuation, which no word or phoneme may hold.
pub open spec fn structural(c: char) -> bool {
    c == '/' || c == '.' || c == ',' || c == '[' || c == ']' || c == '{' || c == '}' || c == '('
        || c == ')' || c == '>' || c == '+' || c == '-' || c == '_' || c == '#'
}

pub open spec fn ascii_letter(c: char) -> bool {
    ('a' <= c && c <= 'z') || ('A' <= c && c <= 'Z')
}

pub open spec fn ascii_digit(c: char) -> bool {
    '0' <= c && c <= '9'
}

/// A character other than the line feed that ends a line by itself: carriage
/// return, vertical tab, form feed, next line, line separator and paragraph
/// separator.
pub open spec fn line_break(c: char) -> bool {
    c == '\r' || c == '\u{0B}' || c == '\u{0C}' || c == '\u{85}' || c == '\u{2028}' || c
        == '\u{2029}'
}

/// Whether the class holds the character.
pub open spec fn accepts(class: CharClass, c: char) -> bool {
    match class {
        CharClass::Space => white_space(c),
        CharClass::Inline => c == ' ' || c == '\t',
        CharClass::Word => !structural(c) && !white_space(c),
        CharClass::IdentStart => ascii_letter(c) || c == '_',
        CharClass::IdentPart => ascii_letter(c) || ascii_digit(c) || c == '_',
        CharClass::FreeText => c != '\r' && c != '\n' && c != '{' && c != '}',
        CharClass::Numeric => numeric(c),
        CharClass::Upper => 'A' <= c && c <= 'Z',
        CharClass::Sign => c == '+' || c == '-',
        CharClass::Break => line_break(c),
    }
}

pub fn is_structural(c: char) -> (b: bool)
    ensures
        b == structural(c),
{
    c == '/' || c == '.' || c == ',' || c == '[' || c == ']' || c == '{' || c == '}' || c == '('
        || c == ')' || c == '>' || c == '+' || c == '-' || c == '_' || c == '#'
}

pub fn is_ascii_letter(c: char) -> (b: bool)
    ensures
        b == ascii_letter(c),
{
    ('a' <= c && c <= 'z') || ('A' <= c && c <= 'Z')
}

pub fn is_ascii_digit(c: char) -> (b: bool)
    ensures
        b == ascii_digit(c),
{
    '0' <= c && c <= '9'
}

pub fn is_line_break(c: char) -> (b: bool)
    ensures
        b == line_break(c),
{
    c == '\r' || c == '\u{0B}' || c == '\u{0C}' || c == '\u{85}' || c == '\u{2028}' || c
        == '\u{2029}'
}

/// Decides whether the class holds the character.
pub fn belongs(class: CharClass, c: char) -> (b: bool)
    ensures
        b == accepts(class, c),
{
    match class {
        CharClass::Space => c.is_whitespace(),
        CharClass::Inline => c == ' ' || c == '\t',
        CharClass::Word => !is_structural(c) && !c.is_whitespace(),
        CharClass::IdentStart => is_ascii_letter(c) || c == '_',
        CharClass::IdentPart => is_ascii_letter(c) || is_ascii_digit(c) || c == '_',
        CharClass::FreeText => c != '\r' && c != '\n' && c != '{' && c != '}',
        CharClass::Numeric => c.is_numeric(),
        CharClass::Upper => 'A' <= c && c <= 'Z',
        CharClass::Sign => c == '+' || c == '-',
        CharClass::Break => is_line_break(c),
    }
}

/// The characters of `src` from `start` up to `end`, as an owned string.
pub fn text(src: &[char], start: usize, end: usize) -> (s: String)
    requires
        start <= end <= src@.len(),
    ensures
        s@ == src@.subrange(start as int, end as int),
{
    let mut s = String::new();
    let mut i: usize = start;
    while i < end
        invariant
            start <= i <= end <= src@.len(),
            s@ == src@.subrange(start as int, i as int),
        decreases end - i,
    {
        s.push(src[i]);
        assert(s@ =~= src@.subrange(start as int, i + 1));
        i = i + 1;
    }
    s
}

/// The characters of a string, in order.
pub fn chars_of(s: &str) -> (v: Vec<char>)
    ensures
        v@ == s@,
{
    broadcast use vstd::string::group_string_axioms;
    broadcast use vstd::string::next_postcondition;

    let mut v: Vec<char> = Vec::new();
    let mut it = s.chars();
    loop
        invariant
            v@ + it.remaining() == s@,
            it.obeys_prophetic_iter_laws(),
            it.decrease() is Some,
        decreases it.decrease()->0,
    {
        match it.next() {
            Some(c) => {
                v.push(c);
                assert(v@ + it.remaining() =~= s@);
            },
            None => {
                assert(v@ =~= s@);
                return v;
            },
        }
    }
}

} // verus!
