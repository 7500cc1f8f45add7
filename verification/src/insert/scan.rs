//! Marks, words and tokens where blank space was put in.

use crate::chars::{line_break, CharClass};
use crate::error::Far;
use crate::exact::{lemma_scan, sound};
use crate::insert::{alike_at, steady, lemma_scan_at, plain, same_at, sigma, widened};
use crate::parser::scan::{
    closing_at,
    ident_at,
    padded_at,
    padded_symbol_at,
    symbol_at,
    text_at,
    token,
    token_at,
};
use vstd::prelude::*;

verus! {

/// A mark with white space around it is the same on the new source as on the old.
pub proof fn lemma_marks_at(a: Seq<char>, b: Seq<char>, at: int, by: int)
    requires
        widened(a, b, at, by),
    ensures
        forall|i: int, j: int, mark: char, fa: Far, fb: Far|
            0 <= i <= b.len() && j == sigma(i, at, by) && mark != '\n' && !line_break(mark) ==> same_at(
                #[trigger] padded_symbol_at(a, j, mark, fa),
                #[trigger] padded_symbol_at(b, i, mark, fb),
                at,
                by,
            ) && sound(a, j, padded_symbol_at(a, j, mark, fa)),
{
    lemma_scan(a);
    lemma_scan_at(a, b, at, by);
}

/// A mark is the same on the new source as on the old.
pub proof fn lemma_symbol_at(a: Seq<char>, b: Seq<char>, at: int, by: int)
    requires
        widened(a, b, at, by),
    ensures
        forall|i: int, j: int, mark: char, fa: Far, fb: Far|
            0 <= i <= b.len() && j == sigma(i, at, by) && mark != '\n' && !line_break(mark) ==> same_at(
                #[trigger] symbol_at(a, j, mark, fa),
                #[trigger] symbol_at(b, i, mark, fb),
                at,
                by,
            ) && sound(a, j, symbol_at(a, j, mark, fa)),
{
    lemma_scan(a);
    lemma_scan_at(a, b, at, by);
}

/// A mark after white space is the same on the new source as on the old.
pub proof fn lemma_closing_at(a: Seq<char>, b: Seq<char>, at: int, by: int)
    requires
        widened(a, b, at, by),
    ensures
        forall|i: int, j: int, mark: char, fa: Far, fb: Far|
            0 <= i <= b.len() && j == sigma(i, at, by) && mark != '\n' && !line_break(mark) ==> same_at(
                #[trigger] closing_at(a, j, mark, fa),
                #[trigger] closing_at(b, i, mark, fb),
                at,
                by,
            ) && sound(a, j, closing_at(a, j, mark, fa)),
{
    lemma_scan(a);
    lemma_scan_at(a, b, at, by);
}

/// A word with white space around it is the same on the new source as on the old.
pub proof fn lemma_words_at(a: Seq<char>, b: Seq<char>, at: int, by: int)
    requires
        widened(a, b, at, by),
    ensures
        forall|i: int, j: int, word: Seq<char>, fa: Far, fb: Far|
            0 <= i <= b.len() && j == sigma(i, at, by) && plain(word) ==> same_at(
                #[trigger] padded_at(a, j, word, fa),
                #[trigger] padded_at(b, i, word, fb),
                at,
                by,
            ) && sound(a, j, padded_at(a, j, word, fa)),
{
    lemma_scan(a);
    lemma_scan_at(a, b, at, by);
}

/// An identifier is the same on the new source as on the old, but for its span.
pub proof fn lemma_ident_at(a: Seq<char>, b: Seq<char>, at: int, by: int)
    requires
        widened(a, b, at, by),
    ensures
        forall|i: int, j: int, fa: Far, fb: Far|
            0 <= i <= b.len() && j == sigma(i, at, by) ==> alike_at(
                #[trigger] ident_at(a, j, fa),
                #[trigger] ident_at(b, i, fb),
                at,
                by,
            ) && sound(a, j, ident_at(a, j, fa)),
{
    lemma_scan(a);
    lemma_scan_at(a, b, at, by);
}

/// A token is the same on the new source as on the old, but for its span.
pub proof fn lemma_token_at(a: Seq<char>, b: Seq<char>, at: int, by: int)
    requires
        widened(a, b, at, by),
    ensures
        forall|i: int, j: int, class: CharClass, fa: Far, fb: Far|
            0 <= i <= b.len() && j == sigma(i, at, by) && class != CharClass::Space && (steady(b, at, class) || at <= i) ==> alike_at(
                #[trigger] token_at(a, j, class, fa),
                #[trigger] token_at(b, i, class, fb),
                at,
                by,
            ) && sound(a, j, token_at(a, j, class, fa)),
{
    lemma_scan(a);
    lemma_scan_at(a, b, at, by);
}

/// A run of text is the same on the new source as on the old.
pub proof fn lemma_text_at(a: Seq<char>, b: Seq<char>, at: int, by: int)
    requires
        widened(a, b, at, by),
    ensures
        forall|i: int, j: int, class: CharClass, fa: Far, fb: Far|
            0 <= i <= b.len() && j == sigma(i, at, by) && class != CharClass::Space && (steady(b, at, class) || at <= i) ==> same_at(
                #[trigger] text_at(a, j, class, fa),
                #[trigger] text_at(b, i, class, fb),
                at,
                by,
            ) && sound(a, j, text_at(a, j, class, fa)),
{
    lemma_scan(a);
    lemma_scan_at(a, b, at, by);
}

} // verus!
