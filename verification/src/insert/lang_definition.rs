//! Languages where blank space was put in.

use crate::error::Far;
use crate::exact::sound;
use crate::insert::{alike_at, firm, lemma_keywords, sigma, widened};
use crate::insert::scan::{lemma_ident_at, lemma_marks_at, lemma_token_at, lemma_words_at};
use crate::parser::lang_definition::{name_at, parent_at};
use vstd::prelude::*;

verus! {

/// The parent of a language is the same on the new source as on the old, but for its span.
pub proof fn lemma_parent_at(a: Seq<char>, b: Seq<char>, at: int, by: int)
    requires
        widened(a, b, at, by),
    ensures
        forall|i: int, j: int, fa: Far, fb: Far|
            0 <= i <= b.len() && j == sigma(i, at, by) ==> alike_at(
                #[trigger] parent_at(a, j, fa),
                #[trigger] parent_at(b, i, fb),
                at,
                by,
            ) && sound(a, j, parent_at(a, j, fa)),
{
    lemma_marks_at(a, b, at, by);
    lemma_ident_at(a, b, at, by);
}

/// The display name of a language is the same on the new source as on the old, but for its span.
pub proof fn lemma_name_at(a: Seq<char>, b: Seq<char>, at: int, by: int)
    requires
        widened(a, b, at, by),
    ensures
        forall|i: int, j: int, fa: Far, fb: Far|
            0 <= i <= b.len() && j == sigma(i, at, by) && (firm(b, at) || at <= i) ==> alike_at(
                #[trigger] name_at(a, j, fa),
                #[trigger] name_at(b, i, fb),
                at,
                by,
            ) && sound(a, j, name_at(a, j, fa)),
{
    lemma_marks_at(a, b, at, by);
    lemma_token_at(a, b, at, by);
}

/// A language is the same on the new source as on the old, but for its spans.
pub proof fn lemma_language_at(a: Seq<char>, b: Seq<char>, at: int, by: int)
    requires
        widened(a, b, at, by),
    ensures
        forall|i: int, j: int, fa: Far, fb: Far|
            0 <= i <= b.len() && j == sigma(i, at, by) && (firm(b, at) || at <= i) ==> alike_at(
                #[trigger] crate::parser::lang_definition::language_at(a, j, fa),
                #[trigger] crate::parser::lang_definition::language_at(b, i, fb),
                at,
                by,
            ) && sound(a, j, crate::parser::lang_definition::language_at(a, j, fa)),
{
    lemma_keywords();
    lemma_words_at(a, b, at, by);
    lemma_ident_at(a, b, at, by);
    lemma_parent_at(a, b, at, by);
    lemma_name_at(a, b, at, by);
}

} // verus!
