//! Series where blank space was put in.

use crate::error::Far;
use crate::exact::{lemma_scan, sound};
use crate::insert::{alike_at, lemma_keywords, lemma_scan_at, sigma, widened};
use crate::insert::common::{lemma_category_at, lemma_list_at, lemma_trailing_at};
use crate::insert::scan::{lemma_marks_at, lemma_words_at};
use crate::parser::series_definition::{braced_at, label_at, series_at};
use vstd::prelude::*;

verus! {

/// A label is the same on the new source as on the old, but for its span.
pub proof fn lemma_label_at(a: Seq<char>, b: Seq<char>, at: int, by: int)
    requires
        widened(a, b, at, by),
    ensures
        forall|i: int, j: int, fa: Far, fb: Far|
            0 <= i <= b.len() && j == sigma(i, at, by) ==> alike_at(
                #[trigger] label_at(a, j, fa),
                #[trigger] label_at(b, i, fb),
                at,
                by,
            ) && sound(a, j, label_at(a, j, fa)),
{
    lemma_scan(a);
    lemma_scan_at(a, b, at, by);
}

/// A list in braces is the same on the new source as on the old, but for its spans.
pub proof fn lemma_braced_at(a: Seq<char>, b: Seq<char>, at: int, by: int)
    requires
        widened(a, b, at, by),
    ensures
        forall|i: int, j: int, fa: Far, fb: Far|
            0 <= i <= b.len() && j == sigma(i, at, by) ==> alike_at(
                #[trigger] braced_at(a, j, fa),
                #[trigger] braced_at(b, i, fb),
                at,
                by,
            ) && sound(a, j, braced_at(a, j, fa)),
{
    lemma_scan(a);
    lemma_scan_at(a, b, at, by);
    lemma_list_at(a, b, at, by);
    lemma_trailing_at(a, b, at, by);
}

/// The body of a series is the same on the new source as on the old, but for its spans.
pub proof fn lemma_series_body_at(a: Seq<char>, b: Seq<char>, at: int, by: int)
    requires
        widened(a, b, at, by),
    ensures
        forall|i: int, j: int, fa: Far, fb: Far|
            0 <= i <= b.len() && j == sigma(i, at, by) ==> alike_at(
                #[trigger] crate::parser::series_definition::body_at(a, j, fa),
                #[trigger] crate::parser::series_definition::body_at(b, i, fb),
                at,
                by,
            ) && sound(a, j, crate::parser::series_definition::body_at(a, j, fa)),
{
    lemma_braced_at(a, b, at, by);
    lemma_category_at(a, b, at, by);
}

/// A series is the same on the new source as on the old, but for its spans.
pub proof fn lemma_series_at(a: Seq<char>, b: Seq<char>, at: int, by: int)
    requires
        widened(a, b, at, by),
    ensures
        forall|i: int, j: int, fa: Far, fb: Far|
            0 <= i <= b.len() && j == sigma(i, at, by) ==> alike_at(
                #[trigger] series_at(a, j, fa),
                #[trigger] series_at(b, i, fb),
                at,
                by,
            ) && sound(a, j, series_at(a, j, fa)),
{
    lemma_keywords();
    lemma_words_at(a, b, at, by);
    lemma_label_at(a, b, at, by);
    lemma_marks_at(a, b, at, by);
    lemma_series_body_at(a, b, at, by);
}

} // verus!
