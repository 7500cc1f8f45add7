//! Classes where blank space was put in.

use crate::ast::PhonemeDefView;
use crate::error::Far;
use crate::exact::{lemma_scan, sound};
use crate::insert::{
    alike_at,
    lemma_keywords,
    lemma_moved_empty,
    lemma_moved_prepend,
    lemma_scan_at,
    same_at,
    sigma,
    widened,
};
use crate::insert::common::{lemma_idents_at, lemma_trailing_at};
use crate::insert::scan::{lemma_closing_at, lemma_marks_at, lemma_token_at, lemma_words_at};
use crate::insert::series_definition::lemma_label_at;
use crate::model::Marked;
use crate::parser::class_definition::{
    annotates_at,
    class_at,
    encodes_at,
    group_at,
    phoneme_at,
    phonemed_at,
    phonemes_at,
};
use crate::parser::scan::{advances, padded_symbol_at};
use vstd::prelude::*;

verus! {

/// Identifiers in brackets are the same on the new source as on the old, but for their spans.
pub proof fn lemma_group_at(a: Seq<char>, b: Seq<char>, at: int, by: int)
    requires
        widened(a, b, at, by),
    ensures
        forall|i: int, j: int, fa: Far, fb: Far|
            0 <= i <= b.len() && j == sigma(i, at, by) ==> alike_at(
                #[trigger] group_at(a, j, fa),
                #[trigger] group_at(b, i, fb),
                at,
                by,
            ) && sound(a, j, group_at(a, j, fa)),
{
    lemma_scan(a);
    lemma_scan_at(a, b, at, by);
    lemma_idents_at(a, b, at, by);
}

/// The traits that a class encodes are the same on the new source as on the old, but for their spans.
pub proof fn lemma_encodes_at(a: Seq<char>, b: Seq<char>, at: int, by: int)
    requires
        widened(a, b, at, by),
    ensures
        forall|i: int, j: int, fa: Far, fb: Far|
            0 <= i <= b.len() && j == sigma(i, at, by) ==> alike_at(
                #[trigger] encodes_at(a, j, fa),
                #[trigger] encodes_at(b, i, fb),
                at,
                by,
            ) && sound(a, j, encodes_at(a, j, fa)),
{
    lemma_keywords();
    lemma_words_at(a, b, at, by);
    lemma_group_at(a, b, at, by);
}

/// The traits that a class annotates are the same on the new source as on the old, but for their spans.
pub proof fn lemma_annotates_at(a: Seq<char>, b: Seq<char>, at: int, by: int)
    requires
        widened(a, b, at, by),
    ensures
        forall|i: int, j: int, fa: Far, fb: Far|
            0 <= i <= b.len() && j == sigma(i, at, by) ==> alike_at(
                #[trigger] annotates_at(a, j, fa),
                #[trigger] annotates_at(b, i, fb),
                at,
                by,
            ) && sound(a, j, annotates_at(a, j, fa)),
{
    lemma_keywords();
    lemma_words_at(a, b, at, by);
    lemma_group_at(a, b, at, by);
    lemma_moved_empty::<Marked<Seq<char>>>(at, by);
}

/// The definition of a phoneme is the same on the new source as on the old, but for its spans.
pub proof fn lemma_phoneme_at(a: Seq<char>, b: Seq<char>, at: int, by: int)
    requires
        widened(a, b, at, by),
    ensures
        forall|i: int, j: int, fa: Far, fb: Far|
            0 <= i <= b.len() && j == sigma(i, at, by) ==> alike_at(
                #[trigger] phoneme_at(a, j, fa),
                #[trigger] phoneme_at(b, i, fb),
                at,
                by,
            ) && sound(a, j, phoneme_at(a, j, fa)),
{
    lemma_scan(a);
    lemma_scan_at(a, b, at, by);
    lemma_token_at(a, b, at, by);
    lemma_idents_at(a, b, at, by);
    reveal(phoneme_at);
}

proof fn lemma_phonemed_put(
    a: Seq<char>,
    b: Seq<char>,
    at: int,
    by: int,
    i: int,
    fa: Far,
    fb: Far,
)
    requires
        widened(a, b, at, by),
        0 <= i <= b.len(),
    ensures
        alike_at(phonemed_at(a, sigma(i, at, by), fa), phonemed_at(b, i, fb), at, by),
        sound(a, sigma(i, at, by), phonemed_at(a, sigma(i, at, by), fa)),
        phonemed_at(b, i, fb).res is Some,
    decreases b.len() - i,
{
    lemma_marks_at(a, b, at, by);
    lemma_phoneme_at(a, b, at, by);
    lemma_moved_empty::<Marked<PhonemeDefView>>(at, by);
    let sa = padded_symbol_at(a, sigma(i, at, by), ',', fa);
    let sb = padded_symbol_at(b, i, ',', fb);
    assert(same_at(sa, sb, at, by) && sound(a, sigma(i, at, by), sa));
    if let Some((_, mid)) = sb.res {
        let na = phoneme_at(a, sigma(mid, at, by), sa.far);
        let nb = phoneme_at(b, mid, sb.far);
        assert(alike_at(na, nb, at, by) && sound(a, sigma(mid, at, by), na));
        if let Some((node, end)) = nb.res {
            if advances(b, i, end) {
                assert(advances(a, sigma(i, at, by), sigma(end, at, by)));
                lemma_phonemed_put(a, b, at, by, end, na.far, nb.far);
                if let Some((rest, _)) = phonemed_at(b, end, nb.far).res {
                    lemma_moved_prepend(node, rest, at, by);
                }
            }
        }
    }
}

/// The rest of the phonemes of a class are the same on the new source as on the old, but for their spans.
pub proof fn lemma_phonemed_at(a: Seq<char>, b: Seq<char>, at: int, by: int)
    requires
        widened(a, b, at, by),
    ensures
        forall|i: int, j: int, fa: Far, fb: Far|
            0 <= i <= b.len() && j == sigma(i, at, by) ==> alike_at(
                #[trigger] phonemed_at(a, j, fa),
                #[trigger] phonemed_at(b, i, fb),
                at,
                by,
            ) && sound(a, j, phonemed_at(a, j, fa)),
{
    assert forall|i: int, j: int, fa: Far, fb: Far|
        0 <= i <= b.len() && j == sigma(i, at, by) implies alike_at(
        #[trigger] phonemed_at(a, j, fa),
        #[trigger] phonemed_at(b, i, fb),
        at,
        by,
    ) && sound(a, j, phonemed_at(a, j, fa)) by {
        lemma_phonemed_put(a, b, at, by, i, fa, fb);
    }
}

/// The phonemes of a class are the same on the new source as on the old, but for their spans.
pub proof fn lemma_phonemes_at(a: Seq<char>, b: Seq<char>, at: int, by: int)
    requires
        widened(a, b, at, by),
    ensures
        forall|i: int, j: int, fa: Far, fb: Far|
            0 <= i <= b.len() && j == sigma(i, at, by) ==> alike_at(
                #[trigger] phonemes_at(a, j, fa),
                #[trigger] phonemes_at(b, i, fb),
                at,
                by,
            ) && sound(a, j, phonemes_at(a, j, fa)),
{
    lemma_phoneme_at(a, b, at, by);
    lemma_phonemed_at(a, b, at, by);
    assert forall|i: int, j: int, fa: Far, fb: Far|
        0 <= i <= b.len() && j == sigma(i, at, by) implies alike_at(
        #[trigger] phonemes_at(a, j, fa),
        #[trigger] phonemes_at(b, i, fb),
        at,
        by,
    ) && sound(a, j, phonemes_at(a, j, fa)) by {
        let first = phoneme_at(b, i, fb);
        if let Some((node, end)) = first.res {
            if let Some((rest, _)) = phonemed_at(b, end, first.far).res {
                lemma_moved_prepend(node, rest, at, by);
            }
        }
    }
}

/// The body of a class is the same on the new source as on the old, but for its spans.
pub proof fn lemma_class_body_at(a: Seq<char>, b: Seq<char>, at: int, by: int)
    requires
        widened(a, b, at, by),
    ensures
        forall|i: int, j: int, fa: Far, fb: Far|
            0 <= i <= b.len() && j == sigma(i, at, by) ==> alike_at(
                #[trigger] crate::parser::class_definition::body_at(a, j, fa),
                #[trigger] crate::parser::class_definition::body_at(b, i, fb),
                at,
                by,
            ) && sound(a, j, crate::parser::class_definition::body_at(a, j, fa)),
{
    lemma_marks_at(a, b, at, by);
    lemma_phonemes_at(a, b, at, by);
    lemma_trailing_at(a, b, at, by);
    lemma_closing_at(a, b, at, by);
}

/// A class is the same on the new source as on the old, but for its spans.
pub proof fn lemma_class_at(a: Seq<char>, b: Seq<char>, at: int, by: int)
    requires
        widened(a, b, at, by),
    ensures
        forall|i: int, j: int, fa: Far, fb: Far|
            0 <= i <= b.len() && j == sigma(i, at, by) ==> alike_at(
                #[trigger] class_at(a, j, fa),
                #[trigger] class_at(b, i, fb),
                at,
                by,
            ) && sound(a, j, class_at(a, j, fa)),
{
    lemma_keywords();
    lemma_words_at(a, b, at, by);
    lemma_label_at(a, b, at, by);
    lemma_encodes_at(a, b, at, by);
    lemma_annotates_at(a, b, at, by);
    lemma_class_body_at(a, b, at, by);
}

} // verus!
