//! Milestones where blank space was put in.

use crate::error::Far;
use crate::exact::sound;
use crate::insert::{alike_at, same_at, sigma, widened};
use crate::insert::common::lemma_integer_at;
use crate::insert::scan::{lemma_ident_at, lemma_marks_at};
use crate::parser::milestone::{
    both_at,
    language_only_at,
    milestone_at,
    time_at,
    time_only_at,
    until_at,
};
use vstd::prelude::*;

verus! {

/// The end of a stretch of time is the same on the new source as on the old.
pub proof fn lemma_until_at(a: Seq<char>, b: Seq<char>, at: int, by: int)
    requires
        widened(a, b, at, by),
    ensures
        forall|i: int, j: int, fa: Far, fb: Far|
            0 <= i <= b.len() && j == sigma(i, at, by) ==> same_at(
                #[trigger] until_at(a, j, fa),
                #[trigger] until_at(b, i, fb),
                at,
                by,
            ) && sound(a, j, until_at(a, j, fa)),
{
    lemma_marks_at(a, b, at, by);
    lemma_integer_at(a, b, at, by);
}

/// A time is the same on the new source as on the old, but for its span.
pub proof fn lemma_time_at(a: Seq<char>, b: Seq<char>, at: int, by: int)
    requires
        widened(a, b, at, by),
    ensures
        forall|i: int, j: int, fa: Far, fb: Far|
            0 <= i <= b.len() && j == sigma(i, at, by) ==> alike_at(
                #[trigger] time_at(a, j, fa),
                #[trigger] time_at(b, i, fb),
                at,
                by,
            ) && sound(a, j, time_at(a, j, fa)),
{
    lemma_integer_at(a, b, at, by);
    lemma_until_at(a, b, at, by);
}

/// A milestone with a time and a language is the same on the new source as on the old, but for its spans.
pub proof fn lemma_both_at(a: Seq<char>, b: Seq<char>, at: int, by: int)
    requires
        widened(a, b, at, by),
    ensures
        forall|i: int, j: int, fa: Far, fb: Far|
            0 <= i <= b.len() && j == sigma(i, at, by) ==> alike_at(
                #[trigger] both_at(a, j, fa),
                #[trigger] both_at(b, i, fb),
                at,
                by,
            ) && sound(a, j, both_at(a, j, fa)),
{
    lemma_marks_at(a, b, at, by);
    lemma_time_at(a, b, at, by);
    lemma_ident_at(a, b, at, by);
}

/// A milestone with a time is the same on the new source as on the old, but for its spans.
pub proof fn lemma_time_only_at(a: Seq<char>, b: Seq<char>, at: int, by: int)
    requires
        widened(a, b, at, by),
    ensures
        forall|i: int, j: int, fa: Far, fb: Far|
            0 <= i <= b.len() && j == sigma(i, at, by) ==> alike_at(
                #[trigger] time_only_at(a, j, fa),
                #[trigger] time_only_at(b, i, fb),
                at,
                by,
            ) && sound(a, j, time_only_at(a, j, fa)),
{
    lemma_marks_at(a, b, at, by);
    lemma_time_at(a, b, at, by);
}

/// A milestone with a language is the same on the new source as on the old, but for its spans.
pub proof fn lemma_language_only_at(a: Seq<char>, b: Seq<char>, at: int, by: int)
    requires
        widened(a, b, at, by),
    ensures
        forall|i: int, j: int, fa: Far, fb: Far|
            0 <= i <= b.len() && j == sigma(i, at, by) ==> alike_at(
                #[trigger] language_only_at(a, j, fa),
                #[trigger] language_only_at(b, i, fb),
                at,
                by,
            ) && sound(a, j, language_only_at(a, j, fa)),
{
    lemma_marks_at(a, b, at, by);
    lemma_ident_at(a, b, at, by);
}

/// A milestone is the same on the new source as on the old, but for its spans.
pub proof fn lemma_milestone_at(a: Seq<char>, b: Seq<char>, at: int, by: int)
    requires
        widened(a, b, at, by),
    ensures
        forall|i: int, j: int, fa: Far, fb: Far|
            0 <= i <= b.len() && j == sigma(i, at, by) ==> alike_at(
                #[trigger] milestone_at(a, j, fa),
                #[trigger] milestone_at(b, i, fb),
                at,
                by,
            ) && sound(a, j, milestone_at(a, j, fa)),
{
    lemma_both_at(a, b, at, by);
    lemma_time_only_at(a, b, at, by);
    lemma_language_only_at(a, b, at, by);
}

} // verus!
