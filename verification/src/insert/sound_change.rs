//! Sound changes where blank space was put in.

use crate::ast::{EnvElementView, SegmentView};
use crate::error::Far;
use crate::exact::{lemma_scan, sound};
use crate::insert::{
    alike_at,
    firm,
    lemma_moved_empty,
    lemma_moved_prepend,
    lemma_scan_at,
    sigma,
    widened,
};
use crate::insert::common::{lemma_category_at, lemma_features_at};
use crate::insert::scan::{lemma_marks_at, lemma_text_at, lemma_token_at};
use crate::parser::scan::advances;
use crate::parser::sound_change::{
    context_at,
    env_element_at,
    env_elements_at,
    env_side_at,
    environment_at,
    modification_at,
    pattern_at,
    remark_at,
    segment_at,
    segments_at,
    sound_change_at,
    source_at,
    target_at,
    target_node_at,
};
use vstd::prelude::*;

verus! {

/// A segment is the same on the new source as on the old, but for its spans.
pub proof fn lemma_segment_at(a: Seq<char>, b: Seq<char>, at: int, by: int)
    requires
        widened(a, b, at, by),
    ensures
        forall|i: int, j: int, fa: Far, fb: Far|
            0 <= i <= b.len() && j == sigma(i, at, by) ==> alike_at(
                #[trigger] segment_at(a, j, fa),
                #[trigger] segment_at(b, i, fb),
                at,
                by,
            ) && sound(a, j, segment_at(a, j, fa)),
{
    lemma_text_at(a, b, at, by);
    lemma_category_at(a, b, at, by);
}

proof fn lemma_segments_put(
    a: Seq<char>,
    b: Seq<char>,
    at: int,
    by: int,
    i: int,
    fa: Far,
    fb: Far,
)
    requires
        widened(a, b, at, by),
        0 <= i <= b.len(),
    ensures
        alike_at(segments_at(a, sigma(i, at, by), fa), segments_at(b, i, fb), at, by),
        sound(a, sigma(i, at, by), segments_at(a, sigma(i, at, by), fa)),
        segments_at(b, i, fb).res is Some,
    decreases b.len() - i,
{
    lemma_segment_at(a, b, at, by);
    lemma_moved_empty::<SegmentView>(at, by);
    let first = segment_at(a, sigma(i, at, by), fa);
    let other = segment_at(b, i, fb);
    assert(alike_at(first, other, at, by) && sound(a, sigma(i, at, by), first));
    if let Some((item, end)) = other.res {
        let next = end;
        if advances(b, i, next) {
            assert(advances(a, sigma(i, at, by), sigma(end, at, by)));
            assert(sigma(end, at, by) == sigma(next, at, by));
            lemma_segments_put(a, b, at, by, next, first.far, other.far);
            if let Some((rest, _)) = segments_at(b, next, other.far).res {
                lemma_moved_prepend(item, rest, at, by);
            }
        }
    }
}

/// Segments are the same on the new source as on the old, but for their spans.
pub proof fn lemma_segments_at(a: Seq<char>, b: Seq<char>, at: int, by: int)
    requires
        widened(a, b, at, by),
    ensures
        forall|i: int, j: int, fa: Far, fb: Far|
            0 <= i <= b.len() && j == sigma(i, at, by) ==> alike_at(
                #[trigger] segments_at(a, j, fa),
                #[trigger] segments_at(b, i, fb),
                at,
                by,
            ) && sound(a, j, segments_at(a, j, fa)),
{
    assert forall|i: int, j: int, fa: Far, fb: Far|
        0 <= i <= b.len() && j == sigma(i, at, by) implies alike_at(
        #[trigger] segments_at(a, j, fa),
        #[trigger] segments_at(b, i, fb),
        at,
        by,
    ) && sound(a, j, segments_at(a, j, fa)) by {
        lemma_segments_put(a, b, at, by, i, fa, fb);
    }
}

/// A pattern is the same on the new source as on the old, but for its spans.
pub proof fn lemma_pattern_at(a: Seq<char>, b: Seq<char>, at: int, by: int)
    requires
        widened(a, b, at, by),
    ensures
        forall|i: int, j: int, fa: Far, fb: Far|
            0 <= i <= b.len() && j == sigma(i, at, by) ==> alike_at(
                #[trigger] pattern_at(a, j, fa),
                #[trigger] pattern_at(b, i, fb),
                at,
                by,
            ) && sound(a, j, pattern_at(a, j, fa)),
{
    lemma_segments_at(a, b, at, by);
}

/// A source is the same on the new source text as on the old, but for its spans.
pub proof fn lemma_source_at(a: Seq<char>, b: Seq<char>, at: int, by: int)
    requires
        widened(a, b, at, by),
    ensures
        forall|i: int, j: int, fa: Far, fb: Far|
            0 <= i <= b.len() && j == sigma(i, at, by) ==> alike_at(
                #[trigger] source_at(a, j, fa),
                #[trigger] source_at(b, i, fb),
                at,
                by,
            ) && sound(a, j, source_at(a, j, fa)),
{
    lemma_scan(a);
    lemma_scan_at(a, b, at, by);
    lemma_pattern_at(a, b, at, by);
}

/// A modification is the same on the new source as on the old, but for its spans.
pub proof fn lemma_modification_at(a: Seq<char>, b: Seq<char>, at: int, by: int)
    requires
        widened(a, b, at, by),
    ensures
        forall|i: int, j: int, fa: Far, fb: Far|
            0 <= i <= b.len() && j == sigma(i, at, by) ==> alike_at(
                #[trigger] modification_at(a, j, fa),
                #[trigger] modification_at(b, i, fb),
                at,
                by,
            ) && sound(a, j, modification_at(a, j, fa)),
{
    lemma_scan(a);
    lemma_scan_at(a, b, at, by);
    lemma_features_at(a, b, at, by);
}

/// A target is the same on the new source as on the old, but for the spans inside it.
pub proof fn lemma_target_node_at(a: Seq<char>, b: Seq<char>, at: int, by: int)
    requires
        widened(a, b, at, by),
    ensures
        forall|i: int, j: int, fa: Far, fb: Far|
            0 <= i <= b.len() && j == sigma(i, at, by) ==> alike_at(
                #[trigger] target_node_at(a, j, fa),
                #[trigger] target_node_at(b, i, fb),
                at,
                by,
            ) && sound(a, j, target_node_at(a, j, fa)),
{
    lemma_scan(a);
    lemma_scan_at(a, b, at, by);
    lemma_modification_at(a, b, at, by);
    lemma_pattern_at(a, b, at, by);
}

/// A target is the same on the new source as on the old, but for its spans.
pub proof fn lemma_target_at(a: Seq<char>, b: Seq<char>, at: int, by: int)
    requires
        widened(a, b, at, by),
    ensures
        forall|i: int, j: int, fa: Far, fb: Far|
            0 <= i <= b.len() && j == sigma(i, at, by) ==> alike_at(
                #[trigger] target_at(a, j, fa),
                #[trigger] target_at(b, i, fb),
                at,
                by,
            ) && sound(a, j, target_at(a, j, fa)),
{
    lemma_target_node_at(a, b, at, by);
}

/// An element of an environment is the same on the new source as on the old, but for its spans.
pub proof fn lemma_env_element_at(a: Seq<char>, b: Seq<char>, at: int, by: int)
    requires
        widened(a, b, at, by),
    ensures
        forall|i: int, j: int, fa: Far, fb: Far|
            0 <= i <= b.len() && j == sigma(i, at, by) ==> alike_at(
                #[trigger] env_element_at(a, j, fa),
                #[trigger] env_element_at(b, i, fb),
                at,
                by,
            ) && sound(a, j, env_element_at(a, j, fa)),
{
    lemma_scan(a);
    lemma_scan_at(a, b, at, by);
    lemma_segment_at(a, b, at, by);
}

proof fn lemma_env_elements_put(
    a: Seq<char>,
    b: Seq<char>,
    at: int,
    by: int,
    i: int,
    fa: Far,
    fb: Far,
)
    requires
        widened(a, b, at, by),
        0 <= i <= b.len(),
    ensures
        alike_at(env_elements_at(a, sigma(i, at, by), fa), env_elements_at(b, i, fb), at, by),
        sound(a, sigma(i, at, by), env_elements_at(a, sigma(i, at, by), fa)),
        env_elements_at(b, i, fb).res is Some,
    decreases b.len() - i,
{
    lemma_env_element_at(a, b, at, by);
    lemma_moved_empty::<EnvElementView>(at, by);
    let first = env_element_at(a, sigma(i, at, by), fa);
    let other = env_element_at(b, i, fb);
    assert(alike_at(first, other, at, by) && sound(a, sigma(i, at, by), first));
    if let Some((item, end)) = other.res {
        let next = end;
        if advances(b, i, next) {
            assert(advances(a, sigma(i, at, by), sigma(end, at, by)));
            assert(sigma(end, at, by) == sigma(next, at, by));
            lemma_env_elements_put(a, b, at, by, next, first.far, other.far);
            if let Some((rest, _)) = env_elements_at(b, next, other.far).res {
                lemma_moved_prepend(item, rest, at, by);
            }
        }
    }
}

/// The elements of an environment are the same on the new source as on the old, but for their spans.
pub proof fn lemma_env_elements_at(a: Seq<char>, b: Seq<char>, at: int, by: int)
    requires
        widened(a, b, at, by),
    ensures
        forall|i: int, j: int, fa: Far, fb: Far|
            0 <= i <= b.len() && j == sigma(i, at, by) ==> alike_at(
                #[trigger] env_elements_at(a, j, fa),
                #[trigger] env_elements_at(b, i, fb),
                at,
                by,
            ) && sound(a, j, env_elements_at(a, j, fa)),
{
    assert forall|i: int, j: int, fa: Far, fb: Far|
        0 <= i <= b.len() && j == sigma(i, at, by) implies alike_at(
        #[trigger] env_elements_at(a, j, fa),
        #[trigger] env_elements_at(b, i, fb),
        at,
        by,
    ) && sound(a, j, env_elements_at(a, j, fa)) by {
        lemma_env_elements_put(a, b, at, by, i, fa, fb);
    }
}

/// One side of an environment is the same on the new source as on the old, but for its spans.
pub proof fn lemma_env_side_at(a: Seq<char>, b: Seq<char>, at: int, by: int)
    requires
        widened(a, b, at, by),
    ensures
        forall|i: int, j: int, fa: Far, fb: Far|
            0 <= i <= b.len() && j == sigma(i, at, by) ==> alike_at(
                #[trigger] env_side_at(a, j, fa),
                #[trigger] env_side_at(b, i, fb),
                at,
                by,
            ) && sound(a, j, env_side_at(a, j, fa)),
{
    lemma_env_elements_at(a, b, at, by);
}

/// An environment is the same on the new source as on the old, but for its spans.
pub proof fn lemma_environment_at(a: Seq<char>, b: Seq<char>, at: int, by: int)
    requires
        widened(a, b, at, by),
    ensures
        forall|i: int, j: int, fa: Far, fb: Far|
            0 <= i <= b.len() && j == sigma(i, at, by) ==> alike_at(
                #[trigger] environment_at(a, j, fa),
                #[trigger] environment_at(b, i, fb),
                at,
                by,
            ) && sound(a, j, environment_at(a, j, fa)),
{
    lemma_scan(a);
    lemma_scan_at(a, b, at, by);
    lemma_env_side_at(a, b, at, by);
}

/// The environment of a sound change is the same on the new source as on the old, but for its spans.
pub proof fn lemma_context_at(a: Seq<char>, b: Seq<char>, at: int, by: int)
    requires
        widened(a, b, at, by),
    ensures
        forall|i: int, j: int, fa: Far, fb: Far|
            0 <= i <= b.len() && j == sigma(i, at, by) ==> alike_at(
                #[trigger] context_at(a, j, fa),
                #[trigger] context_at(b, i, fb),
                at,
                by,
            ) && sound(a, j, context_at(a, j, fa)),
{
    lemma_marks_at(a, b, at, by);
    lemma_environment_at(a, b, at, by);
}

/// The description of a sound change is the same on the new source as on the old, but for its span.
pub proof fn lemma_remark_at(a: Seq<char>, b: Seq<char>, at: int, by: int)
    requires
        widened(a, b, at, by),
    ensures
        forall|i: int, j: int, fa: Far, fb: Far|
            0 <= i <= b.len() && j == sigma(i, at, by) && (firm(b, at) || at <= i) ==> alike_at(
                #[trigger] remark_at(a, j, fa),
                #[trigger] remark_at(b, i, fb),
                at,
                by,
            ) && sound(a, j, remark_at(a, j, fa)),
{
    lemma_marks_at(a, b, at, by);
    lemma_token_at(a, b, at, by);
}

/// A sound change is the same on the new source as on the old, but for its spans.
pub proof fn lemma_sound_change_at(a: Seq<char>, b: Seq<char>, at: int, by: int)
    requires
        widened(a, b, at, by),
    ensures
        forall|i: int, j: int, fa: Far, fb: Far|
            0 <= i <= b.len() && j == sigma(i, at, by) && (firm(b, at) || at <= i) ==> alike_at(
                #[trigger] sound_change_at(a, j, fa),
                #[trigger] sound_change_at(b, i, fb),
                at,
                by,
            ) && sound(a, j, sound_change_at(a, j, fa)),
{
    lemma_marks_at(a, b, at, by);
    lemma_source_at(a, b, at, by);
    lemma_target_at(a, b, at, by);
    lemma_context_at(a, b, at, by);
    lemma_remark_at(a, b, at, by);
}

} // verus!
