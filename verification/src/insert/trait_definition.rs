//! Traits where blank space was put in.

use crate::ast::TraitMemberView;
use crate::chars::CharClass;
use crate::error::Far;
use crate::exact::{lemma_scan, sound};
use crate::insert::{
    alike_at,
    steady,
    lemma_keywords,
    lemma_moved_empty,
    lemma_moved_prepend,
    lemma_scan_at,
    same_at,
    sigma,
    widened,
};
use crate::insert::common::{lemma_list_at, lemma_trailing_at};
use crate::insert::scan::{lemma_closing_at, lemma_ident_at, lemma_marks_at, lemma_words_at};
use crate::model::Marked;
use crate::parser::scan::{advances, maybe_run_at, padded_symbol_at};
use crate::parser::trait_definition::{
    default_at,
    member_at,
    membered_at,
    members_at,
    notation_at,
    trait_at,
};
use vstd::prelude::*;

verus! {

/// An optional run is the same on the new source as on the old.
pub proof fn lemma_maybe_run_at(a: Seq<char>, b: Seq<char>, at: int, by: int)
    requires
        widened(a, b, at, by),
    ensures
        forall|i: int, j: int, class: CharClass, fa: Far, fb: Far|
            0 <= i <= b.len() && j == sigma(i, at, by) && class != CharClass::Space && (steady(b, at, class) || at <= i) ==> same_at(
                #[trigger] maybe_run_at(a, j, class, fa),
                #[trigger] maybe_run_at(b, i, class, fb),
                at,
                by,
            ) && sound(a, j, maybe_run_at(a, j, class, fa)),
{
    lemma_scan(a);
    lemma_scan_at(a, b, at, by);
}

/// A notation is the same on the new source as on the old, but for its span.
pub proof fn lemma_notation_at(a: Seq<char>, b: Seq<char>, at: int, by: int)
    requires
        widened(a, b, at, by),
    ensures
        forall|i: int, j: int, fa: Far, fb: Far|
            0 <= i <= b.len() && j == sigma(i, at, by) ==> alike_at(
                #[trigger] notation_at(a, j, fa),
                #[trigger] notation_at(b, i, fb),
                at,
                by,
            ) && sound(a, j, notation_at(a, j, fa)),
{
    lemma_scan(a);
    lemma_scan_at(a, b, at, by);
    lemma_marks_at(a, b, at, by);
    lemma_maybe_run_at(a, b, at, by);
}

/// The word `default` is the same on the new source as on the old, but for its offset.
pub proof fn lemma_default_at(a: Seq<char>, b: Seq<char>, at: int, by: int)
    requires
        widened(a, b, at, by),
    ensures
        forall|i: int, j: int, fa: Far, fb: Far|
            0 <= i <= b.len() && j == sigma(i, at, by) ==> alike_at(
                #[trigger] default_at(a, j, fa),
                #[trigger] default_at(b, i, fb),
                at,
                by,
            ) && sound(a, j, default_at(a, j, fa)),
{
    lemma_scan(a);
    lemma_scan_at(a, b, at, by);
    lemma_keywords();
}

/// A member of a trait is the same on the new source as on the old, but for its spans.
pub proof fn lemma_member_at(a: Seq<char>, b: Seq<char>, at: int, by: int)
    requires
        widened(a, b, at, by),
    ensures
        forall|i: int, j: int, fa: Far, fb: Far|
            0 <= i <= b.len() && j == sigma(i, at, by) ==> alike_at(
                #[trigger] member_at(a, j, fa),
                #[trigger] member_at(b, i, fb),
                at,
                by,
            ) && sound(a, j, member_at(a, j, fa)),
{
    lemma_default_at(a, b, at, by);
    lemma_list_at(a, b, at, by);
    lemma_notation_at(a, b, at, by);
    reveal(member_at);
}

proof fn lemma_membered_put(
    a: Seq<char>,
    b: Seq<char>,
    at: int,
    by: int,
    i: int,
    fa: Far,
    fb: Far,
)
    requires
        widened(a, b, at, by),
        0 <= i <= b.len(),
    ensures
        alike_at(membered_at(a, sigma(i, at, by), fa), membered_at(b, i, fb), at, by),
        sound(a, sigma(i, at, by), membered_at(a, sigma(i, at, by), fa)),
        membered_at(b, i, fb).res is Some,
    decreases b.len() - i,
{
    lemma_marks_at(a, b, at, by);
    lemma_member_at(a, b, at, by);
    lemma_moved_empty::<Marked<TraitMemberView>>(at, by);
    let sa = padded_symbol_at(a, sigma(i, at, by), ',', fa);
    let sb = padded_symbol_at(b, i, ',', fb);
    assert(same_at(sa, sb, at, by) && sound(a, sigma(i, at, by), sa));
    if let Some((_, mid)) = sb.res {
        let na = member_at(a, sigma(mid, at, by), sa.far);
        let nb = member_at(b, mid, sb.far);
        assert(alike_at(na, nb, at, by) && sound(a, sigma(mid, at, by), na));
        if let Some((node, end)) = nb.res {
            if advances(b, i, end) {
                assert(advances(a, sigma(i, at, by), sigma(end, at, by)));
                lemma_membered_put(a, b, at, by, end, na.far, nb.far);
                if let Some((rest, _)) = membered_at(b, end, nb.far).res {
                    lemma_moved_prepend(node, rest, at, by);
                }
            }
        }
    }
}

/// The rest of the members of a trait are the same on the new source as on the old, but for their spans.
pub proof fn lemma_membered_at(a: Seq<char>, b: Seq<char>, at: int, by: int)
    requires
        widened(a, b, at, by),
    ensures
        forall|i: int, j: int, fa: Far, fb: Far|
            0 <= i <= b.len() && j == sigma(i, at, by) ==> alike_at(
                #[trigger] membered_at(a, j, fa),
                #[trigger] membered_at(b, i, fb),
                at,
                by,
            ) && sound(a, j, membered_at(a, j, fa)),
{
    assert forall|i: int, j: int, fa: Far, fb: Far|
        0 <= i <= b.len() && j == sigma(i, at, by) implies alike_at(
        #[trigger] membered_at(a, j, fa),
        #[trigger] membered_at(b, i, fb),
        at,
        by,
    ) && sound(a, j, membered_at(a, j, fa)) by {
        lemma_membered_put(a, b, at, by, i, fa, fb);
    }
}

/// The members of a trait are the same on the new source as on the old, but for their spans.
pub proof fn lemma_members_at(a: Seq<char>, b: Seq<char>, at: int, by: int)
    requires
        widened(a, b, at, by),
    ensures
        forall|i: int, j: int, fa: Far, fb: Far|
            0 <= i <= b.len() && j == sigma(i, at, by) ==> alike_at(
                #[trigger] members_at(a, j, fa),
                #[trigger] members_at(b, i, fb),
                at,
                by,
            ) && sound(a, j, members_at(a, j, fa)),
{
    lemma_member_at(a, b, at, by);
    lemma_membered_at(a, b, at, by);
    assert forall|i: int, j: int, fa: Far, fb: Far|
        0 <= i <= b.len() && j == sigma(i, at, by) implies alike_at(
        #[trigger] members_at(a, j, fa),
        #[trigger] members_at(b, i, fb),
        at,
        by,
    ) && sound(a, j, members_at(a, j, fa)) by {
        let first = member_at(b, i, fb);
        if let Some((node, end)) = first.res {
            if let Some((rest, _)) = membered_at(b, end, first.far).res {
                lemma_moved_prepend(node, rest, at, by);
            }
        }
    }
}

/// The body of a trait is the same on the new source as on the old, but for its spans.
pub proof fn lemma_trait_body_at(a: Seq<char>, b: Seq<char>, at: int, by: int)
    requires
        widened(a, b, at, by),
    ensures
        forall|i: int, j: int, fa: Far, fb: Far|
            0 <= i <= b.len() && j == sigma(i, at, by) ==> alike_at(
                #[trigger] crate::parser::trait_definition::body_at(a, j, fa),
                #[trigger] crate::parser::trait_definition::body_at(b, i, fb),
                at,
                by,
            ) && sound(a, j, crate::parser::trait_definition::body_at(a, j, fa)),
{
    lemma_marks_at(a, b, at, by);
    lemma_members_at(a, b, at, by);
    lemma_trailing_at(a, b, at, by);
    lemma_closing_at(a, b, at, by);
}

/// A trait is the same on the new source as on the old, but for its spans.
pub proof fn lemma_trait_at(a: Seq<char>, b: Seq<char>, at: int, by: int)
    requires
        widened(a, b, at, by),
    ensures
        forall|i: int, j: int, fa: Far, fb: Far|
            0 <= i <= b.len() && j == sigma(i, at, by) ==> alike_at(
                #[trigger] trait_at(a, j, fa),
                #[trigger] trait_at(b, i, fb),
                at,
                by,
            ) && sound(a, j, trait_at(a, j, fa)),
{
    lemma_keywords();
    lemma_words_at(a, b, at, by);
    lemma_ident_at(a, b, at, by);
    lemma_trait_body_at(a, b, at, by);
}

} // verus!
