//! Imports where blank space was put in.

use crate::error::Far;
use crate::exact::{lemma_scan, sound};
use crate::insert::{
    alike_at,
    lemma_keywords,
    lemma_moved_empty,
    lemma_moved_prepend,
    lemma_scan_at,
    same_at,
    sigma,
    widened,
    Move,
};
use crate::insert::common::{lemma_list_at, lemma_trailing_at};
use crate::insert::scan::{lemma_ident_at, lemma_marks_at, lemma_words_at};
use crate::model::Marked;
use crate::parser::import::{
    above_at,
    chosen_at,
    here_at,
    import_at,
    module_at,
    named_at,
    names_at,
    rooted_at,
    star_at,
    step_at,
    stepped_at,
    steps_at,
};
use crate::parser::scan::{advances, symbol_at, token};
use vstd::prelude::*;

verus! {

/// The name of an outside module is the same on the new source as on the old, but for its span.
pub proof fn lemma_module_at(a: Seq<char>, b: Seq<char>, at: int, by: int)
    requires
        widened(a, b, at, by),
    ensures
        forall|i: int, j: int, fa: Far, fb: Far|
            0 <= i <= b.len() && j == sigma(i, at, by) ==> alike_at(
                #[trigger] module_at(a, j, fa),
                #[trigger] module_at(b, i, fb),
                at,
                by,
            ) && sound(a, j, module_at(a, j, fa)),
{
    lemma_scan(a);
    lemma_scan_at(a, b, at, by);
    lemma_ident_at(a, b, at, by);
}

/// The segment `..` is the same on the new source as on the old, but for its span.
pub proof fn lemma_above_at(a: Seq<char>, b: Seq<char>, at: int, by: int)
    requires
        widened(a, b, at, by),
    ensures
        forall|i: int, j: int, fa: Far, fb: Far|
            0 <= i <= b.len() && j == sigma(i, at, by) ==> alike_at(
                #[trigger] above_at(a, j, fa),
                #[trigger] above_at(b, i, fb),
                at,
                by,
            ) && sound(a, j, above_at(a, j, fa)),
{
    lemma_scan(a);
    lemma_scan_at(a, b, at, by);
}

/// The segment `.` is the same on the new source as on the old, but for its span.
pub proof fn lemma_here_at(a: Seq<char>, b: Seq<char>, at: int, by: int)
    requires
        widened(a, b, at, by),
    ensures
        forall|i: int, j: int, fa: Far, fb: Far|
            0 <= i <= b.len() && j == sigma(i, at, by) ==> alike_at(
                #[trigger] here_at(a, j, fa),
                #[trigger] here_at(b, i, fb),
                at,
                by,
            ) && sound(a, j, here_at(a, j, fa)),
{
    lemma_scan(a);
    lemma_scan_at(a, b, at, by);
}

/// A segment of a path is the same on the new source as on the old, but for its span.
pub proof fn lemma_step_at(a: Seq<char>, b: Seq<char>, at: int, by: int)
    requires
        widened(a, b, at, by),
    ensures
        forall|i: int, j: int, fa: Far, fb: Far|
            0 <= i <= b.len() && j == sigma(i, at, by) ==> alike_at(
                #[trigger] step_at(a, j, fa),
                #[trigger] step_at(b, i, fb),
                at,
                by,
            ) && sound(a, j, step_at(a, j, fa)),
{
    lemma_module_at(a, b, at, by);
    lemma_ident_at(a, b, at, by);
    lemma_above_at(a, b, at, by);
    lemma_here_at(a, b, at, by);
}

proof fn lemma_stepped_put(
    a: Seq<char>,
    b: Seq<char>,
    at: int,
    by: int,
    i: int,
    fa: Far,
    fb: Far,
)
    requires
        widened(a, b, at, by),
        0 <= i <= b.len(),
    ensures
        alike_at(stepped_at(a, sigma(i, at, by), fa), stepped_at(b, i, fb), at, by),
        sound(a, sigma(i, at, by), stepped_at(a, sigma(i, at, by), fa)),
        stepped_at(b, i, fb).res is Some,
    decreases b.len() - i,
{
    lemma_scan(a);
    lemma_scan_at(a, b, at, by);
    lemma_step_at(a, b, at, by);
    lemma_moved_empty::<Marked<Seq<char>>>(at, by);
    let sa = symbol_at(a, sigma(i, at, by), '/', fa);
    let sb = symbol_at(b, i, '/', fb);
    assert(same_at(sa, sb, at, by) && sound(a, sigma(i, at, by), sa));
    if let Some((_, mid)) = sb.res {
        let na = step_at(a, sigma(mid, at, by), sa.far);
        let nb = step_at(b, mid, sb.far);
        assert(alike_at(na, nb, at, by) && sound(a, sigma(mid, at, by), na));
        if let Some((node, end)) = nb.res {
            if advances(b, i, end) {
                assert(advances(a, sigma(i, at, by), sigma(end, at, by)));
                lemma_stepped_put(a, b, at, by, end, na.far, nb.far);
                if let Some((rest, _)) = stepped_at(b, end, nb.far).res {
                    lemma_moved_prepend(node, rest, at, by);
                }
            }
        }
    }
}

/// The rest of a path is the same on the new source as on the old, but for its spans.
pub proof fn lemma_stepped_at(a: Seq<char>, b: Seq<char>, at: int, by: int)
    requires
        widened(a, b, at, by),
    ensures
        forall|i: int, j: int, fa: Far, fb: Far|
            0 <= i <= b.len() && j == sigma(i, at, by) ==> alike_at(
                #[trigger] stepped_at(a, j, fa),
                #[trigger] stepped_at(b, i, fb),
                at,
                by,
            ) && sound(a, j, stepped_at(a, j, fa)),
{
    assert forall|i: int, j: int, fa: Far, fb: Far|
        0 <= i <= b.len() && j == sigma(i, at, by) implies alike_at(
        #[trigger] stepped_at(a, j, fa),
        #[trigger] stepped_at(b, i, fb),
        at,
        by,
    ) && sound(a, j, stepped_at(a, j, fa)) by {
        lemma_stepped_put(a, b, at, by, i, fa, fb);
    }
}

/// A path is the same on the new source as on the old, but for its spans.
pub proof fn lemma_steps_at(a: Seq<char>, b: Seq<char>, at: int, by: int)
    requires
        widened(a, b, at, by),
    ensures
        forall|i: int, j: int, fa: Far, fb: Far|
            0 <= i <= b.len() && j == sigma(i, at, by) ==> alike_at(
                #[trigger] steps_at(a, j, fa),
                #[trigger] steps_at(b, i, fb),
                at,
                by,
            ) && sound(a, j, steps_at(a, j, fa)),
{
    lemma_step_at(a, b, at, by);
    lemma_stepped_at(a, b, at, by);
    assert forall|i: int, j: int, fa: Far, fb: Far|
        0 <= i <= b.len() && j == sigma(i, at, by) implies alike_at(
        #[trigger] steps_at(a, j, fa),
        #[trigger] steps_at(b, i, fb),
        at,
        by,
    ) && sound(a, j, steps_at(a, j, fa)) by {
        let first = step_at(b, i, fb);
        if let Some((node, end)) = first.res {
            if let Some((rest, _)) = stepped_at(b, end, first.far).res {
                lemma_moved_prepend(node, rest, at, by);
            }
        }
    }
}

/// Whether a path is absolute is the same on the new source as on the old.
pub proof fn lemma_rooted_at(a: Seq<char>, b: Seq<char>, at: int, by: int)
    requires
        widened(a, b, at, by),
    ensures
        forall|i: int, j: int, fa: Far, fb: Far|
            0 <= i <= b.len() && j == sigma(i, at, by) ==> same_at(
                #[trigger] rooted_at(a, j, fa),
                #[trigger] rooted_at(b, i, fb),
                at,
                by,
            ) && sound(a, j, rooted_at(a, j, fa)),
{
    lemma_scan(a);
    lemma_scan_at(a, b, at, by);
}

/// The names between the brackets of an import are the same on the new source as on the old, but for their spans.
pub proof fn lemma_chosen_at(a: Seq<char>, b: Seq<char>, at: int, by: int)
    requires
        widened(a, b, at, by),
    ensures
        forall|i: int, j: int, fa: Far, fb: Far|
            0 <= i <= b.len() && j == sigma(i, at, by) ==> alike_at(
                #[trigger] chosen_at(a, j, fa),
                #[trigger] chosen_at(b, i, fb),
                at,
                by,
            ) && sound(a, j, chosen_at(a, j, fa)),
{
    lemma_list_at(a, b, at, by);
    lemma_trailing_at(a, b, at, by);
    lemma_moved_empty::<Marked<Seq<char>>>(at, by);
}

/// The names of an import in brackets are the same on the new source as on the old, but for their spans.
pub proof fn lemma_named_at(a: Seq<char>, b: Seq<char>, at: int, by: int)
    requires
        widened(a, b, at, by),
    ensures
        forall|i: int, j: int, fa: Far, fb: Far|
            0 <= i <= b.len() && j == sigma(i, at, by) ==> alike_at(
                #[trigger] named_at(a, j, fa),
                #[trigger] named_at(b, i, fb),
                at,
                by,
            ) && sound(a, j, named_at(a, j, fa)),
{
    lemma_marks_at(a, b, at, by);
    lemma_chosen_at(a, b, at, by);
}

/// The name `*` is the same on the new source as on the old, but for its span.
pub proof fn lemma_star_at(a: Seq<char>, b: Seq<char>, at: int, by: int)
    requires
        widened(a, b, at, by),
    ensures
        forall|i: int, j: int, fa: Far, fb: Far|
            0 <= i <= b.len() && j == sigma(i, at, by) ==> alike_at(
                #[trigger] star_at(a, j, fa),
                #[trigger] star_at(b, i, fb),
                at,
                by,
            ) && sound(a, j, star_at(a, j, fa)),
{
    lemma_scan(a);
    lemma_scan_at(a, b, at, by);
    assert forall|i: int, j: int, fa: Far, fb: Far|
        0 <= i <= b.len() && j == sigma(i, at, by) implies alike_at(
        #[trigger] star_at(a, j, fa),
        #[trigger] star_at(b, i, fb),
        at,
        by,
    ) && sound(a, j, star_at(a, j, fa)) by {
        if i < b.len() {
            assert(a[j] == b[i]);
            if b[i] == '*' {
                assert(a.subrange(j, j + 1) == b.subrange(i, i + 1));
                assert(seq![token(b, i, i + 1)].moved(at, by) =~= seq![token(a, j, j + 1)]);
            }
        }
    }
}

/// What an import names is the same on the new source as on the old, but for its spans.
pub proof fn lemma_names_at(a: Seq<char>, b: Seq<char>, at: int, by: int)
    requires
        widened(a, b, at, by),
    ensures
        forall|i: int, j: int, fa: Far, fb: Far|
            0 <= i <= b.len() && j == sigma(i, at, by) ==> alike_at(
                #[trigger] names_at(a, j, fa),
                #[trigger] names_at(b, i, fb),
                at,
                by,
            ) && sound(a, j, names_at(a, j, fa)),
{
    lemma_named_at(a, b, at, by);
    lemma_star_at(a, b, at, by);
}

/// An import is the same on the new source as on the old, but for its spans.
pub proof fn lemma_import_at(a: Seq<char>, b: Seq<char>, at: int, by: int)
    requires
        widened(a, b, at, by),
    ensures
        forall|i: int, j: int, fa: Far, fb: Far|
            0 <= i <= b.len() && j == sigma(i, at, by) ==> alike_at(
                #[trigger] import_at(a, j, fa),
                #[trigger] import_at(b, i, fb),
                at,
                by,
            ) && sound(a, j, import_at(a, j, fa)),
{
    lemma_keywords();
    lemma_words_at(a, b, at, by);
    lemma_names_at(a, b, at, by);
    lemma_rooted_at(a, b, at, by);
    lemma_steps_at(a, b, at, by);
}

} // verus!
