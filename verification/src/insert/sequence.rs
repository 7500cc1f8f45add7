//! Statements in sequence where blank space was put in.

use crate::ast::StmtView;
use crate::chars::{line_break, white_space, CharClass};
use crate::error::Far;
use crate::exact::{lemma_scan, sound};
use crate::insert::{
    alike_at,
    firm,
    lemma_moved_empty,
    lemma_moved_prepend,
    lemma_run_at,
    lemma_run_through,
    lemma_scan_at,
    sigma,
    widened,
};
use crate::insert::class_definition::lemma_class_at;
use crate::insert::import::lemma_import_at;
use crate::insert::lang_definition::lemma_language_at;
use crate::insert::milestone::lemma_milestone_at;
use crate::insert::series_definition::lemma_series_at;
use crate::insert::sound_change::lemma_sound_change_at;
use crate::insert::trait_definition::lemma_trait_at;
use crate::insert::word_definition::lemma_word_at;
use crate::model::Marked;
use crate::parser::{breaks_at, line_end_at, root_at, statement_at, stmt_at, stmts_at};
use crate::parser::scan::{advances, lemma_run_end, newline_at, run_end};
use vstd::prelude::*;

verus! {

/// Line breaks are white space: they end within the run of white space in
/// which they begin, and there are some exactly where one stands first.
pub proof fn lemma_breaks_in_run(src: Seq<char>, pos: int, far: Far)
    requires
        0 <= pos <= src.len(),
    ensures
        breaks_at(src, pos, far).res matches Some((_, end)) && pos <= end <= run_end(
            src,
            pos,
            CharClass::Space,
        ) && run_end(src, end, CharClass::Space) == run_end(src, pos, CharClass::Space) && (end
            > pos <==> pos < src.len() && (src[pos] == '\n' || line_break(src[pos]))),
    decreases src.len() - pos,
{
    lemma_run_end(src, pos, CharClass::Space);
    let first = newline_at(src, pos, far);
    if let Some((_, end)) = first.res {
        if advances(src, pos, end) {
            assert(white_space(src[pos]));
            if end == pos + 2 {
                assert(white_space(src[pos + 1]));
            }
            lemma_run_through(src, pos, end);
            lemma_breaks_in_run(src, end, first.far);
        }
    }
}

/// A statement ends its line on the new source where it does on the old,
/// and after the white space that follows the reading stands at the same
/// place.
pub proof fn lemma_line_end_put(a: Seq<char>, b: Seq<char>, at: int, by: int, i: int, fa: Far, fb: Far)
    requires
        widened(a, b, at, by),
        0 <= i <= b.len(),
    ensures
        line_end_at(a, sigma(i, at, by), fa).res is Some <==> line_end_at(b, i, fb).res is Some,
        line_end_at(b, i, fb).res matches Some((_, end)) ==> line_end_at(
            a,
            sigma(i, at, by),
            fa,
        ).res matches Some((_, moved)) && sigma(i, at, by) <= moved <= a.len() && run_end(
            a,
            moved,
            CharClass::Space,
        ) == sigma(run_end(b, end, CharClass::Space), at, by),
{
    let j = sigma(i, at, by);
    lemma_breaks_in_run(a, j, fa);
    lemma_breaks_in_run(b, i, fb);
    lemma_run_at(a, b, at, by, i, CharClass::Space);
    lemma_run_end(a, j, CharClass::Space);
    if i < b.len() {
        assert(a[j] == b[i]);
    } else {
        lemma_run_end(a, a.len() as int, CharClass::Space);
        lemma_run_end(b, b.len() as int, CharClass::Space);
    }
}

/// A statement with its span is the same on the new source as on the old,
/// but for its spans.
pub proof fn lemma_stmt_at(a: Seq<char>, b: Seq<char>, at: int, by: int)
    requires
        widened(a, b, at, by),
    ensures
        forall|i: int, j: int, fa: Far, fb: Far|
            0 <= i <= b.len() && j == sigma(i, at, by) && (firm(b, at) || at <= i) ==> alike_at(
                #[trigger] stmt_at(a, j, fa),
                #[trigger] stmt_at(b, i, fb),
                at,
                by,
            ) && sound(a, j, stmt_at(a, j, fa)),
{
    reveal(stmt_at);
    lemma_scan(a);
    lemma_scan_at(a, b, at, by);
    lemma_statement_at(a, b, at, by);
    assert forall|i: int, j: int, fa: Far, fb: Far|
        0 <= i <= b.len() && j == sigma(i, at, by) && (firm(b, at) || at <= i) implies alike_at(
        #[trigger] stmt_at(a, j, fa),
        #[trigger] stmt_at(b, i, fb),
        at,
        by,
    ) && sound(a, j, stmt_at(a, j, fa)) by {
        let start = run_end(b, i, CharClass::Space);
        let this = statement_at(b, start, fb);
        let that = statement_at(a, sigma(start, at, by), fa);
        assert(alike_at(that, this, at, by) && sound(a, sigma(start, at, by), that));
        if let Some((node, end)) = this.res {
            lemma_line_end_put(a, b, at, by, end, that.far, this.far);
            lemma_run_end(a, sigma(end, at, by), CharClass::Space);
            if let Some((_, next)) = line_end_at(a, sigma(end, at, by), that.far).res {
                lemma_run_end(a, next, CharClass::Space);
            }
        }
    }
}

/// A statement is the same on the new source as on the old, but for its spans.
pub proof fn lemma_statement_at(a: Seq<char>, b: Seq<char>, at: int, by: int)
    requires
        widened(a, b, at, by),
    ensures
        forall|i: int, j: int, fa: Far, fb: Far|
            0 <= i <= b.len() && j == sigma(i, at, by) && (firm(b, at) || at <= i) ==> alike_at(
                #[trigger] statement_at(a, j, fa),
                #[trigger] statement_at(b, i, fb),
                at,
                by,
            ) && sound(a, j, statement_at(a, j, fa)),
{
    lemma_sound_change_at(a, b, at, by);
    lemma_import_at(a, b, at, by);
    lemma_language_at(a, b, at, by);
    lemma_word_at(a, b, at, by);
    lemma_trait_at(a, b, at, by);
    lemma_class_at(a, b, at, by);
    lemma_series_at(a, b, at, by);
    lemma_milestone_at(a, b, at, by);
    reveal(statement_at);
}

proof fn lemma_stmts_put(
    a: Seq<char>,
    b: Seq<char>,
    at: int,
    by: int,
    i: int,
    fa: Far,
    fb: Far,
)
    requires
        widened(a, b, at, by),
        0 <= i <= b.len(),
        firm(b, at) || at <= i,
    ensures
        alike_at(stmts_at(a, sigma(i, at, by), fa), stmts_at(b, i, fb), at, by),
        sound(a, sigma(i, at, by), stmts_at(a, sigma(i, at, by), fa)),
        stmts_at(b, i, fb).res is Some,
    decreases b.len() - i,
{
    lemma_stmt_at(a, b, at, by);
    lemma_moved_empty::<Marked<StmtView>>(at, by);
    let first = stmt_at(a, sigma(i, at, by), fa);
    let other = stmt_at(b, i, fb);
    assert(alike_at(first, other, at, by) && sound(a, sigma(i, at, by), first));
    if let Some((item, end)) = other.res {
        let next = end;
        if advances(b, i, next) {
            assert(advances(a, sigma(i, at, by), sigma(end, at, by)));
            assert(sigma(end, at, by) == sigma(next, at, by));
            lemma_stmts_put(a, b, at, by, next, first.far, other.far);
            if let Some((rest, _)) = stmts_at(b, next, other.far).res {
                lemma_moved_prepend(item, rest, at, by);
            }
        }
    }
}

/// Statements are the same on the new source as on the old, but for their spans.
pub proof fn lemma_stmts_at(a: Seq<char>, b: Seq<char>, at: int, by: int)
    requires
        widened(a, b, at, by),
    ensures
        forall|i: int, j: int, fa: Far, fb: Far|
            0 <= i <= b.len() && j == sigma(i, at, by) && (firm(b, at) || at <= i) ==> alike_at(
                #[trigger] stmts_at(a, j, fa),
                #[trigger] stmts_at(b, i, fb),
                at,
                by,
            ) && sound(a, j, stmts_at(a, j, fa)),
{
    assert forall|i: int, j: int, fa: Far, fb: Far|
        0 <= i <= b.len() && j == sigma(i, at, by) && (firm(b, at) || at <= i) implies alike_at(
        #[trigger] stmts_at(a, j, fa),
        #[trigger] stmts_at(b, i, fb),
        at,
        by,
    ) && sound(a, j, stmts_at(a, j, fa)) by {
        lemma_stmts_put(a, b, at, by, i, fa, fb);
    }
}

/// A program is the same on the new source as on the old, but for its spans.
pub proof fn lemma_root_at(a: Seq<char>, b: Seq<char>, at: int, by: int)
    requires
        widened(a, b, at, by),
    ensures
        forall|i: int, j: int, fa: Far, fb: Far|
            0 <= i <= b.len() && j == sigma(i, at, by) && (firm(b, at) || at <= i) ==> alike_at(
                #[trigger] root_at(a, j, fa),
                #[trigger] root_at(b, i, fb),
                at,
                by,
            ) && sound(a, j, root_at(a, j, fa)),
{
    lemma_scan(a);
    lemma_scan_at(a, b, at, by);
    lemma_stmts_at(a, b, at, by);
}

} // verus!
