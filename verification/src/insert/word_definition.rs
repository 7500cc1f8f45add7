//! Words where blank space was put in.

use crate::ast::DefinitionView;
use crate::chars::{accepts, white_space, CharClass};
use crate::error::Far;
use crate::exact::{lemma_scan, sound};
use crate::insert::{
    alike_at,
    firm,
    lemma_moved_empty,
    lemma_moved_prepend,
    lemma_run_through,
    lemma_scan_at,
    same_at,
    sigma,
    widened,
    Move,
};
use crate::insert::scan::{
    lemma_ident_at,
    lemma_marks_at,
    lemma_symbol_at,
    lemma_text_at,
    lemma_token_at,
};
use crate::parser::scan::{advances, run_end, symbol_at, text_at};
use crate::parser::word_definition::{
    defined_at,
    definition_at,
    definition_block_at,
    definitions_at,
    gap_at,
    lines_at,
    maybe_gap_at,
    pronunciation_at,
    syllabled_at,
    syllables_at,
    tag_at,
    word_at,
};
use vstd::prelude::*;

verus! {

/// A gap between definitions is the same on the new source as on the old.
pub proof fn lemma_gap_at(a: Seq<char>, b: Seq<char>, at: int, by: int)
    requires
        widened(a, b, at, by),
    ensures
        forall|i: int, j: int, fa: Far, fb: Far|
            0 <= i <= b.len() && j == sigma(i, at, by) ==> same_at(
                #[trigger] gap_at(a, j, fa),
                #[trigger] gap_at(b, i, fb),
                at,
                by,
            ) && sound(a, j, gap_at(a, j, fa)),
{
    lemma_scan(a);
    lemma_scan_at(a, b, at, by);
    lemma_run_through(a, at, at + by);
    assert forall|i: int, j: int, fa: Far, fb: Far|
        0 <= i <= b.len() && j == sigma(i, at, by) implies same_at(
        #[trigger] gap_at(a, j, fa),
        #[trigger] gap_at(b, i, fb),
        at,
        by,
    ) && sound(a, j, gap_at(a, j, fa)) by {
        if i < b.len() {
            assert(a[j] == b[i]);
            if i + 1 < b.len() {
                assert(a[sigma(i + 1, at, by)] == b[i + 1]);
            }
            if i + 1 == at && b[i] != '\n' {
                if by > 0 {
                    assert(white_space(a[at]));
                    lemma_run_through(a, at + 1, at + by);
                }
                if at < b.len() && b[at] == '\n' {
                    assert(accepts(CharClass::Space, b[at]));
                    assert(run_end(b, at, CharClass::Space) == run_end(
                        b,
                        at + 1,
                        CharClass::Space,
                    ));
                }
            }
        }
    }
}

/// A part of speech is the same on the new source as on the old, but for its span.
pub proof fn lemma_tag_at(a: Seq<char>, b: Seq<char>, at: int, by: int)
    requires
        widened(a, b, at, by),
    ensures
        forall|i: int, j: int, fa: Far, fb: Far|
            0 <= i <= b.len() && j == sigma(i, at, by) ==> alike_at(
                #[trigger] tag_at(a, j, fa),
                #[trigger] tag_at(b, i, fb),
                at,
                by,
            ) && sound(a, j, tag_at(a, j, fa)),
{
    lemma_scan(a);
    lemma_scan_at(a, b, at, by);
    lemma_ident_at(a, b, at, by);
}

/// A definition is the same on the new source as on the old, but for its spans.
pub proof fn lemma_definition_at(a: Seq<char>, b: Seq<char>, at: int, by: int)
    requires
        widened(a, b, at, by),
    ensures
        forall|i: int, j: int, fa: Far, fb: Far|
            0 <= i <= b.len() && j == sigma(i, at, by) && (firm(b, at) || at <= i) ==> alike_at(
                #[trigger] definition_at(a, j, fa),
                #[trigger] definition_at(b, i, fb),
                at,
                by,
            ) && sound(a, j, definition_at(a, j, fa)),
{
    lemma_tag_at(a, b, at, by);
    lemma_token_at(a, b, at, by);
    reveal(definition_at);
}

/// An optional gap is the same on the new source as on the old.
pub proof fn lemma_maybe_gap_at(a: Seq<char>, b: Seq<char>, at: int, by: int)
    requires
        widened(a, b, at, by),
    ensures
        forall|i: int, j: int, fa: Far, fb: Far|
            0 <= i <= b.len() && j == sigma(i, at, by) ==> same_at(
                #[trigger] maybe_gap_at(a, j, fa),
                #[trigger] maybe_gap_at(b, i, fb),
                at,
                by,
            ) && sound(a, j, maybe_gap_at(a, j, fa)),
{
    lemma_gap_at(a, b, at, by);
}

proof fn lemma_defined_put(
    a: Seq<char>,
    b: Seq<char>,
    at: int,
    by: int,
    i: int,
    fa: Far,
    fb: Far,
)
    requires
        widened(a, b, at, by),
        0 <= i <= b.len(),
        firm(b, at) || at <= i,
    ensures
        alike_at(defined_at(a, sigma(i, at, by), fa), defined_at(b, i, fb), at, by),
        sound(a, sigma(i, at, by), defined_at(a, sigma(i, at, by), fa)),
        defined_at(b, i, fb).res is Some,
    decreases b.len() - i,
{
    lemma_gap_at(a, b, at, by);
    lemma_definition_at(a, b, at, by);
    lemma_moved_empty::<DefinitionView>(at, by);
    let sa = gap_at(a, sigma(i, at, by), fa);
    let sb = gap_at(b, i, fb);
    assert(same_at(sa, sb, at, by) && sound(a, sigma(i, at, by), sa));
    if let Some((_, mid)) = sb.res {
        let na = definition_at(a, sigma(mid, at, by), sa.far);
        let nb = definition_at(b, mid, sb.far);
        assert(alike_at(na, nb, at, by) && sound(a, sigma(mid, at, by), na));
        if let Some((node, end)) = nb.res {
            if advances(b, i, end) {
                assert(advances(a, sigma(i, at, by), sigma(end, at, by)));
                lemma_defined_put(a, b, at, by, end, na.far, nb.far);
                if let Some((rest, _)) = defined_at(b, end, nb.far).res {
                    lemma_moved_prepend(node, rest, at, by);
                }
            }
        }
    }
}

/// The rest of the definitions of a block are the same on the new source as on the old, but for their spans.
pub proof fn lemma_defined_at(a: Seq<char>, b: Seq<char>, at: int, by: int)
    requires
        widened(a, b, at, by),
    ensures
        forall|i: int, j: int, fa: Far, fb: Far|
            0 <= i <= b.len() && j == sigma(i, at, by) && (firm(b, at) || at <= i) ==> alike_at(
                #[trigger] defined_at(a, j, fa),
                #[trigger] defined_at(b, i, fb),
                at,
                by,
            ) && sound(a, j, defined_at(a, j, fa)),
{
    assert forall|i: int, j: int, fa: Far, fb: Far|
        0 <= i <= b.len() && j == sigma(i, at, by) && (firm(b, at) || at <= i) implies alike_at(
        #[trigger] defined_at(a, j, fa),
        #[trigger] defined_at(b, i, fb),
        at,
        by,
    ) && sound(a, j, defined_at(a, j, fa)) by {
        lemma_defined_put(a, b, at, by, i, fa, fb);
    }
}

/// The definitions of a block are the same on the new source as on the old, but for their spans.
pub proof fn lemma_lines_at(a: Seq<char>, b: Seq<char>, at: int, by: int)
    requires
        widened(a, b, at, by),
    ensures
        forall|i: int, j: int, fa: Far, fb: Far|
            0 <= i <= b.len() && j == sigma(i, at, by) && (firm(b, at) || at <= i) ==> alike_at(
                #[trigger] lines_at(a, j, fa),
                #[trigger] lines_at(b, i, fb),
                at,
                by,
            ) && sound(a, j, lines_at(a, j, fa)),
{
    lemma_definition_at(a, b, at, by);
    lemma_defined_at(a, b, at, by);
    assert forall|i: int, j: int, fa: Far, fb: Far|
        0 <= i <= b.len() && j == sigma(i, at, by) && (firm(b, at) || at <= i) implies alike_at(
        #[trigger] lines_at(a, j, fa),
        #[trigger] lines_at(b, i, fb),
        at,
        by,
    ) && sound(a, j, lines_at(a, j, fa)) by {
        let first = definition_at(b, i, fb);
        if let Some((node, end)) = first.res {
            if let Some((rest, _)) = defined_at(b, end, first.far).res {
                lemma_moved_prepend(node, rest, at, by);
            }
        }
    }
}

/// A block of definitions is the same on the new source as on the old, but for its spans.
pub proof fn lemma_definition_block_at(a: Seq<char>, b: Seq<char>, at: int, by: int)
    requires
        widened(a, b, at, by),
    ensures
        forall|i: int, j: int, fa: Far, fb: Far|
            0 <= i <= b.len() && j == sigma(i, at, by) && (firm(b, at) || at <= i) ==> alike_at(
                #[trigger] definition_block_at(a, j, fa),
                #[trigger] definition_block_at(b, i, fb),
                at,
                by,
            ) && sound(a, j, definition_block_at(a, j, fa)),
{
    lemma_symbol_at(a, b, at, by);
    lemma_maybe_gap_at(a, b, at, by);
    lemma_lines_at(a, b, at, by);
}

/// The definitions of a word are the same on the new source as on the old, but for their spans.
pub proof fn lemma_definitions_at(a: Seq<char>, b: Seq<char>, at: int, by: int)
    requires
        widened(a, b, at, by),
    ensures
        forall|i: int, j: int, fa: Far, fb: Far|
            0 <= i <= b.len() && j == sigma(i, at, by) && (firm(b, at) || at <= i) ==> alike_at(
                #[trigger] definitions_at(a, j, fa),
                #[trigger] definitions_at(b, i, fb),
                at,
                by,
            ) && sound(a, j, definitions_at(a, j, fa)),
{
    lemma_scan(a);
    lemma_scan_at(a, b, at, by);
    lemma_definition_block_at(a, b, at, by);
    lemma_definition_at(a, b, at, by);
    assert forall|i: int, j: int, fa: Far, fb: Far|
        0 <= i <= b.len() && j == sigma(i, at, by) && (firm(b, at) || at <= i) implies alike_at(
        #[trigger] definitions_at(a, j, fa),
        #[trigger] definitions_at(b, i, fb),
        at,
        by,
    ) && sound(a, j, definitions_at(a, j, fa)) by {
        let here = run_end(b, i, CharClass::Space);
        let block = definition_block_at(b, here, fb);
        if block.res is None {
            if let Some((node, end)) = definition_at(b, here, block.far).res {
                assert(seq![node].moved(at, by) =~= seq![node.moved(at, by)]);
            }
        }
    }
}

proof fn lemma_syllabled_put(
    a: Seq<char>,
    b: Seq<char>,
    at: int,
    by: int,
    i: int,
    fa: Far,
    fb: Far,
)
    requires
        widened(a, b, at, by),
        0 <= i <= b.len(),
    ensures
        same_at(syllabled_at(a, sigma(i, at, by), fa), syllabled_at(b, i, fb), at, by),
        sound(a, sigma(i, at, by), syllabled_at(a, sigma(i, at, by), fa)),
        syllabled_at(b, i, fb).res is Some,
    decreases b.len() - i,
{
    lemma_scan(a);
    lemma_scan_at(a, b, at, by);
    lemma_text_at(a, b, at, by);
    let sa = symbol_at(a, sigma(i, at, by), '.', fa);
    let sb = symbol_at(b, i, '.', fb);
    assert(same_at(sa, sb, at, by) && sound(a, sigma(i, at, by), sa));
    if let Some((_, mid)) = sb.res {
        let na = text_at(a, sigma(mid, at, by), CharClass::Word, sa.far);
        let nb = text_at(b, mid, CharClass::Word, sb.far);
        assert(same_at(na, nb, at, by) && sound(a, sigma(mid, at, by), na));
        if let Some((node, end)) = nb.res {
            if advances(b, i, end) {
                assert(advances(a, sigma(i, at, by), sigma(end, at, by)));
                lemma_syllabled_put(a, b, at, by, end, na.far, nb.far);
            }
        }
    }
}

/// The rest of the syllables are the same on the new source as on the old.
pub proof fn lemma_syllabled_at(a: Seq<char>, b: Seq<char>, at: int, by: int)
    requires
        widened(a, b, at, by),
    ensures
        forall|i: int, j: int, fa: Far, fb: Far|
            0 <= i <= b.len() && j == sigma(i, at, by) ==> same_at(
                #[trigger] syllabled_at(a, j, fa),
                #[trigger] syllabled_at(b, i, fb),
                at,
                by,
            ) && sound(a, j, syllabled_at(a, j, fa)),
{
    assert forall|i: int, j: int, fa: Far, fb: Far|
        0 <= i <= b.len() && j == sigma(i, at, by) implies same_at(
        #[trigger] syllabled_at(a, j, fa),
        #[trigger] syllabled_at(b, i, fb),
        at,
        by,
    ) && sound(a, j, syllabled_at(a, j, fa)) by {
        lemma_syllabled_put(a, b, at, by, i, fa, fb);
    }
}

/// The syllables are the same on the new source as on the old.
pub proof fn lemma_syllables_at(a: Seq<char>, b: Seq<char>, at: int, by: int)
    requires
        widened(a, b, at, by),
    ensures
        forall|i: int, j: int, fa: Far, fb: Far|
            0 <= i <= b.len() && j == sigma(i, at, by) ==> same_at(
                #[trigger] syllables_at(a, j, fa),
                #[trigger] syllables_at(b, i, fb),
                at,
                by,
            ) && sound(a, j, syllables_at(a, j, fa)),
{
    lemma_text_at(a, b, at, by);
    lemma_syllabled_at(a, b, at, by);
}

/// A pronunciation is the same on the new source as on the old, but for its span.
pub proof fn lemma_pronunciation_at(a: Seq<char>, b: Seq<char>, at: int, by: int)
    requires
        widened(a, b, at, by),
    ensures
        forall|i: int, j: int, fa: Far, fb: Far|
            0 <= i <= b.len() && j == sigma(i, at, by) ==> alike_at(
                #[trigger] pronunciation_at(a, j, fa),
                #[trigger] pronunciation_at(b, i, fb),
                at,
                by,
            ) && sound(a, j, pronunciation_at(a, j, fa)),
{
    lemma_scan(a);
    lemma_scan_at(a, b, at, by);
    lemma_syllables_at(a, b, at, by);
}

/// A word is the same on the new source as on the old, but for its spans.
pub proof fn lemma_word_at(a: Seq<char>, b: Seq<char>, at: int, by: int)
    requires
        widened(a, b, at, by),
    ensures
        forall|i: int, j: int, fa: Far, fb: Far|
            0 <= i <= b.len() && j == sigma(i, at, by) && (firm(b, at) || at <= i) ==> alike_at(
                #[trigger] word_at(a, j, fa),
                #[trigger] word_at(b, i, fb),
                at,
                by,
            ) && sound(a, j, word_at(a, j, fa)),
{
    lemma_marks_at(a, b, at, by);
    lemma_ident_at(a, b, at, by);
    lemma_pronunciation_at(a, b, at, by);
    lemma_definitions_at(a, b, at, by);
}

} // verus!
