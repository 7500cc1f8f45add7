//! Blank space between statements, after any line break.
//!
//! After a line feed or a carriage return blank space may be put in
//! anywhere ([`crate::blank`]). The other characters that end a line may also
//! stand in free text, so after them blank space changes nothing only where
//! no statement holds the place: between two statements, before the first or
//! after the last. What ends before the place is read the same; what begins
//! at or after it is read the same but for its spans.

use crate::ast::StmtView;
use crate::bytes::{byte_at, byte_len, lemma_encode_concat};
use crate::chars::{line_break, CharClass};
use crate::error::Far;
use crate::exact::{lemma_root, lemma_scan, lemma_stmt, lemma_stmts_from};
use crate::insert::class_definition::lemma_class_at;
use crate::insert::import::lemma_import_at;
use crate::insert::lang_definition::lemma_parent_at;
use crate::insert::milestone::lemma_milestone_at;
use crate::insert::scan::{lemma_ident_at, lemma_marks_at, lemma_symbol_at, lemma_words_at};
use crate::insert::sequence::{lemma_line_end_put, lemma_stmt_at};
use crate::insert::series_definition::lemma_series_at;
use crate::insert::sound_change::{lemma_context_at, lemma_source_at, lemma_target_at};
use crate::insert::trait_definition::lemma_trait_at;
use crate::insert::word_definition::{
    lemma_gap_at,
    lemma_maybe_gap_at,
    lemma_pronunciation_at,
    lemma_tag_at,
};
use crate::insert::{
    alike_at,
    is_blank,
    lemma_keywords,
    lemma_moved_empty,
    lemma_moved_prepend,
    lemma_run_at,
    lemma_run_before,
    lemma_run_through,
    lemma_scan_at,
    put_in,
    same_at,
    sigma,
    widened,
    Move,
};
use crate::insert_bytes::{grown, lemma_put_program};
use crate::model::Marked;
use crate::parser::class_definition::class_at;
use crate::parser::import::import_at;
use crate::parser::lang_definition::{language_at, name_at, parent_at};
use crate::parser::milestone::milestone_at;
use crate::parser::scan::{
    advances,
    ident_at,
    literal_from,
    padded_at,
    padded_symbol_at,
    run_end,
    symbol_at,
    token_at,
    Out,
};
use crate::parser::series_definition::series_at;
use crate::parser::sound_change::{context_at, remark_at, sound_change_at, source_at, target_at};
use crate::parser::trait_definition::trait_at;
use crate::parser::word_definition::{
    defined_at,
    definition_at,
    definition_block_at,
    definitions_at,
    gap_at,
    lines_at,
    maybe_gap_at,
    pronunciation_at,
    tag_at,
    word_at,
};
use crate::parser::{program, statement_at, stmt_at, stmts_at};
use vstd::prelude::*;

verus! {

/// What ends before the place on the old source is the same on the new one.
pub open spec fn before_at<V: Move>(x: Out<V>, y: Out<V>, at: int, by: int) -> bool {
    match y.res {
        Some((node, end)) => end < at ==> x.res == Some((node.moved(at, by), end)),
        None => true,
    }
}

/// Free text that ends before the place, or begins at or after it, is the
/// same on the new source but for its span; and free text is there on the
/// one source where it is on the other.
proof fn lemma_free_text(a: Seq<char>, b: Seq<char>, at: int, by: int, i: int, fa: Far, fb: Far)
    requires
        widened(a, b, at, by),
        0 <= i <= b.len(),
    ensures
        token_at(b, i, CharClass::FreeText, fb).res is None <==> token_at(
            a,
            sigma(i, at, by),
            CharClass::FreeText,
            fa,
        ).res is None,
        match token_at(b, i, CharClass::FreeText, fb).res {
            Some((node, end)) => i < end <= b.len() && (end < at || at <= i ==> token_at(
                a,
                sigma(i, at, by),
                CharClass::FreeText,
                fa,
            ).res == Some((node.moved(at, by), sigma(end, at, by)))),
            None => true,
        },
{
    lemma_scan(b);
    lemma_scan_at(a, b, at, by);
    if i < b.len() {
        assert(a[sigma(i, at, by)] == b[i]);
    }
    if i < at {
        lemma_run_before(a, b, at, by, i, CharClass::FreeText);
    }
}

/// A description that ends before the place is the same on the new source.
proof fn lemma_remark_before(a: Seq<char>, b: Seq<char>, at: int, by: int, i: int, fa: Far, fb: Far)
    requires
        widened(a, b, at, by),
        0 <= i < at,
    ensures
        before_at(remark_at(a, i, fa), remark_at(b, i, fb), at, by),
        remark_at(b, i, fb).res matches Some((_, end)) && i <= end <= b.len(),
{
    lemma_scan(b);
    lemma_marks_at(a, b, at, by);
    let colon = padded_symbol_at(b, i, ':', fb);
    let other = padded_symbol_at(a, i, ':', fa);
    assert(same_at(other, colon, at, by));
    if let Some((_, q)) = colon.res {
        lemma_free_text(a, b, at, by, q, other.far, colon.far);
    }
}

/// A display name that ends before the place is the same on the new source.
proof fn lemma_name_before(a: Seq<char>, b: Seq<char>, at: int, by: int, i: int, fa: Far, fb: Far)
    requires
        widened(a, b, at, by),
        0 <= i < at,
    ensures
        before_at(name_at(a, i, fa), name_at(b, i, fb), at, by),
        name_at(b, i, fb).res matches Some((_, end)) && i <= end <= b.len(),
{
    lemma_scan(b);
    lemma_marks_at(a, b, at, by);
    let colon = padded_symbol_at(b, i, ':', fb);
    let other = padded_symbol_at(a, i, ':', fa);
    assert(same_at(other, colon, at, by));
    if let Some((_, q)) = colon.res {
        lemma_free_text(a, b, at, by, q, other.far, colon.far);
    }
}

/// A sound change that ends before the place is the same on the new source,
/// and where there is none on the old source there is none on the new.
proof fn lemma_sound_change_before(
    a: Seq<char>,
    b: Seq<char>,
    at: int,
    by: int,
    i: int,
    fa: Far,
    fb: Far,
)
    requires
        widened(a, b, at, by),
        0 <= i < at,
    ensures
        before_at(sound_change_at(a, i, fa), sound_change_at(b, i, fb), at, by),
        sound_change_at(b, i, fb).res is None ==> sound_change_at(a, i, fa).res is None,
{
    lemma_scan(b);
    lemma_marks_at(a, b, at, by);
    lemma_source_at(a, b, at, by);
    lemma_target_at(a, b, at, by);
    lemma_context_at(a, b, at, by);
    let d1 = padded_symbol_at(b, i, '$', fb);
    let d2 = padded_symbol_at(a, i, '$', fa);
    assert(same_at(d2, d1, at, by));
    if let Some((_, p1)) = d1.res {
        let s1 = source_at(b, p1, d1.far);
        let s2 = source_at(a, sigma(p1, at, by), d2.far);
        assert(alike_at(s2, s1, at, by));
        if let Some((_, p2)) = s1.res {
            let a1 = padded_symbol_at(b, p2, '>', s1.far);
            let a2 = padded_symbol_at(a, sigma(p2, at, by), '>', s2.far);
            assert(same_at(a2, a1, at, by));
            if let Some((_, p3)) = a1.res {
                let t1 = target_at(b, p3, a1.far);
                let t2 = target_at(a, sigma(p3, at, by), a2.far);
                assert(alike_at(t2, t1, at, by));
                if let Some((_, p4)) = t1.res {
                    let c1 = context_at(b, p4, t1.far);
                    let c2 = context_at(a, sigma(p4, at, by), t2.far);
                    assert(alike_at(c2, c1, at, by));
                    if let Some((_, p5)) = c1.res {
                        if p5 < at {
                            lemma_remark_before(a, b, at, by, p5, c2.far, c1.far);
                        }
                    }
                }
            }
        }
    }
}

/// A language that ends before the place is the same on the new source, and
/// where there is none on the old source there is none on the new.
proof fn lemma_language_before(a: Seq<char>, b: Seq<char>, at: int, by: int, i: int, fa: Far, fb: Far)
    requires
        widened(a, b, at, by),
        0 <= i < at,
    ensures
        before_at(language_at(a, i, fa), language_at(b, i, fb), at, by),
        language_at(b, i, fb).res is None ==> language_at(a, i, fa).res is None,
{
    lemma_scan(b);
    lemma_keywords();
    lemma_words_at(a, b, at, by);
    lemma_ident_at(a, b, at, by);
    lemma_parent_at(a, b, at, by);
    let w1 = padded_at(b, i, "lang"@, fb);
    let w2 = padded_at(a, i, "lang"@, fa);
    assert(same_at(w2, w1, at, by));
    if let Some((_, p1)) = w1.res {
        let i1 = ident_at(b, p1, w1.far);
        let i2 = ident_at(a, sigma(p1, at, by), w2.far);
        assert(alike_at(i2, i1, at, by));
        if let Some((_, p2)) = i1.res {
            let f1 = parent_at(b, p2, i1.far);
            let f2 = parent_at(a, sigma(p2, at, by), i2.far);
            assert(alike_at(f2, f1, at, by));
            if let Some((_, p3)) = f1.res {
                if p3 < at {
                    lemma_name_before(a, b, at, by, p3, f2.far, f1.far);
                }
            }
        }
    }
}

/// A definition that ends before the place is the same on the new source,
/// and where there is none on the old source there is none on the new.
proof fn lemma_definition_before(
    a: Seq<char>,
    b: Seq<char>,
    at: int,
    by: int,
    i: int,
    fa: Far,
    fb: Far,
)
    requires
        widened(a, b, at, by),
        0 <= i <= b.len(),
    ensures
        before_at(definition_at(a, sigma(i, at, by), fa), definition_at(b, i, fb), at, by),
        definition_at(b, i, fb).res is None <==> definition_at(a, sigma(i, at, by), fa).res is None,
        definition_at(b, i, fb).res matches Some((_, end)) ==> i < end <= b.len(),
        definition_at(b, i, fb).res is Some ==> i < b.len() && b[i] != '{',
{
    reveal(definition_at);
    lemma_scan(b);
    lemma_tag_at(a, b, at, by);
    let t1 = tag_at(b, i, fb);
    let t2 = tag_at(a, sigma(i, at, by), fa);
    assert(alike_at(t2, t1, at, by));
    if let Some((_, q)) = t1.res {
        lemma_free_text(a, b, at, by, q, t2.far, t1.far);
    }
}

/// The rest of the definitions of a block, where it ends before the place,
/// is the same on the new source.
proof fn lemma_defined_before(a: Seq<char>, b: Seq<char>, at: int, by: int, i: int, fa: Far, fb: Far)
    requires
        widened(a, b, at, by),
        0 <= i < at,
    ensures
        before_at(defined_at(a, i, fa), defined_at(b, i, fb), at, by),
        defined_at(b, i, fb).res matches Some((_, end)) && i <= end <= b.len(),
    decreases b.len() - i,
{
    lemma_scan(b);
    lemma_gap_at(a, b, at, by);
    lemma_moved_empty::<crate::ast::DefinitionView>(at, by);
    let g1 = gap_at(b, i, fb);
    let g2 = gap_at(a, i, fa);
    assert(same_at(g2, g1, at, by));
    if let Some((_, q)) = g1.res {
        lemma_definition_before(a, b, at, by, q, g2.far, g1.far);
        let n1 = definition_at(b, q, g1.far);
        let n2 = definition_at(a, sigma(q, at, by), g2.far);
        if let Some((node, end)) = n1.res {
            if advances(b, i, end) {
                if end < at {
                    lemma_defined_before(a, b, at, by, end, n2.far, n1.far);
                    if let Some((rest, _)) = defined_at(b, end, n1.far).res {
                        lemma_moved_prepend(node, rest, at, by);
                    }
                } else {
                    lemma_defined_bound(b, end, n1.far);
                }
            }
        }
    }
}

/// The rest of the definitions of a block ends at or after its start.
proof fn lemma_defined_bound(b: Seq<char>, i: int, fb: Far)
    requires
        0 <= i <= b.len(),
    ensures
        defined_at(b, i, fb).res matches Some((_, end)) && i <= end <= b.len(),
{
    crate::exact::lemma_defined_from(b, i, fb);
}

/// Definitions that end before the place are the same on the new source.
proof fn lemma_definitions_before(
    a: Seq<char>,
    b: Seq<char>,
    at: int,
    by: int,
    i: int,
    fa: Far,
    fb: Far,
)
    requires
        widened(a, b, at, by),
        0 <= i < at,
    ensures
        before_at(definitions_at(a, i, fa), definitions_at(b, i, fb), at, by),
{
    lemma_scan(b);
    lemma_scan_at(a, b, at, by);
    lemma_symbol_at(a, b, at, by);
    lemma_maybe_gap_at(a, b, at, by);
    let p = run_end(b, i, CharClass::Space);
    let block = definition_block_at(b, p, fb);
    let other = definition_block_at(a, sigma(p, at, by), fa);
    if let Some((defs, end)) = definitions_at(b, i, fb).res {
        if end < at {
            crate::exact::lemma_definitions(b);
            crate::exact::lemma_definition_block(b);
            crate::exact::lemma_definition(b);
            assert(p < at);
            let o1 = symbol_at(b, p, '{', fb);
            let o2 = symbol_at(a, p, '{', fa);
            assert(same_at(o2, o1, at, by));
            if block.res is Some {
                if let Some((_, p1)) = o1.res {
                    let l1 = maybe_gap_at(b, p1, o1.far);
                    let l2 = maybe_gap_at(a, sigma(p1, at, by), o2.far);
                    assert(same_at(l2, l1, at, by));
                    if let Some((_, p2)) = l1.res {
                        crate::exact::lemma_lines(b);
                        lemma_lines_before(a, b, at, by, p2, l2.far, l1.far);
                        if let Some((_, p3)) = lines_at(b, p2, l1.far).res {
                            let t1 = maybe_gap_at(b, p3, lines_at(b, p2, l1.far).far);
                            let t2 = maybe_gap_at(
                                a,
                                sigma(p3, at, by),
                                lines_at(a, sigma(p2, at, by), l2.far).far,
                            );
                            assert(same_at(t2, t1, at, by));
                        }
                    }
                }
            } else {
                lemma_definition_before(a, b, at, by, p, other.far, block.far);
                if let Some((node, _)) = definition_at(b, p, block.far).res {
                    assert(seq![node].moved(at, by) =~= seq![node.moved(at, by)]);
                }
            }
        }
    }
}

/// One or more definitions with gaps between them that end before the
/// place are the same on the new source.
proof fn lemma_lines_before(a: Seq<char>, b: Seq<char>, at: int, by: int, i: int, fa: Far, fb: Far)
    requires
        widened(a, b, at, by),
        0 <= i <= b.len(),
    ensures
        before_at(lines_at(a, sigma(i, at, by), fa), lines_at(b, i, fb), at, by),
{
    lemma_definition_before(a, b, at, by, i, fa, fb);
    let first = definition_at(b, i, fb);
    let other = definition_at(a, sigma(i, at, by), fa);
    if let Some((node, end)) = first.res {
        lemma_defined_bound(b, end, first.far);
        if end < at {
            lemma_defined_before(a, b, at, by, end, other.far, first.far);
            if let Some((rest, _)) = defined_at(b, end, first.far).res {
                lemma_moved_prepend(node, rest, at, by);
            }
        }
    }
}

/// A word that ends before the place is the same on the new source; and
/// where there is none on the old source, there is none on the new, unless
/// the old source has the mark of a word there.
proof fn lemma_word_before(a: Seq<char>, b: Seq<char>, at: int, by: int, i: int, fa: Far, fb: Far)
    requires
        widened(a, b, at, by),
        0 <= i < at,
    ensures
        before_at(word_at(a, i, fa), word_at(b, i, fb), at, by),
        word_at(b, i, fb).res is None ==> word_at(a, i, fa).res is None || padded_symbol_at(
            b,
            i,
            '-',
            fb,
        ).res is Some,
{
    lemma_scan(b);
    lemma_marks_at(a, b, at, by);
    lemma_ident_at(a, b, at, by);
    lemma_pronunciation_at(a, b, at, by);
    let d1 = padded_symbol_at(b, i, '-', fb);
    let d2 = padded_symbol_at(a, i, '-', fa);
    assert(same_at(d2, d1, at, by));
    if let Some((_, p1)) = d1.res {
        let g1 = ident_at(b, p1, d1.far);
        let g2 = ident_at(a, sigma(p1, at, by), d2.far);
        assert(alike_at(g2, g1, at, by));
        if let Some((_, p2)) = g1.res {
            let s1 = pronunciation_at(b, p2, g1.far);
            let s2 = pronunciation_at(a, sigma(p2, at, by), g2.far);
            assert(alike_at(s2, s1, at, by));
            if let Some((_, p3)) = s1.res {
                if p3 < at {
                    lemma_definitions_before(a, b, at, by, p3, s2.far, s1.far);
                } else {
                    crate::exact::lemma_definitions(b);
                }
            }
        }
    }
}

/// Where a word of the language stands, its first letter stands.
proof fn lemma_first_letter(src: Seq<char>, pos: int, word: Seq<char>, far: Far)
    requires
        word.len() > 0,
    ensures
        padded_at(src, pos, word, far).res is Some ==> run_end(src, pos, CharClass::Space)
            < src.len() && src[run_end(src, pos, CharClass::Space)] == word[0],
{
    reveal_with_fuel(literal_from, 2);
}

/// A statement that ends before the place is the same on the new source.
proof fn lemma_statement_before(
    a: Seq<char>,
    b: Seq<char>,
    at: int,
    by: int,
    i: int,
    fa: Far,
    fb: Far,
)
    requires
        widened(a, b, at, by),
        0 <= i < at,
    ensures
        before_at(statement_at(a, i, fa), statement_at(b, i, fb), at, by),
{
    reveal(statement_at);
    lemma_sound_change_before(a, b, at, by, i, fa, fb);
    let a1 = sound_change_at(b, i, fb);
    let b1 = sound_change_at(a, i, fa);
    if a1.res is None {
        lemma_import_at(a, b, at, by);
        let a2 = import_at(b, i, a1.far);
        let b2 = import_at(a, i, b1.far);
        assert(alike_at(b2, a2, at, by));
        if a2.res is None {
            lemma_language_before(a, b, at, by, i, b2.far, a2.far);
            let a3 = language_at(b, i, a2.far);
            let b3 = language_at(a, i, b2.far);
            if a3.res is None {
                lemma_word_before(a, b, at, by, i, b3.far, a3.far);
                let a4 = word_at(b, i, a3.far);
                let b4 = word_at(a, i, b3.far);
                if a4.res is None {
                    lemma_trait_at(a, b, at, by);
                    lemma_class_at(a, b, at, by);
                    lemma_series_at(a, b, at, by);
                    lemma_milestone_at(a, b, at, by);
                    let rest = statement_at(b, i, fb);
                    if let Some((_, end)) = rest.res {
                        if end < at {
                            lemma_not_a_word(b, i, a3.far, a4.far);
                            let a5 = trait_at(b, i, a4.far);
                            let b5 = trait_at(a, i, b4.far);
                            assert(alike_at(b5, a5, at, by));
                            let a6 = class_at(b, i, a5.far);
                            let b6 = class_at(a, i, b5.far);
                            assert(alike_at(b6, a6, at, by));
                            let a7 = series_at(b, i, a6.far);
                            let b7 = series_at(a, i, b6.far);
                            assert(alike_at(b7, a7, at, by));
                            let a8 = milestone_at(b, i, a7.far);
                            let b8 = milestone_at(a, i, b7.far);
                            assert(alike_at(b8, a8, at, by));
                        }
                    }
                }
            }
        }
    }
}

/// Where a trait, a class, a series or a milestone stands, the mark of a
/// word does not.
proof fn lemma_not_a_word(b: Seq<char>, i: int, before: Far, far: Far)
    requires
        0 <= i <= b.len(),
    ensures
        trait_at(b, i, far).res is Some ==> padded_symbol_at(b, i, '-', before).res is None,
        forall|f: Far|
            #[trigger] class_at(b, i, f).res is Some ==> padded_symbol_at(b, i, '-', before).res
                is None,
        forall|f: Far|
            #[trigger] series_at(b, i, f).res is Some ==> padded_symbol_at(b, i, '-', before).res
                is None,
        forall|f: Far|
            #[trigger] milestone_at(b, i, f).res is Some ==> padded_symbol_at(
                b,
                i,
                '-',
                before,
            ).res is None,
{
    reveal_strlit("trait");
    reveal_strlit("class");
    reveal_strlit("series");
    lemma_first_letter(b, i, "trait"@, far);
    assert forall|f: Far| #[trigger] class_at(b, i, f).res is Some implies padded_symbol_at(
        b,
        i,
        '-',
        before,
    ).res is None by {
        lemma_first_letter(b, i, "class"@, f);
    }
    assert forall|f: Far| #[trigger] series_at(b, i, f).res is Some implies padded_symbol_at(
        b,
        i,
        '-',
        before,
    ).res is None by {
        lemma_first_letter(b, i, "series"@, f);
    }
}

/// The place lies in none of the spans.
pub open spec fn clear(stmts: Seq<Marked<StmtView>>, at: int) -> bool {
    forall|k: int| 0 <= k < stmts.len() ==> (#[trigger] stmts[k]).end < at || at <= stmts[k].start
}

/// A statement whose span does not hold the place is the same on the new
/// source, but for its spans; and where none follows from the place on,
/// none follows on the new source.
proof fn lemma_stmt_between(a: Seq<char>, b: Seq<char>, at: int, by: int, i: int, fa: Far, fb: Far)
    requires
        widened(a, b, at, by),
        0 <= i <= b.len(),
    ensures
        match stmt_at(b, i, fb).res {
            Some((m, end)) => i < end <= b.len() && i <= m.start < m.end <= end && (m.end < at || at
                <= m.start ==> stmt_at(a, sigma(i, at, by), fa).res == Some(
                (m.moved(at, by), sigma(end, at, by)),
            )),
            None => at <= run_end(b, i, CharClass::Space) ==> stmt_at(a, sigma(i, at, by), fa).res
                is None,
        },
{
    reveal(stmt_at);
    lemma_scan(b);
    lemma_scan(a);
    lemma_stmt(b);
    crate::exact::lemma_statement(b);
    lemma_run_at(a, b, at, by, i, CharClass::Space);
    let start = run_end(b, i, CharClass::Space);
    crate::parser::scan::lemma_run_end(b, i, CharClass::Space);
    assert(run_end(b, start, CharClass::Space) == start);
    lemma_run_at(a, b, at, by, start, CharClass::Space);
    if at <= start {
        lemma_stmt_at(a, b, at, by);
        assert(stmt_at(b, i, fb) == stmt_at(b, start, fb));
        assert(stmt_at(a, sigma(i, at, by), fa) == stmt_at(a, sigma(start, at, by), fa));
        assert(alike_at(stmt_at(a, sigma(start, at, by), fa), stmt_at(b, start, fb), at, by));
    } else {
        lemma_statement_before(a, b, at, by, start, fa, fb);
        let this = statement_at(b, start, fb);
        let that = statement_at(a, start, fa);
        if let Some((node, end)) = this.res {
            if end < at {
                lemma_line_end_put(a, b, at, by, end, that.far, this.far);
            }
        }
    }
}

/// Statements of which none holds the place, and after which the reading
/// stands at or after the place, are the same on the new source, but for
/// their spans.
proof fn lemma_stmts_between(a: Seq<char>, b: Seq<char>, at: int, by: int, i: int, fa: Far, fb: Far)
    requires
        widened(a, b, at, by),
        0 <= i <= b.len(),
        stmts_at(b, i, fb).res matches Some((items, end)) && clear(items, at) && at <= run_end(
            b,
            end,
            CharClass::Space,
        ),
    ensures
        alike_at(stmts_at(a, sigma(i, at, by), fa), stmts_at(b, i, fb), at, by),
    decreases b.len() - i,
{
    lemma_stmt_between(a, b, at, by, i, fa, fb);
    lemma_moved_empty::<Marked<StmtView>>(at, by);
    let first = stmt_at(b, i, fb);
    let other = stmt_at(a, sigma(i, at, by), fa);
    if let Some((m, end)) = first.res {
        lemma_stmts_from(b, end, first.far);
        if let Some((rest, last)) = stmts_at(b, end, first.far).res {
            let items = seq![m] + rest;
            assert(items[0] == m);
            assert forall|k: int| 0 <= k < rest.len() implies (#[trigger] rest[k]).end < at || at
                <= rest[k].start by {
                assert(items[k + 1] == rest[k]);
            }
            lemma_stmts_between(a, b, at, by, end, other.far, first.far);
            lemma_moved_prepend(m, rest, at, by);
        }
    }
}

/// Blank space put in after a line break, at a place that no statement
/// holds, changes nothing of a program but its spans: [`crate::parse`] gives
/// the same statements, with every offset at or after the place moved by
/// the length of the blank space in bytes.
///
/// The line break is any that ends a line: the line feed, the carriage
/// return, the vertical tab, the form feed, the next line, the line
/// separator or the paragraph separator. The place is told in characters,
/// the spans in bytes.
pub proof fn lemma_blank_between(source: Seq<char>, at: int, blank: Seq<char>)
    requires
        0 <= at <= source.len(),
        at == 0 || source[at - 1] == '\n' || line_break(source[at - 1]),
        is_blank(blank),
        program(source) matches Ok(stmts) && clear(stmts, byte_at(source, at)),
    ensures
        program(source) matches Ok(stmts) && program(put_in(source, at, blank)) matches Ok(moved)
            && moved == stmts.moved(byte_at(source, at), byte_len(blank) as int),
{
    let a = put_in(source, at, blank);
    let b = source;
    let by = blank.len() as int;
    crate::blank::lemma_put_in(source, at, blank);
    lemma_scan(b);
    lemma_scan(a);
    lemma_root(b);
    let start = run_end(b, 0, CharClass::Space);
    let first = stmts_at(b, start, Far::none());
    lemma_stmts_from(b, start, Far::none());
    if let Some((items, end)) = first.res {
        let told = <Vec<crate::model::Spanned<crate::ast::Stmt>> as crate::bytes::InBytes>::bytes_of(
            items,
            b,
        );
        assert forall|k: int| 0 <= k < items.len() implies (#[trigger] items[k]).end < at || at
            <= items[k].start by {
            assert(told[k].end == byte_at(b, items[k].end));
            assert(told[k].start == byte_at(b, items[k].start));
            if items[k].end >= at {
                crate::bytes::lemma_byte_at(b, at, items[k].end);
            }
            if items[k].start < at {
                crate::bytes::lemma_byte_at(b, items[k].start, at);
            }
        }
        lemma_run_at(a, b, at, by, 0, CharClass::Space);
        if at == 0 {
            lemma_run_through(a, 0, by);
        }
        lemma_stmts_between(a, b, at, by, start, Far::none(), Far::none());
        lemma_run_at(a, b, at, by, end, CharClass::Space);
        lemma_put_program(a, b, at, by, items, 0, b.len() as int);
        let head = b.subrange(0, at);
        let tail = b.subrange(at, b.len() as int);
        assert(b =~= head + tail);
        lemma_encode_concat(head, blank);
        lemma_encode_concat(head + blank, tail);
        lemma_encode_concat(head, tail);
        assert(grown(a, b) == byte_len(blank));
    }
}

} // verus!
