//! The statement sequencer and the entry point.
//!
//! A program is any number of statements. Each statement ends with one or
//! more line breaks or with the end of the input; blank space before the
//! first statement, between statements and after the last is skipped. The
//! whole input must be used up: what is left over is an error, reported with
//! the furthest failure.

use crate::ast::{Stmt, StmtView};
use crate::chars::{chars_of, CharClass};
use crate::error::{Far, Furthest, ParseError, ParseErrorView};
use crate::bytes::byte_len;
use crate::cut::{cut_program, lemma_program};
use vstd::utf8::encode_utf8;
use crate::model::{lemma_models_empty, lemma_models_push, spanned, Marked, Model, Spanned};
use crate::parser::scan::{
    advances, agrees, done, end_at, end_of_input, ends, fail, finish, holds, lemma_prepend_done,
    lemma_prepend_empty, lemma_prepend_push, newline, newline_at, prepend, ready, reports,
    run_end, skip, verdict, Out,
};
use vstd::prelude::*;

pub mod class_definition;
pub mod common;
pub mod import;
pub mod lang_definition;
pub mod milestone;
pub mod scan;
pub mod series_definition;
pub mod sound_change;
pub mod trait_definition;
pub mod word_definition;

verus! {

/// A statement of any kind: the first that matches of a sound change, an
/// import, a language, a word, a trait, a class, a series and a milestone.
#[verifier::opaque]
pub open spec fn statement_at(src: Seq<char>, pos: int, far: Far) -> Out<StmtView> {
    let a = sound_change::sound_change_at(src, pos, far);
    if a.res is Some {
        a
    } else {
        let b = import::import_at(src, pos, a.far);
        if b.res is Some {
            b
        } else {
            let c = lang_definition::language_at(src, pos, b.far);
            if c.res is Some {
                c
            } else {
                let d = word_definition::word_at(src, pos, c.far);
                if d.res is Some {
                    d
                } else {
                    let e = trait_definition::trait_at(src, pos, d.far);
                    if e.res is Some {
                        e
                    } else {
                        let f = class_definition::class_at(src, pos, e.far);
                        if f.res is Some {
                            f
                        } else {
                            let g = series_definition::series_at(src, pos, f.far);
                            if g.res is Some {
                                g
                            } else {
                                milestone::milestone_at(src, pos, g.far)
                            }
                        }
                    }
                }
            }
        }
    }
}

/// Reads a statement of any kind at `pos`.
pub fn statement(src: &[char], pos: usize, far: &mut Furthest) -> (r: Option<(Stmt, usize)>)
    requires
        ready(src@, pos, old(far)@),
    ensures
        holds(r, final(far)@, statement_at(src@, pos as int, old(far)@), src@, pos),
        r matches Some((_, end)) ==> pos < end,
{
    proof {
        reveal(statement_at);
    }
    if let Some(found) = sound_change::sound_change(src, pos, far) {
        return Some(found);
    }
    if let Some(found) = import::import(src, pos, far) {
        return Some(found);
    }
    if let Some(found) = lang_definition::language(src, pos, far) {
        return Some(found);
    }
    if let Some(found) = word_definition::word(src, pos, far) {
        return Some(found);
    }
    if let Some(found) = trait_definition::trait_definition(src, pos, far) {
        return Some(found);
    }
    if let Some(found) = class_definition::class_definition(src, pos, far) {
        return Some(found);
    }
    if let Some(found) = series_definition::series(src, pos, far) {
        return Some(found);
    }
    milestone::milestone(src, pos, far)
}

/// Line breaks one after another, as many as there are.
pub open spec fn breaks_at(src: Seq<char>, pos: int, far: Far) -> Out<()>
    decreases src.len() - pos,
{
    let first = newline_at(src, pos, far);
    match first.res {
        Some((_, end)) => {
            if advances(src, pos, end) {
                breaks_at(src, end, first.far)
            } else {
                done((), pos, first.far)
            }
        },
        None => done((), pos, first.far),
    }
}

fn breaks(src: &[char], pos: usize, far: &mut Furthest) -> (end: usize)
    requires
        ready(src@, pos, old(far)@),
    ensures
        ends(Some(end), final(far)@, breaks_at(src@, pos as int, old(far)@), src@, pos),
        end <= final(far)@.at,
{
    let mut cur: usize = pos;
    loop
        invariant
            pos <= cur,
            ready(src@, cur, far@),
            breaks_at(src@, pos as int, old(far)@) == breaks_at(src@, cur as int, far@),
        decreases src@.len() - cur,
    {
        match newline(src, cur, far) {
            Some(end) => {
                cur = end;
            },
            None => {
                return cur;
            },
        }
    }
}

/// The end of a statement: one or more line breaks, or else the end of the
/// input.
pub open spec fn line_end_at(src: Seq<char>, pos: int, far: Far) -> Out<()> {
    let lines = breaks_at(src, pos, far);
    match lines.res {
        Some((_, end)) => if end > pos {
            lines
        } else {
            end_at(src, pos, lines.far)
        },
        None => fail(lines.far),
    }
}

fn line_end(src: &[char], pos: usize, far: &mut Furthest) -> (r: Option<usize>)
    requires
        ready(src@, pos, old(far)@),
    ensures
        ends(r, final(far)@, line_end_at(src@, pos as int, old(far)@), src@, pos),
{
    let end: usize = breaks(src, pos, far);
    if end > pos {
        Some(end)
    } else {
        end_of_input(src, pos, far)
    }
}

/// A statement with its span, the end of its line, and any white space
/// after that. The span runs from the first character of the statement to
/// its last.
#[verifier::opaque]
pub open spec fn stmt_at(src: Seq<char>, pos: int, far: Far) -> Out<Marked<StmtView>> {
    let start = run_end(src, pos, CharClass::Space);
    let this = statement_at(src, start, far);
    match this.res {
        Some((node, end)) => {
            let line = line_end_at(src, end, this.far);
            match line.res {
                Some((_, next)) => done(
                    Marked { start, end, node },
                    run_end(src, next, CharClass::Space),
                    line.far,
                ),
                None => fail(line.far),
            }
        },
        None => fail(this.far),
    }
}

/// Reads a statement with its span, up to the start of the next.
pub fn stmt(src: &[char], pos: usize, far: &mut Furthest) -> (r: Option<(Spanned<Stmt>, usize)>)
    requires
        ready(src@, pos, old(far)@),
    ensures
        holds(r, final(far)@, stmt_at(src@, pos as int, old(far)@), src@, pos),
        r matches Some((_, end)) ==> pos < end,
{
    proof {
        reveal(stmt_at);
    }
    let start: usize = skip(src, pos, CharClass::Space);
    match statement(src, start, far) {
        Some((node, end)) => match line_end(src, end, far) {
            Some(next) => Some((spanned(start, end, node), skip(src, next, CharClass::Space))),
            None => None,
        },
        None => None,
    }
}

/// Statements one after another, as many as there are.
pub open spec fn stmts_at(src: Seq<char>, pos: int, far: Far) -> Out<Seq<Marked<StmtView>>>
    decreases src.len() - pos,
{
    let first = stmt_at(src, pos, far);
    match first.res {
        Some((item, end)) => {
            if advances(src, pos, end) {
                prepend(seq![item], stmts_at(src, end, first.far))
            } else {
                done(Seq::empty(), pos, first.far)
            }
        },
        None => done(Seq::empty(), pos, first.far),
    }
}

fn stmts(src: &[char], pos: usize, far: &mut Furthest) -> (r: (Vec<Spanned<Stmt>>, usize))
    requires
        ready(src@, pos, old(far)@),
    ensures
        holds(Some(r), final(far)@, stmts_at(src@, pos as int, old(far)@), src@, pos),
{
    let mut items: Vec<Spanned<Stmt>> = Vec::new();
    let mut cur: usize = pos;
    proof {
        lemma_models_empty::<Spanned<Stmt>>();
        lemma_prepend_empty(stmts_at(src@, pos as int, far@));
    }
    loop
        invariant
            pos <= cur,
            ready(src@, cur, far@),
            stmts_at(src@, pos as int, old(far)@) == prepend(
                items.model(),
                stmts_at(src@, cur as int, far@),
            ),
        decreases src@.len() - cur,
    {
        match stmt(src, cur, far) {
            Some((item, end)) => {
                proof {
                    lemma_models_push(items@, item);
                    lemma_prepend_push(items.model(), item.model(), stmts_at(src@, end as int, far@));
                }
                items.push(item);
                cur = end;
            },
            None => {
                proof {
                    lemma_prepend_done(items.model(), cur as int, far@);
                }
                return (items, cur);
            },
        }
    }
}

/// A whole program: any white space, the statements, any white space, and
/// the end of the input.
pub open spec fn root_at(src: Seq<char>, pos: int, far: Far) -> Out<Seq<Marked<StmtView>>> {
    let list = stmts_at(src, run_end(src, pos, CharClass::Space), far);
    match list.res {
        Some((items, at)) => {
            let last = end_at(src, run_end(src, at, CharClass::Space), list.far);
            match last.res {
                Some((_, end)) => done(items, end, last.far),
                None => fail(last.far),
            }
        },
        None => fail(list.far),
    }
}

/// Reads a whole program from `pos` to the end of the input.
pub fn root(src: &[char], pos: usize, far: &mut Furthest) -> (r: Option<
    (Vec<Spanned<Stmt>>, usize),
>)
    requires
        ready(src@, pos, old(far)@),
    ensures
        holds(r, final(far)@, root_at(src@, pos as int, old(far)@), src@, pos),
        r matches Some((_, end)) ==> end == src@.len(),
{
    let (items, at) = stmts(src, skip(src, pos, CharClass::Space), far);
    match end_of_input(src, skip(src, at, CharClass::Space), far) {
        Some(end) => Some((items, end)),
        None => None,
    }
}

/// What a source text means: its statements in order, each with its span,
/// or else the one error record of the furthest failure.
pub open spec fn program(source: Seq<char>) -> Result<Seq<Marked<StmtView>>, Seq<ParseErrorView>> {
    verdict::<Vec<Spanned<Stmt>>>(root_at(source, 0, Far::none()), source)
}

/// Parses a whole source text.
///
/// The result is a function of the text: the statements of [`program`] in
/// order, or its error record. There is never both, and on failure there is
/// exactly one record. The statements are well formed, and every span in them
/// is true to the text.
pub fn parse(source: &str) -> (r: Result<Vec<Spanned<Stmt>>, Vec<ParseError>>)
    ensures
        agrees(r, program(source@)),
        r matches Ok(stmts) ==> cut_program(
            encode_utf8(source@),
            stmts.model(),
            0,
            byte_len(source@) as int,
        ),
        r matches Err(errors) ==> errors@.len() == 1 && errors@[0].span.start
            <= errors@[0].span.end <= byte_len(source@),
{
    proof {
        lemma_program(source@);
    }
    let src = chars_of(source);
    let total: usize = source.as_bytes().len();
    assert(byte_len(source@) == total);
    let mut far = Furthest::new();
    let r = root(src.as_slice(), 0, &mut far);
    finish(src.as_slice(), r, far, Ghost(root_at(source@, 0, Far::none())))
}

/// Parsing is deterministic: whatever [`parse`] may return for one text has
/// one and the same view, statements or error record.
pub proof fn lemma_parse_deterministic(
    source: Seq<char>,
    first: Result<Vec<Spanned<Stmt>>, Vec<ParseError>>,
    second: Result<Vec<Spanned<Stmt>>, Vec<ParseError>>,
)
    requires
        agrees(first, program(source)),
        agrees(second, program(source)),
    ensures
        first is Ok <==> second is Ok,
        first matches Ok(a) ==> second matches Ok(b) && a.model() == b.model(),
        first matches Err(a) ==> second matches Err(b) && reports(a@) == reports(b@),
{
}

} // verus!
