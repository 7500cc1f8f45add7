//! Milestones: `@ time`, `@ time, language` or `@ language`.
//!
//! The three forms are tried in that order of preference: a time with a
//! language, a time alone, a language alone. A marker with neither fails.

use crate::ast::{Stmt, StmtView, Time, TimeView};
use crate::chars::chars_of;
use crate::error::{Far, Furthest, ParseError};
use crate::bytes::{byte_len, lemma_byte_at};
use crate::cut::{cut_stmt, lemma_cut_stmt};
use crate::exact::{lemma_widen_stmt, lemma_milestone};
use vstd::utf8::encode_utf8;
use crate::model::{spanned, Marked, Model, Spanned};
use crate::parser::common::{integer, integer_at};
use crate::parser::scan::{
    agrees, done, fail, finish, holds, ident, ident_at, padded_symbol, padded_symbol_at, ready,
    verdict, Out,
};
use vstd::prelude::*;

verus! {

/// The part `- number` of a time, if it stands at `pos`.
pub open spec fn until_at(src: Seq<char>, pos: int, far: Far) -> Out<Option<i64>> {
    let dash = padded_symbol_at(src, pos, '-', far);
    match dash.res {
        Some((_, at)) => {
            let to = integer_at(src, at, dash.far);
            match to.res {
                Some((value, end)) => done(Some(value), end, to.far),
                None => done(None, pos, to.far),
            }
        },
        None => done(None, pos, dash.far),
    }
}

fn until(src: &[char], pos: usize, far: &mut Furthest) -> (r: (Option<i64>, usize))
    requires
        ready(src@, pos, old(far)@),
    ensures
        holds(Some(r), final(far)@, until_at(src@, pos as int, old(far)@), src@, pos),
{
    match padded_symbol(src, pos, '-', far) {
        Some(at) => match integer(src, at, far) {
            Some((value, end)) => (Some(value), end),
            None => (None, pos),
        },
        None => (None, pos),
    }
}

/// The time that one number, or two, make.
pub open spec fn time_of(from: i64, to: Option<i64>) -> TimeView {
    match to {
        Some(to) => TimeView::Range(from as int, to as int),
        None => TimeView::Instant(from as int),
    }
}

/// A time: a number, or two numbers with `-` between them; with its span,
/// from the first digit to the last.
pub open spec fn time_at(src: Seq<char>, pos: int, far: Far) -> Out<Marked<TimeView>> {
    let from = integer_at(src, pos, far);
    match from.res {
        Some((first, at)) => {
            let rest = until_at(src, at, from.far);
            match rest.res {
                Some((second, end)) => done(
                    Marked { start: pos, end, node: time_of(first, second) },
                    end,
                    rest.far,
                ),
                None => fail(rest.far),
            }
        },
        None => fail(from.far),
    }
}

/// Reads a time with its span.
pub fn time(src: &[char], pos: usize, far: &mut Furthest) -> (r: Option<(Spanned<Time>, usize)>)
    requires
        ready(src@, pos, old(far)@),
    ensures
        holds(r, final(far)@, time_at(src@, pos as int, old(far)@), src@, pos),
        r matches Some((_, end)) ==> pos < end,
{
    match integer(src, pos, far) {
        Some((first, at)) => {
            let (second, end) = until(src, at, far);
            let node = match second {
                Some(to) => Time::Range(first, to),
                None => Time::Instant(first),
            };
            Some((spanned(pos, end, node), end))
        },
        None => None,
    }
}

/// The name of a language: an identifier with its span.
pub open spec fn language_at(src: Seq<char>, pos: int, far: Far) -> Out<Marked<Seq<char>>> {
    ident_at(src, pos, far)
}

/// Reads the name of a language.
pub fn language(src: &[char], pos: usize, far: &mut Furthest) -> (r: Option<
    (Spanned<String>, usize),
>)
    requires
        ready(src@, pos, old(far)@),
    ensures
        holds(r, final(far)@, language_at(src@, pos as int, old(far)@), src@, pos),
        r matches Some((_, end)) ==> pos < end,
{
    ident(src, pos, far)
}

/// `@ time, language`.
pub open spec fn both_at(src: Seq<char>, pos: int, far: Far) -> Out<StmtView> {
    let mark = padded_symbol_at(src, pos, '@', far);
    match mark.res {
        Some((_, p1)) => {
            let when = time_at(src, p1, mark.far);
            match when.res {
                Some((time, p2)) => {
                    let comma = padded_symbol_at(src, p2, ',', when.far);
                    match comma.res {
                        Some((_, p3)) => {
                            let who = language_at(src, p3, comma.far);
                            match who.res {
                                Some((language, end)) => done(
                                    StmtView::Milestone {
                                        time: Some(time),
                                        language: Some(language),
                                    },
                                    end,
                                    who.far,
                                ),
                                None => fail(who.far),
                            }
                        },
                        None => fail(comma.far),
                    }
                },
                None => fail(when.far),
            }
        },
        None => fail(mark.far),
    }
}

fn both(src: &[char], pos: usize, far: &mut Furthest) -> (r: Option<(Stmt, usize)>)
    requires
        ready(src@, pos, old(far)@),
    ensures
        holds(r, final(far)@, both_at(src@, pos as int, old(far)@), src@, pos),
        r matches Some((_, end)) ==> pos < end,
{
    let p1: usize = match padded_symbol(src, pos, '@', far) {
        Some(p) => p,
        None => { return None; },
    };
    let (when, p2) = match time(src, p1, far) {
        Some(found) => found,
        None => { return None; },
    };
    let p3: usize = match padded_symbol(src, p2, ',', far) {
        Some(p) => p,
        None => { return None; },
    };
    match language(src, p3, far) {
        Some((who, end)) => Some((Stmt::Milestone { time: Some(when), language: Some(who) }, end)),
        None => None,
    }
}

/// `@ time`.
pub open spec fn time_only_at(src: Seq<char>, pos: int, far: Far) -> Out<StmtView> {
    let mark = padded_symbol_at(src, pos, '@', far);
    match mark.res {
        Some((_, p1)) => {
            let when = time_at(src, p1, mark.far);
            match when.res {
                Some((time, end)) => done(
                    StmtView::Milestone { time: Some(time), language: None },
                    end,
                    when.far,
                ),
                None => fail(when.far),
            }
        },
        None => fail(mark.far),
    }
}

fn time_only(src: &[char], pos: usize, far: &mut Furthest) -> (r: Option<(Stmt, usize)>)
    requires
        ready(src@, pos, old(far)@),
    ensures
        holds(r, final(far)@, time_only_at(src@, pos as int, old(far)@), src@, pos),
        r matches Some((_, end)) ==> pos < end,
{
    match padded_symbol(src, pos, '@', far) {
        Some(p1) => match time(src, p1, far) {
            Some((when, end)) => Some((Stmt::Milestone { time: Some(when), language: None }, end)),
            None => None,
        },
        None => None,
    }
}

/// `@ language`.
pub open spec fn language_only_at(src: Seq<char>, pos: int, far: Far) -> Out<StmtView> {
    let mark = padded_symbol_at(src, pos, '@', far);
    match mark.res {
        Some((_, p1)) => {
            let who = language_at(src, p1, mark.far);
            match who.res {
                Some((language, end)) => done(
                    StmtView::Milestone { time: None, language: Some(language) },
                    end,
                    who.far,
                ),
                None => fail(who.far),
            }
        },
        None => fail(mark.far),
    }
}

fn language_only(src: &[char], pos: usize, far: &mut Furthest) -> (r: Option<(Stmt, usize)>)
    requires
        ready(src@, pos, old(far)@),
    ensures
        holds(r, final(far)@, language_only_at(src@, pos as int, old(far)@), src@, pos),
        r matches Some((_, end)) ==> pos < end,
{
    match padded_symbol(src, pos, '@', far) {
        Some(p1) => match language(src, p1, far) {
            Some((who, end)) => Some((Stmt::Milestone { time: None, language: Some(who) }, end)),
            None => None,
        },
        None => None,
    }
}

/// A milestone: the first of the three forms that matches.
pub open spec fn milestone_at(src: Seq<char>, pos: int, far: Far) -> Out<StmtView> {
    let first = both_at(src, pos, far);
    match first.res {
        Some(_) => first,
        None => {
            let second = time_only_at(src, pos, first.far);
            match second.res {
                Some(_) => second,
                None => language_only_at(src, pos, second.far),
            }
        },
    }
}

/// Reads a milestone at `pos`.
pub fn milestone(src: &[char], pos: usize, far: &mut Furthest) -> (r: Option<(Stmt, usize)>)
    requires
        ready(src@, pos, old(far)@),
    ensures
        holds(r, final(far)@, milestone_at(src@, pos as int, old(far)@), src@, pos),
        r matches Some((_, end)) ==> pos < end,
        r matches Some((stmt, _)) ==> stmt matches Stmt::Milestone { time, language } && (
        time is Some || language is Some),
{
    match both(src, pos, far) {
        Some(found) => Some(found),
        None => match time_only(src, pos, far) {
            Some(found) => Some(found),
            None => language_only(src, pos, far),
        },
    }
}

/// Parses one milestone from the start of `source`; what follows it is not
/// looked at. The statement is well formed, and every span
/// in it is true to the text.
pub fn parser(source: &str) -> (r: Result<Stmt, Vec<ParseError>>)
    ensures
        agrees(r, verdict::<Stmt>(milestone_at(source@, 0, Far::none()), source@)),
        r matches Ok(stmt) ==> cut_stmt(encode_utf8(source@), stmt@, 0, byte_len(source@) as int),
        r matches Err(errors) ==> errors@.len() == 1 && errors@[0].span.start
            <= errors@[0].span.end <= byte_len(source@),
{
    proof {
        lemma_milestone(source@);
        if let Some((node, end)) = milestone_at(source@, 0, Far::none()).res {
            lemma_widen_stmt(source@, node, 0, end, 0, source@.len() as int);
            lemma_cut_stmt(source@, node, 0, source@.len() as int);
            lemma_byte_at(source@, 0, source@.len() as int);
        }
    }
    let src = chars_of(source);
    let total: usize = source.as_bytes().len();
    assert(byte_len(source@) == total);
    let mut far = Furthest::new();
    let r = milestone(src.as_slice(), 0, &mut far);
    finish(src.as_slice(), r, far, Ghost(milestone_at(source@, 0, Far::none())))
}

} // verus!
