//! Series: `series Letter = { a, b, c }` or `series Letter = [category]`.

use crate::ast::{Series, SeriesView, Stmt, StmtView};
use crate::chars::{chars_of, text, CharClass};
use crate::error::{Far, Furthest, ParseError};
use crate::bytes::{byte_len, lemma_byte_at};
use crate::cut::{cut_stmt, lemma_cut_stmt};
use crate::exact::{lemma_widen_stmt, lemma_series};
use vstd::utf8::encode_utf8;
use crate::model::{spanned, Marked, Model, Spanned};
use crate::parser::common::{
    category, category_at, class, list, list_at, trailing, trailing_at, TokenKind,
};
use crate::parser::scan::{
    agrees, done, fail, finish, holds, padded, padded_at, padded_symbol, padded_symbol_at, ready,
    run_end, single_at, skip, symbol, symbol_at, token, verdict, Out,
};
use vstd::prelude::*;

verus! {

/// A label: one class letter, as text with its span.
pub open spec fn label_at(src: Seq<char>, pos: int, far: Far) -> Out<Marked<Seq<char>>> {
    let letter = single_at(src, pos, CharClass::Upper, far);
    match letter.res {
        Some((_, end)) => done(token(src, pos, end), end, letter.far),
        None => fail(letter.far),
    }
}

/// Reads a label.
pub fn label(src: &[char], pos: usize, far: &mut Furthest) -> (r: Option<(Spanned<String>, usize)>)
    requires
        ready(src@, pos, old(far)@),
    ensures
        holds(r, final(far)@, label_at(src@, pos as int, old(far)@), src@, pos),
        r matches Some((_, end)) ==> end == pos + 1,
{
    match class(src, pos, far) {
        Some((_, end)) => Some((spanned(pos, end, text(src, pos, end)), end)),
        None => None,
    }
}

/// A list in braces: one or more words with commas between them, and
/// optionally a comma after the last. White space may stand around the
/// braces' contents and around the commas. The span runs from the opening
/// brace to the closing one.
pub open spec fn braced_at(src: Seq<char>, pos: int, far: Far) -> Out<Marked<SeriesView>> {
    let start = run_end(src, pos, CharClass::Space);
    let open = symbol_at(src, start, '{', far);
    match open.res {
        Some((_, p1)) => {
            let words = list_at(
                src,
                run_end(src, p1, CharClass::Space),
                TokenKind::Word,
                ',',
                open.far,
            );
            match words.res {
                Some((items, p2)) => {
                    let comma = trailing_at(src, p2, ',', words.far);
                    match comma.res {
                        Some((_, p3)) => {
                            let close = symbol_at(
                                src,
                                run_end(src, p3, CharClass::Space),
                                '}',
                                comma.far,
                            );
                            match close.res {
                                Some((_, end)) => done(
                                    Marked { start, end, node: SeriesView::List(items) },
                                    end,
                                    close.far,
                                ),
                                None => fail(close.far),
                            }
                        },
                        None => fail(comma.far),
                    }
                },
                None => fail(words.far),
            }
        },
        None => fail(open.far),
    }
}

fn braced(src: &[char], pos: usize, far: &mut Furthest) -> (r: Option<(Spanned<Series>, usize)>)
    requires
        ready(src@, pos, old(far)@),
    ensures
        holds(r, final(far)@, braced_at(src@, pos as int, old(far)@), src@, pos),
        r matches Some((_, end)) ==> pos < end,
{
    let start: usize = skip(src, pos, CharClass::Space);
    let p1: usize = match symbol(src, start, '{', far) {
        Some(p) => p,
        None => { return None; },
    };
    let (items, p2) = match list(src, skip(src, p1, CharClass::Space), TokenKind::Word, ',', far) {
        Some(found) => found,
        None => { return None; },
    };
    let p3: usize = trailing(src, p2, ',', far);
    match symbol(src, skip(src, p3, CharClass::Space), '}', far) {
        Some(end) => Some((spanned(start, end, Series::List(items)), end)),
        None => None,
    }
}

/// The body of a series: a list in braces, or else a category; with its
/// span.
pub open spec fn body_at(src: Seq<char>, pos: int, far: Far) -> Out<Marked<SeriesView>> {
    let listed = braced_at(src, pos, far);
    match listed.res {
        Some(_) => listed,
        None => {
            let cat = category_at(src, pos, listed.far);
            match cat.res {
                Some((node, end)) => done(
                    Marked { start: pos, end, node: SeriesView::Category(node) },
                    end,
                    cat.far,
                ),
                None => fail(cat.far),
            }
        },
    }
}

fn body(src: &[char], pos: usize, far: &mut Furthest) -> (r: Option<(Spanned<Series>, usize)>)
    requires
        ready(src@, pos, old(far)@),
    ensures
        holds(r, final(far)@, body_at(src@, pos as int, old(far)@), src@, pos),
        r matches Some((_, end)) ==> pos < end,
{
    match braced(src, pos, far) {
        Some(found) => Some(found),
        None => match category(src, pos, far) {
            Some((node, end)) => Some((spanned(pos, end, Series::Category(node)), end)),
            None => None,
        },
    }
}

/// A series: the word `series`, a label, `=` and a body.
pub open spec fn series_at(src: Seq<char>, pos: int, far: Far) -> Out<StmtView> {
    let word = padded_at(src, pos, "series"@, far);
    match word.res {
        Some((_, p1)) => {
            let name = label_at(src, p1, word.far);
            match name.res {
                Some((label, p2)) => {
                    let equals = padded_symbol_at(src, p2, '=', name.far);
                    match equals.res {
                        Some((_, p3)) => {
                            let inner = body_at(src, p3, equals.far);
                            match inner.res {
                                Some((series, end)) => done(
                                    StmtView::Series { label, series },
                                    end,
                                    inner.far,
                                ),
                                None => fail(inner.far),
                            }
                        },
                        None => fail(equals.far),
                    }
                },
                None => fail(name.far),
            }
        },
        None => fail(word.far),
    }
}

/// Reads a series at `pos`.
pub fn series(src: &[char], pos: usize, far: &mut Furthest) -> (r: Option<(Stmt, usize)>)
    requires
        ready(src@, pos, old(far)@),
    ensures
        holds(r, final(far)@, series_at(src@, pos as int, old(far)@), src@, pos),
        r matches Some((_, end)) ==> pos < end,
{
    let p1: usize = match padded(src, pos, "series", far) {
        Some(p) => p,
        None => { return None; },
    };
    let (label, p2) = match label(src, p1, far) {
        Some(found) => found,
        None => { return None; },
    };
    let p3: usize = match padded_symbol(src, p2, '=', far) {
        Some(p) => p,
        None => { return None; },
    };
    match body(src, p3, far) {
        Some((series, end)) => Some((Stmt::Series { label, series }, end)),
        None => None,
    }
}

/// Parses one series from the start of `source`; what follows it is not
/// looked at. The statement is well formed, and every span
/// in it is true to the text.
pub fn parser(source: &str) -> (r: Result<Stmt, Vec<ParseError>>)
    ensures
        agrees(r, verdict::<Stmt>(series_at(source@, 0, Far::none()), source@)),
        r matches Ok(stmt) ==> cut_stmt(encode_utf8(source@), stmt@, 0, byte_len(source@) as int),
        r matches Err(errors) ==> errors@.len() == 1 && errors@[0].span.start
            <= errors@[0].span.end <= byte_len(source@),
{
    proof {
        lemma_series(source@);
        if let Some((node, end)) = series_at(source@, 0, Far::none()).res {
            lemma_widen_stmt(source@, node, 0, end, 0, source@.len() as int);
            lemma_cut_stmt(source@, node, 0, source@.len() as int);
            lemma_byte_at(source@, 0, source@.len() as int);
        }
    }
    let src = chars_of(source);
    let total: usize = source.as_bytes().len();
    assert(byte_len(source@) == total);
    let mut far = Furthest::new();
    let r = series(src.as_slice(), 0, &mut far);
    finish(src.as_slice(), r, far, Ghost(series_at(source@, 0, Far::none())))
}

} // verus!
