//! Languages: `lang id < parent : display name`.

use crate::ast::{Stmt, StmtView};
use crate::chars::{chars_of, CharClass};
use crate::error::{Far, Furthest, ParseError};
use crate::bytes::{byte_len, lemma_byte_at};
use crate::cut::{cut_stmt, lemma_cut_stmt};
use crate::exact::{lemma_widen_stmt, lemma_language};
use vstd::utf8::encode_utf8;
use crate::model::{Marked, Model, Spanned};
use crate::parser::scan::{
    agrees, done, fail, finish, holds, ident, ident_at, padded, padded_at, padded_symbol,
    padded_symbol_at, ready, run_token, token_at, verdict, Out,
};
use vstd::prelude::*;

verus! {

/// The part `< parent`, if it stands at `pos`.
pub open spec fn parent_at(src: Seq<char>, pos: int, far: Far) -> Out<Option<Marked<Seq<char>>>> {
    let mark = padded_symbol_at(src, pos, '<', far);
    match mark.res {
        Some((_, at)) => {
            let id = ident_at(src, at, mark.far);
            match id.res {
                Some((node, end)) => done(Some(node), end, id.far),
                None => done(None, pos, id.far),
            }
        },
        None => done(None, pos, mark.far),
    }
}

fn parent(src: &[char], pos: usize, far: &mut Furthest) -> (r: (Option<Spanned<String>>, usize))
    requires
        ready(src@, pos, old(far)@),
    ensures
        holds(Some(r), final(far)@, parent_at(src@, pos as int, old(far)@), src@, pos),
{
    match padded_symbol(src, pos, '<', far) {
        Some(at) => match ident(src, at, far) {
            Some((node, end)) => (Some(node), end),
            None => (None, pos),
        },
        None => (None, pos),
    }
}

/// The part `: display name`, if it stands at `pos`. A display name is free
/// text: one or more characters up to the end of the line or a brace.
pub open spec fn name_at(src: Seq<char>, pos: int, far: Far) -> Out<Option<Marked<Seq<char>>>> {
    let mark = padded_symbol_at(src, pos, ':', far);
    match mark.res {
        Some((_, at)) => {
            let words = token_at(src, at, CharClass::FreeText, mark.far);
            match words.res {
                Some((node, end)) => done(Some(node), end, words.far),
                None => done(None, pos, words.far),
            }
        },
        None => done(None, pos, mark.far),
    }
}

fn name(src: &[char], pos: usize, far: &mut Furthest) -> (r: (Option<Spanned<String>>, usize))
    requires
        ready(src@, pos, old(far)@),
    ensures
        holds(Some(r), final(far)@, name_at(src@, pos as int, old(far)@), src@, pos),
{
    match padded_symbol(src, pos, ':', far) {
        Some(at) => match run_token(src, at, CharClass::FreeText, far) {
            Some((node, end)) => (Some(node), end),
            None => (None, pos),
        },
        None => (None, pos),
    }
}

/// A language: the word `lang`, an identifier, and then optionally `<` with
/// the parent's identifier and optionally `:` with a display name.
pub open spec fn language_at(src: Seq<char>, pos: int, far: Far) -> Out<StmtView> {
    let word = padded_at(src, pos, "lang"@, far);
    match word.res {
        Some((_, p1)) => {
            let this = ident_at(src, p1, word.far);
            match this.res {
                Some((id, p2)) => {
                    let from = parent_at(src, p2, this.far);
                    match from.res {
                        Some((parent, p3)) => {
                            let called = name_at(src, p3, from.far);
                            match called.res {
                                Some((name, end)) => done(
                                    StmtView::Language { id, parent, name },
                                    end,
                                    called.far,
                                ),
                                None => fail(called.far),
                            }
                        },
                        None => fail(from.far),
                    }
                },
                None => fail(this.far),
            }
        },
        None => fail(word.far),
    }
}

/// Reads a language at `pos`.
pub fn language(src: &[char], pos: usize, far: &mut Furthest) -> (r: Option<(Stmt, usize)>)
    requires
        ready(src@, pos, old(far)@),
    ensures
        holds(r, final(far)@, language_at(src@, pos as int, old(far)@), src@, pos),
        r matches Some((_, end)) ==> pos < end,
{
    let p1: usize = match padded(src, pos, "lang", far) {
        Some(p) => p,
        None => { return None; },
    };
    let (id, p2) = match ident(src, p1, far) {
        Some(found) => found,
        None => { return None; },
    };
    let (parent, p3) = parent(src, p2, far);
    let (name, end) = name(src, p3, far);
    Some((Stmt::Language { id, parent, name }, end))
}

/// Parses one language from the start of `source`; what follows it is not
/// looked at. The statement is well formed, and every span
/// in it is true to the text.
pub fn parser(source: &str) -> (r: Result<Stmt, Vec<ParseError>>)
    ensures
        agrees(r, verdict::<Stmt>(language_at(source@, 0, Far::none()), source@)),
        r matches Ok(stmt) ==> cut_stmt(encode_utf8(source@), stmt@, 0, byte_len(source@) as int),
        r matches Err(errors) ==> errors@.len() == 1 && errors@[0].span.start
            <= errors@[0].span.end <= byte_len(source@),
{
    proof {
        lemma_language(source@);
        if let Some((node, end)) = language_at(source@, 0, Far::none()).res {
            lemma_widen_stmt(source@, node, 0, end, 0, source@.len() as int);
            lemma_cut_stmt(source@, node, 0, source@.len() as int);
            lemma_byte_at(source@, 0, source@.len() as int);
        }
    }
    let src = chars_of(source);
    let total: usize = source.as_bytes().len();
    assert(byte_len(source@) == total);
    let mut far = Furthest::new();
    let r = language(src.as_slice(), 0, &mut far);
    finish(src.as_slice(), r, far, Ghost(language_at(source@, 0, Far::none())))
}

} // verus!
