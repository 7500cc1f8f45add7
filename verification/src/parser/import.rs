//! Imports: `import * from path` and `import (a, b) from path`.
//!
//! A path is an optional leading `/`, which makes it absolute, and one or
//! more segments with `/` between them. A segment is `@name`, an
//! identifier, `..` or `.`.

use crate::ast::{Stmt, StmtView};
use crate::chars::{chars_of, text};
use crate::error::{Far, Furthest, ParseError};
use crate::bytes::{byte_len, lemma_byte_at};
use crate::cut::{cut_stmt, lemma_cut_stmt};
use crate::exact::{lemma_widen_stmt, lemma_import};
use vstd::utf8::encode_utf8;
use crate::model::{lemma_models_empty, lemma_models_push, spanned, Marked, Model, Spanned};
use crate::parser::common::{list, list_at, trailing, trailing_at, TokenKind};
use crate::parser::scan::{
    advances, agrees, done, fail, finish, holds, ident, ident_at, lemma_prepend_done,
    lemma_prepend_push, padded, padded_at, padded_symbol, padded_symbol_at, prepend, ready,
    symbol, symbol_at, token, verdict, Out,
};
use vstd::prelude::*;

verus! {

/// `@name`: the name of an outside module. Text and span cover the `@`.
pub open spec fn module_at(src: Seq<char>, pos: int, far: Far) -> Out<Marked<Seq<char>>> {
    let at = symbol_at(src, pos, '@', far);
    match at.res {
        Some((_, p1)) => {
            let id = ident_at(src, p1, at.far);
            match id.res {
                Some((_, end)) => done(token(src, pos, end), end, id.far),
                None => fail(id.far),
            }
        },
        None => fail(at.far),
    }
}

fn module(src: &[char], pos: usize, far: &mut Furthest) -> (r: Option<(Spanned<String>, usize)>)
    requires
        ready(src@, pos, old(far)@),
    ensures
        holds(r, final(far)@, module_at(src@, pos as int, old(far)@), src@, pos),
        r matches Some((_, end)) ==> pos < end,
{
    match symbol(src, pos, '@', far) {
        Some(p1) => match ident(src, p1, far) {
            Some((_, end)) => Some((spanned(pos, end, text(src, pos, end)), end)),
            None => None,
        },
        None => None,
    }
}

/// `..`, the directory above.
pub open spec fn above_at(src: Seq<char>, pos: int, far: Far) -> Out<Marked<Seq<char>>> {
    let first = symbol_at(src, pos, '.', far);
    match first.res {
        Some((_, p1)) => {
            let second = symbol_at(src, p1, '.', first.far);
            match second.res {
                Some((_, end)) => done(token(src, pos, end), end, second.far),
                None => fail(second.far),
            }
        },
        None => fail(first.far),
    }
}

fn above(src: &[char], pos: usize, far: &mut Furthest) -> (r: Option<(Spanned<String>, usize)>)
    requires
        ready(src@, pos, old(far)@),
    ensures
        holds(r, final(far)@, above_at(src@, pos as int, old(far)@), src@, pos),
        r matches Some((_, end)) ==> pos < end,
{
    match symbol(src, pos, '.', far) {
        Some(p1) => match symbol(src, p1, '.', far) {
            Some(end) => Some((spanned(pos, end, text(src, pos, end)), end)),
            None => None,
        },
        None => None,
    }
}

/// `.`, the directory itself.
pub open spec fn here_at(src: Seq<char>, pos: int, far: Far) -> Out<Marked<Seq<char>>> {
    let dot = symbol_at(src, pos, '.', far);
    match dot.res {
        Some((_, end)) => done(token(src, pos, end), end, dot.far),
        None => fail(dot.far),
    }
}

fn here(src: &[char], pos: usize, far: &mut Furthest) -> (r: Option<(Spanned<String>, usize)>)
    requires
        ready(src@, pos, old(far)@),
    ensures
        holds(r, final(far)@, here_at(src@, pos as int, old(far)@), src@, pos),
        r matches Some((_, end)) ==> pos < end,
{
    match symbol(src, pos, '.', far) {
        Some(end) => Some((spanned(pos, end, text(src, pos, end)), end)),
        None => None,
    }
}

/// One segment of a path: `@name`, or else an identifier, or else `..`, or
/// else `.`.
pub open spec fn step_at(src: Seq<char>, pos: int, far: Far) -> Out<Marked<Seq<char>>> {
    let outside = module_at(src, pos, far);
    match outside.res {
        Some(_) => outside,
        None => {
            let plain = ident_at(src, pos, outside.far);
            match plain.res {
                Some(_) => plain,
                None => {
                    let up = above_at(src, pos, plain.far);
                    match up.res {
                        Some(_) => up,
                        None => here_at(src, pos, up.far),
                    }
                },
            }
        },
    }
}

/// Reads one segment of a path.
pub fn step(src: &[char], pos: usize, far: &mut Furthest) -> (r: Option<(Spanned<String>, usize)>)
    requires
        ready(src@, pos, old(far)@),
    ensures
        holds(r, final(far)@, step_at(src@, pos as int, old(far)@), src@, pos),
        r matches Some((_, end)) ==> pos < end,
{
    match module(src, pos, far) {
        Some(found) => Some(found),
        None => match ident(src, pos, far) {
            Some(found) => Some(found),
            None => match above(src, pos, far) {
                Some(found) => Some(found),
                None => here(src, pos, far),
            },
        },
    }
}

/// What follows the first segment of a path: any number of times `/` and a
/// segment. A `/` that no segment follows is not part of the path.
pub open spec fn stepped_at(src: Seq<char>, pos: int, far: Far) -> Out<Seq<Marked<Seq<char>>>>
    decreases src.len() - pos,
{
    let slash = symbol_at(src, pos, '/', far);
    match slash.res {
        Some((_, at)) => {
            let next = step_at(src, at, slash.far);
            match next.res {
                Some((node, end)) => {
                    if advances(src, pos, end) {
                        prepend(seq![node], stepped_at(src, end, next.far))
                    } else {
                        done(Seq::empty(), pos, next.far)
                    }
                },
                None => done(Seq::empty(), pos, next.far),
            }
        },
        None => done(Seq::empty(), pos, slash.far),
    }
}

/// The segments of a path: one or more, with `/` between them.
pub open spec fn steps_at(src: Seq<char>, pos: int, far: Far) -> Out<Seq<Marked<Seq<char>>>> {
    let first = step_at(src, pos, far);
    match first.res {
        Some((node, end)) => prepend(seq![node], stepped_at(src, end, first.far)),
        None => fail(first.far),
    }
}

/// Reads the segments of a path.
pub fn steps(src: &[char], pos: usize, far: &mut Furthest) -> (r: Option<
    (Vec<Spanned<String>>, usize),
>)
    requires
        ready(src@, pos, old(far)@),
    ensures
        holds(r, final(far)@, steps_at(src@, pos as int, old(far)@), src@, pos),
        r matches Some((items, end)) ==> pos < end && items@.len() > 0,
{
    let (first, end) = match step(src, pos, far) {
        Some(found) => found,
        None => { return None; },
    };
    let mut items: Vec<Spanned<String>> = Vec::new();
    proof {
        lemma_models_empty::<Spanned<String>>();
        lemma_models_push(items@, first);
    }
    items.push(first);
    let mut cur: usize = end;
    proof {
        assert(items.model() =~= seq![first.model()]);
    }
    loop
        invariant
            pos < cur,
            items@.len() > 0,
            ready(src@, cur, far@),
            steps_at(src@, pos as int, old(far)@) == prepend(
                items.model(),
                stepped_at(src@, cur as int, far@),
            ),
        decreases src@.len() - cur,
    {
        let at: usize = match symbol(src, cur, '/', far) {
            Some(at) => at,
            None => {
                proof {
                    lemma_prepend_done(items.model(), cur as int, far@);
                }
                return Some((items, cur));
            },
        };
        match step(src, at, far) {
            Some((node, end)) => {
                proof {
                    lemma_models_push(items@, node);
                    lemma_prepend_push(
                        items.model(),
                        node.model(),
                        stepped_at(src@, end as int, far@),
                    );
                }
                items.push(node);
                cur = end;
            },
            None => {
                proof {
                    lemma_prepend_done(items.model(), cur as int, far@);
                }
                return Some((items, cur));
            },
        }
    }
}

/// Whether a path is absolute: whether `/` stands at `pos`.
pub open spec fn rooted_at(src: Seq<char>, pos: int, far: Far) -> Out<bool> {
    let slash = symbol_at(src, pos, '/', far);
    match slash.res {
        Some((_, end)) => done(true, end, slash.far),
        None => done(false, pos, slash.far),
    }
}

fn rooted(src: &[char], pos: usize, far: &mut Furthest) -> (r: (bool, usize))
    requires
        ready(src@, pos, old(far)@),
    ensures
        holds(Some(r), final(far)@, rooted_at(src@, pos as int, old(far)@), src@, pos),
{
    match symbol(src, pos, '/', far) {
        Some(end) => (true, end),
        None => (false, pos),
    }
}

/// What stands between the round brackets of an import: nothing, or
/// identifiers with commas between them and optionally a comma after the
/// last.
pub open spec fn chosen_at(src: Seq<char>, pos: int, far: Far) -> Out<Seq<Marked<Seq<char>>>> {
    let names = list_at(src, pos, TokenKind::Ident, ',', far);
    match names.res {
        Some((items, at)) => {
            let comma = trailing_at(src, at, ',', names.far);
            match comma.res {
                Some((_, end)) => done(items, end, comma.far),
                None => fail(comma.far),
            }
        },
        None => done(Seq::empty(), pos, names.far),
    }
}

fn chosen(src: &[char], pos: usize, far: &mut Furthest) -> (r: (Vec<Spanned<String>>, usize))
    requires
        ready(src@, pos, old(far)@),
    ensures
        holds(Some(r), final(far)@, chosen_at(src@, pos as int, old(far)@), src@, pos),
{
    match list(src, pos, TokenKind::Ident, ',', far) {
        Some((items, at)) => {
            let end: usize = trailing(src, at, ',', far);
            (items, end)
        },
        None => {
            proof {
                lemma_models_empty::<Spanned<String>>();
            }
            (Vec::new(), pos)
        },
    }
}

/// The names in round brackets.
pub open spec fn named_at(src: Seq<char>, pos: int, far: Far) -> Out<Seq<Marked<Seq<char>>>> {
    let open = padded_symbol_at(src, pos, '(', far);
    match open.res {
        Some((_, p1)) => {
            let inner = chosen_at(src, p1, open.far);
            match inner.res {
                Some((items, p2)) => {
                    let close = padded_symbol_at(src, p2, ')', inner.far);
                    match close.res {
                        Some((_, end)) => done(items, end, close.far),
                        None => fail(close.far),
                    }
                },
                None => fail(inner.far),
            }
        },
        None => fail(open.far),
    }
}

fn named(src: &[char], pos: usize, far: &mut Furthest) -> (r: Option<
    (Vec<Spanned<String>>, usize),
>)
    requires
        ready(src@, pos, old(far)@),
    ensures
        holds(r, final(far)@, named_at(src@, pos as int, old(far)@), src@, pos),
        r matches Some((_, end)) ==> pos < end,
{
    match padded_symbol(src, pos, '(', far) {
        Some(p1) => {
            let (items, p2) = chosen(src, p1, far);
            match padded_symbol(src, p2, ')', far) {
                Some(end) => Some((items, end)),
                None => None,
            }
        },
        None => None,
    }
}

/// `*`, which imports every name: the one name `*` with its span.
pub open spec fn star_at(src: Seq<char>, pos: int, far: Far) -> Out<Seq<Marked<Seq<char>>>> {
    let star = symbol_at(src, pos, '*', far);
    match star.res {
        Some((_, end)) => done(seq![token(src, pos, end)], end, star.far),
        None => fail(star.far),
    }
}

fn star(src: &[char], pos: usize, far: &mut Furthest) -> (r: Option<(Vec<Spanned<String>>, usize)>)
    requires
        ready(src@, pos, old(far)@),
    ensures
        holds(r, final(far)@, star_at(src@, pos as int, old(far)@), src@, pos),
        r matches Some((_, end)) ==> pos < end,
{
    match symbol(src, pos, '*', far) {
        Some(end) => {
            let mut items: Vec<Spanned<String>> = Vec::new();
            let name = spanned(pos, end, text(src, pos, end));
            proof {
                lemma_models_empty::<Spanned<String>>();
                lemma_models_push(items@, name);
            }
            items.push(name);
            assert(items.model() =~= seq![name.model()]);
            Some((items, end))
        },
        None => None,
    }
}

/// What is imported: the names in round brackets, or else `*`.
pub open spec fn names_at(src: Seq<char>, pos: int, far: Far) -> Out<Seq<Marked<Seq<char>>>> {
    let some = named_at(src, pos, far);
    match some.res {
        Some(_) => some,
        None => star_at(src, pos, some.far),
    }
}

/// Reads what is imported.
pub fn names(src: &[char], pos: usize, far: &mut Furthest) -> (r: Option<
    (Vec<Spanned<String>>, usize),
>)
    requires
        ready(src@, pos, old(far)@),
    ensures
        holds(r, final(far)@, names_at(src@, pos as int, old(far)@), src@, pos),
        r matches Some((_, end)) ==> pos < end,
{
    match named(src, pos, far) {
        Some(found) => Some(found),
        None => star(src, pos, far),
    }
}

/// An import: the word `import`, the names, the word `from` and a path.
pub open spec fn import_at(src: Seq<char>, pos: int, far: Far) -> Out<StmtView> {
    let word = padded_at(src, pos, "import"@, far);
    match word.res {
        Some((_, p1)) => {
            let what = names_at(src, p1, word.far);
            match what.res {
                Some((names, p2)) => {
                    let from = padded_at(src, p2, "from"@, what.far);
                    match from.res {
                        Some((_, p3)) => {
                            let root = rooted_at(src, p3, from.far);
                            match root.res {
                                Some((absolute, p4)) => {
                                    let way = steps_at(src, p4, root.far);
                                    match way.res {
                                        Some((path, end)) => done(
                                            StmtView::Import { path, absolute, names },
                                            end,
                                            way.far,
                                        ),
                                        None => fail(way.far),
                                    }
                                },
                                None => fail(root.far),
                            }
                        },
                        None => fail(from.far),
                    }
                },
                None => fail(what.far),
            }
        },
        None => fail(word.far),
    }
}

/// Reads an import at `pos`.
pub fn import(src: &[char], pos: usize, far: &mut Furthest) -> (r: Option<(Stmt, usize)>)
    requires
        ready(src@, pos, old(far)@),
    ensures
        holds(r, final(far)@, import_at(src@, pos as int, old(far)@), src@, pos),
        r matches Some((_, end)) ==> pos < end,
{
    let p1: usize = match padded(src, pos, "import", far) {
        Some(p) => p,
        None => { return None; },
    };
    let (names, p2) = match names(src, p1, far) {
        Some(found) => found,
        None => { return None; },
    };
    let p3: usize = match padded(src, p2, "from", far) {
        Some(p) => p,
        None => { return None; },
    };
    let (absolute, p4) = rooted(src, p3, far);
    match steps(src, p4, far) {
        Some((path, end)) => Some((Stmt::Import { path, absolute, names }, end)),
        None => None,
    }
}

/// Parses one import from the start of `source`; what follows it is not
/// looked at. The statement is well formed, and every span
/// in it is true to the text.
pub fn parser(source: &str) -> (r: Result<Stmt, Vec<ParseError>>)
    ensures
        agrees(r, verdict::<Stmt>(import_at(source@, 0, Far::none()), source@)),
        r matches Ok(stmt) ==> cut_stmt(encode_utf8(source@), stmt@, 0, byte_len(source@) as int),
        r matches Err(errors) ==> errors@.len() == 1 && errors@[0].span.start
            <= errors@[0].span.end <= byte_len(source@),
{
    proof {
        lemma_import(source@);
        if let Some((node, end)) = import_at(source@, 0, Far::none()).res {
            lemma_widen_stmt(source@, node, 0, end, 0, source@.len() as int);
            lemma_cut_stmt(source@, node, 0, source@.len() as int);
            lemma_byte_at(source@, 0, source@.len() as int);
        }
    }
    let src = chars_of(source);
    let total: usize = source.as_bytes().len();
    assert(byte_len(source@) == total);
    let mut far = Furthest::new();
    let r = import(src.as_slice(), 0, &mut far);
    finish(src.as_slice(), r, far, Ghost(import_at(source@, 0, Far::none())))
}

} // verus!
