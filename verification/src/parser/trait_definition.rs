//! Traits: `trait Name { member, member, }`.
//!
//! A member is an optional `default`, one or more labels with `|` between
//! them, and optionally `=` with a notation: a template that shows by `_`
//! where the phoneme stands.

use crate::ast::{Stmt, StmtView, TraitMember, TraitMemberView};
use crate::chars::{chars_of, text, CharClass};
use crate::error::{Far, Furthest, ParseError};
use crate::bytes::{byte_len, lemma_byte_at};
use crate::cut::{cut_stmt, lemma_cut_stmt};
use crate::exact::{lemma_widen_stmt, lemma_trait};
use vstd::utf8::encode_utf8;
use crate::model::{lemma_models_empty, lemma_models_push, spanned, Marked, Model, Spanned};
use crate::parser::common::{list, list_at, trailing, trailing_at, TokenKind};
use crate::parser::scan::{
    closing, closing_at, advances, agrees, done, fail, finish, holds, ident, ident_at, lemma_prepend_done,
    lemma_prepend_push, literal, literal_at, maybe_run, maybe_run_at, padded, padded_at,
    padded_symbol, padded_symbol_at, prepend, ready, run_end, skip, symbol, symbol_at, token,
    verdict, Out,
};
use vstd::prelude::*;

verus! {

/// The part `= before_after` of a member, if it stands at `pos`. The text and
/// the span cover the template, from the first character of `before`, or the
/// `_`, to the last of `after`, or the `_`.
pub open spec fn notation_at(src: Seq<char>, pos: int, far: Far) -> Out<Option<Marked<Seq<char>>>> {
    let equals = padded_symbol_at(src, pos, '=', far);
    match equals.res {
        Some((_, start)) => {
            let before = maybe_run_at(src, start, CharClass::Word, equals.far);
            match before.res {
                Some((_, at)) => {
                    let focus = symbol_at(src, at, '_', before.far);
                    match focus.res {
                        Some((_, next)) => {
                            let after = maybe_run_at(src, next, CharClass::Word, focus.far);
                            match after.res {
                                Some((_, end)) => done(
                                    Some(token(src, start, end)),
                                    end,
                                    after.far,
                                ),
                                None => done(None, pos, after.far),
                            }
                        },
                        None => done(None, pos, focus.far),
                    }
                },
                None => done(None, pos, before.far),
            }
        },
        None => done(None, pos, equals.far),
    }
}

fn notation(src: &[char], pos: usize, far: &mut Furthest) -> (r: (Option<Spanned<String>>, usize))
    requires
        ready(src@, pos, old(far)@),
    ensures
        holds(Some(r), final(far)@, notation_at(src@, pos as int, old(far)@), src@, pos),
{
    match padded_symbol(src, pos, '=', far) {
        Some(start) => {
            let at: usize = maybe_run(src, start, CharClass::Word, far);
            match symbol(src, at, '_', far) {
                Some(next) => {
                    let end: usize = maybe_run(src, next, CharClass::Word, far);
                    (Some(spanned(start, end, text(src, start, end))), end)
                },
                None => (None, pos),
            }
        },
        None => (None, pos),
    }
}

/// The word `default` with white space around it, if it stands at `pos`.
/// The value is the offset of the word; the position is after the white
/// space that follows it.
pub open spec fn default_at(src: Seq<char>, pos: int, far: Far) -> Out<Option<int>> {
    let start = run_end(src, pos, CharClass::Space);
    let word = literal_at(src, start, "default"@, far);
    match word.res {
        Some((_, end)) => done(Some(start), run_end(src, end, CharClass::Space), word.far),
        None => done(None, pos, word.far),
    }
}

/// A member: an optional `default`, one or more labels with `|` between
/// them, and an optional notation. The span runs from `default`, or the
/// first label, to the last label, or the notation.
#[verifier::opaque]
pub open spec fn member_at(src: Seq<char>, pos: int, far: Far) -> Out<Marked<TraitMemberView>> {
    let first = default_at(src, pos, far);
    match first.res {
        Some((marked, p1)) => {
            let names = list_at(src, p1, TokenKind::Ident, '|', first.far);
            match names.res {
                Some((labels, p2)) => {
                    let note = notation_at(src, p2, names.far);
                    match note.res {
                        Some((notation, end)) => done(
                            Marked {
                                start: match marked {
                                    Some(start) => start,
                                    None => pos,
                                },
                                end,
                                node: TraitMemberView { labels, notation, default: marked is Some },
                            },
                            end,
                            note.far,
                        ),
                        None => fail(note.far),
                    }
                },
                None => fail(names.far),
            }
        },
        None => fail(first.far),
    }
}

/// Reads a member with its span.
pub fn member(src: &[char], pos: usize, far: &mut Furthest) -> (r: Option<
    (Spanned<TraitMember>, usize),
>)
    requires
        ready(src@, pos, old(far)@),
    ensures
        holds(r, final(far)@, member_at(src@, pos as int, old(far)@), src@, pos),
        r matches Some((_, end)) ==> pos < end,
{
    proof {
        reveal(member_at);
    }
    let at: usize = skip(src, pos, CharClass::Space);
    let mut start: usize = pos;
    let mut p1: usize = pos;
    let mut default: bool = false;
    match literal(src, at, "default", far) {
        Some(end) => {
            start = at;
            p1 = skip(src, end, CharClass::Space);
            default = true;
        },
        None => {},
    }
    let (labels, p2) = match list(src, p1, TokenKind::Ident, '|', far) {
        Some(found) => found,
        None => { return None; },
    };
    let (notation, end) = notation(src, p2, far);
    Some((spanned(start, end, TraitMember { labels, notation, default }), end))
}

/// What follows the first member of a trait: any number of times a comma,
/// with white space around it, and a member.
pub open spec fn membered_at(src: Seq<char>, pos: int, far: Far) -> Out<
    Seq<Marked<TraitMemberView>>,
>
    decreases src.len() - pos,
{
    let sep = padded_symbol_at(src, pos, ',', far);
    match sep.res {
        Some((_, at)) => {
            let next = member_at(src, at, sep.far);
            match next.res {
                Some((node, end)) => {
                    if advances(src, pos, end) {
                        prepend(seq![node], membered_at(src, end, next.far))
                    } else {
                        done(Seq::empty(), pos, next.far)
                    }
                },
                None => done(Seq::empty(), pos, next.far),
            }
        },
        None => done(Seq::empty(), pos, sep.far),
    }
}

/// The members of a trait: one or more, with commas between them.
pub open spec fn members_at(src: Seq<char>, pos: int, far: Far) -> Out<
    Seq<Marked<TraitMemberView>>,
> {
    let first = member_at(src, pos, far);
    match first.res {
        Some((node, end)) => prepend(seq![node], membered_at(src, end, first.far)),
        None => fail(first.far),
    }
}

/// Reads the members of a trait.
pub fn members(src: &[char], pos: usize, far: &mut Furthest) -> (r: Option<
    (Vec<Spanned<TraitMember>>, usize),
>)
    requires
        ready(src@, pos, old(far)@),
    ensures
        holds(r, final(far)@, members_at(src@, pos as int, old(far)@), src@, pos),
        r matches Some((items, end)) ==> pos < end && items@.len() > 0,
{
    let (first, end) = match member(src, pos, far) {
        Some(found) => found,
        None => { return None; },
    };
    let mut items: Vec<Spanned<TraitMember>> = Vec::new();
    proof {
        lemma_models_empty::<Spanned<TraitMember>>();
        lemma_models_push(items@, first);
    }
    items.push(first);
    let mut cur: usize = end;
    proof {
        assert(items.model() =~= seq![first.model()]);
    }
    loop
        invariant
            pos < cur,
            items@.len() > 0,
            ready(src@, cur, far@),
            members_at(src@, pos as int, old(far)@) == prepend(
                items.model(),
                membered_at(src@, cur as int, far@),
            ),
        decreases src@.len() - cur,
    {
        let at: usize = match padded_symbol(src, cur, ',', far) {
            Some(at) => at,
            None => {
                proof {
                    lemma_prepend_done(items.model(), cur as int, far@);
                }
                return Some((items, cur));
            },
        };
        match member(src, at, far) {
            Some((node, end)) => {
                proof {
                    lemma_models_push(items@, node);
                    lemma_prepend_push(
                        items.model(),
                        node.model(),
                        membered_at(src@, end as int, far@),
                    );
                }
                items.push(node);
                cur = end;
            },
            None => {
                proof {
                    lemma_prepend_done(items.model(), cur as int, far@);
                }
                return Some((items, cur));
            },
        }
    }
}

/// The body of a trait: in braces, the members, and optionally a comma after
/// the last. White space may stand around the braces' contents.
pub open spec fn body_at(src: Seq<char>, pos: int, far: Far) -> Out<Seq<Marked<TraitMemberView>>> {
    let open = padded_symbol_at(src, pos, '{', far);
    match open.res {
        Some((_, p1)) => {
            let inner = members_at(src, p1, open.far);
            match inner.res {
                Some((items, p2)) => {
                    let comma = trailing_at(src, p2, ',', inner.far);
                    match comma.res {
                        Some((_, p3)) => {
                            let close = closing_at(src, p3, '}', comma.far);
                            match close.res {
                                Some((_, end)) => done(items, end, close.far),
                                None => fail(close.far),
                            }
                        },
                        None => fail(comma.far),
                    }
                },
                None => fail(inner.far),
            }
        },
        None => fail(open.far),
    }
}

fn body(src: &[char], pos: usize, far: &mut Furthest) -> (r: Option<
    (Vec<Spanned<TraitMember>>, usize),
>)
    requires
        ready(src@, pos, old(far)@),
    ensures
        holds(r, final(far)@, body_at(src@, pos as int, old(far)@), src@, pos),
        r matches Some((_, end)) ==> pos < end,
{
    let p1: usize = match padded_symbol(src, pos, '{', far) {
        Some(p) => p,
        None => { return None; },
    };
    let (items, p2) = match members(src, p1, far) {
        Some(found) => found,
        None => { return None; },
    };
    let p3: usize = trailing(src, p2, ',', far);
    match closing(src, p3, '}', far) {
        Some(end) => Some((items, end)),
        None => None,
    }
}

/// A trait: the word `trait`, an identifier and a body.
pub open spec fn trait_at(src: Seq<char>, pos: int, far: Far) -> Out<StmtView> {
    let word = padded_at(src, pos, "trait"@, far);
    match word.res {
        Some((_, p1)) => {
            let name = ident_at(src, p1, word.far);
            match name.res {
                Some((label, p2)) => {
                    let inner = body_at(src, p2, name.far);
                    match inner.res {
                        Some((members, end)) => done(
                            StmtView::Trait { label, members },
                            end,
                            inner.far,
                        ),
                        None => fail(inner.far),
                    }
                },
                None => fail(name.far),
            }
        },
        None => fail(word.far),
    }
}

/// Reads a trait at `pos`.
pub fn trait_definition(src: &[char], pos: usize, far: &mut Furthest) -> (r: Option<(Stmt, usize)>)
    requires
        ready(src@, pos, old(far)@),
    ensures
        holds(r, final(far)@, trait_at(src@, pos as int, old(far)@), src@, pos),
        r matches Some((_, end)) ==> pos < end,
{
    let p1: usize = match padded(src, pos, "trait", far) {
        Some(p) => p,
        None => { return None; },
    };
    let (label, p2) = match ident(src, p1, far) {
        Some(found) => found,
        None => { return None; },
    };
    match body(src, p2, far) {
        Some((members, end)) => Some((Stmt::Trait { label, members }, end)),
        None => None,
    }
}

/// Parses one trait from the start of `source`; what follows it is not
/// looked at. The statement is well formed, and every span
/// in it is true to the text.
pub fn parser(source: &str) -> (r: Result<Stmt, Vec<ParseError>>)
    ensures
        agrees(r, verdict::<Stmt>(trait_at(source@, 0, Far::none()), source@)),
        r matches Ok(stmt) ==> cut_stmt(encode_utf8(source@), stmt@, 0, byte_len(source@) as int),
        r matches Err(errors) ==> errors@.len() == 1 && errors@[0].span.start
            <= errors@[0].span.end <= byte_len(source@),
{
    proof {
        lemma_trait(source@);
        if let Some((node, end)) = trait_at(source@, 0, Far::none()).res {
            lemma_widen_stmt(source@, node, 0, end, 0, source@.len() as int);
            lemma_cut_stmt(source@, node, 0, source@.len() as int);
            lemma_byte_at(source@, 0, source@.len() as int);
        }
    }
    let src = chars_of(source);
    let total: usize = source.as_bytes().len();
    assert(byte_len(source@) == total);
    let mut far = Furthest::new();
    let r = trait_definition(src.as_slice(), 0, &mut far);
    finish(src.as_slice(), r, far, Ghost(trait_at(source@, 0, Far::none())))
}

} // verus!
