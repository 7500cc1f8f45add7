//! Words: `- gloss /syl.la.bles/ definitions`.
//!
//! The definitions are one definition on the same line, or a block in braces
//! with one definition to a line. A definition is free text, optionally
//! after a part of speech and a full stop.

use crate::ast::{Definition, DefinitionView, Stmt, StmtView};
use crate::chars::{chars_of, CharClass};
use crate::error::{Far, Furthest, ParseError};
use crate::bytes::{byte_len, lemma_byte_at};
use crate::cut::{cut_stmt, lemma_cut_stmt};
use crate::exact::{lemma_widen_stmt, lemma_word};
use vstd::utf8::encode_utf8;
use crate::model::{lemma_models_empty, lemma_models_push, spanned, Marked, Model, Spanned};
use crate::parser::common::syllable;
use crate::parser::scan::{
    advances, agrees, done, ends, fail, finish, holds, ident, ident_at, lemma_prepend_done,
    lemma_prepend_push, newline, newline_at, padded_symbol, padded_symbol_at, prepend, ready,
    run_end, run_token, skip, symbol, symbol_at, text_at, token_at, verdict, Out,
};
use vstd::prelude::*;

verus! {

/// The part of speech of a definition: an identifier and a full stop, with
/// any white space around the two, if they stand at `pos`.
pub open spec fn tag_at(src: Seq<char>, pos: int, far: Far) -> Out<Option<Marked<Seq<char>>>> {
    let name = ident_at(src, run_end(src, pos, CharClass::Space), far);
    match name.res {
        Some((node, at)) => {
            let stop = symbol_at(src, at, '.', name.far);
            match stop.res {
                Some((_, end)) => done(Some(node), run_end(src, end, CharClass::Space), stop.far),
                None => done(None, pos, stop.far),
            }
        },
        None => done(None, pos, name.far),
    }
}

fn tag(src: &[char], pos: usize, far: &mut Furthest) -> (r: (Option<Spanned<String>>, usize))
    requires
        ready(src@, pos, old(far)@),
    ensures
        holds(Some(r), final(far)@, tag_at(src@, pos as int, old(far)@), src@, pos),
{
    match ident(src, skip(src, pos, CharClass::Space), far) {
        Some((node, at)) => match symbol(src, at, '.', far) {
            Some(end) => (Some(node), skip(src, end, CharClass::Space)),
            None => (None, pos),
        },
        None => (None, pos),
    }
}

/// A definition: an optional part of speech, and free text.
#[verifier::opaque]
pub open spec fn definition_at(src: Seq<char>, pos: int, far: Far) -> Out<DefinitionView> {
    let part = tag_at(src, pos, far);
    match part.res {
        Some((pos_tag, at)) => {
            let words = token_at(src, at, CharClass::FreeText, part.far);
            match words.res {
                Some((definition, end)) => done(
                    DefinitionView { pos: pos_tag, definition },
                    end,
                    words.far,
                ),
                None => fail(words.far),
            }
        },
        None => fail(part.far),
    }
}

/// Reads a definition.
pub fn definition(src: &[char], pos: usize, far: &mut Furthest) -> (r: Option<(Definition, usize)>)
    requires
        ready(src@, pos, old(far)@),
    ensures
        holds(r, final(far)@, definition_at(src@, pos as int, old(far)@), src@, pos),
        r matches Some((_, end)) ==> pos < end,
{
    proof {
        reveal(definition_at);
    }
    let (pos_tag, at) = tag(src, pos, far);
    match run_token(src, at, CharClass::FreeText, far) {
        Some((definition, end)) => Some((Definition { pos: pos_tag, definition }, end)),
        None => None,
    }
}

/// What parts the definitions of a block: a line break and any white space
/// after it.
pub open spec fn gap_at(src: Seq<char>, pos: int, far: Far) -> Out<()> {
    let line = newline_at(src, pos, far);
    match line.res {
        Some((_, end)) => done((), run_end(src, end, CharClass::Space), line.far),
        None => fail(line.far),
    }
}

fn gap(src: &[char], pos: usize, far: &mut Furthest) -> (r: Option<usize>)
    requires
        ready(src@, pos, old(far)@),
    ensures
        ends(r, final(far)@, gap_at(src@, pos as int, old(far)@), src@, pos),
        r matches Some(end) ==> pos < end,
{
    match newline(src, pos, far) {
        Some(end) => Some(skip(src, end, CharClass::Space)),
        None => None,
    }
}

/// A gap, if one stands at `pos`.
pub open spec fn maybe_gap_at(src: Seq<char>, pos: int, far: Far) -> Out<()> {
    let found = gap_at(src, pos, far);
    match found.res {
        Some(_) => found,
        None => done((), pos, found.far),
    }
}

fn maybe_gap(src: &[char], pos: usize, far: &mut Furthest) -> (end: usize)
    requires
        ready(src@, pos, old(far)@),
    ensures
        ends(Some(end), final(far)@, maybe_gap_at(src@, pos as int, old(far)@), src@, pos),
{
    match gap(src, pos, far) {
        Some(end) => end,
        None => pos,
    }
}

/// What follows the first definition of a block: any number of times a gap
/// and a definition.
pub open spec fn defined_at(src: Seq<char>, pos: int, far: Far) -> Out<Seq<DefinitionView>>
    decreases src.len() - pos,
{
    let sep = gap_at(src, pos, far);
    match sep.res {
        Some((_, at)) => {
            let next = definition_at(src, at, sep.far);
            match next.res {
                Some((node, end)) => {
                    if advances(src, pos, end) {
                        prepend(seq![node], defined_at(src, end, next.far))
                    } else {
                        done(Seq::empty(), pos, next.far)
                    }
                },
                None => done(Seq::empty(), pos, next.far),
            }
        },
        None => done(Seq::empty(), pos, sep.far),
    }
}

/// One or more definitions with gaps between them.
pub open spec fn lines_at(src: Seq<char>, pos: int, far: Far) -> Out<Seq<DefinitionView>> {
    let first = definition_at(src, pos, far);
    match first.res {
        Some((node, end)) => prepend(seq![node], defined_at(src, end, first.far)),
        None => fail(first.far),
    }
}

fn lines(src: &[char], pos: usize, far: &mut Furthest) -> (r: Option<(Vec<Definition>, usize)>)
    requires
        ready(src@, pos, old(far)@),
    ensures
        holds(r, final(far)@, lines_at(src@, pos as int, old(far)@), src@, pos),
        r matches Some((items, end)) ==> pos < end && items@.len() > 0,
{
    let (first, end) = match definition(src, pos, far) {
        Some(found) => found,
        None => { return None; },
    };
    let mut items: Vec<Definition> = Vec::new();
    proof {
        lemma_models_empty::<Definition>();
        lemma_models_push(items@, first);
    }
    items.push(first);
    let mut cur: usize = end;
    proof {
        assert(items.model() =~= seq![first.model()]);
    }
    loop
        invariant
            pos < cur,
            items@.len() > 0,
            ready(src@, cur, far@),
            lines_at(src@, pos as int, old(far)@) == prepend(
                items.model(),
                defined_at(src@, cur as int, far@),
            ),
        decreases src@.len() - cur,
    {
        let at: usize = match gap(src, cur, far) {
            Some(at) => at,
            None => {
                proof {
                    lemma_prepend_done(items.model(), cur as int, far@);
                }
                return Some((items, cur));
            },
        };
        match definition(src, at, far) {
            Some((node, end)) => {
                proof {
                    lemma_models_push(items@, node);
                    lemma_prepend_push(
                        items.model(),
                        node.model(),
                        defined_at(src@, end as int, far@),
                    );
                }
                items.push(node);
                cur = end;
            },
            None => {
                proof {
                    lemma_prepend_done(items.model(), cur as int, far@);
                }
                return Some((items, cur));
            },
        }
    }
}

/// A block of definitions: in braces, one or more definitions with gaps
/// between them; a gap may also stand before the first and after the last.
pub open spec fn definition_block_at(src: Seq<char>, pos: int, far: Far) -> Out<
    Seq<DefinitionView>,
> {
    let open = symbol_at(src, pos, '{', far);
    match open.res {
        Some((_, p1)) => {
            let lead = maybe_gap_at(src, p1, open.far);
            match lead.res {
                Some((_, p2)) => {
                    let inner = lines_at(src, p2, lead.far);
                    match inner.res {
                        Some((items, p3)) => {
                            let trail = maybe_gap_at(src, p3, inner.far);
                            match trail.res {
                                Some((_, p4)) => {
                                    let close = symbol_at(src, p4, '}', trail.far);
                                    match close.res {
                                        Some((_, end)) => done(items, end, close.far),
                                        None => fail(close.far),
                                    }
                                },
                                None => fail(trail.far),
                            }
                        },
                        None => fail(inner.far),
                    }
                },
                None => fail(lead.far),
            }
        },
        None => fail(open.far),
    }
}

/// Reads a block of definitions.
pub fn definition_block(src: &[char], pos: usize, far: &mut Furthest) -> (r: Option<
    (Vec<Definition>, usize),
>)
    requires
        ready(src@, pos, old(far)@),
    ensures
        holds(r, final(far)@, definition_block_at(src@, pos as int, old(far)@), src@, pos),
        r matches Some((items, end)) ==> pos < end && items@.len() > 0,
{
    let p1: usize = match symbol(src, pos, '{', far) {
        Some(p) => p,
        None => { return None; },
    };
    let p2: usize = maybe_gap(src, p1, far);
    let (items, p3) = match lines(src, p2, far) {
        Some(found) => found,
        None => { return None; },
    };
    let p4: usize = maybe_gap(src, p3, far);
    match symbol(src, p4, '}', far) {
        Some(end) => Some((items, end)),
        None => None,
    }
}

/// The definitions of a word, after any white space: a block, or else one
/// definition.
pub open spec fn definitions_at(src: Seq<char>, pos: int, far: Far) -> Out<Seq<DefinitionView>> {
    let at = run_end(src, pos, CharClass::Space);
    let block = definition_block_at(src, at, far);
    match block.res {
        Some(_) => block,
        None => {
            let one = definition_at(src, at, block.far);
            match one.res {
                Some((node, end)) => done(seq![node], end, one.far),
                None => fail(one.far),
            }
        },
    }
}

fn definitions(src: &[char], pos: usize, far: &mut Furthest) -> (r: Option<
    (Vec<Definition>, usize),
>)
    requires
        ready(src@, pos, old(far)@),
    ensures
        holds(r, final(far)@, definitions_at(src@, pos as int, old(far)@), src@, pos),
        r matches Some((items, end)) ==> pos < end && items@.len() > 0,
{
    let at: usize = skip(src, pos, CharClass::Space);
    match definition_block(src, at, far) {
        Some(found) => Some(found),
        None => match definition(src, at, far) {
            Some((node, end)) => {
                let mut items: Vec<Definition> = Vec::new();
                proof {
                    lemma_models_empty::<Definition>();
                    lemma_models_push(items@, node);
                }
                items.push(node);
                assert(items.model() =~= seq![node.model()]);
                Some((items, end))
            },
            None => None,
        },
    }
}

/// What follows the first syllable: any number of times a full stop and a
/// syllable.
pub open spec fn syllabled_at(src: Seq<char>, pos: int, far: Far) -> Out<Seq<Seq<char>>>
    decreases src.len() - pos,
{
    let stop = symbol_at(src, pos, '.', far);
    match stop.res {
        Some((_, at)) => {
            let next = text_at(src, at, CharClass::Word, stop.far);
            match next.res {
                Some((node, end)) => {
                    if advances(src, pos, end) {
                        prepend(seq![node], syllabled_at(src, end, next.far))
                    } else {
                        done(Seq::empty(), pos, next.far)
                    }
                },
                None => done(Seq::empty(), pos, next.far),
            }
        },
        None => done(Seq::empty(), pos, stop.far),
    }
}

/// One or more syllables with full stops between them.
pub open spec fn syllables_at(src: Seq<char>, pos: int, far: Far) -> Out<Seq<Seq<char>>> {
    let first = text_at(src, pos, CharClass::Word, far);
    match first.res {
        Some((node, end)) => prepend(seq![node], syllabled_at(src, end, first.far)),
        None => fail(first.far),
    }
}

fn syllables(src: &[char], pos: usize, far: &mut Furthest) -> (r: Option<(Vec<String>, usize)>)
    requires
        ready(src@, pos, old(far)@),
    ensures
        holds(r, final(far)@, syllables_at(src@, pos as int, old(far)@), src@, pos),
        r matches Some((items, end)) ==> pos < end && items@.len() > 0,
{
    let (first, end) = match syllable(src, pos, far) {
        Some(found) => found,
        None => { return None; },
    };
    let mut items: Vec<String> = Vec::new();
    proof {
        lemma_models_empty::<String>();
        lemma_models_push(items@, first);
    }
    items.push(first);
    let mut cur: usize = end;
    proof {
        assert(items.model() =~= seq![first.model()]);
    }
    loop
        invariant
            pos < cur,
            items@.len() > 0,
            ready(src@, cur, far@),
            syllables_at(src@, pos as int, old(far)@) == prepend(
                items.model(),
                syllabled_at(src@, cur as int, far@),
            ),
        decreases src@.len() - cur,
    {
        let at: usize = match symbol(src, cur, '.', far) {
            Some(at) => at,
            None => {
                proof {
                    lemma_prepend_done(items.model(), cur as int, far@);
                }
                return Some((items, cur));
            },
        };
        match syllable(src, at, far) {
            Some((node, end)) => {
                proof {
                    lemma_models_push(items@, node);
                    lemma_prepend_push(
                        items.model(),
                        node.model(),
                        syllabled_at(src@, end as int, far@),
                    );
                }
                items.push(node);
                cur = end;
            },
            None => {
                proof {
                    lemma_prepend_done(items.model(), cur as int, far@);
                }
                return Some((items, cur));
            },
        }
    }
}

/// A pronunciation: between two `/`, one or more syllables with full stops
/// between them; white space may stand before and after. The span runs from
/// the first `/` to the second.
pub open spec fn pronunciation_at(src: Seq<char>, pos: int, far: Far) -> Out<
    Marked<Seq<Seq<char>>>,
> {
    let start = run_end(src, pos, CharClass::Space);
    let open = symbol_at(src, start, '/', far);
    match open.res {
        Some((_, p1)) => {
            let inner = syllables_at(src, p1, open.far);
            match inner.res {
                Some((items, p2)) => {
                    let close = symbol_at(src, p2, '/', inner.far);
                    match close.res {
                        Some((_, end)) => done(
                            Marked { start, end, node: items },
                            run_end(src, end, CharClass::Space),
                            close.far,
                        ),
                        None => fail(close.far),
                    }
                },
                None => fail(inner.far),
            }
        },
        None => fail(open.far),
    }
}

fn pronunciation(src: &[char], pos: usize, far: &mut Furthest) -> (r: Option<
    (Spanned<Vec<String>>, usize),
>)
    requires
        ready(src@, pos, old(far)@),
    ensures
        holds(r, final(far)@, pronunciation_at(src@, pos as int, old(far)@), src@, pos),
        r matches Some((_, end)) ==> pos < end,
{
    let start: usize = skip(src, pos, CharClass::Space);
    let p1: usize = match symbol(src, start, '/', far) {
        Some(p) => p,
        None => { return None; },
    };
    let (items, p2) = match syllables(src, p1, far) {
        Some(found) => found,
        None => { return None; },
    };
    match symbol(src, p2, '/', far) {
        Some(end) => Some((spanned(start, end, items), skip(src, end, CharClass::Space))),
        None => None,
    }
}

/// A word: `-`, a gloss, a pronunciation and the definitions.
pub open spec fn word_at(src: Seq<char>, pos: int, far: Far) -> Out<StmtView> {
    let dash = padded_symbol_at(src, pos, '-', far);
    match dash.res {
        Some((_, p1)) => {
            let name = ident_at(src, p1, dash.far);
            match name.res {
                Some((gloss, p2)) => {
                    let said = pronunciation_at(src, p2, name.far);
                    match said.res {
                        Some((pronunciation, p3)) => {
                            let senses = definitions_at(src, p3, said.far);
                            match senses.res {
                                Some((definitions, end)) => done(
                                    StmtView::Word { gloss, pronunciation, definitions },
                                    end,
                                    senses.far,
                                ),
                                None => fail(senses.far),
                            }
                        },
                        None => fail(said.far),
                    }
                },
                None => fail(name.far),
            }
        },
        None => fail(dash.far),
    }
}

/// Reads a word at `pos`.
pub fn word(src: &[char], pos: usize, far: &mut Furthest) -> (r: Option<(Stmt, usize)>)
    requires
        ready(src@, pos, old(far)@),
    ensures
        holds(r, final(far)@, word_at(src@, pos as int, old(far)@), src@, pos),
        r matches Some((_, end)) ==> pos < end,
{
    let p1: usize = match padded_symbol(src, pos, '-', far) {
        Some(p) => p,
        None => { return None; },
    };
    let (gloss, p2) = match ident(src, p1, far) {
        Some(found) => found,
        None => { return None; },
    };
    let (pronunciation, p3) = match pronunciation(src, p2, far) {
        Some(found) => found,
        None => { return None; },
    };
    match definitions(src, p3, far) {
        Some((definitions, end)) => Some((Stmt::Word { gloss, pronunciation, definitions }, end)),
        None => None,
    }
}

/// Parses one word from the start of `source`; what follows it is not
/// looked at. The statement is well formed, and every span
/// in it is true to the text.
pub fn parser(source: &str) -> (r: Result<Stmt, Vec<ParseError>>)
    ensures
        agrees(r, verdict::<Stmt>(word_at(source@, 0, Far::none()), source@)),
        r matches Ok(stmt) ==> cut_stmt(encode_utf8(source@), stmt@, 0, byte_len(source@) as int),
        r matches Err(errors) ==> errors@.len() == 1 && errors@[0].span.start
            <= errors@[0].span.end <= byte_len(source@),
{
    proof {
        lemma_word(source@);
        if let Some((node, end)) = word_at(source@, 0, Far::none()).res {
            lemma_widen_stmt(source@, node, 0, end, 0, source@.len() as int);
            lemma_cut_stmt(source@, node, 0, source@.len() as int);
            lemma_byte_at(source@, 0, source@.len() as int);
        }
    }
    let src = chars_of(source);
    let total: usize = source.as_bytes().len();
    assert(byte_len(source@) == total);
    let mut far = Furthest::new();
    let r = word(src.as_slice(), 0, &mut far);
    finish(src.as_slice(), r, far, Ghost(word_at(source@, 0, Far::none())))
}

} // verus!
