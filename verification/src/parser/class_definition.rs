//! Classes: `class Letter encodes (traits) annotates (traits) { phonemes }`.
//!
//! A class names the traits that it encodes, at least one, and optionally
//! those that it annotates; its body gives each phoneme with the members of
//! those traits that tell it apart.

use crate::ast::{PhonemeDef, PhonemeDefView, Stmt, StmtView};
use crate::chars::{chars_of, CharClass};
use crate::error::{Far, Furthest, ParseError};
use crate::bytes::{byte_len, lemma_byte_at};
use crate::cut::{cut_stmt, lemma_cut_stmt};
use crate::exact::{lemma_widen_stmt, lemma_class};
use vstd::utf8::encode_utf8;
use crate::model::{lemma_models_empty, lemma_models_push, spanned, Marked, Model, Spanned};
use crate::parser::common::{idents, idents_at, trailing, trailing_at};
use crate::parser::scan::{
    closing, closing_at, advances, agrees, done, fail, finish, holds, lemma_prepend_done, lemma_prepend_push, padded,
    padded_at, padded_symbol, padded_symbol_at, prepend, ready, run_end, run_token, skip, symbol,
    symbol_at, token_at, verdict, Out,
};
use crate::parser::series_definition::{label, label_at};
use vstd::prelude::*;

verus! {

/// Identifiers in round brackets, with white space between them.
pub open spec fn group_at(src: Seq<char>, pos: int, far: Far) -> Out<Seq<Marked<Seq<char>>>> {
    let open = symbol_at(src, pos, '(', far);
    match open.res {
        Some((_, p1)) => {
            let inner = idents_at(src, p1, CharClass::Space, open.far);
            match inner.res {
                Some((items, p2)) => {
                    let close = symbol_at(src, p2, ')', inner.far);
                    match close.res {
                        Some((_, end)) => done(items, end, close.far),
                        None => fail(close.far),
                    }
                },
                None => fail(inner.far),
            }
        },
        None => fail(open.far),
    }
}

fn group(src: &[char], pos: usize, far: &mut Furthest) -> (r: Option<(Vec<Spanned<String>>, usize)>)
    requires
        ready(src@, pos, old(far)@),
    ensures
        holds(r, final(far)@, group_at(src@, pos as int, old(far)@), src@, pos),
        r matches Some((_, end)) ==> pos < end,
{
    match symbol(src, pos, '(', far) {
        Some(p1) => {
            let (items, p2) = idents(src, p1, CharClass::Space, far);
            match symbol(src, p2, ')', far) {
                Some(end) => Some((items, end)),
                None => None,
            }
        },
        None => None,
    }
}

/// The traits that a class encodes: the word `encodes` and one or more
/// identifiers in round brackets.
pub open spec fn encodes_at(src: Seq<char>, pos: int, far: Far) -> Out<Seq<Marked<Seq<char>>>> {
    let word = padded_at(src, pos, "encodes"@, far);
    match word.res {
        Some((_, p1)) => {
            let names = group_at(src, p1, word.far);
            match names.res {
                Some((items, end)) => if items.len() == 0 {
                    fail(names.far)
                } else {
                    names
                },
                None => fail(names.far),
            }
        },
        None => fail(word.far),
    }
}

fn encodes(src: &[char], pos: usize, far: &mut Furthest) -> (r: Option<
    (Vec<Spanned<String>>, usize),
>)
    requires
        ready(src@, pos, old(far)@),
    ensures
        holds(r, final(far)@, encodes_at(src@, pos as int, old(far)@), src@, pos),
        r matches Some((items, end)) ==> pos < end && items@.len() > 0,
{
    match padded(src, pos, "encodes", far) {
        Some(p1) => match group(src, p1, far) {
            Some((items, end)) => {
                if items.len() == 0 {
                    None
                } else {
                    Some((items, end))
                }
            },
            None => None,
        },
        None => None,
    }
}

/// The traits that a class annotates: the word `annotates` and any number of
/// identifiers in round brackets, if they stand at `pos`; none otherwise.
pub open spec fn annotates_at(src: Seq<char>, pos: int, far: Far) -> Out<Seq<Marked<Seq<char>>>> {
    let word = padded_at(src, pos, "annotates"@, far);
    match word.res {
        Some((_, p1)) => {
            let names = group_at(src, p1, word.far);
            match names.res {
                Some(_) => names,
                None => done(Seq::empty(), pos, names.far),
            }
        },
        None => done(Seq::empty(), pos, word.far),
    }
}

fn annotates(src: &[char], pos: usize, far: &mut Furthest) -> (r: (Vec<Spanned<String>>, usize))
    requires
        ready(src@, pos, old(far)@),
    ensures
        holds(Some(r), final(far)@, annotates_at(src@, pos as int, old(far)@), src@, pos),
{
    proof {
        lemma_models_empty::<Spanned<String>>();
    }
    match padded(src, pos, "annotates", far) {
        Some(p1) => match group(src, p1, far) {
            Some(found) => found,
            None => (Vec::new(), pos),
        },
        None => (Vec::new(), pos),
    }
}

/// Where the definition of a phoneme ends: after its last trait, or after
/// the `=` where it has none.
pub open spec fn phoneme_end(traits: Seq<Marked<Seq<char>>>, equals_end: int) -> int {
    if traits.len() > 0 {
        traits.last().end
    } else {
        equals_end
    }
}

/// The definition of a phoneme: a word, `=`, and any number of identifiers
/// on the rest of the line. The span runs from the word to the last
/// identifier.
#[verifier::opaque]
pub open spec fn phoneme_at(src: Seq<char>, pos: int, far: Far) -> Out<Marked<PhonemeDefView>> {
    let name = token_at(src, pos, CharClass::Word, far);
    match name.res {
        Some((label, p1)) => {
            let equals = symbol_at(src, run_end(src, p1, CharClass::Space), '=', name.far);
            match equals.res {
                Some((_, p2)) => {
                    let names = idents_at(
                        src,
                        run_end(src, p2, CharClass::Space),
                        CharClass::Inline,
                        equals.far,
                    );
                    match names.res {
                        Some((traits, end)) => done(
                            Marked {
                                start: pos,
                                end: phoneme_end(traits, p2),
                                node: PhonemeDefView { label, traits },
                            },
                            end,
                            names.far,
                        ),
                        None => fail(names.far),
                    }
                },
                None => fail(equals.far),
            }
        },
        None => fail(name.far),
    }
}

/// Reads the definition of a phoneme with its span.
pub fn phoneme(src: &[char], pos: usize, far: &mut Furthest) -> (r: Option<
    (Spanned<PhonemeDef>, usize),
>)
    requires
        ready(src@, pos, old(far)@),
    ensures
        holds(r, final(far)@, phoneme_at(src@, pos as int, old(far)@), src@, pos),
        r matches Some((_, end)) ==> pos < end,
{
    proof {
        reveal(phoneme_at);
    }
    let (label, p1) = match run_token(src, pos, CharClass::Word, far) {
        Some(found) => found,
        None => { return None; },
    };
    let p2: usize = match symbol(src, skip(src, p1, CharClass::Space), '=', far) {
        Some(p) => p,
        None => { return None; },
    };
    let (traits, end) = idents(src, skip(src, p2, CharClass::Space), CharClass::Inline, far);
    let last: usize = if traits.len() > 0 {
        traits[traits.len() - 1].0.end
    } else {
        p2
    };
    Some((spanned(pos, last, PhonemeDef { label, traits }), end))
}

/// What follows the first phoneme of a class: any number of times a comma,
/// with white space around it, and the definition of a phoneme.
pub open spec fn phonemed_at(src: Seq<char>, pos: int, far: Far) -> Out<
    Seq<Marked<PhonemeDefView>>,
>
    decreases src.len() - pos,
{
    let sep = padded_symbol_at(src, pos, ',', far);
    match sep.res {
        Some((_, at)) => {
            let next = phoneme_at(src, at, sep.far);
            match next.res {
                Some((node, end)) => {
                    if advances(src, pos, end) {
                        prepend(seq![node], phonemed_at(src, end, next.far))
                    } else {
                        done(Seq::empty(), pos, next.far)
                    }
                },
                None => done(Seq::empty(), pos, next.far),
            }
        },
        None => done(Seq::empty(), pos, sep.far),
    }
}

/// The phonemes of a class: one or more definitions with commas between
/// them.
pub open spec fn phonemes_at(src: Seq<char>, pos: int, far: Far) -> Out<
    Seq<Marked<PhonemeDefView>>,
> {
    let first = phoneme_at(src, pos, far);
    match first.res {
        Some((node, end)) => prepend(seq![node], phonemed_at(src, end, first.far)),
        None => fail(first.far),
    }
}

/// Reads the phonemes of a class.
pub fn phonemes(src: &[char], pos: usize, far: &mut Furthest) -> (r: Option<
    (Vec<Spanned<PhonemeDef>>, usize),
>)
    requires
        ready(src@, pos, old(far)@),
    ensures
        holds(r, final(far)@, phonemes_at(src@, pos as int, old(far)@), src@, pos),
        r matches Some((items, end)) ==> pos < end && items@.len() > 0,
{
    let (first, end) = match phoneme(src, pos, far) {
        Some(found) => found,
        None => { return None; },
    };
    let mut items: Vec<Spanned<PhonemeDef>> = Vec::new();
    proof {
        lemma_models_empty::<Spanned<PhonemeDef>>();
        lemma_models_push(items@, first);
    }
    items.push(first);
    let mut cur: usize = end;
    proof {
        assert(items.model() =~= seq![first.model()]);
    }
    loop
        invariant
            pos < cur,
            items@.len() > 0,
            ready(src@, cur, far@),
            phonemes_at(src@, pos as int, old(far)@) == prepend(
                items.model(),
                phonemed_at(src@, cur as int, far@),
            ),
        decreases src@.len() - cur,
    {
        let at: usize = match padded_symbol(src, cur, ',', far) {
            Some(at) => at,
            None => {
                proof {
                    lemma_prepend_done(items.model(), cur as int, far@);
                }
                return Some((items, cur));
            },
        };
        match phoneme(src, at, far) {
            Some((node, end)) => {
                proof {
                    lemma_models_push(items@, node);
                    lemma_prepend_push(
                        items.model(),
                        node.model(),
                        phonemed_at(src@, end as int, far@),
                    );
                }
                items.push(node);
                cur = end;
            },
            None => {
                proof {
                    lemma_prepend_done(items.model(), cur as int, far@);
                }
                return Some((items, cur));
            },
        }
    }
}

/// The body of a class: in braces, the phonemes, and optionally a comma
/// after the last. White space may stand around the braces' contents.
pub open spec fn body_at(src: Seq<char>, pos: int, far: Far) -> Out<Seq<Marked<PhonemeDefView>>> {
    let open = padded_symbol_at(src, pos, '{', far);
    match open.res {
        Some((_, p1)) => {
            let inner = phonemes_at(src, p1, open.far);
            match inner.res {
                Some((items, p2)) => {
                    let comma = trailing_at(src, p2, ',', inner.far);
                    match comma.res {
                        Some((_, p3)) => {
                            let close = closing_at(src, p3, '}', comma.far);
                            match close.res {
                                Some((_, end)) => done(items, end, close.far),
                                None => fail(close.far),
                            }
                        },
                        None => fail(comma.far),
                    }
                },
                None => fail(inner.far),
            }
        },
        None => fail(open.far),
    }
}

fn body(src: &[char], pos: usize, far: &mut Furthest) -> (r: Option<
    (Vec<Spanned<PhonemeDef>>, usize),
>)
    requires
        ready(src@, pos, old(far)@),
    ensures
        holds(r, final(far)@, body_at(src@, pos as int, old(far)@), src@, pos),
        r matches Some((_, end)) ==> pos < end,
{
    let p1: usize = match padded_symbol(src, pos, '{', far) {
        Some(p) => p,
        None => { return None; },
    };
    let (items, p2) = match phonemes(src, p1, far) {
        Some(found) => found,
        None => { return None; },
    };
    let p3: usize = trailing(src, p2, ',', far);
    match closing(src, p3, '}', far) {
        Some(end) => Some((items, end)),
        None => None,
    }
}

/// A class: the word `class`, a label, the traits it encodes, optionally the
/// traits it annotates, and a body.
pub open spec fn class_at(src: Seq<char>, pos: int, far: Far) -> Out<StmtView> {
    let word = padded_at(src, pos, "class"@, far);
    match word.res {
        Some((_, p1)) => {
            let name = label_at(src, p1, word.far);
            match name.res {
                Some((label, p2)) => {
                    let first = encodes_at(src, p2, name.far);
                    match first.res {
                        Some((encodes, p3)) => {
                            let second = annotates_at(src, p3, first.far);
                            match second.res {
                                Some((annotates, p4)) => {
                                    let inner = body_at(src, p4, second.far);
                                    match inner.res {
                                        Some((phonemes, end)) => done(
                                            StmtView::Class {
                                                label,
                                                encodes,
                                                annotates,
                                                phonemes,
                                            },
                                            end,
                                            inner.far,
                                        ),
                                        None => fail(inner.far),
                                    }
                                },
                                None => fail(second.far),
                            }
                        },
                        None => fail(first.far),
                    }
                },
                None => fail(name.far),
            }
        },
        None => fail(word.far),
    }
}

/// Reads a class at `pos`.
pub fn class_definition(src: &[char], pos: usize, far: &mut Furthest) -> (r: Option<(Stmt, usize)>)
    requires
        ready(src@, pos, old(far)@),
    ensures
        holds(r, final(far)@, class_at(src@, pos as int, old(far)@), src@, pos),
        r matches Some((_, end)) ==> pos < end,
{
    let p1: usize = match padded(src, pos, "class", far) {
        Some(p) => p,
        None => { return None; },
    };
    let (label, p2) = match label(src, p1, far) {
        Some(found) => found,
        None => { return None; },
    };
    let (encodes, p3) = match encodes(src, p2, far) {
        Some(found) => found,
        None => { return None; },
    };
    let (annotates, p4) = annotates(src, p3, far);
    match body(src, p4, far) {
        Some((phonemes, end)) => Some((Stmt::Class { label, encodes, annotates, phonemes }, end)),
        None => None,
    }
}

/// Parses one class from the start of `source`; what follows it is not
/// looked at. The statement is well formed, and every span
/// in it is true to the text.
pub fn parser(source: &str) -> (r: Result<Stmt, Vec<ParseError>>)
    ensures
        agrees(r, verdict::<Stmt>(class_at(source@, 0, Far::none()), source@)),
        r matches Ok(stmt) ==> cut_stmt(encode_utf8(source@), stmt@, 0, byte_len(source@) as int),
        r matches Err(errors) ==> errors@.len() == 1 && errors@[0].span.start
            <= errors@[0].span.end <= byte_len(source@),
{
    proof {
        lemma_class(source@);
        if let Some((node, end)) = class_at(source@, 0, Far::none()).res {
            lemma_widen_stmt(source@, node, 0, end, 0, source@.len() as int);
            lemma_cut_stmt(source@, node, 0, source@.len() as int);
            lemma_byte_at(source@, 0, source@.len() as int);
        }
    }
    let src = chars_of(source);
    let total: usize = source.as_bytes().len();
    assert(byte_len(source@) == total);
    let mut far = Furthest::new();
    let r = class_definition(src.as_slice(), 0, &mut far);
    finish(src.as_slice(), r, far, Ghost(class_at(source@, 0, Far::none())))
}

} // verus!
