//! Sound changes: `$ source > target / environment : description`.
//!
//! A target in brackets without a class letter is a modification: it edits
//! the named features of whatever the source matched. Only a bracket with a
//! class letter is a category of a replacement pattern, because the
//! modification is tried first. `[]` is the empty source or target: it is no
//! category, since a category has at least one feature.

use crate::ast::{
    EnvElement, EnvElementView, EnvPattern, Environment, EnvironmentView, Pattern, Segment,
    SegmentView, Source, SourceView, Stmt, StmtView, Target, TargetView,
};
use crate::chars::{chars_of, CharClass};
use crate::error::{Far, Furthest, ParseError};
use crate::bytes::{byte_len, lemma_byte_at};
use crate::cut::{cut_stmt, lemma_cut_stmt};
use crate::exact::{lemma_widen_stmt, lemma_sound_change};
use vstd::utf8::encode_utf8;
use crate::model::{lemma_models_empty, lemma_models_push, spanned, Marked, Model, Spanned};
use crate::parser::common::{category, category_at, features, features_at, word_chars};
use crate::parser::scan::{
    advances, done, ends, fail, holds, lemma_prepend_done, lemma_prepend_empty,
    lemma_prepend_push, padded_symbol, padded_symbol_at, prepend, ready, run_token, symbol,
    symbol_at, text_at, token_at, verdict, agrees, finish, Out,
};
use vstd::prelude::*;

verus! {

/// A segment: a run of phonemes, or else a category.
pub open spec fn segment_at(src: Seq<char>, pos: int, far: Far) -> Out<SegmentView> {
    let word = text_at(src, pos, CharClass::Word, far);
    match word.res {
        Some((text, end)) => done(SegmentView::Phonemes(text), end, word.far),
        None => {
            let cat = category_at(src, pos, word.far);
            match cat.res {
                Some((node, end)) => done(SegmentView::Category(node), end, cat.far),
                None => fail(cat.far),
            }
        },
    }
}

/// Reads a segment.
pub fn segment(src: &[char], pos: usize, far: &mut Furthest) -> (r: Option<(Segment, usize)>)
    requires
        ready(src@, pos, old(far)@),
    ensures
        holds(r, final(far)@, segment_at(src@, pos as int, old(far)@), src@, pos),
        r matches Some((_, end)) ==> pos < end,
{
    match word_chars(src, pos, far) {
        Some((text, end)) => Some((Segment::Phonemes(text), end)),
        None => match category(src, pos, far) {
            Some((node, end)) => Some((Segment::Category(node), end)),
            None => None,
        },
    }
}

/// Segments one after another, as many as there are.
pub open spec fn segments_at(src: Seq<char>, pos: int, far: Far) -> Out<Seq<SegmentView>>
    decreases src.len() - pos,
{
    let first = segment_at(src, pos, far);
    match first.res {
        Some((item, end)) => {
            if advances(src, pos, end) {
                prepend(seq![item], segments_at(src, end, first.far))
            } else {
                done(Seq::empty(), pos, first.far)
            }
        },
        None => done(Seq::empty(), pos, first.far),
    }
}

fn segments(src: &[char], pos: usize, far: &mut Furthest) -> (r: (Vec<Segment>, usize))
    requires
        ready(src@, pos, old(far)@),
    ensures
        holds(Some(r), final(far)@, segments_at(src@, pos as int, old(far)@), src@, pos),
        r.1 <= final(far)@.at,
        r.0@.len() > 0 ==> pos < r.1,
{
    let mut items: Vec<Segment> = Vec::new();
    let mut cur: usize = pos;
    proof {
        lemma_models_empty::<Segment>();
        lemma_prepend_empty(segments_at(src@, pos as int, far@));
    }
    loop
        invariant
            pos <= cur,
            items@.len() > 0 ==> pos < cur,
            ready(src@, cur, far@),
            segments_at(src@, pos as int, old(far)@) == prepend(
                items.model(),
                segments_at(src@, cur as int, far@),
            ),
        decreases src@.len() - cur,
    {
        match segment(src, cur, far) {
            Some((item, end)) => {
                proof {
                    lemma_models_push(items@, item);
                    lemma_prepend_push(
                        items.model(),
                        item.model(),
                        segments_at(src@, end as int, far@),
                    );
                }
                items.push(item);
                cur = end;
            },
            None => {
                proof {
                    lemma_prepend_done(items.model(), cur as int, far@);
                }
                return (items, cur);
            },
        }
    }
}

/// A pattern: one or more segments.
pub open spec fn pattern_at(src: Seq<char>, pos: int, far: Far) -> Out<Seq<SegmentView>> {
    let list = segments_at(src, pos, far);
    match list.res {
        Some((items, end)) => if items.len() == 0 {
            fail(list.far)
        } else {
            list
        },
        None => fail(list.far),
    }
}

/// Reads a pattern.
pub fn pattern(src: &[char], pos: usize, far: &mut Furthest) -> (r: Option<(Pattern, usize)>)
    requires
        ready(src@, pos, old(far)@),
    ensures
        holds(r, final(far)@, pattern_at(src@, pos as int, old(far)@), src@, pos),
        r matches Some((_, end)) ==> pos < end,
{
    let (items, end) = segments(src, pos, far);
    if items.len() == 0 {
        None
    } else {
        Some((items, end))
    }
}

/// The two characters `[]`.
pub open spec fn brackets_at(src: Seq<char>, pos: int, far: Far) -> Out<()> {
    let open = symbol_at(src, pos, '[', far);
    match open.res {
        Some((_, inside)) => symbol_at(src, inside, ']', open.far),
        None => fail(open.far),
    }
}

fn brackets(src: &[char], pos: usize, far: &mut Furthest) -> (r: Option<usize>)
    requires
        ready(src@, pos, old(far)@),
    ensures
        ends(r, final(far)@, brackets_at(src@, pos as int, old(far)@), src@, pos),
        r matches Some(end) ==> end == pos + 2,
{
    match symbol(src, pos, '[', far) {
        Some(inside) => symbol(src, inside, ']', far),
        None => None,
    }
}

/// The empty source, `[]`.
pub open spec fn empty_source_at(src: Seq<char>, pos: int, far: Far) -> Out<SourceView> {
    let pair = brackets_at(src, pos, far);
    match pair.res {
        Some((_, end)) => done(SourceView::Empty, end, pair.far),
        None => fail(pair.far),
    }
}

/// Reads the empty source.
pub fn empty_source(src: &[char], pos: usize, far: &mut Furthest) -> (r: Option<(Source, usize)>)
    requires
        ready(src@, pos, old(far)@),
    ensures
        holds(r, final(far)@, empty_source_at(src@, pos as int, old(far)@), src@, pos),
        r matches Some((_, end)) ==> end == pos + 2,
{
    match brackets(src, pos, far) {
        Some(end) => Some((Source::Empty, end)),
        None => None,
    }
}

/// A source: a pattern, or else the empty source; with its span.
pub open spec fn source_at(src: Seq<char>, pos: int, far: Far) -> Out<Marked<SourceView>> {
    let pat = pattern_at(src, pos, far);
    match pat.res {
        Some((items, end)) => done(
            Marked { start: pos, end, node: SourceView::Pattern(items) },
            end,
            pat.far,
        ),
        None => {
            let empty = empty_source_at(src, pos, pat.far);
            match empty.res {
                Some((node, end)) => done(Marked { start: pos, end, node }, end, empty.far),
                None => fail(empty.far),
            }
        },
    }
}

/// Reads a source with its span.
pub fn source(src: &[char], pos: usize, far: &mut Furthest) -> (r: Option<(Spanned<Source>, usize)>)
    requires
        ready(src@, pos, old(far)@),
    ensures
        holds(r, final(far)@, source_at(src@, pos as int, old(far)@), src@, pos),
        r matches Some((_, end)) ==> pos < end,
{
    match pattern(src, pos, far) {
        Some((items, end)) => Some((spanned(pos, end, Source::Pattern(items)), end)),
        None => match empty_source(src, pos, far) {
            Some((node, end)) => Some((spanned(pos, end, node), end)),
            None => None,
        },
    }
}

/// A modification: in square brackets, one or more features and no class
/// letter.
pub open spec fn modification_at(src: Seq<char>, pos: int, far: Far) -> Out<TargetView> {
    let open = symbol_at(src, pos, '[', far);
    match open.res {
        Some((_, inside)) => {
            let list = features_at(src, inside, open.far);
            match list.res {
                Some((items, end)) => {
                    if items.len() == 0 {
                        fail(list.far)
                    } else {
                        let close = symbol_at(src, end, ']', list.far);
                        match close.res {
                            Some((_, after)) => done(
                                TargetView::Modification(items),
                                after,
                                close.far,
                            ),
                            None => fail(close.far),
                        }
                    }
                },
                None => fail(list.far),
            }
        },
        None => fail(open.far),
    }
}

/// Reads a modification.
pub fn modification(src: &[char], pos: usize, far: &mut Furthest) -> (r: Option<(Target, usize)>)
    requires
        ready(src@, pos, old(far)@),
    ensures
        holds(r, final(far)@, modification_at(src@, pos as int, old(far)@), src@, pos),
        r matches Some((_, end)) ==> pos < end,
{
    match symbol(src, pos, '[', far) {
        Some(inside) => {
            let (items, end) = features(src, inside, far);
            if items.len() == 0 {
                None
            } else {
                match symbol(src, end, ']', far) {
                    Some(after) => Some((Target::Modification(items), after)),
                    None => None,
                }
            }
        },
        None => None,
    }
}

/// The empty target, `[]`.
pub open spec fn empty_target_at(src: Seq<char>, pos: int, far: Far) -> Out<TargetView> {
    let pair = brackets_at(src, pos, far);
    match pair.res {
        Some((_, end)) => done(TargetView::Empty, end, pair.far),
        None => fail(pair.far),
    }
}

/// Reads the empty target.
pub fn empty_target(src: &[char], pos: usize, far: &mut Furthest) -> (r: Option<(Target, usize)>)
    requires
        ready(src@, pos, old(far)@),
    ensures
        holds(r, final(far)@, empty_target_at(src@, pos as int, old(far)@), src@, pos),
        r matches Some((_, end)) ==> end == pos + 2,
{
    match brackets(src, pos, far) {
        Some(end) => Some((Target::Empty, end)),
        None => None,
    }
}

/// A target without its span: a modification, or else a pattern, or else the
/// empty target.
pub open spec fn target_node_at(src: Seq<char>, pos: int, far: Far) -> Out<TargetView> {
    let edit = modification_at(src, pos, far);
    match edit.res {
        Some(_) => edit,
        None => {
            let pat = pattern_at(src, pos, edit.far);
            match pat.res {
                Some((items, end)) => done(TargetView::Pattern(items), end, pat.far),
                None => empty_target_at(src, pos, pat.far),
            }
        },
    }
}

/// A target: a modification, or else a pattern, or else the empty target;
/// with its span.
pub open spec fn target_at(src: Seq<char>, pos: int, far: Far) -> Out<Marked<TargetView>> {
    let inner = target_node_at(src, pos, far);
    match inner.res {
        Some((node, end)) => done(Marked { start: pos, end, node }, end, inner.far),
        None => fail(inner.far),
    }
}

fn target_node(src: &[char], pos: usize, far: &mut Furthest) -> (r: Option<(Target, usize)>)
    requires
        ready(src@, pos, old(far)@),
    ensures
        holds(r, final(far)@, target_node_at(src@, pos as int, old(far)@), src@, pos),
        r matches Some((_, end)) ==> pos < end,
{
    match modification(src, pos, far) {
        Some(found) => Some(found),
        None => match pattern(src, pos, far) {
            Some((items, end)) => Some((Target::Pattern(items), end)),
            None => empty_target(src, pos, far),
        },
    }
}

/// Reads a target with its span.
pub fn target(src: &[char], pos: usize, far: &mut Furthest) -> (r: Option<(Spanned<Target>, usize)>)
    requires
        ready(src@, pos, old(far)@),
    ensures
        holds(r, final(far)@, target_at(src@, pos as int, old(far)@), src@, pos),
        r matches Some((_, end)) ==> pos < end,
{
    match target_node(src, pos, far) {
        Some((node, end)) => Some((spanned(pos, end, node), end)),
        None => None,
    }
}

/// One element of an environment: a segment, or else a syllable boundary
/// `.`, or else a word boundary `#`.
pub open spec fn env_element_at(src: Seq<char>, pos: int, far: Far) -> Out<EnvElementView> {
    let seg = segment_at(src, pos, far);
    match seg.res {
        Some((node, end)) => done(EnvElementView::Segment(node), end, seg.far),
        None => {
            let dot = symbol_at(src, pos, '.', seg.far);
            match dot.res {
                Some((_, end)) => done(EnvElementView::SyllableBoundary, end, dot.far),
                None => {
                    let hash = symbol_at(src, pos, '#', dot.far);
                    match hash.res {
                        Some((_, end)) => done(EnvElementView::WordBoundary, end, hash.far),
                        None => fail(hash.far),
                    }
                },
            }
        },
    }
}

fn env_element(src: &[char], pos: usize, far: &mut Furthest) -> (r: Option<(EnvElement, usize)>)
    requires
        ready(src@, pos, old(far)@),
    ensures
        holds(r, final(far)@, env_element_at(src@, pos as int, old(far)@), src@, pos),
        r matches Some((_, end)) ==> pos < end,
{
    match segment(src, pos, far) {
        Some((node, end)) => Some((EnvElement::Segment(node), end)),
        None => match symbol(src, pos, '.', far) {
            Some(end) => Some((EnvElement::SyllableBoundary, end)),
            None => match symbol(src, pos, '#', far) {
                Some(end) => Some((EnvElement::WordBoundary, end)),
                None => None,
            },
        },
    }
}

/// Environment elements one after another, as many as there are.
pub open spec fn env_elements_at(src: Seq<char>, pos: int, far: Far) -> Out<Seq<EnvElementView>>
    decreases src.len() - pos,
{
    let first = env_element_at(src, pos, far);
    match first.res {
        Some((item, end)) => {
            if advances(src, pos, end) {
                prepend(seq![item], env_elements_at(src, end, first.far))
            } else {
                done(Seq::empty(), pos, first.far)
            }
        },
        None => done(Seq::empty(), pos, first.far),
    }
}

fn env_elements(src: &[char], pos: usize, far: &mut Furthest) -> (r: (Vec<EnvElement>, usize))
    requires
        ready(src@, pos, old(far)@),
    ensures
        holds(Some(r), final(far)@, env_elements_at(src@, pos as int, old(far)@), src@, pos),
        r.1 <= final(far)@.at,
        r.0@.len() > 0 ==> pos < r.1,
{
    let mut items: Vec<EnvElement> = Vec::new();
    let mut cur: usize = pos;
    proof {
        lemma_models_empty::<EnvElement>();
        lemma_prepend_empty(env_elements_at(src@, pos as int, far@));
    }
    loop
        invariant
            pos <= cur,
            items@.len() > 0 ==> pos < cur,
            ready(src@, cur, far@),
            env_elements_at(src@, pos as int, old(far)@) == prepend(
                items.model(),
                env_elements_at(src@, cur as int, far@),
            ),
        decreases src@.len() - cur,
    {
        match env_element(src, cur, far) {
            Some((item, end)) => {
                proof {
                    lemma_models_push(items@, item);
                    lemma_prepend_push(
                        items.model(),
                        item.model(),
                        env_elements_at(src@, end as int, far@),
                    );
                }
                items.push(item);
                cur = end;
            },
            None => {
                proof {
                    lemma_prepend_done(items.model(), cur as int, far@);
                }
                return (items, cur);
            },
        }
    }
}

/// An environment pattern: one or more elements.
pub open spec fn env_pattern_at(src: Seq<char>, pos: int, far: Far) -> Out<Seq<EnvElementView>> {
    let list = env_elements_at(src, pos, far);
    match list.res {
        Some((items, end)) => if items.len() == 0 {
            fail(list.far)
        } else {
            list
        },
        None => fail(list.far),
    }
}

/// Reads an environment pattern.
pub fn env_pattern(src: &[char], pos: usize, far: &mut Furthest) -> (r: Option<(EnvPattern, usize)>)
    requires
        ready(src@, pos, old(far)@),
    ensures
        holds(r, final(far)@, env_pattern_at(src@, pos as int, old(far)@), src@, pos),
        r matches Some((_, end)) ==> pos < end,
{
    let (items, end) = env_elements(src, pos, far);
    if items.len() == 0 {
        None
    } else {
        Some((items, end))
    }
}

/// An environment pattern, if one stands at `pos`.
pub open spec fn env_side_at(src: Seq<char>, pos: int, far: Far) -> Out<
    Option<Seq<EnvElementView>>,
> {
    let side = env_pattern_at(src, pos, far);
    match side.res {
        Some((items, end)) => done(Some(items), end, side.far),
        None => done(None, pos, side.far),
    }
}

fn env_side(src: &[char], pos: usize, far: &mut Furthest) -> (r: (Option<EnvPattern>, usize))
    requires
        ready(src@, pos, old(far)@),
    ensures
        holds(Some(r), final(far)@, env_side_at(src@, pos as int, old(far)@), src@, pos),
{
    match env_pattern(src, pos, far) {
        Some((items, end)) => (Some(items), end),
        None => (None, pos),
    }
}

/// An environment: the focus `_`, with an optional pattern before it and an
/// optional pattern after it. The span runs from the first element, or the
/// focus, to the last element, or the focus.
pub open spec fn environment_at(src: Seq<char>, pos: int, far: Far) -> Out<
    Marked<EnvironmentView>,
> {
    let before = env_side_at(src, pos, far);
    match before.res {
        Some((left, at)) => {
            let focus = symbol_at(src, at, '_', before.far);
            match focus.res {
                Some((_, next)) => {
                    let after = env_side_at(src, next, focus.far);
                    match after.res {
                        Some((right, end)) => done(
                            Marked {
                                start: pos,
                                end,
                                node: EnvironmentView { before: left, after: right },
                            },
                            end,
                            after.far,
                        ),
                        None => fail(after.far),
                    }
                },
                None => fail(focus.far),
            }
        },
        None => fail(before.far),
    }
}

/// Reads an environment with its span.
pub fn environment(src: &[char], pos: usize, far: &mut Furthest) -> (r: Option<
    (Spanned<Environment>, usize),
>)
    requires
        ready(src@, pos, old(far)@),
    ensures
        holds(r, final(far)@, environment_at(src@, pos as int, old(far)@), src@, pos),
        r matches Some((_, end)) ==> pos < end,
{
    let (left, at) = env_side(src, pos, far);
    match symbol(src, at, '_', far) {
        Some(next) => {
            let (right, end) = env_side(src, next, far);
            Some((spanned(pos, end, Environment { before: left, after: right }), end))
        },
        None => None,
    }
}

/// The part `/ environment`, if it stands at `pos`.
pub open spec fn context_at(src: Seq<char>, pos: int, far: Far) -> Out<
    Option<Marked<EnvironmentView>>,
> {
    let slash = padded_symbol_at(src, pos, '/', far);
    match slash.res {
        Some((_, at)) => {
            let env = environment_at(src, at, slash.far);
            match env.res {
                Some((node, end)) => done(Some(node), end, env.far),
                None => done(None, pos, env.far),
            }
        },
        None => done(None, pos, slash.far),
    }
}

fn context(src: &[char], pos: usize, far: &mut Furthest) -> (r: (
    Option<Spanned<Environment>>,
    usize,
))
    requires
        ready(src@, pos, old(far)@),
    ensures
        holds(Some(r), final(far)@, context_at(src@, pos as int, old(far)@), src@, pos),
{
    match padded_symbol(src, pos, '/', far) {
        Some(at) => match environment(src, at, far) {
            Some((node, end)) => (Some(node), end),
            None => (None, pos),
        },
        None => (None, pos),
    }
}

/// The part `: free text`, if it stands at `pos`.
pub open spec fn remark_at(src: Seq<char>, pos: int, far: Far) -> Out<Option<Marked<Seq<char>>>> {
    let colon = padded_symbol_at(src, pos, ':', far);
    match colon.res {
        Some((_, at)) => {
            let words = token_at(src, at, CharClass::FreeText, colon.far);
            match words.res {
                Some((node, end)) => done(Some(node), end, words.far),
                None => done(None, pos, words.far),
            }
        },
        None => done(None, pos, colon.far),
    }
}

/// Reads the part `: free text`, if it stands at `pos`.
pub fn remark(src: &[char], pos: usize, far: &mut Furthest) -> (r: (Option<Spanned<String>>, usize))
    requires
        ready(src@, pos, old(far)@),
    ensures
        holds(Some(r), final(far)@, remark_at(src@, pos as int, old(far)@), src@, pos),
{
    match padded_symbol(src, pos, ':', far) {
        Some(at) => match run_token(src, at, CharClass::FreeText, far) {
            Some((node, end)) => (Some(node), end),
            None => (None, pos),
        },
        None => (None, pos),
    }
}

/// A sound change: `$`, a source, `>`, a target, and then optionally `/`
/// with an environment and optionally `:` with a description. The marks may
/// have white space around them.
pub open spec fn sound_change_at(src: Seq<char>, pos: int, far: Far) -> Out<StmtView> {
    let dollar = padded_symbol_at(src, pos, '$', far);
    match dollar.res {
        Some((_, p1)) => {
            let from = source_at(src, p1, dollar.far);
            match from.res {
                Some((source, p2)) => {
                    let arrow = padded_symbol_at(src, p2, '>', from.far);
                    match arrow.res {
                        Some((_, p3)) => {
                            let to = target_at(src, p3, arrow.far);
                            match to.res {
                                Some((target, p4)) => {
                                    let env = context_at(src, p4, to.far);
                                    match env.res {
                                        Some((environment, p5)) => {
                                            let note = remark_at(src, p5, env.far);
                                            match note.res {
                                                Some((description, end)) => done(
                                                    StmtView::SoundChange {
                                                        source,
                                                        target,
                                                        environment,
                                                        description,
                                                    },
                                                    end,
                                                    note.far,
                                                ),
                                                None => fail(note.far),
                                            }
                                        },
                                        None => fail(env.far),
                                    }
                                },
                                None => fail(to.far),
                            }
                        },
                        None => fail(arrow.far),
                    }
                },
                None => fail(from.far),
            }
        },
        None => fail(dollar.far),
    }
}

/// Reads a sound change at `pos`.
pub fn sound_change(src: &[char], pos: usize, far: &mut Furthest) -> (r: Option<(Stmt, usize)>)
    requires
        ready(src@, pos, old(far)@),
    ensures
        holds(r, final(far)@, sound_change_at(src@, pos as int, old(far)@), src@, pos),
        r matches Some((_, end)) ==> pos < end,
{
    let p1: usize = match padded_symbol(src, pos, '$', far) {
        Some(p) => p,
        None => { return None; },
    };
    let (source, p2) = match source(src, p1, far) {
        Some(found) => found,
        None => { return None; },
    };
    let p3: usize = match padded_symbol(src, p2, '>', far) {
        Some(p) => p,
        None => { return None; },
    };
    let (target, p4) = match target(src, p3, far) {
        Some(found) => found,
        None => { return None; },
    };
    let (environment, p5) = context(src, p4, far);
    let (description, end) = remark(src, p5, far);
    Some((Stmt::SoundChange { source, target, environment, description }, end))
}

/// Parses one sound change from the start of `source`; what follows it is
/// not looked at. The statement is well formed, and every span
/// in it is true to the text.
pub fn parser(source: &str) -> (r: Result<Stmt, Vec<ParseError>>)
    ensures
        agrees(r, verdict::<Stmt>(sound_change_at(source@, 0, Far::none()), source@)),
        r matches Ok(stmt) ==> cut_stmt(encode_utf8(source@), stmt@, 0, byte_len(source@) as int),
        r matches Err(errors) ==> errors@.len() == 1 && errors@[0].span.start
            <= errors@[0].span.end <= byte_len(source@),
{
    proof {
        lemma_sound_change(source@);
        if let Some((node, end)) = sound_change_at(source@, 0, Far::none()).res {
            lemma_widen_stmt(source@, node, 0, end, 0, source@.len() as int);
            lemma_cut_stmt(source@, node, 0, source@.len() as int);
            lemma_byte_at(source@, 0, source@.len() as int);
        }
    }
    let src = chars_of(source);
    let total: usize = source.as_bytes().len();
    assert(byte_len(source@) == total);
    let mut far = Furthest::new();
    let r = sound_change(src.as_slice(), 0, &mut far);
    finish(src.as_slice(), r, far, Ghost(sound_change_at(source@, 0, Far::none())))
}

} // verus!
