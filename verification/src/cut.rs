//! What is read is well formed and true to the text, in bytes.
//!
//! The spans that [`crate::parse`] returns count bytes of the UTF-8 text.
//! The predicates of this module say of each kind of node that the bytes
//! between its offsets are the text it holds, that no piece of text is empty
//! and no list that must hold an item, that every span lies within the span
//! of its statement, and that the statements follow one another. The lemmas
//! carry each of these over from the offsets in characters, of which
//! [`crate::exact`] proves them.

use crate::ast::{
    Category, CategoryView, Definition, DefinitionView, EnvElement, EnvElementView, Environment,
    EnvironmentView, Feature, FeatureView, PhonemeDef, PhonemeDefView, Segment, SegmentView,
    Series, SeriesView, Source, SourceView, Stmt, StmtView, Target, TargetView, Time, TimeView,
    TraitMember, TraitMemberView,
};
use crate::bytes::{byte_at, lemma_byte_at, InBytes};
use crate::exact::{
    exact, exact_all, exact_category, exact_context, exact_definition, exact_definitions,
    exact_element, exact_elements, exact_environment, exact_feature, exact_features, exact_label,
    exact_letter, exact_member, exact_members, exact_opt, exact_phoneme, exact_phonemes,
    exact_program, exact_segment, exact_segments, exact_series, exact_side, exact_source,
    exact_stmt, exact_target, exact_time, full, lemma_root, name_of, sign_of, within,
};
use crate::error::Far;
use crate::model::{Marked, Spanned};
use crate::parser::{program, root_at};
use vstd::prelude::*;
use vstd::utf8::encode_utf8;

verus! {

/// The bytes between the node's offsets are the UTF-8 text of the node, which
/// is not empty.
pub open spec fn cut(bytes: Seq<u8>, m: Marked<Seq<char>>, lo: int, hi: int) -> bool {
    &&& within(lo, hi, m.start, m.end)
    &&& m.start < m.end
    &&& bytes.subrange(m.start, m.end) == encode_utf8(m.node)
}

pub open spec fn cut_opt(bytes: Seq<u8>, o: Option<Marked<Seq<char>>>, lo: int, hi: int) -> bool {
    o matches Some(m) ==> cut(bytes, m, lo, hi)
}

pub open spec fn cut_all(bytes: Seq<u8>, items: Seq<Marked<Seq<char>>>, lo: int, hi: int) -> bool {
    forall|i: int| 0 <= i < items.len() ==> cut(bytes, #[trigger] items[i], lo, hi)
}

/// The bytes between the node's offsets are the one letter of the node, an
/// ASCII upper-case letter.
pub open spec fn cut_letter(bytes: Seq<u8>, m: Marked<char>, lo: int, hi: int) -> bool {
    &&& lo <= m.start < m.end <= hi
    &&& bytes.subrange(m.start, m.end) == encode_utf8(seq![m.node])
    &&& 'A' <= m.node <= 'Z'
}

/// The bytes between the node's offsets are one ASCII upper-case letter, the
/// text of the node.
pub open spec fn cut_label(bytes: Seq<u8>, m: Marked<Seq<char>>, lo: int, hi: int) -> bool {
    cut(bytes, m, lo, hi) && m.node.len() == 1 && 'A' <= m.node[0] <= 'Z'
}

/// The bytes between the node's offsets are the feature's sign and, after
/// it, the feature's name, which is not empty.
pub open spec fn cut_feature(bytes: Seq<u8>, m: Marked<FeatureView>, lo: int, hi: int) -> bool {
    &&& lo <= m.start < m.end <= hi
    &&& name_of(m.node).len() > 0
    &&& bytes.subrange(m.start, m.end) == encode_utf8(seq![sign_of(m.node)] + name_of(m.node))
}

pub open spec fn cut_features(bytes: Seq<u8>, items: Seq<Marked<FeatureView>>, lo: int, hi: int) -> bool {
    forall|i: int| 0 <= i < items.len() ==> cut_feature(bytes, #[trigger] items[i], lo, hi)
}

/// A category has at least one feature.
pub open spec fn cut_category(bytes: Seq<u8>, category: CategoryView, lo: int, hi: int) -> bool {
    &&& category.base_class matches Some(m) ==> cut_letter(bytes, m, lo, hi)
    &&& category.features.len() > 0
    &&& cut_features(bytes, category.features, lo, hi)
}

pub open spec fn cut_segment(bytes: Seq<u8>, segment: SegmentView, lo: int, hi: int) -> bool {
    match segment {
        SegmentView::Category(category) => cut_category(bytes, category, lo, hi),
        SegmentView::Phonemes(text) => text.len() > 0,
    }
}

pub open spec fn cut_segments(bytes: Seq<u8>, items: Seq<SegmentView>, lo: int, hi: int) -> bool {
    forall|i: int| 0 <= i < items.len() ==> cut_segment(bytes, #[trigger] items[i], lo, hi)
}

/// A pattern has at least one segment.
pub open spec fn cut_source(bytes: Seq<u8>, m: Marked<SourceView>, lo: int, hi: int) -> bool {
    &&& within(lo, hi, m.start, m.end)
    &&& m.node matches SourceView::Pattern(items) ==> items.len() > 0 && cut_segments(bytes, items, lo, hi)
}

pub open spec fn cut_target(bytes: Seq<u8>, m: Marked<TargetView>, lo: int, hi: int) -> bool {
    &&& within(lo, hi, m.start, m.end)
    &&& match m.node {
        TargetView::Modification(items) => items.len() > 0 && cut_features(bytes, items, lo, hi),
        TargetView::Pattern(items) => items.len() > 0 && cut_segments(bytes, items, lo, hi),
        TargetView::Empty => true,
    }
}

pub open spec fn cut_element(bytes: Seq<u8>, element: EnvElementView, lo: int, hi: int) -> bool {
    element matches EnvElementView::Segment(segment) ==> cut_segment(bytes, segment, lo, hi)
}

pub open spec fn cut_elements(bytes: Seq<u8>, items: Seq<EnvElementView>, lo: int, hi: int) -> bool {
    forall|i: int| 0 <= i < items.len() ==> cut_element(bytes, #[trigger] items[i], lo, hi)
}

/// A side of an environment that is there has at least one element.
pub open spec fn cut_side(bytes: Seq<u8>, side: Option<Seq<EnvElementView>>, lo: int, hi: int) -> bool {
    side matches Some(items) ==> items.len() > 0 && cut_elements(bytes, items, lo, hi)
}

pub open spec fn cut_environment(bytes: Seq<u8>, m: Marked<EnvironmentView>, lo: int, hi: int) -> bool {
    &&& within(lo, hi, m.start, m.end)
    &&& cut_side(bytes, m.node.before, lo, hi)
    &&& cut_side(bytes, m.node.after, lo, hi)
}

pub open spec fn cut_definition(bytes: Seq<u8>, definition: DefinitionView, lo: int, hi: int) -> bool {
    cut_opt(bytes, definition.pos, lo, hi) && cut(bytes, definition.definition, lo, hi)
}

pub open spec fn cut_definitions(bytes: Seq<u8>, items: Seq<DefinitionView>, lo: int, hi: int) -> bool {
    forall|i: int| 0 <= i < items.len() ==> cut_definition(bytes, #[trigger] items[i], lo, hi)
}

pub open spec fn cut_phoneme(bytes: Seq<u8>, m: Marked<PhonemeDefView>, lo: int, hi: int) -> bool {
    &&& within(lo, hi, m.start, m.end)
    &&& cut(bytes, m.node.label, lo, hi)
    &&& cut_all(bytes, m.node.traits, lo, hi)
}

pub open spec fn cut_phonemes(bytes: Seq<u8>, items: Seq<Marked<PhonemeDefView>>, lo: int, hi: int) -> bool {
    forall|i: int| 0 <= i < items.len() ==> cut_phoneme(bytes, #[trigger] items[i], lo, hi)
}

/// A member has at least one label.
pub open spec fn cut_member(bytes: Seq<u8>, m: Marked<TraitMemberView>, lo: int, hi: int) -> bool {
    &&& within(lo, hi, m.start, m.end)
    &&& m.node.labels.len() > 0
    &&& cut_all(bytes, m.node.labels, lo, hi)
    &&& cut_opt(bytes, m.node.notation, lo, hi)
}

pub open spec fn cut_members(bytes: Seq<u8>, items: Seq<Marked<TraitMemberView>>, lo: int, hi: int) -> bool {
    forall|i: int| 0 <= i < items.len() ==> cut_member(bytes, #[trigger] items[i], lo, hi)
}

pub open spec fn cut_series(bytes: Seq<u8>, m: Marked<SeriesView>, lo: int, hi: int) -> bool {
    &&& within(lo, hi, m.start, m.end)
    &&& match m.node {
        SeriesView::Category(category) => cut_category(bytes, category, lo, hi),
        SeriesView::List(items) => items.len() > 0 && cut_all(bytes, items, lo, hi),
    }
}

pub open spec fn cut_time(bytes: Seq<u8>, o: Option<Marked<TimeView>>, lo: int, hi: int) -> bool {
    o matches Some(m) ==> within(lo, hi, m.start, m.end)
}

pub open spec fn cut_context(bytes: Seq<u8>, o: Option<Marked<EnvironmentView>>, lo: int, hi: int) -> bool {
    o matches Some(m) ==> cut_environment(bytes, m, lo, hi)
}

/// The statement is well formed, and every span in it is true to the source.
pub open spec fn cut_stmt(bytes: Seq<u8>, stmt: StmtView, lo: int, hi: int) -> bool {
    match stmt {
        StmtView::SoundChange { source, target, environment, description } => {
            &&& cut_source(bytes, source, lo, hi)
            &&& cut_target(bytes, target, lo, hi)
            &&& cut_context(bytes, environment, lo, hi)
            &&& cut_opt(bytes, description, lo, hi)
        },
        StmtView::Import { path, absolute, names } => {
            &&& path.len() > 0
            &&& cut_all(bytes, path, lo, hi)
            &&& cut_all(bytes, names, lo, hi)
        },
        StmtView::Language { id, parent, name } => {
            &&& cut(bytes, id, lo, hi)
            &&& cut_opt(bytes, parent, lo, hi)
            &&& cut_opt(bytes, name, lo, hi)
        },
        StmtView::Word { gloss, pronunciation, definitions } => {
            &&& cut(bytes, gloss, lo, hi)
            &&& within(lo, hi, pronunciation.start, pronunciation.end)
            &&& pronunciation.node.len() > 0
            &&& full(pronunciation.node)
            &&& definitions.len() > 0
            &&& cut_definitions(bytes, definitions, lo, hi)
        },
        StmtView::Class { label, encodes, annotates, phonemes } => {
            &&& cut_label(bytes, label, lo, hi)
            &&& encodes.len() > 0
            &&& cut_all(bytes, encodes, lo, hi)
            &&& cut_all(bytes, annotates, lo, hi)
            &&& phonemes.len() > 0
            &&& cut_phonemes(bytes, phonemes, lo, hi)
        },
        StmtView::Series { label, series } => {
            &&& cut_label(bytes, label, lo, hi)
            &&& cut_series(bytes, series, lo, hi)
        },
        StmtView::Trait { label, members } => {
            &&& cut(bytes, label, lo, hi)
            &&& members.len() > 0
            &&& cut_members(bytes, members, lo, hi)
        },
        StmtView::Milestone { time, language } => {
            &&& time is Some || language is Some
            &&& cut_time(bytes, time, lo, hi)
            &&& cut_opt(bytes, language, lo, hi)
        },
    }
}

/// Every statement of the program is well formed and has a span that is not
/// empty; the statements follow one another in the source without overlap;
/// and every span in a statement lies within the statement's span and is
/// true to the source.
pub open spec fn cut_program(bytes: Seq<u8>, stmts: Seq<Marked<StmtView>>, lo: int, hi: int) -> bool {
    &&& forall|i: int|
        0 <= i < stmts.len() ==> lo <= (#[trigger] stmts[i]).start < stmts[i].end <= hi
            && cut_stmt(bytes, stmts[i].node, stmts[i].start, stmts[i].end)
    &&& forall|i: int, j: int|
        0 <= i < j < stmts.len() ==> (#[trigger] stmts[i]).end <= (#[trigger] stmts[j]).start
}

/// A piece of text that is true to the source in characters is so in bytes.
pub proof fn lemma_cut(src: Seq<char>, v: Marked<Seq<char>>, lo: int, hi: int)
    requires
        0 <= lo <= hi <= src.len(),
        exact(src, v, lo, hi),
    ensures
        cut(
            encode_utf8(src),
            <Spanned<String> as InBytes>::bytes_of(v, src),
            byte_at(src, lo),
            byte_at(src, hi),
        ),
{
    lemma_byte_at(src, lo, v.start);
    lemma_byte_at(src, v.start, v.end);
    lemma_byte_at(src, v.end, hi);
}

/// A label that is true to the source in characters is so in bytes.
pub proof fn lemma_cut_label(src: Seq<char>, v: Marked<Seq<char>>, lo: int, hi: int)
    requires
        0 <= lo <= hi <= src.len(),
        exact_label(src, v, lo, hi),
    ensures
        cut_label(
            encode_utf8(src),
            <Spanned<String> as InBytes>::bytes_of(v, src),
            byte_at(src, lo),
            byte_at(src, hi),
        ),
{
    lemma_cut(src, v, lo, hi);
}

/// A letter that is true to the source in characters is so in bytes.
pub proof fn lemma_cut_letter(src: Seq<char>, v: Marked<char>, lo: int, hi: int)
    requires
        0 <= lo <= hi <= src.len(),
        exact_letter(src, v, lo, hi),
    ensures
        cut_letter(
            encode_utf8(src),
            <Spanned<char> as InBytes>::bytes_of(v, src),
            byte_at(src, lo),
            byte_at(src, hi),
        ),
{
    lemma_byte_at(src, lo, v.start);
    lemma_byte_at(src, v.start, v.end);
    lemma_byte_at(src, v.end, hi);
    assert(src.subrange(v.start, v.end) =~= seq![v.node]);
}

/// A feature that is true to the source in characters is so in bytes.
pub proof fn lemma_cut_feature(src: Seq<char>, v: Marked<FeatureView>, lo: int, hi: int)
    requires
        0 <= lo <= hi <= src.len(),
        exact_feature(src, v, lo, hi),
    ensures
        cut_feature(
            encode_utf8(src),
            <Spanned<Feature> as InBytes>::bytes_of(v, src),
            byte_at(src, lo),
            byte_at(src, hi),
        ),
{
    lemma_byte_at(src, lo, v.start);
    lemma_byte_at(src, v.start, v.end);
    lemma_byte_at(src, v.end, hi);
    assert(src.subrange(v.start, v.end) =~= seq![sign_of(v.node)] + name_of(v.node)) by {
        assert(src.subrange(v.start + 1, v.end) == name_of(v.node));
        assert forall|k: int| 0 <= k < v.end - v.start implies src.subrange(v.start, v.end)[k] == (
        seq![sign_of(v.node)] + name_of(v.node))[k] by {
            if k > 0 {
                assert(src.subrange(v.start + 1, v.end)[k - 1] == src[v.start + k]);
            }
        }
    }
    assert(name_of(<Spanned<Feature> as InBytes>::bytes_of(v, src).node) == name_of(v.node));
    assert(sign_of(<Spanned<Feature> as InBytes>::bytes_of(v, src).node) == sign_of(v.node));
}

/// An optional piece of text that is true to the source in characters is so in bytes.
pub proof fn lemma_cut_opt(src: Seq<char>, v: Option<Marked<Seq<char>>>, lo: int, hi: int)
    requires
        0 <= lo <= hi <= src.len(),
        exact_opt(src, v, lo, hi),
    ensures
        cut_opt(
            encode_utf8(src),
            <Option<Spanned<String>> as InBytes>::bytes_of(v, src),
            byte_at(src, lo),
            byte_at(src, hi),
        ),
{
    if let Some(m) = v {
        lemma_cut(src, m, lo, hi);
    }
}

/// Pieces of text that are true to the source in characters are so in bytes.
pub proof fn lemma_cut_all(src: Seq<char>, v: Seq<Marked<Seq<char>>>, lo: int, hi: int)
    requires
        0 <= lo <= hi <= src.len(),
        exact_all(src, v, lo, hi),
    ensures
        cut_all(
            encode_utf8(src),
            <Vec<Spanned<String>> as InBytes>::bytes_of(v, src),
            byte_at(src, lo),
            byte_at(src, hi),
        ),
        <Vec<Spanned<String>> as InBytes>::bytes_of(v, src).len() == v.len(),
{
    let moved = <Vec<Spanned<String>> as InBytes>::bytes_of(v, src);
    assert forall|i: int| 0 <= i < moved.len() implies cut(
        encode_utf8(src),
        #[trigger] moved[i],
        byte_at(src, lo),
        byte_at(src, hi),
    ) by {
        lemma_cut(src, v[i], lo, hi);
    }
}

/// Features that are true to the source in characters are so in bytes.
pub proof fn lemma_cut_features(src: Seq<char>, v: Seq<Marked<FeatureView>>, lo: int, hi: int)
    requires
        0 <= lo <= hi <= src.len(),
        exact_features(src, v, lo, hi),
    ensures
        cut_features(
            encode_utf8(src),
            <Vec<Spanned<Feature>> as InBytes>::bytes_of(v, src),
            byte_at(src, lo),
            byte_at(src, hi),
        ),
        <Vec<Spanned<Feature>> as InBytes>::bytes_of(v, src).len() == v.len(),
{
    let moved = <Vec<Spanned<Feature>> as InBytes>::bytes_of(v, src);
    assert forall|i: int| 0 <= i < moved.len() implies cut_feature(
        encode_utf8(src),
        #[trigger] moved[i],
        byte_at(src, lo),
        byte_at(src, hi),
    ) by {
        lemma_cut_feature(src, v[i], lo, hi);
    }
}

/// A category that is true to the source in characters is so in bytes.
pub proof fn lemma_cut_category(src: Seq<char>, v: CategoryView, lo: int, hi: int)
    requires
        0 <= lo <= hi <= src.len(),
        exact_category(src, v, lo, hi),
    ensures
        cut_category(
            encode_utf8(src),
            <Category as InBytes>::bytes_of(v, src),
            byte_at(src, lo),
            byte_at(src, hi),
        ),
{
    if let Some(m) = v.base_class {
        lemma_cut_letter(src, m, lo, hi);
    }
    lemma_cut_features(src, v.features, lo, hi);
}

/// A segment that is true to the source in characters is so in bytes.
pub proof fn lemma_cut_segment(src: Seq<char>, v: SegmentView, lo: int, hi: int)
    requires
        0 <= lo <= hi <= src.len(),
        exact_segment(src, v, lo, hi),
    ensures
        cut_segment(
            encode_utf8(src),
            <Segment as InBytes>::bytes_of(v, src),
            byte_at(src, lo),
            byte_at(src, hi),
        ),
{
    if let SegmentView::Category(category) = v {
        lemma_cut_category(src, category, lo, hi);
    }
}

/// Segments that are true to the source in characters are so in bytes.
pub proof fn lemma_cut_segments(src: Seq<char>, v: Seq<SegmentView>, lo: int, hi: int)
    requires
        0 <= lo <= hi <= src.len(),
        exact_segments(src, v, lo, hi),
    ensures
        cut_segments(
            encode_utf8(src),
            <Vec<Segment> as InBytes>::bytes_of(v, src),
            byte_at(src, lo),
            byte_at(src, hi),
        ),
        <Vec<Segment> as InBytes>::bytes_of(v, src).len() == v.len(),
{
    let moved = <Vec<Segment> as InBytes>::bytes_of(v, src);
    assert forall|i: int| 0 <= i < moved.len() implies cut_segment(
        encode_utf8(src),
        #[trigger] moved[i],
        byte_at(src, lo),
        byte_at(src, hi),
    ) by {
        lemma_cut_segment(src, v[i], lo, hi);
    }
}

/// A source that is true to the text in characters is so in bytes.
pub proof fn lemma_cut_source(src: Seq<char>, v: Marked<SourceView>, lo: int, hi: int)
    requires
        0 <= lo <= hi <= src.len(),
        exact_source(src, v, lo, hi),
    ensures
        cut_source(
            encode_utf8(src),
            <Spanned<Source> as InBytes>::bytes_of(v, src),
            byte_at(src, lo),
            byte_at(src, hi),
        ),
{
    lemma_byte_at(src, lo, v.start);
    lemma_byte_at(src, v.start, v.end);
    lemma_byte_at(src, v.end, hi);
    if let SourceView::Pattern(items) = v.node {
        lemma_cut_segments(src, items, lo, hi);
    }
}

/// A target that is true to the source in characters is so in bytes.
pub proof fn lemma_cut_target(src: Seq<char>, v: Marked<TargetView>, lo: int, hi: int)
    requires
        0 <= lo <= hi <= src.len(),
        exact_target(src, v, lo, hi),
    ensures
        cut_target(
            encode_utf8(src),
            <Spanned<Target> as InBytes>::bytes_of(v, src),
            byte_at(src, lo),
            byte_at(src, hi),
        ),
{
    lemma_byte_at(src, lo, v.start);
    lemma_byte_at(src, v.start, v.end);
    lemma_byte_at(src, v.end, hi);
    match v.node {
        TargetView::Modification(items) => {
            lemma_cut_features(src, items, lo, hi);
        },
        TargetView::Pattern(items) => {
            lemma_cut_segments(src, items, lo, hi);
        },
        TargetView::Empty => {},
    }
}

/// An element of an environment that is true to the source in characters is so in bytes.
pub proof fn lemma_cut_element(src: Seq<char>, v: EnvElementView, lo: int, hi: int)
    requires
        0 <= lo <= hi <= src.len(),
        exact_element(src, v, lo, hi),
    ensures
        cut_element(
            encode_utf8(src),
            <EnvElement as InBytes>::bytes_of(v, src),
            byte_at(src, lo),
            byte_at(src, hi),
        ),
{
    if let EnvElementView::Segment(segment) = v {
        lemma_cut_segment(src, segment, lo, hi);
    }
}

/// Elements of an environment that are true to the source in characters are so in bytes.
pub proof fn lemma_cut_elements(src: Seq<char>, v: Seq<EnvElementView>, lo: int, hi: int)
    requires
        0 <= lo <= hi <= src.len(),
        exact_elements(src, v, lo, hi),
    ensures
        cut_elements(
            encode_utf8(src),
            <Vec<EnvElement> as InBytes>::bytes_of(v, src),
            byte_at(src, lo),
            byte_at(src, hi),
        ),
        <Vec<EnvElement> as InBytes>::bytes_of(v, src).len() == v.len(),
{
    let moved = <Vec<EnvElement> as InBytes>::bytes_of(v, src);
    assert forall|i: int| 0 <= i < moved.len() implies cut_element(
        encode_utf8(src),
        #[trigger] moved[i],
        byte_at(src, lo),
        byte_at(src, hi),
    ) by {
        lemma_cut_element(src, v[i], lo, hi);
    }
}

/// A side of an environment that is true to the source in characters is so in bytes.
pub proof fn lemma_cut_side(src: Seq<char>, v: Option<Seq<EnvElementView>>, lo: int, hi: int)
    requires
        0 <= lo <= hi <= src.len(),
        exact_side(src, v, lo, hi),
    ensures
        cut_side(
            encode_utf8(src),
            <Option<Vec<EnvElement>> as InBytes>::bytes_of(v, src),
            byte_at(src, lo),
            byte_at(src, hi),
        ),
{
    if let Some(items) = v {
        lemma_cut_elements(src, items, lo, hi);
    }
}

/// An environment that is true to the source in characters is so in bytes.
pub proof fn lemma_cut_environment(src: Seq<char>, v: Marked<EnvironmentView>, lo: int, hi: int)
    requires
        0 <= lo <= hi <= src.len(),
        exact_environment(src, v, lo, hi),
    ensures
        cut_environment(
            encode_utf8(src),
            <Spanned<Environment> as InBytes>::bytes_of(v, src),
            byte_at(src, lo),
            byte_at(src, hi),
        ),
{
    lemma_byte_at(src, lo, v.start);
    lemma_byte_at(src, v.start, v.end);
    lemma_byte_at(src, v.end, hi);
    lemma_cut_side(src, v.node.before, lo, hi);
    lemma_cut_side(src, v.node.after, lo, hi);
}

/// A definition that is true to the source in characters is so in bytes.
pub proof fn lemma_cut_definition(src: Seq<char>, v: DefinitionView, lo: int, hi: int)
    requires
        0 <= lo <= hi <= src.len(),
        exact_definition(src, v, lo, hi),
    ensures
        cut_definition(
            encode_utf8(src),
            <Definition as InBytes>::bytes_of(v, src),
            byte_at(src, lo),
            byte_at(src, hi),
        ),
{
    lemma_cut_opt(src, v.pos, lo, hi);
    lemma_cut(src, v.definition, lo, hi);
}

/// Definitions that are true to the source in characters are so in bytes.
pub proof fn lemma_cut_definitions(src: Seq<char>, v: Seq<DefinitionView>, lo: int, hi: int)
    requires
        0 <= lo <= hi <= src.len(),
        exact_definitions(src, v, lo, hi),
    ensures
        cut_definitions(
            encode_utf8(src),
            <Vec<Definition> as InBytes>::bytes_of(v, src),
            byte_at(src, lo),
            byte_at(src, hi),
        ),
        <Vec<Definition> as InBytes>::bytes_of(v, src).len() == v.len(),
{
    let moved = <Vec<Definition> as InBytes>::bytes_of(v, src);
    assert forall|i: int| 0 <= i < moved.len() implies cut_definition(
        encode_utf8(src),
        #[trigger] moved[i],
        byte_at(src, lo),
        byte_at(src, hi),
    ) by {
        lemma_cut_definition(src, v[i], lo, hi);
    }
}

/// The definition of a phoneme that is true to the source in characters is so in bytes.
pub proof fn lemma_cut_phoneme(src: Seq<char>, v: Marked<PhonemeDefView>, lo: int, hi: int)
    requires
        0 <= lo <= hi <= src.len(),
        exact_phoneme(src, v, lo, hi),
    ensures
        cut_phoneme(
            encode_utf8(src),
            <Spanned<PhonemeDef> as InBytes>::bytes_of(v, src),
            byte_at(src, lo),
            byte_at(src, hi),
        ),
{
    lemma_byte_at(src, lo, v.start);
    lemma_byte_at(src, v.start, v.end);
    lemma_byte_at(src, v.end, hi);
    lemma_cut(src, v.node.label, lo, hi);
    lemma_cut_all(src, v.node.traits, lo, hi);
}

/// Definitions of phonemes that are true to the source in characters are so in bytes.
pub proof fn lemma_cut_phonemes(src: Seq<char>, v: Seq<Marked<PhonemeDefView>>, lo: int, hi: int)
    requires
        0 <= lo <= hi <= src.len(),
        exact_phonemes(src, v, lo, hi),
    ensures
        cut_phonemes(
            encode_utf8(src),
            <Vec<Spanned<PhonemeDef>> as InBytes>::bytes_of(v, src),
            byte_at(src, lo),
            byte_at(src, hi),
        ),
        <Vec<Spanned<PhonemeDef>> as InBytes>::bytes_of(v, src).len() == v.len(),
{
    let moved = <Vec<Spanned<PhonemeDef>> as InBytes>::bytes_of(v, src);
    assert forall|i: int| 0 <= i < moved.len() implies cut_phoneme(
        encode_utf8(src),
        #[trigger] moved[i],
        byte_at(src, lo),
        byte_at(src, hi),
    ) by {
        lemma_cut_phoneme(src, v[i], lo, hi);
    }
}

/// A member of a trait that is true to the source in characters is so in bytes.
pub proof fn lemma_cut_member(src: Seq<char>, v: Marked<TraitMemberView>, lo: int, hi: int)
    requires
        0 <= lo <= hi <= src.len(),
        exact_member(src, v, lo, hi),
    ensures
        cut_member(
            encode_utf8(src),
            <Spanned<TraitMember> as InBytes>::bytes_of(v, src),
            byte_at(src, lo),
            byte_at(src, hi),
        ),
{
    lemma_byte_at(src, lo, v.start);
    lemma_byte_at(src, v.start, v.end);
    lemma_byte_at(src, v.end, hi);
    lemma_cut_all(src, v.node.labels, lo, hi);
    lemma_cut_opt(src, v.node.notation, lo, hi);
}

/// Members of a trait that are true to the source in characters are so in bytes.
pub proof fn lemma_cut_members(src: Seq<char>, v: Seq<Marked<TraitMemberView>>, lo: int, hi: int)
    requires
        0 <= lo <= hi <= src.len(),
        exact_members(src, v, lo, hi),
    ensures
        cut_members(
            encode_utf8(src),
            <Vec<Spanned<TraitMember>> as InBytes>::bytes_of(v, src),
            byte_at(src, lo),
            byte_at(src, hi),
        ),
        <Vec<Spanned<TraitMember>> as InBytes>::bytes_of(v, src).len() == v.len(),
{
    let moved = <Vec<Spanned<TraitMember>> as InBytes>::bytes_of(v, src);
    assert forall|i: int| 0 <= i < moved.len() implies cut_member(
        encode_utf8(src),
        #[trigger] moved[i],
        byte_at(src, lo),
        byte_at(src, hi),
    ) by {
        lemma_cut_member(src, v[i], lo, hi);
    }
}

/// The body of a series that is true to the source in characters is so in bytes.
pub proof fn lemma_cut_series(src: Seq<char>, v: Marked<SeriesView>, lo: int, hi: int)
    requires
        0 <= lo <= hi <= src.len(),
        exact_series(src, v, lo, hi),
    ensures
        cut_series(
            encode_utf8(src),
            <Spanned<Series> as InBytes>::bytes_of(v, src),
            byte_at(src, lo),
            byte_at(src, hi),
        ),
{
    lemma_byte_at(src, lo, v.start);
    lemma_byte_at(src, v.start, v.end);
    lemma_byte_at(src, v.end, hi);
    match v.node {
        SeriesView::Category(category) => {
            lemma_cut_category(src, category, lo, hi);
        },
        SeriesView::List(items) => {
            lemma_cut_all(src, items, lo, hi);
        },
    }
}

/// A time that lies within the source in characters does so in bytes.
pub proof fn lemma_cut_time(src: Seq<char>, v: Option<Marked<TimeView>>, lo: int, hi: int)
    requires
        0 <= lo <= hi <= src.len(),
        exact_time(src, v, lo, hi),
    ensures
        cut_time(
            encode_utf8(src),
            <Option<Spanned<Time>> as InBytes>::bytes_of(v, src),
            byte_at(src, lo),
            byte_at(src, hi),
        ),
{
    if let Some(m) = v {
        lemma_byte_at(src, lo, m.start);
        lemma_byte_at(src, m.start, m.end);
        lemma_byte_at(src, m.end, hi);
    }
}

/// The environment of a sound change that is true to the source in characters is so in bytes.
pub proof fn lemma_cut_context(src: Seq<char>, v: Option<Marked<EnvironmentView>>, lo: int, hi: int)
    requires
        0 <= lo <= hi <= src.len(),
        exact_context(src, v, lo, hi),
    ensures
        cut_context(
            encode_utf8(src),
            <Option<Spanned<Environment>> as InBytes>::bytes_of(v, src),
            byte_at(src, lo),
            byte_at(src, hi),
        ),
{
    if let Some(m) = v {
        lemma_cut_environment(src, m, lo, hi);
    }
}

/// A statement that is well formed and true to the source in characters is so in bytes.
pub proof fn lemma_cut_stmt(src: Seq<char>, v: StmtView, lo: int, hi: int)
    requires
        0 <= lo <= hi <= src.len(),
        exact_stmt(src, v, lo, hi),
    ensures
        cut_stmt(
            encode_utf8(src),
            <Stmt as InBytes>::bytes_of(v, src),
            byte_at(src, lo),
            byte_at(src, hi),
        ),
{
    match v {
        StmtView::SoundChange { source, target, environment, description } => {
            lemma_cut_source(src, source, lo, hi);
            lemma_cut_target(src, target, lo, hi);
            lemma_cut_context(src, environment, lo, hi);
            lemma_cut_opt(src, description, lo, hi);
        },
        StmtView::Import { path, absolute, names } => {
            lemma_cut_all(src, path, lo, hi);
            lemma_cut_all(src, names, lo, hi);
        },
        StmtView::Language { id, parent, name } => {
            lemma_cut(src, id, lo, hi);
            lemma_cut_opt(src, parent, lo, hi);
            lemma_cut_opt(src, name, lo, hi);
        },
        StmtView::Word { gloss, pronunciation, definitions } => {
            lemma_cut(src, gloss, lo, hi);
            lemma_byte_at(src, lo, pronunciation.start);
            lemma_byte_at(src, pronunciation.start, pronunciation.end);
            lemma_byte_at(src, pronunciation.end, hi);
            lemma_cut_definitions(src, definitions, lo, hi);
            assert(<Vec<String> as InBytes>::bytes_of(pronunciation.node, src)
                =~= pronunciation.node);
        },
        StmtView::Class { label, encodes, annotates, phonemes } => {
            lemma_cut_label(src, label, lo, hi);
            lemma_cut_all(src, encodes, lo, hi);
            lemma_cut_all(src, annotates, lo, hi);
            lemma_cut_phonemes(src, phonemes, lo, hi);
        },
        StmtView::Series { label, series } => {
            lemma_cut_label(src, label, lo, hi);
            lemma_cut_series(src, series, lo, hi);
        },
        StmtView::Trait { label, members } => {
            lemma_cut(src, label, lo, hi);
            lemma_cut_members(src, members, lo, hi);
        },
        StmtView::Milestone { time, language } => {
            lemma_cut_time(src, time, lo, hi);
            lemma_cut_opt(src, language, lo, hi);
        },
    }
}

/// A program that is well formed and true to the source in characters is so
/// in bytes.
pub proof fn lemma_cut_program(src: Seq<char>, v: Seq<Marked<StmtView>>, lo: int, hi: int)
    requires
        0 <= lo <= hi <= src.len(),
        exact_program(src, v, lo, hi),
    ensures
        cut_program(
            encode_utf8(src),
            <Vec<Spanned<Stmt>> as InBytes>::bytes_of(v, src),
            byte_at(src, lo),
            byte_at(src, hi),
        ),
{
    let moved = <Vec<Spanned<Stmt>> as InBytes>::bytes_of(v, src);
    assert forall|i: int| 0 <= i < moved.len() implies byte_at(src, lo) <= (
    #[trigger] moved[i]).start < moved[i].end <= byte_at(src, hi) && cut_stmt(
        encode_utf8(src),
        moved[i].node,
        moved[i].start,
        moved[i].end,
    ) by {
        lemma_byte_at(src, lo, v[i].start);
        lemma_byte_at(src, v[i].start, v[i].end);
        lemma_byte_at(src, v[i].end, hi);
        lemma_cut_stmt(src, v[i].node, v[i].start, v[i].end);
    }
    assert forall|i: int, j: int| 0 <= i < j < moved.len() implies (#[trigger] moved[i]).end <= (
    #[trigger] moved[j]).start by {
        lemma_byte_at(src, v[i].end, v[j].start);
    }
}

/// What [`crate::parse`] returns for a program is well formed and true to
/// the text: the bytes between the offsets of every piece of text are that
/// text in UTF-8, every span lies within the span of its statement, and the
/// statements follow one another without overlap.
pub proof fn lemma_program(source: Seq<char>)
    ensures
        program(source) matches Ok(stmts) ==> cut_program(
            encode_utf8(source),
            stmts,
            0,
            encode_utf8(source).len() as int,
        ),
{
    lemma_root(source);
    if let Some((stmts, _)) = root_at(source, 0, Far::none()).res {
        lemma_cut_program(source, stmts, 0, source.len() as int);
        lemma_byte_at(source, 0, source.len() as int);
    }
}

} // verus!
