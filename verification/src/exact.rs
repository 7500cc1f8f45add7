//! What is read is well formed and true to the source.
//!
//! Every span that the grammar attaches to a piece of text cuts exactly that
//! text out of the source, and every other span lies within the source. No
//! piece of text is empty, and no list is that the language asks to hold an
//! item. The predicates of this module say so of each kind of node; the
//! lemmas prove it of each production, whatever the failure record was;
//! [`lemma_root`] states it of a whole program.

use crate::ast::{
    CategoryView, DefinitionView, EnvElementView, EnvironmentView, FeatureView, PhonemeDefView,
    SegmentView, SeriesView, SourceView, StmtView, TargetView, TimeView, TraitMemberView,
};
use crate::chars::CharClass;
use crate::error::Far;
use crate::model::Marked;
use crate::parser::class_definition::{
    annotates_at, class_at, encodes_at, group_at, phoneme_at, phonemed_at, phonemes_at,
};
use crate::parser::common::{
    category_at, feature_at, features_at, idents_at, idents_from, item_at, list_at,
    listed_at, trailing_at,
};
use crate::parser::import::{
    chosen_at, import_at, names_at, step_at, stepped_at, steps_at,
};
use crate::parser::lang_definition::{name_at, parent_at};
use crate::parser::milestone::{milestone_at, time_at};
use crate::parser::common::TokenKind;
use crate::parser::scan::{
    advances, ident_at, lemma_run_end, literal_at, literal_from, newline_at, padded_symbol_at,
    run_end, symbol_at, text_at, Out,
};
use crate::parser::word_definition::gap_at;
use crate::parser::series_definition::{braced_at, series_at};
use crate::parser::sound_change::{
    context_at, env_element_at, env_elements_at, environment_at, remark_at, segment_at,
    segments_at, sound_change_at, source_at, target_at,
};
use crate::parser::trait_definition::{member_at, membered_at, members_at, notation_at, trait_at};
use crate::parser::word_definition::{
    defined_at, definition_at, definition_block_at, definitions_at, lines_at, pronunciation_at,
    syllabled_at, syllables_at, word_at,
};
use crate::parser::{breaks_at, line_end_at, root_at, statement_at, stmt_at, stmts_at};
use vstd::prelude::*;

verus! {

/// The offsets are a range within the bounds.
pub open spec fn within(lo: int, hi: int, start: int, end: int) -> bool {
    lo <= start <= end <= hi
}

/// The text of the node is the source between the node's offsets, and is not
/// empty.
pub open spec fn exact(src: Seq<char>, m: Marked<Seq<char>>, lo: int, hi: int) -> bool {
    within(lo, hi, m.start, m.end) && m.start < m.end && m.node == src.subrange(m.start, m.end)
}

pub open spec fn exact_opt(src: Seq<char>, o: Option<Marked<Seq<char>>>, lo: int, hi: int) -> bool {
    o matches Some(m) ==> exact(src, m, lo, hi)
}

pub open spec fn exact_all(src: Seq<char>, items: Seq<Marked<Seq<char>>>, lo: int, hi: int) -> bool {
    forall|i: int| 0 <= i < items.len() ==> exact(src, #[trigger] items[i], lo, hi)
}

/// The letter of the node is the one character of the source at the node's
/// offset, an ASCII upper-case letter.
pub open spec fn exact_letter(src: Seq<char>, m: Marked<char>, lo: int, hi: int) -> bool {
    &&& lo <= m.start
    &&& m.end == m.start + 1
    &&& m.end <= hi
    &&& src[m.start] == m.node
    &&& 'A' <= m.node <= 'Z'
}

/// The text of the node is one ASCII upper-case letter of the source.
pub open spec fn exact_label(src: Seq<char>, m: Marked<Seq<char>>, lo: int, hi: int) -> bool {
    exact(src, m, lo, hi) && m.end == m.start + 1 && 'A' <= m.node[0] <= 'Z'
}

/// The sign that a feature is written with.
pub open spec fn sign_of(feature: FeatureView) -> char {
    match feature {
        FeatureView::Positive(_) => '+',
        FeatureView::Negative(_) => '-',
    }
}

/// The name of a feature.
pub open spec fn name_of(feature: FeatureView) -> Seq<char> {
    match feature {
        FeatureView::Positive(name) => name,
        FeatureView::Negative(name) => name,
    }
}

/// The source between the node's offsets is the feature's sign and, after
/// it, the feature's name, which is not empty.
pub open spec fn exact_feature(src: Seq<char>, m: Marked<FeatureView>, lo: int, hi: int) -> bool {
    &&& lo <= m.start
    &&& m.start + 1 < m.end <= hi
    &&& src[m.start] == sign_of(m.node)
    &&& src.subrange(m.start + 1, m.end) == name_of(m.node)
}

pub open spec fn exact_features(src: Seq<char>, items: Seq<Marked<FeatureView>>, lo: int, hi: int) -> bool {
    forall|i: int| 0 <= i < items.len() ==> exact_feature(src, #[trigger] items[i], lo, hi)
}

/// A category has at least one feature.
pub open spec fn exact_category(src: Seq<char>, category: CategoryView, lo: int, hi: int) -> bool {
    &&& category.base_class matches Some(m) ==> exact_letter(src, m, lo, hi)
    &&& category.features.len() > 0
    &&& exact_features(src, category.features, lo, hi)
}

pub open spec fn exact_segment(src: Seq<char>, segment: SegmentView, lo: int, hi: int) -> bool {
    match segment {
        SegmentView::Category(category) => exact_category(src, category, lo, hi),
        SegmentView::Phonemes(text) => text.len() > 0,
    }
}

pub open spec fn exact_segments(src: Seq<char>, items: Seq<SegmentView>, lo: int, hi: int) -> bool {
    forall|i: int| 0 <= i < items.len() ==> exact_segment(src, #[trigger] items[i], lo, hi)
}

/// A pattern has at least one segment.
pub open spec fn exact_source(src: Seq<char>, m: Marked<SourceView>, lo: int, hi: int) -> bool {
    &&& within(lo, hi, m.start, m.end)
    &&& m.node matches SourceView::Pattern(items) ==> items.len() > 0 && exact_segments(src, items, lo, hi)
}

pub open spec fn exact_target(src: Seq<char>, m: Marked<TargetView>, lo: int, hi: int) -> bool {
    &&& within(lo, hi, m.start, m.end)
    &&& match m.node {
        TargetView::Modification(items) => items.len() > 0 && exact_features(src, items, lo, hi),
        TargetView::Pattern(items) => items.len() > 0 && exact_segments(src, items, lo, hi),
        TargetView::Empty => true,
    }
}

pub open spec fn exact_element(src: Seq<char>, element: EnvElementView, lo: int, hi: int) -> bool {
    element matches EnvElementView::Segment(segment) ==> exact_segment(src, segment, lo, hi)
}

pub open spec fn exact_elements(src: Seq<char>, items: Seq<EnvElementView>, lo: int, hi: int) -> bool {
    forall|i: int| 0 <= i < items.len() ==> exact_element(src, #[trigger] items[i], lo, hi)
}

/// A side of an environment that is there has at least one element.
pub open spec fn exact_side(src: Seq<char>, side: Option<Seq<EnvElementView>>, lo: int, hi: int) -> bool {
    side matches Some(items) ==> items.len() > 0 && exact_elements(src, items, lo, hi)
}

pub open spec fn exact_environment(src: Seq<char>, m: Marked<EnvironmentView>, lo: int, hi: int) -> bool {
    &&& within(lo, hi, m.start, m.end)
    &&& exact_side(src, m.node.before, lo, hi)
    &&& exact_side(src, m.node.after, lo, hi)
}

pub open spec fn exact_definition(src: Seq<char>, definition: DefinitionView, lo: int, hi: int) -> bool {
    exact_opt(src, definition.pos, lo, hi) && exact(src, definition.definition, lo, hi)
}

pub open spec fn exact_definitions(src: Seq<char>, items: Seq<DefinitionView>, lo: int, hi: int) -> bool {
    forall|i: int| 0 <= i < items.len() ==> exact_definition(src, #[trigger] items[i], lo, hi)
}

pub open spec fn exact_phoneme(src: Seq<char>, m: Marked<PhonemeDefView>, lo: int, hi: int) -> bool {
    &&& within(lo, hi, m.start, m.end)
    &&& exact(src, m.node.label, lo, hi)
    &&& exact_all(src, m.node.traits, lo, hi)
}

pub open spec fn exact_phonemes(src: Seq<char>, items: Seq<Marked<PhonemeDefView>>, lo: int, hi: int) -> bool {
    forall|i: int| 0 <= i < items.len() ==> exact_phoneme(src, #[trigger] items[i], lo, hi)
}

/// A member has at least one label.
pub open spec fn exact_member(src: Seq<char>, m: Marked<TraitMemberView>, lo: int, hi: int) -> bool {
    &&& within(lo, hi, m.start, m.end)
    &&& m.node.labels.len() > 0
    &&& exact_all(src, m.node.labels, lo, hi)
    &&& exact_opt(src, m.node.notation, lo, hi)
}

pub open spec fn exact_members(src: Seq<char>, items: Seq<Marked<TraitMemberView>>, lo: int, hi: int) -> bool {
    forall|i: int| 0 <= i < items.len() ==> exact_member(src, #[trigger] items[i], lo, hi)
}

pub open spec fn exact_series(src: Seq<char>, m: Marked<SeriesView>, lo: int, hi: int) -> bool {
    &&& within(lo, hi, m.start, m.end)
    &&& match m.node {
        SeriesView::Category(category) => exact_category(src, category, lo, hi),
        SeriesView::List(items) => items.len() > 0 && exact_all(src, items, lo, hi),
    }
}

pub open spec fn exact_time(src: Seq<char>, o: Option<Marked<TimeView>>, lo: int, hi: int) -> bool {
    o matches Some(m) ==> within(lo, hi, m.start, m.end)
}

pub open spec fn exact_context(src: Seq<char>, o: Option<Marked<EnvironmentView>>, lo: int, hi: int) -> bool {
    o matches Some(m) ==> exact_environment(src, m, lo, hi)
}

/// No syllable is empty.
pub open spec fn full(items: Seq<Seq<char>>) -> bool {
    forall|i: int| 0 <= i < items.len() ==> (#[trigger] items[i]).len() > 0
}

/// The statement is well formed, and every span in it is true to the source.
pub open spec fn exact_stmt(src: Seq<char>, stmt: StmtView, lo: int, hi: int) -> bool {
    match stmt {
        StmtView::SoundChange { source, target, environment, description } => {
            &&& exact_source(src, source, lo, hi)
            &&& exact_target(src, target, lo, hi)
            &&& exact_context(src, environment, lo, hi)
            &&& exact_opt(src, description, lo, hi)
        },
        StmtView::Import { path, absolute, names } => {
            &&& path.len() > 0
            &&& exact_all(src, path, lo, hi)
            &&& exact_all(src, names, lo, hi)
        },
        StmtView::Language { id, parent, name } => {
            &&& exact(src, id, lo, hi)
            &&& exact_opt(src, parent, lo, hi)
            &&& exact_opt(src, name, lo, hi)
        },
        StmtView::Word { gloss, pronunciation, definitions } => {
            &&& exact(src, gloss, lo, hi)
            &&& within(lo, hi, pronunciation.start, pronunciation.end)
            &&& pronunciation.node.len() > 0
            &&& full(pronunciation.node)
            &&& definitions.len() > 0
            &&& exact_definitions(src, definitions, lo, hi)
        },
        StmtView::Class { label, encodes, annotates, phonemes } => {
            &&& exact_label(src, label, lo, hi)
            &&& encodes.len() > 0
            &&& exact_all(src, encodes, lo, hi)
            &&& exact_all(src, annotates, lo, hi)
            &&& phonemes.len() > 0
            &&& exact_phonemes(src, phonemes, lo, hi)
        },
        StmtView::Series { label, series } => {
            &&& exact_label(src, label, lo, hi)
            &&& exact_series(src, series, lo, hi)
        },
        StmtView::Trait { label, members } => {
            &&& exact(src, label, lo, hi)
            &&& members.len() > 0
            &&& exact_members(src, members, lo, hi)
        },
        StmtView::Milestone { time, language } => {
            &&& time is Some || language is Some
            &&& exact_time(src, time, lo, hi)
            &&& exact_opt(src, language, lo, hi)
        },
    }
}

/// Every statement of the program is well formed and has a span that is not
/// empty; the statements follow one another in the source without overlap;
/// and every span in a statement lies within the statement's span and is
/// true to the source.
pub open spec fn exact_program(src: Seq<char>, stmts: Seq<Marked<StmtView>>, lo: int, hi: int) -> bool {
    &&& forall|i: int|
        0 <= i < stmts.len() ==> lo <= (#[trigger] stmts[i]).start < stmts[i].end <= hi
            && exact_stmt(src, stmts[i].node, stmts[i].start, stmts[i].end)
    &&& forall|i: int, j: int|
        0 <= i < j < stmts.len() ==> (#[trigger] stmts[i]).end <= (#[trigger] stmts[j]).start
}

/// A match ends at or after the position where it began, within the source.
pub open spec fn sound<V>(src: Seq<char>, pos: int, out: Out<V>) -> bool {
    out.res matches Some((_, end)) ==> pos <= end <= src.len()
}

/// A literal that matched ends within the source.
pub proof fn lemma_literal_from(src: Seq<char>, pos: int, word: Seq<char>, i: int, far: Far)
    requires
        0 <= pos,
        0 <= i <= word.len(),
        pos + i <= src.len(),
    ensures
        sound(src, pos, literal_from(src, pos, word, i, far)),
    decreases word.len() - i,
{
    if i < word.len() && pos + i < src.len() && src[pos + i] == word[i] {
        lemma_literal_from(src, pos, word, i + 1, far);
    }
}

/// Runs and literals stay within the source.
pub proof fn lemma_scan(src: Seq<char>)
    ensures
        forall|pos: int, class: CharClass|
            0 <= pos <= src.len() ==> pos <= #[trigger] run_end(src, pos, class) <= src.len(),
        forall|pos: int, word: Seq<char>, far: Far|
            0 <= pos <= src.len() ==> sound(src, pos, #[trigger] literal_at(src, pos, word, far)),
{
    assert forall|pos: int, class: CharClass| 0 <= pos <= src.len() implies pos
        <= #[trigger] run_end(src, pos, class) <= src.len() by {
        lemma_run_end(src, pos, class);
    }
    assert forall|pos: int, word: Seq<char>, far: Far| 0 <= pos <= src.len() implies sound(
        src,
        pos,
        #[trigger] literal_at(src, pos, word, far),
    ) by {
        lemma_literal_from(src, pos, word, 0, far);
    }
}

/// A feature that matched is true to the source.
pub proof fn lemma_feature(src: Seq<char>)
    ensures
        forall|pos: int, far: Far|
            0 <= pos <= src.len() ==> (#[trigger] feature_at(src, pos, far).res matches Some(
                (m, end),
            ) ==> pos < end <= src.len() && exact_feature(src, m, pos, end)),
{
    reveal(feature_at);
    lemma_scan(src);
}

pub proof fn lemma_features_from(src: Seq<char>, pos: int, far: Far)
    requires
        0 <= pos <= src.len(),
    ensures
        features_at(src, pos, far).res matches Some((items, end)) && pos <= end <= src.len()
            && exact_features(src, items, pos, end),
    decreases src.len() - pos,
{
    lemma_feature(src);
    let first = feature_at(src, pos, far);
    if let Some((item, end)) = first.res {
        if advances(src, pos, end) {
            lemma_features_from(src, end, first.far);
        }
    }
}

/// Features that matched are true to the source.
pub proof fn lemma_features(src: Seq<char>)
    ensures
        forall|pos: int, far: Far|
            0 <= pos <= src.len() ==> (#[trigger] features_at(src, pos, far).res matches Some(
                (items, end),
            ) && pos <= end <= src.len() && exact_features(src, items, pos, end)),
{
    assert forall|pos: int, far: Far| 0 <= pos <= src.len() implies (#[trigger] features_at(
        src,
        pos,
        far,
    ).res matches Some((items, end)) && pos <= end <= src.len() && exact_features(src, items, pos, end)) by {
        lemma_features_from(src, pos, far);
    }
}

/// A category that matched is true to the source.
pub proof fn lemma_category(src: Seq<char>)
    ensures
        forall|pos: int, far: Far|
            0 <= pos <= src.len() ==> (#[trigger] category_at(src, pos, far).res matches Some(
                (node, end),
            ) ==> pos < end <= src.len() && exact_category(src, node, pos, end)),
{
    lemma_scan(src);
    lemma_features(src);
}

/// A segment that matched is true to the source.
pub proof fn lemma_segment(src: Seq<char>)
    ensures
        forall|pos: int, far: Far|
            0 <= pos <= src.len() ==> (#[trigger] segment_at(src, pos, far).res matches Some(
                (node, end),
            ) ==> pos < end <= src.len() && exact_segment(src, node, pos, end)),
{
    lemma_scan(src);
    lemma_category(src);
}

pub proof fn lemma_segments_from(src: Seq<char>, pos: int, far: Far)
    requires
        0 <= pos <= src.len(),
    ensures
        segments_at(src, pos, far).res matches Some((items, end)) && pos <= end <= src.len()
            && exact_segments(src, items, pos, end) && (items.len() > 0 ==> pos < end),
    decreases src.len() - pos,
{
    lemma_segment(src);
    let first = segment_at(src, pos, far);
    if let Some((item, end)) = first.res {
        if advances(src, pos, end) {
            lemma_segments_from(src, end, first.far);
        }
    }
}

/// Segments that matched are true to the source.
pub proof fn lemma_segments(src: Seq<char>)
    ensures
        forall|pos: int, far: Far|
            0 <= pos <= src.len() ==> (#[trigger] segments_at(src, pos, far).res matches Some(
                (items, end),
            ) && pos <= end <= src.len() && exact_segments(src, items, pos, end) && (items.len() > 0 ==> pos
                < end)),
{
    assert forall|pos: int, far: Far| 0 <= pos <= src.len() implies (#[trigger] segments_at(
        src,
        pos,
        far,
    ).res matches Some((items, end)) && pos <= end <= src.len() && exact_segments(src, items, pos, end) && (
    items.len() > 0 ==> pos < end)) by {
        lemma_segments_from(src, pos, far);
    }
}

/// A source and a target that matched are true to the source text.
pub proof fn lemma_source_target(src: Seq<char>)
    ensures
        forall|pos: int, far: Far|
            0 <= pos <= src.len() ==> (#[trigger] source_at(src, pos, far).res matches Some(
                (m, end),
            ) ==> pos < end <= src.len() && exact_source(src, m, pos, end)),
        forall|pos: int, far: Far|
            0 <= pos <= src.len() ==> (#[trigger] target_at(src, pos, far).res matches Some(
                (m, end),
            ) ==> pos < end <= src.len() && exact_target(src, m, pos, end)),
{
    lemma_scan(src);
    lemma_features(src);
    lemma_segments(src);
}

pub proof fn lemma_env_elements_from(src: Seq<char>, pos: int, far: Far)
    requires
        0 <= pos <= src.len(),
    ensures
        env_elements_at(src, pos, far).res matches Some((items, end)) && pos <= end <= src.len()
            && exact_elements(src, items, pos, end),
    decreases src.len() - pos,
{
    lemma_segment(src);
    let first = env_element_at(src, pos, far);
    if let Some((item, end)) = first.res {
        if advances(src, pos, end) {
            lemma_env_elements_from(src, end, first.far);
        }
    }
}

/// An environment that matched is true to the source.
pub proof fn lemma_environment(src: Seq<char>)
    ensures
        forall|pos: int, far: Far|
            0 <= pos <= src.len() ==> (#[trigger] environment_at(src, pos, far).res matches Some(
                (m, end),
            ) ==> pos < end <= src.len() && exact_environment(src, m, pos, end)),
{
    assert forall|pos: int, far: Far| 0 <= pos <= src.len() implies (#[trigger] env_elements_at(
        src,
        pos,
        far,
    ).res matches Some((items, end)) && pos <= end <= src.len() && exact_elements(src, items, pos, end)) by {
        lemma_env_elements_from(src, pos, far);
    }
}

/// A sound change that matched is true to the source.
pub proof fn lemma_sound_change(src: Seq<char>)
    ensures
        forall|pos: int, far: Far|
            0 <= pos <= src.len() ==> (#[trigger] sound_change_at(src, pos, far).res matches Some(
                (node, end),
            ) ==> pos < end <= src.len() && exact_stmt(src, node, pos, end)),
{
    lemma_scan(src);
    lemma_source_target(src);
    lemma_environment(src);
    assert forall|pos: int, far: Far| 0 <= pos <= src.len() implies (#[trigger] context_at(
        src,
        pos,
        far,
    ).res matches Some((node, end)) && pos <= end <= src.len() && exact_context(src, node, pos, end)) by {}
    assert forall|pos: int, far: Far| 0 <= pos <= src.len() implies (#[trigger] remark_at(
        src,
        pos,
        far,
    ).res matches Some((node, end)) && pos <= end <= src.len() && exact_opt(src, node, pos, end)) by {}
}

/// A time that matched lies within the source.
pub proof fn lemma_time(src: Seq<char>)
    ensures
        forall|pos: int, far: Far|
            0 <= pos <= src.len() ==> (#[trigger] time_at(src, pos, far).res matches Some(
                (m, end),
            ) ==> pos < end <= src.len() && within(pos, end, m.start, m.end)),
{
    lemma_scan(src);
}

/// A milestone that matched is true to the source.
pub proof fn lemma_milestone(src: Seq<char>)
    ensures
        forall|pos: int, far: Far|
            0 <= pos <= src.len() ==> (#[trigger] milestone_at(src, pos, far).res matches Some(
                (node, end),
            ) ==> pos < end <= src.len() && exact_stmt(src, node, pos, end)),
{
    lemma_scan(src);
    lemma_time(src);
}

/// A language that matched is true to the source.
pub proof fn lemma_language(src: Seq<char>)
    ensures
        forall|pos: int, far: Far|
            0 <= pos <= src.len() ==> (#[trigger] crate::parser::lang_definition::language_at(
                src,
                pos,
                far,
            ).res matches Some((node, end)) ==> pos < end <= src.len() && exact_stmt(src, node, pos, end)),
{
    lemma_scan(src);
    assert forall|pos: int, far: Far| 0 <= pos <= src.len() implies (#[trigger] parent_at(
        src,
        pos,
        far,
    ).res matches Some((node, end)) && pos <= end <= src.len() && exact_opt(src, node, pos, end)) by {}
    assert forall|pos: int, far: Far| 0 <= pos <= src.len() implies (#[trigger] name_at(
        src,
        pos,
        far,
    ).res matches Some((node, end)) && pos <= end <= src.len() && exact_opt(src, node, pos, end)) by {}
}

pub proof fn lemma_listed_from(src: Seq<char>, pos: int, kind: TokenKind, mark: char, far: Far)
    requires
        0 <= pos <= src.len(),
    ensures
        listed_at(src, pos, kind, mark, far).res matches Some((items, end)) && pos <= end
            <= src.len() && exact_all(src, items, pos, end),
    decreases src.len() - pos,
{
    lemma_scan(src);
    let sep = padded_symbol_at(src, pos, mark, far);
    if let Some((_, at)) = sep.res {
        let next = item_at(src, at, kind, sep.far);
        if let Some((node, end)) = next.res {
            if advances(src, pos, end) {
                lemma_listed_from(src, end, kind, mark, next.far);
            }
        }
    }
}

/// A list of tokens that matched is true to the source.
pub proof fn lemma_list(src: Seq<char>)
    ensures
        forall|pos: int, kind: TokenKind, mark: char, far: Far|
            0 <= pos <= src.len() ==> (#[trigger] list_at(src, pos, kind, mark, far).res matches Some(
                (items, end),
            ) ==> pos < end <= src.len() && items.len() > 0 && exact_all(src, items, pos, end)),
        forall|pos: int, mark: char, far: Far|
            0 <= pos <= src.len() ==> sound(src, pos, #[trigger] trailing_at(src, pos, mark, far)),
{
    reveal(list_at);
    lemma_scan(src);
    assert forall|pos: int, kind: TokenKind, mark: char, far: Far|
        0 <= pos <= src.len() implies (#[trigger] list_at(src, pos, kind, mark, far).res matches Some(
        (items, end),
    ) ==> pos < end <= src.len() && items.len() > 0 && exact_all(src, items, pos, end)) by {
        let first = item_at(src, pos, kind, far);
        if let Some((node, end)) = first.res {
            lemma_listed_from(src, end, kind, mark, first.far);
        }
    }
}

pub proof fn lemma_idents_from(src: Seq<char>, pos: int, class: CharClass, far: Far)
    requires
        0 <= pos <= src.len(),
    ensures
        idents_from(src, pos, class, far).res matches Some((items, end)) && pos <= end
            <= src.len() && exact_all(src, items, pos, end),
    decreases src.len() - pos,
{
    lemma_scan(src);
    let first = ident_at(src, pos, far);
    if let Some((node, end)) = first.res {
        let next = run_end(src, end, class);
        if advances(src, pos, next) {
            lemma_idents_from(src, next, class, first.far);
        }
    }
}

/// Identifiers that matched are true to the source.
pub proof fn lemma_idents(src: Seq<char>)
    ensures
        forall|pos: int, class: CharClass, far: Far|
            0 <= pos <= src.len() ==> (#[trigger] idents_at(src, pos, class, far).res matches Some(
                (items, end),
            ) && pos <= end <= src.len() && exact_all(src, items, pos, end)),
{
    lemma_scan(src);
    assert forall|pos: int, class: CharClass, far: Far| 0 <= pos <= src.len() implies (
    #[trigger] idents_at(src, pos, class, far).res matches Some((items, end)) && pos <= end
        <= src.len() && exact_all(src, items, pos, end)) by {
        lemma_idents_from(src, run_end(src, pos, class), class, far);
    }
}

/// A series that matched is true to the source.
pub proof fn lemma_series(src: Seq<char>)
    ensures
        forall|pos: int, far: Far|
            0 <= pos <= src.len() ==> (#[trigger] series_at(src, pos, far).res matches Some(
                (node, end),
            ) ==> pos < end <= src.len() && exact_stmt(src, node, pos, end)),
{
    lemma_scan(src);
    lemma_list(src);
    lemma_category(src);
    assert forall|pos: int, far: Far| 0 <= pos <= src.len() implies (#[trigger] braced_at(
        src,
        pos,
        far,
    ).res matches Some((m, end)) ==> pos < end <= src.len() && exact_series(src, m, pos, end)) by {}
}

pub proof fn lemma_stepped_from(src: Seq<char>, pos: int, far: Far)
    requires
        0 <= pos <= src.len(),
    ensures
        stepped_at(src, pos, far).res matches Some((items, end)) && pos <= end <= src.len()
            && exact_all(src, items, pos, end),
    decreases src.len() - pos,
{
    lemma_scan(src);
    let slash = symbol_at(src, pos, '/', far);
    if let Some((_, at)) = slash.res {
        let next = step_at(src, at, slash.far);
        if let Some((node, end)) = next.res {
            if advances(src, pos, end) {
                lemma_stepped_from(src, end, next.far);
            }
        }
    }
}

/// An import that matched is true to the source.
pub proof fn lemma_import(src: Seq<char>)
    ensures
        forall|pos: int, far: Far|
            0 <= pos <= src.len() ==> (#[trigger] import_at(src, pos, far).res matches Some(
                (node, end),
            ) ==> pos < end <= src.len() && exact_stmt(src, node, pos, end)),
{
    lemma_scan(src);
    lemma_list(src);
    assert forall|pos: int, far: Far| 0 <= pos <= src.len() implies (#[trigger] steps_at(
        src,
        pos,
        far,
    ).res matches Some((items, end)) ==> pos < end <= src.len() && exact_all(src, items, pos, end)) by {
        let first = step_at(src, pos, far);
        if let Some((node, end)) = first.res {
            lemma_stepped_from(src, end, first.far);
        }
    }
    assert forall|pos: int, far: Far| 0 <= pos <= src.len() implies (#[trigger] names_at(
        src,
        pos,
        far,
    ).res matches Some((items, end)) ==> pos < end <= src.len() && exact_all(src, items, pos, end)) by {
        assert(chosen_at(src, pos, far).res is Some);
    }
}

/// A member of a trait that matched is true to the source.
pub proof fn lemma_member(src: Seq<char>)
    ensures
        forall|pos: int, far: Far|
            0 <= pos <= src.len() ==> (#[trigger] member_at(src, pos, far).res matches Some(
                (m, end),
            ) ==> pos < end <= src.len() && exact_member(src, m, pos, end)),
{
    reveal(member_at);
    lemma_scan(src);
    lemma_list(src);
    assert forall|pos: int, far: Far| 0 <= pos <= src.len() implies (#[trigger] notation_at(
        src,
        pos,
        far,
    ).res matches Some((node, end)) && pos <= end <= src.len() && exact_opt(src, node, pos, end)) by {}
}

pub proof fn lemma_membered_from(src: Seq<char>, pos: int, far: Far)
    requires
        0 <= pos <= src.len(),
    ensures
        membered_at(src, pos, far).res matches Some((items, end)) && pos <= end <= src.len()
            && exact_members(src, items, pos, end),
    decreases src.len() - pos,
{
    lemma_scan(src);
    lemma_member(src);
    let sep = padded_symbol_at(src, pos, ',', far);
    if let Some((_, at)) = sep.res {
        let next = member_at(src, at, sep.far);
        if let Some((node, end)) = next.res {
            if advances(src, pos, end) {
                lemma_membered_from(src, end, next.far);
            }
        }
    }
}

/// A trait that matched is true to the source.
pub proof fn lemma_trait(src: Seq<char>)
    ensures
        forall|pos: int, far: Far|
            0 <= pos <= src.len() ==> (#[trigger] trait_at(src, pos, far).res matches Some(
                (node, end),
            ) ==> pos < end <= src.len() && exact_stmt(src, node, pos, end)),
{
    lemma_scan(src);
    lemma_list(src);
    lemma_member(src);
    assert forall|pos: int, far: Far| 0 <= pos <= src.len() implies (#[trigger] members_at(
        src,
        pos,
        far,
    ).res matches Some((items, end)) ==> pos < end <= src.len() && exact_members(src, items, pos, end)) by {
        let first = member_at(src, pos, far);
        if let Some((node, end)) = first.res {
            lemma_membered_from(src, end, first.far);
        }
    }
}

/// The definition of a phoneme that matched is true to the source.
pub proof fn lemma_phoneme(src: Seq<char>)
    ensures
        forall|pos: int, far: Far|
            0 <= pos <= src.len() ==> (#[trigger] phoneme_at(src, pos, far).res matches Some(
                (m, end),
            ) ==> pos < end <= src.len() && exact_phoneme(src, m, pos, end)),
{
    reveal(phoneme_at);
    lemma_scan(src);
    lemma_idents(src);
}

pub proof fn lemma_phonemed_from(src: Seq<char>, pos: int, far: Far)
    requires
        0 <= pos <= src.len(),
    ensures
        phonemed_at(src, pos, far).res matches Some((items, end)) && pos <= end <= src.len()
            && exact_phonemes(src, items, pos, end),
    decreases src.len() - pos,
{
    lemma_scan(src);
    lemma_phoneme(src);
    let sep = padded_symbol_at(src, pos, ',', far);
    if let Some((_, at)) = sep.res {
        let next = phoneme_at(src, at, sep.far);
        if let Some((node, end)) = next.res {
            if advances(src, pos, end) {
                lemma_phonemed_from(src, end, next.far);
            }
        }
    }
}

/// The phonemes of a class that matched are true to the source.
pub proof fn lemma_phonemes(src: Seq<char>)
    ensures
        forall|pos: int, far: Far|
            0 <= pos <= src.len() ==> (#[trigger] phonemes_at(src, pos, far).res matches Some(
                (items, end),
            ) ==> pos < end <= src.len() && exact_phonemes(src, items, pos, end)),
{
    lemma_phoneme(src);
    assert forall|pos: int, far: Far| 0 <= pos <= src.len() implies (#[trigger] phonemes_at(
        src,
        pos,
        far,
    ).res matches Some((items, end)) ==> pos < end <= src.len() && exact_phonemes(src, items, pos, end)) by {
        let first = phoneme_at(src, pos, far);
        if let Some((node, end)) = first.res {
            lemma_phonemed_from(src, end, first.far);
        }
    }
}

/// The body of a class that matched is true to the source.
pub proof fn lemma_class_body(src: Seq<char>)
    ensures
        forall|pos: int, far: Far|
            0 <= pos <= src.len() ==> (#[trigger] crate::parser::class_definition::body_at(
                src,
                pos,
                far,
            ).res matches Some((items, end)) ==> pos < end <= src.len() && exact_phonemes(
                src,
                items, pos, end)),
{
    lemma_scan(src);
    lemma_list(src);
    lemma_phonemes(src);
}

/// Identifiers in round brackets that matched are true to the source.
pub proof fn lemma_group(src: Seq<char>)
    ensures
        forall|pos: int, far: Far|
            0 <= pos <= src.len() ==> (#[trigger] group_at(src, pos, far).res matches Some(
                (items, end),
            ) ==> pos < end <= src.len() && exact_all(src, items, pos, end)),
{
    lemma_idents(src);
}

/// The traits that a class names, where they matched, are true to the
/// source.
pub proof fn lemma_class_traits(src: Seq<char>)
    ensures
        forall|pos: int, far: Far|
            0 <= pos <= src.len() ==> (#[trigger] encodes_at(src, pos, far).res matches Some(
                (items, end),
            ) ==> pos < end <= src.len() && exact_all(src, items, pos, end)),
        forall|pos: int, far: Far|
            0 <= pos <= src.len() ==> (#[trigger] annotates_at(src, pos, far).res matches Some(
                (items, end),
            ) && pos <= end <= src.len() && exact_all(src, items, pos, end)),
{
    lemma_scan(src);
    lemma_group(src);
}

/// A class that matched is true to the source.
pub proof fn lemma_class(src: Seq<char>)
    ensures
        forall|pos: int, far: Far|
            0 <= pos <= src.len() ==> (#[trigger] class_at(src, pos, far).res matches Some(
                (node, end),
            ) ==> pos < end <= src.len() && exact_stmt(src, node, pos, end)),
{
    lemma_scan(src);
    lemma_class_traits(src);
    lemma_class_body(src);
}

/// A definition that matched is true to the source.
pub proof fn lemma_definition(src: Seq<char>)
    ensures
        forall|pos: int, far: Far|
            0 <= pos <= src.len() ==> (#[trigger] definition_at(src, pos, far).res matches Some(
                (node, end),
            ) ==> pos < end <= src.len() && exact_definition(src, node, pos, end)),
{
    reveal(definition_at);
    lemma_scan(src);
}

pub proof fn lemma_defined_from(src: Seq<char>, pos: int, far: Far)
    requires
        0 <= pos <= src.len(),
    ensures
        defined_at(src, pos, far).res matches Some((items, end)) && pos <= end <= src.len()
            && exact_definitions(src, items, pos, end),
    decreases src.len() - pos,
{
    lemma_scan(src);
    lemma_definition(src);
    let sep = gap_at(src, pos, far);
    if let Some((_, at)) = sep.res {
        let next = definition_at(src, at, sep.far);
        if let Some((node, end)) = next.res {
            if advances(src, pos, end) {
                lemma_defined_from(src, end, next.far);
            }
        }
    }
}

pub proof fn lemma_syllabled_from(src: Seq<char>, pos: int, far: Far)
    requires
        0 <= pos <= src.len(),
    ensures
        sound(src, pos, syllabled_at(src, pos, far)),
        syllabled_at(src, pos, far).res matches Some((items, _)) && full(items),
    decreases src.len() - pos,
{
    lemma_scan(src);
    let stop = symbol_at(src, pos, '.', far);
    if let Some((_, at)) = stop.res {
        let next = text_at(src, at, CharClass::Word, stop.far);
        if let Some((node, end)) = next.res {
            if advances(src, pos, end) {
                lemma_syllabled_from(src, end, next.far);
            }
        }
    }
}

/// Definitions on lines of their own that matched are true to the source.
pub proof fn lemma_lines(src: Seq<char>)
    ensures
        forall|pos: int, far: Far|
            0 <= pos <= src.len() ==> (#[trigger] lines_at(src, pos, far).res matches Some(
                (items, end),
            ) ==> pos < end <= src.len() && items.len() > 0 && exact_definitions(
                src,
                items, pos, end)),
{
    lemma_definition(src);
    assert forall|pos: int, far: Far| 0 <= pos <= src.len() implies (#[trigger] lines_at(
        src,
        pos,
        far,
    ).res matches Some((items, end)) ==> pos < end <= src.len() && items.len() > 0
        && exact_definitions(src, items, pos, end)) by {
        let first = definition_at(src, pos, far);
        if let Some((node, end)) = first.res {
            lemma_defined_from(src, end, first.far);
        }
    }
}

/// A block of definitions that matched is true to the source.
pub proof fn lemma_definition_block(src: Seq<char>)
    ensures
        forall|pos: int, far: Far|
            0 <= pos <= src.len() ==> (#[trigger] definition_block_at(src, pos, far).res matches Some(
                (items, end),
            ) ==> pos < end <= src.len() && items.len() > 0 && exact_definitions(
                src,
                items, pos, end)),
{
    lemma_scan(src);
    lemma_lines(src);
}

/// The definitions of a word that matched are true to the source.
pub proof fn lemma_definitions(src: Seq<char>)
    ensures
        forall|pos: int, far: Far|
            0 <= pos <= src.len() ==> (#[trigger] definitions_at(src, pos, far).res matches Some(
                (items, end),
            ) ==> pos < end <= src.len() && items.len() > 0 && exact_definitions(
                src,
                items, pos, end)),
{
    lemma_scan(src);
    lemma_definition(src);
    lemma_definition_block(src);
}

/// A pronunciation that matched lies within the source.
pub proof fn lemma_pronunciation(src: Seq<char>)
    ensures
        forall|pos: int, far: Far|
            0 <= pos <= src.len() ==> (#[trigger] pronunciation_at(src, pos, far).res matches Some(
                (m, end),
            ) ==> pos < end <= src.len() && within(pos, end, m.start, m.end) && m.node.len() > 0 && full(
                m.node,
            )),
{
    lemma_scan(src);
    assert forall|pos: int, far: Far| 0 <= pos <= src.len() implies (#[trigger] syllables_at(
        src,
        pos,
        far,
    ).res matches Some((items, end)) ==> pos < end <= src.len() && items.len() > 0 && full(
        items,
    )) by {
        let first = text_at(src, pos, CharClass::Word, far);
        if let Some((node, end)) = first.res {
            lemma_syllabled_from(src, end, first.far);
        }
    }
}

/// A word that matched is true to the source.
pub proof fn lemma_word(src: Seq<char>)
    ensures
        forall|pos: int, far: Far|
            0 <= pos <= src.len() ==> (#[trigger] word_at(src, pos, far).res matches Some(
                (node, end),
            ) ==> pos < end <= src.len() && exact_stmt(src, node, pos, end)),
{
    lemma_scan(src);
    lemma_pronunciation(src);
    lemma_definitions(src);
}

/// A statement of any kind that matched is true to the source.
pub proof fn lemma_statement(src: Seq<char>)
    ensures
        forall|pos: int, far: Far|
            0 <= pos <= src.len() ==> (#[trigger] statement_at(src, pos, far).res matches Some(
                (node, end),
            ) ==> pos < end <= src.len() && exact_stmt(src, node, pos, end)),
{
    reveal(statement_at);
    lemma_sound_change(src);
    lemma_import(src);
    lemma_language(src);
    lemma_word(src);
    lemma_trait(src);
    lemma_class(src);
    lemma_series(src);
    lemma_milestone(src);
}

pub proof fn lemma_breaks_from(src: Seq<char>, pos: int, far: Far)
    requires
        0 <= pos <= src.len(),
    ensures
        breaks_at(src, pos, far).res matches Some((_, end)) && pos <= end <= src.len(),
    decreases src.len() - pos,
{
    let first = newline_at(src, pos, far);
    if let Some((_, end)) = first.res {
        if advances(src, pos, end) {
            lemma_breaks_from(src, end, first.far);
        }
    }
}

/// A statement with its span that matched is true to the source.
pub proof fn lemma_stmt(src: Seq<char>)
    ensures
        forall|pos: int, far: Far|
            0 <= pos <= src.len() ==> (#[trigger] stmt_at(src, pos, far).res matches Some(
                (m, end),
            ) ==> pos < end <= src.len() && pos <= m.start < m.end <= end && exact_stmt(
                src,
                m.node,
                m.start,
                m.end,
            )),
{
    reveal(stmt_at);
    lemma_scan(src);
    lemma_statement(src);
    assert forall|pos: int, far: Far| 0 <= pos <= src.len() implies sound(
        src,
        pos,
        #[trigger] line_end_at(src, pos, far),
    ) by {
        lemma_breaks_from(src, pos, far);
    }
}

pub proof fn lemma_stmts_from(src: Seq<char>, pos: int, far: Far)
    requires
        0 <= pos <= src.len(),
    ensures
        stmts_at(src, pos, far).res matches Some((items, end)) && pos <= end <= src.len()
            && exact_program(src, items, pos, end),
    decreases src.len() - pos,
{
    lemma_stmt(src);
    let first = stmt_at(src, pos, far);
    if let Some((item, end)) = first.res {
        if advances(src, pos, end) {
            lemma_stmts_from(src, end, first.far);
        }
    }
}

/// What holds of a statement within bounds holds of it within wider bounds.
pub proof fn lemma_widen_stmt(src: Seq<char>, v: StmtView, lo: int, hi: int, lower: int, higher: int)
    requires
        exact_stmt(src, v, lo, hi),
        lower <= lo,
        hi <= higher,
    ensures
        exact_stmt(src, v, lower, higher),
{
}

/// The statements of a source that is a program are well formed, follow
/// one another, and hold spans that are true to the source.
pub proof fn lemma_root(source: Seq<char>)
    ensures
        root_at(source, 0, Far::none()).res matches Some((stmts, _)) ==> exact_program(
            source,
            stmts,
            0,
            source.len() as int,
        ),
{
    lemma_scan(source);
    lemma_stmts_from(source, run_end(source, 0, CharClass::Space), Far::none());
}

} // verus!
