//! Blank space at the start of a line, in bytes.
//!
//! The grammar reads the same from a source into which blank space was put,
//! but for the spans ([`crate::insert`]). This module carries that over to
//! the spans in bytes which [`crate::parse`] returns: to tell a tree in
//! bytes and move it is the same as to move it and tell it in bytes of the
//! new source.

use crate::ast::{
    Category, CategoryView, Definition, DefinitionView, EnvElement, EnvElementView, Environment,
    EnvironmentView, Feature, FeatureView, PhonemeDef, PhonemeDefView, Segment, SegmentView,
    Series, SeriesView, Source, SourceView, Stmt, StmtView, Target, TargetView, Time, TimeView,
    TraitMember, TraitMemberView,
};
use crate::bytes::{byte_at, byte_len, lemma_byte_at, lemma_encode_concat, InBytes};
use crate::exact::{
    exact, exact_all, exact_category, exact_context, exact_definition, exact_definitions,
    exact_element, exact_elements, exact_environment, exact_feature, exact_features, exact_label,
    exact_letter, exact_member, exact_members, exact_opt, exact_phoneme, exact_phonemes,
    exact_program, exact_segment, exact_segments, exact_series, exact_side, exact_source,
    exact_stmt, exact_target, exact_time,
};
use crate::insert::{sigma, widened, Move};
use crate::model::{Marked, Spanned};
use vstd::prelude::*;

verus! {

/// By how many bytes the source `a` is longer than the source `b`.
pub open spec fn grown(a: Seq<char>, b: Seq<char>) -> int {
    byte_len(a) - byte_len(b)
}

/// The byte offset of a place of the old source, moved, is the byte offset
/// of the moved place in the new source.
pub proof fn lemma_byte_sigma(a: Seq<char>, b: Seq<char>, at: int, by: int, x: int)
    requires
        widened(a, b, at, by),
        0 <= x <= b.len(),
    ensures
        byte_at(a, sigma(x, at, by)) == sigma(byte_at(b, x), byte_at(b, at), grown(a, b)),
        grown(a, b) >= 0,
{
    let head = b.subrange(0, at);
    let blank = a.subrange(at, at + by);
    let tail = b.subrange(at, b.len() as int);
    assert(a =~= head + blank + tail);
    assert(b =~= head + tail);
    lemma_encode_concat(head, blank);
    lemma_encode_concat(head + blank, tail);
    lemma_encode_concat(head, tail);
    lemma_byte_at(b, 0, at);
    if x < at {
        assert(a.subrange(0, x) =~= b.subrange(0, x));
        lemma_byte_at(b, x, at);
    } else {
        let rest = b.subrange(at, x);
        assert(a.subrange(0, x + by) =~= head + blank + rest);
        assert(b.subrange(0, x) =~= head + rest);
        lemma_encode_concat(head + blank, rest);
        lemma_encode_concat(head, rest);
        lemma_byte_at(b, at, x);
    }
}

/// A piece of text told in bytes and moved, or moved and told in bytes, is the same.
pub proof fn lemma_put(a: Seq<char>, b: Seq<char>, at: int, by: int, v: Marked<Seq<char>>, lo: int, hi: int)
    requires
        widened(a, b, at, by),
        0 <= lo <= hi <= b.len(),
        exact(b, v, lo, hi),
    ensures
        <Spanned<String> as InBytes>::bytes_of(v.moved(at, by), a) == <Spanned<String> as InBytes>::bytes_of(
            v,
            b,
        ).moved(byte_at(b, at), grown(a, b)),
{
    lemma_byte_sigma(a, b, at, by, v.start);
    lemma_byte_sigma(a, b, at, by, v.end);
}

/// A label told in bytes and moved, or moved and told in bytes, is the same.
pub proof fn lemma_put_label(a: Seq<char>, b: Seq<char>, at: int, by: int, v: Marked<Seq<char>>, lo: int, hi: int)
    requires
        widened(a, b, at, by),
        0 <= lo <= hi <= b.len(),
        exact_label(b, v, lo, hi),
    ensures
        <Spanned<String> as InBytes>::bytes_of(v.moved(at, by), a) == <Spanned<String> as InBytes>::bytes_of(
            v,
            b,
        ).moved(byte_at(b, at), grown(a, b)),
{
    lemma_byte_sigma(a, b, at, by, v.start);
    lemma_byte_sigma(a, b, at, by, v.end);
}

/// A letter told in bytes and moved, or moved and told in bytes, is the same.
pub proof fn lemma_put_letter(a: Seq<char>, b: Seq<char>, at: int, by: int, v: Marked<char>, lo: int, hi: int)
    requires
        widened(a, b, at, by),
        0 <= lo <= hi <= b.len(),
        exact_letter(b, v, lo, hi),
    ensures
        <Spanned<char> as InBytes>::bytes_of(v.moved(at, by), a) == <Spanned<char> as InBytes>::bytes_of(
            v,
            b,
        ).moved(byte_at(b, at), grown(a, b)),
{
    lemma_byte_sigma(a, b, at, by, v.start);
    lemma_byte_sigma(a, b, at, by, v.end);
}

/// A feature told in bytes and moved, or moved and told in bytes, is the same.
pub proof fn lemma_put_feature(a: Seq<char>, b: Seq<char>, at: int, by: int, v: Marked<FeatureView>, lo: int, hi: int)
    requires
        widened(a, b, at, by),
        0 <= lo <= hi <= b.len(),
        exact_feature(b, v, lo, hi),
    ensures
        <Spanned<Feature> as InBytes>::bytes_of(v.moved(at, by), a) == <Spanned<Feature> as InBytes>::bytes_of(
            v,
            b,
        ).moved(byte_at(b, at), grown(a, b)),
{
    lemma_byte_sigma(a, b, at, by, v.start);
    lemma_byte_sigma(a, b, at, by, v.end);
    assert(<Feature as InBytes>::bytes_of(v.node, a) == v.node);
    assert(<Feature as InBytes>::bytes_of(v.node, b) == v.node);
}

/// An optional piece of text told in bytes and moved, or moved and told in bytes, is the same.
pub proof fn lemma_put_opt(a: Seq<char>, b: Seq<char>, at: int, by: int, v: Option<Marked<Seq<char>>>, lo: int, hi: int)
    requires
        widened(a, b, at, by),
        0 <= lo <= hi <= b.len(),
        exact_opt(b, v, lo, hi),
    ensures
        <Option<Spanned<String>> as InBytes>::bytes_of(v.moved(at, by), a) == <Option<Spanned<String>> as InBytes>::bytes_of(
            v,
            b,
        ).moved(byte_at(b, at), grown(a, b)),
{
    if let Some(m) = v {
        lemma_put(a, b, at, by, m, lo, hi);
    }
}

/// Pieces of text told in bytes and moved, or moved and told in bytes, are the same.
pub proof fn lemma_put_all(a: Seq<char>, b: Seq<char>, at: int, by: int, v: Seq<Marked<Seq<char>>>, lo: int, hi: int)
    requires
        widened(a, b, at, by),
        0 <= lo <= hi <= b.len(),
        exact_all(b, v, lo, hi),
    ensures
        <Vec<Spanned<String>> as InBytes>::bytes_of(v.moved(at, by), a) == <Vec<Spanned<String>> as InBytes>::bytes_of(
            v,
            b,
        ).moved(byte_at(b, at), grown(a, b)),
{
    let first = <Vec<Spanned<String>> as InBytes>::bytes_of(v.moved(at, by), a);
    let second = <Vec<Spanned<String>> as InBytes>::bytes_of(v, b).moved(byte_at(b, at), grown(a, b));
    assert forall|i: int| 0 <= i < v.len() implies first[i] == second[i] by {
        lemma_put(a, b, at, by, v[i], lo, hi);
    }
    assert(first =~= second);
}

/// Features told in bytes and moved, or moved and told in bytes, is the same.
pub proof fn lemma_put_features(a: Seq<char>, b: Seq<char>, at: int, by: int, v: Seq<Marked<FeatureView>>, lo: int, hi: int)
    requires
        widened(a, b, at, by),
        0 <= lo <= hi <= b.len(),
        exact_features(b, v, lo, hi),
    ensures
        <Vec<Spanned<Feature>> as InBytes>::bytes_of(v.moved(at, by), a) == <Vec<Spanned<Feature>> as InBytes>::bytes_of(
            v,
            b,
        ).moved(byte_at(b, at), grown(a, b)),
{
    let first = <Vec<Spanned<Feature>> as InBytes>::bytes_of(v.moved(at, by), a);
    let second = <Vec<Spanned<Feature>> as InBytes>::bytes_of(v, b).moved(byte_at(b, at), grown(a, b));
    assert forall|i: int| 0 <= i < v.len() implies first[i] == second[i] by {
        lemma_put_feature(a, b, at, by, v[i], lo, hi);
    }
    assert(first =~= second);
}

/// A category told in bytes and moved, or moved and told in bytes, is the same.
pub proof fn lemma_put_category(a: Seq<char>, b: Seq<char>, at: int, by: int, v: CategoryView, lo: int, hi: int)
    requires
        widened(a, b, at, by),
        0 <= lo <= hi <= b.len(),
        exact_category(b, v, lo, hi),
    ensures
        <Category as InBytes>::bytes_of(v.moved(at, by), a) == <Category as InBytes>::bytes_of(
            v,
            b,
        ).moved(byte_at(b, at), grown(a, b)),
{
    if let Some(m) = v.base_class {
        lemma_put_letter(a, b, at, by, m, lo, hi);
    }
    lemma_put_features(a, b, at, by, v.features, lo, hi);
}

/// A segment told in bytes and moved, or moved and told in bytes, is the same.
pub proof fn lemma_put_segment(a: Seq<char>, b: Seq<char>, at: int, by: int, v: SegmentView, lo: int, hi: int)
    requires
        widened(a, b, at, by),
        0 <= lo <= hi <= b.len(),
        exact_segment(b, v, lo, hi),
    ensures
        <Segment as InBytes>::bytes_of(v.moved(at, by), a) == <Segment as InBytes>::bytes_of(
            v,
            b,
        ).moved(byte_at(b, at), grown(a, b)),
{
    if let SegmentView::Category(category) = v {
        lemma_put_category(a, b, at, by, category, lo, hi);
    }
}

/// Segments told in bytes and moved, or moved and told in bytes, is the same.
pub proof fn lemma_put_segments(a: Seq<char>, b: Seq<char>, at: int, by: int, v: Seq<SegmentView>, lo: int, hi: int)
    requires
        widened(a, b, at, by),
        0 <= lo <= hi <= b.len(),
        exact_segments(b, v, lo, hi),
    ensures
        <Vec<Segment> as InBytes>::bytes_of(v.moved(at, by), a) == <Vec<Segment> as InBytes>::bytes_of(
            v,
            b,
        ).moved(byte_at(b, at), grown(a, b)),
{
    let first = <Vec<Segment> as InBytes>::bytes_of(v.moved(at, by), a);
    let second = <Vec<Segment> as InBytes>::bytes_of(v, b).moved(byte_at(b, at), grown(a, b));
    assert forall|i: int| 0 <= i < v.len() implies first[i] == second[i] by {
        lemma_put_segment(a, b, at, by, v[i], lo, hi);
    }
    assert(first =~= second);
}

/// A source told in bytes and moved, or moved and told in bytes, is the same.
pub proof fn lemma_put_source(a: Seq<char>, b: Seq<char>, at: int, by: int, v: Marked<SourceView>, lo: int, hi: int)
    requires
        widened(a, b, at, by),
        0 <= lo <= hi <= b.len(),
        exact_source(b, v, lo, hi),
    ensures
        <Spanned<Source> as InBytes>::bytes_of(v.moved(at, by), a) == <Spanned<Source> as InBytes>::bytes_of(
            v,
            b,
        ).moved(byte_at(b, at), grown(a, b)),
{
    lemma_byte_sigma(a, b, at, by, v.start);
    lemma_byte_sigma(a, b, at, by, v.end);
    if let SourceView::Pattern(items) = v.node {
        lemma_put_segments(a, b, at, by, items, lo, hi);
    }
}

/// A target told in bytes and moved, or moved and told in bytes, is the same.
pub proof fn lemma_put_target(a: Seq<char>, b: Seq<char>, at: int, by: int, v: Marked<TargetView>, lo: int, hi: int)
    requires
        widened(a, b, at, by),
        0 <= lo <= hi <= b.len(),
        exact_target(b, v, lo, hi),
    ensures
        <Spanned<Target> as InBytes>::bytes_of(v.moved(at, by), a) == <Spanned<Target> as InBytes>::bytes_of(
            v,
            b,
        ).moved(byte_at(b, at), grown(a, b)),
{
    lemma_byte_sigma(a, b, at, by, v.start);
    lemma_byte_sigma(a, b, at, by, v.end);
    match v.node {
        TargetView::Modification(items) => {
            lemma_put_features(a, b, at, by, items, lo, hi);
        },
        TargetView::Pattern(items) => {
            lemma_put_segments(a, b, at, by, items, lo, hi);
        },
        TargetView::Empty => {},
    }
}

/// An element of an environment told in bytes and moved, or moved and told in bytes, is the same.
pub proof fn lemma_put_element(a: Seq<char>, b: Seq<char>, at: int, by: int, v: EnvElementView, lo: int, hi: int)
    requires
        widened(a, b, at, by),
        0 <= lo <= hi <= b.len(),
        exact_element(b, v, lo, hi),
    ensures
        <EnvElement as InBytes>::bytes_of(v.moved(at, by), a) == <EnvElement as InBytes>::bytes_of(
            v,
            b,
        ).moved(byte_at(b, at), grown(a, b)),
{
    if let EnvElementView::Segment(segment) = v {
        lemma_put_segment(a, b, at, by, segment, lo, hi);
    }
}

/// Elements of an environment told in bytes and moved, or moved and told in bytes, is the same.
pub proof fn lemma_put_elements(a: Seq<char>, b: Seq<char>, at: int, by: int, v: Seq<EnvElementView>, lo: int, hi: int)
    requires
        widened(a, b, at, by),
        0 <= lo <= hi <= b.len(),
        exact_elements(b, v, lo, hi),
    ensures
        <Vec<EnvElement> as InBytes>::bytes_of(v.moved(at, by), a) == <Vec<EnvElement> as InBytes>::bytes_of(
            v,
            b,
        ).moved(byte_at(b, at), grown(a, b)),
{
    let first = <Vec<EnvElement> as InBytes>::bytes_of(v.moved(at, by), a);
    let second = <Vec<EnvElement> as InBytes>::bytes_of(v, b).moved(byte_at(b, at), grown(a, b));
    assert forall|i: int| 0 <= i < v.len() implies first[i] == second[i] by {
        lemma_put_element(a, b, at, by, v[i], lo, hi);
    }
    assert(first =~= second);
}

/// A side of an environment told in bytes and moved, or moved and told in bytes, is the same.
pub proof fn lemma_put_side(a: Seq<char>, b: Seq<char>, at: int, by: int, v: Option<Seq<EnvElementView>>, lo: int, hi: int)
    requires
        widened(a, b, at, by),
        0 <= lo <= hi <= b.len(),
        exact_side(b, v, lo, hi),
    ensures
        <Option<Vec<EnvElement>> as InBytes>::bytes_of(v.moved(at, by), a) == <Option<Vec<EnvElement>> as InBytes>::bytes_of(
            v,
            b,
        ).moved(byte_at(b, at), grown(a, b)),
{
    if let Some(items) = v {
        lemma_put_elements(a, b, at, by, items, lo, hi);
    }
}

/// An environment told in bytes and moved, or moved and told in bytes, is the same.
pub proof fn lemma_put_environment(a: Seq<char>, b: Seq<char>, at: int, by: int, v: Marked<EnvironmentView>, lo: int, hi: int)
    requires
        widened(a, b, at, by),
        0 <= lo <= hi <= b.len(),
        exact_environment(b, v, lo, hi),
    ensures
        <Spanned<Environment> as InBytes>::bytes_of(v.moved(at, by), a) == <Spanned<Environment> as InBytes>::bytes_of(
            v,
            b,
        ).moved(byte_at(b, at), grown(a, b)),
{
    lemma_byte_sigma(a, b, at, by, v.start);
    lemma_byte_sigma(a, b, at, by, v.end);
    lemma_put_side(a, b, at, by, v.node.before, lo, hi);
    lemma_put_side(a, b, at, by, v.node.after, lo, hi);
}

/// A definition told in bytes and moved, or moved and told in bytes, is the same.
pub proof fn lemma_put_definition(a: Seq<char>, b: Seq<char>, at: int, by: int, v: DefinitionView, lo: int, hi: int)
    requires
        widened(a, b, at, by),
        0 <= lo <= hi <= b.len(),
        exact_definition(b, v, lo, hi),
    ensures
        <Definition as InBytes>::bytes_of(v.moved(at, by), a) == <Definition as InBytes>::bytes_of(
            v,
            b,
        ).moved(byte_at(b, at), grown(a, b)),
{
    lemma_put_opt(a, b, at, by, v.pos, lo, hi);
    lemma_put(a, b, at, by, v.definition, lo, hi);
}

/// Definitions told in bytes and moved, or moved and told in bytes, is the same.
pub proof fn lemma_put_definitions(a: Seq<char>, b: Seq<char>, at: int, by: int, v: Seq<DefinitionView>, lo: int, hi: int)
    requires
        widened(a, b, at, by),
        0 <= lo <= hi <= b.len(),
        exact_definitions(b, v, lo, hi),
    ensures
        <Vec<Definition> as InBytes>::bytes_of(v.moved(at, by), a) == <Vec<Definition> as InBytes>::bytes_of(
            v,
            b,
        ).moved(byte_at(b, at), grown(a, b)),
{
    let first = <Vec<Definition> as InBytes>::bytes_of(v.moved(at, by), a);
    let second = <Vec<Definition> as InBytes>::bytes_of(v, b).moved(byte_at(b, at), grown(a, b));
    assert forall|i: int| 0 <= i < v.len() implies first[i] == second[i] by {
        lemma_put_definition(a, b, at, by, v[i], lo, hi);
    }
    assert(first =~= second);
}

/// The definition of a phoneme told in bytes and moved, or moved and told in bytes, is the same.
pub proof fn lemma_put_phoneme(a: Seq<char>, b: Seq<char>, at: int, by: int, v: Marked<PhonemeDefView>, lo: int, hi: int)
    requires
        widened(a, b, at, by),
        0 <= lo <= hi <= b.len(),
        exact_phoneme(b, v, lo, hi),
    ensures
        <Spanned<PhonemeDef> as InBytes>::bytes_of(v.moved(at, by), a) == <Spanned<PhonemeDef> as InBytes>::bytes_of(
            v,
            b,
        ).moved(byte_at(b, at), grown(a, b)),
{
    lemma_byte_sigma(a, b, at, by, v.start);
    lemma_byte_sigma(a, b, at, by, v.end);
    lemma_put(a, b, at, by, v.node.label, lo, hi);
    lemma_put_all(a, b, at, by, v.node.traits, lo, hi);
}

/// Definitions of phonemes told in bytes and moved, or moved and told in bytes, is the same.
pub proof fn lemma_put_phonemes(a: Seq<char>, b: Seq<char>, at: int, by: int, v: Seq<Marked<PhonemeDefView>>, lo: int, hi: int)
    requires
        widened(a, b, at, by),
        0 <= lo <= hi <= b.len(),
        exact_phonemes(b, v, lo, hi),
    ensures
        <Vec<Spanned<PhonemeDef>> as InBytes>::bytes_of(v.moved(at, by), a) == <Vec<Spanned<PhonemeDef>> as InBytes>::bytes_of(
            v,
            b,
        ).moved(byte_at(b, at), grown(a, b)),
{
    let first = <Vec<Spanned<PhonemeDef>> as InBytes>::bytes_of(v.moved(at, by), a);
    let second = <Vec<Spanned<PhonemeDef>> as InBytes>::bytes_of(v, b).moved(byte_at(b, at), grown(a, b));
    assert forall|i: int| 0 <= i < v.len() implies first[i] == second[i] by {
        lemma_put_phoneme(a, b, at, by, v[i], lo, hi);
    }
    assert(first =~= second);
}

/// A member of a trait told in bytes and moved, or moved and told in bytes, is the same.
pub proof fn lemma_put_member(a: Seq<char>, b: Seq<char>, at: int, by: int, v: Marked<TraitMemberView>, lo: int, hi: int)
    requires
        widened(a, b, at, by),
        0 <= lo <= hi <= b.len(),
        exact_member(b, v, lo, hi),
    ensures
        <Spanned<TraitMember> as InBytes>::bytes_of(v.moved(at, by), a) == <Spanned<TraitMember> as InBytes>::bytes_of(
            v,
            b,
        ).moved(byte_at(b, at), grown(a, b)),
{
    lemma_byte_sigma(a, b, at, by, v.start);
    lemma_byte_sigma(a, b, at, by, v.end);
    lemma_put_all(a, b, at, by, v.node.labels, lo, hi);
    lemma_put_opt(a, b, at, by, v.node.notation, lo, hi);
}

/// Members of a trait told in bytes and moved, or moved and told in bytes, is the same.
pub proof fn lemma_put_members(a: Seq<char>, b: Seq<char>, at: int, by: int, v: Seq<Marked<TraitMemberView>>, lo: int, hi: int)
    requires
        widened(a, b, at, by),
        0 <= lo <= hi <= b.len(),
        exact_members(b, v, lo, hi),
    ensures
        <Vec<Spanned<TraitMember>> as InBytes>::bytes_of(v.moved(at, by), a) == <Vec<Spanned<TraitMember>> as InBytes>::bytes_of(
            v,
            b,
        ).moved(byte_at(b, at), grown(a, b)),
{
    let first = <Vec<Spanned<TraitMember>> as InBytes>::bytes_of(v.moved(at, by), a);
    let second = <Vec<Spanned<TraitMember>> as InBytes>::bytes_of(v, b).moved(byte_at(b, at), grown(a, b));
    assert forall|i: int| 0 <= i < v.len() implies first[i] == second[i] by {
        lemma_put_member(a, b, at, by, v[i], lo, hi);
    }
    assert(first =~= second);
}

/// The body of a series told in bytes and moved, or moved and told in bytes, is the same.
pub proof fn lemma_put_series(a: Seq<char>, b: Seq<char>, at: int, by: int, v: Marked<SeriesView>, lo: int, hi: int)
    requires
        widened(a, b, at, by),
        0 <= lo <= hi <= b.len(),
        exact_series(b, v, lo, hi),
    ensures
        <Spanned<Series> as InBytes>::bytes_of(v.moved(at, by), a) == <Spanned<Series> as InBytes>::bytes_of(
            v,
            b,
        ).moved(byte_at(b, at), grown(a, b)),
{
    lemma_byte_sigma(a, b, at, by, v.start);
    lemma_byte_sigma(a, b, at, by, v.end);
    match v.node {
        SeriesView::Category(category) => {
            lemma_put_category(a, b, at, by, category, lo, hi);
        },
        SeriesView::List(items) => {
            lemma_put_all(a, b, at, by, items, lo, hi);
        },
    }
}

/// A time told in bytes and moved, or moved and told in bytes, is the same.
pub proof fn lemma_put_time(a: Seq<char>, b: Seq<char>, at: int, by: int, v: Option<Marked<TimeView>>, lo: int, hi: int)
    requires
        widened(a, b, at, by),
        0 <= lo <= hi <= b.len(),
        exact_time(b, v, lo, hi),
    ensures
        <Option<Spanned<Time>> as InBytes>::bytes_of(v.moved(at, by), a) == <Option<Spanned<Time>> as InBytes>::bytes_of(
            v,
            b,
        ).moved(byte_at(b, at), grown(a, b)),
{
    if let Some(m) = v {
        lemma_byte_sigma(a, b, at, by, m.start);
        lemma_byte_sigma(a, b, at, by, m.end);
    }
}

/// The environment of a sound change told in bytes and moved, or moved and told in bytes, is the same.
pub proof fn lemma_put_context(a: Seq<char>, b: Seq<char>, at: int, by: int, v: Option<Marked<EnvironmentView>>, lo: int, hi: int)
    requires
        widened(a, b, at, by),
        0 <= lo <= hi <= b.len(),
        exact_context(b, v, lo, hi),
    ensures
        <Option<Spanned<Environment>> as InBytes>::bytes_of(v.moved(at, by), a) == <Option<Spanned<Environment>> as InBytes>::bytes_of(
            v,
            b,
        ).moved(byte_at(b, at), grown(a, b)),
{
    if let Some(m) = v {
        lemma_put_environment(a, b, at, by, m, lo, hi);
    }
}

/// A statement told in bytes and moved, or moved and told in bytes, is the same.
pub proof fn lemma_put_stmt(a: Seq<char>, b: Seq<char>, at: int, by: int, v: StmtView, lo: int, hi: int)
    requires
        widened(a, b, at, by),
        0 <= lo <= hi <= b.len(),
        exact_stmt(b, v, lo, hi),
    ensures
        <Stmt as InBytes>::bytes_of(v.moved(at, by), a) == <Stmt as InBytes>::bytes_of(
            v,
            b,
        ).moved(byte_at(b, at), grown(a, b)),
{
    match v {
        StmtView::SoundChange { source, target, environment, description } => {
            lemma_put_source(a, b, at, by, source, lo, hi);
            lemma_put_target(a, b, at, by, target, lo, hi);
            lemma_put_context(a, b, at, by, environment, lo, hi);
            lemma_put_opt(a, b, at, by, description, lo, hi);
        },
        StmtView::Import { path, absolute, names } => {
            lemma_put_all(a, b, at, by, path, lo, hi);
            lemma_put_all(a, b, at, by, names, lo, hi);
        },
        StmtView::Language { id, parent, name } => {
            lemma_put(a, b, at, by, id, lo, hi);
            lemma_put_opt(a, b, at, by, parent, lo, hi);
            lemma_put_opt(a, b, at, by, name, lo, hi);
        },
        StmtView::Word { gloss, pronunciation, definitions } => {
            lemma_put(a, b, at, by, gloss, lo, hi);
            lemma_byte_sigma(a, b, at, by, pronunciation.start);
            lemma_byte_sigma(a, b, at, by, pronunciation.end);
            lemma_put_definitions(a, b, at, by, definitions, lo, hi);
            assert(<Vec<String> as InBytes>::bytes_of(pronunciation.node, a)
                =~= <Vec<String> as InBytes>::bytes_of(pronunciation.node, b));
        },
        StmtView::Class { label, encodes, annotates, phonemes } => {
            lemma_put_label(a, b, at, by, label, lo, hi);
            lemma_put_all(a, b, at, by, encodes, lo, hi);
            lemma_put_all(a, b, at, by, annotates, lo, hi);
            lemma_put_phonemes(a, b, at, by, phonemes, lo, hi);
        },
        StmtView::Series { label, series } => {
            lemma_put_label(a, b, at, by, label, lo, hi);
            lemma_put_series(a, b, at, by, series, lo, hi);
        },
        StmtView::Trait { label, members } => {
            lemma_put(a, b, at, by, label, lo, hi);
            lemma_put_members(a, b, at, by, members, lo, hi);
        },
        StmtView::Milestone { time, language } => {
            lemma_put_time(a, b, at, by, time, lo, hi);
            lemma_put_opt(a, b, at, by, language, lo, hi);
        },
    }
}

/// Statements told in bytes and moved, or moved and told in bytes, are the
/// same.
pub proof fn lemma_put_program(
    a: Seq<char>,
    b: Seq<char>,
    at: int,
    by: int,
    v: Seq<Marked<StmtView>>,
    lo: int,
    hi: int,
)
    requires
        widened(a, b, at, by),
        0 <= lo <= hi <= b.len(),
        exact_program(b, v, lo, hi),
    ensures
        <Vec<Spanned<Stmt>> as InBytes>::bytes_of(v.moved(at, by), a) == <Vec<
            Spanned<Stmt>,
        > as InBytes>::bytes_of(v, b).moved(byte_at(b, at), grown(a, b)),
{
    let first = <Vec<Spanned<Stmt>> as InBytes>::bytes_of(v.moved(at, by), a);
    let second = <Vec<Spanned<Stmt>> as InBytes>::bytes_of(v, b).moved(byte_at(b, at), grown(a, b));
    assert forall|i: int| 0 <= i < v.len() implies first[i] == second[i] by {
        lemma_byte_sigma(a, b, at, by, v[i].start);
        lemma_byte_sigma(a, b, at, by, v[i].end);
        lemma_put_stmt(a, b, at, by, v[i].node, v[i].start, v[i].end);
    }
    assert(first =~= second);
}

} // verus!
