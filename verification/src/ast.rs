//! The program representation: statements and what they are made of.
//!
//! The tree is built once from the source text and holds no reference back to
//! it; a span is a pair of offsets. Each type has a view: the same tree over
//! `Seq` and `int`.

use crate::bytes::{InBytes, Offsets};
use crate::model::{Marked, Model, Replicate, Spanned};
use vstd::prelude::*;

verus! {

/// One statement of a program.
#[derive(Debug, PartialEq)]
pub enum Stmt {
    SoundChange {
        source: Spanned<Source>,
        target: Spanned<Target>,
        environment: Option<Spanned<Environment>>,
        description: Option<Spanned<String>>,
    },
    Import { path: Vec<Spanned<String>>, absolute: bool, names: Vec<Spanned<String>> },
    Language { id: Spanned<String>, parent: Option<Spanned<String>>, name: Option<Spanned<String>> },
    Word { gloss: Spanned<String>, pronunciation: Spanned<Vec<String>>, definitions: Vec<Definition> },
    Class {
        label: Spanned<String>,
        encodes: Vec<Spanned<String>>,
        annotates: Vec<Spanned<String>>,
        phonemes: Vec<Spanned<PhonemeDef>>,
    },
    Series { label: Spanned<String>, series: Spanned<Series> },
    Trait { label: Spanned<String>, members: Vec<Spanned<TraitMember>> },
    Milestone { time: Option<Spanned<Time>>, language: Option<Spanned<String>> },
}

/// What a sound change rewrites.
#[derive(Debug, PartialEq)]
pub enum Source {
    Pattern(Pattern),
    Empty,
}

/// What a sound change puts in the source's place.
#[derive(Debug, PartialEq)]
pub enum Target {
    /// An edit of the named features; the rest of the segment stays.
    Modification(Vec<Spanned<Feature>>),
    Pattern(Pattern),
    Empty,
}

/// A signed trait name.
#[derive(Debug, PartialEq)]
pub enum Feature {
    Positive(String),
    Negative(String),
}

/// A non-empty sequence of segments.
pub type Pattern = Vec<Segment>;

/// One position of a pattern.
#[derive(Debug, PartialEq)]
pub enum Segment {
    Category(Category),
    Phonemes(String),
}

/// A bracketed class expression: an optional base class and its features.
#[derive(Debug, PartialEq)]
pub struct Category {
    pub base_class: Option<Spanned<char>>,
    pub features: Vec<Spanned<Feature>>,
}

/// The context of a sound change, on either side of the focus.
#[derive(Debug, PartialEq)]
pub struct Environment {
    pub before: Option<EnvPattern>,
    pub after: Option<EnvPattern>,
}

/// A non-empty sequence of environment elements.
pub type EnvPattern = Vec<EnvElement>;

#[derive(Debug, PartialEq)]
pub enum EnvElement {
    Segment(Segment),
    SyllableBoundary,
    WordBoundary,
}

/// One sense of a word: an optional part of speech, and free text.
#[derive(Debug, PartialEq)]
pub struct Definition {
    pub pos: Option<Spanned<String>>,
    pub definition: Spanned<String>,
}

/// The body of a series.
#[derive(Debug, PartialEq)]
pub enum Series {
    Category(Category),
    List(Vec<Spanned<String>>),
}

/// One phoneme of a class, with the traits that tell it apart.
#[derive(Debug, PartialEq)]
pub struct PhonemeDef {
    pub label: Spanned<String>,
    pub traits: Vec<Spanned<String>>,
}

/// One member of a trait: its alternative labels, its notation, and whether
/// it is the default.
#[derive(Debug, PartialEq)]
pub struct TraitMember {
    pub labels: Vec<Spanned<String>>,
    pub notation: Option<Spanned<String>>,
    pub default: bool,
}

/// A point or a stretch of time.
#[derive(Debug, PartialEq)]
pub enum Time {
    Instant(i64),
    Range(i64, i64),
}

pub enum FeatureView {
    Positive(Seq<char>),
    Negative(Seq<char>),
}

pub struct CategoryView {
    pub base_class: Option<Marked<char>>,
    pub features: Seq<Marked<FeatureView>>,
}

pub enum SegmentView {
    Category(CategoryView),
    Phonemes(Seq<char>),
}

pub enum SourceView {
    Pattern(Seq<SegmentView>),
    Empty,
}

pub enum TargetView {
    Modification(Seq<Marked<FeatureView>>),
    Pattern(Seq<SegmentView>),
    Empty,
}

pub enum EnvElementView {
    Segment(SegmentView),
    SyllableBoundary,
    WordBoundary,
}

pub struct EnvironmentView {
    pub before: Option<Seq<EnvElementView>>,
    pub after: Option<Seq<EnvElementView>>,
}

pub struct DefinitionView {
    pub pos: Option<Marked<Seq<char>>>,
    pub definition: Marked<Seq<char>>,
}

pub enum SeriesView {
    Category(CategoryView),
    List(Seq<Marked<Seq<char>>>),
}

pub struct PhonemeDefView {
    pub label: Marked<Seq<char>>,
    pub traits: Seq<Marked<Seq<char>>>,
}

pub struct TraitMemberView {
    pub labels: Seq<Marked<Seq<char>>>,
    pub notation: Option<Marked<Seq<char>>>,
    pub default: bool,
}

pub enum TimeView {
    Instant(int),
    Range(int, int),
}

pub enum StmtView {
    SoundChange {
        source: Marked<SourceView>,
        target: Marked<TargetView>,
        environment: Option<Marked<EnvironmentView>>,
        description: Option<Marked<Seq<char>>>,
    },
    Import { path: Seq<Marked<Seq<char>>>, absolute: bool, names: Seq<Marked<Seq<char>>> },
    Language {
        id: Marked<Seq<char>>,
        parent: Option<Marked<Seq<char>>>,
        name: Option<Marked<Seq<char>>>,
    },
    Word {
        gloss: Marked<Seq<char>>,
        pronunciation: Marked<Seq<Seq<char>>>,
        definitions: Seq<DefinitionView>,
    },
    Class {
        label: Marked<Seq<char>>,
        encodes: Seq<Marked<Seq<char>>>,
        annotates: Seq<Marked<Seq<char>>>,
        phonemes: Seq<Marked<PhonemeDefView>>,
    },
    Series { label: Marked<Seq<char>>, series: Marked<SeriesView> },
    Trait { label: Marked<Seq<char>>, members: Seq<Marked<TraitMemberView>> },
    Milestone { time: Option<Marked<TimeView>>, language: Option<Marked<Seq<char>>> },
}

impl Model for Feature {
    type M = FeatureView;

    open spec fn model(&self) -> FeatureView {
        match self {
            Feature::Positive(name) => FeatureView::Positive(name@),
            Feature::Negative(name) => FeatureView::Negative(name@),
        }
    }
}

impl Model for Category {
    type M = CategoryView;

    open spec fn model(&self) -> CategoryView {
        CategoryView { base_class: self.base_class.model(), features: self.features.model() }
    }
}

impl Model for Segment {
    type M = SegmentView;

    open spec fn model(&self) -> SegmentView {
        match self {
            Segment::Category(category) => SegmentView::Category(category.model()),
            Segment::Phonemes(text) => SegmentView::Phonemes(text@),
        }
    }
}

impl Model for Source {
    type M = SourceView;

    open spec fn model(&self) -> SourceView {
        match self {
            Source::Pattern(pattern) => SourceView::Pattern(pattern.model()),
            Source::Empty => SourceView::Empty,
        }
    }
}

impl Model for Target {
    type M = TargetView;

    open spec fn model(&self) -> TargetView {
        match self {
            Target::Modification(features) => TargetView::Modification(features.model()),
            Target::Pattern(pattern) => TargetView::Pattern(pattern.model()),
            Target::Empty => TargetView::Empty,
        }
    }
}

impl Model for EnvElement {
    type M = EnvElementView;

    open spec fn model(&self) -> EnvElementView {
        match self {
            EnvElement::Segment(segment) => EnvElementView::Segment(segment.model()),
            EnvElement::SyllableBoundary => EnvElementView::SyllableBoundary,
            EnvElement::WordBoundary => EnvElementView::WordBoundary,
        }
    }
}

impl Model for Environment {
    type M = EnvironmentView;

    open spec fn model(&self) -> EnvironmentView {
        EnvironmentView { before: self.before.model(), after: self.after.model() }
    }
}

impl Model for Definition {
    type M = DefinitionView;

    open spec fn model(&self) -> DefinitionView {
        DefinitionView { pos: self.pos.model(), definition: self.definition.model() }
    }
}

impl Model for Series {
    type M = SeriesView;

    open spec fn model(&self) -> SeriesView {
        match self {
            Series::Category(category) => SeriesView::Category(category.model()),
            Series::List(items) => SeriesView::List(items.model()),
        }
    }
}

impl Model for PhonemeDef {
    type M = PhonemeDefView;

    open spec fn model(&self) -> PhonemeDefView {
        PhonemeDefView { label: self.label.model(), traits: self.traits.model() }
    }
}

impl Model for TraitMember {
    type M = TraitMemberView;

    open spec fn model(&self) -> TraitMemberView {
        TraitMemberView {
            labels: self.labels.model(),
            notation: self.notation.model(),
            default: self.default,
        }
    }
}

impl Model for Time {
    type M = TimeView;

    open spec fn model(&self) -> TimeView {
        match self {
            Time::Instant(at) => TimeView::Instant(*at as int),
            Time::Range(from, to) => TimeView::Range(*from as int, *to as int),
        }
    }
}

impl Model for Stmt {
    type M = StmtView;

    open spec fn model(&self) -> StmtView {
        match self {
            Stmt::SoundChange { source, target, environment, description } => StmtView::SoundChange {
                source: source.model(),
                target: target.model(),
                environment: environment.model(),
                description: description.model(),
            },
            Stmt::Import { path, absolute, names } => StmtView::Import {
                path: path.model(),
                absolute: *absolute,
                names: names.model(),
            },
            Stmt::Language { id, parent, name } => StmtView::Language {
                id: id.model(),
                parent: parent.model(),
                name: name.model(),
            },
            Stmt::Word { gloss, pronunciation, definitions } => StmtView::Word {
                gloss: gloss.model(),
                pronunciation: pronunciation.model(),
                definitions: definitions.model(),
            },
            Stmt::Class { label, encodes, annotates, phonemes } => StmtView::Class {
                label: label.model(),
                encodes: encodes.model(),
                annotates: annotates.model(),
                phonemes: phonemes.model(),
            },
            Stmt::Series { label, series } => StmtView::Series {
                label: label.model(),
                series: series.model(),
            },
            Stmt::Trait { label, members } => StmtView::Trait {
                label: label.model(),
                members: members.model(),
            },
            Stmt::Milestone { time, language } => StmtView::Milestone {
                time: time.model(),
                language: language.model(),
            },
        }
    }
}

impl View for Feature {
    type V = FeatureView;

    open spec fn view(&self) -> FeatureView {
        self.model()
    }
}

impl View for Category {
    type V = CategoryView;

    open spec fn view(&self) -> CategoryView {
        self.model()
    }
}

impl View for Segment {
    type V = SegmentView;

    open spec fn view(&self) -> SegmentView {
        self.model()
    }
}

impl View for Source {
    type V = SourceView;

    open spec fn view(&self) -> SourceView {
        self.model()
    }
}

impl View for Target {
    type V = TargetView;

    open spec fn view(&self) -> TargetView {
        self.model()
    }
}

impl View for EnvElement {
    type V = EnvElementView;

    open spec fn view(&self) -> EnvElementView {
        self.model()
    }
}

impl View for Environment {
    type V = EnvironmentView;

    open spec fn view(&self) -> EnvironmentView {
        self.model()
    }
}

impl View for Definition {
    type V = DefinitionView;

    open spec fn view(&self) -> DefinitionView {
        self.model()
    }
}

impl View for Series {
    type V = SeriesView;

    open spec fn view(&self) -> SeriesView {
        self.model()
    }
}

impl View for PhonemeDef {
    type V = PhonemeDefView;

    open spec fn view(&self) -> PhonemeDefView {
        self.model()
    }
}

impl View for TraitMember {
    type V = TraitMemberView;

    open spec fn view(&self) -> TraitMemberView {
        self.model()
    }
}

impl View for Time {
    type V = TimeView;

    open spec fn view(&self) -> TimeView {
        self.model()
    }
}

impl View for Stmt {
    type V = StmtView;

    open spec fn view(&self) -> StmtView {
        self.model()
    }
}

impl Replicate for Feature {
    fn replicate(&self) -> (r: Feature) {
        match self {
            Feature::Positive(v0) => Feature::Positive(v0.replicate()),
            Feature::Negative(v0) => Feature::Negative(v0.replicate()),
        }
    }
}

impl Clone for Feature {
    fn clone(&self) -> (r: Feature)
        ensures
            r@ == self@,
    {
        self.replicate()
    }
}

impl Replicate for Category {
    fn replicate(&self) -> (r: Category) {
        Category {
            base_class: self.base_class.replicate(),
            features: self.features.replicate(),
        }
    }
}

impl Clone for Category {
    fn clone(&self) -> (r: Category)
        ensures
            r@ == self@,
    {
        self.replicate()
    }
}

impl Replicate for Segment {
    fn replicate(&self) -> (r: Segment) {
        match self {
            Segment::Category(v0) => Segment::Category(v0.replicate()),
            Segment::Phonemes(v0) => Segment::Phonemes(v0.replicate()),
        }
    }
}

impl Clone for Segment {
    fn clone(&self) -> (r: Segment)
        ensures
            r@ == self@,
    {
        self.replicate()
    }
}

impl Replicate for Source {
    fn replicate(&self) -> (r: Source) {
        match self {
            Source::Pattern(v0) => Source::Pattern(v0.replicate()),
            Source::Empty => Source::Empty,
        }
    }
}

impl Clone for Source {
    fn clone(&self) -> (r: Source)
        ensures
            r@ == self@,
    {
        self.replicate()
    }
}

impl Replicate for Target {
    fn replicate(&self) -> (r: Target) {
        match self {
            Target::Modification(v0) => Target::Modification(v0.replicate()),
            Target::Pattern(v0) => Target::Pattern(v0.replicate()),
            Target::Empty => Target::Empty,
        }
    }
}

impl Clone for Target {
    fn clone(&self) -> (r: Target)
        ensures
            r@ == self@,
    {
        self.replicate()
    }
}

impl Replicate for EnvElement {
    fn replicate(&self) -> (r: EnvElement) {
        match self {
            EnvElement::Segment(v0) => EnvElement::Segment(v0.replicate()),
            EnvElement::SyllableBoundary => EnvElement::SyllableBoundary,
            EnvElement::WordBoundary => EnvElement::WordBoundary,
        }
    }
}

impl Clone for EnvElement {
    fn clone(&self) -> (r: EnvElement)
        ensures
            r@ == self@,
    {
        self.replicate()
    }
}

impl Replicate for Environment {
    fn replicate(&self) -> (r: Environment) {
        Environment {
            before: self.before.replicate(),
            after: self.after.replicate(),
        }
    }
}

impl Clone for Environment {
    fn clone(&self) -> (r: Environment)
        ensures
            r@ == self@,
    {
        self.replicate()
    }
}

impl Replicate for Definition {
    fn replicate(&self) -> (r: Definition) {
        Definition {
            pos: self.pos.replicate(),
            definition: self.definition.replicate(),
        }
    }
}

impl Clone for Definition {
    fn clone(&self) -> (r: Definition)
        ensures
            r@ == self@,
    {
        self.replicate()
    }
}

impl Replicate for Series {
    fn replicate(&self) -> (r: Series) {
        match self {
            Series::Category(v0) => Series::Category(v0.replicate()),
            Series::List(v0) => Series::List(v0.replicate()),
        }
    }
}

impl Clone for Series {
    fn clone(&self) -> (r: Series)
        ensures
            r@ == self@,
    {
        self.replicate()
    }
}

impl Replicate for PhonemeDef {
    fn replicate(&self) -> (r: PhonemeDef) {
        PhonemeDef {
            label: self.label.replicate(),
            traits: self.traits.replicate(),
        }
    }
}

impl Clone for PhonemeDef {
    fn clone(&self) -> (r: PhonemeDef)
        ensures
            r@ == self@,
    {
        self.replicate()
    }
}

impl Replicate for TraitMember {
    fn replicate(&self) -> (r: TraitMember) {
        TraitMember {
            labels: self.labels.replicate(),
            notation: self.notation.replicate(),
            default: self.default.replicate(),
        }
    }
}

impl Clone for TraitMember {
    fn clone(&self) -> (r: TraitMember)
        ensures
            r@ == self@,
    {
        self.replicate()
    }
}

impl Replicate for Time {
    fn replicate(&self) -> (r: Time) {
        match self {
            Time::Instant(v0) => Time::Instant(v0.replicate()),
            Time::Range(v0, v1) => Time::Range(v0.replicate(), v1.replicate()),
        }
    }
}

impl Clone for Time {
    fn clone(&self) -> (r: Time)
        ensures
            r@ == self@,
    {
        self.replicate()
    }
}

impl Replicate for Stmt {
    fn replicate(&self) -> (r: Stmt) {
        match self {
            Stmt::SoundChange { source, target, environment, description } => Stmt::SoundChange {
                source: source.replicate(),
                target: target.replicate(),
                environment: environment.replicate(),
                description: description.replicate(),
            },
            Stmt::Import { path, absolute, names } => Stmt::Import {
                path: path.replicate(),
                absolute: absolute.replicate(),
                names: names.replicate(),
            },
            Stmt::Language { id, parent, name } => Stmt::Language {
                id: id.replicate(),
                parent: parent.replicate(),
                name: name.replicate(),
            },
            Stmt::Word { gloss, pronunciation, definitions } => Stmt::Word {
                gloss: gloss.replicate(),
                pronunciation: pronunciation.replicate(),
                definitions: definitions.replicate(),
            },
            Stmt::Class { label, encodes, annotates, phonemes } => Stmt::Class {
                label: label.replicate(),
                encodes: encodes.replicate(),
                annotates: annotates.replicate(),
                phonemes: phonemes.replicate(),
            },
            Stmt::Series { label, series } => Stmt::Series {
                label: label.replicate(),
                series: series.replicate(),
            },
            Stmt::Trait { label, members } => Stmt::Trait {
                label: label.replicate(),
                members: members.replicate(),
            },
            Stmt::Milestone { time, language } => Stmt::Milestone {
                time: time.replicate(),
                language: language.replicate(),
            },
        }
    }
}

impl Clone for Stmt {
    fn clone(&self) -> (r: Stmt)
        ensures
            r@ == self@,
    {
        self.replicate()
    }
}

impl InBytes for Feature {
    open spec fn bytes_of(m: FeatureView, src: Seq<char>) -> FeatureView {
        match m {
            FeatureView::Positive(v0) => FeatureView::Positive(<String as InBytes>::bytes_of(v0, src)),
            FeatureView::Negative(v0) => FeatureView::Negative(<String as InBytes>::bytes_of(v0, src)),
        }
    }

    fn in_bytes(&self, table: &Offsets) -> (r: Feature) {
        match self {
            Feature::Positive(v0) => Feature::Positive(v0.in_bytes(table)),
            Feature::Negative(v0) => Feature::Negative(v0.in_bytes(table)),
        }
    }
}

impl InBytes for Category {
    open spec fn bytes_of(m: CategoryView, src: Seq<char>) -> CategoryView {
        CategoryView {
            base_class: <Option<Spanned<char>> as InBytes>::bytes_of(m.base_class, src),
            features: <Vec<Spanned<Feature>> as InBytes>::bytes_of(m.features, src),
        }
    }

    fn in_bytes(&self, table: &Offsets) -> (r: Category) {
        Category {
            base_class: self.base_class.in_bytes(table),
            features: self.features.in_bytes(table),
        }
    }
}

impl InBytes for Segment {
    open spec fn bytes_of(m: SegmentView, src: Seq<char>) -> SegmentView {
        match m {
            SegmentView::Category(v0) => SegmentView::Category(<Category as InBytes>::bytes_of(v0, src)),
            SegmentView::Phonemes(v0) => SegmentView::Phonemes(<String as InBytes>::bytes_of(v0, src)),
        }
    }

    fn in_bytes(&self, table: &Offsets) -> (r: Segment) {
        match self {
            Segment::Category(v0) => Segment::Category(v0.in_bytes(table)),
            Segment::Phonemes(v0) => Segment::Phonemes(v0.in_bytes(table)),
        }
    }
}

impl InBytes for Source {
    open spec fn bytes_of(m: SourceView, src: Seq<char>) -> SourceView {
        match m {
            SourceView::Pattern(v0) => SourceView::Pattern(<Vec<Segment> as InBytes>::bytes_of(v0, src)),
            SourceView::Empty => SourceView::Empty,
        }
    }

    fn in_bytes(&self, table: &Offsets) -> (r: Source) {
        match self {
            Source::Pattern(v0) => Source::Pattern(v0.in_bytes(table)),
            Source::Empty => Source::Empty,
        }
    }
}

impl InBytes for Target {
    open spec fn bytes_of(m: TargetView, src: Seq<char>) -> TargetView {
        match m {
            TargetView::Modification(v0) => TargetView::Modification(<Vec<Spanned<Feature>> as InBytes>::bytes_of(v0, src)),
            TargetView::Pattern(v0) => TargetView::Pattern(<Vec<Segment> as InBytes>::bytes_of(v0, src)),
            TargetView::Empty => TargetView::Empty,
        }
    }

    fn in_bytes(&self, table: &Offsets) -> (r: Target) {
        match self {
            Target::Modification(v0) => Target::Modification(v0.in_bytes(table)),
            Target::Pattern(v0) => Target::Pattern(v0.in_bytes(table)),
            Target::Empty => Target::Empty,
        }
    }
}

impl InBytes for EnvElement {
    open spec fn bytes_of(m: EnvElementView, src: Seq<char>) -> EnvElementView {
        match m {
            EnvElementView::Segment(v0) => EnvElementView::Segment(<Segment as InBytes>::bytes_of(v0, src)),
            EnvElementView::SyllableBoundary => EnvElementView::SyllableBoundary,
            EnvElementView::WordBoundary => EnvElementView::WordBoundary,
        }
    }

    fn in_bytes(&self, table: &Offsets) -> (r: EnvElement) {
        match self {
            EnvElement::Segment(v0) => EnvElement::Segment(v0.in_bytes(table)),
            EnvElement::SyllableBoundary => EnvElement::SyllableBoundary,
            EnvElement::WordBoundary => EnvElement::WordBoundary,
        }
    }
}

impl InBytes for Environment {
    open spec fn bytes_of(m: EnvironmentView, src: Seq<char>) -> EnvironmentView {
        EnvironmentView {
            before: <Option<Vec<EnvElement>> as InBytes>::bytes_of(m.before, src),
            after: <Option<Vec<EnvElement>> as InBytes>::bytes_of(m.after, src),
        }
    }

    fn in_bytes(&self, table: &Offsets) -> (r: Environment) {
        Environment {
            before: self.before.in_bytes(table),
            after: self.after.in_bytes(table),
        }
    }
}

impl InBytes for Definition {
    open spec fn bytes_of(m: DefinitionView, src: Seq<char>) -> DefinitionView {
        DefinitionView {
            pos: <Option<Spanned<String>> as InBytes>::bytes_of(m.pos, src),
            definition: <Spanned<String> as InBytes>::bytes_of(m.definition, src),
        }
    }

    fn in_bytes(&self, table: &Offsets) -> (r: Definition) {
        Definition {
            pos: self.pos.in_bytes(table),
            definition: self.definition.in_bytes(table),
        }
    }
}

impl InBytes for Series {
    open spec fn bytes_of(m: SeriesView, src: Seq<char>) -> SeriesView {
        match m {
            SeriesView::Category(v0) => SeriesView::Category(<Category as InBytes>::bytes_of(v0, src)),
            SeriesView::List(v0) => SeriesView::List(<Vec<Spanned<String>> as InBytes>::bytes_of(v0, src)),
        }
    }

    fn in_bytes(&self, table: &Offsets) -> (r: Series) {
        match self {
            Series::Category(v0) => Series::Category(v0.in_bytes(table)),
            Series::List(v0) => Series::List(v0.in_bytes(table)),
        }
    }
}

impl InBytes for PhonemeDef {
    open spec fn bytes_of(m: PhonemeDefView, src: Seq<char>) -> PhonemeDefView {
        PhonemeDefView {
            label: <Spanned<String> as InBytes>::bytes_of(m.label, src),
            traits: <Vec<Spanned<String>> as InBytes>::bytes_of(m.traits, src),
        }
    }

    fn in_bytes(&self, table: &Offsets) -> (r: PhonemeDef) {
        PhonemeDef {
            label: self.label.in_bytes(table),
            traits: self.traits.in_bytes(table),
        }
    }
}

impl InBytes for TraitMember {
    open spec fn bytes_of(m: TraitMemberView, src: Seq<char>) -> TraitMemberView {
        TraitMemberView {
            labels: <Vec<Spanned<String>> as InBytes>::bytes_of(m.labels, src),
            notation: <Option<Spanned<String>> as InBytes>::bytes_of(m.notation, src),
            default: <bool as InBytes>::bytes_of(m.default, src),
        }
    }

    fn in_bytes(&self, table: &Offsets) -> (r: TraitMember) {
        TraitMember {
            labels: self.labels.in_bytes(table),
            notation: self.notation.in_bytes(table),
            default: self.default.in_bytes(table),
        }
    }
}

impl InBytes for Time {
    open spec fn bytes_of(m: TimeView, src: Seq<char>) -> TimeView {
        m
    }

    fn in_bytes(&self, table: &Offsets) -> (r: Time) {
        self.clone()
    }
}

impl InBytes for Stmt {
    open spec fn bytes_of(m: StmtView, src: Seq<char>) -> StmtView {
        match m {
            StmtView::SoundChange { source, target, environment, description } => StmtView::SoundChange {
                source: <Spanned<Source> as InBytes>::bytes_of(source, src),
                target: <Spanned<Target> as InBytes>::bytes_of(target, src),
                environment: <Option<Spanned<Environment>> as InBytes>::bytes_of(environment, src),
                description: <Option<Spanned<String>> as InBytes>::bytes_of(description, src),
            },
            StmtView::Import { path, absolute, names } => StmtView::Import {
                path: <Vec<Spanned<String>> as InBytes>::bytes_of(path, src),
                absolute: <bool as InBytes>::bytes_of(absolute, src),
                names: <Vec<Spanned<String>> as InBytes>::bytes_of(names, src),
            },
            StmtView::Language { id, parent, name } => StmtView::Language {
                id: <Spanned<String> as InBytes>::bytes_of(id, src),
                parent: <Option<Spanned<String>> as InBytes>::bytes_of(parent, src),
                name: <Option<Spanned<String>> as InBytes>::bytes_of(name, src),
            },
            StmtView::Word { gloss, pronunciation, definitions } => StmtView::Word {
                gloss: <Spanned<String> as InBytes>::bytes_of(gloss, src),
                pronunciation: <Spanned<Vec<String>> as InBytes>::bytes_of(pronunciation, src),
                definitions: <Vec<Definition> as InBytes>::bytes_of(definitions, src),
            },
            StmtView::Class { label, encodes, annotates, phonemes } => StmtView::Class {
                label: <Spanned<String> as InBytes>::bytes_of(label, src),
                encodes: <Vec<Spanned<String>> as InBytes>::bytes_of(encodes, src),
                annotates: <Vec<Spanned<String>> as InBytes>::bytes_of(annotates, src),
                phonemes: <Vec<Spanned<PhonemeDef>> as InBytes>::bytes_of(phonemes, src),
            },
            StmtView::Series { label, series } => StmtView::Series {
                label: <Spanned<String> as InBytes>::bytes_of(label, src),
                series: <Spanned<Series> as InBytes>::bytes_of(series, src),
            },
            StmtView::Trait { label, members } => StmtView::Trait {
                label: <Spanned<String> as InBytes>::bytes_of(label, src),
                members: <Vec<Spanned<TraitMember>> as InBytes>::bytes_of(members, src),
            },
            StmtView::Milestone { time, language } => StmtView::Milestone {
                time: <Option<Spanned<Time>> as InBytes>::bytes_of(time, src),
                language: <Option<Spanned<String>> as InBytes>::bytes_of(language, src),
            },
        }
    }

    fn in_bytes(&self, table: &Offsets) -> (r: Stmt) {
        match self {
            Stmt::SoundChange { source, target, environment, description } => Stmt::SoundChange {
                source: source.in_bytes(table),
                target: target.in_bytes(table),
                environment: environment.in_bytes(table),
                description: description.in_bytes(table),
            },
            Stmt::Import { path, absolute, names } => Stmt::Import {
                path: path.in_bytes(table),
                absolute: absolute.in_bytes(table),
                names: names.in_bytes(table),
            },
            Stmt::Language { id, parent, name } => Stmt::Language {
                id: id.in_bytes(table),
                parent: parent.in_bytes(table),
                name: name.in_bytes(table),
            },
            Stmt::Word { gloss, pronunciation, definitions } => Stmt::Word {
                gloss: gloss.in_bytes(table),
                pronunciation: pronunciation.in_bytes(table),
                definitions: definitions.in_bytes(table),
            },
            Stmt::Class { label, encodes, annotates, phonemes } => Stmt::Class {
                label: label.in_bytes(table),
                encodes: encodes.in_bytes(table),
                annotates: annotates.in_bytes(table),
                phonemes: phonemes.in_bytes(table),
            },
            Stmt::Series { label, series } => Stmt::Series {
                label: label.in_bytes(table),
                series: series.in_bytes(table),
            },
            Stmt::Trait { label, members } => Stmt::Trait {
                label: label.in_bytes(table),
                members: members.in_bytes(table),
            },
            Stmt::Milestone { time, language } => Stmt::Milestone {
                time: time.in_bytes(table),
                language: language.in_bytes(table),
            },
        }
    }
}

} // verus!
