//! Blank space after a line break.
//!
//! Where white space is put into a source after a line break, every
//! production gives the same value on the new source as on the old, but for
//! the spans: an offset at or after the place moves by the length of what
//! was put in. Of the productions that read free text this holds after a
//! line feed or a carriage return, which free text cannot hold, and
//! everywhere from the place on.

use crate::ast::{
    CategoryView, DefinitionView, EnvElementView, EnvironmentView, FeatureView, PhonemeDefView,
    SegmentView, SeriesView, SourceView, StmtView, TargetView, TimeView, TraitMemberView,
};
use crate::chars::{accepts, line_break, white_space, CharClass};
use crate::error::Far;
use crate::model::Marked;
use crate::parser::scan::{lemma_run_end, literal_at, literal_from, run_end, Out};
use vstd::prelude::*;

pub mod class_definition;
pub mod common;
pub mod import;
pub mod lang_definition;
pub mod milestone;
pub mod scan;
pub mod sequence;
pub mod series_definition;
pub mod sound_change;
pub mod trait_definition;
pub mod word_definition;

verus! {

/// Where the offset `x` of the old source lies in the new one.
pub open spec fn sigma(x: int, at: int, by: int) -> int {
    if x < at {
        x
    } else {
        x + by
    }
}

/// The source with `blank` put in at `at`.
pub open spec fn put_in(src: Seq<char>, at: int, blank: Seq<char>) -> Seq<char> {
    src.subrange(0, at) + blank + src.subrange(at, src.len() as int)
}

/// Every character is white space.
pub open spec fn is_blank(text: Seq<char>) -> bool {
    forall|k: int| 0 <= k < text.len() ==> white_space(#[trigger] text[k])
}

/// The place is the start of the text or lies after a line feed or a
/// carriage return, which no text of the language holds.
pub open spec fn firm(b: Seq<char>, at: int) -> bool {
    at == 0 || b[at - 1] == '\n' || b[at - 1] == '\r'
}

/// The source `a` is the source `b` with `by` characters of white space put
/// in at `at`, which is the start of the text or lies after a line break.
pub open spec fn widened(a: Seq<char>, b: Seq<char>, at: int, by: int) -> bool {
    &&& 0 <= by
    &&& 0 <= at <= b.len()
    &&& a.len() == b.len() + by
    &&& forall|p: int| 0 <= p < at ==> a[p] == #[trigger] b[p]
    &&& forall|p: int| at <= p < b.len() ==> a[p + by] == #[trigger] b[p]
    &&& forall|p: int| at <= p < at + by ==> white_space(#[trigger] a[p])
    &&& (at == 0 || b[at - 1] == '\n' || line_break(b[at - 1]))
}

/// A text without a line break.
pub open spec fn plain(word: Seq<char>) -> bool {
    forall|k: int| 0 <= k < word.len() ==> #[trigger] word[k] != '\n' && !line_break(word[k])
}

/// The outcome `x` on the new source is the outcome `y` on the old one: the
/// same value, and the end where it now lies.
pub open spec fn same_at<V>(x: Out<V>, y: Out<V>, at: int, by: int) -> bool {
    match y.res {
        Some((node, end)) => x.res == Some((node, sigma(end, at, by))),
        None => x.res is None,
    }
}

/// A run of white space that starts in a stretch of white space runs to the
/// end of the stretch and on from there.
pub proof fn lemma_run_through(src: Seq<char>, pos: int, end: int)
    requires
        0 <= pos <= end <= src.len(),
        forall|p: int| pos <= p < end ==> white_space(#[trigger] src[p]),
    ensures
        run_end(src, pos, CharClass::Space) == run_end(src, end, CharClass::Space),
    decreases end - pos,
{
    if pos < end {
        assert(accepts(CharClass::Space, src[pos]));
        lemma_run_through(src, pos + 1, end);
    }
}

/// A run of the class cannot take the line break before the place, unless
/// the class is white space: the class is none of the numeric characters,
/// which are known by name only, nor the characters that end a line, nor
/// free text where another line break than a line feed or a carriage return
/// stands before the place.
pub open spec fn steady(b: Seq<char>, at: int, class: CharClass) -> bool {
    &&& class != CharClass::Numeric
    &&& class != CharClass::Break
    &&& (class != CharClass::FreeText || firm(b, at))
}

/// A run ends on the new source where it ends on the old one; and a run of
/// anything but white space that starts before the place ends before it.
/// Of a class that is not steady this is claimed only from the place on.
pub proof fn lemma_run_at(a: Seq<char>, b: Seq<char>, at: int, by: int, i: int, class: CharClass)
    requires
        widened(a, b, at, by),
        0 <= i <= b.len(),
    ensures
        steady(b, at, class) || at <= i ==> run_end(a, sigma(i, at, by), class) == sigma(
            run_end(b, i, class),
            at,
            by,
        ),
        i < at && class != CharClass::Space && steady(b, at, class) ==> run_end(b, i, class) < at,
        i <= run_end(b, i, class) <= b.len(),
    decreases b.len() - i,
{
    lemma_run_end(b, i, class);
    if i < b.len() && accepts(class, b[i]) {
        lemma_run_at(a, b, at, by, i + 1, class);
        if i + 1 == at {
            assert(b[i] == '\n' || line_break(b[i]));
            if steady(b, at, class) {
                assert(class == CharClass::Space);
                lemma_run_through(a, at, at + by);
            }
            assert(a[i] == b[i]);
        } else if i < at {
            assert(a[i] == b[i]);
        } else {
            assert(a[i + by] == b[i]);
        }
    } else if i < b.len() {
        if i < at {
            assert(a[i] == b[i]);
        } else {
            assert(a[i + by] == b[i]);
        }
    }
}

/// A run that ends before the place ends at the same offset on the new
/// source; one that reaches the place reaches it on the new source too.
pub proof fn lemma_run_before(a: Seq<char>, b: Seq<char>, at: int, by: int, i: int, class: CharClass)
    requires
        widened(a, b, at, by),
        0 <= i <= at,
    ensures
        run_end(b, i, class) < at ==> run_end(a, i, class) == run_end(b, i, class),
        run_end(b, i, class) >= at ==> run_end(a, i, class) >= at,
    decreases at - i,
{
    lemma_run_end(b, i, class);
    if i < at {
        assert(a[i] == b[i]);
        if accepts(class, b[i]) {
            lemma_run_before(a, b, at, by, i + 1, class);
        }
    } else {
        lemma_run_end(a, i, class);
    }
}

/// A literal without a line break matches on the new source as on the old.
pub proof fn lemma_literal_at(
    a: Seq<char>,
    b: Seq<char>,
    at: int,
    by: int,
    i: int,
    word: Seq<char>,
    k: int,
    fa: Far,
    fb: Far,
)
    requires
        widened(a, b, at, by),
        plain(word),
        0 <= i <= b.len(),
        0 <= k <= word.len(),
        k == 0 || sigma(i, at, by) + k == sigma(i + k, at, by),
        k > 0 ==> i + k != at,
    ensures
        same_at(
            literal_from(a, sigma(i, at, by), word, k, fa),
            literal_from(b, i, word, k, fb),
            at,
            by,
        ),
    decreases word.len() - k,
{
    if k < word.len() {
        if i + k < b.len() {
            if i + k < at {
                assert(a[i + k] == b[i + k]);
            } else {
                assert(a[i + k + by] == b[i + k]);
            }
            if b[i + k] == word[k] {
                if i + k + 1 == at {
                    assert(b[at - 1] == '\n' || line_break(b[at - 1]));
                    assert(word[k] != '\n' && !line_break(word[k]));
                }
                lemma_literal_at(a, b, at, by, i, word, k + 1, fa, fb);
            }
        }
    }
}

/// Runs, literals and pieces of text on the new source and on the old.
pub proof fn lemma_scan_at(a: Seq<char>, b: Seq<char>, at: int, by: int)
    requires
        widened(a, b, at, by),
    ensures
        forall|i: int, class: CharClass|
            0 <= i <= b.len() ==> (steady(b, at, class) || at <= i ==> run_end(
                a,
                sigma(i, at, by),
                class,
            ) == sigma(#[trigger] run_end(b, i, class), at, by)) && i <= run_end(b, i, class)
                <= b.len() && (i < at && class != CharClass::Space && steady(b, at, class)
                ==> run_end(b, i, class) < at),
        forall|i: int, end: int|
            0 <= i <= end <= b.len() && (end < at || at <= i) ==> a.subrange(
                sigma(i, at, by),
                sigma(end, at, by),
            ) == #[trigger] b.subrange(i, end),
        forall|i: int, j: int, word: Seq<char>, fa: Far, fb: Far|
            0 <= i <= b.len() && j == sigma(i, at, by) && plain(word) ==> same_at(
                #[trigger] literal_at(a, j, word, fa),
                #[trigger] literal_at(b, i, word, fb),
                at,
                by,
            ),
{
    assert forall|i: int, class: CharClass| 0 <= i <= b.len() implies (steady(b, at, class) || at
        <= i ==> run_end(a, sigma(i, at, by), class) == sigma(
        #[trigger] run_end(b, i, class),
        at,
        by,
    )) && i <= run_end(b, i, class) <= b.len() && (i < at && class != CharClass::Space && steady(
        b,
        at,
        class,
    ) ==> run_end(b, i, class) < at) by {
        lemma_run_at(a, b, at, by, i, class);
    }
    assert forall|i: int, end: int|
        0 <= i <= end <= b.len() && (end < at || at <= i) implies a.subrange(
        sigma(i, at, by),
        sigma(end, at, by),
    ) == #[trigger] b.subrange(i, end) by {
        assert(a.subrange(sigma(i, at, by), sigma(end, at, by)) =~= b.subrange(i, end));
    }
    assert forall|i: int, j: int, word: Seq<char>, fa: Far, fb: Far|
        0 <= i <= b.len() && j == sigma(i, at, by) && plain(word) implies same_at(
        #[trigger] literal_at(a, j, word, fa),
        #[trigger] literal_at(b, i, word, fb),
        at,
        by,
    ) by {
        lemma_literal_at(a, b, at, by, i, word, 0, fa, fb);
    }
}

/// A value whose spans can be moved where blank space is put in.
pub trait Move: Sized {
    /// The value with every offset at or after `at` moved by `by`.
    spec fn moved(self, at: int, by: int) -> Self;
}

impl Move for int {
    open spec fn moved(self, at: int, by: int) -> int {
        sigma(self, at, by)
    }
}

impl<T: Move> Move for Seq<T> {
    open spec fn moved(self, at: int, by: int) -> Seq<T> {
        Seq::new(self.len(), |k: int| self[k].moved(at, by))
    }
}

impl<T: Move> Move for Option<T> {
    open spec fn moved(self, at: int, by: int) -> Option<T> {
        match self {
            Some(v) => Some(v.moved(at, by)),
            None => None,
        }
    }
}

impl Move for Marked<Seq<char>> {
    open spec fn moved(self, at: int, by: int) -> Self {
        Marked { start: sigma(self.start, at, by), end: sigma(self.end, at, by), node: self.node }
    }
}

impl Move for Marked<char> {
    open spec fn moved(self, at: int, by: int) -> Self {
        Marked { start: sigma(self.start, at, by), end: sigma(self.end, at, by), node: self.node }
    }
}

impl Move for Marked<FeatureView> {
    open spec fn moved(self, at: int, by: int) -> Self {
        Marked { start: sigma(self.start, at, by), end: sigma(self.end, at, by), node: self.node }
    }
}

impl Move for Marked<TimeView> {
    open spec fn moved(self, at: int, by: int) -> Self {
        Marked { start: sigma(self.start, at, by), end: sigma(self.end, at, by), node: self.node }
    }
}

impl Move for Marked<Seq<Seq<char>>> {
    open spec fn moved(self, at: int, by: int) -> Self {
        Marked { start: sigma(self.start, at, by), end: sigma(self.end, at, by), node: self.node }
    }
}

impl Move for CategoryView {
    open spec fn moved(self, at: int, by: int) -> Self {
        CategoryView {
            base_class: self.base_class.moved(at, by),
            features: self.features.moved(at, by),
        }
    }
}

impl Move for SegmentView {
    open spec fn moved(self, at: int, by: int) -> Self {
        match self {
            SegmentView::Category(category) => SegmentView::Category(category.moved(at, by)),
            SegmentView::Phonemes(text) => SegmentView::Phonemes(text),
        }
    }
}

impl Move for SourceView {
    open spec fn moved(self, at: int, by: int) -> Self {
        match self {
            SourceView::Pattern(items) => SourceView::Pattern(items.moved(at, by)),
            SourceView::Empty => SourceView::Empty,
        }
    }
}

impl Move for TargetView {
    open spec fn moved(self, at: int, by: int) -> Self {
        match self {
            TargetView::Modification(items) => TargetView::Modification(items.moved(at, by)),
            TargetView::Pattern(items) => TargetView::Pattern(items.moved(at, by)),
            TargetView::Empty => TargetView::Empty,
        }
    }
}

impl Move for EnvElementView {
    open spec fn moved(self, at: int, by: int) -> Self {
        match self {
            EnvElementView::Segment(segment) => EnvElementView::Segment(segment.moved(at, by)),
            EnvElementView::SyllableBoundary => EnvElementView::SyllableBoundary,
            EnvElementView::WordBoundary => EnvElementView::WordBoundary,
        }
    }
}

impl Move for EnvironmentView {
    open spec fn moved(self, at: int, by: int) -> Self {
        EnvironmentView { before: self.before.moved(at, by), after: self.after.moved(at, by) }
    }
}

impl Move for DefinitionView {
    open spec fn moved(self, at: int, by: int) -> Self {
        DefinitionView { pos: self.pos.moved(at, by), definition: self.definition.moved(at, by) }
    }
}

impl Move for SeriesView {
    open spec fn moved(self, at: int, by: int) -> Self {
        match self {
            SeriesView::Category(category) => SeriesView::Category(category.moved(at, by)),
            SeriesView::List(items) => SeriesView::List(items.moved(at, by)),
        }
    }
}

impl Move for PhonemeDefView {
    open spec fn moved(self, at: int, by: int) -> Self {
        PhonemeDefView { label: self.label.moved(at, by), traits: self.traits.moved(at, by) }
    }
}

impl Move for TraitMemberView {
    open spec fn moved(self, at: int, by: int) -> Self {
        TraitMemberView {
            labels: self.labels.moved(at, by),
            notation: self.notation.moved(at, by),
            default: self.default,
        }
    }
}

impl Move for Marked<SourceView> {
    open spec fn moved(self, at: int, by: int) -> Self {
        Marked { start: sigma(self.start, at, by), end: sigma(self.end, at, by), node: self.node.moved(at, by) }
    }
}

impl Move for Marked<TargetView> {
    open spec fn moved(self, at: int, by: int) -> Self {
        Marked { start: sigma(self.start, at, by), end: sigma(self.end, at, by), node: self.node.moved(at, by) }
    }
}

impl Move for Marked<EnvironmentView> {
    open spec fn moved(self, at: int, by: int) -> Self {
        Marked { start: sigma(self.start, at, by), end: sigma(self.end, at, by), node: self.node.moved(at, by) }
    }
}

impl Move for Marked<SeriesView> {
    open spec fn moved(self, at: int, by: int) -> Self {
        Marked { start: sigma(self.start, at, by), end: sigma(self.end, at, by), node: self.node.moved(at, by) }
    }
}

impl Move for Marked<PhonemeDefView> {
    open spec fn moved(self, at: int, by: int) -> Self {
        Marked { start: sigma(self.start, at, by), end: sigma(self.end, at, by), node: self.node.moved(at, by) }
    }
}

impl Move for Marked<TraitMemberView> {
    open spec fn moved(self, at: int, by: int) -> Self {
        Marked { start: sigma(self.start, at, by), end: sigma(self.end, at, by), node: self.node.moved(at, by) }
    }
}

impl Move for StmtView {
    open spec fn moved(self, at: int, by: int) -> Self {
        match self {
            StmtView::SoundChange { source, target, environment, description } => {
                StmtView::SoundChange {
                    source: source.moved(at, by),
                    target: target.moved(at, by),
                    environment: environment.moved(at, by),
                    description: description.moved(at, by),
                }
            },
            StmtView::Import { path, absolute, names } => StmtView::Import {
                path: path.moved(at, by),
                absolute,
                names: names.moved(at, by),
            },
            StmtView::Language { id, parent, name } => StmtView::Language {
                id: id.moved(at, by),
                parent: parent.moved(at, by),
                name: name.moved(at, by),
            },
            StmtView::Word { gloss, pronunciation, definitions } => StmtView::Word {
                gloss: gloss.moved(at, by),
                pronunciation: pronunciation.moved(at, by),
                definitions: definitions.moved(at, by),
            },
            StmtView::Class { label, encodes, annotates, phonemes } => StmtView::Class {
                label: label.moved(at, by),
                encodes: encodes.moved(at, by),
                annotates: annotates.moved(at, by),
                phonemes: phonemes.moved(at, by),
            },
            StmtView::Series { label, series } => StmtView::Series {
                label: label.moved(at, by),
                series: series.moved(at, by),
            },
            StmtView::Trait { label, members } => StmtView::Trait {
                label: label.moved(at, by),
                members: members.moved(at, by),
            },
            StmtView::Milestone { time, language } => StmtView::Milestone {
                time: time.moved(at, by),
                language: language.moved(at, by),
            },
        }
    }
}

impl Move for Marked<StmtView> {
    open spec fn moved(self, at: int, by: int) -> Self {
        Marked { start: sigma(self.start, at, by), end: sigma(self.end, at, by), node: self.node.moved(at, by) }
    }
}


/// The outcome `x` on the new source is the outcome `y` on the old one: the
/// value with its spans moved, and the end where it now lies.
pub open spec fn alike_at<V: Move>(x: Out<V>, y: Out<V>, at: int, by: int) -> bool {
    match y.res {
        Some((node, end)) => x.res == Some((node.moved(at, by), sigma(end, at, by))),
        None => x.res is None,
    }
}

/// Moving a list moves its first item and the rest.
pub proof fn lemma_moved_prepend<T: Move>(first: T, rest: Seq<T>, at: int, by: int)
    ensures
        (seq![first] + rest).moved(at, by) == seq![first.moved(at, by)] + rest.moved(at, by),
{
    assert((seq![first] + rest).moved(at, by) =~= seq![first.moved(at, by)] + rest.moved(at, by));
}

/// Moving no items gives no items.
pub proof fn lemma_moved_empty<T: Move>(at: int, by: int)
    ensures
        Seq::<T>::empty().moved(at, by) == Seq::<T>::empty(),
{
    assert(Seq::<T>::empty().moved(at, by) =~= Seq::<T>::empty());
}

/// The words of the language hold no line feed.
pub proof fn lemma_keywords()
    ensures
        plain("lang"@),
        plain("import"@),
        plain("from"@),
        plain("series"@),
        plain("trait"@),
        plain("class"@),
        plain("encodes"@),
        plain("annotates"@),
        plain("default"@),
{
    reveal_strlit("lang");
    reveal_strlit("import");
    reveal_strlit("from");
    reveal_strlit("series");
    reveal_strlit("trait");
    reveal_strlit("class");
    reveal_strlit("encodes");
    reveal_strlit("annotates");
    reveal_strlit("default");
}

} // verus!
