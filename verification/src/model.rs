//! Mathematical models of the values that the grammar produces.
//!
//! Every executable value has a model made of `int`, `Seq` and `Option`; the
//! contracts of the grammar functions speak of models only.

use std::ops::Range;
use vstd::prelude::*;

verus! {

/// A half-open range of offsets into the source text. What the grammar
/// functions return counts characters; what `parse` and the `parser` of each
/// statement return counts bytes of the UTF-8 text.
pub type Span = Range<usize>;

/// A value together with the span of source text that it was read from.
pub type Spanned<T> = (Span, T);

/// The model of a spanned value: the offsets as integers, and the model of
/// the value.
pub struct Marked<M> {
    pub start: int,
    pub end: int,
    pub node: M,
}

/// A type whose values stand for a mathematical value.
pub trait Model {
    type M;

    spec fn model(&self) -> Self::M;
}

impl Model for char {
    type M = char;

    open spec fn model(&self) -> char {
        *self
    }
}

impl Model for bool {
    type M = bool;

    open spec fn model(&self) -> bool {
        *self
    }
}

impl Model for i64 {
    type M = i64;

    open spec fn model(&self) -> i64 {
        *self
    }
}

impl Model for String {
    type M = Seq<char>;

    open spec fn model(&self) -> Seq<char> {
        self@
    }
}

impl<T: Model> Model for Option<T> {
    type M = Option<T::M>;

    open spec fn model(&self) -> Option<T::M> {
        match self {
            Some(v) => Some(v.model()),
            None => None,
        }
    }
}

impl<T: Model> Model for (Range<usize>, T) {
    type M = Marked<T::M>;

    open spec fn model(&self) -> Marked<T::M> {
        Marked { start: self.0.start as int, end: self.0.end as int, node: self.1.model() }
    }
}

impl<T: Model> Model for Vec<T> {
    type M = Seq<T::M>;

    open spec fn model(&self) -> Seq<T::M> {
        models(self@)
    }
}

/// The models of the elements of a sequence, in order.
pub open spec fn models<T: Model>(items: Seq<T>) -> Seq<T::M> {
    Seq::new(items.len(), |i: int| items[i].model())
}

/// The models of no elements are no models.
pub proof fn lemma_models_empty<T: Model>()
    ensures
        models(Seq::<T>::empty()) == Seq::<T::M>::empty(),
{
    assert(models(Seq::<T>::empty()) =~= Seq::<T::M>::empty());
}

/// Appending an element appends its model.
pub proof fn lemma_models_push<T: Model>(items: Seq<T>, item: T)
    ensures
        models(items.push(item)) == models(items).push(item.model()),
{
    assert(models(items.push(item)) =~= models(items).push(item.model()));
}

/// Builds a spanned value from its two offsets.
pub fn spanned<T: Model>(start: usize, end: usize, node: T) -> (r: Spanned<T>)
    ensures
        r.model() == (Marked { start: start as int, end: end as int, node: node.model() }),
        r.1 == node,
{
    (start..end, node)
}

/// A value of which a copy with the same model can be made.
pub trait Replicate: Model + Sized {
    /// A copy of the value.
    fn replicate(&self) -> (r: Self)
        ensures
            r.model() == self.model(),
    ;
}

impl Replicate for char {
    fn replicate(&self) -> (r: char) {
        *self
    }
}

impl Replicate for bool {
    fn replicate(&self) -> (r: bool) {
        *self
    }
}

impl Replicate for i64 {
    fn replicate(&self) -> (r: i64) {
        *self
    }
}

impl Replicate for String {
    fn replicate(&self) -> (r: String) {
        self.clone()
    }
}

impl<T: Replicate> Replicate for Option<T> {
    fn replicate(&self) -> (r: Option<T>) {
        match self {
            Some(v) => Some(v.replicate()),
            None => None,
        }
    }
}

impl<T: Replicate> Replicate for (Range<usize>, T) {
    fn replicate(&self) -> (r: (Range<usize>, T)) {
        (self.0.start..self.0.end, self.1.replicate())
    }
}

impl<T: Replicate> Replicate for Vec<T> {
    fn replicate(&self) -> (r: Vec<T>) {
        let mut out: Vec<T> = Vec::new();
        let mut i: usize = 0;
        while i < self.len()
            invariant
                i <= self@.len(),
                out@.len() == i,
                forall|k: int| 0 <= k < i ==> out@[k].model() == self@[k].model(),
            decreases self@.len() - i,
        {
            out.push(self[i].replicate());
            i = i + 1;
        }
        assert(out.model() =~= self.model());
        out
    }
}

} // verus!
