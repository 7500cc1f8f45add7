//! Error records, and the record of the furthest failure.
//!
//! While the grammar tries its alternatives, every test that fails is noted
//! with the offset at which it failed. Of all the notes, those at the
//! greatest offset are kept and merged: they tell where the deepest partial
//! match stopped and what could have stood there. A parse that fails reports
//! exactly that.

use crate::bytes::{byte_at, Offsets};
use crate::model::{Model, Replicate, Span};
use vstd::prelude::*;

verus! {

/// Why a parse failed.
#[derive(Debug, PartialEq, Eq)]
pub enum Reason {
    /// A token was found where another was expected.
    Unexpected,
    /// A delimiter was opened at `span` and never closed. The grammar itself
    /// reports a missing closer as an unexpected token; the variant is there
    /// for consumers of error records that track delimiters.
    Unclosed { span: Span, delimiter: char },
    /// Free text: what went wrong while a number was read.
    Custom(String),
}

/// One error record: where, why, what was expected and what was found.
///
/// In `expected` and `found`, `None` stands for the end of the input.
#[derive(Debug, PartialEq, Eq)]
pub struct ParseError {
    pub span: Span,
    pub reason: Reason,
    pub expected: Vec<Option<char>>,
    pub found: Option<char>,
}

pub enum ReasonView {
    Unexpected,
    Unclosed { start: int, end: int, delimiter: char },
    Custom(Seq<char>),
}

pub struct ParseErrorView {
    pub start: int,
    pub end: int,
    pub reason: ReasonView,
    pub expected: Set<Option<char>>,
    pub found: Option<char>,
}

impl ParseErrorView {
    /// The record with its spans told in bytes of the UTF-8 text of `src`.
    pub open spec fn in_bytes(self, src: Seq<char>) -> ParseErrorView {
        ParseErrorView {
            start: byte_at(src, self.start),
            end: byte_at(src, self.end),
            reason: match self.reason {
                ReasonView::Unclosed { start, end, delimiter } => ReasonView::Unclosed {
                    start: byte_at(src, start),
                    end: byte_at(src, end),
                    delimiter,
                },
                other => other,
            },
            expected: self.expected,
            found: self.found,
        }
    }
}

impl View for Reason {
    type V = ReasonView;

    open spec fn view(&self) -> ReasonView {
        match self {
            Reason::Unexpected => ReasonView::Unexpected,
            Reason::Unclosed { span, delimiter } => ReasonView::Unclosed {
                start: span.start as int,
                end: span.end as int,
                delimiter: *delimiter,
            },
            Reason::Custom(message) => ReasonView::Custom(message@),
        }
    }
}

impl View for ParseError {
    type V = ParseErrorView;

    open spec fn view(&self) -> ParseErrorView {
        ParseErrorView {
            start: self.span.start as int,
            end: self.span.end as int,
            reason: self.reason@,
            expected: self.expected@.to_set(),
            found: self.found,
        }
    }
}

impl ParseError {
    /// The record with its spans told in bytes.
    pub fn in_bytes(self, table: &Offsets) -> (r: ParseError)
        requires
            table.wf(),
        ensures
            r@ == self@.in_bytes(table@),
    {
        let ParseError { span, reason, expected, found } = self;
        ParseError {
            span: table.at(span.start)..table.at(span.end),
            reason: match reason {
                Reason::Unclosed { span, delimiter } => Reason::Unclosed {
                    span: table.at(span.start)..table.at(span.end),
                    delimiter,
                },
                other => other,
            },
            expected,
            found,
        }
    }
}

impl Clone for Reason {
    fn clone(&self) -> (r: Reason)
        ensures
            r@ == self@,
    {
        match self {
            Reason::Unexpected => Reason::Unexpected,
            Reason::Unclosed { span, delimiter } => Reason::Unclosed {
                span: span.start..span.end,
                delimiter: *delimiter,
            },
            Reason::Custom(message) => Reason::Custom(message.clone()),
        }
    }
}

impl Clone for ParseError {
    fn clone(&self) -> (r: ParseError)
        ensures
            r@ == self@,
    {
        let expected = self.expected.replicate();
        assert(expected@ =~= self.expected@) by {
            assert(expected@.len() == expected.model().len());
            assert(self.expected@.len() == self.expected.model().len());
            assert forall|k: int| 0 <= k < expected@.len() implies expected@[k]
                == self.expected@[k] by {
                assert(expected.model()[k] == expected@[k].model());
                assert(self.expected.model()[k] == self.expected@[k].model());
                assert(expected@[k].model() == expected@[k]);
                assert(self.expected@[k].model() == self.expected@[k]);
            }
        }
        ParseError {
            span: self.span.start..self.span.end,
            reason: self.reason.clone(),
            expected,
            found: self.found,
        }
    }
}

/// The furthest failure so far: its offset, what was expected there, and the
/// message of a number that could not be read there, with the offset at which
/// that number began. `at` is -1 while nothing has failed.
pub struct Far {
    pub at: int,
    pub expected: Set<Option<char>>,
    pub custom: Option<(int, Seq<char>)>,
}

impl Far {
    /// Nothing has failed yet.
    pub open spec fn none() -> Far {
        Far { at: -1, expected: Set::empty(), custom: None }
    }

    /// A test failed at `at` that names no expected character.
    pub open spec fn miss(self, at: int) -> Far {
        if at > self.at {
            Far { at, expected: Set::empty(), custom: None }
        } else {
            self
        }
    }

    /// A test failed at `at` where `item` was expected.
    pub open spec fn want(self, at: int, item: Option<char>) -> Far {
        if at > self.at {
            Far { at, expected: Set::empty().insert(item), custom: None }
        } else if at == self.at {
            Far { at: self.at, expected: self.expected.insert(item), custom: self.custom }
        } else {
            self
        }
    }

    /// The number that spans `start..at` could not be read, for the reason
    /// in `message`. Of two such messages at one offset the first stays.
    pub open spec fn fault(self, start: int, at: int, message: Seq<char>) -> Far {
        if at > self.at {
            Far { at, expected: Set::empty(), custom: Some((start, message)) }
        } else if at == self.at && self.custom is None {
            Far { at: self.at, expected: self.expected, custom: Some((start, message)) }
        } else {
            self
        }
    }

    /// The failure lies within a source of `len` characters: its offset, and
    /// the start of a number that could not be read.
    pub open spec fn within(self, len: int) -> bool {
        &&& self.at <= len
        &&& self.custom matches Some((start, _)) ==> 0 <= start <= self.at
    }

    /// The error record that this failure gives on the source `src`.
    pub open spec fn report(self, src: Seq<char>) -> ParseErrorView {
        match self.custom {
            Some((start, message)) => ParseErrorView {
                start,
                end: self.at,
                reason: ReasonView::Custom(message),
                expected: self.expected,
                found: None,
            },
            None => ParseErrorView {
                start: self.at,
                end: if self.at < src.len() {
                    self.at + 1
                } else {
                    self.at
                },
                reason: ReasonView::Unexpected,
                expected: self.expected,
                found: if 0 <= self.at < src.len() {
                    Some(src[self.at])
                } else {
                    None
                },
            },
        }
    }
}

/// The executable record of the furthest failure. Its view is a [`Far`].
pub struct Furthest {
    reached: Option<usize>,
    expected: Vec<Option<char>>,
    custom: Option<(usize, String)>,
}

impl View for Furthest {
    type V = Far;

    closed spec fn view(&self) -> Far {
        Far {
            at: match self.reached {
                Some(at) => at as int,
                None => -1,
            },
            expected: self.expected@.to_set(),
            custom: match self.custom {
                Some((start, message)) => Some((start as int, message@)),
                None => None,
            },
        }
    }
}

fn same(a: Option<char>, b: Option<char>) -> (r: bool)
    ensures
        r == (a == b),
{
    match a {
        Some(x) => match b {
            Some(y) => x == y,
            None => false,
        },
        None => match b {
            Some(_) => false,
            None => true,
        },
    }
}

fn holds_item(items: &Vec<Option<char>>, item: Option<char>) -> (r: bool)
    ensures
        r == items@.contains(item),
{
    let mut i: usize = 0;
    while i < items.len()
        invariant
            i <= items@.len(),
            forall|j: int| 0 <= j < i ==> items@[j] != item,
        decreases items@.len() - i,
    {
        if same(items[i], item) {
            return true;
        }
        i = i + 1;
    }
    false
}

impl Furthest {
    /// A record in which nothing has failed yet.
    pub fn new() -> (r: Furthest)
        ensures
            r@ == Far::none(),
    {
        let r = Furthest { reached: None, expected: Vec::new(), custom: None };
        assert(r.expected@.to_set() =~= Set::empty());
        r
    }

    fn beyond(&self, at: usize) -> (r: bool)
        ensures
            r == (at as int > self@.at),
    {
        match self.reached {
            Some(old_at) => at > old_at,
            None => true,
        }
    }

    fn level(&self, at: usize) -> (r: bool)
        ensures
            r == (at as int == self@.at),
    {
        match self.reached {
            Some(old_at) => at == old_at,
            None => false,
        }
    }

    /// Notes a test that failed at `at` and names no expected character.
    pub fn miss(&mut self, at: usize)
        ensures
            final(self)@ == old(self)@.miss(at as int),
    {
        if self.beyond(at) {
            self.reached = Some(at);
            self.expected = Vec::new();
            self.custom = None;
            assert(self.expected@.to_set() =~= Set::empty());
        }
    }

    /// Notes a test that failed at `at` where `item` was expected.
    pub fn want(&mut self, at: usize, item: Option<char>)
        ensures
            final(self)@ == old(self)@.want(at as int, item),
    {
        if self.beyond(at) {
            self.reached = Some(at);
            self.expected = Vec::new();
            self.expected.push(item);
            self.custom = None;
            assert(self.expected@ =~= seq![item]);
            assert(self.expected@[0] == item);
            assert(self.expected@.to_set() =~= Set::empty().insert(item));
        } else if self.level(at) {
            if holds_item(&self.expected, item) {
                assert(self.expected@.to_set().insert(item) =~= self.expected@.to_set());
            } else {
                let ghost before = self.expected@;
                self.expected.push(item);
                assert(self.expected@.to_set() =~= before.to_set().insert(item)) by {
                    assert forall|x: Option<char>|
                        self.expected@.to_set().contains(x) == before.to_set().insert(
                            item,
                        ).contains(x) by {
                        if before.contains(x) {
                            let j = choose|j: int| 0 <= j < before.len() && before[j] == x;
                            assert(self.expected@[j] == x);
                        }
                        if x == item {
                            assert(self.expected@[before.len() as int] == x);
                        }
                    }
                }
            }
        }
    }

    /// Notes that the number spanning `start..at` could not be read.
    pub fn fault(&mut self, start: usize, at: usize, message: String)
        ensures
            final(self)@ == old(self)@.fault(start as int, at as int, message@),
    {
        if self.beyond(at) {
            self.reached = Some(at);
            self.expected = Vec::new();
            self.custom = Some((start, message));
            assert(self.expected@.to_set() =~= Set::empty());
        } else if self.level(at) && self.custom.is_none() {
            self.custom = Some((start, message));
        }
    }

    /// The error record of the furthest failure, read against the source;
    /// none where nothing has failed.
    pub fn into_error(self, src: &[char]) -> (e: Option<ParseError>)
        ensures
            match e {
                Some(error) => self@.at >= 0 && error@ == self@.report(src@),
                None => self@.at < 0,
            },
    {
        let at: usize = match self.reached {
            Some(at) => at,
            None => { return None; },
        };
        match self.custom {
            Some((start, message)) => Some(
                ParseError {
                    span: start..at,
                    reason: Reason::Custom(message),
                    expected: self.expected,
                    found: None,
                },
            ),
            None => {
                if at < src.len() {
                    Some(
                        ParseError {
                            span: at..at + 1,
                            reason: Reason::Unexpected,
                            expected: self.expected,
                            found: Some(src[at]),
                        },
                    )
                } else {
                    Some(
                        ParseError {
                            span: at..at,
                            reason: Reason::Unexpected,
                            expected: self.expected,
                            found: None,
                        },
                    )
                }
            },
        }
    }
}

/// The least start among the records, or `limit` where that is less: the
/// offset at which a report of these records is anchored.
pub open spec fn leftmost(errors: Seq<ParseErrorView>, limit: int) -> int
    decreases errors.len(),
{
    if errors.len() == 0 {
        limit
    } else {
        let rest = leftmost(errors.drop_last(), limit);
        if errors.last().start < rest {
            errors.last().start
        } else {
            rest
        }
    }
}

/// Computes the anchor of a report: the leftmost start of the records, and
/// `limit`, the length of the source, where there is none to the left of it.
pub fn anchor(errors: &Vec<ParseError>, limit: usize) -> (at: usize)
    ensures
        at == leftmost(errors@.map_values(|e: ParseError| e@), limit as int),
        at <= limit,
        forall|i: int| 0 <= i < errors@.len() ==> at <= errors@[i].span.start,
{
    let ghost views = errors@.map_values(|e: ParseError| e@);
    let mut at: usize = limit;
    let mut i: usize = 0;
    while i < errors.len()
        invariant
            i <= errors@.len(),
            views == errors@.map_values(|e: ParseError| e@),
            at == leftmost(views.subrange(0, i as int), limit as int),
            at <= limit,
            forall|j: int| 0 <= j < i ==> at <= errors@[j].span.start,
        decreases errors@.len() - i,
    {
        assert(views.subrange(0, i + 1).drop_last() =~= views.subrange(0, i as int));
        assert(views.subrange(0, i + 1).last() == errors@[i as int]@);
        if errors[i].span.start < at {
            at = errors[i].span.start;
        }
        i = i + 1;
    }
    assert(views.subrange(0, i as int) =~= views);
    at
}

} // verus!
