//! Offsets in bytes.
//!
//! The spans of the grammar count characters. Whoever cuts a `str`, which is
//! indexed by bytes, needs the offsets of the same places in the UTF-8 text;
//! this module gives them.

use crate::model::{Marked, Model, Span};
use std::ops::Range;
use vstd::prelude::*;
use vstd::utf8::{char_is_scalar, encode_scalar, encode_utf8};

verus! {

/// The number of bytes that the characters take in UTF-8.
pub open spec fn byte_len(chars: Seq<char>) -> nat {
    encode_utf8(chars).len()
}

/// The number of bytes that one character takes in UTF-8.
pub open spec fn width(c: char) -> nat {
    encode_scalar(c as u32).len()
}

/// The encoding of two texts, one after the other, is the encoding of the
/// first and then that of the second.
pub proof fn lemma_encode_concat(first: Seq<char>, second: Seq<char>)
    ensures
        encode_utf8(first + second) == encode_utf8(first) + encode_utf8(second),
    decreases first.len(),
{
    if first.len() == 0 {
        assert(first + second =~= second);
        assert(encode_utf8(first) + encode_utf8(second) =~= encode_utf8(second));
    } else {
        lemma_encode_concat(first.drop_first(), second);
        assert((first + second).drop_first() =~= first.drop_first() + second);
        assert(encode_utf8(first + second) =~= encode_utf8(first) + encode_utf8(second));
    }
}

/// The encoding of one character.
pub proof fn lemma_encode_one(c: char)
    ensures
        encode_utf8(seq![c]) == encode_scalar(c as u32),
        1 <= width(c) <= 4,
{
    char_is_scalar(c);
    reveal_with_fuel(encode_utf8, 2);
    assert(seq![c].drop_first() =~= Seq::<char>::empty());
    assert(seq![c][0] == c);
    assert(encode_scalar(c as u32) + Seq::<u8>::empty() =~= encode_scalar(c as u32));
    assert(encode_utf8(seq![c]) =~= encode_scalar(c as u32));
}

/// The bytes of a text between the byte offsets of two of its places are the
/// encoding of the characters between the two places.
pub proof fn lemma_bytes_of_span(chars: Seq<char>, start: int, end: int)
    requires
        0 <= start <= end <= chars.len(),
    ensures
        byte_len(chars.subrange(0, start)) <= byte_len(chars.subrange(0, end)) <= byte_len(chars),
        encode_utf8(chars).subrange(
            byte_len(chars.subrange(0, start)) as int,
            byte_len(chars.subrange(0, end)) as int,
        ) == encode_utf8(chars.subrange(start, end)),
{
    let head = chars.subrange(0, start);
    let body = chars.subrange(start, end);
    let tail = chars.subrange(end, chars.len() as int);
    assert(chars.subrange(0, end) =~= head + body);
    assert(chars =~= chars.subrange(0, end) + tail);
    lemma_encode_concat(head, body);
    lemma_encode_concat(head + body, tail);
    assert(encode_utf8(chars).subrange(
        encode_utf8(head).len() as int,
        encode_utf8(head + body).len() as int,
    ) =~= encode_utf8(body));
}

/// The number of bytes that the character takes in UTF-8.
pub fn utf8_width(c: char) -> (w: usize)
    ensures
        w == width(c),
        1 <= w <= 4,
{
    proof {
        char_is_scalar(c);
    }
    if c <= '\u{7f}' {
        1
    } else if c <= '\u{7ff}' {
        2
    } else if c <= '\u{ffff}' {
        3
    } else {
        4
    }
}

/// The byte offset, in the UTF-8 text of `src`, of the place before the
/// character at `at`; none where it does not fit in a `usize`.
pub fn byte_offset(src: &[char], at: usize) -> (r: Option<usize>)
    requires
        at <= src@.len(),
    ensures
        match r {
            Some(offset) => offset == byte_len(src@.subrange(0, at as int)),
            None => byte_len(src@.subrange(0, at as int)) > usize::MAX,
        },
{
    let mut total: usize = 0;
    let mut i: usize = 0;
    proof {
        assert(src@.subrange(0, 0) =~= Seq::<char>::empty());
    }
    while i < at
        invariant
            i <= at <= src@.len(),
            total == byte_len(src@.subrange(0, i as int)),
        decreases at - i,
    {
        proof {
            let head = src@.subrange(0, i as int);
            assert(src@.subrange(0, i + 1) =~= head + seq![src@[i as int]]);
            lemma_encode_concat(head, seq![src@[i as int]]);
            lemma_encode_one(src@[i as int]);
            lemma_bytes_of_span(src@.subrange(0, at as int), 0, i + 1);
            assert(src@.subrange(0, at as int).subrange(0, i + 1) =~= src@.subrange(0, i + 1));
        }
        match total.checked_add(utf8_width(src[i])) {
            Some(next) => {
                total = next;
            },
            None => {
                return None;
            },
        }
        i = i + 1;
    }
    Some(total)
}

/// The span in bytes of the UTF-8 text of `src` that covers the characters
/// of `span`; none where it does not fit in a `usize`.
pub fn byte_span(src: &[char], span: &Span) -> (r: Option<Span>)
    requires
        span.start <= span.end <= src@.len(),
    ensures
        match r {
            Some(bytes) => bytes.start == byte_len(src@.subrange(0, span.start as int))
                && bytes.end == byte_len(src@.subrange(0, span.end as int)),
            None => byte_len(src@.subrange(0, span.end as int)) > usize::MAX,
        },
{
    proof {
        lemma_bytes_of_span(src@, span.start as int, span.end as int);
    }
    match byte_offset(src, span.end) {
        Some(end) => match byte_offset(src, span.start) {
            Some(start) => Some(start..end),
            None => None,
        },
        None => None,
    }
}

/// The byte offset, in the UTF-8 text of `src`, of the place `at`; for a
/// place outside the text, the length of the text.
pub open spec fn byte_at(src: Seq<char>, at: int) -> int {
    if 0 <= at <= src.len() {
        byte_len(src.subrange(0, at)) as int
    } else {
        byte_len(src) as int
    }
}

/// Byte offsets grow with the places, from nothing to the length of the
/// text.
pub proof fn lemma_byte_at(src: Seq<char>, first: int, second: int)
    requires
        0 <= first <= second <= src.len(),
    ensures
        0 <= byte_at(src, first) <= byte_at(src, second) <= byte_len(src),
        first < second ==> byte_at(src, first) < byte_at(src, second),
        byte_at(src, 0) == 0,
        byte_at(src, src.len() as int) == byte_len(src),
        encode_utf8(src).subrange(byte_at(src, first), byte_at(src, second)) == encode_utf8(
            src.subrange(first, second),
        ),
{
    lemma_bytes_of_span(src, first, second);
    assert(src.subrange(0, 0) =~= Seq::<char>::empty());
    assert(src.subrange(0, src.len() as int) =~= src);
    if first < second {
        let body = src.subrange(first, second);
        assert(body =~= seq![body[0]] + body.drop_first());
        lemma_encode_concat(seq![body[0]], body.drop_first());
        lemma_encode_one(body[0]);
        assert(encode_utf8(body).len() >= 1);
        assert(encode_utf8(src).subrange(byte_at(src, first), byte_at(src, second)).len()
            == byte_at(src, second) - byte_at(src, first));
    }
}

/// The byte offsets of all the places of a source.
pub struct Offsets {
    table: Vec<usize>,
    src: Ghost<Seq<char>>,
}

impl View for Offsets {
    type V = Seq<char>;

    closed spec fn view(&self) -> Seq<char> {
        self.src@
    }
}

impl Offsets {
    /// The table holds the byte offset of every place of its source.
    pub closed spec fn wf(&self) -> bool {
        &&& self.table@.len() == self.src@.len() + 1
        &&& forall|i: int|
            0 <= i <= self.src@.len() ==> #[trigger] self.table@[i] == byte_len(
                self.src@.subrange(0, i),
            )
    }

    /// The byte offsets of the places of `src`; none where the UTF-8 text
    /// is too long for a `usize`.
    pub fn new(src: &[char]) -> (r: Option<Offsets>)
        ensures
            match r {
                Some(offsets) => offsets.wf() && offsets@ == src@,
                None => byte_len(src@) > usize::MAX,
            },
    {
        let mut table: Vec<usize> = Vec::new();
        let mut total: usize = 0;
        let mut i: usize = 0;
        proof {
            assert(src@.subrange(0, 0) =~= Seq::<char>::empty());
        }
        table.push(0);
        while i < src.len()
            invariant
                i <= src@.len(),
                table@.len() == i + 1,
                total == byte_len(src@.subrange(0, i as int)),
                forall|k: int| 0 <= k <= i ==> #[trigger] table@[k] == byte_len(src@.subrange(0, k)),
            decreases src@.len() - i,
        {
            proof {
                let head = src@.subrange(0, i as int);
                assert(src@.subrange(0, i + 1) =~= head + seq![src@[i as int]]);
                lemma_encode_concat(head, seq![src@[i as int]]);
                lemma_encode_one(src@[i as int]);
                lemma_bytes_of_span(src@, 0, i + 1);
            }
            match total.checked_add(utf8_width(src[i])) {
                Some(next) => {
                    total = next;
                },
                None => {
                    return None;
                },
            }
            table.push(total);
            i = i + 1;
        }
        Some(Offsets { table, src: Ghost(src@) })
    }

    /// The byte offset of the place `at`.
    pub fn at(&self, at: usize) -> (r: usize)
        requires
            self.wf(),
        ensures
            r == byte_at(self@, at as int),
    {
        proof {
            assert(self@.subrange(0, self@.len() as int) =~= self@);
        }
        if at < self.table.len() {
            self.table[at]
        } else {
            self.table[self.table.len() - 1]
        }
    }
}

/// A value whose spans can be told in bytes.
pub trait InBytes: Model + Sized {
    /// The model with every offset replaced by the byte offset of the same
    /// place in the UTF-8 text of `src`.
    spec fn bytes_of(m: Self::M, src: Seq<char>) -> Self::M;

    /// The value with its spans in bytes.
    fn in_bytes(&self, table: &Offsets) -> (r: Self)
        requires
            table.wf(),
        ensures
            r.model() == Self::bytes_of(self.model(), table@),
    ;
}

impl InBytes for char {
    open spec fn bytes_of(m: char, src: Seq<char>) -> char {
        m
    }

    fn in_bytes(&self, table: &Offsets) -> (r: char) {
        *self
    }
}

impl InBytes for bool {
    open spec fn bytes_of(m: bool, src: Seq<char>) -> bool {
        m
    }

    fn in_bytes(&self, table: &Offsets) -> (r: bool) {
        *self
    }
}

impl InBytes for i64 {
    open spec fn bytes_of(m: i64, src: Seq<char>) -> i64 {
        m
    }

    fn in_bytes(&self, table: &Offsets) -> (r: i64) {
        *self
    }
}

impl InBytes for String {
    open spec fn bytes_of(m: Seq<char>, src: Seq<char>) -> Seq<char> {
        m
    }

    fn in_bytes(&self, table: &Offsets) -> (r: String) {
        self.clone()
    }
}

impl<T: InBytes> InBytes for Option<T> {
    open spec fn bytes_of(m: Option<T::M>, src: Seq<char>) -> Option<T::M> {
        match m {
            Some(v) => Some(T::bytes_of(v, src)),
            None => None,
        }
    }

    fn in_bytes(&self, table: &Offsets) -> (r: Option<T>) {
        match self {
            Some(v) => Some(v.in_bytes(table)),
            None => None,
        }
    }
}

impl<T: InBytes> InBytes for (Range<usize>, T) {
    open spec fn bytes_of(m: Marked<T::M>, src: Seq<char>) -> Marked<T::M> {
        Marked {
            start: byte_at(src, m.start),
            end: byte_at(src, m.end),
            node: T::bytes_of(m.node, src),
        }
    }

    fn in_bytes(&self, table: &Offsets) -> (r: (Range<usize>, T)) {
        (table.at(self.0.start)..table.at(self.0.end), self.1.in_bytes(table))
    }
}

impl<T: InBytes> InBytes for Vec<T> {
    open spec fn bytes_of(m: Seq<T::M>, src: Seq<char>) -> Seq<T::M> {
        Seq::new(m.len(), |i: int| T::bytes_of(m[i], src))
    }

    fn in_bytes(&self, table: &Offsets) -> (r: Vec<T>) {
        let mut out: Vec<T> = Vec::new();
        let mut i: usize = 0;
        while i < self.len()
            invariant
                table.wf(),
                i <= self@.len(),
                out@.len() == i,
                forall|k: int|
                    0 <= k < i ==> out@[k].model() == T::bytes_of(self@[k].model(), table@),
            decreases self@.len() - i,
        {
            out.push(self[i].in_bytes(table));
            i = i + 1;
        }
        assert(out.model() =~= Self::bytes_of(self.model(), table@));
        out
    }
}

} // verus!
