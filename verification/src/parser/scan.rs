//! The scanning layer under the grammar: outcomes, runs of characters,
//! literals, padding and the end of the input.
//!
//! A production is a specification function from the source, a position and
//! the furthest failure so far to an [`Out`]: the value and the position
//! after it, or nothing, and in both cases the furthest failure afterwards.
//! The executable function of the production returns the value and keeps the
//! failure in a [`Furthest`]; its contract is [`holds`] or [`ends`].

use crate::bytes::{byte_len, lemma_byte_at, InBytes, Offsets};
use crate::chars::{accepts, belongs, text, CharClass};
use crate::error::{Far, Furthest, ParseError, ParseErrorView};
use crate::model::{spanned, Marked, Model, Spanned};
use vstd::prelude::*;

verus! {

/// What a production gives: the value with the position after it, where it
/// matched, and the furthest failure after the attempt.
pub struct Out<V> {
    pub res: Option<(V, int)>,
    pub far: Far,
}

/// The production did not match.
pub open spec fn fail<V>(far: Far) -> Out<V> {
    Out { res: None, far }
}

/// The production matched `node` and stopped at `end`.
pub open spec fn done<V>(node: V, end: int, far: Far) -> Out<V> {
    Out { res: Some((node, end)), far }
}

/// A list production that matched `head` and then went on as `out` did.
pub open spec fn prepend<V>(head: Seq<V>, out: Out<Seq<V>>) -> Out<Seq<V>> {
    match out.res {
        Some((items, end)) => done(head + items, end, out.far),
        None => fail(out.far),
    }
}

pub proof fn lemma_prepend_empty<V>(out: Out<Seq<V>>)
    ensures
        prepend(Seq::empty(), out) == out,
{
    match out.res {
        Some((items, end)) => {
            assert(Seq::<V>::empty() + items =~= items);
        },
        None => {},
    }
}

pub proof fn lemma_prepend_push<V>(head: Seq<V>, item: V, out: Out<Seq<V>>)
    ensures
        prepend(head, prepend(seq![item], out)) == prepend(head.push(item), out),
{
    match out.res {
        Some((items, end)) => {
            assert(head + (seq![item] + items) =~= head.push(item) + items);
        },
        None => {},
    }
}

pub proof fn lemma_prepend_done<V>(head: Seq<V>, end: int, far: Far)
    ensures
        prepend(head, done(Seq::empty(), end, far)) == done(head, end, far),
{
    assert(head + Seq::<V>::empty() =~= head);
}

/// A position from which a grammar function may start, and a failure record
/// that lies within the source.
pub open spec fn ready(src: Seq<char>, pos: usize, far: Far) -> bool {
    pos <= src.len() && far.within(src.len() as int)
}

/// An item that ends at `end` has consumed input from `pos` and stayed within
/// the source. A repetition goes on only after such an item.
pub open spec fn advances(src: Seq<char>, pos: int, end: int) -> bool {
    pos < end <= src.len()
}

/// The executable result `r` and failure record `far` are what the
/// specification `out` says, and both lie within the source. A match ends at
/// or after `pos`, where it began; a failure leaves a note at or after `pos`.
pub open spec fn holds<T: Model>(
    r: Option<(T, usize)>,
    far: Far,
    out: Out<T::M>,
    src: Seq<char>,
    pos: usize,
) -> bool {
    &&& far == out.far
    &&& far.within(src.len() as int)
    &&& match r {
        Some((node, end)) => out.res == Some((node.model(), end as int)) && pos <= end
            <= src.len(),
        None => out.res is None && pos <= far.at,
    }
}

/// As [`holds`], for a production without a value.
pub open spec fn ends(r: Option<usize>, far: Far, out: Out<()>, src: Seq<char>, pos: usize) -> bool {
    &&& far == out.far
    &&& far.within(src.len() as int)
    &&& match r {
        Some(end) => out.res == Some(((), end as int)) && pos <= end <= src.len(),
        None => out.res is None && pos <= far.at,
    }
}

/// The source text from `start` to `end`, marked with that span.
pub open spec fn token(src: Seq<char>, start: int, end: int) -> Marked<Seq<char>> {
    Marked { start, end, node: src.subrange(start, end) }
}

/// How many characters of the class stand at `pos` in a row.
pub open spec fn run_len(src: Seq<char>, pos: int, class: CharClass) -> nat
    decreases src.len() - pos,
{
    if 0 <= pos < src.len() && accepts(class, src[pos]) {
        1 + run_len(src, pos + 1, class)
    } else {
        0
    }
}

/// Where the longest run of the class that starts at `pos` ends.
pub open spec fn run_end(src: Seq<char>, pos: int, class: CharClass) -> int {
    pos + run_len(src, pos, class)
}

/// A run holds characters of its class only, stays within the source, and
/// stops at the end of the source or before a character of another class.
pub proof fn lemma_run_end(src: Seq<char>, pos: int, class: CharClass)
    requires
        0 <= pos <= src.len(),
    ensures
        pos <= run_end(src, pos, class) <= src.len(),
        forall|i: int| pos <= i < run_end(src, pos, class) ==> accepts(class, #[trigger] src[i]),
        run_end(src, pos, class) < src.len() ==> !accepts(class, src[run_end(src, pos, class)]),
    decreases src.len() - pos,
{
    if pos < src.len() && accepts(class, src[pos]) {
        lemma_run_end(src, pos + 1, class);
    }
}

/// Skips the longest run of the class at `pos`; the run may be empty.
pub fn skip(src: &[char], pos: usize, class: CharClass) -> (end: usize)
    requires
        pos <= src@.len(),
    ensures
        end == run_end(src@, pos as int, class),
        pos <= end <= src@.len(),
{
    let mut i: usize = pos;
    while i < src.len() && belongs(class, src[i])
        invariant
            pos <= i <= src@.len(),
            run_end(src@, pos as int, class) == run_end(src@, i as int, class),
        decreases src@.len() - i,
    {
        i = i + 1;
    }
    i
}

/// One or more characters of the class.
pub open spec fn run_at(src: Seq<char>, pos: int, class: CharClass, far: Far) -> Out<()> {
    if 0 <= pos < src.len() && accepts(class, src[pos]) {
        done((), run_end(src, pos, class), far)
    } else {
        fail(far.miss(pos))
    }
}

/// Skips one or more characters of the class.
pub fn run(src: &[char], pos: usize, class: CharClass, far: &mut Furthest) -> (r: Option<usize>)
    requires
        ready(src@, pos, old(far)@),
    ensures
        ends(r, final(far)@, run_at(src@, pos as int, class, old(far)@), src@, pos),
        r matches Some(end) ==> pos < end,
{
    if pos < src.len() && belongs(class, src[pos]) {
        Some(skip(src, pos, class))
    } else {
        far.miss(pos);
        None
    }
}

/// One or more characters of the class, as text.
pub open spec fn text_at(src: Seq<char>, pos: int, class: CharClass, far: Far) -> Out<Seq<char>> {
    if 0 <= pos < src.len() && accepts(class, src[pos]) {
        done(src.subrange(pos, run_end(src, pos, class)), run_end(src, pos, class), far)
    } else {
        fail(far.miss(pos))
    }
}

/// Reads one or more characters of the class.
pub fn run_text(src: &[char], pos: usize, class: CharClass, far: &mut Furthest) -> (r: Option<
    (String, usize),
>)
    requires
        ready(src@, pos, old(far)@),
    ensures
        holds(r, final(far)@, text_at(src@, pos as int, class, old(far)@), src@, pos),
        r matches Some((_, end)) ==> pos < end,
{
    match run(src, pos, class, far) {
        Some(end) => Some((text(src, pos, end), end)),
        None => None,
    }
}

/// One character of the class.
pub open spec fn single_at(src: Seq<char>, pos: int, class: CharClass, far: Far) -> Out<char> {
    if 0 <= pos < src.len() && accepts(class, src[pos]) {
        done(src[pos], pos + 1, far)
    } else {
        fail(far.miss(pos))
    }
}

/// Reads one character of the class.
pub fn single(src: &[char], pos: usize, class: CharClass, far: &mut Furthest) -> (r: Option<
    (char, usize),
>)
    requires
        ready(src@, pos, old(far)@),
    ensures
        holds(r, final(far)@, single_at(src@, pos as int, class, old(far)@), src@, pos),
        r matches Some((_, end)) ==> end == pos + 1,
{
    if pos < src.len() && belongs(class, src[pos]) {
        Some((src[pos], pos + 1))
    } else {
        far.miss(pos);
        None
    }
}

/// The characters of `word` from its `i`th on stand at `pos + i`. Where one
/// does not, it is noted as expected at its offset.
pub open spec fn literal_from(src: Seq<char>, pos: int, word: Seq<char>, i: int, far: Far) -> Out<
    (),
>
    decreases word.len() - i,
{
    if i < 0 || i >= word.len() {
        done((), pos + word.len(), far)
    } else if 0 <= pos + i < src.len() && src[pos + i] == word[i] {
        literal_from(src, pos, word, i + 1, far)
    } else {
        fail(far.want(pos + i, Some(word[i])))
    }
}

/// The exact characters of `word`.
pub open spec fn literal_at(src: Seq<char>, pos: int, word: Seq<char>, far: Far) -> Out<()> {
    literal_from(src, pos, word, 0, far)
}

/// Matches the exact characters of `word` at `pos`.
pub fn literal(src: &[char], pos: usize, word: &str, far: &mut Furthest) -> (r: Option<usize>)
    requires
        ready(src@, pos, old(far)@),
    ensures
        ends(r, final(far)@, literal_at(src@, pos as int, word@, old(far)@), src@, pos),
        r matches Some(end) ==> end == pos + word@.len(),
{
    let n: usize = word.unicode_len();
    let len: usize = src.len();
    let mut i: usize = 0;
    while i < n
        invariant
            n == word@.len(),
            len == src@.len(),
            i <= n,
            pos + i <= len,
            old(far)@.within(len as int),
            *far == *old(far),
            literal_at(src@, pos as int, word@, old(far)@) == literal_from(
                src@,
                pos as int,
                word@,
                i as int,
                old(far)@,
            ),
        decreases n - i,
    {
        let c: char = word.get_char(i);
        if pos + i < len && src[pos + i] == c {
            i = i + 1;
        } else {
            far.want(pos + i, Some(c));
            return None;
        }
    }
    Some(pos + i)
}

/// The one character `mark`.
pub open spec fn symbol_at(src: Seq<char>, pos: int, mark: char, far: Far) -> Out<()> {
    if 0 <= pos < src.len() && src[pos] == mark {
        done((), pos + 1, far)
    } else {
        fail(far.want(pos, Some(mark)))
    }
}

/// Matches the one character `mark` at `pos`.
pub fn symbol(src: &[char], pos: usize, mark: char, far: &mut Furthest) -> (r: Option<usize>)
    requires
        ready(src@, pos, old(far)@),
    ensures
        ends(r, final(far)@, symbol_at(src@, pos as int, mark, old(far)@), src@, pos),
        r matches Some(end) ==> end == pos + 1,
{
    if pos < src.len() && src[pos] == mark {
        Some(pos + 1)
    } else {
        far.want(pos, Some(mark));
        None
    }
}

/// The one character `mark`, with any white space before and after.
pub open spec fn padded_symbol_at(src: Seq<char>, pos: int, mark: char, far: Far) -> Out<()> {
    let sym = symbol_at(src, run_end(src, pos, CharClass::Space), mark, far);
    match sym.res {
        Some((_, end)) => done((), run_end(src, end, CharClass::Space), sym.far),
        None => fail(sym.far),
    }
}

/// Matches `mark` at `pos`, skipping white space on both sides of it.
pub fn padded_symbol(src: &[char], pos: usize, mark: char, far: &mut Furthest) -> (r: Option<
    usize,
>)
    requires
        ready(src@, pos, old(far)@),
    ensures
        ends(r, final(far)@, padded_symbol_at(src@, pos as int, mark, old(far)@), src@, pos),
        r matches Some(end) ==> pos < end,
{
    let start: usize = skip(src, pos, CharClass::Space);
    match symbol(src, start, mark, far) {
        Some(end) => Some(skip(src, end, CharClass::Space)),
        None => None,
    }
}

/// The one character `mark`, after any white space.
pub open spec fn closing_at(src: Seq<char>, pos: int, mark: char, far: Far) -> Out<()> {
    symbol_at(src, run_end(src, pos, CharClass::Space), mark, far)
}

/// Matches `mark` after any white space.
pub fn closing(src: &[char], pos: usize, mark: char, far: &mut Furthest) -> (r: Option<usize>)
    requires
        ready(src@, pos, old(far)@),
    ensures
        ends(r, final(far)@, closing_at(src@, pos as int, mark, old(far)@), src@, pos),
        r matches Some(end) ==> pos < end,
{
    symbol(src, skip(src, pos, CharClass::Space), mark, far)
}

/// The exact characters of `word`, with any white space before and after.
pub open spec fn padded_at(src: Seq<char>, pos: int, word: Seq<char>, far: Far) -> Out<()> {
    let lit = literal_at(src, run_end(src, pos, CharClass::Space), word, far);
    match lit.res {
        Some((_, end)) => done((), run_end(src, end, CharClass::Space), lit.far),
        None => fail(lit.far),
    }
}

/// Matches `word` at `pos`, skipping white space on both sides of it.
pub fn padded(src: &[char], pos: usize, word: &str, far: &mut Furthest) -> (r: Option<usize>)
    requires
        ready(src@, pos, old(far)@),
    ensures
        ends(r, final(far)@, padded_at(src@, pos as int, word@, old(far)@), src@, pos),
        r matches Some(end) ==> pos + word@.len() <= end,
{
    let start: usize = skip(src, pos, CharClass::Space);
    match literal(src, start, word, far) {
        Some(end) => Some(skip(src, end, CharClass::Space)),
        None => None,
    }
}

/// The end of the input.
pub open spec fn end_at(src: Seq<char>, pos: int, far: Far) -> Out<()> {
    if pos >= src.len() {
        done((), pos, far)
    } else {
        fail(far.want(pos, None))
    }
}

/// Matches the end of the input.
pub fn end_of_input(src: &[char], pos: usize, far: &mut Furthest) -> (r: Option<usize>)
    requires
        ready(src@, pos, old(far)@),
    ensures
        ends(r, final(far)@, end_at(src@, pos as int, old(far)@), src@, pos),
{
    if pos >= src.len() {
        Some(pos)
    } else {
        far.want(pos, None);
        None
    }
}

/// An identifier: an ASCII letter or an underscore, then any number of ASCII
/// letters, digits and underscores.
pub open spec fn ident_at(src: Seq<char>, pos: int, far: Far) -> Out<Marked<Seq<char>>> {
    if 0 <= pos < src.len() && accepts(CharClass::IdentStart, src[pos]) {
        let end = run_end(src, pos + 1, CharClass::IdentPart);
        done(token(src, pos, end), end, far)
    } else {
        fail(far.miss(pos))
    }
}

/// Reads an identifier with its span.
pub fn ident(src: &[char], pos: usize, far: &mut Furthest) -> (r: Option<(Spanned<String>, usize)>)
    requires
        ready(src@, pos, old(far)@),
    ensures
        holds(r, final(far)@, ident_at(src@, pos as int, old(far)@), src@, pos),
        r matches Some((_, end)) ==> pos < end,
{
    if pos < src.len() && belongs(CharClass::IdentStart, src[pos]) {
        let end: usize = skip(src, pos + 1, CharClass::IdentPart);
        Some((spanned(pos, end, text(src, pos, end)), end))
    } else {
        far.miss(pos);
        None
    }
}

/// One or more characters of the class, as text with its span.
pub open spec fn token_at(src: Seq<char>, pos: int, class: CharClass, far: Far) -> Out<
    Marked<Seq<char>>,
> {
    if 0 <= pos < src.len() && accepts(class, src[pos]) {
        done(token(src, pos, run_end(src, pos, class)), run_end(src, pos, class), far)
    } else {
        fail(far.miss(pos))
    }
}

/// Reads one or more characters of the class, with their span.
pub fn run_token(src: &[char], pos: usize, class: CharClass, far: &mut Furthest) -> (r: Option<
    (Spanned<String>, usize),
>)
    requires
        ready(src@, pos, old(far)@),
    ensures
        holds(r, final(far)@, token_at(src@, pos as int, class, old(far)@), src@, pos),
        r matches Some((_, end)) ==> pos < end,
{
    match run(src, pos, class, far) {
        Some(end) => Some((spanned(pos, end, text(src, pos, end)), end)),
        None => None,
    }
}

/// One or more characters of the class, if they stand at `pos`.
pub open spec fn maybe_run_at(src: Seq<char>, pos: int, class: CharClass, far: Far) -> Out<()> {
    let found = run_at(src, pos, class, far);
    match found.res {
        Some(_) => found,
        None => done((), pos, found.far),
    }
}

/// Skips one or more characters of the class, if they stand at `pos`.
pub fn maybe_run(src: &[char], pos: usize, class: CharClass, far: &mut Furthest) -> (end: usize)
    requires
        ready(src@, pos, old(far)@),
    ensures
        ends(Some(end), final(far)@, maybe_run_at(src@, pos as int, class, old(far)@), src@, pos),
{
    match run(src, pos, class, far) {
        Some(end) => end,
        None => pos,
    }
}

/// A line break: a line feed, with or without a carriage return before it,
/// or else one of the other characters that end a line.
pub open spec fn newline_at(src: Seq<char>, pos: int, far: Far) -> Out<()> {
    let cr = symbol_at(src, pos, '\r', far);
    let at = match cr.res {
        Some((_, end)) => end,
        None => pos,
    };
    let lf = symbol_at(src, at, '\n', cr.far);
    match lf.res {
        Some(_) => lf,
        None => {
            let other = single_at(src, pos, CharClass::Break, lf.far);
            match other.res {
                Some((_, end)) => done((), end, other.far),
                None => fail(other.far),
            }
        },
    }
}

/// Matches a line break.
pub fn newline(src: &[char], pos: usize, far: &mut Furthest) -> (r: Option<usize>)
    requires
        ready(src@, pos, old(far)@),
    ensures
        ends(r, final(far)@, newline_at(src@, pos as int, old(far)@), src@, pos),
        r matches Some(end) ==> pos < end,
{
    let at: usize = match symbol(src, pos, '\r', far) {
        Some(end) => end,
        None => pos,
    };
    match symbol(src, at, '\n', far) {
        Some(end) => Some(end),
        None => match single(src, pos, CharClass::Break, far) {
            Some((_, end)) => Some(end),
            None => None,
        },
    }
}

/// What a parse from the start of a source gives to its caller: the value,
/// or else the one error record of the furthest failure; in both, every span
/// is told in bytes of the UTF-8 text.
pub open spec fn verdict<T: InBytes>(out: Out<T::M>, src: Seq<char>) -> Result<
    T::M,
    Seq<ParseErrorView>,
> {
    match out.res {
        Some((node, _)) => Ok(T::bytes_of(node, src)),
        None => Err(seq![out.far.report(src).in_bytes(src)]),
    }
}

/// The views of error records, in order.
pub open spec fn reports(errors: Seq<ParseError>) -> Seq<ParseErrorView> {
    Seq::new(errors.len(), |i: int| errors[i]@)
}

/// The executable result `r` is what `expected` says.
pub open spec fn agrees<T: Model>(
    r: Result<T, Vec<ParseError>>,
    expected: Result<T::M, Seq<ParseErrorView>>,
) -> bool {
    match r {
        Ok(node) => expected == Ok::<T::M, Seq<ParseErrorView>>(node.model()),
        Err(errors) => expected == Err::<T::M, Seq<ParseErrorView>>(reports(errors@)),
    }
}

/// Turns the result of a production into the result of a parse: the value,
/// or the error record of the furthest failure, with the spans in bytes.
pub(crate) fn finish<T: InBytes>(
    src: &[char],
    r: Option<(T, usize)>,
    far: Furthest,
    Ghost(out): Ghost<Out<T::M>>,
) -> (res: Result<T, Vec<ParseError>>)
    requires
        holds(r, far@, out, src@, 0),
        byte_len(src@) <= usize::MAX,
    ensures
        agrees(res, verdict::<T>(out, src@)),
        res is Ok <==> r is Some,
        res matches Err(errors) ==> errors@.len() == 1 && errors@[0].span.start
            <= errors@[0].span.end <= byte_len(src@),
{
    let table = match Offsets::new(src) {
        Some(table) => table,
        None => {
            proof {
                assert(false);
            }
            return Err(Vec::new());
        },
    };
    match r {
        Some((node, _)) => Ok(node.in_bytes(&table)),
        None => {
            let mut errors: Vec<ParseError> = Vec::new();
            match far.into_error(src) {
                Some(error) => {
                    proof {
                        let at = far@.at;
                        if at < src@.len() {
                            lemma_byte_at(src@, at, at + 1);
                        }
                        lemma_byte_at(src@, at, at);
                        if let Some((start, _)) = far@.custom {
                            lemma_byte_at(src@, start, at);
                        }
                    }
                    errors.push(error.in_bytes(&table));
                },
                None => {},
            }
            assert(reports(errors@) =~= seq![out.far.report(src@).in_bytes(src@)]);
            Err(errors)
        },
    }
}

} // verus!
