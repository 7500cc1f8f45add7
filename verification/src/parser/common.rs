//! Productions that several statements share: words, class letters, free
//! text, numbers, features and categories.

use crate::ast::{Category, CategoryView, Feature, FeatureView};
use crate::chars::{ascii_digit, CharClass};
use crate::error::{Far, Furthest};
use crate::model::{lemma_models_empty, lemma_models_push, spanned, Marked, Model, Spanned};
use crate::parser::scan::{
    advances, done, ends, fail, holds, ident, ident_at, lemma_prepend_done, lemma_prepend_empty,
    lemma_prepend_push, padded_symbol, padded_symbol_at, prepend, ready, run_end, run_text,
    run_token, single, single_at, skip, symbol, symbol_at, text_at, token_at, Out,
};
use vstd::prelude::*;

verus! {

/// Skips blanks and tabs; returns where they end.
pub fn inline_whitespace(src: &[char], pos: usize) -> (end: usize)
    requires
        pos <= src@.len(),
    ensures
        end == run_end(src@, pos as int, CharClass::Inline),
        pos <= end <= src@.len(),
{
    skip(src, pos, CharClass::Inline)
}

/// Reads one character of a word or phoneme.
pub fn word_char(src: &[char], pos: usize, far: &mut Furthest) -> (r: Option<(char, usize)>)
    requires
        ready(src@, pos, old(far)@),
    ensures
        holds(r, final(far)@, single_at(src@, pos as int, CharClass::Word, old(far)@), src@, pos),
        r matches Some((_, end)) ==> end == pos + 1,
{
    single(src, pos, CharClass::Word, far)
}

/// Reads a word or phoneme: one or more characters that are neither white
/// space nor structural punctuation.
pub fn word_chars(src: &[char], pos: usize, far: &mut Furthest) -> (r: Option<(String, usize)>)
    requires
        ready(src@, pos, old(far)@),
    ensures
        holds(r, final(far)@, text_at(src@, pos as int, CharClass::Word, old(far)@), src@, pos),
        r matches Some((_, end)) ==> pos < end,
{
    run_text(src, pos, CharClass::Word, far)
}

/// Reads a class letter: one ASCII upper-case letter.
pub fn class(src: &[char], pos: usize, far: &mut Furthest) -> (r: Option<(char, usize)>)
    requires
        ready(src@, pos, old(far)@),
    ensures
        holds(r, final(far)@, single_at(src@, pos as int, CharClass::Upper, old(far)@), src@, pos),
        r matches Some((_, end)) ==> end == pos + 1,
{
    single(src, pos, CharClass::Upper, far)
}

/// Reads free text: one or more characters up to the end of the line or a
/// brace.
pub fn description(src: &[char], pos: usize, far: &mut Furthest) -> (r: Option<(String, usize)>)
    requires
        ready(src@, pos, old(far)@),
    ensures
        holds(r, final(far)@, text_at(src@, pos as int, CharClass::FreeText, old(far)@), src@, pos),
        r matches Some((_, end)) ==> pos < end,
{
    run_text(src, pos, CharClass::FreeText, far)
}

/// Reads a syllable: one or more word characters.
pub fn syllable(src: &[char], pos: usize, far: &mut Furthest) -> (r: Option<(String, usize)>)
    requires
        ready(src@, pos, old(far)@),
    ensures
        holds(r, final(far)@, text_at(src@, pos as int, CharClass::Word, old(far)@), src@, pos),
        r matches Some((_, end)) ==> pos < end,
{
    run_text(src, pos, CharClass::Word, far)
}

/// The feature that a sign and a name make.
pub open spec fn signed(sign: char, name: Seq<char>) -> FeatureView {
    if sign == '+' {
        FeatureView::Positive(name)
    } else {
        FeatureView::Negative(name)
    }
}

/// A feature: a sign and, directly after it, an identifier, with any white
/// space around the two. The span covers the sign and the name.
#[verifier::opaque]
pub open spec fn feature_at(src: Seq<char>, pos: int, far: Far) -> Out<Marked<FeatureView>> {
    let start = run_end(src, pos, CharClass::Space);
    let sign = single_at(src, start, CharClass::Sign, far);
    match sign.res {
        Some((mark, after)) => {
            let name = ident_at(src, after, sign.far);
            match name.res {
                Some((id, end)) => done(
                    Marked { start, end, node: signed(mark, id.node) },
                    run_end(src, end, CharClass::Space),
                    name.far,
                ),
                None => fail(name.far),
            }
        },
        None => fail(sign.far),
    }
}

/// Reads a feature with its span.
pub fn feature(src: &[char], pos: usize, far: &mut Furthest) -> (r: Option<
    (Spanned<Feature>, usize),
>)
    requires
        ready(src@, pos, old(far)@),
    ensures
        holds(r, final(far)@, feature_at(src@, pos as int, old(far)@), src@, pos),
        r matches Some((_, end)) ==> pos < end,
{
    proof {
        reveal(feature_at);
    }
    let start: usize = skip(src, pos, CharClass::Space);
    match single(src, start, CharClass::Sign, far) {
        Some((mark, after)) => match ident(src, after, far) {
            Some((id, end)) => {
                let node = if mark == '+' {
                    Feature::Positive(id.1)
                } else {
                    Feature::Negative(id.1)
                };
                Some((spanned(start, end, node), skip(src, end, CharClass::Space)))
            },
            None => None,
        },
        None => None,
    }
}

/// Features one after another, as many as there are.
pub open spec fn features_at(src: Seq<char>, pos: int, far: Far) -> Out<Seq<Marked<FeatureView>>>
    decreases src.len() - pos,
{
    let first = feature_at(src, pos, far);
    match first.res {
        Some((item, end)) => {
            if advances(src, pos, end) {
                prepend(seq![item], features_at(src, end, first.far))
            } else {
                done(Seq::empty(), pos, first.far)
            }
        },
        None => done(Seq::empty(), pos, first.far),
    }
}

/// Reads features one after another, as many as there are.
pub fn features(src: &[char], pos: usize, far: &mut Furthest) -> (r: (
    Vec<Spanned<Feature>>,
    usize,
))
    requires
        ready(src@, pos, old(far)@),
    ensures
        holds(Some(r), final(far)@, features_at(src@, pos as int, old(far)@), src@, pos),
        r.1 <= final(far)@.at,
{
    let mut items: Vec<Spanned<Feature>> = Vec::new();
    let mut cur: usize = pos;
    proof {
        lemma_models_empty::<Spanned<Feature>>();
        lemma_prepend_empty(features_at(src@, pos as int, far@));
    }
    loop
        invariant
            pos <= cur,
            ready(src@, cur, far@),
            features_at(src@, pos as int, old(far)@) == prepend(
                items.model(),
                features_at(src@, cur as int, far@),
            ),
        decreases src@.len() - cur,
    {
        match feature(src, cur, far) {
            Some((item, end)) => {
                proof {
                    lemma_models_push(items@, item);
                    lemma_prepend_push(
                        items.model(),
                        item.model(),
                        features_at(src@, end as int, far@),
                    );
                }
                items.push(item);
                cur = end;
            },
            None => {
                proof {
                    lemma_prepend_done(items.model(), cur as int, far@);
                }
                return (items, cur);
            },
        }
    }
}

/// A category: in square brackets, an optional class letter with any white
/// space around it, and one or more features.
pub open spec fn category_at(src: Seq<char>, pos: int, far: Far) -> Out<CategoryView> {
    let open = symbol_at(src, pos, '[', far);
    match open.res {
        Some((_, inside)) => {
            let at = run_end(src, inside, CharClass::Space);
            let letter = single_at(src, at, CharClass::Upper, open.far);
            let base = match letter.res {
                Some((c, end)) => Some(Marked { start: at, end, node: c }),
                None => None,
            };
            let next = match letter.res {
                Some((_, end)) => run_end(src, end, CharClass::Space),
                None => inside,
            };
            let list = features_at(src, next, letter.far);
            match list.res {
                Some((items, end)) => {
                    if items.len() == 0 {
                        fail(list.far)
                    } else {
                        let close = symbol_at(src, end, ']', list.far);
                        match close.res {
                            Some((_, after)) => done(
                                CategoryView { base_class: base, features: items },
                                after,
                                close.far,
                            ),
                            None => fail(close.far),
                        }
                    }
                },
                None => fail(list.far),
            }
        },
        None => fail(open.far),
    }
}

/// Reads a category.
pub fn category(src: &[char], pos: usize, far: &mut Furthest) -> (r: Option<(Category, usize)>)
    requires
        ready(src@, pos, old(far)@),
    ensures
        holds(r, final(far)@, category_at(src@, pos as int, old(far)@), src@, pos),
        r matches Some((_, end)) ==> pos < end,
{
    match symbol(src, pos, '[', far) {
        Some(inside) => {
            let at: usize = skip(src, inside, CharClass::Space);
            let mut base: Option<Spanned<char>> = None;
            let mut next: usize = inside;
            match single(src, at, CharClass::Upper, far) {
                Some((c, end)) => {
                    base = Some(spanned(at, end, c));
                    next = skip(src, end, CharClass::Space);
                },
                None => {},
            }
            let (items, end) = features(src, next, far);
            if items.len() == 0 {
                None
            } else {
                match symbol(src, end, ']', far) {
                    Some(after) => Some((Category { base_class: base, features: items }, after)),
                    None => None,
                }
            }
        },
        None => None,
    }
}

/// The number that a run of ASCII digits writes in base ten.
pub open spec fn digits_value(digits: Seq<char>) -> nat
    decreases digits.len(),
{
    if digits.len() == 0 {
        0
    } else {
        (digits_value(digits.drop_last()) * 10 + (digits.last() as int - '0' as int)) as nat
    }
}

/// Every character is an ASCII digit.
pub open spec fn all_digits(digits: Seq<char>) -> bool {
    forall|i: int| 0 <= i < digits.len() ==> ascii_digit(#[trigger] digits[i])
}

/// The number that a text writes in base ten: an optional sign, then one or
/// more ASCII digits and nothing else. There is none where the text has
/// another form, or where the number does not fit in 64 bits with a sign.
pub open spec fn decimal(text: Seq<char>) -> Option<int> {
    let has_sign = text.len() > 0 && (text[0] == '+' || text[0] == '-');
    let digits = if has_sign {
        text.subrange(1, text.len() as int)
    } else {
        text
    };
    let value = if has_sign && text[0] == '-' {
        -(digits_value(digits) as int)
    } else {
        digits_value(digits) as int
    };
    if digits.len() > 0 && all_digits(digits) && i64::MIN <= value <= i64::MAX {
        Some(value)
    } else {
        None
    }
}

/// The message with which the standard library refuses to read `text` as a
/// 64-bit number.
pub uninterp spec fn decimal_fault(text: Seq<char>) -> Seq<char>;

/// `str::parse::<i64>` reads an optional sign followed by decimal digits and
/// fails on any other text and on a number out of range; the message is what
/// its error displays, named [`decimal_fault`].
#[verifier::external_body]
fn read_decimal(text: &str) -> (r: Result<i64, String>)
    ensures
        match r {
            Ok(value) => decimal(text@) == Some(value as int),
            Err(message) => decimal(text@) is None && message@ == decimal_fault(text@),
        },
{
    match text.parse::<i64>() {
        Ok(value) => Ok(value),
        Err(e) => Err(format!("{}", e)),
    }
}

/// A number: one or more numeric characters that read as a 64-bit number.
/// Where they do not, the failure carries the message, anchored at the end
/// of the digits.
pub open spec fn integer_at(src: Seq<char>, pos: int, far: Far) -> Out<i64> {
    let digits = text_at(src, pos, CharClass::Numeric, far);
    match digits.res {
        Some((text, end)) => match decimal(text) {
            Some(value) => done(value as i64, end, digits.far),
            None => fail(digits.far.fault(pos, end, decimal_fault(text))),
        },
        None => fail(digits.far),
    }
}

/// What [`integer`] makes of the digits it has read and the outcome of
/// reading them as a number.
pub fn integer_of(
    start: usize,
    end: usize,
    read: Result<i64, String>,
    far: &mut Furthest,
) -> (r: Option<(i64, usize)>)
    ensures
        match read {
            Ok(value) => r == Some((value, end)) && final(far)@ == old(far)@,
            Err(message) => r is None && final(far)@ == old(far)@.fault(
                start as int,
                end as int,
                message@,
            ),
        },
{
    match read {
        Ok(value) => Some((value, end)),
        Err(message) => {
            far.fault(start, end, message);
            None
        },
    }
}

/// Reads a number.
pub fn integer(src: &[char], pos: usize, far: &mut Furthest) -> (r: Option<(i64, usize)>)
    requires
        ready(src@, pos, old(far)@),
    ensures
        holds(r, final(far)@, integer_at(src@, pos as int, old(far)@), src@, pos),
        r matches Some((_, end)) ==> pos < end,
{
    match run_text(src, pos, CharClass::Numeric, far) {
        Some((digits, end)) => integer_of(pos, end, read_decimal(digits.as_str()), far),
        None => None,
    }
}

/// The two kinds of token that a list may hold.
#[derive(Clone, Copy, Debug, PartialEq, Eq)]
pub enum TokenKind {
    /// An identifier.
    Ident,
    /// A word or phoneme.
    Word,
}

/// One token of the kind, with its span.
pub open spec fn item_at(src: Seq<char>, pos: int, kind: TokenKind, far: Far) -> Out<
    Marked<Seq<char>>,
> {
    match kind {
        TokenKind::Ident => ident_at(src, pos, far),
        TokenKind::Word => token_at(src, pos, CharClass::Word, far),
    }
}

/// Reads one token of the kind.
pub fn item(src: &[char], pos: usize, kind: TokenKind, far: &mut Furthest) -> (r: Option<
    (Spanned<String>, usize),
>)
    requires
        ready(src@, pos, old(far)@),
    ensures
        holds(r, final(far)@, item_at(src@, pos as int, kind, old(far)@), src@, pos),
        r matches Some((_, end)) ==> pos < end,
{
    match kind {
        TokenKind::Ident => ident(src, pos, far),
        TokenKind::Word => run_token(src, pos, CharClass::Word, far),
    }
}

/// What follows the first token of a list: any number of times the mark,
/// with white space around it, and a token. A mark that no token follows is
/// not part of the list.
pub open spec fn listed_at(src: Seq<char>, pos: int, kind: TokenKind, mark: char, far: Far) -> Out<
    Seq<Marked<Seq<char>>>,
>
    decreases src.len() - pos,
{
    let sep = padded_symbol_at(src, pos, mark, far);
    match sep.res {
        Some((_, at)) => {
            let next = item_at(src, at, kind, sep.far);
            match next.res {
                Some((node, end)) => {
                    if advances(src, pos, end) {
                        prepend(seq![node], listed_at(src, end, kind, mark, next.far))
                    } else {
                        done(Seq::empty(), pos, next.far)
                    }
                },
                None => done(Seq::empty(), pos, next.far),
            }
        },
        None => done(Seq::empty(), pos, sep.far),
    }
}

/// A list of one or more tokens with the mark between them.
#[verifier::opaque]
pub open spec fn list_at(src: Seq<char>, pos: int, kind: TokenKind, mark: char, far: Far) -> Out<
    Seq<Marked<Seq<char>>>,
> {
    let first = item_at(src, pos, kind, far);
    match first.res {
        Some((node, end)) => prepend(seq![node], listed_at(src, end, kind, mark, first.far)),
        None => fail(first.far),
    }
}

/// Reads a list of one or more tokens with the mark between them.
pub fn list(src: &[char], pos: usize, kind: TokenKind, mark: char, far: &mut Furthest) -> (r:
    Option<(Vec<Spanned<String>>, usize)>)
    requires
        ready(src@, pos, old(far)@),
    ensures
        holds(r, final(far)@, list_at(src@, pos as int, kind, mark, old(far)@), src@, pos),
        r matches Some((items, end)) ==> pos < end && items@.len() > 0,
{
    proof {
        reveal(list_at);
    }
    let (first, end) = match item(src, pos, kind, far) {
        Some(found) => found,
        None => { return None; },
    };
    let mut items: Vec<Spanned<String>> = Vec::new();
    proof {
        lemma_models_empty::<Spanned<String>>();
        lemma_models_push(items@, first);
    }
    items.push(first);
    let mut cur: usize = end;
    proof {
        assert(items.model() =~= seq![first.model()]);
    }
    loop
        invariant
            pos < cur,
            items@.len() > 0,
            ready(src@, cur, far@),
            list_at(src@, pos as int, kind, mark, old(far)@) == prepend(
                items.model(),
                listed_at(src@, cur as int, kind, mark, far@),
            ),
        decreases src@.len() - cur,
    {
        let at: usize = match padded_symbol(src, cur, mark, far) {
            Some(at) => at,
            None => {
                proof {
                    lemma_prepend_done(items.model(), cur as int, far@);
                }
                return Some((items, cur));
            },
        };
        match item(src, at, kind, far) {
            Some((node, end)) => {
                proof {
                    lemma_models_push(items@, node);
                    lemma_prepend_push(
                        items.model(),
                        node.model(),
                        listed_at(src@, end as int, kind, mark, far@),
                    );
                }
                items.push(node);
                cur = end;
            },
            None => {
                proof {
                    lemma_prepend_done(items.model(), cur as int, far@);
                }
                return Some((items, cur));
            },
        }
    }
}

/// The mark with white space around it, if it stands at `pos`.
pub open spec fn trailing_at(src: Seq<char>, pos: int, mark: char, far: Far) -> Out<()> {
    let sep = padded_symbol_at(src, pos, mark, far);
    match sep.res {
        Some(_) => sep,
        None => done((), pos, sep.far),
    }
}

/// Skips the mark and the white space around it, if it stands at `pos`.
pub fn trailing(src: &[char], pos: usize, mark: char, far: &mut Furthest) -> (end: usize)
    requires
        ready(src@, pos, old(far)@),
    ensures
        ends(Some(end), final(far)@, trailing_at(src@, pos as int, mark, old(far)@), src@, pos),
{
    match padded_symbol(src, pos, mark, far) {
        Some(end) => end,
        None => pos,
    }
}

/// Identifiers one after another, each followed by any number of characters
/// of the class.
pub open spec fn idents_from(src: Seq<char>, pos: int, class: CharClass, far: Far) -> Out<
    Seq<Marked<Seq<char>>>,
>
    decreases src.len() - pos,
{
    let first = ident_at(src, pos, far);
    match first.res {
        Some((node, end)) => {
            let next = run_end(src, end, class);
            if advances(src, pos, next) {
                prepend(seq![node], idents_from(src, next, class, first.far))
            } else {
                done(Seq::empty(), pos, first.far)
            }
        },
        None => done(Seq::empty(), pos, first.far),
    }
}

/// Any number of identifiers, with characters of the class before, between
/// and after them.
pub open spec fn idents_at(src: Seq<char>, pos: int, class: CharClass, far: Far) -> Out<
    Seq<Marked<Seq<char>>>,
> {
    idents_from(src, run_end(src, pos, class), class, far)
}

/// Reads any number of identifiers that characters of the class separate.
pub fn idents(src: &[char], pos: usize, class: CharClass, far: &mut Furthest) -> (r: (
    Vec<Spanned<String>>,
    usize,
))
    requires
        ready(src@, pos, old(far)@),
    ensures
        holds(Some(r), final(far)@, idents_at(src@, pos as int, class, old(far)@), src@, pos),
        r.1 <= final(far)@.at,
{
    let mut items: Vec<Spanned<String>> = Vec::new();
    let start: usize = skip(src, pos, class);
    let mut cur: usize = start;
    proof {
        lemma_models_empty::<Spanned<String>>();
        lemma_prepend_empty(idents_from(src@, start as int, class, far@));
    }
    loop
        invariant
            pos <= start <= cur,
            start == run_end(src@, pos as int, class),
            ready(src@, cur, far@),
            idents_from(src@, start as int, class, old(far)@) == prepend(
                items.model(),
                idents_from(src@, cur as int, class, far@),
            ),
        decreases src@.len() - cur,
    {
        match ident(src, cur, far) {
            Some((node, end)) => {
                let next: usize = skip(src, end, class);
                proof {
                    lemma_models_push(items@, node);
                    lemma_prepend_push(
                        items.model(),
                        node.model(),
                        idents_from(src@, next as int, class, far@),
                    );
                }
                items.push(node);
                cur = next;
            },
            None => {
                proof {
                    lemma_prepend_done(items.model(), cur as int, far@);
                }
                return (items, cur);
            },
        }
    }
}

} // verus!
