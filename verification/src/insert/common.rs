//! Features, categories, numbers and lists where blank space was put in.

use crate::ast::FeatureView;
use crate::chars::{accepts, ascii_digit, line_break, CharClass};
use crate::error::Far;
use crate::exact::{lemma_scan, sound};
use crate::insert::{
    alike_at,
    steady,
    lemma_moved_empty,
    lemma_moved_prepend,
    lemma_run_before,
    lemma_scan_at,
    same_at,
    sigma,
    widened,
};
use crate::insert::scan::{lemma_ident_at, lemma_marks_at, lemma_token_at};
use crate::model::Marked;
use crate::parser::common::{
    decimal,
    category_at,
    feature_at,
    features_at,
    idents_at,
    idents_from,
    integer_at,
    item_at,
    list_at,
    listed_at,
    trailing_at,
    TokenKind,
};
use crate::parser::scan::{advances, ident_at, padded_symbol_at, run_end, token};
use vstd::prelude::*;

verus! {

/// A feature is the same on the new source as on the old, but for its span.
pub proof fn lemma_feature_at(a: Seq<char>, b: Seq<char>, at: int, by: int)
    requires
        widened(a, b, at, by),
    ensures
        forall|i: int, j: int, fa: Far, fb: Far|
            0 <= i <= b.len() && j == sigma(i, at, by) ==> alike_at(
                #[trigger] feature_at(a, j, fa),
                #[trigger] feature_at(b, i, fb),
                at,
                by,
            ) && sound(a, j, feature_at(a, j, fa)),
{
    lemma_scan(a);
    lemma_scan_at(a, b, at, by);
    lemma_ident_at(a, b, at, by);
    reveal(feature_at);
}

proof fn lemma_features_put(
    a: Seq<char>,
    b: Seq<char>,
    at: int,
    by: int,
    i: int,
    fa: Far,
    fb: Far,
)
    requires
        widened(a, b, at, by),
        0 <= i <= b.len(),
    ensures
        alike_at(features_at(a, sigma(i, at, by), fa), features_at(b, i, fb), at, by),
        sound(a, sigma(i, at, by), features_at(a, sigma(i, at, by), fa)),
        features_at(b, i, fb).res is Some,
    decreases b.len() - i,
{
    lemma_feature_at(a, b, at, by);
    lemma_moved_empty::<Marked<FeatureView>>(at, by);
    let first = feature_at(a, sigma(i, at, by), fa);
    let other = feature_at(b, i, fb);
    assert(alike_at(first, other, at, by) && sound(a, sigma(i, at, by), first));
    if let Some((item, end)) = other.res {
        let next = end;
        if advances(b, i, next) {
            assert(advances(a, sigma(i, at, by), sigma(end, at, by)));
            assert(sigma(end, at, by) == sigma(next, at, by));
            lemma_features_put(a, b, at, by, next, first.far, other.far);
            if let Some((rest, _)) = features_at(b, next, other.far).res {
                lemma_moved_prepend(item, rest, at, by);
            }
        }
    }
}

/// Features are the same on the new source as on the old, but for their spans.
pub proof fn lemma_features_at(a: Seq<char>, b: Seq<char>, at: int, by: int)
    requires
        widened(a, b, at, by),
    ensures
        forall|i: int, j: int, fa: Far, fb: Far|
            0 <= i <= b.len() && j == sigma(i, at, by) ==> alike_at(
                #[trigger] features_at(a, j, fa),
                #[trigger] features_at(b, i, fb),
                at,
                by,
            ) && sound(a, j, features_at(a, j, fa)),
{
    assert forall|i: int, j: int, fa: Far, fb: Far|
        0 <= i <= b.len() && j == sigma(i, at, by) implies alike_at(
        #[trigger] features_at(a, j, fa),
        #[trigger] features_at(b, i, fb),
        at,
        by,
    ) && sound(a, j, features_at(a, j, fa)) by {
        lemma_features_put(a, b, at, by, i, fa, fb);
    }
}

/// A category is the same on the new source as on the old, but for its spans.
pub proof fn lemma_category_at(a: Seq<char>, b: Seq<char>, at: int, by: int)
    requires
        widened(a, b, at, by),
    ensures
        forall|i: int, j: int, fa: Far, fb: Far|
            0 <= i <= b.len() && j == sigma(i, at, by) ==> alike_at(
                #[trigger] category_at(a, j, fa),
                #[trigger] category_at(b, i, fb),
                at,
                by,
            ) && sound(a, j, category_at(a, j, fa)),
{
    lemma_scan(a);
    lemma_scan_at(a, b, at, by);
    lemma_features_at(a, b, at, by);
}

/// A text with a line break in it writes no number.
proof fn lemma_decimal_plain(text: Seq<char>, k: int)
    requires
        0 <= k < text.len(),
        text[k] == '\n' || line_break(text[k]),
    ensures
        decimal(text) is None,
{
    let has_sign = text.len() > 0 && (text[0] == '+' || text[0] == '-');
    let digits = if has_sign {
        text.subrange(1, text.len() as int)
    } else {
        text
    };
    let index = if has_sign {
        k - 1
    } else {
        k
    };
    assert(digits[index] == text[k]);
    assert(!ascii_digit(digits[index]));
}

/// A number is the same on the new source as on the old.
pub proof fn lemma_integer_at(a: Seq<char>, b: Seq<char>, at: int, by: int)
    requires
        widened(a, b, at, by),
    ensures
        forall|i: int, j: int, fa: Far, fb: Far|
            0 <= i <= b.len() && j == sigma(i, at, by) ==> same_at(
                #[trigger] integer_at(a, j, fa),
                #[trigger] integer_at(b, i, fb),
                at,
                by,
            ) && sound(a, j, integer_at(a, j, fa)),
{
    lemma_scan(a);
    lemma_scan_at(a, b, at, by);
    assert forall|i: int, j: int, fa: Far, fb: Far|
        0 <= i <= b.len() && j == sigma(i, at, by) implies same_at(
        #[trigger] integer_at(a, j, fa),
        #[trigger] integer_at(b, i, fb),
        at,
        by,
    ) && sound(a, j, integer_at(a, j, fa)) by {
        if i < at {
            assert(a[i] == b[i]);
            lemma_run_before(a, b, at, by, i, CharClass::Numeric);
            let end = run_end(b, i, CharClass::Numeric);
            if end >= at && accepts(CharClass::Numeric, b[i]) {
                let there = run_end(a, i, CharClass::Numeric);
                assert(a[at - 1] == b[at - 1]);
                assert(b.subrange(i, end)[at - 1 - i] == b[at - 1]);
                assert(a.subrange(i, there)[at - 1 - i] == b[at - 1]);
                lemma_decimal_plain(b.subrange(i, end), at - 1 - i);
                lemma_decimal_plain(a.subrange(i, there), at - 1 - i);
            }
        } else if i < b.len() {
            assert(a[i + by] == b[i]);
        }
    }
}

/// A token of a list is the same on the new source as on the old, but for its span.
pub proof fn lemma_item_at(a: Seq<char>, b: Seq<char>, at: int, by: int)
    requires
        widened(a, b, at, by),
    ensures
        forall|i: int, j: int, kind: TokenKind, fa: Far, fb: Far|
            0 <= i <= b.len() && j == sigma(i, at, by) ==> alike_at(
                #[trigger] item_at(a, j, kind, fa),
                #[trigger] item_at(b, i, kind, fb),
                at,
                by,
            ) && sound(a, j, item_at(a, j, kind, fa)),
{
    lemma_ident_at(a, b, at, by);
    lemma_token_at(a, b, at, by);
}

proof fn lemma_listed_put(
    a: Seq<char>,
    b: Seq<char>,
    at: int,
    by: int,
    i: int,
    kind: TokenKind, mark: char, fa: Far,
    fb: Far,
)
    requires
        widened(a, b, at, by),
        0 <= i <= b.len(),
        mark != '\n' && !line_break(mark),
    ensures
        alike_at(listed_at(a, sigma(i, at, by), kind, mark, fa), listed_at(b, i, kind, mark, fb), at, by),
        sound(a, sigma(i, at, by), listed_at(a, sigma(i, at, by), kind, mark, fa)),
        listed_at(b, i, kind, mark, fb).res is Some,
    decreases b.len() - i,
{
    lemma_marks_at(a, b, at, by);
    lemma_item_at(a, b, at, by);
    lemma_moved_empty::<Marked<Seq<char>>>(at, by);
    let sa = padded_symbol_at(a, sigma(i, at, by), mark, fa);
    let sb = padded_symbol_at(b, i, mark, fb);
    assert(same_at(sa, sb, at, by) && sound(a, sigma(i, at, by), sa));
    if let Some((_, mid)) = sb.res {
        let na = item_at(a, sigma(mid, at, by), kind, sa.far);
        let nb = item_at(b, mid, kind, sb.far);
        assert(alike_at(na, nb, at, by) && sound(a, sigma(mid, at, by), na));
        if let Some((node, end)) = nb.res {
            if advances(b, i, end) {
                assert(advances(a, sigma(i, at, by), sigma(end, at, by)));
                lemma_listed_put(a, b, at, by, end, kind, mark, na.far, nb.far);
                if let Some((rest, _)) = listed_at(b, end, kind, mark, nb.far).res {
                    lemma_moved_prepend(node, rest, at, by);
                }
            }
        }
    }
}

/// The rest of a list is the same on the new source as on the old, but for its spans.
pub proof fn lemma_listed_at(a: Seq<char>, b: Seq<char>, at: int, by: int)
    requires
        widened(a, b, at, by),
    ensures
        forall|i: int, j: int, kind: TokenKind, mark: char, fa: Far, fb: Far|
            0 <= i <= b.len() && j == sigma(i, at, by) && mark != '\n' && !line_break(mark) ==> alike_at(
                #[trigger] listed_at(a, j, kind, mark, fa),
                #[trigger] listed_at(b, i, kind, mark, fb),
                at,
                by,
            ) && sound(a, j, listed_at(a, j, kind, mark, fa)),
{
    assert forall|i: int, j: int, kind: TokenKind, mark: char, fa: Far, fb: Far|
        0 <= i <= b.len() && j == sigma(i, at, by) && mark != '\n' && !line_break(mark) implies alike_at(
        #[trigger] listed_at(a, j, kind, mark, fa),
        #[trigger] listed_at(b, i, kind, mark, fb),
        at,
        by,
    ) && sound(a, j, listed_at(a, j, kind, mark, fa)) by {
        lemma_listed_put(a, b, at, by, i, kind, mark, fa, fb);
    }
}

/// A list is the same on the new source as on the old, but for its spans.
pub proof fn lemma_list_at(a: Seq<char>, b: Seq<char>, at: int, by: int)
    requires
        widened(a, b, at, by),
    ensures
        forall|i: int, j: int, kind: TokenKind, mark: char, fa: Far, fb: Far|
            0 <= i <= b.len() && j == sigma(i, at, by) && mark != '\n' && !line_break(mark) ==> alike_at(
                #[trigger] list_at(a, j, kind, mark, fa),
                #[trigger] list_at(b, i, kind, mark, fb),
                at,
                by,
            ) && sound(a, j, list_at(a, j, kind, mark, fa)),
{
    lemma_item_at(a, b, at, by);
    lemma_listed_at(a, b, at, by);
    reveal(list_at);
    assert forall|i: int, j: int, kind: TokenKind, mark: char, fa: Far, fb: Far|
        0 <= i <= b.len() && j == sigma(i, at, by) && mark != '\n' && !line_break(mark) implies alike_at(
        #[trigger] list_at(a, j, kind, mark, fa),
        #[trigger] list_at(b, i, kind, mark, fb),
        at,
        by,
    ) && sound(a, j, list_at(a, j, kind, mark, fa)) by {
        let first = item_at(b, i, kind, fb);
        if let Some((node, end)) = first.res {
            if let Some((rest, _)) = listed_at(b, end, kind, mark, first.far).res {
                lemma_moved_prepend(node, rest, at, by);
            }
        }
    }
}

/// An optional mark is the same on the new source as on the old.
pub proof fn lemma_trailing_at(a: Seq<char>, b: Seq<char>, at: int, by: int)
    requires
        widened(a, b, at, by),
    ensures
        forall|i: int, j: int, mark: char, fa: Far, fb: Far|
            0 <= i <= b.len() && j == sigma(i, at, by) && mark != '\n' && !line_break(mark) ==> same_at(
                #[trigger] trailing_at(a, j, mark, fa),
                #[trigger] trailing_at(b, i, mark, fb),
                at,
                by,
            ) && sound(a, j, trailing_at(a, j, mark, fa)),
{
    lemma_marks_at(a, b, at, by);
}

proof fn lemma_idents_from_put(
    a: Seq<char>,
    b: Seq<char>,
    at: int,
    by: int,
    i: int,
    class: CharClass, fa: Far,
    fb: Far,
)
    requires
        widened(a, b, at, by),
        0 <= i <= b.len(),
        (steady(b, at, class) || at <= i),
    ensures
        alike_at(idents_from(a, sigma(i, at, by), class, fa), idents_from(b, i, class, fb), at, by),
        sound(a, sigma(i, at, by), idents_from(a, sigma(i, at, by), class, fa)),
        idents_from(b, i, class, fb).res is Some,
    decreases b.len() - i,
{
    lemma_scan(a);
    lemma_scan_at(a, b, at, by);
    lemma_ident_at(a, b, at, by);
    lemma_moved_empty::<Marked<Seq<char>>>(at, by);
    let first = ident_at(a, sigma(i, at, by), fa);
    let other = ident_at(b, i, fb);
    assert(alike_at(first, other, at, by) && sound(a, sigma(i, at, by), first));
    if let Some((item, end)) = other.res {
        let next = run_end(b, end, class);
        if advances(b, i, next) {
            assert(advances(a, sigma(i, at, by), run_end(a, sigma(end, at, by), class)));
            assert(run_end(a, sigma(end, at, by), class) == sigma(next, at, by));
            lemma_idents_from_put(a, b, at, by, next, class, first.far, other.far);
            if let Some((rest, _)) = idents_from(b, next, class, other.far).res {
                lemma_moved_prepend(item, rest, at, by);
            }
        }
    }
}

/// Identifiers are the same on the new source as on the old, but for their spans.
pub proof fn lemma_idents_from_at(a: Seq<char>, b: Seq<char>, at: int, by: int)
    requires
        widened(a, b, at, by),
    ensures
        forall|i: int, j: int, class: CharClass, fa: Far, fb: Far|
            0 <= i <= b.len() && j == sigma(i, at, by) && (steady(b, at, class) || at <= i) ==> alike_at(
                #[trigger] idents_from(a, j, class, fa),
                #[trigger] idents_from(b, i, class, fb),
                at,
                by,
            ) && sound(a, j, idents_from(a, j, class, fa)),
{
    assert forall|i: int, j: int, class: CharClass, fa: Far, fb: Far|
        0 <= i <= b.len() && j == sigma(i, at, by) && (steady(b, at, class) || at <= i) implies alike_at(
        #[trigger] idents_from(a, j, class, fa),
        #[trigger] idents_from(b, i, class, fb),
        at,
        by,
    ) && sound(a, j, idents_from(a, j, class, fa)) by {
        lemma_idents_from_put(a, b, at, by, i, class, fa, fb);
    }
}

/// Identifiers with space around them are the same on the new source as on the old, but for their spans.
pub proof fn lemma_idents_at(a: Seq<char>, b: Seq<char>, at: int, by: int)
    requires
        widened(a, b, at, by),
    ensures
        forall|i: int, j: int, class: CharClass, fa: Far, fb: Far|
            0 <= i <= b.len() && j == sigma(i, at, by) && (steady(b, at, class) || at <= i) ==> alike_at(
                #[trigger] idents_at(a, j, class, fa),
                #[trigger] idents_at(b, i, class, fb),
                at,
                by,
            ) && sound(a, j, idents_at(a, j, class, fa)),
{
    lemma_scan(a);
    lemma_scan_at(a, b, at, by);
    lemma_idents_from_at(a, b, at, by);
}

} // verus!
