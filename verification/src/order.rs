//! A bracket without a class letter is a modification.
//!
//! A target tries the modification before the pattern. What stands in
//! square brackets without a class letter could be read as a category of a
//! pattern; it never is, because the modification reads the same features.

use crate::ast::{SegmentView, TargetView};
use crate::chars::CharClass;
use crate::error::Far;
use crate::exact::lemma_scan;
use crate::insert::common::lemma_features_at;
use crate::insert::{alike_at, widened, Move};
use crate::model::Marked;
use crate::parser::common::{category_at, features_at};
use crate::parser::scan::{run_end, single_at, symbol_at, text_at};
use crate::parser::sound_change::{
    modification_at, segment_at, segments_at, target_at, };
use vstd::prelude::*;

verus! {

/// What reads as a category without a class letter reads, as a target, as
/// the modification of the same features over the same span, whatever the
/// failure records are.
pub proof fn lemma_bracket_is_modification(src: Seq<char>, pos: int, far: Far, other: Far)
    requires
        0 <= pos <= src.len(),
    ensures
        match category_at(src, pos, other).res {
            Some((category, end)) => category.base_class is None ==> target_at(src, pos, far).res
                == Some(
                (
                    Marked { start: pos, end, node: TargetView::Modification(category.features) },
                    end,
                ),
            ),
            None => true,
        },
{
    if let Some((category, end)) = category_at(src, pos, other).res {
        if category.base_class is None {
            assert(widened(src, src, 0, 0));
            lemma_features_at(src, src, 0, 0);
            lemma_scan(src);
            let inside = pos + 1;
            let letter = single_at(
                src,
                run_end(src, inside, CharClass::Space),
                CharClass::Upper,
                symbol_at(src, pos, '[', other).far,
            );
            let there = features_at(src, inside, letter.far);
            let here = features_at(src, inside, symbol_at(src, pos, '[', far).far);
            assert(alike_at(here, there, 0, 0));
            if let Some((items, _)) = there.res {
                assert(items.moved(0, 0) =~= items);
            }
        }
    }
}

/// The target is a pattern that begins with a category without a class
/// letter.
pub open spec fn bare(target: TargetView) -> bool {
    match target {
        TargetView::Pattern(items) => items.len() > 0 && match items[0] {
            SegmentView::Category(category) => category.base_class is None,
            SegmentView::Phonemes(_) => false,
        },
        _ => false,
    }
}

/// A target is never a pattern that begins with a category without a class
/// letter.
pub proof fn lemma_modification_first(src: Seq<char>, pos: int, far: Far)
    requires
        0 <= pos <= src.len(),
    ensures
        target_at(src, pos, far).res matches Some((target, _)) ==> !bare(target.node),
{
    let edit = modification_at(src, pos, far);
    if edit.res is None {
        let word = text_at(src, pos, CharClass::Word, edit.far);
        if word.res is None {
            lemma_bracket_is_modification(src, pos, far, word.far);
        }
        let first = segment_at(src, pos, edit.far);
        if let Some((item, end)) = first.res {
            if let Some((rest, _)) = segments_at(src, end, first.far).res {
                assert((seq![item] + rest)[0] == item);
            }
        }
    }
}

} // verus!
