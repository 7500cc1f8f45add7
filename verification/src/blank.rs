//! Blank space at the start of a line.
//!
//! White space that is put in at the start of a line, before the first
//! statement, between two statements or anywhere else, changes nothing of
//! the program that is read but the spans: what stands at or after the place
//! moves by the length of what was put in. [`lemma_blank_line_read`] says so
//! of what the grammar reads, in characters; [`lemma_blank_line`] of what
//! [`crate::parse`] returns, in bytes.

use crate::chars::line_break;
use crate::error::Far;
use crate::insert::sequence::lemma_root_at;
use crate::insert::{
    alike_at, is_blank, lemma_run_through, put_in, sigma, widened, Move,
};
use crate::bytes::{byte_at, byte_len, lemma_encode_concat};
use crate::exact::lemma_root;
use crate::insert_bytes::{grown, lemma_put_program};
use crate::parser::{program, root_at};
use vstd::prelude::*;

verus! {

/// A source with blank space put in after a line break is the old source
/// widened at that place.
pub proof fn lemma_put_in(source: Seq<char>, at: int, blank: Seq<char>)
    requires
        0 <= at <= source.len(),
        at == 0 || source[at - 1] == '\n' || line_break(source[at - 1]),
        is_blank(blank),
    ensures
        widened(put_in(source, at, blank), source, at, blank.len() as int),
{
    let a = put_in(source, at, blank);
    let by = blank.len() as int;
    assert forall|p: int| 0 <= p < at implies a[p] == #[trigger] source[p] by {}
    assert forall|p: int| at <= p < source.len() implies a[p + by] == #[trigger] source[p] by {}
    assert forall|p: int| at <= p < at + by implies crate::chars::white_space(#[trigger] a[p]) by {
        assert(a[p] == blank[p - at]);
    }
}

/// Blank space put in at the start of a line changes nothing of what the
/// grammar reads but its spans: the statements are the same, with every
/// offset at or after the place moved by the length of the blank space; and
/// a text that is no program stays none. Offsets count characters here.
///
/// The start of a line is the start of the text or the place after a line
/// feed or a carriage return.
pub proof fn lemma_blank_line_read(source: Seq<char>, at: int, blank: Seq<char>)
    requires
        0 <= at <= source.len(),
        at == 0 || source[at - 1] == '\n' || source[at - 1] == '\r',
        is_blank(blank),
    ensures
        alike_at(
            root_at(put_in(source, at, blank), 0, Far::none()),
            root_at(source, 0, Far::none()),
            at,
            blank.len() as int,
        ),
{
    let a = put_in(source, at, blank);
    let by = blank.len() as int;
    lemma_put_in(source, at, blank);
    lemma_root_at(a, source, at, by);
    let old_root = root_at(source, 0, Far::none());
    let new_root = root_at(a, sigma(0, at, by), Far::none());
    assert(alike_at(new_root, old_root, at, by));
    if at == 0 {
        lemma_run_through(a, 0, by);
        assert(root_at(a, 0, Far::none()) == root_at(a, by, Far::none()));
    }
}

/// Blank space put in at the start of a line changes nothing of a program
/// but its spans: [`crate::parse`] gives the same statements, with every
/// offset at or after the place moved by the length of the blank space in
/// bytes; and a text that is no program stays none.
///
/// The start of a line is the start of the text or the place after a line
/// feed or a carriage return.
pub proof fn lemma_blank_line(source: Seq<char>, at: int, blank: Seq<char>)
    requires
        0 <= at <= source.len(),
        at == 0 || source[at - 1] == '\n' || source[at - 1] == '\r',
        is_blank(blank),
    ensures
        program(source) matches Ok(stmts) ==> program(put_in(source, at, blank)) matches Ok(moved)
            && moved == stmts.moved(byte_at(source, at), byte_len(blank) as int),
        program(source) is Err ==> program(put_in(source, at, blank)) is Err,
{
    let a = put_in(source, at, blank);
    let by = blank.len() as int;
    lemma_put_in(source, at, blank);
    lemma_blank_line_read(source, at, blank);
    lemma_root(source);
    if let Some((stmts, _)) = root_at(source, 0, Far::none()).res {
        lemma_put_program(a, source, at, by, stmts, 0, source.len() as int);
        let head = source.subrange(0, at);
        let tail = source.subrange(at, source.len() as int);
        assert(source =~= head + tail);
        lemma_encode_concat(head, blank);
        lemma_encode_concat(head + blank, tail);
        lemma_encode_concat(head, tail);
        assert(grown(a, source) == byte_len(blank));
    }
}

} // verus!
