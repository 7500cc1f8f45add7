use diachrony::ast::{Segment, Source, Stmt, Target};
use diachrony::bytes::{byte_offset, byte_span, utf8_width, Offsets};
use diachrony::parser::sound_change::parser;

#[test]
fn a_character_takes_one_to_four_bytes() {
    for c in ['a', '\u{7f}', '\u{80}', 'ɢ', '\u{7ff}', '\u{800}', 'ℂ', '\u{ffff}', '\u{10000}', '𐍈', '\u{10ffff}'] {
        assert_eq!(utf8_width(c), c.len_utf8());
    }
}

#[test]
fn a_byte_offset_counts_the_bytes_before_a_place() {
    let source = "aɢℂ𐍈z";
    let chars: Vec<char> = source.chars().collect();
    let offsets: Vec<Option<usize>> = (0..=chars.len()).map(|at| byte_offset(&chars, at)).collect();
    assert_eq!(offsets, vec![Some(0), Some(1), Some(3), Some(6), Some(10), Some(11)]);
    assert_eq!(byte_span(&chars, &(1..3)), Some(1..6));
    let table = Offsets::new(&chars).unwrap();
    let listed: Vec<usize> = (0..=chars.len() + 2).map(|at| table.at(at)).collect();
    assert_eq!(listed, vec![0, 1, 3, 6, 10, 11, 11, 11]);
}

#[test]
fn a_span_cuts_its_text_from_the_string() {
    let source = "$ ɢ > g";
    match parser(source) {
        Ok(Stmt::SoundChange { source: from, target: to, .. }) => {
            assert_eq!(from.0, 2..4);
            assert_eq!(to.0, 7..8);
            assert_eq!(from.1, Source::Pattern(vec![Segment::Phonemes(source[from.0].to_string())]));
            assert_eq!(to.1, Target::Pattern(vec![Segment::Phonemes(source[to.0].to_string())]));
        }
        other => panic!("{:?}", other),
    }
}
