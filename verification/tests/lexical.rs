use diachrony::ast::{Category, Feature, PhonemeDef, Series, Stmt, TraitMember};
use diachrony::chars::{belongs, chars_of, text, CharClass};
use diachrony::error::Furthest;
use diachrony::parser::common::{
    category, class, description, feature, inline_whitespace, integer, syllable, word_char,
    word_chars,
};
use diachrony::parser::scan::{ident, literal, newline, padded, skip};
use diachrony::parser::{class_definition, import, lang_definition, series_definition, trait_definition, word_definition};

fn chars(source: &str) -> Vec<char> {
    source.chars().collect()
}

#[test]
fn a_string_becomes_its_characters() {
    assert_eq!(chars_of("t͡s ɢ"), vec!['t', '\u{361}', 's', ' ', 'ɢ']);
    assert_eq!(text(&chars("t͡s ɢ"), 1, 4), "\u{361}s ");
}

#[test]
fn structural_punctuation_is_in_no_word() {
    for c in "/.,[]{}()>+-_#".chars() {
        assert!(!belongs(CharClass::Word, c));
    }
    for c in " \t\n\r\u{a0}\u{2028}\u{3000}".chars() {
        assert!(!belongs(CharClass::Word, c));
        assert!(belongs(CharClass::Space, c));
    }
    for c in "aɢ\u{361}$@:'=|*<0".chars() {
        assert!(belongs(CharClass::Word, c));
    }
}

#[test]
fn the_classes_hold_what_they_should() {
    assert!(belongs(CharClass::Inline, ' ') && belongs(CharClass::Inline, '\t'));
    assert!(!belongs(CharClass::Inline, '\n') && !belongs(CharClass::Inline, '\u{a0}'));
    assert!(belongs(CharClass::IdentStart, '_') && belongs(CharClass::IdentStart, 'q'));
    assert!(!belongs(CharClass::IdentStart, '7') && !belongs(CharClass::IdentStart, 'æ'));
    assert!(belongs(CharClass::IdentPart, '7') && !belongs(CharClass::IdentPart, '-'));
    assert!(belongs(CharClass::FreeText, ' ') && belongs(CharClass::FreeText, '\u{b}'));
    for c in "\r\n{}".chars() {
        assert!(!belongs(CharClass::FreeText, c));
    }
    assert!(belongs(CharClass::Numeric, '7') && belongs(CharClass::Numeric, '٤'));
    assert!(!belongs(CharClass::Numeric, 'x') && !belongs(CharClass::Numeric, '-'));
    assert!(belongs(CharClass::Upper, 'A') && belongs(CharClass::Upper, 'Z'));
    assert!(!belongs(CharClass::Upper, 'a') && !belongs(CharClass::Upper, 'Æ'));
    assert!(belongs(CharClass::Sign, '+') && belongs(CharClass::Sign, '-'));
    assert!(!belongs(CharClass::Sign, '*'));
    for c in "\r\u{b}\u{c}\u{85}\u{2028}\u{2029}".chars() {
        assert!(belongs(CharClass::Break, c));
    }
    assert!(!belongs(CharClass::Break, '\n') && !belongs(CharClass::Break, ' '));
}

#[test]
fn runs_are_as_long_as_they_can_be() {
    let src = chars("  \t\n x");
    assert_eq!(skip(&src, 0, CharClass::Space), 5);
    assert_eq!(inline_whitespace(&src, 0), 3);
    assert_eq!(inline_whitespace(&src, 3), 3);
    assert_eq!(skip(&src, 6, CharClass::Space), 6);
}

#[test]
fn words_stop_at_punctuation_and_space() {
    let src = chars("ˈwæ.ter kʷ");
    let mut far = Furthest::new();
    assert_eq!(word_chars(&src, 0, &mut far), Some(("ˈwæ".to_string(), 3)));
    assert_eq!(syllable(&src, 4, &mut far), Some(("ter".to_string(), 7)));
    assert_eq!(word_char(&src, 8, &mut far), Some(('k', 9)));
    assert_eq!(word_chars(&src, 3, &mut far), None);
    assert_eq!(word_char(&src, 10, &mut far), None);
}

#[test]
fn a_class_letter_is_one_upper_case_letter() {
    let src = chars("Cc");
    let mut far = Furthest::new();
    assert_eq!(class(&src, 0, &mut far), Some(('C', 1)));
    assert_eq!(class(&src, 1, &mut far), None);
}

#[test]
fn free_text_runs_to_the_end_of_the_line() {
    let src = chars("to pour, or sprinkle {x}\nnext");
    let mut far = Furthest::new();
    assert_eq!(description(&src, 0, &mut far), Some(("to pour, or sprinkle ".to_string(), 21)));
    assert_eq!(description(&src, 22, &mut far), Some(("x".to_string(), 23)));
    assert_eq!(description(&src, 24, &mut far), None);
}

#[test]
fn an_identifier_is_ascii() {
    let src = chars("_a1-b æ");
    let mut far = Furthest::new();
    assert_eq!(ident(&src, 0, &mut far), Some(((0..3, "_a1".to_string()), 3)));
    assert_eq!(ident(&src, 3, &mut far), None);
    assert_eq!(ident(&src, 6, &mut far), None);
}

#[test]
fn a_literal_matches_exactly() {
    let src = chars("  lang  x");
    let mut far = Furthest::new();
    assert_eq!(literal(&src, 2, "lang", &mut far), Some(6));
    assert_eq!(literal(&src, 2, "land", &mut far), None);
    assert_eq!(padded(&src, 0, "lang", &mut far), Some(8));
    assert_eq!(padded(&src, 0, "x", &mut far), None);
    assert_eq!(far.into_error(&src).map(|e| e.span), Some(5..6));
}

#[test]
fn line_breaks_come_in_several_forms() {
    let src = chars("\r\n\n\r\u{2028}x");
    let mut far = Furthest::new();
    assert_eq!(newline(&src, 0, &mut far), Some(2));
    assert_eq!(newline(&src, 2, &mut far), Some(3));
    assert_eq!(newline(&src, 3, &mut far), Some(4));
    assert_eq!(newline(&src, 4, &mut far), Some(5));
    assert_eq!(newline(&src, 5, &mut far), None);
}

#[test]
fn a_feature_span_leaves_the_padding_out() {
    let src = chars("  +stop  -voice]");
    let mut far = Furthest::new();
    assert_eq!(feature(&src, 0, &mut far), Some(((2..7, Feature::Positive("stop".to_string())), 9)));
    assert_eq!(feature(&src, 9, &mut far), Some(((9..15, Feature::Negative("voice".to_string())), 15)));
    assert_eq!(feature(&src, 15, &mut far), None);
}

#[test]
fn a_category_may_be_padded() {
    let src = chars("[ V +close -round ]");
    let mut far = Furthest::new();
    assert_eq!(
        category(&src, 0, &mut far),
        Some((
            Category {
                base_class: Some((2..3, 'V')),
                features: vec![
                    (4..10, Feature::Positive("close".to_string())),
                    (11..17, Feature::Negative("round".to_string())),
                ],
            },
            19
        ))
    );
    let mut far = Furthest::new();
    assert_eq!(category(&chars("[]"), 0, &mut far), None);
    assert_eq!(category(&chars("[V]"), 0, &mut far), None);
}

#[test]
fn a_number_is_read_in_base_ten() {
    let mut far = Furthest::new();
    assert_eq!(integer(&chars("1940, AmEng"), 0, &mut far), Some((1940, 4)));
    assert_eq!(integer(&chars("x"), 0, &mut far), None);
    assert_eq!(integer(&chars("99999999999999999999"), 0, &mut far), None);
    assert_eq!(integer(&chars("-5"), 0, &mut far), None);
}

#[test]
fn a_path_may_go_up() {
    assert_eq!(
        import::parser("import () from ../../shared/@ipa/."),
        Ok(Stmt::Import {
            path: vec![
                (15..17, "..".into()),
                (18..20, "..".into()),
                (21..27, "shared".into()),
                (28..32, "@ipa".into()),
                (33..34, ".".into()),
            ],
            absolute: false,
            names: vec![]
        })
    );
}

#[test]
fn a_trailing_comma_ends_a_list_of_names() {
    assert_eq!(
        import::parser("import ( C , ) from /x"),
        Ok(Stmt::Import { path: vec![(21..22, "x".into())], absolute: true, names: vec![(9..10, "C".into())] })
    );
    assert!(import::parser("import (,) from /x").is_err());
    assert!(import::parser("import * from /").is_err());
}

#[test]
fn a_display_name_may_hold_letters_of_any_script() {
    assert_eq!(
        lang_definition::parser("lang OE : Ænglisc (West-Saxon) 9\nnext"),
        Ok(Stmt::Language {
            id: (5..7, "OE".to_string()),
            parent: None,
            name: Some((10..33, "Ænglisc (West-Saxon) 9".to_string()))
        })
    );
}

#[test]
fn a_phoneme_may_have_no_traits() {
    assert_eq!(
        class_definition::parser("class V encodes (Height) annotates () { ə = , a = low\t }"),
        Ok(Stmt::Class {
            label: (6..7, "V".into()),
            encodes: vec![(17..23, "Height".into())],
            annotates: vec![],
            phonemes: vec![
                (40..44, PhonemeDef { label: (40..42, "ə".into()), traits: vec![] }),
                (47..54, PhonemeDef { label: (47..48, "a".into()), traits: vec![(51..54, "low".into())] }),
            ]
        })
    );
}

#[test]
fn a_class_may_annotate_traits() {
    assert_eq!(
        class_definition::parser("class C encodes (Place) annotates (Voice Length) { p = labial }"),
        Ok(Stmt::Class {
            label: (6..7, "C".into()),
            encodes: vec![(17..22, "Place".into())],
            annotates: vec![(35..40, "Voice".into()), (41..47, "Length".into())],
            phonemes: vec![(51..61, PhonemeDef { label: (51..52, "p".into()), traits: vec![(55..61, "labial".into())] })]
        })
    );
}

#[test]
fn a_member_may_have_several_labels() {
    assert_eq!(
        trait_definition::parser("trait Voice { default voiceless | unvoiced, voiced = _̬ }"),
        Ok(Stmt::Trait {
            label: (6..11, "Voice".into()),
            members: vec![
                (
                    14..42,
                    TraitMember {
                        labels: vec![(22..31, "voiceless".into()), (34..42, "unvoiced".into())],
                        notation: None,
                        default: true
                    }
                ),
                (
                    44..56,
                    TraitMember {
                        labels: vec![(44..50, "voiced".into())],
                        notation: Some((53..56, "_\u{32c}".into())),
                        default: false
                    }
                ),
            ]
        })
    );
}

#[test]
fn a_series_list_may_end_with_a_comma() {
    assert_eq!(
        series_definition::parser("series N = {\n  m,\n  n,\n}"),
        Ok(Stmt::Series {
            label: (7..8, "N".into()),
            series: (11..24, Series::List(vec![(15..16, "m".into()), (20..21, "n".into())]))
        })
    );
    assert!(series_definition::parser("series N = {}").is_err());
    assert!(series_definition::parser("series n = { m }").is_err());
}

#[test]
fn a_definition_needs_no_part_of_speech() {
    assert_eq!(
        word_definition::parser("- sun /sun/ the star of the day"),
        Ok(Stmt::Word {
            gloss: (2..5, "sun".to_string()),
            pronunciation: (6..11, vec!["sun".to_string()]),
            definitions: vec![diachrony::ast::Definition {
                pos: None,
                definition: (12..31, "the star of the day".to_string())
            }]
        })
    );
    assert!(word_definition::parser("- sun /sun./ x").is_err());
    assert!(word_definition::parser("- sun /sun/ {\n}").is_err());
}

#[test]
fn a_display_name_is_free_text() {
    assert_eq!(
        lang_definition::parser("lang PA: A.B"),
        Ok(Stmt::Language {
            id: (5..7, "PA".to_string()),
            parent: None,
            name: Some((9..12, "A.B".to_string()))
        })
    );
    assert_eq!(
        lang_definition::parser("lang PA < PB : Proto-A, the \"first\" [1] {x}"),
        Ok(Stmt::Language {
            id: (5..7, "PA".to_string()),
            parent: Some((10..12, "PB".to_string())),
            name: Some((15..40, "Proto-A, the \"first\" [1] ".to_string()))
        })
    );
}

#[test]
fn white_space_is_what_the_standard_library_says() {
    let mut count = 0;
    for code in 0..=0x10FFFFu32 {
        if let Some(c) = char::from_u32(code) {
            let listed = ('\u{9}'..='\u{D}').contains(&c)
                || c == ' '
                || c == '\u{85}'
                || c == '\u{A0}'
                || c == '\u{1680}'
                || ('\u{2000}'..='\u{200A}').contains(&c)
                || c == '\u{2028}'
                || c == '\u{2029}'
                || c == '\u{202F}'
                || c == '\u{205F}'
                || c == '\u{3000}';
            assert_eq!(belongs(CharClass::Space, c), listed);
            assert_eq!(c.is_whitespace(), listed);
            if listed {
                count += 1;
            }
        }
    }
    assert_eq!(count, 25);
}
