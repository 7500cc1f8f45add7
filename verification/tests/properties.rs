use diachrony::ast::{Category, Definition, Feature, PhonemeDef, Segment, Series, Source, Stmt, Target, Time, TraitMember};
use diachrony::error::ParseError;
use diachrony::model::Spanned;
use diachrony::parse;
use diachrony::parser::sound_change;

const PROGRAM: &str = "import (C, V) from @core/ipa
series F = { i, e, ε, æ }
class X encodes (Place Manner) annotates (Voice) {
  ℂ = velar trill,
  ℤ = labiodental lateral_fricative,
}
trait Length { default short, long | overlong = _ː }
lang OEng < PGmc : Old English
@ 450-1150, OEng
- water /ˈwæ.ter/ noun. liquid of the seas
$ [C+alveolar+stop] > [+flap] / V_V : flapping
";

fn slice(text: &str, span: &std::ops::Range<usize>) -> String {
    text[span.start..span.end].to_string()
}

fn check_token(chars: &str, token: &Spanned<String>) {
    assert_eq!(slice(chars, &token.0), token.1);
}

fn check_tokens(chars: &str, tokens: &[Spanned<String>]) {
    for token in tokens {
        check_token(chars, token);
    }
}

fn check_feature(chars: &str, feature: &Spanned<Feature>) {
    let text = match &feature.1 {
        Feature::Positive(name) => format!("+{}", name),
        Feature::Negative(name) => format!("-{}", name),
    };
    assert_eq!(slice(chars, &feature.0), text);
}

fn check_category(chars: &str, category: &Category) {
    if let Some((span, letter)) = &category.base_class {
        assert_eq!(slice(chars, span), letter.to_string());
    }
    for feature in &category.features {
        check_feature(chars, feature);
    }
}

fn check_segments(chars: &str, segments: &[Segment]) {
    for segment in segments {
        if let Segment::Category(category) = segment {
            check_category(chars, category);
        }
    }
}

fn check_stmt(chars: &str, stmt: &Stmt) -> usize {
    match stmt {
        Stmt::SoundChange { source, target, environment, description } => {
            if let Source::Pattern(segments) = &source.1 {
                check_segments(chars, segments);
            }
            match &target.1 {
                Target::Modification(features) => {
                    for feature in features {
                        check_feature(chars, feature);
                    }
                }
                Target::Pattern(segments) => check_segments(chars, segments),
                Target::Empty => {}
            }
            if let Some((span, _)) = environment {
                assert_eq!(slice(chars, span), "V_V");
            }
            if let Some(text) = description {
                check_token(chars, text);
            }
            1
        }
        Stmt::Import { path, names, .. } => {
            check_tokens(chars, path);
            check_tokens(chars, names);
            2
        }
        Stmt::Language { id, parent, name } => {
            check_token(chars, id);
            if let Some(parent) = parent {
                check_token(chars, parent);
            }
            if let Some(name) = name {
                check_token(chars, name);
            }
            3
        }
        Stmt::Word { gloss, pronunciation, definitions } => {
            check_token(chars, gloss);
            assert_eq!(slice(chars, &pronunciation.0), format!("/{}/", pronunciation.1.join(".")));
            for Definition { pos, definition } in definitions {
                if let Some(pos) = pos {
                    check_token(chars, pos);
                }
                check_token(chars, definition);
            }
            4
        }
        Stmt::Class { label, encodes, annotates, phonemes } => {
            check_token(chars, label);
            check_tokens(chars, encodes);
            check_tokens(chars, annotates);
            for (_, PhonemeDef { label, traits }) in phonemes {
                check_token(chars, label);
                check_tokens(chars, traits);
            }
            5
        }
        Stmt::Series { label, series } => {
            check_token(chars, label);
            match &series.1 {
                Series::Category(category) => check_category(chars, category),
                Series::List(items) => check_tokens(chars, items),
            }
            6
        }
        Stmt::Trait { label, members } => {
            check_token(chars, label);
            for (_, TraitMember { labels, notation, .. }) in members {
                check_tokens(chars, labels);
                if let Some(notation) = notation {
                    check_token(chars, notation);
                }
            }
            7
        }
        Stmt::Milestone { time, language } => {
            if let Some((span, time)) = time {
                let text = match time {
                    Time::Instant(at) => format!("{}", at),
                    Time::Range(from, to) => format!("{}-{}", from, to),
                };
                assert_eq!(slice(chars, span), text);
            }
            if let Some(language) = language {
                check_token(chars, language);
            }
            8
        }
    }
}

/// The debug text of a value with every span `a..b` taken out.
fn content(stmts: &[Spanned<Stmt>]) -> String {
    let text: Vec<char> = format!("{:?}", stmts).chars().collect();
    let mut out = String::new();
    let mut i = 0;
    while i < text.len() {
        if text[i].is_ascii_digit() {
            let mut j = i;
            while j < text.len() && text[j].is_ascii_digit() {
                j += 1;
            }
            if j + 1 < text.len() && text[j] == '.' && text[j + 1] == '.' {
                let mut k = j + 2;
                while k < text.len() && text[k].is_ascii_digit() {
                    k += 1;
                }
                if k > j + 2 {
                    i = k;
                    continue;
                }
            }
            for c in &text[i..j] {
                out.push(*c);
            }
            i = j;
        } else {
            out.push(text[i]);
            i += 1;
        }
    }
    out
}

fn parsed(source: &str) -> Vec<Spanned<Stmt>> {
    match parse(source) {
        Ok(stmts) => stmts,
        Err(errors) => panic!("{:?}", errors),
    }
}

#[test]
fn parsing_twice_gives_the_same_statements() {
    assert_eq!(parse(PROGRAM), parse(PROGRAM));
    assert_eq!(parsed(PROGRAM).len(), 8);
}

#[test]
fn parsing_twice_gives_the_same_error() {
    let first: Result<Vec<Spanned<Stmt>>, Vec<ParseError>> = parse("lang PA\nlang 7");
    assert!(first.is_err());
    assert_eq!(first, parse("lang PA\nlang 7"));
}

#[test]
fn every_span_cuts_its_text_from_the_source() {
    let stmts = parsed(PROGRAM);
    let mut kinds = Vec::new();
    let mut last = 0;
    for (span, stmt) in &stmts {
        assert!(last <= span.start && span.start < span.end && span.end <= PROGRAM.len());
        last = span.end;
        kinds.push(check_stmt(PROGRAM, stmt));
    }
    assert_eq!(kinds, vec![2, 6, 5, 7, 3, 8, 4, 1]);
}

#[test]
fn statement_spans_run_from_first_to_last_character() {
    let stmts = parsed("\n\n  lang PA\n\n\t@ 42\n");
    assert_eq!(stmts.len(), 2);
    assert_eq!(stmts[0].0, 4..11);
    assert_eq!(stmts[1].0, 14..18);
}

#[test]
fn blank_lines_between_statements_change_spans_only() {
    let tight = parsed("lang PA\n@ 42, PA\n$ a > b");
    let loose = parsed("\n\n  lang PA\n\n\n \t @ 42, PA\n   \n$ a > b\n\n  ");
    assert_ne!(tight, loose);
    assert_eq!(content(&tight), content(&loose));
}

#[test]
fn blank_space_before_a_statement_shifts_its_spans() {
    let tight = parsed("series F = [C+fricative]");
    let loose = parsed("   \n series F = [C+fricative]");
    assert_eq!(tight[0].0, 0..24);
    assert_eq!(loose[0].0, 5..29);
    assert_eq!(content(&tight), content(&loose));
}

#[test]
fn a_bracket_without_a_class_letter_is_a_modification() {
    assert_eq!(
        sound_change::parser("$ [] > [+flap]"),
        Ok(Stmt::SoundChange {
            source: (2..4, Source::Empty),
            target: (7..14, Target::Modification(vec![(8..13, Feature::Positive("flap".into()))])),
            environment: None,
            description: None,
        })
    );
}

#[test]
fn a_bracket_with_a_class_letter_is_a_pattern() {
    assert_eq!(
        sound_change::parser("$ t > [C-voice]"),
        Ok(Stmt::SoundChange {
            source: (2..3, Source::Pattern(vec![Segment::Phonemes("t".into())])),
            target: (
                6..15,
                Target::Pattern(vec![Segment::Category(Category {
                    base_class: Some((7..8, 'C')),
                    features: vec![(8..14, Feature::Negative("voice".into()))],
                })])
            ),
            environment: None,
            description: None,
        })
    );
}

#[test]
fn the_empty_program_has_no_statements() {
    assert_eq!(parse(""), Ok(vec![]));
    assert_eq!(parse(" \n\t\r\n  "), Ok(vec![]));
}

fn with_blank(source: &str, at: usize, blank: &str) -> String {
    format!("{}{}{}", &source[..at], blank, &source[at..])
}

const LINES: &str = "import (
  C,
  V
) from @core/ipa

class X encodes (Place
  Manner) {
  ℂ = velar trill,
  ℤ = labiodental lateral_fricative
}
trait Length {
  default short,
  long = _ː
}
lang OEng <
  PGmc :
  Old English
@ 450
  - 1150,
  OEng
- water /ˈwæ.ter/ {
  noun. liquid of the seas
  verb. pour water over
}
$ [C
  +alveolar] >
  [+flap] /
  V_V :
  flapping
";

#[test]
fn blank_space_at_the_start_of_any_line_changes_spans_only() {
    let plain = parsed(LINES);
    assert_eq!(plain.len(), 7);
    let mut places = vec![0];
    for (i, c) in LINES.char_indices() {
        if c == '\n' {
            places.push(i + 1);
        }
    }
    assert_eq!(places.len(), 30);
    for at in places {
        for blank in ["\n", "  ", "\t\n \r\n", "\u{85}\u{2028} \u{a0}", "\r", "\n\n\n  "] {
            let wide = with_blank(LINES, at, blank);
            let moved = match parse(&wide) {
                Ok(stmts) => stmts,
                Err(errors) => panic!("{} {:?} {:?}", at, blank, errors),
            };
            assert_eq!(content(&moved), content(&plain));
            let by = blank.len();
            for (old, new) in plain.iter().zip(moved.iter()) {
                let start = if old.0.start < at { old.0.start } else { old.0.start + by };
                let end = if old.0.end < at { old.0.end } else { old.0.end + by };
                assert_eq!(new.0, start..end);
            }
        }
    }
}

#[test]
fn blank_space_in_a_text_that_is_no_program_leaves_it_none() {
    for at in [0, 8, 15] {
        assert!(parse(&with_blank("lang PA\nlang 7\n@ x", at, " \n ")).is_err());
    }
}

#[test]
fn blank_space_before_the_end_of_a_line_may_break_a_statement() {
    assert!(parse("lang PA\nlang PB").is_ok());
    assert!(parse("lang PA \nlang PB").is_err());
}

#[test]
fn the_characters_that_end_a_line_are_white_space() {
    for c in "\n\r\u{b}\u{c}\u{85}\u{2028}\u{2029}".chars() {
        assert!(c.is_whitespace());
    }
}

#[test]
fn a_copy_of_a_program_is_the_program() {
    let stmts = parsed(PROGRAM);
    let copy: Vec<Spanned<Stmt>> = stmts.iter().map(|(span, stmt)| (span.clone(), stmt.clone())).collect();
    assert_eq!(copy, stmts);
}

#[test]
fn blank_space_after_a_carriage_return_changes_spans_only() {
    let source = "lang PA\r\nlang PB\r$ a > b : x\r\n";
    let plain = parsed(source);
    assert_eq!(plain.len(), 3);
    for at in [8, 9, 17, 29, 30] {
        for blank in ["\n", " \t", "\r", "\n \n"] {
            let wide = with_blank(source, at, blank);
            let moved = parsed(&wide);
            assert_eq!(content(&moved), content(&plain));
            for (old, new) in plain.iter().zip(moved.iter()) {
                let start = if old.0.start < at { old.0.start } else { old.0.start + blank.len() };
                let end = if old.0.end < at { old.0.end } else { old.0.end + blank.len() };
                assert_eq!(new.0, start..end);
            }
        }
    }
}

#[test]
fn blank_space_after_a_vertical_tab_may_change_free_text() {
    let plain = parsed("$ a > b : x\u{b}y");
    let wide = parsed("$ a > b : x\u{b} y");
    assert_ne!(content(&plain), content(&wide));
    let ended = parsed("lang PA\u{b}lang PB");
    let spaced = parsed("lang PA\u{b}\n  lang PB");
    assert_eq!(content(&ended), content(&spaced));
}

#[test]
fn a_bracket_without_a_class_letter_is_never_a_category_of_the_target() {
    for text in ["$ a > [+x]", "$ a > [ -x +y ]", "$ a > [+x]b", "$ a > [+x][C+y]"] {
        match diachrony::parser::sound_change::parser(text) {
            Ok(Stmt::SoundChange { target, .. }) => {
                assert!(matches!(target.1, Target::Modification(_)), "{}", text);
            }
            other => panic!("{:?}", other),
        }
    }
}

#[test]
fn blank_space_after_any_line_break_between_statements_changes_spans_only() {
    for line_break in ["\n", "\r", "\r\n", "\u{b}", "\u{c}", "\u{85}", "\u{2028}", "\u{2029}"] {
        let source = format!(
            "lang PA{0}@ 42{0}trait T {{ a }}{0}$ a > b{0}lang PB < PA{0}",
            line_break
        );
        let plain = parsed(&source);
        assert_eq!(plain.len(), 5);
        let mut places = vec![0];
        let mut from = 0;
        while let Some(found) = source[from..].find(line_break) {
            from += found + line_break.len();
            places.push(from);
        }
        assert_eq!(places.len(), 6);
        for at in places {
            for blank in ["\n", "  ", "\t\n", " \r\n \u{b}"] {
                let wide = with_blank(&source, at, blank);
                let moved = parsed(&wide);
                assert_eq!(content(&moved), content(&plain));
                for (old, new) in plain.iter().zip(moved.iter()) {
                    assert!(old.0.end < at || at <= old.0.start);
                    let by = if old.0.start < at { 0 } else { blank.len() };
                    assert_eq!(new.0, old.0.start + by..old.0.end + by);
                }
            }
        }
    }
}
