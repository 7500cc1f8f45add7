use diachrony::ast::{Category, EnvElement, Environment, Feature, Segment, Source, Stmt, Target};
use diachrony::parser::sound_change::parser;

    #[test]
    fn it_parses_a_sound_change() {
        let src = "$ ɢ > g";
        let res = parser(src);
        assert_eq!(
            res,
            Ok(Stmt::SoundChange {
                source: (2..4, Source::Pattern(vec![Segment::Phonemes("ɢ".into())])),
                target: (7..8, Target::Pattern(vec![Segment::Phonemes("g".into())])),
                environment: None,
                description: None,
            })
        )
    }

    #[test]
    fn it_parses_a_sound_change_with_an_environment() {
        let src = "$ k > c / _[V+close]";
        assert_eq!(
            parser(src),
            Ok(Stmt::SoundChange {
                source: (2..3, Source::Pattern(vec![Segment::Phonemes("k".into())])),
                target: (6..7, Target::Pattern(vec![Segment::Phonemes("c".into())])),
                environment: Some((
                    10..20,
                    Environment {
                        before: None,
                        after: Some(vec![EnvElement::Segment(Segment::Category(Category {
                            base_class: Some((12..13, 'V')),
                            features: vec![(13..19, Feature::Positive("close".to_string()))]
                        }))])
                    }
                )),
                description: None,
            })
        )
    }

    #[test]
    fn it_parses_a_sound_change_with_an_environment_and_description() {
        let src = "$ k > c / #_i : Word-initial k lenites to c before i";
        assert_eq!(
            parser(src),
            Ok(Stmt::SoundChange {
                source: (2..3, Source::Pattern(vec![Segment::Phonemes("k".into())])),
                target: (6..7, Target::Pattern(vec![Segment::Phonemes("c".into())])),
                environment: Some((
                    10..13,
                    Environment {
                        before: Some(vec![EnvElement::WordBoundary]),
                        after: Some(vec![EnvElement::Segment(Segment::Phonemes("i".into()))])
                    }
                )),
                description: Some((16..52, "Word-initial k lenites to c before i".to_string())),
            })
        )
    }

    #[test]
    fn it_parses_a_sound_change_with_categories_and_modifications() {
        let src = "$ [C+stop+alveolar] > [+flap]";
        assert_eq!(
            parser(src),
            Ok(Stmt::SoundChange {
                source: (
                    2..19,
                    Source::Pattern(vec![Segment::Category(Category {
                        base_class: Some((3..4, 'C')),
                        features: vec![
                            (4..9, Feature::Positive("stop".to_string())),
                            (9..18, Feature::Positive("alveolar".to_string())),
                        ],
                    })])
                ),
                target: (
                    22..29,
                    Target::Modification(vec![(23..28, Feature::Positive("flap".to_string())),])
                ),
                environment: None,
                description: None,
            })
        )
    }

    #[test]
    fn it_parses_a_sound_change_with_empty_source_or_target() {
        let src = "$ [] > []";
        assert_eq!(
            parser(src),
            Ok(Stmt::SoundChange {
                source: (2..4, Source::Empty),
                target: (7..9, Target::Empty),
                environment: None,
                description: None,
            })
        )
    }

    #[test]
    fn it_does_not_parse_a_sound_change_with_no_source() {
        let src = "$  > [] / _";
        let res = parser(src);

        assert!(res.is_err());
    }

    #[test]
    fn it_does_not_parse_a_sound_change_with_no_target() {
        let src = "$ [] > / _";
        let res = parser(src);

        assert!(res.is_err());
    }
