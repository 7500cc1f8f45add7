use diachrony::ast::{Definition, Stmt};
use diachrony::parser::word_definition::parser;

    #[test]
    fn it_parses_a_word_with_an_inline_definition() {
        let src = "- water /'wa.ter/ noun. the liquid state of H20";
        assert_eq!(
            parser(src),
            Ok(Stmt::Word {
                gloss: (2..7, "water".to_string()),
                pronunciation: (8..17, vec!["'wa".to_string(), "ter".to_string()]),
                definitions: vec![Definition {
                    pos: Some((18..22, "noun".to_string())),
                    definition: (24..47, "the liquid state of H20".to_string()),
                }],
            },)
        )
    }

    #[test]
    fn it_parses_a_word_with_one_definition() {
        let src = "
      - water /'wa.ter/ {
        noun. the liquid state of H20
      }
    ";
        assert_eq!(
            parser(src),
            Ok(Stmt::Word {
                gloss: (9..14, "water".to_string()),
                pronunciation: (15..24, vec!["'wa".to_string(), "ter".to_string()]),
                definitions: vec![Definition {
                    pos: Some((35..39, "noun".to_string())),
                    definition: (41..64, "the liquid state of H20".to_string()),
                }],
            },)
        )
    }

    #[test]
    fn it_parses_a_word_with_multiple_definitions() {
        let src = "
      - water /'wa.ter/ {
        noun. the liquid state of H20
        verb. to pour water over a plant or area of land
      }
    ";
        assert_eq!(
            parser(src),
            Ok(Stmt::Word {
                gloss: (9..14, "water".to_string()),
                pronunciation: (15..24, vec!["'wa".to_string(), "ter".to_string()]),
                definitions: vec![
                    Definition {
                        pos: Some((35..39, "noun".to_string())),
                        definition: (41..64, "the liquid state of H20".to_string()),
                    },
                    Definition {
                        pos: Some((73..77, "verb".to_string())),
                        definition: (
                            79..121,
                            "to pour water over a plant or area of land".to_string()
                        ),
                    },
                ],
            },)
        )
    }
