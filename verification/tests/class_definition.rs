use diachrony::ast::{PhonemeDef, Stmt};
use diachrony::parser::class_definition::parser;

    #[test]
    fn it_parses_a_full_class_definition() {
        assert_eq!(
            parser(
                "class C encodes (place manner) {
          p = bilabial plosive,
          t = alveolar plosive,
          k = velar plosive,
          t͡s = alveolar affricate,
        }"
            ),
            Ok(Stmt::Class {
                label: (6..7, "C".into()),
                encodes: vec![(17..22, "place".into()), (23..29, "manner".into())],
                annotates: vec![],
                phonemes: vec![
                    (
                        43..63,
                        PhonemeDef {
                            label: (43..44, "p".into()),
                            traits: vec![(47..55, "bilabial".into()), (56..63, "plosive".into())]
                        }
                    ),
                    (
                        75..95,
                        PhonemeDef {
                            label: (75..76, "t".into()),
                            traits: vec![(79..87, "alveolar".into()), (88..95, "plosive".into())]
                        }
                    ),
                    (
                        107..124,
                        PhonemeDef {
                            label: (107..108, "k".into()),
                            traits: vec![(111..116, "velar".into()), (117..124, "plosive".into())]
                        }
                    ),
                    (
                        136..161,
                        PhonemeDef {
                            label: (136..140, "t͡s".into()),
                            traits: vec![
                                (143..151, "alveolar".into()),
                                (152..161, "affricate".into())
                            ]
                        }
                    ),
                ]
            })
        )
    }
