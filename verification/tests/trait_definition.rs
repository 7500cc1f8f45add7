use diachrony::ast::{Stmt, TraitMember};
use diachrony::parser::trait_definition::parser;

    #[test]
    fn it_parses_a_trait() {
        let src = "
      trait Place {
        labial,
        alveolar,
        velar,
      }
    ";
        assert_eq!(
            parser(src),
            Ok(Stmt::Trait {
                label: (13..18, "Place".into()),
                members: vec![
                    (
                        29..35,
                        TraitMember {
                            labels: vec![(29..35, "labial".into())],
                            notation: None,
                            default: false
                        }
                    ),
                    (
                        45..53,
                        TraitMember {
                            labels: vec![(45..53, "alveolar".into())],
                            notation: None,
                            default: false
                        }
                    ),
                    (
                        63..68,
                        TraitMember {
                            labels: vec![(63..68, "velar".into())],
                            notation: None,
                            default: false
                        }
                    ),
                ],
            },)
        )
    }

    #[test]
    fn it_parses_a_trait_with_annotations() {
        let src = "
      trait Stress {
        primary = ˈ_,
        secondary = ˌ_,
      }
    ";
        assert_eq!(
            parser(src),
            Ok(Stmt::Trait {
                label: (13..19, "Stress".into()),
                members: vec![
                    (
                        30..43,
                        TraitMember {
                            labels: vec![(30..37, "primary".into())],
                            notation: Some((40..43, "ˈ_".into())),
                            default: false
                        }
                    ),
                    (
                        53..68,
                        TraitMember {
                            labels: vec![(53..62, "secondary".into())],
                            notation: Some((65..68, "ˌ_".into())),
                            default: false
                        }
                    ),
                ],
            },)
        )
    }

    #[test]
    fn it_parses_a_trait_with_a_default() {
        let src = "
      trait Length {
        default short,
        long = _:,
        overlong = _::,
      }
    ";
        assert_eq!(
            parser(src),
            Ok(Stmt::Trait {
                label: (13..19, "Length".into()),
                members: vec![
                    (
                        30..43,
                        TraitMember {
                            labels: vec![(38..43, "short".into())],
                            notation: None,
                            default: true
                        }
                    ),
                    (
                        53..62,
                        TraitMember {
                            labels: vec![(53..57, "long".into())],
                            notation: Some((60..62, "_:".into())),
                            default: false
                        }
                    ),
                    (
                        72..86,
                        TraitMember {
                            labels: vec![(72..80, "overlong".into())],
                            notation: Some((83..86, "_::".into())),
                            default: false
                        }
                    ),
                ],
            },)
        )
    }
