use diachrony::ast::{Category, Feature, Series, Stmt};
use diachrony::parser::series_definition::parser;

    #[test]
    fn it_parses_a_list_class_definition() {
        assert_eq!(
            parser("series C = { a, b, c }"),
            Ok(Stmt::Series {
                label: (7..8, "C".into()),
                series: (
                    11..22,
                    Series::List(vec![
                        (13..14, "a".into()),
                        (16..17, "b".into()),
                        (19..20, "c".into()),
                    ])
                ),
            })
        )
    }

    #[test]
    fn it_parses_a_category_class_definition() {
        assert_eq!(
            parser("series F = [C+fricative]"),
            Ok(Stmt::Series {
                label: (7..8, "F".into()),
                series: (
                    11..24,
                    Series::Category(Category {
                        base_class: Some((12..13, 'C')),
                        features: vec![(13..23, Feature::Positive("fricative".into()))]
                    })
                ),
            })
        )
    }
