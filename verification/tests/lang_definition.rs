use diachrony::ast::Stmt;
use diachrony::parser::lang_definition::parser;

    #[test]
    fn it_parses_a_language() {
        let src = "lang PA";
        assert_eq!(
            parser(src),
            Ok(Stmt::Language {
                id: (5..7, "PA".to_string()),
                parent: None,
                name: None
            })
        )
    }

    #[test]
    fn it_parses_a_language_with_a_parent() {
        let src = "lang OA < PA";
        assert_eq!(
            parser(src),
            Ok(Stmt::Language {
                id: (5..7, "OA".to_string()),
                parent: Some((10..12, "PA".to_string())),
                name: None
            })
        )
    }

    #[test]
    fn it_parses_a_language_with_a_name() {
        let src = "lang PA: Proto-A";
        assert_eq!(
            parser(src),
            Ok(Stmt::Language {
                id: (5..7, "PA".to_string()),
                parent: None,
                name: Some((9..16, "Proto-A".to_string()))
            })
        )
    }

    #[test]
    fn it_parses_a_language_with_a_parent_and_a_name() {
        let src = "lang OA < PA: Old A";
        assert_eq!(
            parser(src),
            Ok(Stmt::Language {
                id: (5..7, "OA".to_string()),
                parent: Some((10..12, "PA".to_string())),
                name: Some((14..19, "Old A".to_string()))
            })
        )
    }
