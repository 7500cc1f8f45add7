use diachrony::ast::Stmt;
use diachrony::parser::import::parser;

    #[test]
    fn it_parses_a_relative_star_import() {
        let src = "import * from ./my/phonology";
        assert_eq!(
            parser(src),
            Ok(Stmt::Import {
                path: vec![
                    (14..15, ".".into()),
                    (16..18, "my".into()),
                    (19..28, "phonology".into()),
                ],
                absolute: false,
                names: vec![(7..8, "*".into())]
            })
        )
    }

    #[test]
    fn it_parses_an_absolute_star_import() {
        let src = "import * from /my/phonology";
        assert_eq!(
            parser(src),
            Ok(Stmt::Import {
                path: vec![(15..17, "my".into()), (18..27, "phonology".into()),],
                absolute: true,
                names: vec![(7..8, "*".into())]
            })
        )
    }

    #[test]
    fn it_parses_an_external_import() {
        let src = "import * from @core/ipa";
        assert_eq!(
            parser(src),
            Ok(Stmt::Import {
                path: vec![(14..19, "@core".into()), (20..23, "ipa".into()),],
                absolute: false,
                names: vec![(7..8, "*".into())]
            })
        )
    }

    #[test]
    fn it_parses_named_imports() {
        let src = "import (C, V) from @core/ipa";
        assert_eq!(
            parser(src),
            Ok(Stmt::Import {
                path: vec![(19..24, "@core".into()), (25..28, "ipa".into()),],
                absolute: false,
                names: vec![(8..9, "C".into()), (11..12, "V".into())]
            })
        )
    }

    #[test]
    fn it_parses_multiline_imports() {
        let src = "import (
      Place,
      Manner,
    ) from @core/ipa";
        assert_eq!(
            parser(src),
            Ok(Stmt::Import {
                path: vec![(47..52, "@core".into()), (53..56, "ipa".into()),],
                absolute: false,
                names: vec![(15..20, "Place".into()), (28..34, "Manner".into())]
            })
        )
    }
