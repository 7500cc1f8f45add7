use diachrony::ast::{Stmt, Time};
use diachrony::parser::milestone::parser;

    #[test]
    fn it_parses_an_instant_milestone() {
        let src = "@ 42";
        let res = parser(src);
        assert_eq!(
            res,
            Ok(Stmt::Milestone {
                time: Some((2..4, Time::Instant(42))),
                language: None
            })
        )
    }

    #[test]
    fn it_parses_a_range_milestone() {
        let src = "@ 0-100";
        let res = parser(src);
        assert_eq!(
            res,
            Ok(Stmt::Milestone {
                time: Some((2..7, Time::Range(0, 100))),
                language: None
            })
        )
    }

    #[test]
    fn it_parses_a_milestone_with_a_language() {
        let src = "@ 42, TokiPona";
        let res = parser(src);
        assert_eq!(
            res,
            Ok(Stmt::Milestone {
                time: Some((2..4, Time::Instant(42))),
                language: Some((6..14, "TokiPona".into())),
            })
        )
    }

    #[test]
    fn it_parses_a_milestone_with_only_a_language() {
        let src = "@ TokiPona";
        let res = parser(src);
        assert_eq!(
            res,
            Ok(Stmt::Milestone {
                time: None,
                language: Some((2..10, "TokiPona".into())),
            })
        )
    }

    #[test]
    fn it_does_not_parse_a_milestone_without_a_time_or_a_language() {
        let src = "@ ";
        let res = parser(src);
        assert!(res.is_err())
    }
