use diachrony::parse;

    #[test]
    fn it_works() {
        let res = parse(
            "
      import * from @core/ipa
      
      series F = { i, e, ε, æ }

      class X encodes (Place Manner) {
        ℂ = velar trill,
        ℤ = labiodental lateral_fricative ,
      }

      lang OEng : Old English
      lang OEng < AmEng : American English
      lang OEng < RP : Received Pronunciation
      
      @ 1000, OEng
      
      - water /ˈwæ.ter/ {
        noun. liquid that forms the seas, lakes, rivers, and rain
        verb. pour or sprinkle water over a plant or area
      }
      
      @ 1940, AmEng
      
      $ [C+alveolar+stop] > [+flap] / V_V : Alveolar stops lenite to flaps intervocallically
    ",
        );

        println!("{:#?}", res);

        assert!(res.is_ok())
    }
