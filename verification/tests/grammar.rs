use mtg_gen::frame::{loyalty_class, rarity_class, symbol_code};
use mtg_gen::utils::sanitize_lowercased;
use mtg_gen::{
    derive_frame_color, frame_color, sanitize_card_name, ActionCost, ActionCostProxy,
    CastingManaCost, CastingManaCostProxy, CastingManaSymbol, FrameColor, LoyaltyCost,
    LoyaltyCostProxy, LoyaltyValue, LoyaltyValueProxy, ManaCostParseError, ManaSymbol, Rarity,
    RulesText, RulesTextProxy, RulesTextSegment,
};

fn casting(text: &str) -> Vec<CastingManaSymbol> {
    CastingManaCost::parse(text).unwrap().symbols
}

fn every_casting_symbol() -> Vec<CastingManaSymbol> {
    vec![
        CastingManaSymbol::White,
        CastingManaSymbol::Blue,
        CastingManaSymbol::Black,
        CastingManaSymbol::Red,
        CastingManaSymbol::Green,
        CastingManaSymbol::Colorless,
        CastingManaSymbol::Generic(0),
        CastingManaSymbol::Generic(7),
        CastingManaSymbol::Generic(10),
        CastingManaSymbol::Generic(4294967295),
        CastingManaSymbol::X,
        CastingManaSymbol::Y,
        CastingManaSymbol::Z,
        CastingManaSymbol::Snow,
        CastingManaSymbol::WhiteBlue,
        CastingManaSymbol::WhiteBlack,
        CastingManaSymbol::WhiteRed,
        CastingManaSymbol::WhiteGreen,
        CastingManaSymbol::BlueBlack,
        CastingManaSymbol::BlueRed,
        CastingManaSymbol::BlueGreen,
        CastingManaSymbol::BlackRed,
        CastingManaSymbol::BlackGreen,
        CastingManaSymbol::RedGreen,
        CastingManaSymbol::TwoWhite,
        CastingManaSymbol::TwoBlue,
        CastingManaSymbol::TwoBlack,
        CastingManaSymbol::TwoRed,
        CastingManaSymbol::TwoGreen,
        CastingManaSymbol::PhyrexianWhite,
        CastingManaSymbol::PhyrexianBlue,
        CastingManaSymbol::PhyrexianBlack,
        CastingManaSymbol::PhyrexianRed,
        CastingManaSymbol::PhyrexianGreen,
    ]
}

#[test]
fn test_cost_round_trip_of_canonical_text() {
    for text in ["", "{W}", "{2}{W/U}{X}", "{10}{2/G}{B/P}{S}{C}", "{0}"] {
        assert_eq!(CastingManaCost::parse(text).unwrap().to_string(), text);
    }
    for text in ["{T}", "{Q}{E}{CHAOS}", "{T}{1}{U}", "{W/U}"] {
        assert_eq!(ActionCost::parse(text).unwrap().to_string(), text);
    }
}

#[test]
fn test_printed_cost_reads_back() {
    let cost = CastingManaCost { symbols: every_casting_symbol() };
    let printed = cost.to_string();
    assert_eq!(
        printed,
        "{W}{U}{B}{R}{G}{C}{0}{7}{10}{4294967295}{X}{Y}{Z}{S}\
         {W/U}{W/B}{W/R}{W/G}{U/B}{U/R}{U/G}{B/R}{B/G}{R/G}\
         {2/W}{2/U}{2/B}{2/R}{2/G}{W/P}{U/P}{B/P}{R/P}{G/P}"
    );
    assert_eq!(CastingManaCost::parse(&printed).unwrap(), cost);

    let mut symbols: Vec<ManaSymbol> =
        every_casting_symbol().into_iter().map(ManaSymbol::from).collect();
    symbols.extend([ManaSymbol::Tap, ManaSymbol::Untap, ManaSymbol::Energy, ManaSymbol::Chaos]);
    let cost = ActionCost { symbols };
    assert_eq!(ActionCost::parse(&cost.to_string()).unwrap(), cost);
}

#[test]
fn test_symbols_print_under_one_spelling() {
    assert_eq!(CastingManaSymbol::White.to_string(), "{W}");
    assert_eq!(CastingManaSymbol::Generic(15).to_string(), "{15}");
    assert_eq!(CastingManaSymbol::RedGreen.to_string(), "{R/G}");
    assert_eq!(CastingManaSymbol::TwoBlack.to_string(), "{2/B}");
    assert_eq!(CastingManaSymbol::PhyrexianBlue.to_string(), "{U/P}");
    assert_eq!(ManaSymbol::Tap.to_string(), "{T}");
    assert_eq!(ManaSymbol::Untap.to_string(), "{Q}");
    assert_eq!(ManaSymbol::Energy.to_string(), "{E}");
    assert_eq!(ManaSymbol::Chaos.to_string(), "{CHAOS}");
    assert_eq!(ManaSymbol::Casting(CastingManaSymbol::Snow).to_string(), "{S}");
    for symbol in every_casting_symbol() {
        let printed = symbol.to_string();
        let body = &printed[1..printed.len() - 1];
        assert_eq!(CastingManaCost::parse_symbol(body), Ok(symbol));
        assert_eq!(ActionCost::parse_symbol(body), Ok(ManaSymbol::Casting(symbol)));
        assert_eq!(ManaSymbol::Casting(symbol).to_string(), printed);
    }
}

#[test]
fn test_one_pass_makes_a_cost_canonical() {
    let first = CastingManaCost::parse(" {U/W}\t{007} {+5}\n{G/R} ").unwrap();
    assert_eq!(
        first.symbols,
        vec![
            CastingManaSymbol::WhiteBlue,
            CastingManaSymbol::Generic(7),
            CastingManaSymbol::Generic(5),
            CastingManaSymbol::RedGreen,
        ]
    );
    let printed = first.to_string();
    assert_eq!(printed, "{W/U}{7}{5}{R/G}");
    let second = CastingManaCost::parse(&printed).unwrap();
    assert_eq!(second, first);
    assert_eq!(second.to_string(), printed);
}

#[test]
fn test_hybrid_reads_in_either_order() {
    let colors = ['W', 'U', 'B', 'R', 'G'];
    for a in colors {
        for b in colors {
            if a != b {
                let one = CastingManaCost::parse_symbol(&format!("{}/{}", a, b)).unwrap();
                let other = CastingManaCost::parse_symbol(&format!("{}/{}", b, a)).unwrap();
                assert_eq!(one, other);
            } else {
                assert!(CastingManaCost::parse_symbol(&format!("{}/{}", a, b)).is_err());
            }
        }
    }
    assert_eq!(casting("{W/U}"), casting("{U/W}"));
    // the other spellings with a slash have one order only
    assert!(CastingManaCost::parse("{W/2}").is_err());
    assert!(CastingManaCost::parse("{P/W}").is_err());
}

#[test]
fn test_whitespace_between_tokens_is_insignificant() {
    assert_eq!(casting("{2} {U} {U}"), casting("{2}{U}{U}"));
    assert_eq!(casting(" \t\n\r\u{c}{2}\t\t{U}\n{U}  "), casting("{2}{U}{U}"));
    assert_eq!(casting("   "), vec![]);
    // whitespace inside a group is part of the spelling
    assert_eq!(
        CastingManaCost::parse("{ W}").unwrap_err(),
        ManaCostParseError::UnknownSymbol { symbol: " W".to_string() }
    );
    // the vertical tab is no whitespace
    assert_eq!(
        CastingManaCost::parse("{W}\u{b}{U}").unwrap_err(),
        ManaCostParseError::UnexpectedCharacter { character: '\u{b}', position: 3 }
    );
    // a fault behind whitespace is reported that much further on
    assert_eq!(
        CastingManaCost::parse("{W}{U").unwrap_err(),
        ManaCostParseError::UnclosedBrace { position: 3 }
    );
    assert_eq!(
        CastingManaCost::parse("{W}  {U").unwrap_err(),
        ManaCostParseError::UnclosedBrace { position: 5 }
    );
}

#[test]
fn test_whitespace_anywhere_is_insignificant() {
    let groups = ["{2}", "{W/U}", "{X}", "{10}", "{G/P}", "{S}"];
    let spaces = ["", " ", "\t", "\n", "\r\n", "  \t \u{c}", "\n\n\n"];
    let plain: String = groups.concat();
    let expected = casting(&plain);
    assert_eq!(expected.len(), groups.len());
    // every way of putting one of the runs before, between and after the groups
    let mut count = 0usize;
    let mut choice = vec![0usize; groups.len() + 1];
    loop {
        let mut text = String::new();
        for (i, group) in groups.iter().enumerate() {
            text.push_str(spaces[choice[i]]);
            text.push_str(group);
        }
        text.push_str(spaces[choice[groups.len()]]);
        assert_eq!(casting(&text), expected, "{:?}", text);
        assert_eq!(
            ActionCost::parse(&text).unwrap().symbols,
            ActionCost::parse(&plain).unwrap().symbols
        );
        count += 1;
        let mut k = 0;
        while k < choice.len() {
            choice[k] += if k % 2 == 0 { 3 } else { 2 };
            if choice[k] < spaces.len() {
                break;
            }
            choice[k] = 0;
            k += 1;
        }
        if k == choice.len() {
            break;
        }
    }
    assert!(count > 500);
    // a text that does not read well does not read well with whitespace either
    for (one, other) in [("{W}{T}", " {W} {T} "), ("{W}{U", "{W}\n{U"), ("{W}x", " {W} x")] {
        assert!(CastingManaCost::parse(one).is_err());
        assert!(CastingManaCost::parse(other).is_err());
    }
}

#[test]
fn test_action_cost_extends_casting_cost() {
    for text in ["T", "Q", "E", "CHAOS"] {
        assert_eq!(
            CastingManaCost::parse_symbol(text).unwrap_err(),
            ManaCostParseError::UnknownSymbol { symbol: text.to_string() }
        );
        assert!(ActionCost::parse_symbol(text).is_ok());
    }
    for symbol in every_casting_symbol() {
        let printed = CastingManaCost { symbols: vec![symbol] }.to_string();
        assert_eq!(
            ActionCost::parse(&printed).unwrap().symbols,
            vec![ManaSymbol::Casting(symbol)]
        );
    }
    assert_eq!(
        CastingManaCost::parse("{T}").unwrap_err(),
        ManaCostParseError::UnknownSymbol { symbol: "T".to_string() }
    );
    assert_eq!(ActionCost::parse("{T}").unwrap().symbols, vec![ManaSymbol::Tap]);
    assert_eq!(
        ActionCost::parse("{CHAOSS}").unwrap_err(),
        ManaCostParseError::UnknownSymbol { symbol: "CHAOSS".to_string() }
    );
}

#[test]
fn test_symbols_are_matched_exactly() {
    for text in ["w", "", "WU", "W/", "/W", "W/U/B", "1.5", "-1", "1 ", "+", "++1", "0x10", "١"] {
        assert_eq!(
            CastingManaCost::parse_symbol(text).unwrap_err(),
            ManaCostParseError::UnknownSymbol { symbol: text.to_string() },
            "{:?}",
            text
        );
    }
    assert_eq!(
        CastingManaCost::parse("{}").unwrap_err(),
        ManaCostParseError::UnknownSymbol { symbol: "".to_string() }
    );
    assert_eq!(
        CastingManaCost::parse("{{W}").unwrap_err(),
        ManaCostParseError::UnknownSymbol { symbol: "{W".to_string() }
    );
}

#[test]
fn test_generic_numbers() {
    assert_eq!(casting("{0}"), vec![CastingManaSymbol::Generic(0)]);
    assert_eq!(casting("{2}"), vec![CastingManaSymbol::Generic(2)]);
    assert_eq!(casting("{0012}"), vec![CastingManaSymbol::Generic(12)]);
    assert_eq!(casting("{+12}"), vec![CastingManaSymbol::Generic(12)]);
    assert_eq!(casting("{4294967295}"), vec![CastingManaSymbol::Generic(4294967295)]);
    assert_eq!(
        casting("{000000000000000000000004294967295}"),
        vec![CastingManaSymbol::Generic(4294967295)]
    );
    assert_eq!(
        CastingManaCost::parse("{4294967296}").unwrap_err(),
        ManaCostParseError::UnknownSymbol { symbol: "4294967296".to_string() }
    );
    assert_eq!(
        CastingManaCost::parse("{99999999999999999999999999}").unwrap_err(),
        ManaCostParseError::UnknownSymbol { symbol: "99999999999999999999999999".to_string() }
    );
}

#[test]
fn test_cost_queries() {
    let cost = CastingManaCost::parse("{1}{B}{B}").unwrap();
    assert_eq!(cost.generic_cost(), 1);
    assert_eq!(cost.colored_count(), 2);
    let cost = CastingManaCost::parse("{2}{U}{U}").unwrap();
    assert_eq!(cost.generic_cost(), 2);
    let cost = CastingManaCost::parse("{3}{X}{4}{2/W}").unwrap();
    assert_eq!(cost.generic_cost(), 7);
    assert_eq!(cost.colored_count(), 0);
    assert!(cost.has_variable());
    let cost = CastingManaCost::parse("{W/U}{2/B}{R/P}{C}{S}{G}").unwrap();
    assert_eq!(cost.colored_count(), 1);
    assert!(!cost.has_variable());
    assert!(CastingManaCost::parse("{Z}").unwrap().has_variable());
    assert!(CastingManaCost::parse("{X}{U}{U}").unwrap().has_variable());
    assert!(!CastingManaCost::parse("{R}{R}").unwrap().has_variable());
    // the sum is taken in 32 bits
    let cost = CastingManaCost::parse("{4294967295}{2}").unwrap();
    assert_eq!(cost.generic_cost(), 1);
}

#[test]
fn test_unclosed_brace_is_reported_at_its_offset() {
    assert_eq!(
        RulesText::parse("{T: Add mana.").unwrap_err(),
        ManaCostParseError::UnclosedBrace { position: 0 }
    );
    assert_eq!(
        RulesText::parse("Pay {T").unwrap_err(),
        ManaCostParseError::UnclosedBrace { position: 4 }
    );
    // offsets count bytes: the dash takes three
    assert_eq!(
        RulesText::parse("— {T").unwrap_err(),
        ManaCostParseError::UnclosedBrace { position: 4 }
    );
    assert_eq!(
        RulesText::parse("{T}{").unwrap_err(),
        ManaCostParseError::UnclosedBrace { position: 3 }
    );
    assert_eq!(
        CastingManaCost::parse("{").unwrap_err(),
        ManaCostParseError::UnclosedBrace { position: 0 }
    );
    assert_eq!(
        ActionCost::parse("{T} {Q").unwrap_err(),
        ManaCostParseError::UnclosedBrace { position: 4 }
    );
}

#[test]
fn test_unexpected_character() {
    assert_eq!(
        CastingManaCost::parse("{W}x").unwrap_err(),
        ManaCostParseError::UnexpectedCharacter { character: 'x', position: 3 }
    );
    assert_eq!(
        CastingManaCost::parse("}").unwrap_err(),
        ManaCostParseError::UnexpectedCharacter { character: '}', position: 0 }
    );
    // the character is reported as it stands in the text, at the byte
    // offset where it starts
    assert_eq!(
        CastingManaCost::parse("é").unwrap_err(),
        ManaCostParseError::UnexpectedCharacter { character: 'é', position: 0 }
    );
    assert_eq!(
        ActionCost::parse(" é").unwrap_err(),
        ManaCostParseError::UnexpectedCharacter { character: 'é', position: 1 }
    );
    assert_eq!(
        CastingManaCost::parse("{W}—{U}").unwrap_err(),
        ManaCostParseError::UnexpectedCharacter { character: '—', position: 3 }
    );
    assert_eq!(
        ActionCost::parse("{T}\t\u{1f409}").unwrap_err(),
        ManaCostParseError::UnexpectedCharacter { character: '\u{1f409}', position: 4 }
    );
    assert_eq!(
        CastingManaCost::parse("\u{a0}{W}").unwrap_err(),
        ManaCostParseError::UnexpectedCharacter { character: '\u{a0}', position: 0 }
    );
    assert_eq!(
        CastingManaCost::parse("\u{7f}").unwrap_err(),
        ManaCostParseError::UnexpectedCharacter { character: '\u{7f}', position: 0 }
    );
    assert_eq!(
        CastingManaCost::parse("{W}\u{10ffff}").unwrap_err().to_string(),
        "Unexpected character '\u{10ffff}' at position 3"
    );
    // prose is always in place in rules text
    assert_eq!(
        RulesText::parse("a}b x").unwrap().segments,
        vec![RulesTextSegment::Text("a}b x".to_string())]
    );
}

#[test]
fn test_invalid_utf8() {
    assert_eq!(
        CastingManaCost::parse_bytes(b"{W}{\xff}").unwrap_err(),
        ManaCostParseError::InvalidUtf8
    );
    assert_eq!(
        ActionCost::parse_bytes(b"{\xc3}").unwrap_err(),
        ManaCostParseError::InvalidUtf8
    );
    assert_eq!(
        RulesText::parse_bytes(b"Fly\xffing {T}").unwrap_err(),
        ManaCostParseError::InvalidUtf8
    );
    assert_eq!(
        RulesText::parse_bytes(b"{T}\x80").unwrap_err(),
        ManaCostParseError::InvalidUtf8
    );
    assert_eq!(
        RulesText::parse_bytes(b"{\xe2\x80}").unwrap_err(),
        ManaCostParseError::InvalidUtf8
    );
    // outside a group, bytes that start no well-formed character are
    // malformed as well
    for bytes in [
        &b"\xff"[..],
        &b"{W}\x80"[..],
        &b"{W} \xc3"[..],
        &b"\xc3\x28"[..],
        &b"\xe2\x80"[..],
        &b"\xc0\xaf"[..],
        &b"\xed\xa0\x80"[..],
        &b"\xf4\x90\x80\x80"[..],
        &b"\xf8\x88\x80\x80\x80"[..],
    ] {
        assert_eq!(
            CastingManaCost::parse_bytes(bytes).unwrap_err(),
            ManaCostParseError::InvalidUtf8,
            "{:?}",
            bytes
        );
        assert_eq!(ActionCost::parse_bytes(bytes).unwrap_err(), ManaCostParseError::InvalidUtf8);
    }
    // a well-formed character is reported even where malformed bytes follow
    assert_eq!(
        CastingManaCost::parse_bytes(b"\xc3\xa9\xff").unwrap_err(),
        ManaCostParseError::UnexpectedCharacter { character: 'é', position: 0 }
    );
    assert_eq!(
        CastingManaCost::parse_bytes(b"x\xff").unwrap_err(),
        ManaCostParseError::UnexpectedCharacter { character: 'x', position: 0 }
    );
    assert_eq!(
        CastingManaCost::parse_bytes(b"{2}{U}").unwrap().symbols,
        casting("{2}{U}")
    );
    assert_eq!(
        RulesText::parse_bytes("Flying — {T}".as_bytes()).unwrap(),
        RulesText::parse("Flying — {T}").unwrap()
    );
}

#[test]
fn test_error_messages() {
    assert_eq!(
        ManaCostParseError::UnclosedBrace { position: 12 }.to_string(),
        "Unclosed brace at position 12"
    );
    assert_eq!(
        ManaCostParseError::UnexpectedCharacter { character: 'x', position: 0 }.to_string(),
        "Unexpected character 'x' at position 0"
    );
    assert_eq!(
        ManaCostParseError::UnexpectedCharacter { character: 'é', position: 18446744073709551615 }
            .to_string(),
        "Unexpected character 'é' at position 18446744073709551615"
    );
    assert_eq!(
        ManaCostParseError::UnknownSymbol { symbol: "T".to_string() }.to_string(),
        "Unknown mana symbol: T"
    );
    assert_eq!(ManaCostParseError::InvalidUtf8.to_string(), "Invalid UTF-8 in mana cost");
}

#[test]
fn test_rules_text_round_trip() {
    for text in [
        "",
        "Flying",
        "{T}",
        "{T}: Add {G}.",
        "{2}{U}, {T}: Draw a card.",
        "Pay {E}{E}{E}: Create a 6/6 Beast.",
        "Flying — {CHAOS} } \n{W/P}{10}\n",
        "æther {Q}{Q} ñ",
    ] {
        let rules = RulesText::parse(text).unwrap();
        assert_eq!(rules.to_string(), text);
        assert_eq!(rules.is_empty(), text.is_empty());
        assert_eq!(rules.len(), rules.segments.len());
    }
    // a symbol that is not spelled the way it is printed comes back canonical
    let rules = RulesText::parse("Add {U/W} or {02}.").unwrap();
    assert_eq!(rules.to_string(), "Add {W/U} or {2}.");
}

#[test]
fn test_rules_text_segments() {
    let rules = RulesText::parse(" {T} {G}{G}x").unwrap();
    assert_eq!(
        rules.segments,
        vec![
            RulesTextSegment::Text(" ".to_string()),
            RulesTextSegment::Symbol(ManaSymbol::Tap),
            RulesTextSegment::Text(" ".to_string()),
            RulesTextSegment::Symbol(ManaSymbol::Casting(CastingManaSymbol::Green)),
            RulesTextSegment::Symbol(ManaSymbol::Casting(CastingManaSymbol::Green)),
            RulesTextSegment::Text("x".to_string()),
        ]
    );
    assert_eq!(
        RulesText::parse("{INVALID}").unwrap_err(),
        ManaCostParseError::UnknownSymbol { symbol: "INVALID".to_string() }
    );
    assert_eq!(
        RulesText::parse("Add {t}.").unwrap_err(),
        ManaCostParseError::UnknownSymbol { symbol: "t".to_string() }
    );
    let built = RulesText {
        segments: vec![
            RulesTextSegment::Text("a".to_string()),
            RulesTextSegment::Text("b".to_string()),
            RulesTextSegment::Symbol(ManaSymbol::Chaos),
        ],
    };
    assert_eq!(built.to_string(), "ab{CHAOS}");
}

#[test]
fn test_lenient_costs() {
    assert_eq!(CastingManaCost::from("{2}{U}").symbols, casting("{2}{U}"));
    assert_eq!(CastingManaCost::from("{T}").symbols, vec![]);
    assert_eq!(CastingManaCost::from("{2}{U").symbols, vec![]);
    assert_eq!(ActionCost::from("{T}").symbols, vec![ManaSymbol::Tap]);
    assert_eq!(ActionCost::from("tap").symbols, vec![]);
}

#[test]
fn test_conversions() {
    assert_eq!(
        CastingManaCost::try_from("{1}{W}".to_string()).unwrap().symbols,
        casting("{1}{W}")
    );
    assert_eq!(
        CastingManaCost::try_from("{1}{T}".to_string()).unwrap_err(),
        "Unknown mana symbol: T"
    );
    assert_eq!(
        ActionCost::try_from("{1} {T".to_string()).unwrap_err(),
        "Unclosed brace at position 4"
    );
    assert_eq!(
        ActionCost::try_from(ActionCostProxy("{T}".to_string())).unwrap().symbols,
        vec![ManaSymbol::Tap]
    );
    assert_eq!(
        CastingManaCost::try_from(CastingManaCostProxy("w".to_string())).unwrap_err(),
        "Unexpected character 'w' at position 0"
    );
    assert_eq!(
        RulesText::try_from(RulesTextProxy("{T}: Add {G}.".to_string())).unwrap().len(),
        4
    );
    assert_eq!(
        RulesText::try_from(RulesTextProxy("{T".to_string())).unwrap_err(),
        "Unclosed brace at position 0"
    );

    let cost = CastingManaCost::parse("{U/W}{3}").unwrap();
    assert_eq!(CastingManaCostProxy::of(&cost).0, "{W/U}{3}");
    assert_eq!(CastingManaCostProxy::of_optional(&Some(cost)).0, "{W/U}{3}");
    assert_eq!(CastingManaCostProxy::of_optional(&None).0, "");
    assert_eq!(CastingManaCostProxy("".to_string()).into_optional(), Ok(None));
    assert_eq!(
        CastingManaCostProxy(" ".to_string()).into_optional(),
        Ok(Some(CastingManaCost { symbols: vec![] }))
    );
    assert_eq!(
        CastingManaCostProxy("{Q}".to_string()).into_optional(),
        Err("Unknown mana symbol: Q".to_string())
    );
    let action = ActionCost::parse("{T}{1}").unwrap();
    assert_eq!(ActionCostProxy::of(&action).0, "{T}{1}");

    let rules = RulesText::parse("{T}: Add {G/W}.").unwrap();
    assert_eq!(RulesTextProxy::of(&rules).0, "{T}: Add {W/G}.");
    assert_eq!(RulesTextProxy::of_optional(&None).0, "");
    assert_eq!(RulesTextProxy("".to_string()).into_optional(), Ok(None));
    assert_eq!(RulesTextProxy("x".to_string()).into_optional().unwrap().unwrap().len(), 1);

    assert_eq!(LoyaltyCostProxy::of(&LoyaltyCost::Minus(12)).0, "-12");
    assert_eq!(
        LoyaltyCost::try_from(LoyaltyCostProxy(" -x ".to_string())),
        Ok(LoyaltyCost::MinusX)
    );
    assert_eq!(LoyaltyValueProxy::of(&LoyaltyValue::Numeric(4)).0, "4");
    assert_eq!(LoyaltyValueProxy::of_optional(&None).0, "");
    assert_eq!(LoyaltyValueProxy::of_optional(&Some(LoyaltyValue::X)).0, "X");
    assert_eq!(LoyaltyValueProxy("".to_string()).into_optional(), Ok(None));
    assert_eq!(
        LoyaltyValueProxy("5".to_string()).into_optional(),
        Ok(Some(LoyaltyValue::Numeric(5)))
    );
    assert_eq!(
        LoyaltyValue::try_from(LoyaltyValueProxy("x".to_string())),
        Ok(LoyaltyValue::X)
    );
    assert_eq!(LoyaltyValue::try_from("12".to_string()), Ok(LoyaltyValue::Numeric(12)));
    assert_eq!(ManaSymbol::from(CastingManaSymbol::Snow), ManaSymbol::Casting(CastingManaSymbol::Snow));
}

#[test]
fn test_loyalty_grammar() {
    assert_eq!(LoyaltyCost::parse("+2"), Ok(LoyaltyCost::Plus(2)));
    assert_eq!(LoyaltyCost::parse("-3"), Ok(LoyaltyCost::Minus(3)));
    assert_eq!(LoyaltyCost::parse("0"), Ok(LoyaltyCost::Zero));
    assert_eq!(LoyaltyCost::parse("+X"), Ok(LoyaltyCost::PlusX));
    assert_eq!(LoyaltyCost::parse("-X"), Ok(LoyaltyCost::MinusX));
    assert_eq!(LoyaltyCost::parse("2"), Ok(LoyaltyCost::Plus(2)));
    assert_eq!(LoyaltyCost::parse("00"), Ok(LoyaltyCost::Zero));
    assert_eq!(LoyaltyCost::parse("+0"), Ok(LoyaltyCost::Plus(0)));
    assert_eq!(LoyaltyCost::parse("-0"), Ok(LoyaltyCost::Minus(0)));
    assert_eq!(LoyaltyCost::parse("255"), Ok(LoyaltyCost::Plus(255)));
    assert_eq!(LoyaltyCost::parse("-255"), Ok(LoyaltyCost::Minus(255)));
    assert_eq!(LoyaltyCost::parse("++5"), Ok(LoyaltyCost::Plus(5)));
    assert_eq!(LoyaltyCost::parse("-+5"), Ok(LoyaltyCost::Minus(5)));
    // trimmed and put in upper case first
    assert_eq!(LoyaltyCost::parse("  +x\n"), Ok(LoyaltyCost::PlusX));
    assert_eq!(LoyaltyCost::parse("\u{a0}-x "), Ok(LoyaltyCost::MinusX));
    assert_eq!(LoyaltyCost::parse(" 7 "), Ok(LoyaltyCost::Plus(7)));
    // the form that is read is the form that was given to the grammar
    assert_eq!(LoyaltyCost::parse_normalized("+x"), Err("Invalid plus loyalty cost: +x".to_string()));
    assert_eq!(LoyaltyCost::parse_normalized(" 7"), Err("Unknown loyalty cost:  7".to_string()));

    assert_eq!(LoyaltyCost::parse("+256"), Err("Invalid plus loyalty cost: +256".to_string()));
    assert_eq!(LoyaltyCost::parse("+-5"), Err("Invalid plus loyalty cost: +-5".to_string()));
    assert_eq!(LoyaltyCost::parse("+"), Err("Invalid plus loyalty cost: +".to_string()));
    assert_eq!(LoyaltyCost::parse("-y"), Err("Invalid minus loyalty cost: -Y".to_string()));
    assert_eq!(LoyaltyCost::parse("- 3"), Err("Invalid minus loyalty cost: - 3".to_string()));
    assert_eq!(LoyaltyCost::parse("256"), Err("Unknown loyalty cost: 256".to_string()));
    assert_eq!(LoyaltyCost::parse("x"), Err("Unknown loyalty cost: X".to_string()));
    assert_eq!(LoyaltyCost::parse(""), Err("Unknown loyalty cost: ".to_string()));
    assert_eq!(LoyaltyCost::parse("two"), Err("Unknown loyalty cost: TWO".to_string()));

    assert_eq!(LoyaltyValue::parse("X"), Ok(LoyaltyValue::X));
    assert_eq!(LoyaltyValue::parse(" x "), Ok(LoyaltyValue::X));
    assert_eq!(LoyaltyValue::parse("3"), Ok(LoyaltyValue::Numeric(3)));
    assert_eq!(LoyaltyValue::parse("+7"), Ok(LoyaltyValue::Numeric(7)));
    assert_eq!(LoyaltyValue::parse("0"), Ok(LoyaltyValue::Numeric(0)));
    assert_eq!(LoyaltyValue::parse("4294967295"), Ok(LoyaltyValue::Numeric(4294967295)));
    assert_eq!(
        LoyaltyValue::parse("4294967296"),
        Err("Invalid loyalty value: 4294967296".to_string())
    );
    assert_eq!(LoyaltyValue::parse("-1"), Err("Invalid loyalty value: -1".to_string()));
    assert_eq!(LoyaltyValue::parse("xx"), Err("Invalid loyalty value: XX".to_string()));
    assert_eq!(LoyaltyValue::parse_normalized("x"), Err("Invalid loyalty value: x".to_string()));
}

#[test]
fn test_printed_loyalty_reads_back() {
    assert_eq!(LoyaltyValue::Numeric(3).to_string(), "3");
    assert_eq!(LoyaltyValue::Numeric(4294967295).to_string(), "4294967295");
    assert_eq!(LoyaltyValue::X.to_string(), "X");
    assert_eq!(LoyaltyCost::Plus(0).to_string(), "+0");
    assert_eq!(LoyaltyCost::Minus(255).to_string(), "-255");
    let mut costs = vec![LoyaltyCost::Zero, LoyaltyCost::PlusX, LoyaltyCost::MinusX];
    for n in 0..=255u8 {
        costs.push(LoyaltyCost::Plus(n));
        costs.push(LoyaltyCost::Minus(n));
    }
    for cost in costs {
        assert_eq!(LoyaltyCost::parse_normalized(&cost.to_string()), Ok(cost));
        assert_eq!(LoyaltyCost::parse(&cost.to_string()), Ok(cost));
    }
    for value in [LoyaltyValue::X, LoyaltyValue::Numeric(0), LoyaltyValue::Numeric(4294967295)] {
        assert_eq!(LoyaltyValue::parse_normalized(&value.to_string()), Ok(value));
    }
}

#[test]
fn test_sanitize_edges() {
    assert_eq!(sanitize_card_name(""), "");
    assert_eq!(sanitize_card_name(" - / , "), "");
    assert_eq!(sanitize_card_name("'''"), "");
    assert_eq!(sanitize_card_name("-Fire-"), "fire");
    assert_eq!(sanitize_card_name("a_b"), "ab");
    assert_eq!(sanitize_card_name("a'-'b"), "a_b");
    assert_eq!(sanitize_card_name("B.F.M. (Big Furry Monster)"), "bfm_big_furry_monster");
    assert_eq!(sanitize_card_name("Fire\u{a0}Ice\u{2003}Lightning\u{3000}Bolt"), "fire_ice_lightning_bolt");
    assert_eq!(sanitize_card_name("Tab\tLine\nFeed\u{b}Vertical"), "tab_line_feed_vertical");
    assert_eq!(sanitize_card_name("Zero\u{200b}Width"), "zerowidth");
    // the Kelvin sign is a letter k once in lower case
    assert_eq!(sanitize_card_name("\u{212a}raken 2000"), "kraken_2000");
    // what is in lower case already is taken as it stands
    assert_eq!(sanitize_lowercased("Llanowar Elves"), "Llanowar_Elves");
    assert_eq!(sanitize_lowercased("llanowar  elves"), "llanowar_elves");
    for name in ["Llanowar Elves", "  Fire // Ice  ", "Jace, the Mind Sculptor", "--", "æ é"] {
        let file = sanitize_card_name(name);
        assert!(file.chars().all(|c| c.is_ascii_lowercase() || c.is_ascii_digit() || c == '_'));
        assert!(!file.starts_with('_') && !file.ends_with('_') && !file.contains("__"));
    }
}

#[test]
fn test_frame_color() {
    assert_eq!(frame_color(&None), FrameColor::Land);
    assert_eq!(derive_frame_color(&None), "land");
    let frame = |text: &str| frame_color(&Some(CastingManaCost::parse(text).unwrap()));
    assert_eq!(frame(""), FrameColor::Artifact);
    assert_eq!(frame("{3}"), FrameColor::Artifact);
    assert_eq!(frame("{X}{S}"), FrameColor::Artifact);
    assert_eq!(frame("{C}"), FrameColor::Colorless);
    assert_eq!(frame("{2}{C}"), FrameColor::Colorless);
    assert_eq!(frame("{W}"), FrameColor::White);
    assert_eq!(frame("{1}{U}{U}"), FrameColor::Blue);
    assert_eq!(frame("{B/P}"), FrameColor::Black);
    assert_eq!(frame("{2/R}{C}"), FrameColor::Red);
    assert_eq!(frame("{G}{G}{G}"), FrameColor::Green);
    assert_eq!(frame("{W}{U}"), FrameColor::Gold);
    assert_eq!(frame("{1}{W}{B}{G}"), FrameColor::Gold);
    // a hybrid gives the first of its colours only
    assert_eq!(frame("{W/U}"), FrameColor::White);
    assert_eq!(frame("{R/G}{R}"), FrameColor::Red);
    assert_eq!(frame("{B/G}{G}"), FrameColor::Gold);
    for (frame, name) in [
        (FrameColor::Land, "land"),
        (FrameColor::Colorless, "colorless"),
        (FrameColor::Artifact, "artifact"),
        (FrameColor::White, "white"),
        (FrameColor::Blue, "blue"),
        (FrameColor::Black, "black"),
        (FrameColor::Red, "red"),
        (FrameColor::Green, "green"),
        (FrameColor::Gold, "gold"),
    ] {
        assert_eq!(frame.name(), name);
    }
    assert_eq!(derive_frame_color(&Some(CastingManaCost::parse("{U}{R}").unwrap())), "gold");
}

#[test]
fn test_drawing_names() {
    assert_eq!(symbol_code(CastingManaSymbol::White), "W");
    assert_eq!(symbol_code(CastingManaSymbol::WhiteBlue), "WU");
    assert_eq!(symbol_code(CastingManaSymbol::TwoGreen), "2G");
    assert_eq!(symbol_code(CastingManaSymbol::PhyrexianRed), "RP");
    assert_eq!(symbol_code(CastingManaSymbol::Generic(12)), "12");
    assert_eq!(symbol_code(ManaSymbol::Chaos), "CHAOS");
    assert_eq!(symbol_code(ManaSymbol::Tap), "T");
    assert_eq!(symbol_code(ManaSymbol::Casting(CastingManaSymbol::BlackGreen)), "BG");
    assert_eq!(rarity_class(Rarity::Common), "rarity-common");
    assert_eq!(rarity_class(Rarity::Uncommon), "rarity-uncommon");
    assert_eq!(rarity_class(Rarity::Rare), "rarity-rare");
    assert_eq!(rarity_class(Rarity::Mythic), "rarity-mythic");
    assert_eq!(loyalty_class(LoyaltyCost::Plus(1)), "loyalty-cost-plus");
    assert_eq!(loyalty_class(LoyaltyCost::PlusX), "loyalty-cost-plus");
    assert_eq!(loyalty_class(LoyaltyCost::Minus(1)), "loyalty-cost-minus");
    assert_eq!(loyalty_class(LoyaltyCost::MinusX), "loyalty-cost-minus");
    assert_eq!(loyalty_class(LoyaltyCost::Zero), "loyalty-cost-zero");
}
