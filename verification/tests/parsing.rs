use mtg_gen::{
    AdventureSpellRecord, Card, CardFaceRecord, CardField, CardKind, CardLoadError, CardRecord,
    CastingManaCostProxy, CastingManaSymbol, ClassLevelRecord, FieldFault, LevelerRangeRecord,
    LoyaltyAbilityRecord, LoyaltyCost, LoyaltyCostProxy, LoyaltyValue, LoyaltyValueProxy,
    ManaCostParseError, ManaSymbol, Rarity, RulesTextProxy, RulesTextSegment, SagaChapterRecord,
};

fn record(kind: &str, name: &str, type_line: &str, rarity: &str) -> CardRecord {
    CardRecord {
        kind: kind.to_string(),
        name: name.to_string(),
        mana_cost: None,
        type_line: type_line.to_string(),
        rules_text: None,
        flavor_text: None,
        power: None,
        toughness: None,
        rarity: rarity.to_string(),
        loyalty: None,
        loyalty_abilities: None,
        chapters: None,
        levels: None,
        adventure: None,
        faces: None,
        fuse: None,
        aftermath: None,
        defense: None,
        backside_name: None,
        backside_type_line: None,
        backside_rules_text: None,
        leveler_ranges: None,
        prototype: None,
    }
}

fn cost(text: &str) -> Option<CastingManaCostProxy> {
    Some(CastingManaCostProxy(text.to_string()))
}

fn rules(text: &str) -> Option<RulesTextProxy> {
    Some(RulesTextProxy(text.to_string()))
}

fn face(name: &str) -> CardFaceRecord {
    CardFaceRecord {
        name: Some(name.to_string()),
        mana_cost: None,
        type_line: None,
        rules_text: None,
        flavor_text: None,
        power: None,
        toughness: None,
        color_indicator: None,
    }
}

fn ability(cost: &str, text: &str) -> LoyaltyAbilityRecord {
    LoyaltyAbilityRecord {
        cost: LoyaltyCostProxy(cost.to_string()),
        text: RulesTextProxy(text.to_string()),
    }
}

fn chapter(chapters: Vec<u32>, text: &str) -> SagaChapterRecord {
    SagaChapterRecord { chapters, text: RulesTextProxy(text.to_string()) }
}

fn saga_record() -> CardRecord {
    let mut r = record("saga", "The Eldest Reborn", "Enchantment — Saga", "uncommon");
    r.mana_cost = cost("{4}{B}");
    r.chapters = Some(vec![
        chapter(vec![1], "Each opponent sacrifices a creature or planeswalker."),
        chapter(vec![2], "Each opponent discards a card."),
        chapter(
            vec![3],
            "Put target creature or planeswalker card from a graveyard onto the battlefield under your control.",
        ),
    ]);
    r
}

#[test]
fn test_parse_normal_creature() {
    let mut r = record("normal", "Llanowar Elves", "Creature — Elf Druid", "common");
    r.mana_cost = cost("{G}");
    r.rules_text = rules("{T}: Add {G}.");
    r.flavor_text = Some("One bone broken for every twig snapped underfoot.".to_string());
    r.power = Some("1".to_string());
    r.toughness = Some("1".to_string());
    let card = Card::load(&r).expect("Failed to parse normal creature");

    assert!(matches!(card, Card::Normal(_)));
    assert_eq!(card.kind(), CardKind::Normal);
    let base = card.base();
    assert_eq!(base.name, "Llanowar Elves");
    let mana = base.mana_cost.as_ref().unwrap();
    assert_eq!(mana.symbols.len(), 1);
    assert_eq!(mana.symbols[0], CastingManaSymbol::Green);
    assert_eq!(
        base.mana_cost.as_ref().map(|c| c.to_string()),
        Some("{G}".to_string())
    );
    assert_eq!(base.type_line, "Creature — Elf Druid");
    assert_eq!(
        base.rules_text.as_ref().map(|t| t.to_string()),
        Some("{T}: Add {G}.".to_string())
    );
    assert_eq!(
        base.flavor_text,
        Some("One bone broken for every twig snapped underfoot.".to_string())
    );
    assert_eq!(base.power, Some("1".to_string()));
    assert_eq!(base.toughness, Some("1".to_string()));
    assert_eq!(base.rarity, Rarity::Common);
    assert_eq!(card.name(), "Llanowar Elves");
    assert_eq!(card.rarity(), Rarity::Common);
}

#[test]
fn test_parse_planeswalker() {
    let mut r = record(
        "planeswalker",
        "Jace, the Mind Sculptor",
        "Legendary Planeswalker — Jace",
        "mythic",
    );
    r.mana_cost = cost("{2}{U}{U}");
    r.loyalty = Some(LoyaltyValueProxy("3".to_string()));
    r.loyalty_abilities = Some(vec![
        ability("+2", "Look at the top card of target player's library."),
        ability("0", "Draw three cards, then put two cards from your hand on top of your library."),
        ability("-1", "Return target creature to its owner's hand."),
        ability("-12", "Exile all cards from target player's library."),
    ]);
    let card = Card::load(&r).expect("Failed to parse planeswalker");

    let base = card.base();
    assert_eq!(base.name, "Jace, the Mind Sculptor");

    if let Card::Planeswalker(walker) = &card {
        assert_eq!(walker.loyalty, LoyaltyValue::Numeric(3));
        assert_eq!(walker.loyalty_abilities.len(), 4);
        assert_eq!(walker.loyalty_abilities[0].cost, LoyaltyCost::Plus(2));
        assert_eq!(walker.loyalty_abilities[1].cost, LoyaltyCost::Zero);
        assert_eq!(walker.loyalty_abilities[2].cost, LoyaltyCost::Minus(1));
        assert_eq!(walker.loyalty_abilities[3].cost, LoyaltyCost::Minus(12));
    } else {
        panic!("Expected Planeswalker variant");
    }
}

#[test]
fn test_parse_saga() {
    let card = Card::load(&saga_record()).expect("Failed to parse saga");

    let base = card.base();
    assert_eq!(base.name, "The Eldest Reborn");

    if let Card::Saga(saga) = &card {
        assert_eq!(saga.chapters.len(), 3);
        assert_eq!(saga.chapters[0].chapters, vec![1]);
        assert_eq!(saga.chapters[1].chapters, vec![2]);
        assert_eq!(saga.chapters[2].chapters, vec![3]);
    } else {
        panic!("Expected Saga variant");
    }
}

#[test]
fn test_parse_class() {
    let mut r = record("class", "Ranger Class", "Enchantment — Class", "rare");
    r.mana_cost = cost("{1}{G}");
    r.levels = Some(vec![
        ClassLevelRecord {
            level: 1,
            cost: None,
            text: RulesTextProxy("When Ranger Class enters, create a 2/2 green Wolf.".to_string()),
        },
        ClassLevelRecord {
            level: 2,
            cost: cost("{1}{G}"),
            text: RulesTextProxy("Whenever you attack, put a +1/+1 counter on it.".to_string()),
        },
        ClassLevelRecord {
            level: 3,
            cost: cost("{3}{G}"),
            text: RulesTextProxy("You may look at the top card of your library.".to_string()),
        },
    ]);
    let card = Card::load(&r).expect("Failed to parse class");

    let base = card.base();
    assert_eq!(base.name, "Ranger Class");

    if let Card::Class(class) = &card {
        assert_eq!(class.levels.len(), 3);
        assert_eq!(class.levels[0].level, 1);
        assert_eq!(class.levels[0].cost, None);
        assert_eq!(class.levels[1].level, 2);
        assert_eq!(
            class.levels[1].cost.as_ref().map(|c| c.to_string()),
            Some("{1}{G}".to_string())
        );
    } else {
        panic!("Expected Class variant");
    }
}

#[test]
fn test_parse_adventure() {
    let mut r = record("adventure", "Bonecrusher Giant", "Creature — Giant", "rare");
    r.mana_cost = cost("{2}{R}");
    r.adventure = Some(AdventureSpellRecord {
        name: "Stomp".to_string(),
        mana_cost: CastingManaCostProxy("{1}{R}".to_string()),
        type_line: "Instant — Adventure".to_string(),
        rules_text: RulesTextProxy("Stomp deals 2 damage to any target.".to_string()),
    });
    let card = Card::load(&r).expect("Failed to parse adventure");

    let base = card.base();
    assert_eq!(base.name, "Bonecrusher Giant");

    if let Card::Adventure(adventure) = &card {
        let adv = &adventure.adventure;
        assert_eq!(adv.name, "Stomp");
        assert_eq!(adv.mana_cost.to_string(), "{1}{R}");
        assert_eq!(adv.type_line, "Instant — Adventure");
    } else {
        panic!("Expected Adventure variant");
    }
}

#[test]
fn test_parse_split() {
    let mut r = record("split", "Fire // Ice", "Instant // Instant", "uncommon");
    let mut fire = face("Fire");
    fire.mana_cost = cost("{1}{R}");
    let mut ice = face("Ice");
    ice.mana_cost = cost("{1}{U}");
    r.faces = Some(vec![fire, ice]);
    let card = Card::load(&r).expect("Failed to parse split");

    let base = card.base();
    assert_eq!(base.name, "Fire // Ice");

    if let Card::Split(split) = &card {
        let faces = &split.faces;
        assert_eq!(faces.len(), 2);
        assert_eq!(faces[0].name, Some("Fire".to_string()));
        assert_eq!(
            faces[0].mana_cost.as_ref().map(|c| c.to_string()),
            Some("{1}{R}".to_string())
        );
        assert_eq!(faces[1].name, Some("Ice".to_string()));
        assert_eq!(
            faces[1].mana_cost.as_ref().map(|c| c.to_string()),
            Some("{1}{U}".to_string())
        );
        assert_eq!(split.fuse, None);
        assert_eq!(split.aftermath, None);
    } else {
        panic!("Expected Split variant");
    }
}

#[test]
fn test_parse_transform_dfc() {
    let mut r = record("transform", "Delver of Secrets", "Creature — Human Wizard", "common");
    r.mana_cost = cost("{U}");
    let front = face("Delver of Secrets");
    let mut back = face("Insectile Aberration");
    back.color_indicator = Some(vec!["blue".to_string()]);
    r.faces = Some(vec![front, back]);
    let card = Card::load(&r).expect("Failed to parse transform DFC");

    let base = card.base();
    assert_eq!(base.name, "Delver of Secrets");

    if let Card::Transform(transform) = &card {
        let faces = &transform.faces;
        assert_eq!(faces.len(), 2);
        assert_eq!(faces[0].name, Some("Delver of Secrets".to_string()));
        assert_eq!(faces[1].name, Some("Insectile Aberration".to_string()));
        assert_eq!(faces[1].color_indicator, Some(vec!["blue".to_string()]));
    } else {
        panic!("Expected Transform variant");
    }
}

#[test]
fn test_parse_modal_dfc() {
    let mut r = record("modal_dfc", "Emeria's Call", "Sorcery", "mythic");
    r.mana_cost = cost("{4}{W}{W}{W}");
    r.faces = Some(vec![face("Emeria's Call"), face("Emeria, Shattered Skyclave")]);
    let card = Card::load(&r).expect("Failed to parse modal DFC");

    let base = card.base();
    assert_eq!(base.name, "Emeria's Call");

    if let Card::ModalDfc(modal) = &card {
        let faces = &modal.faces;
        assert_eq!(faces.len(), 2);
        assert_eq!(faces[0].name, Some("Emeria's Call".to_string()));
        assert_eq!(
            faces[1].name,
            Some("Emeria, Shattered Skyclave".to_string())
        );
    } else {
        panic!("Expected ModalDfc variant");
    }
}

#[test]
fn test_parse_battle() {
    let mut r = record("battle", "Invasion of Gobakhan", "Battle — Siege", "rare");
    r.mana_cost = cost("{1}{W}");
    r.defense = Some(3);
    r.backside_name = Some("Lightshield Array".to_string());
    r.backside_type_line = Some("Enchantment".to_string());
    r.backside_rules_text = rules("Sacrifice Lightshield Array: Creatures you control gain hexproof.");
    let card = Card::load(&r).expect("Failed to parse battle");

    let base = card.base();
    assert_eq!(base.name, "Invasion of Gobakhan");

    if let Card::Battle(battle) = &card {
        assert_eq!(battle.defense, 3);
        assert!(battle.backside_name.len() > 0);
        assert_eq!(battle.backside_name, "Lightshield Array");
        assert_eq!(battle.backside_type_line, "Enchantment");
        assert_eq!(battle.backside_rules_text.len(), 1);
    } else {
        panic!("Expected Battle variant");
    }
}

#[test]
fn test_parse_flip() {
    let mut r = record("flip", "Akki Lavarunner", "Creature — Goblin Warrior", "rare");
    r.mana_cost = cost("{3}{R}");
    r.faces = Some(vec![face("Akki Lavarunner"), face("Tok-Tok, Volcano Born")]);
    let card = Card::load(&r).expect("Failed to parse flip");

    let base = card.base();
    assert_eq!(base.name, "Akki Lavarunner");

    if let Card::Flip(flip) = &card {
        assert_eq!(flip.faces.len(), 2);
    } else {
        panic!("Expected Flip variant");
    }
}

#[test]
fn test_parse_leveler() {
    let mut r = record("leveler", "Kargan Dragonlord", "Creature — Human Warrior", "mythic");
    r.mana_cost = cost("{R}{R}");
    r.leveler_ranges = Some(vec![
        LevelerRangeRecord {
            range: vec![Some(0), Some(3)],
            power: Some("2".to_string()),
            toughness: Some("2".to_string()),
            text: None,
        },
        LevelerRangeRecord {
            range: vec![Some(4), Some(7)],
            power: Some("4".to_string()),
            toughness: Some("4".to_string()),
            text: rules("Flying"),
        },
        LevelerRangeRecord {
            range: vec![Some(8), None],
            power: Some("8".to_string()),
            toughness: Some("8".to_string()),
            text: rules("Flying, trample\n{R}: Kargan Dragonlord gets +1/+0 until end of turn."),
        },
    ]);
    let card = Card::load(&r).expect("Failed to parse leveler");

    let base = card.base();
    assert_eq!(base.name, "Kargan Dragonlord");

    if let Card::Leveler(leveler) = &card {
        let leveler_ranges = &leveler.leveler_ranges;
        assert_eq!(leveler_ranges.len(), 3);
        assert_eq!(leveler_ranges[0].power, Some("2".to_string()));
        assert!(leveler_ranges[0].text.is_none());
        assert_eq!(
            leveler_ranges[1].text.as_ref().map(|t| t.to_string()),
            Some("Flying".to_string())
        );
        assert!(leveler_ranges[2].text.is_some());
        assert_eq!(leveler_ranges[2].range, vec![Some(8), None]);
    } else {
        panic!("Expected Leveler variant");
    }
}

#[test]
fn test_parse_prototype() {
    let mut r = record(
        "prototype",
        "Phyrexian Fleshgorger",
        "Artifact Creature — Phyrexian Wurm",
        "mythic",
    );
    r.mana_cost = cost("{7}");
    r.power = Some("7".to_string());
    r.toughness = Some("5".to_string());
    r.prototype = Some(CardFaceRecord {
        name: None,
        mana_cost: cost("{1}{B}{B}"),
        type_line: None,
        rules_text: None,
        flavor_text: None,
        power: Some("3".to_string()),
        toughness: Some("3".to_string()),
        color_indicator: None,
    });
    let card = Card::load(&r).expect("Failed to parse prototype");

    let base = card.base();
    assert_eq!(base.name, "Phyrexian Fleshgorger");

    if let Card::Prototype(prototype) = &card {
        let proto = &prototype.prototype;
        assert_eq!(
            proto.mana_cost.as_ref().map(|c| c.to_string()),
            Some("{1}{B}{B}".to_string())
        );
        assert_eq!(proto.power, Some("3".to_string()));
        assert_eq!(proto.toughness, Some("3".to_string()));
    } else {
        panic!("Expected Prototype variant");
    }
}

#[test]
fn test_parse_saga_with_combined_chapters() {
    let mut r = saga_record();
    r.chapters = Some(vec![
        chapter(vec![1, 2], "Each opponent discards a card."),
        chapter(vec![3], "Draw a card."),
    ]);
    let card = Card::load(&r).expect("Failed to parse saga");
    if let Card::Saga(saga) = &card {
        assert_eq!(saga.chapters.len(), 2);
        assert_eq!(saga.chapters[0].chapters, vec![1, 2]);
        assert_eq!(saga.chapters[1].chapters, vec![3]);
    } else {
        panic!("Expected Saga variant");
    }
}

#[test]
fn test_parse_meld() {
    let mut r = record("meld", "Gisela, the Broken Blade", "Legendary Creature — Angel", "mythic");
    r.faces = Some(vec![face("Gisela, the Broken Blade"), face("Brisela, Voice of Nightmares")]);
    let card = Card::load(&r).unwrap();
    assert_eq!(card.kind(), CardKind::Meld);
    if let Card::Meld(meld) = &card {
        assert_eq!(meld.faces.len(), 2);
    } else {
        panic!("Expected Meld variant");
    }
}

#[test]
fn test_load_every_kind_has_its_name() {
    let kinds = [
        CardKind::Normal,
        CardKind::Planeswalker,
        CardKind::Saga,
        CardKind::Class,
        CardKind::Adventure,
        CardKind::Split,
        CardKind::Flip,
        CardKind::Transform,
        CardKind::ModalDfc,
        CardKind::Battle,
        CardKind::Meld,
        CardKind::Leveler,
        CardKind::Prototype,
    ];
    for kind in kinds {
        assert_eq!(CardKind::parse(kind.name()), Some(kind));
    }
    assert_eq!(CardKind::parse("modal_dfc"), Some(CardKind::ModalDfc));
    assert_eq!(CardKind::parse("Normal"), None);
    assert_eq!(CardKind::parse(""), None);
    for rarity in [Rarity::Common, Rarity::Uncommon, Rarity::Rare, Rarity::Mythic] {
        assert_eq!(Rarity::parse(rarity.name()), Some(rarity));
    }
    assert_eq!(Rarity::parse("legendary"), None);
}

#[test]
fn test_load_unknown_variant() {
    let mut r = record("vanguard", "Oracle", "Vanguard", "rare");
    // a fault elsewhere is not looked at once the discriminator is unknown
    r.mana_cost = cost("{T}");
    let err = Card::load(&r).unwrap_err();
    assert_eq!(
        err,
        CardLoadError::UnknownCardVariant { discriminator: "vanguard".to_string() }
    );
}

#[test]
fn test_load_malformed_cost_propagates() {
    let mut r = record("normal", "Broken Elves", "Creature — Elf", "common");
    r.mana_cost = cost("{T}");
    let err = Card::load(&r).unwrap_err();
    assert_eq!(
        err,
        CardLoadError::FieldParseFailure {
            card_name: "Broken Elves".to_string(),
            field: CardField::ManaCost,
            cause: FieldFault::Malformed(ManaCostParseError::UnknownSymbol {
                symbol: "T".to_string()
            }),
        }
    );
}

#[test]
fn test_load_absent_cost_is_not_the_empty_cost() {
    let land = record("normal", "Forest", "Basic Land — Forest", "common");
    let card = Card::load(&land).unwrap();
    assert!(card.base().mana_cost.is_none());
    assert!(card.base().rules_text.is_none());

    let mut empty = record("normal", "Forest", "Basic Land — Forest", "common");
    empty.mana_cost = cost("");
    empty.rules_text = rules("");
    let card = Card::load(&empty).unwrap();
    assert!(card.base().mana_cost.is_none());
    assert!(card.base().rules_text.is_none());

    let mut zero = record("normal", "Ornithopter", "Artifact Creature — Thopter", "common");
    zero.mana_cost = cost(" ");
    let card = Card::load(&zero).unwrap();
    let cost = card.base().mana_cost.as_ref().unwrap();
    assert_eq!(cost.symbols.len(), 0);
}

#[test]
fn test_load_missing_fields() {
    let r = record("planeswalker", "Jace", "Planeswalker", "mythic");
    assert_eq!(
        Card::load(&r).unwrap_err(),
        CardLoadError::MissingField { card_name: "Jace".to_string(), field: CardField::Loyalty }
    );
    let mut r = record("planeswalker", "Jace", "Planeswalker", "mythic");
    r.loyalty = Some(LoyaltyValueProxy("X".to_string()));
    assert_eq!(
        Card::load(&r).unwrap_err(),
        CardLoadError::MissingField {
            card_name: "Jace".to_string(),
            field: CardField::LoyaltyAbilities
        }
    );
    r.loyalty_abilities = Some(vec![]);
    if let Card::Planeswalker(walker) = Card::load(&r).unwrap() {
        assert_eq!(walker.loyalty, LoyaltyValue::X);
        assert!(walker.loyalty_abilities.is_empty());
    } else {
        panic!("Expected Planeswalker variant");
    }
    for (kind, field) in [
        ("saga", CardField::Chapters),
        ("class", CardField::Levels),
        ("adventure", CardField::Adventure),
        ("split", CardField::Faces),
        ("flip", CardField::Faces),
        ("transform", CardField::Faces),
        ("modal_dfc", CardField::Faces),
        ("meld", CardField::Faces),
        ("battle", CardField::Defense),
        ("leveler", CardField::LevelerRanges),
        ("prototype", CardField::Prototype),
    ] {
        let r = record(kind, "Nameless", "Card", "rare");
        assert_eq!(
            Card::load(&r).unwrap_err(),
            CardLoadError::MissingField { card_name: "Nameless".to_string(), field }
        );
    }
    let mut r = record("battle", "Invasion", "Battle", "rare");
    r.defense = Some(4);
    assert_eq!(
        Card::load(&r).unwrap_err(),
        CardLoadError::MissingField {
            card_name: "Invasion".to_string(),
            field: CardField::BacksideName
        }
    );
    r.backside_name = Some("Back".to_string());
    assert_eq!(
        Card::load(&r).unwrap_err(),
        CardLoadError::MissingField {
            card_name: "Invasion".to_string(),
            field: CardField::BacksideTypeLine
        }
    );
    r.backside_type_line = Some("Creature".to_string());
    assert_eq!(
        Card::load(&r).unwrap_err(),
        CardLoadError::MissingField {
            card_name: "Invasion".to_string(),
            field: CardField::BacksideRulesText
        }
    );
}

#[test]
fn test_load_field_faults_say_where() {
    let mut r = record("planeswalker", "Jace", "Planeswalker", "mythic");
    r.loyalty = Some(LoyaltyValueProxy("three".to_string()));
    assert_eq!(
        Card::load(&r).unwrap_err(),
        CardLoadError::FieldParseFailure {
            card_name: "Jace".to_string(),
            field: CardField::Loyalty,
            cause: FieldFault::InvalidLoyaltyValue("Invalid loyalty value: THREE".to_string()),
        }
    );
    r.loyalty = Some(LoyaltyValueProxy(" 3 ".to_string()));
    r.loyalty_abilities = Some(vec![ability("+1", "Draw."), ability("+Q", "Lose.")]);
    assert_eq!(
        Card::load(&r).unwrap_err(),
        CardLoadError::FieldParseFailure {
            card_name: "Jace".to_string(),
            field: CardField::AbilityCost(1),
            cause: FieldFault::InvalidLoyaltyCost("Invalid plus loyalty cost: +Q".to_string()),
        }
    );
    r.loyalty_abilities = Some(vec![ability("+1", "Draw {X"), ability("+Q", "Lose.")]);
    assert_eq!(
        Card::load(&r).unwrap_err(),
        CardLoadError::FieldParseFailure {
            card_name: "Jace".to_string(),
            field: CardField::AbilityText(0),
            cause: FieldFault::Malformed(ManaCostParseError::UnclosedBrace { position: 5 }),
        }
    );

    let mut r = record("normal", "Elves", "Creature", "shiny");
    assert_eq!(
        Card::load(&r).unwrap_err(),
        CardLoadError::FieldParseFailure {
            card_name: "Elves".to_string(),
            field: CardField::Rarity,
            cause: FieldFault::UnknownRarity("shiny".to_string()),
        }
    );
    // the cost is read before the rules text, the rules text before the rarity
    r.rules_text = rules("{T}: Add {QQ}.");
    assert_eq!(
        Card::load(&r).unwrap_err(),
        CardLoadError::FieldParseFailure {
            card_name: "Elves".to_string(),
            field: CardField::RulesText,
            cause: FieldFault::Malformed(ManaCostParseError::UnknownSymbol {
                symbol: "QQ".to_string()
            }),
        }
    );
    r.mana_cost = cost("{G} x");
    assert_eq!(
        Card::load(&r).unwrap_err(),
        CardLoadError::FieldParseFailure {
            card_name: "Elves".to_string(),
            field: CardField::ManaCost,
            cause: FieldFault::Malformed(ManaCostParseError::UnexpectedCharacter {
                character: 'x',
                position: 4
            }),
        }
    );

    let mut r = record("split", "Fire // Ice", "Instant // Instant", "uncommon");
    let mut ice = face("Ice");
    ice.rules_text = rules("Tap target permanent. {Draw}");
    r.faces = Some(vec![face("Fire"), ice]);
    assert_eq!(
        Card::load(&r).unwrap_err(),
        CardLoadError::FieldParseFailure {
            card_name: "Fire // Ice".to_string(),
            field: CardField::FaceRulesText(1),
            cause: FieldFault::Malformed(ManaCostParseError::UnknownSymbol {
                symbol: "Draw".to_string()
            }),
        }
    );

    let mut r = record("adventure", "Giant", "Creature", "rare");
    r.adventure = Some(AdventureSpellRecord {
        name: "Stomp".to_string(),
        mana_cost: CastingManaCostProxy("{1}{R".to_string()),
        type_line: "Instant".to_string(),
        rules_text: RulesTextProxy("".to_string()),
    });
    assert_eq!(
        Card::load(&r).unwrap_err(),
        CardLoadError::FieldParseFailure {
            card_name: "Giant".to_string(),
            field: CardField::AdventureManaCost,
            cause: FieldFault::Malformed(ManaCostParseError::UnclosedBrace { position: 3 }),
        }
    );
}

#[test]
fn test_load_rules_text_segments() {
    let mut r = record("normal", "Llanowar Elves", "Creature — Elf Druid", "common");
    r.rules_text = rules("{T}: Add {G}.");
    let card = Card::load(&r).unwrap();
    let text = card.base().rules_text.as_ref().unwrap();
    assert_eq!(
        text.segments,
        vec![
            RulesTextSegment::Symbol(ManaSymbol::Tap),
            RulesTextSegment::Text(": Add ".to_string()),
            RulesTextSegment::Symbol(ManaSymbol::Casting(CastingManaSymbol::Green)),
            RulesTextSegment::Text(".".to_string()),
        ]
    );
}
