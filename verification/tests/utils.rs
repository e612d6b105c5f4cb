use mtg_gen::sanitize_card_name;

#[test]
fn test_sanitize_simple_name() {
    assert_eq!(sanitize_card_name("Llanowar Elves"), "llanowar_elves");
}

#[test]
fn test_sanitize_split_card() {
    assert_eq!(sanitize_card_name("Fire // Ice"), "fire_ice");
}

#[test]
fn test_sanitize_with_comma() {
    assert_eq!(
        sanitize_card_name("Jace, the Mind Sculptor"),
        "jace_the_mind_sculptor"
    );
}

#[test]
fn test_sanitize_with_apostrophe() {
    assert_eq!(sanitize_card_name("Emeria's Call"), "emerias_call");
}

#[test]
fn test_sanitize_dfc() {
    assert_eq!(
        sanitize_card_name("Delver of Secrets // Insectile Aberration"),
        "delver_of_secrets_insectile_aberration"
    );
}

#[test]
fn test_sanitize_with_hyphen() {
    assert_eq!(
        sanitize_card_name("Tok-Tok, Volcano Born"),
        "tok_tok_volcano_born"
    );
}

#[test]
fn test_sanitize_multiple_spaces() {
    assert_eq!(
        sanitize_card_name("Card  With   Spaces"),
        "card_with_spaces"
    );
}

#[test]
fn test_sanitize_special_characters() {
    assert_eq!(sanitize_card_name("Ætherling"), "therling");
}

#[test]
fn test_sanitize_numbers() {
    assert_eq!(
        sanitize_card_name("Phyrexian Fleshgorger"),
        "phyrexian_fleshgorger"
    );
}
