use deck_analyzer::analyzer::lookup_readiness;
use deck_analyzer::db::{json_list_column, roles_for_card};
use deck_analyzer::error::AppError;
use deck_analyzer::types::CardRole;

#[test]
fn role_names_read_back() {
    for role in [
        CardRole::Ramp,
        CardRole::CardDraw,
        CardRole::Removal,
        CardRole::MassRemoval,
        CardRole::Tutor,
        CardRole::Protection,
        CardRole::WinCondition,
    ] {
        assert_eq!(CardRole::from_db_value(role.as_str()), Some(role));
    }
    assert_eq!(CardRole::from_db_value("Ramp"), None);
    assert_eq!(CardRole::from_db_value(""), None);
}

#[test]
fn known_values_list_every_role() {
    assert_eq!(
        CardRole::known_values(),
        "ramp, card_draw, removal, mass_removal, tutor, protection, win_condition"
    );
}

#[test]
fn role_names_parse_with_from_str() {
    assert_eq!("tutor".parse::<CardRole>(), Ok(CardRole::Tutor));
    assert_eq!(
        "lifegain".parse::<CardRole>(),
        Err(
            "unknown card role lifegain; expected one of: ramp, card_draw, removal, mass_removal, tutor, protection, win_condition"
                .to_string()
        )
    );
}

#[test]
fn roles_from_rules_text() {
    let cases: [(&str, &str, Vec<CardRole>); 8] = [
        ("Creature - Elf Druid", "{T}: Add {G}.", vec![CardRole::Ramp]),
        ("Sorcery", "Draw two cards.", vec![CardRole::CardDraw]),
        (
            "Instant",
            "Exile target creature. Its controller gains life equal to its power.",
            vec![CardRole::Removal],
        ),
        (
            "Sorcery",
            "Destroy all creatures. They can't be regenerated.",
            vec![CardRole::MassRemoval],
        ),
        (
            "Sorcery",
            "Search your library for a card, put that card into your hand, then shuffle.",
            vec![CardRole::Tutor],
        ),
        (
            "Instant",
            "Permanents you control gain hexproof and indestructible until end of turn.",
            vec![CardRole::Protection],
        ),
        (
            "Creature - Merfolk Wizard",
            "When Thassa's Oracle enters, look at the top X cards of your library. If X is greater than or equal to the number of cards in your library, you win the game.",
            vec![CardRole::WinCondition],
        ),
        (
            "Sorcery",
            "Search your library for a basic land card, put it onto the battlefield tapped, then shuffle.",
            vec![CardRole::Ramp],
        ),
    ];
    for (type_line, text, expected) in cases {
        assert_eq!(roles_for_card(Some(type_line), Some(text), None), expected, "{text}");
    }
}

#[test]
fn lands_are_never_ramp_and_text_is_read_in_lower_case() {
    assert_eq!(
        roles_for_card(Some("Land"), Some("{T}: ADD {C}."), Some("[]")),
        Vec::<CardRole>::new()
    );
    assert_eq!(
        roles_for_card(Some("Artifact"), Some("{T}: ADD {C}. DRAW A CARD."), None),
        vec![CardRole::Ramp, CardRole::CardDraw]
    );
    assert_eq!(roles_for_card(None, None, None), Vec::<CardRole>::new());
}

#[test]
fn land_only_searches_are_no_tutors() {
    assert_eq!(
        roles_for_card(
            Some("Sorcery"),
            Some("Search your library for a basic land card and a creature card, put them into your hand."),
            None
        ),
        vec![CardRole::Ramp]
    );
    assert_eq!(
        roles_for_card(
            Some("Sorcery"),
            Some("Search your library for a nonland card or a basic land card, put it into your hand."),
            None
        ),
        vec![CardRole::Ramp, CardRole::Tutor]
    );
}

#[test]
fn error_messages() {
    assert_eq!(
        AppError::InvalidDeckLine { line_number: 12 }.message(),
        "line 12 is in the wrong format"
    );
    assert_eq!(
        AppError::InvalidQuantity { line_number: 7 }.message(),
        "line 7 has an invalid quantity"
    );
    assert_eq!(
        AppError::MissingCardLookup.message(),
        "card_lookup table is missing; run sync before analyze"
    );
    assert_eq!(
        AppError::StaleCardLookup.message(),
        "card_lookup table is missing color identity data; run sync before analyze"
    );
    assert_eq!(
        AppError::MissingCardRoles.message(),
        "card_roles table is missing; run sync before analyze"
    );
    assert_eq!(
        AppError::CommanderValidationFailed.message(),
        "commander validation failed"
    );
    assert_eq!(
        AppError::InvalidSourceDeckFormat("bad deck".to_string()).message(),
        "bad deck"
    );
    let io = std::io::Error::new(std::io::ErrorKind::NotFound, "no such deck");
    assert_eq!(AppError::from(io).message(), "no such deck");
}

#[test]
fn lookup_readiness_decisions() {
    assert!(matches!(
        lookup_readiness(0, true, true),
        Err(AppError::MissingCardLookup)
    ));
    assert!(matches!(
        lookup_readiness(1, false, true),
        Err(AppError::StaleCardLookup)
    ));
    assert!(lookup_readiness(1, false, false).is_ok());
    assert!(lookup_readiness(1, true, true).is_ok());
}

#[test]
fn list_columns_are_json_arrays() {
    assert_eq!(json_list_column(&None).expect("empty list"), "[]");
    assert_eq!(
        json_list_column(&Some(vec!["G".to_string(), "U".to_string()])).expect("colors"),
        "[\"G\",\"U\"]"
    );
    assert_eq!(
        json_list_column(&Some(vec!["Mana \"Ability\"\n".to_string()])).expect("keywords"),
        "[\"Mana \\\"Ability\\\"\\n\"]"
    );
    assert_eq!(json_list_column(&Some(Vec::new())).expect("none"), "[]");
}
