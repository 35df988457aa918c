use deck_analyzer::analyzer::{Analyzer, CardInfo, CardLookup};
use deck_analyzer::error::AppError;

struct TestLookup;

fn card(type_line: &str, cmc: u64, color_identity: &str) -> CardInfo {
    CardInfo {
        type_line: Some(type_line.to_string()),
        cmc: Some(cmc),
        color_identity: Some(color_identity.to_string()),
        roles: Vec::new(),
    }
}

impl CardLookup for TestLookup {
    fn ensure_ready(&self) -> Result<(), AppError> {
        Ok(())
    }

    fn lookup_card(&self, card_name: &str) -> Result<Option<CardInfo>, AppError> {
        let card_info = match card_name {
            "Ezuri, Renegade Leader" => {
                card("Legendary Creature - Elf Warrior", 3, "[\"G\"]")
            }
            "Forest" => card("Basic Land - Forest", 0, "[\"G\"]"),
            "Sol Ring" => card("Artifact", 1, "[]"),
            "Llanowar Elves" => card("Creature - Elf Druid", 1, "[\"G\"]"),
            "Lightning Bolt" => card("Instant", 1, "[\"R\"]"),
            _ => return Ok(None),
        };

        Ok(Some(card_info))
    }
}

#[test]
fn validates_valid_commander_deck_with_basic_land_duplicates() {
    let analyzer = Analyzer {
        card_lookup: TestLookup,
    };
    let validation = analyzer
        .validate_commander(
            "
1 Ezuri, Renegade Leader
97 Forest
1 Sol Ring
1 Llanowar Elves
",
            "Ezuri, Renegade Leader",
        )
        .expect("validation should run");

    assert!(validation.valid);
    assert!(validation.commander_found);
    assert_eq!(validation.deck_size, 99);
    assert!(validation.duplicate_cards.is_empty());
    assert!(validation.off_color_cards.is_empty());
    assert!(validation.missing_cards.is_empty());
}

#[test]
fn invalidates_wrong_deck_size() {
    let analyzer = Analyzer {
        card_lookup: TestLookup,
    };
    let validation = analyzer
        .validate_commander(
            "
1 Ezuri, Renegade Leader
1 Forest
",
            "Ezuri, Renegade Leader",
        )
        .expect("validation should run");

    assert!(!validation.valid);
    assert_eq!(validation.deck_size, 1);
}

#[test]
fn invalidates_duplicate_non_basic_cards() {
    let analyzer = Analyzer {
        card_lookup: TestLookup,
    };
    let validation = analyzer
        .validate_commander(
            "
1 Ezuri, Renegade Leader
97 Forest
2 Sol Ring
",
            "Ezuri, Renegade Leader",
        )
        .expect("validation should run");

    assert!(!validation.valid);
    assert_eq!(validation.deck_size, 99);
    assert_eq!(validation.duplicate_cards, ["Sol Ring"]);
}

#[test]
fn invalidates_off_color_cards() {
    let analyzer = Analyzer {
        card_lookup: TestLookup,
    };
    let validation = analyzer
        .validate_commander(
            "
1 Ezuri, Renegade Leader
97 Forest
1 Sol Ring
1 Lightning Bolt
",
            "Ezuri, Renegade Leader",
        )
        .expect("validation should run");

    assert!(!validation.valid);
    assert_eq!(validation.off_color_cards, ["Lightning Bolt"]);
}

#[test]
fn invalidates_missing_commander() {
    let analyzer = Analyzer {
        card_lookup: TestLookup,
    };
    let validation = analyzer
        .validate_commander(
            "
1 Missing Commander
99 Forest
",
            "Missing Commander",
        )
        .expect("validation should run");

    assert!(!validation.valid);
    assert!(!validation.commander_found);
    assert_eq!(validation.deck_size, 99);
    assert!(validation.missing_cards.is_empty());
}

#[test]
fn invalidates_missing_deck_cards() {
    let analyzer = Analyzer {
        card_lookup: TestLookup,
    };
    let validation = analyzer
        .validate_commander(
            "
1 Ezuri, Renegade Leader
98 Forest
1 Missing Card
",
            "Ezuri, Renegade Leader",
        )
        .expect("validation should run");

    assert!(!validation.valid);
    assert_eq!(validation.deck_size, 99);
    assert_eq!(validation.missing_cards, ["Missing Card"]);
}

#[test]
fn duplicates_count_copies_across_lines() {
    let analyzer = Analyzer::new(TestLookup);
    let validation = analyzer
        .validate_commander(
            "1 Ezuri, Renegade Leader\n96 Forest\n1 Sol Ring\n1 Llanowar Elves\n1 Sol Ring\n",
            "Ezuri, Renegade Leader",
        )
        .expect("validation should run");
    assert_eq!(validation.deck_size, 99);
    assert_eq!(validation.duplicate_cards, ["Sol Ring"]);
    assert!(!validation.valid);
}

#[test]
fn off_color_cards_need_a_found_commander() {
    let analyzer = Analyzer::new(TestLookup);
    let validation = analyzer
        .validate_commander("98 Forest\n1 Lightning Bolt\n", "Nobody")
        .expect("validation should run");
    assert!(!validation.commander_found);
    assert!(validation.off_color_cards.is_empty());
    assert_eq!(validation.commander_name, "Nobody");
    assert_eq!(validation.deck_size, 99);
}

#[test]
fn validation_reports_deck_line_faults() {
    let analyzer = Analyzer::new(TestLookup);
    assert!(matches!(
        analyzer.validate_commander("1 Forest\n2Forest\n", "Ezuri, Renegade Leader"),
        Err(AppError::InvalidDeckLine { line_number: 2 })
    ));
}
