use deck_analyzer::analyzer::{
    mana_curve_bucket, Analyzer, CardInfo, CardLookup, DeckStats, TypeCounts,
};
use deck_analyzer::decklist::parse_decklist;
use deck_analyzer::error::AppError;

struct TestLookup;

impl CardLookup for TestLookup {
    fn ensure_ready(&self) -> Result<(), AppError> {
        Ok(())
    }

    fn lookup_card(&self, card_name: &str) -> Result<Option<CardInfo>, AppError> {
        let card_info = match card_name {
            "Command Tower" => CardInfo {
                type_line: Some("Land".to_string()),
                cmc: Some(0),
                color_identity: Some("[]".to_string()),
                roles: Vec::new(),
            },
            "Llanowar Elves" => CardInfo {
                type_line: Some("Creature - Elf Druid".to_string()),
                cmc: Some(1),
                color_identity: Some("[\"G\"]".to_string()),
                roles: vec!["ramp".to_string()],
            },
            "Boros Charm" => CardInfo {
                type_line: Some("Instant".to_string()),
                cmc: Some(2),
                color_identity: Some("[\"R\",\"W\"]".to_string()),
                roles: vec!["protection".to_string()],
            },
            _ => return Ok(None),
        };

        Ok(Some(card_info))
    }
}

struct NotReady;

impl CardLookup for NotReady {
    fn ensure_ready(&self) -> Result<(), AppError> {
        Err(AppError::MissingCardLookup)
    }

    fn lookup_card(&self, _card_name: &str) -> Result<Option<CardInfo>, AppError> {
        Ok(None)
    }
}

#[test]
fn analyzes_color_identity_counts() {
    let analyzer = Analyzer {
        card_lookup: TestLookup,
    };
    let stats = analyzer
        .analyze_text(
            "
1 Command Tower
2 Llanowar Elves
1 Boros Charm
1 Missing Card
",
        )
        .expect("deck should analyze");

    assert_eq!(stats.total_cards, 5);
    assert_eq!(stats.lands, 1);
    assert_eq!(stats.missing_cards, ["Missing Card"]);
    assert_eq!(stats.color_identity_counts.green, 2);
    assert_eq!(stats.color_identity_counts.colorless, 1);
    assert_eq!(stats.color_identity_counts.multicolor, 1);
    assert_eq!(stats.mana_curve[1], 2);
    assert_eq!(stats.mana_curve[2], 1);
    assert_eq!(stats.type_counts.creature, 2);
    assert_eq!(stats.type_counts.instant, 1);
    assert_eq!(stats.role_counts.ramp, 2);
    assert_eq!(stats.role_counts.protection, 1);
}

#[test]
fn every_card_is_a_land_a_curve_entry_or_missing() {
    let analyzer = Analyzer::new(TestLookup);
    let stats = analyzer
        .analyze_text("1 Command Tower\n2 Llanowar Elves\n1 Boros Charm\n3 Missing Card\n")
        .expect("deck should analyze");
    let curve: usize = stats.mana_curve.iter().sum();
    assert_eq!(stats.total_cards, 7);
    assert_eq!(stats.lands + curve + 3, stats.total_cards);
    let colors = &stats.color_identity_counts;
    assert_eq!(
        colors.white
            + colors.blue
            + colors.black
            + colors.red
            + colors.green
            + colors.colorless
            + colors.multicolor,
        4
    );
}

#[test]
fn missing_cards_are_listed_once_in_order() {
    let analyzer = Analyzer::new(TestLookup);
    let stats = analyzer
        .analyze_text("1 Zed\n1 Alpha\n2 Zed\n")
        .expect("deck should analyze");
    assert_eq!(stats.missing_cards, ["Zed", "Alpha"]);
    assert_eq!(stats.total_cards, 4);
}

#[test]
fn analysis_reports_deck_line_faults() {
    let analyzer = Analyzer::new(TestLookup);
    assert!(matches!(
        analyzer.analyze_text("1 Command Tower\nBroken"),
        Err(AppError::InvalidDeckLine { line_number: 2 })
    ));
    assert!(matches!(
        analyzer.analyze_text("\n\nx Command Tower"),
        Err(AppError::InvalidQuantity { line_number: 3 })
    ));
}

#[test]
fn analysis_needs_a_ready_lookup() {
    let analyzer = Analyzer::new(NotReady);
    assert!(matches!(
        analyzer.analyze_text("1 Command Tower"),
        Err(AppError::MissingCardLookup)
    ));
}

#[test]
fn statistics_from_looked_up_cards() {
    let entries = parse_decklist("4 Forest\n1 Sol Ring\n1 Unknown\n").expect("deck should read");
    let cards = vec![
        Some(CardInfo {
            type_line: Some("Basic Land - Forest".to_string()),
            cmc: Some(0),
            color_identity: Some("[\"G\"]".to_string()),
            roles: Vec::new(),
        }),
        Some(CardInfo {
            type_line: Some("Artifact".to_string()),
            cmc: Some(9),
            color_identity: None,
            roles: vec!["ramp".to_string(), "ramp".to_string(), "no_such_role".to_string()],
        }),
        None,
    ];
    let stats = DeckStats::from_cards(&entries, &cards);
    assert_eq!(stats.total_cards, 6);
    assert_eq!(stats.lands, 4);
    assert_eq!(stats.mana_curve[7], 1);
    assert_eq!(stats.type_counts.artifact, 1);
    assert_eq!(stats.type_counts.other, 0);
    assert_eq!(stats.role_counts.ramp, 1);
    assert_eq!(stats.color_identity_counts.green, 4);
    assert_eq!(stats.color_identity_counts.colorless, 0);
    assert_eq!(stats.missing_cards, ["Unknown"]);
}

#[test]
fn mana_costs_fall_in_curve_columns() {
    assert_eq!(mana_curve_bucket(None), 0);
    assert_eq!(mana_curve_bucket(Some(0)), 0);
    assert_eq!(mana_curve_bucket(Some(4)), 4);
    assert_eq!(mana_curve_bucket(Some(6)), 6);
    assert_eq!(mana_curve_bucket(Some(7)), 7);
    assert_eq!(mana_curve_bucket(Some(16)), 7);
}

#[test]
fn type_lines_count_for_each_type_they_name() {
    let mut counts = TypeCounts::default();
    counts.add("Artifact Creature - Golem", 2);
    counts.add("Kindred Instant - Elf", 1);
    counts.add("Legendary Snow", 3);
    assert_eq!(counts.creature, 2);
    assert_eq!(counts.artifact, 2);
    assert_eq!(counts.instant, 1);
    assert_eq!(counts.enchantment, 0);
    assert_eq!(counts.other, 3);
}
