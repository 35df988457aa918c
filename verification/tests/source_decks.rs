use deck_analyzer::error::AppError;
use deck_analyzer::source_decks::{
    card_deck_counts, deck_search_query_pairs, format_moxfield_export_line, local_deck_path,
    most_common_cards, ordering_with_direction, source_deck_from_response, ArchidektCardPrint,
    ArchidektCardRow, ArchidektClient, ArchidektDeckResponse, ArchidektDeckSearchQuery,
    ArchidektOracleCard, SourceDeck, SourceDeckCard,
};
use deck_analyzer::types::CardRole;

fn empty_query() -> ArchidektDeckSearchQuery {
    ArchidektDeckSearchQuery {
        commander_name: None,
        name: None,
        owner_username: None,
        deck_format: None,
        edh_bracket: None,
        order_by: None,
        page: None,
        page_size: None,
    }
}

fn row(name: &str, quantity: usize, categories: Option<Vec<&str>>) -> ArchidektCardRow {
    ArchidektCardRow {
        quantity,
        categories: categories.map(|c| c.into_iter().map(|s| s.to_string()).collect()),
        card: ArchidektCardPrint {
            oracle_card: ArchidektOracleCard {
                name: name.to_string(),
            },
        },
    }
}

fn invalid_format_message(error: AppError) -> String {
    match error {
        AppError::InvalidSourceDeckFormat(message) => message,
        other => panic!("unexpected error {:?}", other),
    }
}

#[test]
fn archidekt_page_urls_resolve_to_api_urls() {
    let archidekt = ArchidektClient;
    let api_url = archidekt
        .deck_api_url("https://archidekt.com/decks/4772837/iron_maiden")
        .expect("archidekt page url should normalize");
    assert_eq!(api_url, "https://archidekt.com/api/decks/4772837/");

    let api_url = archidekt
        .deck_api_url("https://archidekt.com/api/decks/4772837/")
        .expect("archidekt api url should remain valid");
    assert_eq!(api_url, "https://archidekt.com/api/decks/4772837/");
}

#[test]
fn archidekt_deck_urls_without_a_numeric_id_are_rejected() {
    let archidekt = ArchidektClient;
    let message = invalid_format_message(
        archidekt
            .deck_api_url("https://archidekt.com/decks/abc/x")
            .expect_err("non numeric id"),
    );
    assert_eq!(message, "Archidekt deck URL has an invalid deck id");
    let message = invalid_format_message(
        archidekt
            .deck_api_url("https://archidekt.com/decks/")
            .expect_err("empty id"),
    );
    assert_eq!(message, "Archidekt deck URL has an invalid deck id");
    let message = invalid_format_message(
        archidekt
            .deck_api_url("https://example.com/lists/12")
            .expect_err("no deck path"),
    );
    assert_eq!(message, "Archidekt source expects a deck page URL or API deck URL");
    assert_eq!(
        archidekt.deck_api_url("https://archidekt.com/decks/12").expect("bare id"),
        "https://archidekt.com/api/decks/12/"
    );
    assert_eq!(
        archidekt.deck_api_url("file:///tmp/deck.json").expect("file url"),
        "file:///tmp/deck.json"
    );
}

#[test]
fn archidekt_deck_search_url_includes_verified_parameters() {
    let archidekt = ArchidektClient;
    let api_url = archidekt
        .deck_search_api_url(&ArchidektDeckSearchQuery {
            commander_name: Some("Sheoldred, the Apocalypse".to_string()),
            name: Some("mono black".to_string()),
            owner_username: Some("example-user".to_string()),
            deck_format: Some(3),
            edh_bracket: Some(4),
            order_by: Some("-updatedAt".to_string()),
            page: Some(2),
            page_size: Some(10),
        })
        .expect("search url should build");

    for expected in [
        "commanderName=Sheoldred%2C+the+Apocalypse",
        "name=mono+black",
        "ownerUsername=example-user",
        "deckFormat=3",
        "edhBracket=4",
        "orderBy=-updatedAt",
        "page=2",
        "pageSize=10",
    ] {
        assert!(
            api_url.contains(expected),
            "expected search url to contain {expected:?}; got {api_url}"
        );
    }
}

#[test]
fn search_parameters_skip_empty_and_absent_values() {
    let mut query = empty_query();
    query.name = Some(String::new());
    query.page = Some(0);
    query.deck_format = Some(255);
    let pairs = deck_search_query_pairs(&query);
    assert_eq!(
        pairs,
        vec![
            ("deckFormat".to_string(), "255".to_string()),
            ("page".to_string(), "0".to_string())
        ]
    );
    let url = ArchidektClient
        .deck_search_api_url(&empty_query())
        .expect("search url should build");
    assert!(url.starts_with("https://archidekt.com/api/decks/v3/"));
}

#[test]
fn formats_many_moxfield_tags_on_one_card_line() {
    let line = format_moxfield_export_line(
        "Bloom Tender",
        &[
            CardRole::Ramp,
            CardRole::Removal,
            CardRole::CardDraw,
            CardRole::Ramp,
        ],
    );
    assert_eq!(line, "1 Bloom Tender #!card_draw #!ramp #!removal");
    assert_eq!(line.lines().count(), 1);
    assert_eq!(line.matches("Bloom Tender").count(), 1);
}

#[test]
fn formats_moxfield_export_lines_without_tags() {
    let line = format_moxfield_export_line("Command Tower", &[]);
    assert_eq!(line, "1 Command Tower");
}

#[test]
fn moxfield_tags_do_not_depend_on_role_order() {
    let a = format_moxfield_export_line(
        "X",
        &[CardRole::WinCondition, CardRole::Tutor, CardRole::MassRemoval, CardRole::Protection],
    );
    let b = format_moxfield_export_line(
        "X",
        &[CardRole::Protection, CardRole::MassRemoval, CardRole::Tutor, CardRole::WinCondition, CardRole::Tutor],
    );
    assert_eq!(a, b);
    assert_eq!(a, "1 X #!mass_removal #!protection #!tutor #!win_condition");
}

#[test]
fn parses_legacy_role_strings() {
    assert_eq!(
        CardRole::from_db_value("targeted_removal"),
        Some(CardRole::Removal)
    );
    assert_eq!(
        CardRole::from_db_value("board_wipe"),
        Some(CardRole::MassRemoval)
    );
}

#[test]
fn archidekt_responses_become_source_decks() {
    let response = ArchidektDeckResponse {
        name: "Fixture".to_string(),
        cards: vec![
            row("Llanowar Elves", 2, Some(vec!["Ramp", "Creature"])),
            row("Sol Ring", 1, Some(vec![])),
            row("Forest", 30, None),
        ],
    };
    let deck = source_deck_from_response(&response, "https://archidekt.com/decks/1")
        .expect("deck should convert");
    assert_eq!(deck.name, "Fixture");
    assert_eq!(deck.source, "archidekt");
    assert_eq!(deck.source_url, "https://archidekt.com/decks/1");
    assert_eq!(deck.cards.len(), 3);
    assert_eq!(deck.cards[0].card_name, "Llanowar Elves");
    assert_eq!(deck.cards[0].quantity, 2);
    assert_eq!(deck.cards[0].category.as_deref(), Some("Ramp"));
    assert_eq!(deck.cards[1].category, None);
    assert_eq!(deck.cards[2].category, None);
    assert_eq!(deck.cards[2].quantity, 30);
}

#[test]
fn archidekt_responses_without_cards_are_rejected() {
    let response = ArchidektDeckResponse {
        name: "Empty".to_string(),
        cards: Vec::new(),
    };
    let message = invalid_format_message(
        source_deck_from_response(&response, "x").expect_err("empty deck"),
    );
    assert_eq!(message, "Archidekt deck JSON did not contain any cards");
}

#[test]
fn file_addresses_name_local_files() {
    assert_eq!(
        local_deck_path("file:///tmp/deck.json").as_deref(),
        Some("/tmp/deck.json")
    );
    assert_eq!(local_deck_path("https://archidekt.com/api/decks/1/"), None);
}

fn deck(names: &[&str]) -> SourceDeck {
    SourceDeck {
        name: "d".to_string(),
        source: "archidekt".to_string(),
        source_url: "x".to_string(),
        cards: names
            .iter()
            .map(|n| SourceDeckCard {
                card_name: n.to_string(),
                quantity: 1,
                category: None,
            })
            .collect(),
    }
}

fn pairs(items: &[(&str, usize)]) -> Vec<(String, usize)> {
    items.iter().map(|(n, c)| (n.to_string(), *c)).collect()
}

#[test]
fn cards_are_counted_once_per_deck() {
    let decks = vec![
        deck(&["Sol Ring", "Forest", "Forest"]),
        deck(&["Arcane Signet", "Sol Ring"]),
        deck(&["Sol Ring", "Forest"]),
    ];
    assert_eq!(
        card_deck_counts(&decks),
        pairs(&[("Sol Ring", 3), ("Forest", 2), ("Arcane Signet", 1)])
    );
    assert_eq!(card_deck_counts(&Vec::new()), Vec::new());
}

#[test]
fn most_common_cards_come_first_and_ties_keep_their_order() {
    let counts = pairs(&[("A", 1), ("B", 3), ("C", 2), ("D", 3), ("E", 2)]);
    assert_eq!(
        most_common_cards(&counts, 3),
        pairs(&[("B", 3), ("D", 3), ("C", 2)])
    );
    assert_eq!(
        most_common_cards(&counts, 10),
        pairs(&[("B", 3), ("D", 3), ("C", 2), ("E", 2), ("A", 1)])
    );
    assert_eq!(most_common_cards(&counts, 0), Vec::new());
    assert_eq!(most_common_cards(&Vec::new(), 4), Vec::new());
}

#[test]
fn orderings_take_the_given_direction() {
    assert_eq!(ordering_with_direction("-updatedAt", None), "-updatedAt");
    assert_eq!(ordering_with_direction("viewCount", None), "viewCount");
    assert_eq!(ordering_with_direction("viewCount", Some(true)), "-viewCount");
    assert_eq!(ordering_with_direction("-viewCount", Some(true)), "-viewCount");
    assert_eq!(ordering_with_direction("-viewCount", Some(false)), "viewCount");
    assert_eq!(ordering_with_direction("name", Some(false)), "name");
}
