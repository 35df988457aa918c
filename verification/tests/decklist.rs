use deck_analyzer::decklist::parse_decklist;
use deck_analyzer::error::AppError;

#[test]
fn parses_card_lines_and_ignores_blank_lines() {
    let entries = parse_decklist(
        "
1 Command Tower

2 Llanowar Elves
",
    )
    .expect("decklist should parse");

    assert_eq!(entries.len(), 2);
    assert_eq!(entries[0].quantity, 1);
    assert_eq!(entries[0].card_name, "Command Tower");
    assert_eq!(entries[1].quantity, 2);
    assert_eq!(entries[1].card_name, "Llanowar Elves");
}

#[test]
fn rejects_lines_without_quantity_and_name() {
    let error = parse_decklist("CommandTower").expect_err("line should fail");

    assert!(matches!(
        error,
        AppError::InvalidDeckLine { line_number: 1 }
    ));
}

#[test]
fn rejects_invalid_quantity() {
    let error = parse_decklist("1x Command Tower").expect_err("line should fail");

    assert!(matches!(
        error,
        AppError::InvalidQuantity { line_number: 1 }
    ));
}

#[test]
fn trims_whitespace_and_accepts_a_plus_sign() {
    let entries = parse_decklist("\t +3   Sol   Ring \r\n\u{3000}\n").expect("decklist should parse");
    assert_eq!(entries.len(), 1);
    assert_eq!(entries[0].quantity, 3);
    assert_eq!(entries[0].card_name, "Sol   Ring");
}

#[test]
fn rejects_overflowing_and_signed_quantities() {
    assert!(matches!(
        parse_decklist("99999999999999999999999 Forest"),
        Err(AppError::InvalidQuantity { line_number: 1 })
    ));
    assert!(matches!(
        parse_decklist("-1 Forest"),
        Err(AppError::InvalidQuantity { line_number: 1 })
    ));
    assert!(matches!(
        parse_decklist("+ Forest"),
        Err(AppError::InvalidQuantity { line_number: 1 })
    ));
}

#[test]
fn reports_the_first_faulty_line() {
    assert!(matches!(
        parse_decklist("1 Forest\n\n2 Island\nIsland\n1x Swamp"),
        Err(AppError::InvalidDeckLine { line_number: 4 })
    ));
}

#[test]
fn empty_text_has_no_entries() {
    assert_eq!(parse_decklist("").expect("empty list reads").len(), 0);
    assert_eq!(parse_decklist(" \n \n").expect("blank list reads").len(), 0);
}

#[test]
fn zero_quantities_are_read() {
    let entries = parse_decklist("0 Forest").expect("decklist should parse");
    assert_eq!(entries[0].quantity, 0);
}
