//! The card database's computed columns: the roles a card plays, judged from
//! its rules text, and the JSON lists stored for colors and keywords.
use vstd::prelude::*;

use crate::error::AppError;
use crate::text::{chars_of, contains_str, has_substring, names_view};
use crate::types::CardRole;

verus! {

/// What `str::to_lowercase` returns for a text.
pub uninterp spec fn lowercase(text: Seq<char>) -> Seq<char>;

/// `str::to_lowercase`: the text with every character mapped to its Unicode
/// lowercase form; the contract names that result and says no more of it.
#[verifier::external_body]
fn lowercase_text(text: &str) -> (r: String)
    ensures
        r@ == lowercase(text@),
{
    text.to_lowercase()
}

/// The rules text searches the library.
pub open spec fn searches_library(text: Seq<char>) -> bool {
    has_substring(text, "search your library for"@)
}

/// The rules text searches the library for lands.
pub open spec fn searches_land(text: Seq<char>) -> bool {
    &&& searches_library(text)
    &&& {
        ||| has_substring(text, "land card"@)
        ||| has_substring(text, "land cards"@)
        ||| has_substring(text, "basic land"@)
    }
}

/// Ramp: a non-land card that adds mana, or that fetches a land onto the
/// battlefield or into the hand.
pub open spec fn is_ramp(is_land: bool, text: Seq<char>) -> bool {
    &&& !is_land
    &&& {
        ||| has_substring(text, "add {"@)
        ||| has_substring(text, "add one mana"@)
        ||| has_substring(text, "add two mana"@)
        ||| has_substring(text, "add three mana"@)
        ||| has_substring(text, "add x mana"@)
        ||| (searches_land(text) && (has_substring(text, "onto the battlefield"@)
            || has_substring(text, "into your hand"@)))
    }
}

/// Card draw.
pub open spec fn is_card_draw(text: Seq<char>) -> bool {
    ||| has_substring(text, "draw a card"@)
    ||| has_substring(text, "draw two cards"@)
    ||| has_substring(text, "draw three cards"@)
    ||| has_substring(text, "draw four cards"@)
    ||| has_substring(text, "draw x cards"@)
    ||| has_substring(text, "draw that many cards"@)
    ||| has_substring(text, "draw cards"@)
}

/// Mass removal: destroys, exiles, shrinks or damages every creature.
pub open spec fn is_mass_removal(text: Seq<char>) -> bool {
    ||| has_substring(text, "destroy all"@)
    ||| has_substring(text, "destroy each"@)
    ||| has_substring(text, "exile all"@)
    ||| has_substring(text, "exile each"@)
    ||| has_substring(text, "all creatures get -"@)
    ||| has_substring(text, "each creature gets -"@)
    ||| has_substring(text, "damage to each creature"@)
}

/// Targeted removal.
pub open spec fn is_removal(text: Seq<char>) -> bool {
    &&& has_substring(text, "target "@)
    &&& {
        ||| has_substring(text, "destroy target"@)
        ||| has_substring(text, "exile target"@)
        ||| has_substring(text, "counter target"@)
        ||| has_substring(text, "return target"@)
        ||| has_substring(text, "target opponent sacrifices"@)
        ||| has_substring(text, "target player sacrifices"@)
    }
}

/// The library search can find a card other than a land.
pub open spec fn searches_nonland_card(text: Seq<char>) -> bool {
    ||| has_substring(text, "nonland card"@)
    ||| has_substring(text, "creature card"@)
    ||| has_substring(text, "artifact card"@)
    ||| has_substring(text, "enchantment card"@)
    ||| has_substring(text, "instant card"@)
    ||| has_substring(text, "sorcery card"@)
    ||| has_substring(text, "planeswalker card"@)
    ||| has_substring(text, "for a card"@)
    ||| has_substring(text, "for any card"@)
}

/// Tutors: library searches for cards that need not be lands.
pub open spec fn is_tutor(text: Seq<char>) -> bool {
    &&& searches_library(text)
    &&& searches_nonland_card(text)
    &&& (!searches_land(text) || has_substring(text, "nonland"@))
}

/// Protection.
pub open spec fn is_protection(text: Seq<char>) -> bool {
    ||| has_substring(text, "gain indestructible"@)
    ||| has_substring(text, "gains indestructible"@)
    ||| has_substring(text, "have indestructible"@)
    ||| has_substring(text, "hexproof"@)
    ||| has_substring(text, "protection from"@)
    ||| has_substring(text, "prevent all damage"@)
    ||| has_substring(text, "prevent the next"@)
    ||| has_substring(text, "phase out"@)
    ||| has_substring(text, "phases out"@)
}

/// Win conditions.
pub open spec fn is_win_condition(text: Seq<char>) -> bool {
    ||| has_substring(text, "win the game"@)
    ||| has_substring(text, "opponent loses the game"@)
    ||| has_substring(text, "opponents lose the game"@)
    ||| has_substring(text, "that player loses the game"@)
}

/// `[role]` when `holds`, nothing otherwise.
pub open spec fn role_if(holds: bool, role: CardRole) -> Seq<CardRole> {
    if holds {
        seq![role]
    } else {
        Seq::empty()
    }
}

/// The roles of a card with the given type line and lowercased rules text,
/// in the order ramp, card draw, mass removal, removal, tutor, protection,
/// win condition.
pub open spec fn card_roles(type_line: Seq<char>, text: Seq<char>) -> Seq<CardRole> {
    role_if(is_ramp(has_substring(type_line, "Land"@), text), CardRole::Ramp) + role_if(
        is_card_draw(text),
        CardRole::CardDraw,
    ) + role_if(is_mass_removal(text), CardRole::MassRemoval) + role_if(
        is_removal(text),
        CardRole::Removal,
    ) + role_if(is_tutor(text), CardRole::Tutor) + role_if(is_protection(text), CardRole::Protection)
        + role_if(is_win_condition(text), CardRole::WinCondition)
}

/// The text of an optional column; a missing one reads as empty.
pub open spec fn text_or_empty(value: Option<&str>) -> Seq<char> {
    match value {
        Some(t) => t@,
        None => Seq::empty(),
    }
}

/// Whether the rules text makes a non-land card ramp.
fn ramp_text(is_land: bool, text: &Vec<char>) -> (r: bool)
    ensures
        r == is_ramp(is_land, text@),
{
    let searches = contains_str(text, "search your library for");
    let land_search = searches && (contains_str(text, "land card") || contains_str(
        text,
        "land cards",
    ) || contains_str(text, "basic land"));
    let puts_land = contains_str(text, "onto the battlefield") || contains_str(
        text,
        "into your hand",
    );
    !is_land && (contains_str(text, "add {") || contains_str(text, "add one mana")
        || contains_str(text, "add two mana") || contains_str(text, "add three mana")
        || contains_str(text, "add x mana") || (land_search && puts_land))
}

/// Whether the rules text draws cards.
fn card_draw_text(text: &Vec<char>) -> (r: bool)
    ensures
        r == is_card_draw(text@),
{
    contains_str(text, "draw a card") || contains_str(text, "draw two cards") || contains_str(
        text,
        "draw three cards",
    ) || contains_str(text, "draw four cards") || contains_str(text, "draw x cards")
        || contains_str(text, "draw that many cards") || contains_str(text, "draw cards")
}

/// Whether the rules text removes every creature.
fn mass_removal_text(text: &Vec<char>) -> (r: bool)
    ensures
        r == is_mass_removal(text@),
{
    contains_str(text, "destroy all") || contains_str(text, "destroy each") || contains_str(
        text,
        "exile all",
    ) || contains_str(text, "exile each") || contains_str(text, "all creatures get -")
        || contains_str(text, "each creature gets -") || contains_str(
        text,
        "damage to each creature",
    )
}

/// Whether the rules text removes a target.
fn removal_text(text: &Vec<char>) -> (r: bool)
    ensures
        r == is_removal(text@),
{
    contains_str(text, "target ") && (contains_str(text, "destroy target") || contains_str(
        text,
        "exile target",
    ) || contains_str(text, "counter target") || contains_str(text, "return target")
        || contains_str(text, "target opponent sacrifices") || contains_str(
        text,
        "target player sacrifices",
    ))
}

/// Whether the rules text tutors for a card that need not be a land.
fn tutor_text(text: &Vec<char>) -> (r: bool)
    ensures
        r == is_tutor(text@),
{
    let searches = contains_str(text, "search your library for");
    let land_search = searches && (contains_str(text, "land card") || contains_str(
        text,
        "land cards",
    ) || contains_str(text, "basic land"));
    let nonland_search = contains_str(text, "nonland card") || contains_str(text, "creature card")
        || contains_str(text, "artifact card") || contains_str(text, "enchantment card")
        || contains_str(text, "instant card") || contains_str(text, "sorcery card")
        || contains_str(text, "planeswalker card") || contains_str(text, "for a card")
        || contains_str(text, "for any card");
    searches && nonland_search && (!land_search || contains_str(text, "nonland"))
}

/// Whether the rules text protects.
fn protection_text(text: &Vec<char>) -> (r: bool)
    ensures
        r == is_protection(text@),
{
    contains_str(text, "gain indestructible") || contains_str(text, "gains indestructible")
        || contains_str(text, "have indestructible") || contains_str(text, "hexproof")
        || contains_str(text, "protection from") || contains_str(text, "prevent all damage")
        || contains_str(text, "prevent the next") || contains_str(text, "phase out")
        || contains_str(text, "phases out")
}

/// Whether the rules text wins the game.
fn win_condition_text(text: &Vec<char>) -> (r: bool)
    ensures
        r == is_win_condition(text@),
{
    contains_str(text, "win the game") || contains_str(text, "opponent loses the game")
        || contains_str(text, "opponents lose the game") || contains_str(
        text,
        "that player loses the game",
    )
}

/// Appends `role` to `roles` when `holds`.
fn push_role_if(roles: &mut Vec<CardRole>, holds: bool, role: CardRole)
    ensures
        final(roles)@ == old(roles)@ + role_if(holds, role),
{
    if holds {
        roles.push(role);
    }
    assert(roles@ == old(roles)@ + role_if(holds, role));
}

/// The roles of a card, from its type line and its already lowercased rules
/// text.
pub fn roles_for_lowercase_text(type_line: &str, text: &Vec<char>) -> (r: Vec<CardRole>)
    ensures
        r@ == card_roles(type_line@, text@),
{
    let t = chars_of(type_line);
    let is_land = contains_str(&t, "Land");
    let mut roles: Vec<CardRole> = Vec::new();
    assert(roles@ == Seq::<CardRole>::empty());
    push_role_if(&mut roles, ramp_text(is_land, text), CardRole::Ramp);
    push_role_if(&mut roles, card_draw_text(text), CardRole::CardDraw);
    push_role_if(&mut roles, mass_removal_text(text), CardRole::MassRemoval);
    push_role_if(&mut roles, removal_text(text), CardRole::Removal);
    push_role_if(&mut roles, tutor_text(text), CardRole::Tutor);
    push_role_if(&mut roles, protection_text(text), CardRole::Protection);
    push_role_if(&mut roles, win_condition_text(text), CardRole::WinCondition);
    assert(Seq::<CardRole>::empty() + role_if(
        is_ramp(has_substring(type_line@, "Land"@), text@),
        CardRole::Ramp,
    ) == role_if(is_ramp(has_substring(type_line@, "Land"@), text@), CardRole::Ramp));
    roles
}

/// The roles a card plays, judged from its type line and its rules text
/// read in lower case; the keywords are not consulted.
pub fn roles_for_card(
    type_line: Option<&str>,
    oracle_text: Option<&str>,
    _keywords: Option<&str>,
) -> (r: Vec<CardRole>)
    ensures
        r@ == card_roles(text_or_empty(type_line), lowercase(text_or_empty(oracle_text))),
{
    proof {
        reveal_strlit("");
    }
    assert(""@ == Seq::<char>::empty());
    let type_text: &str = match type_line {
        Some(t) => t,
        None => "",
    };
    let rules_text: &str = match oracle_text {
        Some(t) => t,
        None => "",
    };
    let lower = lowercase_text(rules_text);
    let text = chars_of(lower.as_str());
    roles_for_lowercase_text(type_text, &text)
}

/// A card never gets one role twice.
pub proof fn lemma_card_roles_distinct(type_line: Seq<char>, text: Seq<char>)
    ensures
        card_roles(type_line, text).no_duplicates(),
{
    lemma_flagged_roles_distinct(
        is_ramp(has_substring(type_line, "Land"@), text),
        is_card_draw(text),
        is_mass_removal(text),
        is_removal(text),
        is_tutor(text),
        is_protection(text),
        is_win_condition(text),
    );
}

/// The roles picked by seven flags, in rank order.
spec fn flagged_roles(a: bool, b: bool, c: bool, d: bool, e: bool, f: bool, g: bool) -> Seq<
    CardRole,
> {
    role_if(a, CardRole::Ramp) + role_if(b, CardRole::CardDraw) + role_if(
        c,
        CardRole::MassRemoval,
    ) + role_if(d, CardRole::Removal) + role_if(e, CardRole::Tutor) + role_if(
        f,
        CardRole::Protection,
    ) + role_if(g, CardRole::WinCondition)
}

/// Whatever the flags, the roles they pick are distinct.
proof fn lemma_flagged_roles_distinct(a: bool, b: bool, c: bool, d: bool, e: bool, f: bool, g: bool)
    ensures
        flagged_roles(a, b, c, d, e, f, g).no_duplicates(),
{
    let ra = role_if(a, CardRole::Ramp);
    let rb = role_if(b, CardRole::CardDraw);
    let rc = role_if(c, CardRole::MassRemoval);
    let rd = role_if(d, CardRole::Removal);
    let re = role_if(e, CardRole::Tutor);
    let rf = role_if(f, CardRole::Protection);
    let rg = role_if(g, CardRole::WinCondition);
    lemma_role_if_ranked(a, CardRole::Ramp);
    lemma_role_if_ranked(b, CardRole::CardDraw);
    lemma_role_if_ranked(c, CardRole::MassRemoval);
    lemma_role_if_ranked(d, CardRole::Removal);
    lemma_role_if_ranked(e, CardRole::Tutor);
    lemma_role_if_ranked(f, CardRole::Protection);
    lemma_role_if_ranked(g, CardRole::WinCondition);
    lemma_ranked_concat(ra, rb, 0, 1, 2);
    lemma_ranked_concat(ra + rb, rc, 0, 2, 3);
    lemma_ranked_concat(ra + rb + rc, rd, 0, 3, 4);
    lemma_ranked_concat(ra + rb + rc + rd, re, 0, 4, 5);
    lemma_ranked_concat(ra + rb + rc + rd + re, rf, 0, 5, 6);
    lemma_ranked_concat(ra + rb + rc + rd + re + rf, rg, 0, 6, 7);
    let r = flagged_roles(a, b, c, d, e, f, g);
    assert forall|i: int, j: int| 0 <= i < r.len() && 0 <= j < r.len() && i != j implies r[i]
        != r[j] by {
        if i < j {
            assert(role_rank(r[i]) < role_rank(r[j]));
        } else {
            assert(role_rank(r[j]) < role_rank(r[i]));
        }
    }
}

/// A joined sequence holds a value exactly when one of its parts does.
proof fn lemma_join_contains(x: Seq<CardRole>, y: Seq<CardRole>, v: CardRole)
    ensures
        (x + y).contains(v) <==> x.contains(v) || y.contains(v),
{
    if x.contains(v) {
        let i = choose|i: int| 0 <= i < x.len() && x[i] == v;
        assert((x + y)[i] == v);
    }
    if y.contains(v) {
        let i = choose|i: int| 0 <= i < y.len() && y[i] == v;
        assert((x + y)[x.len() + i] == v);
    }
    if (x + y).contains(v) {
        let i = choose|i: int| 0 <= i < (x + y).len() && (x + y)[i] == v;
        if i < x.len() {
            assert(x[i] == v);
        } else {
            assert(y[i - x.len()] == v);
        }
    }
}

/// The roles picked by seven flags hold a role exactly when its flag is set.
proof fn lemma_flagged_roles_contains(
    a: bool,
    b: bool,
    c: bool,
    d: bool,
    e: bool,
    f: bool,
    g: bool,
    role: CardRole,
)
    ensures
        flagged_roles(a, b, c, d, e, f, g).contains(role) <==> match role {
            CardRole::Ramp => a,
            CardRole::CardDraw => b,
            CardRole::MassRemoval => c,
            CardRole::Removal => d,
            CardRole::Tutor => e,
            CardRole::Protection => f,
            CardRole::WinCondition => g,
        },
{
    let ra = role_if(a, CardRole::Ramp);
    let rb = role_if(b, CardRole::CardDraw);
    let rc = role_if(c, CardRole::MassRemoval);
    let rd = role_if(d, CardRole::Removal);
    let re = role_if(e, CardRole::Tutor);
    let rf = role_if(f, CardRole::Protection);
    let rg = role_if(g, CardRole::WinCondition);
    let p2 = ra + rb;
    let p3 = p2 + rc;
    let p4 = p3 + rd;
    let p5 = p4 + re;
    let p6 = p5 + rf;
    let p7 = p6 + rg;
    assert(p2.contains(role) <==> ra.contains(role) || rb.contains(role)) by {
        lemma_join_contains(ra, rb, role);
    }
    assert(p3.contains(role) <==> p2.contains(role) || rc.contains(role)) by {
        lemma_join_contains(p2, rc, role);
    }
    assert(p4.contains(role) <==> p3.contains(role) || rd.contains(role)) by {
        lemma_join_contains(p3, rd, role);
    }
    assert(p5.contains(role) <==> p4.contains(role) || re.contains(role)) by {
        lemma_join_contains(p4, re, role);
    }
    assert(p6.contains(role) <==> p5.contains(role) || rf.contains(role)) by {
        lemma_join_contains(p5, rf, role);
    }
    assert(p7.contains(role) <==> p6.contains(role) || rg.contains(role)) by {
        lemma_join_contains(p6, rg, role);
    }
    assert(flagged_roles(a, b, c, d, e, f, g) == p7);
    assert(ra.contains(role) <==> a && role == CardRole::Ramp) by {
        if a { assert(ra[0] == CardRole::Ramp); }
    }
    assert(rb.contains(role) <==> b && role == CardRole::CardDraw) by {
        if b { assert(rb[0] == CardRole::CardDraw); }
    }
    assert(rc.contains(role) <==> c && role == CardRole::MassRemoval) by {
        if c { assert(rc[0] == CardRole::MassRemoval); }
    }
    assert(rd.contains(role) <==> d && role == CardRole::Removal) by {
        if d { assert(rd[0] == CardRole::Removal); }
    }
    assert(re.contains(role) <==> e && role == CardRole::Tutor) by {
        if e { assert(re[0] == CardRole::Tutor); }
    }
    assert(rf.contains(role) <==> f && role == CardRole::Protection) by {
        if f { assert(rf[0] == CardRole::Protection); }
    }
    assert(rg.contains(role) <==> g && role == CardRole::WinCondition) by {
        if g { assert(rg[0] == CardRole::WinCondition); }
    }
}

/// Which roles a card gets, phrase by phrase, for its type line and its
/// lowercased rules text:
/// - ramp: not a land, and the text adds mana (`add {`, `add one mana`,
///   `add two mana`, `add three mana`, `add x mana`), or it searches the
///   library for a land (`land card`, `land cards`, `basic land`) and puts
///   it `onto the battlefield` or `into your hand`;
/// - card draw: `draw a card`, `draw two cards`, `draw three cards`,
///   `draw four cards`, `draw x cards`, `draw that many cards`, `draw cards`;
/// - mass removal: `destroy all`, `destroy each`, `exile all`, `exile each`,
///   `all creatures get -`, `each creature gets -`, `damage to each creature`;
/// - removal: the text holds `target ` and one of `destroy target`,
///   `exile target`, `counter target`, `return target`,
///   `target opponent sacrifices`, `target player sacrifices`;
/// - tutor: it searches the library for a card that need not be a land;
/// - protection: `gain indestructible`, `gains indestructible`,
///   `have indestructible`, `hexproof`, `protection from`,
///   `prevent all damage`, `prevent the next`, `phase out`, `phases out`;
/// - win condition: `win the game`, `opponent loses the game`,
///   `opponents lose the game`, `that player loses the game`.
pub proof fn lemma_roles_by_phrases(type_line: Seq<char>, text: Seq<char>)
    ensures
        card_roles(type_line, text).contains(CardRole::Ramp) <==> !has_substring(type_line, "Land"@)
            && (has_substring(text, "add {"@) || has_substring(text, "add one mana"@)
            || has_substring(text, "add two mana"@) || has_substring(text, "add three mana"@)
            || has_substring(text, "add x mana"@) || (has_substring(
            text,
            "search your library for"@,
        ) && (has_substring(text, "land card"@) || has_substring(text, "land cards"@)
            || has_substring(text, "basic land"@)) && (has_substring(text, "onto the battlefield"@)
            || has_substring(text, "into your hand"@)))),
        card_roles(type_line, text).contains(CardRole::CardDraw) <==> has_substring(
            text,
            "draw a card"@,
        ) || has_substring(text, "draw two cards"@) || has_substring(text, "draw three cards"@)
            || has_substring(text, "draw four cards"@) || has_substring(text, "draw x cards"@)
            || has_substring(text, "draw that many cards"@) || has_substring(text, "draw cards"@),
        card_roles(type_line, text).contains(CardRole::MassRemoval) <==> has_substring(
            text,
            "destroy all"@,
        ) || has_substring(text, "destroy each"@) || has_substring(text, "exile all"@)
            || has_substring(text, "exile each"@) || has_substring(text, "all creatures get -"@)
            || has_substring(text, "each creature gets -"@) || has_substring(
            text,
            "damage to each creature"@,
        ),
        card_roles(type_line, text).contains(CardRole::Removal) <==> has_substring(text, "target "@)
            && (has_substring(text, "destroy target"@) || has_substring(text, "exile target"@)
            || has_substring(text, "counter target"@) || has_substring(text, "return target"@)
            || has_substring(text, "target opponent sacrifices"@) || has_substring(
            text,
            "target player sacrifices"@,
        )),
        card_roles(type_line, text).contains(CardRole::Tutor) <==> has_substring(
            text,
            "search your library for"@,
        ) && (has_substring(text, "nonland card"@) || has_substring(text, "creature card"@)
            || has_substring(text, "artifact card"@) || has_substring(text, "enchantment card"@)
            || has_substring(text, "instant card"@) || has_substring(text, "sorcery card"@)
            || has_substring(text, "planeswalker card"@) || has_substring(text, "for a card"@)
            || has_substring(text, "for any card"@)) && (!(has_substring(text, "land card"@)
            || has_substring(text, "land cards"@) || has_substring(text, "basic land"@))
            || has_substring(text, "nonland"@)),
        card_roles(type_line, text).contains(CardRole::Protection) <==> has_substring(
            text,
            "gain indestructible"@,
        ) || has_substring(text, "gains indestructible"@) || has_substring(
            text,
            "have indestructible"@,
        ) || has_substring(text, "hexproof"@) || has_substring(text, "protection from"@)
            || has_substring(text, "prevent all damage"@) || has_substring(text, "prevent the next"@)
            || has_substring(text, "phase out"@) || has_substring(text, "phases out"@),
        card_roles(type_line, text).contains(CardRole::WinCondition) <==> has_substring(
            text,
            "win the game"@,
        ) || has_substring(text, "opponent loses the game"@) || has_substring(
            text,
            "opponents lose the game"@,
        ) || has_substring(text, "that player loses the game"@),
{
    let a = is_ramp(has_substring(type_line, "Land"@), text);
    let b = is_card_draw(text);
    let c = is_mass_removal(text);
    let d = is_removal(text);
    let e = is_tutor(text);
    let f = is_protection(text);
    let g = is_win_condition(text);
    assert(card_roles(type_line, text) == flagged_roles(a, b, c, d, e, f, g));
    lemma_flagged_roles_contains(a, b, c, d, e, f, g, CardRole::Ramp);
    lemma_flagged_roles_contains(a, b, c, d, e, f, g, CardRole::CardDraw);
    lemma_flagged_roles_contains(a, b, c, d, e, f, g, CardRole::MassRemoval);
    lemma_flagged_roles_contains(a, b, c, d, e, f, g, CardRole::Removal);
    lemma_flagged_roles_contains(a, b, c, d, e, f, g, CardRole::Tutor);
    lemma_flagged_roles_contains(a, b, c, d, e, f, g, CardRole::Protection);
    lemma_flagged_roles_contains(a, b, c, d, e, f, g, CardRole::WinCondition);
}

/// The roles in `s` come in strictly increasing rank, every rank in
/// `lo..hi`.
pub open spec fn ranked(s: Seq<CardRole>, lo: int, hi: int) -> bool {
    &&& forall|i: int, j: int|
        0 <= i < j < s.len() ==> role_rank(#[trigger] s[i]) < role_rank(#[trigger] s[j])
    &&& forall|i: int| 0 <= i < s.len() ==> lo <= #[trigger] role_rank(s[i]) && role_rank(s[i]) < hi
}

/// A single optional role is ranked by its own rank.
proof fn lemma_role_if_ranked(holds: bool, role: CardRole)
    ensures
        ranked(role_if(holds, role), role_rank(role), role_rank(role) + 1),
{
}

/// Ranked runs with ranks in adjacent ranges stay ranked when joined.
proof fn lemma_ranked_concat(x: Seq<CardRole>, y: Seq<CardRole>, lo: int, mid: int, hi: int)
    requires
        lo <= mid <= hi,
        ranked(x, lo, mid),
        ranked(y, mid, hi),
    ensures
        ranked(x + y, lo, hi),
{
    let z = x + y;
    assert forall|i: int| 0 <= i < z.len() implies lo <= #[trigger] role_rank(z[i]) && role_rank(
        z[i],
    ) < hi by {
        if i < x.len() {
            assert(z[i] == x[i]);
            assert(lo <= role_rank(x[i]) < mid);
        } else {
            assert(z[i] == y[i - x.len()]);
            assert(mid <= role_rank(y[i - x.len()]) < hi);
        }
    }
    assert forall|i: int, j: int| 0 <= i < j < z.len() implies role_rank(#[trigger] z[i])
        < role_rank(#[trigger] z[j]) by {
        if j < x.len() {
            assert(z[i] == x[i] && z[j] == x[j]);
        } else if i >= x.len() {
            assert(z[i] == y[i - x.len()] && z[j] == y[j - x.len()]);
        } else {
            assert(z[i] == x[i] && z[j] == y[j - x.len()]);
            assert(role_rank(x[i]) < mid);
            assert(mid <= role_rank(y[j - x.len()]));
        }
    }
}

/// The place of each role in the order `card_roles` lists them.
pub open spec fn role_rank(role: CardRole) -> int {
    match role {
        CardRole::Ramp => 0,
        CardRole::CardDraw => 1,
        CardRole::MassRemoval => 2,
        CardRole::Removal => 3,
        CardRole::Tutor => 4,
        CardRole::Protection => 5,
        CardRole::WinCondition => 6,
    }
}

/// The lowercase hexadecimal digit for `d` in `0..16`.
pub open spec fn hex_digit(d: int) -> char {
    if d < 10 {
        (d + 48) as char
    } else {
        (d + 87) as char
    }
}

/// How a JSON string literal writes the character `c`: quote and backslash
/// escaped, the control characters as `\b \t \n \f \r` or `\u00xx`, every
/// other character as itself.
pub open spec fn json_escape(c: char) -> Seq<char> {
    let n = c as u32;
    if c == '"' {
        seq!['\\', '"']
    } else if c == '\\' {
        seq!['\\', '\\']
    } else if n == 0x08 {
        seq!['\\', 'b']
    } else if n == 0x09 {
        seq!['\\', 't']
    } else if n == 0x0A {
        seq!['\\', 'n']
    } else if n == 0x0C {
        seq!['\\', 'f']
    } else if n == 0x0D {
        seq!['\\', 'r']
    } else if n < 0x20 {
        seq!['\\', 'u', '0', '0', hex_digit((n / 16) as int), hex_digit((n % 16) as int)]
    } else {
        seq![c]
    }
}

/// The escaped characters of `s`.
pub open spec fn json_escaped(s: Seq<char>) -> Seq<char>
    decreases s.len(),
{
    if s.len() == 0 {
        Seq::empty()
    } else {
        json_escaped(s.drop_last()) + json_escape(s.last())
    }
}

/// The JSON string literal for `s`.
pub open spec fn json_string(s: Seq<char>) -> Seq<char> {
    seq!['"'] + json_escaped(s) + seq!['"']
}

/// The JSON string literals of `items`, separated by commas.
pub open spec fn json_items(items: Seq<Seq<char>>) -> Seq<char>
    decreases items.len(),
{
    if items.len() == 0 {
        Seq::empty()
    } else if items.len() == 1 {
        json_string(items[0])
    } else {
        json_items(items.drop_last()) + seq![','] + json_string(items.last())
    }
}

/// The compact JSON array of the strings `items`, as stored in the colors,
/// color identity and keywords columns.
pub open spec fn json_string_list(items: Seq<Seq<char>>) -> Seq<char> {
    seq!['['] + json_items(items) + seq![']']
}

/// `serde_json::to_string` on a list of strings. Its documentation says
/// that serialization fails only where a value's `Serialize` impl fails or a
/// map has keys that are not strings; a list of strings has neither, so the
/// call succeeds, with the compact JSON array of the strings.
#[verifier::external_body]
fn json_list_text(values: &Vec<String>) -> (r: Result<String, serde_json::Error>)
    ensures
        r is Ok,
        r matches Ok(text) ==> text@ == json_string_list(names_view(values@)),
{
    serde_json::to_string(values)
}

/// The stored text of an optional list column: its JSON array, or `[]` when
/// the card has no such list.
pub fn json_list_column(values: &Option<Vec<String>>) -> (r: Result<String, AppError>)
    ensures
        r matches Ok(text) && text@ == match values {
            None => seq!['[', ']'],
            Some(v) => json_string_list(names_view(v@)),
        },
{
    match values {
        None => {
            proof {
                reveal_strlit("[]");
            }
            let text = "[]".to_string();
            assert(text@ == seq!['[', ']']);
            Ok(text)
        },
        Some(v) => match json_list_text(v) {
            Ok(text) => Ok(text),
            Err(e) => Err(AppError::Json(e)),
        },
    }
}

} // verus!
