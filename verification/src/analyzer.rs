//! Deck statistics and commander deck checks over a card lookup.
use vstd::prelude::*;

use crate::decklist::{
    entries_view, lemma_prepend_twice, lemma_quantity_sum_concat, lemma_quantity_sum_prefix,
    lemma_quantity_sum_single, lemma_read_deck_prefix, next_deck_line, prepend, quantity_sum, read_deck, read_deck_text,
    readable_prefix, DeckEntry, ParsedLine,
};
use crate::error::AppError;
use crate::text::{chars_of, contains_name, contains_str, has_substring, names_view, same_text};
use crate::types::{role_from_name, CardRole};

verus! {

/// Where card facts come from: a card database or anything standing in for
/// one.
pub trait CardLookup {
    /// Fails when the card data cannot be used.
    fn ensure_ready(&self) -> Result<(), AppError>;

    /// The facts about the card with this name, if it is known.
    fn lookup_card(&self, card_name: &str) -> Result<Option<CardInfo>, AppError>;
}

/// What the statistics need to know about one card.
pub struct CardInfo {
    /// The type line, such as `Artifact Creature - Golem`.
    pub type_line: Option<String>,
    /// The converted mana cost rounded down; `None` when it is unknown or
    /// negative.
    pub cmc: Option<u64>,
    /// The color identity as a JSON list of color letters, such as `["R","W"]`.
    pub color_identity: Option<String>,
    /// The names of the roles the card plays, such as `ramp`.
    pub roles: Vec<String>,
}

/// The facts of a card as values.
pub struct CardFacts {
    pub type_line: Seq<char>,
    pub cmc: Option<u64>,
    pub color_identity: Option<Seq<char>>,
    pub roles: Seq<Seq<char>>,
}

impl View for CardInfo {
    type V = CardFacts;

    /// A missing type line counts as an empty one.
    open spec fn view(&self) -> CardFacts {
        CardFacts {
            type_line: match self.type_line {
                Some(t) => t@,
                None => Seq::empty(),
            },
            cmc: self.cmc,
            color_identity: match self.color_identity {
                Some(c) => Some(c@),
                None => None,
            },
            roles: names_view(self.roles@),
        }
    }
}

/// What a lookup found, as facts.
pub open spec fn found_facts(card: Option<CardInfo>) -> Option<CardFacts> {
    match card {
        Some(info) => Some(info@),
        None => None,
    }
}

/// The looked-up facts of a run of cards.
pub open spec fn cards_view(cards: Seq<Option<CardInfo>>) -> Seq<Option<CardFacts>> {
    cards.map_values(|c: Option<CardInfo>| found_facts(c))
}

/// Lands are the cards whose type line says `Land`.
pub open spec fn is_land(card: CardFacts) -> bool {
    has_substring(card.type_line, "Land"@)
}

/// The mana curve column of a converted mana cost: 0 to 6, and 7 for 7 or
/// more; unknown costs count as 0.
pub open spec fn curve_bucket(cmc: Option<u64>) -> int {
    match cmc {
        Some(c) => if c >= 7 {
            7
        } else {
            c as int
        },
        None => 0,
    }
}

/// The type line names at least one of the counted card types.
pub open spec fn has_counted_type(type_line: Seq<char>) -> bool {
    ||| has_substring(type_line, "Creature"@)
    ||| has_substring(type_line, "Artifact"@)
    ||| has_substring(type_line, "Enchantment"@)
    ||| has_substring(type_line, "Instant"@)
    ||| has_substring(type_line, "Sorcery"@)
    ||| has_substring(type_line, "Planeswalker"@)
    ||| has_substring(type_line, "Battle"@)
}

/// The color identity lists the color whose quoted letter is `letter`.
pub open spec fn has_color(card: CardFacts, letter: Seq<char>) -> bool {
    match card.color_identity {
        Some(ci) => has_substring(ci, letter),
        None => false,
    }
}

/// The quoted letters of the five colors, in the order white, blue, black,
/// red, green.
pub open spec fn color_letter(i: int) -> Seq<char> {
    if i == 0 {
        "\"W\""@
    } else if i == 1 {
        "\"U\""@
    } else if i == 2 {
        "\"B\""@
    } else if i == 3 {
        "\"R\""@
    } else {
        "\"G\""@
    }
}

/// How many of the five colors the card's identity lists.
pub open spec fn color_count(card: CardFacts) -> int {
    (if has_color(card, color_letter(0)) {
        1int
    } else {
        0int
    }) + (if has_color(card, color_letter(1)) {
        1int
    } else {
        0int
    }) + (if has_color(card, color_letter(2)) {
        1int
    } else {
        0int
    }) + (if has_color(card, color_letter(3)) {
        1int
    } else {
        0int
    }) + (if has_color(card, color_letter(4)) {
        1int
    } else {
        0int
    })
}

/// Where a card goes in the color identity counts.
pub enum ColorClass {
    Mono(int),
    Colorless,
    Multicolor,
    Unknown,
}

/// Cards without color identity data are not counted; the others are
/// colorless, of one color (0 white to 4 green), or multicolor.
pub open spec fn color_class(card: CardFacts) -> ColorClass {
    if card.color_identity is None {
        ColorClass::Unknown
    } else if color_count(card) == 0 {
        ColorClass::Colorless
    } else if color_count(card) >= 2 {
        ColorClass::Multicolor
    } else if has_color(card, color_letter(0)) {
        ColorClass::Mono(0)
    } else if has_color(card, color_letter(1)) {
        ColorClass::Mono(1)
    } else if has_color(card, color_letter(2)) {
        ColorClass::Mono(2)
    } else if has_color(card, color_letter(3)) {
        ColorClass::Mono(3)
    } else {
        ColorClass::Mono(4)
    }
}

/// The card's role names include one that stands for `role`.
pub open spec fn has_role(card: CardFacts, role: CardRole) -> bool {
    exists|j: int| 0 <= j < card.roles.len() && role_from_name(#[trigger] card.roles[j]) == Some(role)
}

/// A test on one deck entry and what the lookup found for it.
pub type EntryTest = spec_fn((usize, Seq<char>), Option<CardFacts>) -> bool;

/// The number of cards in the entries that pass `test`, each entry weighed
/// by its quantity.
pub open spec fn tally(
    entries: Seq<(usize, Seq<char>)>,
    cards: Seq<Option<CardFacts>>,
    test: EntryTest,
) -> int
    decreases entries.len(),
{
    if entries.len() == 0 {
        0
    } else {
        let k = entries.len() - 1;
        tally(entries.take(k), cards.take(k), test) + if test(entries[k], cards[k]) {
            entries[k].0 as int
        } else {
            0
        }
    }
}

/// The card names of the entries that pass `test`, each once, in the order
/// of their first passing entry.
pub open spec fn first_names(
    entries: Seq<(usize, Seq<char>)>,
    cards: Seq<Option<CardFacts>>,
    test: EntryTest,
) -> Seq<Seq<char>>
    decreases entries.len(),
{
    if entries.len() == 0 {
        Seq::empty()
    } else {
        let k = entries.len() - 1;
        let earlier = first_names(entries.take(k), cards.take(k), test);
        if test(entries[k], cards[k]) && !earlier.contains(entries[k].1) {
            earlier.push(entries[k].1)
        } else {
            earlier
        }
    }
}

/// Found lands.
pub open spec fn counts_as_land(card: Option<CardFacts>) -> bool {
    card matches Some(c) && is_land(c)
}

/// Found cards that are no lands.
pub open spec fn counts_as_spell(card: Option<CardFacts>) -> bool {
    card matches Some(c) && !is_land(c)
}

/// Found non-land cards in mana curve column `bucket`.
pub open spec fn counts_in_curve(card: Option<CardFacts>, bucket: int) -> bool {
    card matches Some(c) && !is_land(c) && curve_bucket(c.cmc) == bucket
}

/// Found non-land cards whose type line names `word`.
pub open spec fn counts_as_type(card: Option<CardFacts>, word: Seq<char>) -> bool {
    card matches Some(c) && !is_land(c) && has_substring(c.type_line, word)
}

/// Found non-land cards of none of the counted types.
pub open spec fn counts_as_other_type(card: Option<CardFacts>) -> bool {
    card matches Some(c) && !is_land(c) && !has_counted_type(c.type_line)
}

/// Found cards of the given color class.
pub open spec fn counts_in_color_class(card: Option<CardFacts>, class: ColorClass) -> bool {
    card matches Some(c) && color_class(c) == class
}

/// Found cards that play `role`.
pub open spec fn counts_for_role(card: Option<CardFacts>, role: CardRole) -> bool {
    card matches Some(c) && has_role(c, role)
}

/// The cards that the lookup did not find.
pub open spec fn counts_as_missing(card: Option<CardFacts>) -> bool {
    card is None
}

/// Counts of non-land cards by card type; a card of several types counts
/// for each.
pub struct TypeCounts {
    pub creature: usize,
    pub artifact: usize,
    pub enchantment: usize,
    pub instant: usize,
    pub sorcery: usize,
    pub planeswalker: usize,
    pub battle: usize,
    pub other: usize,
}

/// Counts of found cards by color identity.
pub struct ColorIdentityCounts {
    pub white: usize,
    pub blue: usize,
    pub black: usize,
    pub red: usize,
    pub green: usize,
    pub colorless: usize,
    pub multicolor: usize,
}

/// Counts of found cards by role.
pub struct RoleCounts {
    pub ramp: usize,
    pub card_draw: usize,
    pub removal: usize,
    pub mass_removal: usize,
    pub tutor: usize,
    pub protection: usize,
    pub win_condition: usize,
}

/// The statistics of a deck.
pub struct DeckStats {
    /// All cards of the deck list.
    pub total_cards: usize,
    /// Found lands.
    pub lands: usize,
    /// The names of the cards the lookup did not find, each once.
    pub missing_cards: Vec<String>,
    /// Found non-land cards by converted mana cost: 0 to 6, then 7 or more.
    pub mana_curve: [usize; 8],
    pub type_counts: TypeCounts,
    pub color_identity_counts: ColorIdentityCounts,
    pub role_counts: RoleCounts,
}

/// The type counts of the entries and their cards.
pub open spec fn type_counts_match(
    t: TypeCounts,
    entries: Seq<(usize, Seq<char>)>,
    cards: Seq<Option<CardFacts>>,
) -> bool {
    &&& t.creature == tally(entries, cards, |e, c| counts_as_type(c, "Creature"@))
    &&& t.artifact == tally(entries, cards, |e, c| counts_as_type(c, "Artifact"@))
    &&& t.enchantment == tally(entries, cards, |e, c| counts_as_type(c, "Enchantment"@))
    &&& t.instant == tally(entries, cards, |e, c| counts_as_type(c, "Instant"@))
    &&& t.sorcery == tally(entries, cards, |e, c| counts_as_type(c, "Sorcery"@))
    &&& t.planeswalker == tally(entries, cards, |e, c| counts_as_type(c, "Planeswalker"@))
    &&& t.battle == tally(entries, cards, |e, c| counts_as_type(c, "Battle"@))
    &&& t.other == tally(entries, cards, |e, c| counts_as_other_type(c))
}

/// The color identity counts of the entries and their cards.
pub open spec fn color_counts_match(
    t: ColorIdentityCounts,
    entries: Seq<(usize, Seq<char>)>,
    cards: Seq<Option<CardFacts>>,
) -> bool {
    &&& t.white == tally(entries, cards, |e, c| counts_in_color_class(c, ColorClass::Mono(0)))
    &&& t.blue == tally(entries, cards, |e, c| counts_in_color_class(c, ColorClass::Mono(1)))
    &&& t.black == tally(entries, cards, |e, c| counts_in_color_class(c, ColorClass::Mono(2)))
    &&& t.red == tally(entries, cards, |e, c| counts_in_color_class(c, ColorClass::Mono(3)))
    &&& t.green == tally(entries, cards, |e, c| counts_in_color_class(c, ColorClass::Mono(4)))
    &&& t.colorless == tally(entries, cards, |e, c| counts_in_color_class(c, ColorClass::Colorless))
    &&& t.multicolor == tally(
        entries,
        cards,
        |e, c| counts_in_color_class(c, ColorClass::Multicolor),
    )
}

/// The role counts of the entries and their cards.
pub open spec fn role_counts_match(
    t: RoleCounts,
    entries: Seq<(usize, Seq<char>)>,
    cards: Seq<Option<CardFacts>>,
) -> bool {
    &&& t.ramp == tally(entries, cards, |e, c| counts_for_role(c, CardRole::Ramp))
    &&& t.card_draw == tally(entries, cards, |e, c| counts_for_role(c, CardRole::CardDraw))
    &&& t.removal == tally(entries, cards, |e, c| counts_for_role(c, CardRole::Removal))
    &&& t.mass_removal == tally(entries, cards, |e, c| counts_for_role(c, CardRole::MassRemoval))
    &&& t.tutor == tally(entries, cards, |e, c| counts_for_role(c, CardRole::Tutor))
    &&& t.protection == tally(entries, cards, |e, c| counts_for_role(c, CardRole::Protection))
    &&& t.win_condition == tally(entries, cards, |e, c| counts_for_role(c, CardRole::WinCondition))
}

/// `stats` are the statistics of the deck entries `entries` whose lookups
/// found `cards`.
pub open spec fn stats_match(
    stats: DeckStats,
    entries: Seq<(usize, Seq<char>)>,
    cards: Seq<Option<CardFacts>>,
) -> bool {
    &&& stats.total_cards == quantity_sum(entries)
    &&& stats.lands == tally(entries, cards, |e, c| counts_as_land(c))
    &&& names_view(stats.missing_cards@) == first_names(entries, cards, |e, c| counts_as_missing(c))
    &&& forall|b: int|
        0 <= b < 8 ==> #[trigger] stats.mana_curve@[b] == tally(
            entries,
            cards,
            |e, c| counts_in_curve(c, b),
        )
    &&& type_counts_match(stats.type_counts, entries, cards)
    &&& color_counts_match(stats.color_identity_counts, entries, cards)
    &&& role_counts_match(stats.role_counts, entries, cards)
}

/// `stats` are the statistics of the deck entries `entries` for what some
/// lookup found for each of them.
pub open spec fn stats_of_some_lookup(stats: DeckStats, entries: Seq<(usize, Seq<char>)>) -> bool {
    exists|cards: Seq<Option<CardFacts>>|
        cards.len() == entries.len() && #[trigger] stats_match(stats, entries, cards)
}

/// No count of `stats` exceeds its card total.
pub open spec fn stats_bounded(stats: DeckStats) -> bool {
    let n = stats.total_cards;
    &&& stats.lands <= n
    &&& forall|b: int| 0 <= b < 8 ==> #[trigger] stats.mana_curve@[b] <= n
    &&& stats.type_counts.creature <= n
    &&& stats.type_counts.artifact <= n
    &&& stats.type_counts.enchantment <= n
    &&& stats.type_counts.instant <= n
    &&& stats.type_counts.sorcery <= n
    &&& stats.type_counts.planeswalker <= n
    &&& stats.type_counts.battle <= n
    &&& stats.type_counts.other <= n
    &&& stats.color_identity_counts.white <= n
    &&& stats.color_identity_counts.blue <= n
    &&& stats.color_identity_counts.black <= n
    &&& stats.color_identity_counts.red <= n
    &&& stats.color_identity_counts.green <= n
    &&& stats.color_identity_counts.colorless <= n
    &&& stats.color_identity_counts.multicolor <= n
    &&& stats.role_counts.ramp <= n
    &&& stats.role_counts.card_draw <= n
    &&& stats.role_counts.removal <= n
    &&& stats.role_counts.mass_removal <= n
    &&& stats.role_counts.tutor <= n
    &&& stats.role_counts.protection <= n
    &&& stats.role_counts.win_condition <= n
}

/// `found` is an answer that `lookup` gave when asked for the card named
/// `name`.
pub open spec fn lookup_answers<L: CardLookup>(
    lookup: &L,
    name: Seq<char>,
    found: Option<CardInfo>,
) -> bool {
    exists|s: &str|
        s@ == name && #[trigger] call_ensures(
            L::lookup_card,
            (lookup, s),
            Ok::<Option<CardInfo>, AppError>(found),
        )
}

/// `lookup` reported itself ready.
pub open spec fn lookup_was_ready<L: CardLookup>(lookup: &L) -> bool {
    call_ensures(L::ensure_ready, (lookup,), Ok::<(), AppError>(()))
}

/// `stats` are the statistics of `entries` for answers that `lookup` gave,
/// each entry's card asked for by the entry's name.
pub open spec fn stats_by_lookup<L: CardLookup>(
    stats: DeckStats,
    lookup: &L,
    entries: Seq<(usize, Seq<char>)>,
) -> bool {
    exists|cards: Seq<Option<CardInfo>>|
        #[trigger] cards.len() == entries.len() && (forall|k: int|
            0 <= k < entries.len() ==> lookup_answers(lookup, entries[k].1, #[trigger] cards[k]))
            && stats_match(stats, entries, cards_view(cards))
}

/// Adding an entry at the end adds its quantity when it passes the test.
pub proof fn lemma_tally_push(
    entries: Seq<(usize, Seq<char>)>,
    cards: Seq<Option<CardFacts>>,
    test: EntryTest,
    entry: (usize, Seq<char>),
    card: Option<CardFacts>,
)
    requires
        entries.len() == cards.len(),
    ensures
        tally(entries.push(entry), cards.push(card), test) == tally(entries, cards, test) + if test(
            entry,
            card,
        ) {
            entry.0 as int
        } else {
            0
        },
        first_names(entries.push(entry), cards.push(card), test) == if test(entry, card)
            && !first_names(entries, cards, test).contains(entry.1) {
            first_names(entries, cards, test).push(entry.1)
        } else {
            first_names(entries, cards, test)
        },
{
    let k = entries.len() as int;
    assert(entries.push(entry).take(k) == entries);
    assert(cards.push(card).take(k) == cards);
}

/// The mana curve column of a converted mana cost.
pub fn mana_curve_bucket(cmc: Option<u64>) -> (r: usize)
    ensures
        r == curve_bucket(cmc),
        r < 8,
{
    match cmc {
        Some(c) => if c >= 7 {
            7
        } else {
            c as usize
        },
        None => 0,
    }
}

impl TypeCounts {
    /// Counts `quantity` cards of the given type line: once for each counted
    /// type it names, or as `other` when it names none.
    pub fn add(&mut self, type_line: &str, quantity: usize)
        requires
            old(self).creature + quantity <= usize::MAX,
            old(self).artifact + quantity <= usize::MAX,
            old(self).enchantment + quantity <= usize::MAX,
            old(self).instant + quantity <= usize::MAX,
            old(self).sorcery + quantity <= usize::MAX,
            old(self).planeswalker + quantity <= usize::MAX,
            old(self).battle + quantity <= usize::MAX,
            old(self).other + quantity <= usize::MAX,
        ensures
            final(self).creature == old(self).creature + if has_substring(
                type_line@,
                "Creature"@,
            ) {
                quantity
            } else {
                0
            },
            final(self).artifact == old(self).artifact + if has_substring(
                type_line@,
                "Artifact"@,
            ) {
                quantity
            } else {
                0
            },
            final(self).enchantment == old(self).enchantment + if has_substring(
                type_line@,
                "Enchantment"@,
            ) {
                quantity
            } else {
                0
            },
            final(self).instant == old(self).instant + if has_substring(type_line@, "Instant"@) {
                quantity
            } else {
                0
            },
            final(self).sorcery == old(self).sorcery + if has_substring(type_line@, "Sorcery"@) {
                quantity
            } else {
                0
            },
            final(self).planeswalker == old(self).planeswalker + if has_substring(
                type_line@,
                "Planeswalker"@,
            ) {
                quantity
            } else {
                0
            },
            final(self).battle == old(self).battle + if has_substring(type_line@, "Battle"@) {
                quantity
            } else {
                0
            },
            final(self).other == old(self).other + if has_counted_type(type_line@) {
                0
            } else {
                quantity
            },
    {
        let t = chars_of(type_line);
        let mut matched = false;
        if contains_str(&t, "Creature") {
            self.creature = self.creature + quantity;
            matched = true;
        }
        if contains_str(&t, "Artifact") {
            self.artifact = self.artifact + quantity;
            matched = true;
        }
        if contains_str(&t, "Enchantment") {
            self.enchantment = self.enchantment + quantity;
            matched = true;
        }
        if contains_str(&t, "Instant") {
            self.instant = self.instant + quantity;
            matched = true;
        }
        if contains_str(&t, "Sorcery") {
            self.sorcery = self.sorcery + quantity;
            matched = true;
        }
        if contains_str(&t, "Planeswalker") {
            self.planeswalker = self.planeswalker + quantity;
            matched = true;
        }
        if contains_str(&t, "Battle") {
            self.battle = self.battle + quantity;
            matched = true;
        }
        if !matched {
            self.other = self.other + quantity;
        }
    }
}

impl Default for TypeCounts {
    fn default() -> (r: Self)
        ensures
            r.creature == 0 && r.artifact == 0 && r.enchantment == 0 && r.instant == 0
                && r.sorcery == 0 && r.planeswalker == 0 && r.battle == 0 && r.other == 0,
    {
        TypeCounts {
            creature: 0,
            artifact: 0,
            enchantment: 0,
            instant: 0,
            sorcery: 0,
            planeswalker: 0,
            battle: 0,
            other: 0,
        }
    }
}

impl Default for ColorIdentityCounts {
    fn default() -> (r: Self)
        ensures
            r.white == 0 && r.blue == 0 && r.black == 0 && r.red == 0 && r.green == 0
                && r.colorless == 0 && r.multicolor == 0,
    {
        ColorIdentityCounts {
            white: 0,
            blue: 0,
            black: 0,
            red: 0,
            green: 0,
            colorless: 0,
            multicolor: 0,
        }
    }
}

impl Default for RoleCounts {
    fn default() -> (r: Self)
        ensures
            r.ramp == 0 && r.card_draw == 0 && r.removal == 0 && r.mass_removal == 0 && r.tutor
                == 0 && r.protection == 0 && r.win_condition == 0,
    {
        RoleCounts {
            ramp: 0,
            card_draw: 0,
            removal: 0,
            mass_removal: 0,
            tutor: 0,
            protection: 0,
            win_condition: 0,
        }
    }
}

impl Default for DeckStats {
    /// The statistics of an empty deck.
    fn default() -> (r: Self)
        ensures
            stats_match(r, Seq::empty(), Seq::empty()),
            stats_bounded(r),
    {
        let r = DeckStats {
            total_cards: 0,
            lands: 0,
            missing_cards: Vec::new(),
            mana_curve: [0, 0, 0, 0, 0, 0, 0, 0],
            type_counts: TypeCounts::default(),
            color_identity_counts: ColorIdentityCounts::default(),
            role_counts: RoleCounts::default(),
        };
        assert(names_view(r.missing_cards@) == Seq::<Seq<char>>::empty());
        r
    }
}

/// Whether a card's role names include one that stands for `role`.
fn lists_role(roles: &Vec<String>, role: CardRole) -> (r: bool)
    ensures
        r == exists|j: int|
            0 <= j < names_view(roles@).len() && role_from_name(#[trigger] names_view(roles@)[j])
                == Some(role),
{
    let mut i: usize = 0;
    while i < roles.len()
        invariant
            i <= roles.len(),
            forall|j: int| 0 <= j < i ==> role_from_name(#[trigger] names_view(roles@)[j]) != Some(role),
        decreases roles.len() - i,
    {
        assert(names_view(roles@)[i as int] == roles@[i as int]@);
        match CardRole::from_db_value(roles[i].as_str()) {
            Some(r) => {
                if r == role {
                    return true;
                }
            },
            None => {},
        }
        i = i + 1;
    }
    false
}

/// Which of the five colors a color identity lists.
fn color_flags(color_identity: &Option<String>) -> (r: [bool; 5])
    ensures
        forall|i: int|
            0 <= i < 5 ==> #[trigger] r@[i] == match color_identity {
                Some(ci) => has_substring(ci@, color_letter(i)),
                None => false,
            },
{
    match color_identity {
        Some(ci) => {
            let c = chars_of(ci.as_str());
            let r = [
                contains_str(&c, "\"W\""),
                contains_str(&c, "\"U\""),
                contains_str(&c, "\"B\""),
                contains_str(&c, "\"R\""),
                contains_str(&c, "\"G\""),
            ];
            r
        },
        None => [false, false, false, false, false],
    }
}

/// How the type counts change when `quantity` copies of the found card
/// `card` are counted.
pub open spec fn type_counts_step(
    before: TypeCounts,
    after: TypeCounts,
    quantity: int,
    card: Option<CardFacts>,
) -> bool {
    &&& after.creature == before.creature + if counts_as_type(card, "Creature"@) {
        quantity
    } else {
        0
    }
    &&& after.artifact == before.artifact + if counts_as_type(card, "Artifact"@) {
        quantity
    } else {
        0
    }
    &&& after.enchantment == before.enchantment + if counts_as_type(card, "Enchantment"@) {
        quantity
    } else {
        0
    }
    &&& after.instant == before.instant + if counts_as_type(card, "Instant"@) {
        quantity
    } else {
        0
    }
    &&& after.sorcery == before.sorcery + if counts_as_type(card, "Sorcery"@) {
        quantity
    } else {
        0
    }
    &&& after.planeswalker == before.planeswalker + if counts_as_type(card, "Planeswalker"@) {
        quantity
    } else {
        0
    }
    &&& after.battle == before.battle + if counts_as_type(card, "Battle"@) {
        quantity
    } else {
        0
    }
    &&& after.other == before.other + if counts_as_other_type(card) {
        quantity
    } else {
        0
    }
}

/// How the color identity counts change when `quantity` copies of `card`
/// are counted.
pub open spec fn color_counts_step(
    before: ColorIdentityCounts,
    after: ColorIdentityCounts,
    quantity: int,
    card: Option<CardFacts>,
) -> bool {
    &&& after.white == before.white + if counts_in_color_class(card, ColorClass::Mono(0)) {
        quantity
    } else {
        0
    }
    &&& after.blue == before.blue + if counts_in_color_class(card, ColorClass::Mono(1)) {
        quantity
    } else {
        0
    }
    &&& after.black == before.black + if counts_in_color_class(card, ColorClass::Mono(2)) {
        quantity
    } else {
        0
    }
    &&& after.red == before.red + if counts_in_color_class(card, ColorClass::Mono(3)) {
        quantity
    } else {
        0
    }
    &&& after.green == before.green + if counts_in_color_class(card, ColorClass::Mono(4)) {
        quantity
    } else {
        0
    }
    &&& after.colorless == before.colorless + if counts_in_color_class(
        card,
        ColorClass::Colorless,
    ) {
        quantity
    } else {
        0
    }
    &&& after.multicolor == before.multicolor + if counts_in_color_class(
        card,
        ColorClass::Multicolor,
    ) {
        quantity
    } else {
        0
    }
}

/// How the role counts change when `quantity` copies of `card` are counted.
pub open spec fn role_counts_step(
    before: RoleCounts,
    after: RoleCounts,
    quantity: int,
    card: Option<CardFacts>,
) -> bool {
    &&& after.ramp == before.ramp + if counts_for_role(card, CardRole::Ramp) {
        quantity
    } else {
        0
    }
    &&& after.card_draw == before.card_draw + if counts_for_role(card, CardRole::CardDraw) {
        quantity
    } else {
        0
    }
    &&& after.removal == before.removal + if counts_for_role(card, CardRole::Removal) {
        quantity
    } else {
        0
    }
    &&& after.mass_removal == before.mass_removal + if counts_for_role(
        card,
        CardRole::MassRemoval,
    ) {
        quantity
    } else {
        0
    }
    &&& after.tutor == before.tutor + if counts_for_role(card, CardRole::Tutor) {
        quantity
    } else {
        0
    }
    &&& after.protection == before.protection + if counts_for_role(card, CardRole::Protection) {
        quantity
    } else {
        0
    }
    &&& after.win_condition == before.win_condition + if counts_for_role(
        card,
        CardRole::WinCondition,
    ) {
        quantity
    } else {
        0
    }
}

/// The type counts follow a counted entry.
pub proof fn lemma_type_counts_push(
    before: TypeCounts,
    after: TypeCounts,
    entries: Seq<(usize, Seq<char>)>,
    cards: Seq<Option<CardFacts>>,
    entry: (usize, Seq<char>),
    card: Option<CardFacts>,
)
    requires
        entries.len() == cards.len(),
        type_counts_match(before, entries, cards),
        type_counts_step(before, after, entry.0 as int, card),
    ensures
        type_counts_match(after, entries.push(entry), cards.push(card)),
{
    lemma_tally_push(entries, cards, |e, c| counts_as_type(c, "Creature"@), entry, card);
    lemma_tally_push(entries, cards, |e, c| counts_as_type(c, "Artifact"@), entry, card);
    lemma_tally_push(entries, cards, |e, c| counts_as_type(c, "Enchantment"@), entry, card);
    lemma_tally_push(entries, cards, |e, c| counts_as_type(c, "Instant"@), entry, card);
    lemma_tally_push(entries, cards, |e, c| counts_as_type(c, "Sorcery"@), entry, card);
    lemma_tally_push(entries, cards, |e, c| counts_as_type(c, "Planeswalker"@), entry, card);
    lemma_tally_push(entries, cards, |e, c| counts_as_type(c, "Battle"@), entry, card);
    lemma_tally_push(entries, cards, |e, c| counts_as_other_type(c), entry, card);
}

/// The color identity counts follow a counted entry.
pub proof fn lemma_color_counts_push(
    before: ColorIdentityCounts,
    after: ColorIdentityCounts,
    entries: Seq<(usize, Seq<char>)>,
    cards: Seq<Option<CardFacts>>,
    entry: (usize, Seq<char>),
    card: Option<CardFacts>,
)
    requires
        entries.len() == cards.len(),
        color_counts_match(before, entries, cards),
        color_counts_step(before, after, entry.0 as int, card),
    ensures
        color_counts_match(after, entries.push(entry), cards.push(card)),
{
    lemma_tally_push(
        entries,
        cards,
        |e, c| counts_in_color_class(c, ColorClass::Mono(0)),
        entry,
        card,
    );
    lemma_tally_push(
        entries,
        cards,
        |e, c| counts_in_color_class(c, ColorClass::Mono(1)),
        entry,
        card,
    );
    lemma_tally_push(
        entries,
        cards,
        |e, c| counts_in_color_class(c, ColorClass::Mono(2)),
        entry,
        card,
    );
    lemma_tally_push(
        entries,
        cards,
        |e, c| counts_in_color_class(c, ColorClass::Mono(3)),
        entry,
        card,
    );
    lemma_tally_push(
        entries,
        cards,
        |e, c| counts_in_color_class(c, ColorClass::Mono(4)),
        entry,
        card,
    );
    lemma_tally_push(
        entries,
        cards,
        |e, c| counts_in_color_class(c, ColorClass::Colorless),
        entry,
        card,
    );
    lemma_tally_push(
        entries,
        cards,
        |e, c| counts_in_color_class(c, ColorClass::Multicolor),
        entry,
        card,
    );
}

/// The role counts follow a counted entry.
pub proof fn lemma_role_counts_push(
    before: RoleCounts,
    after: RoleCounts,
    entries: Seq<(usize, Seq<char>)>,
    cards: Seq<Option<CardFacts>>,
    entry: (usize, Seq<char>),
    card: Option<CardFacts>,
)
    requires
        entries.len() == cards.len(),
        role_counts_match(before, entries, cards),
        role_counts_step(before, after, entry.0 as int, card),
    ensures
        role_counts_match(after, entries.push(entry), cards.push(card)),
{
    lemma_tally_push(entries, cards, |e, c| counts_for_role(c, CardRole::Ramp), entry, card);
    lemma_tally_push(entries, cards, |e, c| counts_for_role(c, CardRole::CardDraw), entry, card);
    lemma_tally_push(entries, cards, |e, c| counts_for_role(c, CardRole::Removal), entry, card);
    lemma_tally_push(
        entries,
        cards,
        |e, c| counts_for_role(c, CardRole::MassRemoval),
        entry,
        card,
    );
    lemma_tally_push(entries, cards, |e, c| counts_for_role(c, CardRole::Tutor), entry, card);
    lemma_tally_push(
        entries,
        cards,
        |e, c| counts_for_role(c, CardRole::Protection),
        entry,
        card,
    );
    lemma_tally_push(
        entries,
        cards,
        |e, c| counts_for_role(c, CardRole::WinCondition),
        entry,
        card,
    );
}

/// The mana curve follows a counted entry.
pub proof fn lemma_curve_push(
    before: [usize; 8],
    after: [usize; 8],
    entries: Seq<(usize, Seq<char>)>,
    cards: Seq<Option<CardFacts>>,
    entry: (usize, Seq<char>),
    card: Option<CardFacts>,
)
    requires
        entries.len() == cards.len(),
        forall|b: int|
            0 <= b < 8 ==> #[trigger] before@[b] == tally(
                entries,
                cards,
                |e, c| counts_in_curve(c, b),
            ),
        forall|b: int|
            0 <= b < 8 ==> #[trigger] after@[b] == before@[b] + if counts_in_curve(card, b) {
                entry.0 as int
            } else {
                0
            },
    ensures
        forall|b: int|
            0 <= b < 8 ==> #[trigger] after@[b] == tally(
                entries.push(entry),
                cards.push(card),
                |e, c| counts_in_curve(c, b),
            ),
{
    assert forall|b: int| 0 <= b < 8 implies #[trigger] after@[b] == tally(
        entries.push(entry),
        cards.push(card),
        |e, c| counts_in_curve(c, b),
    ) by {
        lemma_tally_push(entries, cards, |e, c| counts_in_curve(c, b), entry, card);
        assert(before@[b] == tally(entries, cards, |e, c| counts_in_curve(c, b)));
    }
}

impl ColorIdentityCounts {
    /// Counts `quantity` copies of `card` in its color identity class.
    fn add_card(&mut self, card: &CardInfo, quantity: usize)
        requires
            old(self).white + quantity <= usize::MAX,
            old(self).blue + quantity <= usize::MAX,
            old(self).black + quantity <= usize::MAX,
            old(self).red + quantity <= usize::MAX,
            old(self).green + quantity <= usize::MAX,
            old(self).colorless + quantity <= usize::MAX,
            old(self).multicolor + quantity <= usize::MAX,
        ensures
            color_counts_step(*old(self), *final(self), quantity as int, Some(card@)),
    {
        let flags = color_flags(&card.color_identity);
        let ghost f = card@;
        assert(flags@[0] == has_color(f, color_letter(0)));
        assert(flags@[1] == has_color(f, color_letter(1)));
        assert(flags@[2] == has_color(f, color_letter(2)));
        assert(flags@[3] == has_color(f, color_letter(3)));
        assert(flags@[4] == has_color(f, color_letter(4)));
        let n_colors: usize = (if flags[0] {
            1usize
        } else {
            0
        }) + (if flags[1] {
            1usize
        } else {
            0
        }) + (if flags[2] {
            1usize
        } else {
            0
        }) + (if flags[3] {
            1usize
        } else {
            0
        }) + (if flags[4] {
            1usize
        } else {
            0
        });
        assert(n_colors == color_count(f));
        if card.color_identity.is_some() {
            if n_colors == 0 {
                self.colorless = self.colorless + quantity;
            } else if n_colors >= 2 {
                self.multicolor = self.multicolor + quantity;
            } else if flags[0] {
                self.white = self.white + quantity;
            } else if flags[1] {
                self.blue = self.blue + quantity;
            } else if flags[2] {
                self.black = self.black + quantity;
            } else if flags[3] {
                self.red = self.red + quantity;
            } else {
                self.green = self.green + quantity;
            }
        }
    }
}

impl RoleCounts {
    /// Counts `quantity` copies of `card` for each role it plays.
    fn add_card(&mut self, card: &CardInfo, quantity: usize)
        requires
            old(self).ramp + quantity <= usize::MAX,
            old(self).card_draw + quantity <= usize::MAX,
            old(self).removal + quantity <= usize::MAX,
            old(self).mass_removal + quantity <= usize::MAX,
            old(self).tutor + quantity <= usize::MAX,
            old(self).protection + quantity <= usize::MAX,
            old(self).win_condition + quantity <= usize::MAX,
        ensures
            role_counts_step(*old(self), *final(self), quantity as int, Some(card@)),
    {
        if lists_role(&card.roles, CardRole::Ramp) {
            self.ramp = self.ramp + quantity;
        }
        if lists_role(&card.roles, CardRole::CardDraw) {
            self.card_draw = self.card_draw + quantity;
        }
        if lists_role(&card.roles, CardRole::Removal) {
            self.removal = self.removal + quantity;
        }
        if lists_role(&card.roles, CardRole::MassRemoval) {
            self.mass_removal = self.mass_removal + quantity;
        }
        if lists_role(&card.roles, CardRole::Tutor) {
            self.tutor = self.tutor + quantity;
        }
        if lists_role(&card.roles, CardRole::Protection) {
            self.protection = self.protection + quantity;
        }
        if lists_role(&card.roles, CardRole::WinCondition) {
            self.win_condition = self.win_condition + quantity;
        }
    }
}

impl DeckStats {
    /// Counts one deck entry whose lookup found `card`: every copy counts
    /// toward the total; found cards count by color identity and roles, and
    /// then as lands or by mana cost and card type; cards that were not found
    /// are listed once by name.
    fn add_card(
        &mut self,
        entry: &DeckEntry,
        card: &Option<CardInfo>,
        Ghost(entries): Ghost<Seq<(usize, Seq<char>)>>,
        Ghost(cards): Ghost<Seq<Option<CardFacts>>>,
    )
        requires
            entries.len() == cards.len(),
            stats_match(*old(self), entries, cards),
            stats_bounded(*old(self)),
            old(self).total_cards + entry.quantity <= usize::MAX,
        ensures
            stats_match(*final(self), entries.push(entry@), cards.push(found_facts(*card))),
            stats_bounded(*final(self)),
    {
        let q = entry.quantity;
        let ghost e = entry@;
        let ghost c = found_facts(*card);
        let ghost before_missing = self.missing_cards@;
        let ghost before_lands = self.lands;
        let ghost before_curve = self.mana_curve;
        let ghost before_types = self.type_counts;
        let ghost before_colors = self.color_identity_counts;
        let ghost before_roles = self.role_counts;
        self.total_cards = self.total_cards + q;
        match card {
            None => {
                if !contains_name(&self.missing_cards, &entry.card_name) {
                    self.missing_cards.push(entry.card_name.clone());
                    assert(names_view(self.missing_cards@) == names_view(before_missing).push(
                        entry.card_name@,
                    ));
                }
            },
            Some(info) => {
                self.color_identity_counts.add_card(info, q);
                self.role_counts.add_card(info, q);
                let type_text: &str = match &info.type_line {
                    Some(t) => t.as_str(),
                    None => "",
                };
                proof {
                    reveal_strlit("");
                }
                assert(type_text@ == info@.type_line);
                let t = chars_of(type_text);
                if contains_str(&t, "Land") {
                    self.lands = self.lands + q;
                } else {
                    let bucket = mana_curve_bucket(info.cmc);
                    self.mana_curve[bucket] = self.mana_curve[bucket] + q;
                    self.type_counts.add(type_text, q);
                }
            },
        }
        proof {
            lemma_tally_push(entries, cards, |e, c| counts_as_missing(c), e, c);
            lemma_tally_push(entries, cards, |e, c| counts_as_land(c), e, c);
            lemma_quantity_sum_concat(entries, seq![e]);
            assert(entries.push(e) == entries + seq![e]);
            assert(quantity_sum(seq![e]) == e.0) by {
                assert(seq![e].take(0) == Seq::<(usize, Seq<char>)>::empty());
                assert(quantity_sum(Seq::<(usize, Seq<char>)>::empty()) == 0);
                assert(quantity_sum(seq![e]) == quantity_sum(seq![e].take(0)) + seq![e][0].0);
            }
            lemma_type_counts_push(before_types, self.type_counts, entries, cards, e, c);
            lemma_color_counts_push(before_colors, self.color_identity_counts, entries, cards, e, c);
            lemma_role_counts_push(before_roles, self.role_counts, entries, cards, e, c);
            lemma_curve_push(before_curve, self.mana_curve, entries, cards, e, c);
        }
    }
}

impl DeckStats {
    /// The statistics of the deck entries `entries`, whose lookups found
    /// `cards`, entry by entry.
    pub fn from_cards(entries: &Vec<DeckEntry>, cards: &Vec<Option<CardInfo>>) -> (r: DeckStats)
        requires
            entries.len() == cards.len(),
            quantity_sum(entries_view(entries@)) <= usize::MAX,
        ensures
            stats_match(r, entries_view(entries@), cards_view(cards@)),
    {
        let mut stats = DeckStats::default();
        let ghost es = entries_view(entries@);
        let ghost cs = cards_view(cards@);
        let mut i: usize = 0;
        assert(es.take(0) == Seq::<(usize, Seq<char>)>::empty());
        assert(cs.take(0) == Seq::<Option<CardFacts>>::empty());
        while i < entries.len()
            invariant
                entries.len() == cards.len(),
                es == entries_view(entries@),
                cs == cards_view(cards@),
                quantity_sum(es) <= usize::MAX,
                i <= entries.len(),
                stats_match(stats, es.take(i as int), cs.take(i as int)),
                stats_bounded(stats),
            decreases entries.len() - i,
        {
            proof {
                lemma_quantity_sum_prefix(es, i + 1);
                assert(es.take(i + 1) == es.take(i as int).push(es[i as int]));
                lemma_quantity_sum_concat(es.take(i as int), seq![es[i as int]]);
                assert(es.take(i as int).push(es[i as int]) == es.take(i as int) + seq![es[i as int]]);
                lemma_quantity_sum_single(es[i as int]);
                assert(cs.take(i + 1) == cs.take(i as int).push(cs[i as int]));
            }
            stats.add_card(&entries[i], &cards[i], Ghost(es.take(i as int)), Ghost(cs.take(i as int)));
            i = i + 1;
        }
        assert(es.take(i as int) == es);
        assert(cs.take(i as int) == cs);
        stats
    }
}

/// The number of copies of the card `name` over all of `entries`.
pub open spec fn name_quantity(entries: Seq<(usize, Seq<char>)>, name: Seq<char>) -> int
    decreases entries.len(),
{
    if entries.len() == 0 {
        0
    } else {
        let k = entries.len() - 1;
        name_quantity(entries.take(k), name) + if entries[k].1 == name {
            entries[k].0 as int
        } else {
            0
        }
    }
}

/// Basic lands: found cards whose type line says `Basic`.
pub open spec fn is_basic(card: Option<CardFacts>) -> bool {
    card matches Some(c) && has_substring(c.type_line, "Basic"@)
}

/// Every color in the card's identity is in the commander's identity.
pub open spec fn colors_within(card: CardFacts, commander: CardFacts) -> bool {
    forall|i: int|
        0 <= i < 5 ==> #[trigger] has_color(card, color_letter(i)) ==> has_color(
            commander,
            color_letter(i),
        )
}

/// A found card with a color that the found commander lacks.
pub open spec fn outside_colors(card: Option<CardFacts>, commander: Option<CardFacts>) -> bool {
    &&& card matches Some(x)
    &&& commander matches Some(y)
    &&& !colors_within(x, y)
}

/// Entries of deck cards: those that do not name the commander.
pub open spec fn deck_card_test(name: Seq<char>) -> EntryTest {
    |e: (usize, Seq<char>), c: Option<CardFacts>| e.1 != name
}

/// Deck cards that the lookup did not find.
pub open spec fn missing_card_test(name: Seq<char>) -> EntryTest {
    |e: (usize, Seq<char>), c: Option<CardFacts>| e.1 != name && counts_as_missing(c)
}

/// Deck cards other than basic lands with more than one copy in `entries`.
pub open spec fn duplicate_card_test(name: Seq<char>, entries: Seq<(usize, Seq<char>)>) -> EntryTest {
    |e: (usize, Seq<char>), c: Option<CardFacts>|
        e.1 != name && !is_basic(c) && name_quantity(entries, e.1) > 1
}

/// Found deck cards with a color that the found commander lacks.
pub open spec fn off_color_card_test(name: Seq<char>, commander: Option<CardFacts>) -> EntryTest {
    |e: (usize, Seq<char>), c: Option<CardFacts>| e.1 != name && outside_colors(c, commander)
}

/// The result of checking a commander deck.
pub struct CommanderValidation {
    /// All checks passed.
    pub valid: bool,
    pub commander_name: String,
    /// The lookup knows the commander.
    pub commander_found: bool,
    /// The cards of the deck besides the commander.
    pub deck_size: usize,
    /// Cards other than basic lands with more than one copy, each once.
    pub duplicate_cards: Vec<String>,
    /// Found cards with a color outside the commander's color identity, each
    /// once.
    pub off_color_cards: Vec<String>,
    /// Cards other than the commander that the lookup did not find, each once.
    pub missing_cards: Vec<String>,
}

/// `v` is the check of the deck entries `entries` against the commander
/// named `name`, where the lookups found `commander` for the commander and
/// `cards` for the entries. Entries naming the commander count for nothing.
pub open spec fn validation_match(
    v: CommanderValidation,
    name: Seq<char>,
    commander: Option<CardFacts>,
    entries: Seq<(usize, Seq<char>)>,
    cards: Seq<Option<CardFacts>>,
) -> bool {
    &&& v.commander_name@ == name
    &&& v.commander_found == commander is Some
    &&& v.deck_size == tally(entries, cards, deck_card_test(name))
    &&& names_view(v.missing_cards@) == first_names(entries, cards, missing_card_test(name))
    &&& names_view(v.duplicate_cards@) == first_names(
        entries,
        cards,
        duplicate_card_test(name, entries),
    )
    &&& names_view(v.off_color_cards@) == first_names(
        entries,
        cards,
        off_color_card_test(name, commander),
    )
    &&& v.valid == (commander is Some && v.deck_size == 99 && v.duplicate_cards@.len() == 0
        && v.off_color_cards@.len() == 0 && v.missing_cards@.len() == 0)
}

/// `v` checks the deck entries `entries` against the commander named `name`
/// for what some lookup found.
pub open spec fn validation_of_some_lookup(
    v: CommanderValidation,
    name: Seq<char>,
    entries: Seq<(usize, Seq<char>)>,
) -> bool {
    exists|commander: Option<CardFacts>, cards: Seq<Option<CardFacts>>|
        cards.len() == entries.len() && #[trigger] validation_match(
            v,
            name,
            commander,
            entries,
            cards,
        )
}

/// The card of a deck entry: none for an entry that names the commander,
/// otherwise an answer `lookup` gave for the entry's name.
pub open spec fn entry_card_by_lookup<L: CardLookup>(
    lookup: &L,
    name: Seq<char>,
    entry: (usize, Seq<char>),
    card: Option<CardInfo>,
) -> bool {
    if entry.1 == name {
        card is None
    } else {
        lookup_answers(lookup, entry.1, card)
    }
}

/// `v` checks `entries` against the commander named `name`, with the
/// commander's facts what `lookup` answered for `name` and each other card's
/// facts what it answered for that card's name.
pub open spec fn validation_by_lookup<L: CardLookup>(
    v: CommanderValidation,
    lookup: &L,
    name: Seq<char>,
    entries: Seq<(usize, Seq<char>)>,
) -> bool {
    exists|commander: Option<CardInfo>, cards: Seq<Option<CardInfo>>|
        #![trigger lookup_answers(lookup, name, commander), cards.len()]
        lookup_answers(lookup, name, commander) && cards.len() == entries.len() && (forall|k: int|
            0 <= k < entries.len() ==> #[trigger] entry_card_by_lookup(
                lookup,
                name,
                entries[k],
                cards[k],
            )) && validation_match(v, name, found_facts(commander), entries, cards_view(cards))
}

/// A tally counts no more cards than the entries hold.
pub proof fn lemma_tally_bounded(
    entries: Seq<(usize, Seq<char>)>,
    cards: Seq<Option<CardFacts>>,
    test: EntryTest,
)
    ensures
        0 <= tally(entries, cards, test) <= quantity_sum(entries),
    decreases entries.len(),
{
    if entries.len() > 0 {
        let k = entries.len() - 1;
        lemma_tally_bounded(entries.take(k), cards.take(k), test);
    }
}

/// The cards in a mana curve, over its eight columns.
pub open spec fn curve_total(curve: Seq<usize>) -> int {
    curve[0] + curve[1] + curve[2] + curve[3] + curve[4] + curve[5] + curve[6] + curve[7]
}

/// The cards of the entries that fall in some mana curve column.
spec fn curve_tally(entries: Seq<(usize, Seq<char>)>, cards: Seq<Option<CardFacts>>) -> int {
    tally(entries, cards, |e, c| counts_in_curve(c, 0)) + tally(
        entries,
        cards,
        |e, c| counts_in_curve(c, 1),
    ) + tally(entries, cards, |e, c| counts_in_curve(c, 2)) + tally(
        entries,
        cards,
        |e, c| counts_in_curve(c, 3),
    ) + tally(entries, cards, |e, c| counts_in_curve(c, 4)) + tally(
        entries,
        cards,
        |e, c| counts_in_curve(c, 5),
    ) + tally(entries, cards, |e, c| counts_in_curve(c, 6)) + tally(
        entries,
        cards,
        |e, c| counts_in_curve(c, 7),
    )
}

/// Each copy is a land, in one mana curve column, or not found.
proof fn lemma_partition_tallies(entries: Seq<(usize, Seq<char>)>, cards: Seq<Option<CardFacts>>)
    requires
        entries.len() == cards.len(),
    ensures
        quantity_sum(entries) == tally(entries, cards, |e, c| counts_as_land(c)) + curve_tally(
            entries,
            cards,
        ) + tally(entries, cards, |e, c| counts_as_missing(c)),
    decreases entries.len(),
{
    if entries.len() > 0 {
        let k = entries.len() - 1;
        lemma_partition_tallies(entries.take(k), cards.take(k));
        let c = cards[k];
        if c is Some && !is_land(c->0) {
            let b = curve_bucket(c->0.cmc);
            assert(0 <= b < 8);
        }
    }
}

/// A test that names nothing counts nothing.
proof fn lemma_unnamed_tally_zero(
    entries: Seq<(usize, Seq<char>)>,
    cards: Seq<Option<CardFacts>>,
    test: EntryTest,
)
    requires
        first_names(entries, cards, test).len() == 0,
    ensures
        tally(entries, cards, test) == 0,
    decreases entries.len(),
{
    if entries.len() > 0 {
        let k = entries.len() - 1;
        let earlier = first_names(entries.take(k), cards.take(k), test);
        assert(earlier.len() == 0);
        lemma_unnamed_tally_zero(entries.take(k), cards.take(k), test);
        if test(entries[k], cards[k]) {
            assert(!earlier.contains(entries[k].1));
            assert(first_names(entries, cards, test) == earlier.push(entries[k].1));
        }
    }
}

/// Every copy in a deck is counted exactly once: as a land, in one mana
/// curve column, or among the cards that were not found; when every card
/// was found, lands and the mana curve account for the whole deck.
pub proof fn lemma_stats_partition(
    stats: DeckStats,
    entries: Seq<(usize, Seq<char>)>,
    cards: Seq<Option<CardFacts>>,
)
    requires
        entries.len() == cards.len(),
        stats_match(stats, entries, cards),
    ensures
        stats.total_cards == stats.lands + curve_total(stats.mana_curve@) + tally(
            entries,
            cards,
            |e, c| counts_as_missing(c),
        ),
        stats.missing_cards@.len() == 0 ==> stats.total_cards == stats.lands + curve_total(
            stats.mana_curve@,
        ),
{
    lemma_partition_tallies(entries, cards);
    assert(stats.mana_curve@[0] == tally(entries, cards, |e, c| counts_in_curve(c, 0)));
    assert(stats.mana_curve@[1] == tally(entries, cards, |e, c| counts_in_curve(c, 1)));
    assert(stats.mana_curve@[2] == tally(entries, cards, |e, c| counts_in_curve(c, 2)));
    assert(stats.mana_curve@[3] == tally(entries, cards, |e, c| counts_in_curve(c, 3)));
    assert(stats.mana_curve@[4] == tally(entries, cards, |e, c| counts_in_curve(c, 4)));
    assert(stats.mana_curve@[5] == tally(entries, cards, |e, c| counts_in_curve(c, 5)));
    assert(stats.mana_curve@[6] == tally(entries, cards, |e, c| counts_in_curve(c, 6)));
    assert(stats.mana_curve@[7] == tally(entries, cards, |e, c| counts_in_curve(c, 7)));
    if stats.missing_cards@.len() == 0 {
        lemma_unnamed_tally_zero(entries, cards, |e, c| counts_as_missing(c));
    }
}

/// Tallies under tests that agree on every entry and card are equal, and so
/// are the names they pick.
pub proof fn lemma_tally_same_test(
    entries: Seq<(usize, Seq<char>)>,
    cards: Seq<Option<CardFacts>>,
    t: EntryTest,
    u: EntryTest,
)
    requires
        forall|e: (usize, Seq<char>), c: Option<CardFacts>| #[trigger] t(e, c) == u(e, c),
    ensures
        tally(entries, cards, t) == tally(entries, cards, u),
        first_names(entries, cards, t) == first_names(entries, cards, u),
    decreases entries.len(),
{
    if entries.len() > 0 {
        let k = entries.len() - 1;
        lemma_tally_same_test(entries.take(k), cards.take(k), t, u);
        assert(t(entries[k], cards[k]) == u(entries[k], cards[k]));
    }
}

/// A found card whose type line does not say `Land` and whose converted
/// mana cost is `cost`, an unknown cost counting as 0.
pub open spec fn found_spell_costing(card: Option<CardFacts>, cost: int) -> bool {
    &&& card is Some
    &&& !has_substring(card->0.type_line, "Land"@)
    &&& match card->0.cmc {
        Some(n) => n == cost,
        None => cost == 0,
    }
}

/// The lands, the mana curve and the missing cards, by their definitions:
/// lands are the found cards whose type line says `Land`; curve column `b`
/// below 7 holds the found non-land cards of cost `b` (unknown costs in
/// column 0), and column 7 those of cost 7 or more; the missing cards are
/// the names the lookup found nothing for, each once, in deck order.
pub proof fn lemma_stats_by_definition(
    stats: DeckStats,
    entries: Seq<(usize, Seq<char>)>,
    cards: Seq<Option<CardFacts>>,
)
    requires
        stats_match(stats, entries, cards),
    ensures
        stats.lands == tally(
            entries,
            cards,
            |e: (usize, Seq<char>), c: Option<CardFacts>|
                c is Some && has_substring(c->0.type_line, "Land"@),
        ),
        forall|b: int|
            0 <= b < 7 ==> #[trigger] stats.mana_curve@[b] == tally(
                entries,
                cards,
                |e: (usize, Seq<char>), c: Option<CardFacts>| found_spell_costing(c, b),
            ),
        stats.mana_curve@[7] == tally(
            entries,
            cards,
            |e: (usize, Seq<char>), c: Option<CardFacts>|
                c is Some && !has_substring(c->0.type_line, "Land"@) && c->0.cmc is Some
                    && c->0.cmc->0 >= 7,
        ),
        names_view(stats.missing_cards@) == first_names(
            entries,
            cards,
            |e: (usize, Seq<char>), c: Option<CardFacts>| c is None,
        ),
{
    lemma_tally_same_test(
        entries,
        cards,
        |e, c| counts_as_land(c),
        |e: (usize, Seq<char>), c: Option<CardFacts>|
            c is Some && has_substring(c->0.type_line, "Land"@),
    );
    assert forall|b: int| 0 <= b < 7 implies #[trigger] stats.mana_curve@[b] == tally(
        entries,
        cards,
        |e: (usize, Seq<char>), c: Option<CardFacts>| found_spell_costing(c, b),
    ) by {
        assert(stats.mana_curve@[b] == tally(entries, cards, |e, c| counts_in_curve(c, b)));
        lemma_tally_same_test(
            entries,
            cards,
            |e, c| counts_in_curve(c, b),
            |e: (usize, Seq<char>), c: Option<CardFacts>| found_spell_costing(c, b),
        );
    }
    assert(stats.mana_curve@[7] == tally(entries, cards, |e, c| counts_in_curve(c, 7)));
    lemma_tally_same_test(
        entries,
        cards,
        |e, c| counts_in_curve(c, 7),
        |e: (usize, Seq<char>), c: Option<CardFacts>|
            c is Some && !has_substring(c->0.type_line, "Land"@) && c->0.cmc is Some && c->0.cmc->0
                >= 7,
    );
    lemma_tally_same_test(
        entries,
        cards,
        |e, c| counts_as_missing(c),
        |e: (usize, Seq<char>), c: Option<CardFacts>| c is None,
    );
}

/// A found card whose color identity is known and lists the quoted color
/// letter `letter`, such as `"U"` for blue.
pub open spec fn identity_lists(card: Option<CardFacts>, letter: Seq<char>) -> bool {
    card matches Some(c) && c.color_identity matches Some(ci) && has_substring(ci, letter)
}

/// A found card with a known color identity that lists white, blue, black,
/// red and green exactly as the flags say.
pub open spec fn identity_is(
    card: Option<CardFacts>,
    white: bool,
    blue: bool,
    black: bool,
    red: bool,
    green: bool,
) -> bool {
    &&& card matches Some(c) && c.color_identity is Some
    &&& identity_lists(card, "\"W\""@) == white
    &&& identity_lists(card, "\"U\""@) == blue
    &&& identity_lists(card, "\"B\""@) == black
    &&& identity_lists(card, "\"R\""@) == red
    &&& identity_lists(card, "\"G\""@) == green
}

/// How many of the five colors a card's identity lists.
pub open spec fn colors_listed(card: Option<CardFacts>) -> int {
    (if identity_lists(card, "\"W\""@) { 1int } else { 0int }) + (if identity_lists(
        card,
        "\"U\""@,
    ) {
        1int
    } else {
        0int
    }) + (if identity_lists(card, "\"B\""@) { 1int } else { 0int }) + (if identity_lists(
        card,
        "\"R\""@,
    ) {
        1int
    } else {
        0int
    }) + (if identity_lists(card, "\"G\""@) { 1int } else { 0int })
}

/// A found card with a known color identity that lists two colors or more.
pub open spec fn identity_is_multicolor(card: Option<CardFacts>) -> bool {
    card matches Some(c) && c.color_identity is Some && colors_listed(card) >= 2
}

/// The color identity counts, by the color letters: a found card whose known
/// identity lists exactly one color counts in that color's own counter; one
/// that lists none is colorless; one that lists two or more is multicolor;
/// cards without identity data, and cards not found, count nowhere.
pub proof fn lemma_color_counts_by_letters(
    stats: DeckStats,
    entries: Seq<(usize, Seq<char>)>,
    cards: Seq<Option<CardFacts>>,
)
    requires
        stats_match(stats, entries, cards),
    ensures
        stats.color_identity_counts.white == tally(
            entries,
            cards,
            |e, c| identity_is(c, true, false, false, false, false),
        ),
        stats.color_identity_counts.blue == tally(
            entries,
            cards,
            |e, c| identity_is(c, false, true, false, false, false),
        ),
        stats.color_identity_counts.black == tally(
            entries,
            cards,
            |e, c| identity_is(c, false, false, true, false, false),
        ),
        stats.color_identity_counts.red == tally(
            entries,
            cards,
            |e, c| identity_is(c, false, false, false, true, false),
        ),
        stats.color_identity_counts.green == tally(
            entries,
            cards,
            |e, c| identity_is(c, false, false, false, false, true),
        ),
        stats.color_identity_counts.colorless == tally(
            entries,
            cards,
            |e, c| identity_is(c, false, false, false, false, false),
        ),
        stats.color_identity_counts.multicolor == tally(
            entries,
            cards,
            |e, c| identity_is_multicolor(c),
        ),
{
    lemma_tally_same_test(
        entries,
        cards,
        |e, c| counts_in_color_class(c, ColorClass::Mono(0)),
        |e, c| identity_is(c, true, false, false, false, false),
    );
    lemma_tally_same_test(
        entries,
        cards,
        |e, c| counts_in_color_class(c, ColorClass::Mono(1)),
        |e, c| identity_is(c, false, true, false, false, false),
    );
    lemma_tally_same_test(
        entries,
        cards,
        |e, c| counts_in_color_class(c, ColorClass::Mono(2)),
        |e, c| identity_is(c, false, false, true, false, false),
    );
    lemma_tally_same_test(
        entries,
        cards,
        |e, c| counts_in_color_class(c, ColorClass::Mono(3)),
        |e, c| identity_is(c, false, false, false, true, false),
    );
    lemma_tally_same_test(
        entries,
        cards,
        |e, c| counts_in_color_class(c, ColorClass::Mono(4)),
        |e, c| identity_is(c, false, false, false, false, true),
    );
    lemma_tally_same_test(
        entries,
        cards,
        |e, c| counts_in_color_class(c, ColorClass::Colorless),
        |e, c| identity_is(c, false, false, false, false, false),
    );
    lemma_tally_same_test(
        entries,
        cards,
        |e, c| counts_in_color_class(c, ColorClass::Multicolor),
        |e, c| identity_is_multicolor(c),
    );
}

/// The copies of one card name count no more than the entries hold.
pub proof fn lemma_name_quantity_bounded(entries: Seq<(usize, Seq<char>)>, name: Seq<char>)
    ensures
        0 <= name_quantity(entries, name) <= quantity_sum(entries),
    decreases entries.len(),
{
    if entries.len() > 0 {
        lemma_name_quantity_bounded(entries.take(entries.len() - 1), name);
    }
}

/// The number of copies of the card `name` over all of `entries`.
fn count_copies(entries: &Vec<DeckEntry>, name: &String) -> (r: usize)
    requires
        quantity_sum(entries_view(entries@)) <= usize::MAX,
    ensures
        r == name_quantity(entries_view(entries@), name@),
{
    let ghost es = entries_view(entries@);
    let mut total: usize = 0;
    let mut i: usize = 0;
    assert(es.take(0) == Seq::<(usize, Seq<char>)>::empty());
    while i < entries.len()
        invariant
            es == entries_view(entries@),
            quantity_sum(es) <= usize::MAX,
            i <= entries.len(),
            total == name_quantity(es.take(i as int), name@),
        decreases entries.len() - i,
    {
        proof {
            assert(es.take(i + 1).take(i as int) == es.take(i as int));
            lemma_name_quantity_bounded(es.take(i + 1), name@);
            lemma_quantity_sum_prefix(es, i + 1);
        }
        if entries[i].card_name == *name {
            total = total + entries[i].quantity;
        }
        i = i + 1;
    }
    assert(es.take(i as int) == es);
    total
}

/// Whether a found card's type line says `Basic`.
fn is_basic_card(card: &Option<CardInfo>) -> (r: bool)
    ensures
        r == is_basic(found_facts(*card)),
{
    match card {
        None => false,
        Some(info) => match &info.type_line {
            Some(t) => {
                let c = chars_of(t.as_str());
                contains_str(&c, "Basic")
            },
            None => {
                let c: Vec<char> = Vec::new();
                assert(!crate::text::occurs_at(c@, "Basic"@, 0)) by {
                    reveal_strlit("Basic");
                }
                assert forall|i: int| !crate::text::occurs_at(c@, "Basic"@, i) by {
                    reveal_strlit("Basic");
                }
                false
            },
        },
    }
}

/// Whether every color of `card` is a color of `commander`.
fn within_colors(card: &CardInfo, commander: &CardInfo) -> (r: bool)
    ensures
        r == colors_within(card@, commander@),
{
    let a = color_flags(&card.color_identity);
    let b = color_flags(&commander.color_identity);
    let mut i: usize = 0;
    while i < 5
        invariant
            i <= 5,
            forall|j: int| 0 <= j < 5 ==> #[trigger] a@[j] == has_color(card@, color_letter(j)),
            forall|j: int|
                0 <= j < 5 ==> #[trigger] b@[j] == has_color(commander@, color_letter(j)),
            forall|j: int|
                0 <= j < i ==> #[trigger] has_color(card@, color_letter(j)) ==> has_color(
                    commander@,
                    color_letter(j),
                ),
        decreases 5 - i,
    {
        if a[i] && !b[i] {
            assert(a@[i as int] && !b@[i as int]);
            return false;
        }
        i = i + 1;
    }
    true
}

impl CommanderValidation {
    /// Checks the deck entries `entries`, whose lookups found `cards`,
    /// against the commander named `commander_name`, whose lookup found
    /// `commander`.
    pub fn from_cards(
        commander_name: &str,
        commander: &Option<CardInfo>,
        entries: &Vec<DeckEntry>,
        cards: &Vec<Option<CardInfo>>,
    ) -> (r: CommanderValidation)
        requires
            entries.len() == cards.len(),
            quantity_sum(entries_view(entries@)) <= usize::MAX,
        ensures
            validation_match(
                r,
                commander_name@,
                found_facts(*commander),
                entries_view(entries@),
                cards_view(cards@),
            ),
    {
        let ghost es = entries_view(entries@);
        let ghost cs = cards_view(cards@);
        let ghost name = commander_name@;
        let ghost cmd = found_facts(*commander);
        let mut deck_size: usize = 0;
        let mut missing: Vec<String> = Vec::new();
        let mut duplicates: Vec<String> = Vec::new();
        let mut off_color: Vec<String> = Vec::new();
        let mut i: usize = 0;
        assert(es.take(0) == Seq::<(usize, Seq<char>)>::empty());
        assert(cs.take(0) == Seq::<Option<CardFacts>>::empty());
        assert(names_view(missing@) == Seq::<Seq<char>>::empty());
        while i < entries.len()
            invariant
                entries.len() == cards.len(),
                es == entries_view(entries@),
                cs == cards_view(cards@),
                name == commander_name@,
                cmd == found_facts(*commander),
                quantity_sum(es) <= usize::MAX,
                i <= entries.len(),
                deck_size == tally(es.take(i as int), cs.take(i as int), deck_card_test(name)),
                names_view(missing@) == first_names(es.take(i as int), cs.take(i as int), missing_card_test(name)),
                names_view(duplicates@) == first_names(
                    es.take(i as int),
                    cs.take(i as int),
                    duplicate_card_test(name, es),
                ),
                names_view(off_color@) == first_names(
                    es.take(i as int),
                    cs.take(i as int),
                    off_color_card_test(name, cmd),
                ),
            decreases entries.len() - i,
        {
            let entry = &entries[i];
            let card = &cards[i];
            let ghost e = es[i as int];
            let ghost c = cs[i as int];
            proof {
                assert(e == entries@[i as int]@);
                assert(c == found_facts(cards@[i as int]));
                assert(es.take(i + 1) == es.take(i as int).push(e));
                assert(cs.take(i + 1) == cs.take(i as int).push(c));
                lemma_tally_push(es.take(i as int), cs.take(i as int), deck_card_test(name), e, c);
                lemma_tally_push(es.take(i as int), cs.take(i as int), missing_card_test(name), e, c);
                lemma_tally_push(es.take(i as int), cs.take(i as int), duplicate_card_test(name, es), e, c);
                lemma_tally_push(es.take(i as int), cs.take(i as int), off_color_card_test(name, cmd), e, c);
                lemma_tally_bounded(es.take(i + 1), cs.take(i + 1), deck_card_test(name));
                lemma_quantity_sum_prefix(es, i + 1);
            }
            let is_commander = same_text(entry.card_name.as_str(), commander_name);
            if !is_commander {
                deck_size = deck_size + entry.quantity;
                if card.is_none() && !contains_name(&missing, &entry.card_name) {
                    let ghost old_missing = missing@;
                    missing.push(entry.card_name.clone());
                    assert(names_view(missing@) == names_view(old_missing).push(entry.card_name@));
                }
                if !is_basic_card(card) && count_copies(entries, &entry.card_name) > 1
                    && !contains_name(&duplicates, &entry.card_name) {
                    let ghost old_duplicates = duplicates@;
                    duplicates.push(entry.card_name.clone());
                    assert(names_view(duplicates@) == names_view(old_duplicates).push(
                        entry.card_name@,
                    ));
                }
                match (card, commander) {
                    (Some(info), Some(cmd_info)) => {
                        if !within_colors(info, cmd_info) && !contains_name(
                            &off_color,
                            &entry.card_name,
                        ) {
                            let ghost old_off = off_color@;
                            off_color.push(entry.card_name.clone());
                            assert(names_view(off_color@) == names_view(old_off).push(
                                entry.card_name@,
                            ));
                        }
                    },
                    _ => {},
                }
            }
            i = i + 1;
        }
        assert(es.take(i as int) == es);
        assert(cs.take(i as int) == cs);
        let commander_found = commander.is_some();
        let valid = commander_found && deck_size == 99 && duplicates.len() == 0 && off_color.len()
            == 0 && missing.len() == 0;
        CommanderValidation {
            valid,
            commander_name: commander_name.to_string(),
            commander_found,
            deck_size,
            duplicate_cards: duplicates,
            off_color_cards: off_color,
            missing_cards: missing,
        }
    }
}

/// A test that nothing passes names nothing.
pub proof fn lemma_first_names_none(
    entries: Seq<(usize, Seq<char>)>,
    cards: Seq<Option<CardFacts>>,
    test: EntryTest,
)
    requires
        forall|e: (usize, Seq<char>), c: Option<CardFacts>| !#[trigger] test(e, c),
    ensures
        first_names(entries, cards, test) == Seq::<Seq<char>>::empty(),
    decreases entries.len(),
{
    if entries.len() > 0 {
        let k = entries.len() - 1;
        lemma_first_names_none(entries.take(k), cards.take(k), test);
        assert(!test(entries[k], cards[k]));
    }
}

/// A deck whose commander the lookup does not know is never valid, and none
/// of its cards is reported as off-color.
pub proof fn lemma_unknown_commander(
    v: CommanderValidation,
    name: Seq<char>,
    entries: Seq<(usize, Seq<char>)>,
    cards: Seq<Option<CardFacts>>,
)
    requires
        validation_match(v, name, None, entries, cards),
    ensures
        !v.valid,
        !v.commander_found,
        v.off_color_cards@.len() == 0,
{
    lemma_first_names_none(entries, cards, off_color_card_test(name, None));
    assert(names_view(v.off_color_cards@).len() == v.off_color_cards@.len());
}

/// A valid deck has its commander, exactly 99 other cards, no duplicate
/// non-basic cards, no off-color cards and no unknown cards.
pub proof fn lemma_valid_deck(
    v: CommanderValidation,
    name: Seq<char>,
    commander: Option<CardFacts>,
    entries: Seq<(usize, Seq<char>)>,
    cards: Seq<Option<CardFacts>>,
)
    requires
        validation_match(v, name, commander, entries, cards),
        v.valid,
    ensures
        commander is Some,
        tally(entries, cards, deck_card_test(name)) == 99,
        first_names(entries, cards, duplicate_card_test(name, entries)).len() == 0,
        first_names(entries, cards, off_color_card_test(name, commander)).len() == 0,
        first_names(entries, cards, missing_card_test(name)).len() == 0,
{
}

/// A found card whose known color identity lists one of the five colors
/// (white, blue, black, red, green) that the commander's identity does not
/// list.
pub open spec fn has_color_beyond(card: Option<CardFacts>, commander: Option<CardFacts>) -> bool {
    ||| identity_lists(card, "\"W\""@) && !identity_lists(commander, "\"W\""@)
    ||| identity_lists(card, "\"U\""@) && !identity_lists(commander, "\"U\""@)
    ||| identity_lists(card, "\"B\""@) && !identity_lists(commander, "\"B\""@)
    ||| identity_lists(card, "\"R\""@) && !identity_lists(commander, "\"R\""@)
    ||| identity_lists(card, "\"G\""@) && !identity_lists(commander, "\"G\""@)
}

/// The five colors of `card` within those of `commander`, color by color.
proof fn lemma_colors_within_by_letters(card: CardFacts, commander: CardFacts)
    ensures
        colors_within(card, commander) <==> !has_color_beyond(Some(card), Some(commander)),
{
    if !has_color_beyond(Some(card), Some(commander)) {
        assert forall|i: int| 0 <= i < 5 && #[trigger] has_color(card, color_letter(i)) implies has_color(
            commander,
            color_letter(i),
        ) by {
            if i == 0 {
            } else if i == 1 {
            } else if i == 2 {
            } else if i == 3 {
            } else {
            }
        }
    } else {
        assert(!(has_color(card, color_letter(0)) ==> has_color(commander, color_letter(0))) || !(
        has_color(card, color_letter(1)) ==> has_color(commander, color_letter(1))) || !(
        has_color(card, color_letter(2)) ==> has_color(commander, color_letter(2))) || !(
        has_color(card, color_letter(3)) ==> has_color(commander, color_letter(3))) || !(
        has_color(card, color_letter(4)) ==> has_color(commander, color_letter(4))));
    }
}

/// The off-color cards, by the color letters: exactly the deck cards (not
/// the commander's own entries) that were found while the commander was
/// found too, and whose identity lists a color among white, blue, black, red
/// and green that the commander's identity does not list; each once, in
/// deck order.
pub proof fn lemma_off_color_by_letters(
    v: CommanderValidation,
    name: Seq<char>,
    commander: Option<CardFacts>,
    entries: Seq<(usize, Seq<char>)>,
    cards: Seq<Option<CardFacts>>,
)
    requires
        validation_match(v, name, commander, entries, cards),
    ensures
        names_view(v.off_color_cards@) == first_names(
            entries,
            cards,
            |e: (usize, Seq<char>), c: Option<CardFacts>|
                e.1 != name && commander is Some && has_color_beyond(c, commander),
        ),
{
    let u = |e: (usize, Seq<char>), c: Option<CardFacts>|
        e.1 != name && commander is Some && has_color_beyond(c, commander);
    let t = off_color_card_test(name, commander);
    assert forall|e: (usize, Seq<char>), c: Option<CardFacts>| #[trigger] t(e, c) == u(e, c) by {
        if c is Some && commander is Some {
            lemma_colors_within_by_letters(c->0, commander->0);
        }
    }
    lemma_tally_same_test(entries, cards, t, u);
}

/// A validation's commander is what the lookup answered for the commander's
/// name, whatever the deck text holds: it counts as found exactly when that
/// answer is a card, and when the answer is no card the deck is invalid and
/// no card is reported off-color.
pub proof fn lemma_commander_from_lookup<L: CardLookup>(
    v: CommanderValidation,
    lookup: &L,
    name: Seq<char>,
    entries: Seq<(usize, Seq<char>)>,
)
    requires
        validation_by_lookup(v, lookup, name, entries),
    ensures
        exists|c: Option<CardInfo>|
            #[trigger] lookup_answers(lookup, name, c) && v.commander_found == (c is Some) && (
            c is None ==> !v.valid && v.off_color_cards@.len() == 0),
{
    let (commander, cards) = choose|commander: Option<CardInfo>, cards: Seq<Option<CardInfo>>|
        #![trigger lookup_answers(lookup, name, commander), cards.len()]
        lookup_answers(lookup, name, commander) && cards.len() == entries.len() && (forall|k: int|
            0 <= k < entries.len() ==> #[trigger] entry_card_by_lookup(
                lookup,
                name,
                entries[k],
                cards[k],
            )) && validation_match(v, name, found_facts(commander), entries, cards_view(cards));
    if commander is None {
        lemma_unknown_commander(v, name, entries, cards_view(cards));
    }
}

/// Whether the card lookup tables can be used: the lookup table must exist
/// (`card_lookup_tables` counts the tables of that name), and where color
/// identities are needed it must have that column.
pub fn lookup_readiness(
    card_lookup_tables: i64,
    has_color_identity: bool,
    needs_color_identity: bool,
) -> (r: Result<(), AppError>)
    ensures
        card_lookup_tables == 0 ==> r matches Err(AppError::MissingCardLookup),
        card_lookup_tables != 0 && needs_color_identity && !has_color_identity ==> r matches Err(
            AppError::StaleCardLookup,
        ),
        card_lookup_tables != 0 && (has_color_identity || !needs_color_identity) ==> r is Ok,
{
    if card_lookup_tables == 0 {
        return Err(AppError::MissingCardLookup);
    }
    if needs_color_identity && !has_color_identity {
        return Err(AppError::StaleCardLookup);
    }
    Ok(())
}

/// Deck statistics and checks over a card lookup.
pub struct Analyzer<L> {
    pub card_lookup: L,
}

impl<L: CardLookup> Analyzer<L> {
    /// An analyzer that looks cards up in `card_lookup`.
    pub fn new(card_lookup: L) -> (r: Self)
        ensures
            r.card_lookup == card_lookup,
    {
        Analyzer { card_lookup }
    }

    /// The statistics of a deck list: the lookup must be ready, the list must
    /// read without fault, and each entry's card is looked up by name.
    pub fn analyze_text(&self, deck_text: &str) -> (r: Result<DeckStats, AppError>)
        requires
            quantity_sum(readable_prefix(deck_text@)) <= usize::MAX,
        ensures
            read_deck_text(deck_text@) is Err ==> r is Err,
            r matches Ok(stats) ==> read_deck_text(deck_text@) matches Ok(entries)
                && stats_of_some_lookup(stats, entries),
            r is Ok ==> lookup_was_ready(&self.card_lookup),
            r matches Ok(stats) ==> read_deck_text(deck_text@) matches Ok(entries)
                && stats_by_lookup(stats, &self.card_lookup, entries),
    {
        self.card_lookup.ensure_ready()?;
        let cs = chars_of(deck_text);
        let n = cs.len();
        let mut stats = DeckStats::default();
        let mut start: usize = 0;
        let mut line_index: usize = 0;
        let ghost mut entries: Seq<(usize, Seq<char>)> = Seq::empty();
        let ghost mut infos: Seq<Option<CardInfo>> = Seq::empty();
        assert(cs@.subrange(0, n as int) == cs@);
        assert(cards_view(infos) == Seq::<Option<CardFacts>>::empty());
        assert(prepend(entries, read_deck(cs@, 1)) == read_deck(cs@, 1));
        assert(entries + readable_prefix(cs@) == readable_prefix(cs@));
        while start < n
            invariant
                n == cs.len(),
                cs@ == deck_text@,
                start <= n,
                line_index <= start,
                entries.len() == infos.len(),
                lookup_was_ready(&self.card_lookup),
                forall|k: int|
                    0 <= k < entries.len() ==> lookup_answers(
                        &self.card_lookup,
                        entries[k].1,
                        #[trigger] infos[k],
                    ),
                read_deck_text(cs@) == prepend(
                    entries,
                    read_deck(cs@.subrange(start as int, n as int), line_index + 1),
                ),
                readable_prefix(cs@) == entries + readable_prefix(
                    cs@.subrange(start as int, n as int),
                ),
                quantity_sum(readable_prefix(cs@)) <= usize::MAX,
                stats_match(stats, entries, cards_view(infos)),
                stats_bounded(stats),
            decreases n - start,
        {
            let line_number = line_index + 1;
            let (parsed, next) = next_deck_line(&cs, start, Ghost(line_number as int));
            let ghost rest = cs@.subrange(next as int, n as int);
            match parsed {
                ParsedLine::Blank => {},
                ParsedLine::Malformed => {
                    return Err(AppError::InvalidDeckLine { line_number });
                },
                ParsedLine::BadQuantity => {
                    return Err(AppError::InvalidQuantity { line_number });
                },
                ParsedLine::Entry(entry) => {
                    let ghost x = entry@;
                    proof {
                        let here = readable_prefix(cs@.subrange(start as int, n as int));
                        lemma_quantity_sum_concat(entries, here);
                        lemma_quantity_sum_concat(seq![x], readable_prefix(rest));
                        lemma_quantity_sum_single(x);
                        assert(entries + (seq![x] + readable_prefix(rest)) == (entries + seq![x])
                            + readable_prefix(rest));
                        lemma_prepend_twice(entries, seq![x], read_deck(rest, line_number + 1));
                    }
                    let asked = entry.card_name.as_str();
                    let answer = self.card_lookup.lookup_card(asked);
                    let card = match answer {
                        Ok(card) => card,
                        Err(e) => {
                            return Err(e);
                        },
                    };
                    assert(lookup_answers(&self.card_lookup, x.1, card)) by {
                        assert(asked@ == x.1);
                        assert(call_ensures(
                            L::lookup_card,
                            (&self.card_lookup, asked),
                            Ok::<Option<CardInfo>, AppError>(card),
                        ));
                    }
                    stats.add_card(&entry, &card, Ghost(entries), Ghost(cards_view(infos)));
                    proof {
                        assert(entries.push(x) == entries + seq![x]);
                        assert(cards_view(infos.push(card)) == cards_view(infos).push(
                            found_facts(card),
                        ));
                        entries = entries.push(x);
                        infos = infos.push(card);
                    }
                },
            }
            start = next;
            line_index = line_number;
        }
        assert(cs@.subrange(n as int, n as int) == Seq::<char>::empty());
        assert(entries + Seq::<(usize, Seq<char>)>::empty() == entries);
        assert(read_deck(cs@.subrange(n as int, n as int), line_index + 1) == Ok::<
            Seq<(usize, Seq<char>)>,
            crate::decklist::DeckListFault,
        >(Seq::empty()));
        assert(read_deck_text(deck_text@) == Ok::<
            Seq<(usize, Seq<char>)>,
            crate::decklist::DeckListFault,
        >(entries));
        assert(stats_match(stats, entries, cards_view(infos)));
        assert(cards_view(infos).len() == entries.len());
        assert(stats_of_some_lookup(stats, entries));
        assert(stats_by_lookup(stats, &self.card_lookup, entries));
        Ok(stats)
    }

    /// Checks a commander deck list against the commander named
    /// `commander_name`: the lookup must be ready and the list must read
    /// without fault; the commander and each other entry's card are looked up
    /// by name.
    pub fn validate_commander(&self, deck_text: &str, commander_name: &str) -> (r: Result<
        CommanderValidation,
        AppError,
    >)
        requires
            quantity_sum(readable_prefix(deck_text@)) <= usize::MAX,
        ensures
            read_deck_text(deck_text@) is Err ==> r is Err,
            r matches Ok(v) ==> read_deck_text(deck_text@) matches Ok(entries)
                && validation_of_some_lookup(v, commander_name@, entries),
            r is Ok ==> lookup_was_ready(&self.card_lookup),
            r matches Ok(v) ==> read_deck_text(deck_text@) matches Ok(entries)
                && validation_by_lookup(v, &self.card_lookup, commander_name@, entries),
    {
        self.card_lookup.ensure_ready()?;
        let commander = match self.card_lookup.lookup_card(commander_name) {
            Ok(found) => found,
            Err(e) => {
                return Err(e);
            },
        };
        assert(lookup_answers(&self.card_lookup, commander_name@, commander)) by {
            assert(call_ensures(
                L::lookup_card,
                (&self.card_lookup, commander_name),
                Ok::<Option<CardInfo>, AppError>(commander),
            ));
        }
        let cs = chars_of(deck_text);
        let n = cs.len();
        let mut entries: Vec<DeckEntry> = Vec::new();
        let mut cards: Vec<Option<CardInfo>> = Vec::new();
        let mut start: usize = 0;
        let mut line_index: usize = 0;
        assert(cs@.subrange(0, n as int) == cs@);
        assert(entries_view(entries@) == Seq::<(usize, Seq<char>)>::empty());
        assert(prepend(entries_view(entries@), read_deck(cs@, 1)) == read_deck(cs@, 1));
        assert(entries_view(entries@) + readable_prefix(cs@) == readable_prefix(cs@));
        while start < n
            invariant
                n == cs.len(),
                cs@ == deck_text@,
                start <= n,
                line_index <= start,
                entries.len() == cards.len(),
                lookup_was_ready(&self.card_lookup),
                lookup_answers(&self.card_lookup, commander_name@, commander),
                forall|k: int|
                    0 <= k < entries.len() ==> #[trigger] entry_card_by_lookup(
                        &self.card_lookup,
                        commander_name@,
                        entries_view(entries@)[k],
                        cards@[k],
                    ),
                read_deck_text(cs@) == prepend(
                    entries_view(entries@),
                    read_deck(cs@.subrange(start as int, n as int), line_index + 1),
                ),
                readable_prefix(cs@) == entries_view(entries@) + readable_prefix(
                    cs@.subrange(start as int, n as int),
                ),
            decreases n - start,
        {
            let line_number = line_index + 1;
            let (parsed, next) = next_deck_line(&cs, start, Ghost(line_number as int));
            let ghost rest = cs@.subrange(next as int, n as int);
            let ghost before = entries_view(entries@);
            match parsed {
                ParsedLine::Blank => {},
                ParsedLine::Malformed => {
                    return Err(AppError::InvalidDeckLine { line_number });
                },
                ParsedLine::BadQuantity => {
                    return Err(AppError::InvalidQuantity { line_number });
                },
                ParsedLine::Entry(entry) => {
                    let ghost x = entry@;
                    let asked = entry.card_name.as_str();
                    let card = if same_text(asked, commander_name) {
                        None
                    } else {
                        let answer = self.card_lookup.lookup_card(asked);
                        match answer {
                            Ok(found) => {
                                assert(lookup_answers(&self.card_lookup, x.1, found)) by {
                                    assert(asked@ == x.1);
                                    assert(call_ensures(
                                        L::lookup_card,
                                        (&self.card_lookup, asked),
                                        Ok::<Option<CardInfo>, AppError>(found),
                                    ));
                                }
                                found
                            },
                            Err(e) => {
                                return Err(e);
                            },
                        }
                    };
                    assert(entry_card_by_lookup(&self.card_lookup, commander_name@, x, card));
                    let ghost old_cards = cards@;
                    entries.push(entry);
                    cards.push(card);
                    proof {
                        assert forall|k: int| 0 <= k < entries.len() implies #[trigger] entry_card_by_lookup(
                            &self.card_lookup,
                            commander_name@,
                            entries_view(entries@)[k],
                            cards@[k],
                        ) by {
                            if k < before.len() {
                                assert(entries_view(entries@)[k] == before[k]);
                                assert(cards@[k] == old_cards[k]);
                            } else {
                                assert(entries_view(entries@)[k] == x);
                                assert(cards@[k] == card);
                            }
                        }
                        assert(entries_view(entries@) == before + seq![x]);
                        assert(before + (seq![x] + readable_prefix(rest)) == (before + seq![x])
                            + readable_prefix(rest));
                        lemma_prepend_twice(before, seq![x], read_deck(rest, line_number + 1));
                    }
                },
            }
            start = next;
            line_index = line_number;
        }
        assert(cs@.subrange(n as int, n as int) == Seq::<char>::empty());
        assert(entries_view(entries@) + Seq::<(usize, Seq<char>)>::empty() == entries_view(
            entries@,
        ));
        assert(read_deck(cs@.subrange(n as int, n as int), line_index + 1) == Ok::<
            Seq<(usize, Seq<char>)>,
            crate::decklist::DeckListFault,
        >(Seq::empty()));
        proof {
            lemma_read_deck_prefix(cs@, 1);
        }
        let v = CommanderValidation::from_cards(commander_name, &commander, &entries, &cards);
        assert(validation_match(
            v,
            commander_name@,
            found_facts(commander),
            entries_view(entries@),
            cards_view(cards@),
        ));
        assert(validation_of_some_lookup(v, commander_name@, entries_view(entries@)));
        assert(cards@.len() == entries_view(entries@).len());
        assert(validation_by_lookup(v, &self.card_lookup, commander_name@, entries_view(entries@)));
        Ok(v)
    }
}

} // verus!
