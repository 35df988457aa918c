//! Decks from Archidekt: API addresses, search queries, deck responses, and
//! the Moxfield export line of a card with its role tags.
use vstd::prelude::*;
use vstd::string::*;

use crate::error::AppError;
use crate::text::{
    all_digits, chars_of, decimal, decimal_string, find, find_chars, has_prefix, has_substring,
    lemma_find, occurs_at, starts_with_str, contains_str, string_of, sub_chars,
};
use crate::types::{role_name, CardRole};

verus! {

broadcast use vstd::string::group_string_axioms;

/// A deck read from a deck source.
#[derive(Debug)]
pub struct SourceDeck {
    pub name: String,
    pub source: String,
    pub source_url: String,
    pub cards: Vec<SourceDeckCard>,
}

/// One card row of a source deck.
#[derive(Debug)]
pub struct SourceDeckCard {
    pub card_name: String,
    pub quantity: usize,
    pub category: Option<String>,
}

/// The filters and paging of an Archidekt deck search.
pub struct ArchidektDeckSearchQuery {
    pub commander_name: Option<String>,
    pub name: Option<String>,
    pub owner_username: Option<String>,
    pub deck_format: Option<u8>,
    pub edh_bracket: Option<u8>,
    pub order_by: Option<String>,
    pub page: Option<usize>,
    pub page_size: Option<usize>,
}

/// One page of Archidekt deck search results.
pub struct ArchidektDeckSearchPage {
    pub count: usize,
    pub next: Option<String>,
    pub results: Vec<ArchidektDeckSearchResult>,
}

/// One deck in Archidekt search results.
pub struct ArchidektDeckSearchResult {
    pub id: usize,
    pub name: String,
    pub size: Option<usize>,
    pub updated_at: Option<String>,
    pub created_at: Option<String>,
    pub deck_format: Option<u8>,
    pub edh_bracket: Option<u8>,
    pub view_count: Option<usize>,
    pub owner: ArchidektDeckOwner,
}

/// The owner of an Archidekt deck.
pub struct ArchidektDeckOwner {
    pub username: String,
}

/// Access to Archidekt decks.
pub struct ArchidektClient;

/// An Archidekt deck as its API returns it.
pub struct ArchidektDeckResponse {
    pub name: String,
    pub cards: Vec<ArchidektCardRow>,
}

/// One card row of an Archidekt deck.
pub struct ArchidektCardRow {
    pub quantity: usize,
    pub categories: Option<Vec<String>>,
    pub card: ArchidektCardPrint,
}

/// The printing of a card in an Archidekt deck.
pub struct ArchidektCardPrint {
    pub oracle_card: ArchidektOracleCard,
}

/// The rules card behind an Archidekt printing.
pub struct ArchidektOracleCard {
    pub name: String,
}

/// The messages of a rejected Archidekt deck address.
pub open spec fn not_a_deck_url_message() -> Seq<char> {
    "Archidekt source expects a deck page URL or API deck URL"@
}

/// See `not_a_deck_url_message`.
pub open spec fn bad_deck_id_message() -> Seq<char> {
    "Archidekt deck URL has an invalid deck id"@
}

/// The deck id of an Archidekt deck page path: the text before its first `/`.
pub open spec fn deck_id_of(path: Seq<char>) -> Seq<char> {
    match find(path, seq!['/']) {
        Some(j) => path.subrange(0, j),
        None => path,
    }
}

/// The API address of an Archidekt deck: file and API addresses stay as they
/// are; a deck page address `<base>/decks/<id>/...` becomes
/// `<base>/api/decks/<id>/`, where the id must be ASCII digits. `Err` holds
/// the message of a rejected address.
pub open spec fn deck_api_url_of(url: Seq<char>) -> Result<Seq<char>, Seq<char>> {
    if has_prefix(url, "file://"@) {
        Ok(url)
    } else if has_substring(url, "/api/decks/"@) {
        Ok(url)
    } else {
        match find(url, "/decks/"@) {
            None => Err(not_a_deck_url_message()),
            Some(k) => {
                let id = deck_id_of(url.subrange(k + "/decks/"@.len(), url.len() as int));
                if id.len() == 0 || !all_digits(id) {
                    Err(bad_deck_id_message())
                } else {
                    Ok(url.subrange(0, k) + "/api/decks/"@ + id + seq!['/'])
                }
            },
        }
    }
}

/// Resolving an address twice changes nothing: the API address of a deck
/// resolves to itself.
pub proof fn lemma_deck_api_url_stable(url: Seq<char>)
    requires
        deck_api_url_of(url) is Ok,
    ensures
        deck_api_url_of(deck_api_url_of(url)->Ok_0) == deck_api_url_of(url),
{
    if !has_prefix(url, "file://"@) && !has_substring(url, "/api/decks/"@) {
        let k = find(url, "/decks/"@)->Some_0;
        let id = deck_id_of(url.subrange(k + "/decks/"@.len(), url.len() as int));
        let head = url.subrange(0, k);
        let api = head + "/api/decks/"@ + id + seq!['/'];
        assert(api.subrange(head.len() as int, head.len() + "/api/decks/"@.len() as int) == "/api/decks/"@);
        assert(occurs_at(api, "/api/decks/"@, head.len() as int));
        assert(has_substring(api, "/api/decks/"@));
    }
}

/// The address of the Archidekt deck search API.
pub open spec fn deck_search_base() -> Seq<char> {
    "https://archidekt.com/api/decks/v3/"@
}

/// The text parameter `(key, value)` when the value is given and not empty.
pub open spec fn text_pair(key: Seq<char>, value: Option<String>) -> Seq<(Seq<char>, Seq<char>)> {
    match value {
        Some(v) => if v@.len() > 0 {
            seq![(key, v@)]
        } else {
            Seq::empty()
        },
        None => Seq::empty(),
    }
}

/// The number parameter `(key, value)` when the value is given.
pub open spec fn number_pair(key: Seq<char>, value: Option<nat>) -> Seq<(Seq<char>, Seq<char>)> {
    match value {
        Some(n) => seq![(key, decimal(n))],
        None => Seq::empty(),
    }
}

/// A small number as an optional natural number.
pub open spec fn byte_nat(value: Option<u8>) -> Option<nat> {
    match value {
        Some(v) => Some(v as nat),
        None => None,
    }
}

/// A count as an optional natural number.
pub open spec fn count_nat(value: Option<usize>) -> Option<nat> {
    match value {
        Some(v) => Some(v as nat),
        None => None,
    }
}

/// The query parameters of a deck search, in the order commander name, deck
/// name, owner, format, bracket, ordering, page, page size; empty texts and
/// absent values are left out.
pub open spec fn search_pairs(q: ArchidektDeckSearchQuery) -> Seq<(Seq<char>, Seq<char>)> {
    text_pair("commanderName"@, q.commander_name) + text_pair("name"@, q.name) + text_pair(
        "ownerUsername"@,
        q.owner_username,
    ) + number_pair("deckFormat"@, byte_nat(q.deck_format)) + number_pair(
        "edhBracket"@,
        byte_nat(q.edh_bracket),
    ) + text_pair("orderBy"@, q.order_by) + number_pair("page"@, count_nat(q.page))
        + number_pair("pageSize"@, count_nat(q.page_size))
}

/// The optional text field is given, not empty, and is `v`.
pub open spec fn text_given_as(field: Option<String>, v: Seq<char>) -> bool {
    match field {
        Some(c) => c@.len() > 0 && c@ == v,
        None => false,
    }
}

/// The optional number field is given and `v` is its decimal text.
pub open spec fn number_given_as(field: Option<nat>, v: Seq<char>) -> bool {
    match field {
        Some(n) => v == decimal(n),
        None => false,
    }
}

/// A joined sequence holds a value exactly when one of its parts does.
proof fn lemma_seq_join_contains<A>(x: Seq<A>, y: Seq<A>, v: A)
    ensures
        (x + y).contains(v) <==> x.contains(v) || y.contains(v),
{
    if x.contains(v) {
        let i = choose|i: int| 0 <= i < x.len() && x[i] == v;
        assert((x + y)[i] == v);
    }
    if y.contains(v) {
        let i = choose|i: int| 0 <= i < y.len() && y[i] == v;
        assert((x + y)[x.len() + i] == v);
    }
    if (x + y).contains(v) {
        let i = choose|i: int| 0 <= i < (x + y).len() && (x + y)[i] == v;
        if i < x.len() {
            assert(x[i] == v);
        } else {
            assert(y[i - x.len()] == v);
        }
    }
}

/// A text parameter holds `(key, value)` exactly when the value is given,
/// not empty, and is `value`.
proof fn lemma_text_pair_contains(key: Seq<char>, value: Option<String>, p: (Seq<char>, Seq<char>))
    ensures
        text_pair(key, value).contains(p) <==> p.0 == key && text_given_as(value, p.1),
{
    if text_pair(key, value).contains(p) {
        assert(text_pair(key, value)[0] == p);
    }
    if p.0 == key && text_given_as(value, p.1) {
        assert(text_pair(key, value)[0] == p);
    }
}

/// A number parameter holds `(key, value)` exactly when the number is given
/// and `value` is its decimal text.
proof fn lemma_number_pair_contains(key: Seq<char>, value: Option<nat>, p: (Seq<char>, Seq<char>))
    ensures
        number_pair(key, value).contains(p) <==> p.0 == key && number_given_as(value, p.1),
{
    if number_pair(key, value).contains(p) {
        assert(number_pair(key, value)[0] == p);
    }
    if p.0 == key && number_given_as(value, p.1) {
        assert(number_pair(key, value)[0] == p);
    }
}

/// The search parameters hold a pair exactly when one of the eight fields
/// gives it.
proof fn lemma_search_pairs_contain(q: ArchidektDeckSearchQuery, p: (Seq<char>, Seq<char>))
    ensures
        search_pairs(q).contains(p) <==> {
            ||| text_pair("commanderName"@, q.commander_name).contains(p)
            ||| text_pair("name"@, q.name).contains(p)
            ||| text_pair("ownerUsername"@, q.owner_username).contains(p)
            ||| number_pair("deckFormat"@, byte_nat(q.deck_format)).contains(p)
            ||| number_pair("edhBracket"@, byte_nat(q.edh_bracket)).contains(p)
            ||| text_pair("orderBy"@, q.order_by).contains(p)
            ||| number_pair("page"@, count_nat(q.page)).contains(p)
            ||| number_pair("pageSize"@, count_nat(q.page_size)).contains(p)
        },
{
    let p1 = text_pair("commanderName"@, q.commander_name);
    let p2 = text_pair("name"@, q.name);
    let p3 = text_pair("ownerUsername"@, q.owner_username);
    let p4 = number_pair("deckFormat"@, byte_nat(q.deck_format));
    let p5 = number_pair("edhBracket"@, byte_nat(q.edh_bracket));
    let p6 = text_pair("orderBy"@, q.order_by);
    let p7 = number_pair("page"@, count_nat(q.page));
    let p8 = number_pair("pageSize"@, count_nat(q.page_size));
    assert((p1 + p2).contains(p) <==> p1.contains(p) || p2.contains(p)) by {
        lemma_seq_join_contains(p1, p2, p);
    }
    assert((p1 + p2 + p3).contains(p) <==> (p1 + p2).contains(p) || p3.contains(p)) by {
        lemma_seq_join_contains(p1 + p2, p3, p);
    }
    assert((p1 + p2 + p3 + p4).contains(p) <==> (p1 + p2 + p3).contains(p) || p4.contains(p)) by {
        lemma_seq_join_contains(p1 + p2 + p3, p4, p);
    }
    assert((p1 + p2 + p3 + p4 + p5).contains(p) <==> (p1 + p2 + p3 + p4).contains(p)
        || p5.contains(p)) by {
        lemma_seq_join_contains(p1 + p2 + p3 + p4, p5, p);
    }
    assert((p1 + p2 + p3 + p4 + p5 + p6).contains(p) <==> (p1 + p2 + p3 + p4 + p5).contains(p)
        || p6.contains(p)) by {
        lemma_seq_join_contains(p1 + p2 + p3 + p4 + p5, p6, p);
    }
    assert((p1 + p2 + p3 + p4 + p5 + p6 + p7).contains(p) <==> (p1 + p2 + p3 + p4 + p5
        + p6).contains(p) || p7.contains(p)) by {
        lemma_seq_join_contains(p1 + p2 + p3 + p4 + p5 + p6, p7, p);
    }
    assert((p1 + p2 + p3 + p4 + p5 + p6 + p7 + p8).contains(p) <==> (p1 + p2 + p3 + p4 + p5 + p6
        + p7).contains(p) || p8.contains(p)) by {
        lemma_seq_join_contains(p1 + p2 + p3 + p4 + p5 + p6 + p7, p8, p);
    }
    assert(search_pairs(q) == p1 + p2 + p3 + p4 + p5 + p6 + p7 + p8);
}

/// Each search parameter is sent exactly when its field is given, whatever
/// the other fields hold: a text field as its text when it is not empty, a
/// number field as its decimal digits, under its own key (`commanderName`,
/// `name`, `ownerUsername`, `deckFormat`, `edhBracket`, `orderBy`, `page`,
/// `pageSize`).
pub proof fn lemma_search_pairs_by_field(q: ArchidektDeckSearchQuery, key: Seq<char>, value: Seq<char>)
    ensures
        key == "commanderName"@ ==> (search_pairs(q).contains((key, value)) <==> text_given_as(
            q.commander_name,
            value,
        )),
        key == "name"@ ==> (search_pairs(q).contains((key, value)) <==> text_given_as(q.name, value)),
        key == "ownerUsername"@ ==> (search_pairs(q).contains((key, value)) <==> text_given_as(
            q.owner_username,
            value,
        )),
        key == "orderBy"@ ==> (search_pairs(q).contains((key, value)) <==> text_given_as(
            q.order_by,
            value,
        )),
        key == "deckFormat"@ ==> (search_pairs(q).contains((key, value)) <==> number_given_as(
            byte_nat(q.deck_format),
            value,
        )),
        key == "edhBracket"@ ==> (search_pairs(q).contains((key, value)) <==> number_given_as(
            byte_nat(q.edh_bracket),
            value,
        )),
        key == "page"@ ==> (search_pairs(q).contains((key, value)) <==> number_given_as(
            count_nat(q.page),
            value,
        )),
        key == "pageSize"@ ==> (search_pairs(q).contains((key, value)) <==> number_given_as(
            count_nat(q.page_size),
            value,
        )),
{
    let p = (key, value);
    reveal_strlit("commanderName");
    reveal_strlit("name");
    reveal_strlit("ownerUsername");
    reveal_strlit("deckFormat");
    reveal_strlit("edhBracket");
    reveal_strlit("orderBy");
    reveal_strlit("page");
    reveal_strlit("pageSize");
    lemma_search_pairs_contain(q, p);
    lemma_text_pair_contains("commanderName"@, q.commander_name, p);
    lemma_text_pair_contains("name"@, q.name, p);
    lemma_text_pair_contains("ownerUsername"@, q.owner_username, p);
    lemma_number_pair_contains("deckFormat"@, byte_nat(q.deck_format), p);
    lemma_number_pair_contains("edhBracket"@, byte_nat(q.edh_bracket), p);
    lemma_text_pair_contains("orderBy"@, q.order_by, p);
    lemma_number_pair_contains("page"@, count_nat(q.page), p);
    lemma_number_pair_contains("pageSize"@, count_nat(q.page_size), p);
    assert("commanderName"@[0] != "ownerUsername"@[0]);
    assert("deckFormat"@[0] != "edhBracket"@[0]);
    assert("name"@[0] != "page"@[0]);
    assert("commanderName"@.len() == 13 && "ownerUsername"@.len() == 13 && "orderBy"@.len() == 7
        && "name"@.len() == 4 && "page"@.len() == 4 && "pageSize"@.len() == 8
        && "deckFormat"@.len() == 10 && "edhBracket"@.len() == 10);
}

/// The texts of a list of parameter pairs.
pub open spec fn pairs_view(pairs: Seq<(String, String)>) -> Seq<(Seq<char>, Seq<char>)> {
    pairs.map_values(|p: (String, String)| (p.0@, p.1@))
}

/// `url::ParseError`, carried through unchanged.
#[verifier::external_type_specification]
#[verifier::external_body]
pub struct ExUrlParseError(url::ParseError);

/// The serialization of the address that `reqwest::Url::parse_with_params`
/// makes from `base` and the query `pairs`; `None` when `base` does not
/// parse.
pub uninterp spec fn url_with_query_pairs(
    base: Seq<char>,
    pairs: Seq<(Seq<char>, Seq<char>)>,
) -> Option<Seq<char>>;

/// `reqwest::Url::parse_with_params`, then the address as text: parses
/// `base` and appends the pairs, form-encoded, to its query. The contract
/// names the outcome and says no more of it.
#[verifier::external_body]
fn url_with_query(base: &str, pairs: &Vec<(String, String)>) -> (r: Result<
    String,
    url::ParseError,
>)
    ensures
        match r {
            Ok(text) => url_with_query_pairs(base@, pairs_view(pairs@)) == Some(text@),
            Err(_) => url_with_query_pairs(base@, pairs_view(pairs@)) is None,
        },
{
    match reqwest::Url::parse_with_params(base, pairs) {
        Ok(url) => Ok(url.to_string()),
        Err(error) => Err(error),
    }
}

/// The text that `url::ParseError`'s `Display` writes.
#[verifier::external_body]
fn url_error_text(error: &url::ParseError) -> String {
    format!("{}", error)
}

/// Appends the text parameter `(key, value)` when the value is given and not
/// empty.
fn push_text_pair(pairs: &mut Vec<(String, String)>, key: &str, value: &Option<String>)
    ensures
        pairs_view(final(pairs)@) == pairs_view(old(pairs)@) + text_pair(key@, *value),
{
    match value {
        Some(v) => {
            if !v.as_str().is_empty() {
                pairs.push((key.to_string(), v.clone()));
            }
        },
        None => {},
    }
    assert(pairs_view(pairs@) == pairs_view(old(pairs)@) + text_pair(key@, *value));
}

/// Appends the number parameter `(key, value)` when the value is given.
fn push_number_pair(pairs: &mut Vec<(String, String)>, key: &str, value: Option<usize>)
    ensures
        pairs_view(final(pairs)@) == pairs_view(old(pairs)@) + number_pair(key@, count_nat(value)),
{
    match value {
        Some(n) => {
            pairs.push((key.to_string(), decimal_string(n)));
        },
        None => {},
    }
    assert(pairs_view(pairs@) == pairs_view(old(pairs)@) + number_pair(key@, count_nat(value)));
}

/// A small number widened to a count.
fn widen(value: Option<u8>) -> (r: Option<usize>)
    ensures
        count_nat(r) == byte_nat(value),
{
    match value {
        Some(v) => Some(v as usize),
        None => None,
    }
}

/// The query parameters of a deck search.
pub fn deck_search_query_pairs(query: &ArchidektDeckSearchQuery) -> (r: Vec<(String, String)>)
    ensures
        pairs_view(r@) == search_pairs(*query),
{
    let mut pairs: Vec<(String, String)> = Vec::new();
    assert(pairs_view(pairs@) == Seq::<(Seq<char>, Seq<char>)>::empty());
    push_text_pair(&mut pairs, "commanderName", &query.commander_name);
    push_text_pair(&mut pairs, "name", &query.name);
    push_text_pair(&mut pairs, "ownerUsername", &query.owner_username);
    push_number_pair(&mut pairs, "deckFormat", widen(query.deck_format));
    push_number_pair(&mut pairs, "edhBracket", widen(query.edh_bracket));
    push_text_pair(&mut pairs, "orderBy", &query.order_by);
    push_number_pair(&mut pairs, "page", query.page);
    push_number_pair(&mut pairs, "pageSize", query.page_size);
    assert(Seq::<(Seq<char>, Seq<char>)>::empty() + text_pair(
        "commanderName"@,
        query.commander_name,
    ) == text_pair("commanderName"@, query.commander_name));
    pairs
}

impl ArchidektClient {
    /// The API address of an Archidekt deck page or API address.
    pub fn deck_api_url(&self, url: &str) -> (r: Result<String, AppError>)
        ensures
            match r {
                Ok(api_url) => deck_api_url_of(url@) == Ok::<Seq<char>, Seq<char>>(api_url@),
                Err(e) => deck_api_url_of(url@) matches Err(message) && e matches AppError::InvalidSourceDeckFormat(
                    m,
                ) && m@ == message,
            },
    {
        let u = chars_of(url);
        if starts_with_str(&u, "file://") {
            return Ok(url.to_string());
        }
        if contains_str(&u, "/api/decks/") {
            return Ok(url.to_string());
        }
        let marker = chars_of("/decks/");
        match find_chars(&u, &marker) {
            None => Err(
                AppError::InvalidSourceDeckFormat(
                    "Archidekt source expects a deck page URL or API deck URL".to_string(),
                ),
            ),
            Some(k) => {
                proof {
                    lemma_find(u@, marker@);
                    assert(crate::text::occurs_at(u@, marker@, k as int));
                    assert(k + marker@.len() <= u@.len());
                }
                assert(k + marker.len() <= u.len());
                let path = sub_chars(&u, k + marker.len(), u.len());
                let slash: Vec<char> = vec!['/'];
                assert(slash@ == seq!['/']);
                let id_end = match find_chars(&path, &slash) {
                    Some(j) => {
                        proof {
                            lemma_find(path@, slash@);
                        }
                        j
                    },
                    None => path.len(),
                };
                let id = sub_chars(&path, 0, id_end);
                assert(id@ == deck_id_of(path@)) by {
                    if find(path@, seq!['/']) is None {
                        assert(path@.subrange(0, path@.len() as int) == path@);
                    }
                }
                let mut all_ascii_digits = id.len() > 0;
                let mut i: usize = 0;
                while i < id.len()
                    invariant
                        i <= id.len(),
                        all_ascii_digits == (id@.len() > 0 && forall|t: int|
                            0 <= t < i ==> crate::text::is_digit(#[trigger] id@[t])),
                    decreases id.len() - i,
                {
                    let code = id[i] as u32;
                    if code < 48 || code > 57 {
                        all_ascii_digits = false;
                    }
                    i = i + 1;
                }
                if !all_ascii_digits {
                    return Err(
                        AppError::InvalidSourceDeckFormat(
                            "Archidekt deck URL has an invalid deck id".to_string(),
                        ),
                    );
                }
                let base = sub_chars(&u, 0, k);
                let mut api = string_of(&base);
                api.append("/api/decks/");
                api.append(string_of(&id).as_str());
                api.append("/");
                proof {
                    reveal_strlit("/");
                    assert(!has_prefix(url@, "file://"@));
                    assert(!has_substring(url@, "/api/decks/"@));
                    assert(find(url@, "/decks/"@) == Some(k as int));
                    assert(id@.len() > 0 && all_digits(id@));
                    assert(api@ == base@ + "/api/decks/"@ + id@ + seq!['/']);
                }
                Ok(api)
            },
        }
    }

    /// The Archidekt deck search address for a query.
    pub fn deck_search_api_url(&self, query: &ArchidektDeckSearchQuery) -> (r: Result<
        String,
        AppError,
    >)
        ensures
            match r {
                Ok(text) => url_with_query_pairs(deck_search_base(), search_pairs(*query)) == Some(
                    text@,
                ),
                Err(e) => {
                    &&& url_with_query_pairs(deck_search_base(), search_pairs(*query)) is None
                    &&& e matches AppError::InvalidSourceDeckFormat(m)
                    &&& has_prefix(m@, "Archidekt deck search URL is invalid: "@)
                },
            },
    {
        let pairs = deck_search_query_pairs(query);
        match url_with_query("https://archidekt.com/api/decks/v3/", &pairs) {
            Ok(text) => Ok(text),
            Err(error) => {
                let mut message = "Archidekt deck search URL is invalid: ".to_string();
                let ghost prefix = message@;
                message.append(url_error_text(&error).as_str());
                assert(message@.subrange(0, prefix.len() as int) == prefix);
                Err(AppError::InvalidSourceDeckFormat(message))
            },
        }
    }
}

/// The address of a deck to be read from a file: what follows `file://`.
pub open spec fn local_path_of(api_url: Seq<char>) -> Option<Seq<char>> {
    if has_prefix(api_url, "file://"@) {
        Some(api_url.subrange("file://"@.len() as int, api_url.len() as int))
    } else {
        None
    }
}

/// The file path of a `file://` deck address, if it is one.
pub fn local_deck_path(api_url: &str) -> (r: Option<String>)
    ensures
        match r {
            Some(path) => local_path_of(api_url@) == Some(path@),
            None => local_path_of(api_url@) is None,
        },
{
    let u = chars_of(api_url);
    let prefix = chars_of("file://");
    if crate::text::occurs_at_index(&u, &prefix, 0) {
        let rest = sub_chars(&u, prefix.len(), u.len());
        Some(string_of(&rest))
    } else {
        None
    }
}

/// The first category of a card row, if it has any.
pub open spec fn first_category(row: ArchidektCardRow) -> Option<Seq<char>> {
    match row.categories {
        Some(cs) => if cs@.len() > 0 {
            Some(cs@[0]@)
        } else {
            None
        },
        None => None,
    }
}

/// The message for an Archidekt deck without cards.
pub open spec fn empty_deck_message() -> Seq<char> {
    "Archidekt deck JSON did not contain any cards"@
}

/// `card` is the source deck card read from `row`.
pub open spec fn card_from_row(card: SourceDeckCard, row: ArchidektCardRow) -> bool {
    &&& card.card_name@ == row.card.oracle_card.name@
    &&& card.quantity == row.quantity
    &&& match card.category {
        Some(c) => first_category(row) == Some(c@),
        None => first_category(row) is None,
    }
}

/// The first category of a card row.
fn row_category(row: &ArchidektCardRow) -> (r: Option<String>)
    ensures
        match r {
            Some(c) => first_category(*row) == Some(c@),
            None => first_category(*row) is None,
        },
{
    match &row.categories {
        Some(cs) => if cs.len() > 0 {
            Some(cs[0].clone())
        } else {
            None
        },
        None => None,
    }
}

/// The source deck of an Archidekt deck response: each row becomes a card
/// with the rules card's name, the quantity and the first category; a deck
/// without cards is rejected.
pub fn source_deck_from_response(response: &ArchidektDeckResponse, source_url: &str) -> (r: Result<
    SourceDeck,
    AppError,
>)
    ensures
        match r {
            Ok(deck) => {
                &&& response.cards@.len() > 0
                &&& deck.name@ == response.name@
                &&& deck.source@ == "archidekt"@
                &&& deck.source_url@ == source_url@
                &&& deck.cards@.len() == response.cards@.len()
                &&& forall|i: int|
                    0 <= i < deck.cards@.len() ==> card_from_row(
                        #[trigger] deck.cards@[i],
                        response.cards@[i],
                    )
            },
            Err(e) => {
                &&& response.cards@.len() == 0
                &&& e matches AppError::InvalidSourceDeckFormat(m)
                &&& m@ == empty_deck_message()
            },
        },
{
    let mut cards: Vec<SourceDeckCard> = Vec::new();
    let mut i: usize = 0;
    while i < response.cards.len()
        invariant
            i <= response.cards@.len(),
            cards@.len() == i,
            forall|j: int| 0 <= j < i ==> card_from_row(#[trigger] cards@[j], response.cards@[j]),
        decreases response.cards.len() - i,
    {
        let row = &response.cards[i];
        cards.push(
            SourceDeckCard {
                card_name: row.card.oracle_card.name.clone(),
                quantity: row.quantity,
                category: row_category(row),
            },
        );
        i = i + 1;
    }
    if cards.len() == 0 {
        return Err(
            AppError::InvalidSourceDeckFormat(
                "Archidekt deck JSON did not contain any cards".to_string(),
            ),
        );
    }
    Ok(
        SourceDeck {
            name: response.name.clone(),
            source: "archidekt".to_string(),
            source_url: source_url.to_string(),
            cards,
        },
    )
}

/// The roles in the order their names sort: card_draw, mass_removal,
/// protection, ramp, removal, tutor, win_condition.
pub open spec fn tag_order() -> Seq<CardRole> {
    seq![
        CardRole::CardDraw,
        CardRole::MassRemoval,
        CardRole::Protection,
        CardRole::Ramp,
        CardRole::Removal,
        CardRole::Tutor,
        CardRole::WinCondition,
    ]
}

/// The tags for the roles `order[i..]` that `roles` holds.
pub open spec fn tags_from(order: Seq<CardRole>, roles: Seq<CardRole>, i: int) -> Seq<char>
    decreases order.len() - i,
{
    if i < 0 || i >= order.len() {
        Seq::empty()
    } else {
        (if roles.contains(order[i]) {
            " #!"@ + role_name(order[i])
        } else {
            Seq::empty()
        }) + tags_from(order, roles, i + 1)
    }
}

/// The Moxfield export line of one copy of a card: `1 <name>`, then a
/// ` #!<role>` tag for each role the card has, once each, in the order of
/// the role names.
pub open spec fn moxfield_line(card_name: Seq<char>, roles: Seq<CardRole>) -> Seq<char> {
    "1 "@ + card_name + tags_from(tag_order(), roles, 0)
}

/// Whether `roles` holds `role`.
fn holds_role(roles: &[CardRole], role: CardRole) -> (r: bool)
    ensures
        r == roles@.contains(role),
{
    let mut i: usize = 0;
    while i < roles.len()
        invariant
            i <= roles@.len(),
            forall|j: int| 0 <= j < i ==> roles@[j] != role,
        decreases roles@.len() - i,
    {
        if roles[i] == role {
            assert(roles@[i as int] == role);
            return true;
        }
        i = i + 1;
    }
    false
}

/// The Moxfield export line of one copy of `card_name` tagged with its
/// roles.
pub fn format_moxfield_export_line(card_name: &str, roles: &[CardRole]) -> (r: String)
    ensures
        r@ == moxfield_line(card_name@, roles@),
{
    let order: [CardRole; 7] = [
        CardRole::CardDraw,
        CardRole::MassRemoval,
        CardRole::Protection,
        CardRole::Ramp,
        CardRole::Removal,
        CardRole::Tutor,
        CardRole::WinCondition,
    ];
    assert(order@ == tag_order());
    let mut line = "1 ".to_string();
    line.append(card_name);
    let ghost head = line@;
    let mut i: usize = 0;
    while i < 7
        invariant
            i <= 7,
            order@ == tag_order(),
            head == "1 "@ + card_name@,
            head + tags_from(tag_order(), roles@, 0) == line@ + tags_from(
                tag_order(),
                roles@,
                i as int,
            ),
        decreases 7 - i,
    {
        let role = order[i];
        let ghost before = line@;
        if holds_role(roles, role) {
            line.append(" #!");
            line.append(role.as_str());
        }
        assert(before + tags_from(tag_order(), roles@, i as int) == line@ + tags_from(
            tag_order(),
            roles@,
            i + 1,
        ));
        i = i + 1;
    }
    assert(tags_from(tag_order(), roles@, 7) == Seq::<char>::empty());
    line
}

/// The Moxfield line depends only on which roles are given: not on their
/// order, nor on repeats.
pub proof fn lemma_moxfield_line_by_role_set(
    card_name: Seq<char>,
    roles: Seq<CardRole>,
    other: Seq<CardRole>,
)
    requires
        forall|role: CardRole| roles.contains(role) <==> other.contains(role),
    ensures
        moxfield_line(card_name, roles) == moxfield_line(card_name, other),
{
    lemma_tags_by_role_set(tag_order(), roles, other, 0);
}

/// See `lemma_moxfield_line_by_role_set`.
proof fn lemma_tags_by_role_set(
    order: Seq<CardRole>,
    roles: Seq<CardRole>,
    other: Seq<CardRole>,
    i: int,
)
    requires
        forall|role: CardRole| roles.contains(role) <==> other.contains(role),
    ensures
        tags_from(order, roles, i) == tags_from(order, other, i),
    decreases order.len() - i,
{
    if 0 <= i < order.len() {
        lemma_tags_by_role_set(order, roles, other, i + 1);
        assert(roles.contains(order[i]) == other.contains(order[i]));
    }
}

/// Two texts without a line break join into one without.
proof fn lemma_join_without_break(a: Seq<char>, b: Seq<char>)
    requires
        !a.contains('\n'),
        !b.contains('\n'),
    ensures
        !(a + b).contains('\n'),
{
    assert forall|k: int| 0 <= k < (a + b).len() implies (a + b)[k] != '\n' by {
        if k < a.len() {
            assert((a + b)[k] == a[k]);
        } else {
            assert((a + b)[k] == b[k - a.len()]);
        }
    }
}

/// No role name holds a line break.
proof fn lemma_role_name_one_line(role: CardRole)
    ensures
        !role_name(role).contains('\n'),
{
    reveal_strlit("ramp");
    reveal_strlit("card_draw");
    reveal_strlit("removal");
    reveal_strlit("mass_removal");
    reveal_strlit("tutor");
    reveal_strlit("protection");
    reveal_strlit("win_condition");
}

/// The tags of a Moxfield line hold no line break.
proof fn lemma_tags_one_line(roles: Seq<CardRole>, i: int)
    ensures
        !tags_from(tag_order(), roles, i).contains('\n'),
    decreases tag_order().len() - i,
{
    if 0 <= i < tag_order().len() {
        lemma_tags_one_line(roles, i + 1);
        if roles.contains(tag_order()[i]) {
            reveal_strlit(" #!");
            lemma_role_name_one_line(tag_order()[i]);
            lemma_join_without_break(" #!"@, role_name(tag_order()[i]));
            lemma_join_without_break(
                " #!"@ + role_name(tag_order()[i]),
                tags_from(tag_order(), roles, i + 1),
            );
        } else {
            assert(Seq::<char>::empty() + tags_from(tag_order(), roles, i + 1) == tags_from(
                tag_order(),
                roles,
                i + 1,
            ));
        }
    }
}

/// A card's Moxfield line is a single line: it holds a line break only where
/// the card name does.
pub proof fn lemma_moxfield_line_one_line(card_name: Seq<char>, roles: Seq<CardRole>)
    requires
        !card_name.contains('\n'),
    ensures
        !moxfield_line(card_name, roles).contains('\n'),
{
    reveal_strlit("1 ");
    lemma_join_without_break("1 "@, card_name);
    lemma_tags_one_line(roles, 0);
    lemma_join_without_break("1 "@ + card_name, tags_from(tag_order(), roles, 0));
}

/// `a` sorts before `b` character by character.
pub open spec fn sorts_before(a: Seq<char>, b: Seq<char>) -> bool
    decreases a.len(),
{
    if a.len() == 0 {
        b.len() > 0
    } else if b.len() == 0 {
        false
    } else if a[0] == b[0] {
        sorts_before(a.drop_first(), b.drop_first())
    } else {
        (a[0] as u32) < (b[0] as u32)
    }
}

/// The tags of a Moxfield line come in ascending order of role name.
pub proof fn lemma_tag_order_sorted()
    ensures
        forall|i: int|
            0 <= i < tag_order().len() - 1 ==> sorts_before(
                role_name(#[trigger] tag_order()[i]),
                role_name(tag_order()[i + 1]),
            ),
{
    reveal_strlit("card_draw");
    reveal_strlit("mass_removal");
    reveal_strlit("protection");
    reveal_strlit("ramp");
    reveal_strlit("removal");
    reveal_strlit("tutor");
    reveal_strlit("win_condition");
    assert(sorts_before("card_draw"@, "mass_removal"@));
    assert(sorts_before("mass_removal"@, "protection"@));
    assert(sorts_before("protection"@, "ramp"@));
    assert(sorts_before("ramp"@.drop_first(), "removal"@.drop_first()));
    assert(sorts_before("ramp"@, "removal"@));
    assert(sorts_before("removal"@, "tutor"@));
    assert(sorts_before("tutor"@, "win_condition"@));
    assert forall|i: int| 0 <= i < tag_order().len() - 1 implies sorts_before(
        role_name(#[trigger] tag_order()[i]),
        role_name(tag_order()[i + 1]),
    ) by {
        if i == 0 {
        } else if i == 1 {
        } else if i == 2 {
        } else if i == 3 {
        } else if i == 4 {
        } else {
        }
    }
}

/// A sort field without a leading `-`.
pub open spec fn without_dash(field: Seq<char>) -> Seq<char> {
    if field.len() > 0 && field[0] == '-' {
        field.drop_first()
    } else {
        field
    }
}

/// The Archidekt ordering for a sort field and an optional direction: a
/// leading `-` sorts descending; a given direction replaces the field's own.
pub open spec fn ordering_of(field: Seq<char>, descending: Option<bool>) -> Seq<char> {
    match descending {
        None => field,
        Some(true) => seq!['-'] + without_dash(field),
        Some(false) => without_dash(field),
    }
}

/// The Archidekt ordering for a sort field and an optional direction.
pub fn ordering_with_direction(field: &str, descending: Option<bool>) -> (r: String)
    ensures
        r@ == ordering_of(field@, descending),
{
    let f = chars_of(field);
    let bare = if f.len() > 0 && f[0] == '-' {
        sub_chars(&f, 1, f.len())
    } else {
        sub_chars(&f, 0, f.len())
    };
    assert(bare@ == without_dash(field@)) by {
        assert(f@.subrange(0, f@.len() as int) == f@);
        assert(f@.subrange(1, f@.len() as int) == f@.drop_first());
    }
    match descending {
        None => field.to_string(),
        Some(true) => {
            let mut r = "-".to_string();
            proof {
                reveal_strlit("-");
            }
            r.append(string_of(&bare).as_str());
            r
        },
        Some(false) => string_of(&bare),
    }
}

/// The card names of a deck.
pub open spec fn deck_card_names(deck: SourceDeck) -> Seq<Seq<char>> {
    deck.cards@.map_values(|c: SourceDeckCard| c.card_name@)
}

/// `known` followed by the names of `names` it does not hold yet, each once,
/// in order.
pub open spec fn add_new_names(known: Seq<Seq<char>>, names: Seq<Seq<char>>) -> Seq<Seq<char>>
    decreases names.len(),
{
    if names.len() == 0 {
        known
    } else {
        let before = add_new_names(known, names.drop_last());
        if before.contains(names.last()) {
            before
        } else {
            before.push(names.last())
        }
    }
}

/// The card names of all `decks`, each once, in order of first appearance.
pub open spec fn names_across(decks: Seq<SourceDeck>) -> Seq<Seq<char>>
    decreases decks.len(),
{
    if decks.len() == 0 {
        Seq::empty()
    } else {
        add_new_names(names_across(decks.drop_last()), deck_card_names(decks.last()))
    }
}

/// Adding names to a list without repeats keeps it without repeats.
proof fn lemma_add_new_names_distinct(known: Seq<Seq<char>>, names: Seq<Seq<char>>)
    requires
        known.no_duplicates(),
    ensures
        add_new_names(known, names).no_duplicates(),
    decreases names.len(),
{
    if names.len() > 0 {
        lemma_add_new_names_distinct(known, names.drop_last());
        let before = add_new_names(known, names.drop_last());
        if !before.contains(names.last()) {
            let after = before.push(names.last());
            assert forall|i: int, j: int| 0 <= i < after.len() && 0 <= j < after.len() && i != j
                implies after[i] != after[j] by {
                if i < before.len() && j < before.len() {
                    assert(after[i] == before[i] && after[j] == before[j]);
                } else if i < before.len() {
                    assert(after[i] == before[i]);
                } else {
                    assert(after[j] == before[j]);
                }
            }
        }
    }
}

/// Every card name across the decks is listed once.
pub proof fn lemma_names_across_distinct(decks: Seq<SourceDeck>)
    ensures
        names_across(decks).no_duplicates(),
    decreases decks.len(),
{
    if decks.len() > 0 {
        lemma_names_across_distinct(decks.drop_last());
        lemma_add_new_names_distinct(names_across(decks.drop_last()), deck_card_names(decks.last()));
    }
}

/// A name added to a list was known or among the new names.
proof fn lemma_add_new_names_source(known: Seq<Seq<char>>, names: Seq<Seq<char>>, x: Seq<char>)
    requires
        add_new_names(known, names).contains(x),
    ensures
        known.contains(x) || names.contains(x),
    decreases names.len(),
{
    if names.len() > 0 {
        let before = add_new_names(known, names.drop_last());
        if before.contains(x) {
            lemma_add_new_names_source(known, names.drop_last(), x);
            if names.drop_last().contains(x) {
                let w = choose|w: int| 0 <= w < names.drop_last().len() && names.drop_last()[w] == x;
                assert(names[w] == x);
            }
        } else {
            assert(x == names.last());
            assert(names[names.len() - 1] == x);
        }
    }
}

/// Every card listed across the decks is held by at least one of them and
/// by at most all of them.
pub proof fn lemma_listed_cards_held(decks: Seq<SourceDeck>, name: Seq<char>)
    requires
        names_across(decks).contains(name),
    ensures
        1 <= decks_holding(decks, name) <= decks.len(),
    decreases decks.len(),
{
    lemma_decks_holding_bounded(decks, name);
    let earlier = decks.drop_last();
    lemma_decks_holding_bounded(earlier, name);
    lemma_add_new_names_source(names_across(earlier), deck_card_names(decks.last()), name);
    if !deck_card_names(decks.last()).contains(name) {
        lemma_listed_cards_held(earlier, name);
    }
}

/// The number of `decks` that hold the card `name`.
pub open spec fn decks_holding(decks: Seq<SourceDeck>, name: Seq<char>) -> int
    decreases decks.len(),
{
    if decks.len() == 0 {
        0
    } else {
        decks_holding(decks.drop_last(), name) + if deck_card_names(decks.last()).contains(name) {
            1int
        } else {
            0int
        }
    }
}

/// Card names with counts, as values.
pub open spec fn counts_view(counts: Seq<(String, usize)>) -> Seq<(Seq<char>, int)> {
    counts.map_values(|c: (String, usize)| (c.0@, c.1 as int))
}

/// A deck count never exceeds the number of decks.
pub proof fn lemma_decks_holding_bounded(decks: Seq<SourceDeck>, name: Seq<char>)
    ensures
        0 <= decks_holding(decks, name) <= decks.len(),
    decreases decks.len(),
{
    if decks.len() > 0 {
        lemma_decks_holding_bounded(decks.drop_last(), name);
    }
}

/// Whether `names` holds a string with the text `name`.
fn holds_name(names: &Vec<String>, name: &String) -> (r: bool)
    ensures
        r == crate::text::names_view(names@).contains(name@),
{
    crate::text::contains_name(names, name)
}

/// Whether the deck holds the card `name`.
fn deck_holds(deck: &SourceDeck, name: &String) -> (r: bool)
    ensures
        r == deck_card_names(*deck).contains(name@),
{
    let mut i: usize = 0;
    while i < deck.cards.len()
        invariant
            i <= deck.cards@.len(),
            forall|j: int| 0 <= j < i ==> deck_card_names(*deck)[j] != name@,
        decreases deck.cards.len() - i,
    {
        assert(deck_card_names(*deck)[i as int] == deck.cards@[i as int].card_name@);
        if deck.cards[i].card_name == *name {
            return true;
        }
        i = i + 1;
    }
    false
}

/// Every card name of `decks`, once, in order of first appearance, with the
/// number of decks that hold it.
pub fn card_deck_counts(decks: &Vec<SourceDeck>) -> (r: Vec<(String, usize)>)
    ensures
        r@.len() == names_across(decks@).len(),
        forall|k: int|
            0 <= k < r@.len() ==> (#[trigger] r@[k]).0@ == names_across(decks@)[k] && r@[k].1
                == decks_holding(decks@, r@[k].0@),
{
    let mut names: Vec<String> = Vec::new();
    let mut i: usize = 0;
    assert(decks@.take(0) == Seq::<SourceDeck>::empty());
    assert(crate::text::names_view(names@) == Seq::<Seq<char>>::empty());
    while i < decks.len()
        invariant
            i <= decks@.len(),
            crate::text::names_view(names@) == names_across(decks@.take(i as int)),
        decreases decks.len() - i,
    {
        let deck = &decks[i];
        let ghost known = crate::text::names_view(names@);
        let mut j: usize = 0;
        assert(deck_card_names(*deck).take(0) == Seq::<Seq<char>>::empty());
        while j < deck.cards.len()
            invariant
                j <= deck.cards@.len(),
                crate::text::names_view(names@) == add_new_names(
                    known,
                    deck_card_names(*deck).take(j as int),
                ),
            decreases deck.cards.len() - j,
        {
            let name = &deck.cards[j].card_name;
            proof {
                assert(deck_card_names(*deck).take(j + 1).drop_last() == deck_card_names(
                    *deck,
                ).take(j as int));
                assert(deck_card_names(*deck).take(j + 1).last() == name@);
            }
            if !holds_name(&names, name) {
                let ghost old_names = names@;
                names.push(name.clone());
                assert(crate::text::names_view(names@) == crate::text::names_view(old_names).push(
                    name@,
                ));
            }
            j = j + 1;
        }
        proof {
            assert(deck_card_names(*deck).take(j as int) == deck_card_names(*deck));
            assert(decks@.take(i + 1).drop_last() == decks@.take(i as int));
            assert(decks@.take(i + 1).last() == *deck);
        }
        i = i + 1;
    }
    assert(decks@.take(i as int) == decks@);
    let mut counts: Vec<(String, usize)> = Vec::new();
    let mut k: usize = 0;
    while k < names.len()
        invariant
            k <= names@.len(),
            crate::text::names_view(names@) == names_across(decks@),
            counts@.len() == k,
            forall|t: int|
                0 <= t < k ==> (#[trigger] counts@[t]).0@ == names_across(decks@)[t]
                    && counts@[t].1 == decks_holding(decks@, counts@[t].0@),
        decreases names.len() - k,
    {
        let name = &names[k];
        let mut n: usize = 0;
        let mut d: usize = 0;
        assert(decks@.take(0) == Seq::<SourceDeck>::empty());
        while d < decks.len()
            invariant
                d <= decks@.len(),
                n == decks_holding(decks@.take(d as int), name@),
            decreases decks.len() - d,
        {
            proof {
                assert(decks@.take(d + 1).drop_last() == decks@.take(d as int));
                lemma_decks_holding_bounded(decks@.take(d + 1), name@);
            }
            if deck_holds(&decks[d], name) {
                n = n + 1;
            }
            d = d + 1;
        }
        assert(decks@.take(d as int) == decks@);
        assert(crate::text::names_view(names@)[k as int] == name@);
        counts.push((name.clone(), n));
        k = k + 1;
    }
    counts
}

/// The index of the first entry with the highest count.
pub open spec fn first_max_index(counts: Seq<(Seq<char>, int)>) -> int
    decreases counts.len(),
{
    if counts.len() <= 1 {
        0
    } else {
        let j = first_max_index(counts.drop_last());
        if counts.last().1 > counts[j].1 {
            counts.len() - 1
        } else {
            j
        }
    }
}

/// The `top` entries with the highest counts, highest first; among equal
/// counts the earlier entry comes first.
pub open spec fn most_common(counts: Seq<(Seq<char>, int)>, top: nat) -> Seq<(Seq<char>, int)>
    decreases top,
{
    if top == 0 || counts.len() == 0 {
        Seq::empty()
    } else {
        let i = first_max_index(counts);
        seq![counts[i]] + most_common(counts.remove(i), (top - 1) as nat)
    }
}

/// The first index of the highest count is an index of the entries.
pub proof fn lemma_first_max_index(counts: Seq<(Seq<char>, int)>)
    requires
        counts.len() > 0,
    ensures
        0 <= first_max_index(counts) < counts.len(),
        forall|k: int| 0 <= k < counts.len() ==> #[trigger] counts[k].1 <= counts[first_max_index(counts)].1,
        forall|k: int| 0 <= k < first_max_index(counts) ==> #[trigger] counts[k].1 < counts[first_max_index(counts)].1,
    decreases counts.len(),
{
    if counts.len() > 1 {
        lemma_first_max_index(counts.drop_last());
        let j = first_max_index(counts.drop_last());
        assert forall|k: int| 0 <= k < counts.len() - 1 implies #[trigger] counts[k].1 == counts.drop_last()[k].1 by {}
    }
}

/// The most common entries: as many as asked for and as there are, each
/// one of the counted entries, the highest counts first.
pub proof fn lemma_most_common_ordered(counts: Seq<(Seq<char>, int)>, top: nat)
    ensures
        most_common(counts, top).len() == if top < counts.len() {
            top as int
        } else {
            counts.len() as int
        },
        forall|k: int|
            0 <= k < most_common(counts, top).len() ==> counts.contains(
                #[trigger] most_common(counts, top)[k],
            ),
        forall|i: int, j: int|
            0 <= i < j < most_common(counts, top).len() ==> (#[trigger] most_common(counts, top)[i]).1
                >= (#[trigger] most_common(counts, top)[j]).1,
    decreases top,
{
    if top > 0 && counts.len() > 0 {
        let m = first_max_index(counts);
        lemma_first_max_index(counts);
        let rest_in = counts.remove(m);
        lemma_most_common_ordered(rest_in, (top - 1) as nat);
        let rest = most_common(rest_in, (top - 1) as nat);
        let r = most_common(counts, top);
        assert(r == seq![counts[m]] + rest);
        assert forall|k: int| 0 <= k < rest.len() implies counts.contains(#[trigger] rest[k])
            && rest[k].1 <= counts[m].1 by {
            assert(rest_in.contains(rest[k]));
            let w = choose|w: int| 0 <= w < rest_in.len() && rest_in[w] == rest[k];
            if w < m {
                assert(rest_in[w] == counts[w]);
                assert(counts[w].1 <= counts[m].1);
            } else {
                assert(rest_in[w] == counts[w + 1]);
                assert(counts[w + 1].1 <= counts[m].1);
            }
        }
        assert forall|k: int| 0 <= k < r.len() implies counts.contains(#[trigger] r[k]) by {
            if k > 0 {
                assert(r[k] == rest[k - 1]);
            } else {
                assert(r[0] == counts[m]);
            }
        }
        assert forall|i: int, j: int| 0 <= i < j < r.len() implies (#[trigger] r[i]).1 >= (
        #[trigger] r[j]).1 by {
            assert(r[j] == rest[j - 1]);
            if i > 0 {
                assert(r[i] == rest[i - 1]);
            } else {
                assert(r[i] == counts[m]);
            }
        }
    }
}

/// The index of the first entry with the highest count.
fn first_max(counts: &Vec<(String, usize)>) -> (r: usize)
    requires
        counts@.len() > 0,
    ensures
        r == first_max_index(counts_view(counts@)),
        r < counts@.len(),
{
    let ghost cv = counts_view(counts@);
    let mut best: usize = 0;
    let mut i: usize = 1;
    assert(cv.take(1).len() <= 1);
    while i < counts.len()
        invariant
            1 <= i <= counts@.len(),
            cv == counts_view(counts@),
            best < i,
            best == first_max_index(cv.take(i as int)),
        decreases counts.len() - i,
    {
        proof {
            assert(cv.take(i + 1).drop_last() == cv.take(i as int));
            assert(cv.take(i + 1)[best as int] == cv[best as int]);
            assert(cv[best as int].1 == counts@[best as int].1);
            assert(cv[i as int].1 == counts@[i as int].1);
        }
        if counts[i].1 > counts[best].1 {
            best = i;
        }
        i = i + 1;
    }
    assert(cv.take(i as int) == cv);
    best
}

/// The `top` cards held by the most decks, most first; among equal counts
/// the earlier card comes first.
pub fn most_common_cards(counts: &Vec<(String, usize)>, top: usize) -> (r: Vec<(String, usize)>)
    ensures
        counts_view(r@) == most_common(counts_view(counts@), top as nat),
{
    let mut remaining: Vec<(String, usize)> = Vec::new();
    let mut c: usize = 0;
    while c < counts.len()
        invariant
            c <= counts@.len(),
            counts_view(remaining@) == counts_view(counts@.take(c as int)),
        decreases counts.len() - c,
    {
        let ghost before = remaining@;
        remaining.push((counts[c].0.clone(), counts[c].1));
        assert(counts_view(remaining@) == counts_view(before).push(
            (counts@[c as int].0@, counts@[c as int].1 as int),
        ));
        assert(counts@.take(c + 1) == counts@.take(c as int).push(counts@[c as int]));
        assert(counts_view(counts@.take(c + 1)) == counts_view(counts@.take(c as int)).push(
            (counts@[c as int].0@, counts@[c as int].1 as int),
        ));
        c = c + 1;
    }
    assert(counts@.take(c as int) == counts@);
    let mut picked: Vec<(String, usize)> = Vec::new();
    let mut left: usize = top;
    assert(counts_view(picked@) + most_common(counts_view(remaining@), left as nat) == most_common(
        counts_view(counts@),
        top as nat,
    ));
    while left > 0 && remaining.len() > 0
        invariant
            counts_view(picked@) + most_common(counts_view(remaining@), left as nat) == most_common(
                counts_view(counts@),
                top as nat,
            ),
        decreases left,
    {
        let i = first_max(&remaining);
        let ghost rv = counts_view(remaining@);
        let ghost pv = counts_view(picked@);
        let item = remaining.remove(i);
        proof {
            assert(counts_view(remaining@) == rv.remove(i as int));
            assert(rv[i as int] == (item.0@, item.1 as int));
        }
        picked.push(item);
        proof {
            assert(counts_view(picked@) == pv.push(rv[i as int]));
            assert(pv.push(rv[i as int]) + most_common(rv.remove(i as int), (left - 1) as nat) == pv
                + (seq![rv[i as int]] + most_common(rv.remove(i as int), (left - 1) as nat)));
        }
        left = left - 1;
    }
    assert(most_common(counts_view(remaining@), left as nat) == Seq::<(Seq<char>, int)>::empty());
    assert(counts_view(picked@) + Seq::<(Seq<char>, int)>::empty() == counts_view(picked@));
    picked
}

} // verus!
