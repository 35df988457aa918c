//! Reading plain-text deck lists: one `<quantity> <card name>` per line.
use vstd::prelude::*;

use crate::error::AppError;
use crate::text::{
    chars_of, find, find_chars, lemma_find, parse_usize, parse_usize_chars, string_of, sub_chars,
    trim, trim_chars,
};

verus! {

/// One deck list line: how many copies of which card.
#[derive(Debug)]
pub struct DeckEntry {
    pub quantity: usize,
    pub card_name: String,
}

impl View for DeckEntry {
    type V = (usize, Seq<char>);

    open spec fn view(&self) -> (usize, Seq<char>) {
        (self.quantity, self.card_name@)
    }
}

/// The entries of a deck list, as quantities and card names.
pub open spec fn entries_view(entries: Seq<DeckEntry>) -> Seq<(usize, Seq<char>)> {
    entries.map_values(|e: DeckEntry| e@)
}

/// How one line of a deck list reads.
pub enum LineReading {
    /// Nothing but whitespace.
    Blank,
    /// A quantity and a card name.
    Entry(usize, Seq<char>),
    /// No space between a quantity and a card name.
    Malformed,
    /// The text before the first space is no quantity.
    BadQuantity,
}

/// Why a deck list does not read: the kind of fault and its 1-based line.
pub enum DeckListFault {
    Malformed(int),
    BadQuantity(int),
}

/// The error that reports a fault in a deck list.
pub open spec fn fault_error(fault: DeckListFault) -> AppError {
    match fault {
        DeckListFault::Malformed(n) => AppError::InvalidDeckLine { line_number: n as usize },
        DeckListFault::BadQuantity(n) => AppError::InvalidQuantity { line_number: n as usize },
    }
}

/// The reading of one line: trimmed; blank lines carry nothing; otherwise the
/// text before the first space is the quantity and the trimmed rest the name.
pub open spec fn read_line(line: Seq<char>) -> LineReading {
    let t = trim(line);
    if t.len() == 0 {
        LineReading::Blank
    } else {
        match find(t, seq![' ']) {
            None => LineReading::Malformed,
            Some(k) => match parse_usize(t.subrange(0, k)) {
                None => LineReading::BadQuantity,
                Some(q) => LineReading::Entry(q, trim(t.subrange(k + 1, t.len() as int))),
            },
        }
    }
}

/// The length of the first line of `s`, up to its first `\n`.
pub open spec fn line_len(s: Seq<char>) -> int
    decreases s.len(),
{
    if s.len() == 0 || s[0] == '\n' {
        0
    } else {
        1 + line_len(s.drop_first())
    }
}

/// The first line never runs past the end of the text.
pub proof fn lemma_line_len_bounds(s: Seq<char>)
    ensures
        0 <= line_len(s) <= s.len(),
    decreases s.len(),
{
    if s.len() > 0 && s[0] != '\n' {
        lemma_line_len_bounds(s.drop_first());
    }
}

/// What follows the first line of `s` and its `\n`.
pub open spec fn after_line(s: Seq<char>) -> Seq<char> {
    if line_len(s) < s.len() {
        s.subrange(line_len(s) + 1, s.len() as int)
    } else {
        Seq::empty()
    }
}

/// `entries` in front of the entries of `rest`, or the fault of `rest`.
pub open spec fn prepend(
    entries: Seq<(usize, Seq<char>)>,
    rest: Result<Seq<(usize, Seq<char>)>, DeckListFault>,
) -> Result<Seq<(usize, Seq<char>)>, DeckListFault> {
    match rest {
        Ok(more) => Ok(entries + more),
        Err(fault) => Err(fault),
    }
}

/// The entries of the deck list `s` whose first line is line `number`, or
/// the first fault in it. Lines end at `\n`.
pub open spec fn read_deck(s: Seq<char>, number: int) -> Result<
    Seq<(usize, Seq<char>)>,
    DeckListFault,
>
    decreases s.len(),
{
    if s.len() == 0 {
        Ok(Seq::empty())
    } else {
        proof {
            lemma_line_len_bounds(s);
        }
        let rest = after_line(s);
        match read_line(s.subrange(0, line_len(s))) {
            LineReading::Blank => read_deck(rest, number + 1),
            LineReading::Malformed => Err(DeckListFault::Malformed(number)),
            LineReading::BadQuantity => Err(DeckListFault::BadQuantity(number)),
            LineReading::Entry(q, name) => prepend(seq![(q, name)], read_deck(rest, number + 1)),
        }
    }
}

/// The entries of a whole deck list text, or its first fault.
pub open spec fn read_deck_text(s: Seq<char>) -> Result<Seq<(usize, Seq<char>)>, DeckListFault> {
    read_deck(s, 1)
}

/// The entries of `s` that come before its first fault; all of them when it
/// has none.
pub open spec fn readable_prefix(s: Seq<char>) -> Seq<(usize, Seq<char>)>
    decreases s.len(),
{
    if s.len() == 0 {
        Seq::empty()
    } else {
        proof {
            lemma_line_len_bounds(s);
        }
        let rest = after_line(s);
        match read_line(s.subrange(0, line_len(s))) {
            LineReading::Blank => readable_prefix(rest),
            LineReading::Entry(q, name) => seq![(q, name)] + readable_prefix(rest),
            _ => Seq::empty(),
        }
    }
}

/// The number of cards that the entries `es` add up to.
pub open spec fn quantity_sum(es: Seq<(usize, Seq<char>)>) -> int
    decreases es.len(),
{
    if es.len() == 0 {
        0
    } else {
        quantity_sum(es.take(es.len() - 1)) + es[es.len() - 1].0
    }
}

/// The quantities of two runs of entries add up.
pub proof fn lemma_quantity_sum_concat(a: Seq<(usize, Seq<char>)>, b: Seq<(usize, Seq<char>)>)
    ensures
        quantity_sum(a + b) == quantity_sum(a) + quantity_sum(b),
        quantity_sum(a) >= 0,
        quantity_sum(b) >= 0,
    decreases a.len() + b.len(),
{
    if b.len() == 0 {
        assert(a + b == a);
        if a.len() > 0 {
            lemma_quantity_sum_concat(a.take(a.len() - 1), b);
        }
    } else {
        let k = b.len() - 1;
        assert((a + b).take(a.len() + k) == a + b.take(k));
        lemma_quantity_sum_concat(a, b.take(k));
    }
}

/// One entry adds its own quantity.
pub proof fn lemma_quantity_sum_single(e: (usize, Seq<char>))
    ensures
        quantity_sum(seq![e]) == e.0,
{
    assert(seq![e].take(0) == Seq::<(usize, Seq<char>)>::empty());
    assert(quantity_sum(Seq::<(usize, Seq<char>)>::empty()) == 0);
}

/// A prefix of the entries adds up to no more than all of them.
pub proof fn lemma_quantity_sum_prefix(es: Seq<(usize, Seq<char>)>, i: int)
    requires
        0 <= i <= es.len(),
    ensures
        0 <= quantity_sum(es.take(i)) <= quantity_sum(es),
{
    lemma_quantity_sum_concat(es.take(i), es.skip(i));
    assert(es.take(i) + es.skip(i) == es);
}

/// When a deck list reads without fault, its readable prefix is all of it.
pub proof fn lemma_read_deck_prefix(s: Seq<char>, number: int)
    ensures
        read_deck(s, number) matches Ok(es) ==> readable_prefix(s) == es,
    decreases s.len(),
{
    if s.len() > 0 {
        lemma_line_len_bounds(s);
        lemma_read_deck_prefix(after_line(s), number + 1);
    }
}

/// How reading `s` from line `number` goes on from its first line, whose
/// reading is `reading`, to the text `rest` after that line.
pub open spec fn deck_step(s: Seq<char>, rest: Seq<char>, reading: LineReading, number: int) -> bool {
    &&& read_deck(s, number) == match reading {
        LineReading::Blank => read_deck(rest, number + 1),
        LineReading::Malformed => Err(DeckListFault::Malformed(number)),
        LineReading::BadQuantity => Err(DeckListFault::BadQuantity(number)),
        LineReading::Entry(q, name) => prepend(seq![(q, name)], read_deck(rest, number + 1)),
    }
    &&& readable_prefix(s) == match reading {
        LineReading::Blank => readable_prefix(rest),
        LineReading::Entry(q, name) => seq![(q, name)] + readable_prefix(rest),
        _ => Seq::empty(),
    }
}

/// The line reading of an executed line.
pub enum ParsedLine {
    Blank,
    Entry(DeckEntry),
    Malformed,
    BadQuantity,
}

/// The reading that a parsed line stands for.
pub open spec fn parsed_view(p: ParsedLine) -> LineReading {
    match p {
        ParsedLine::Blank => LineReading::Blank,
        ParsedLine::Entry(e) => LineReading::Entry(e.quantity, e.card_name@),
        ParsedLine::Malformed => LineReading::Malformed,
        ParsedLine::BadQuantity => LineReading::BadQuantity,
    }
}

/// Reads one deck list line.
pub fn read_deck_line(line: &Vec<char>) -> (r: ParsedLine)
    ensures
        parsed_view(r) == read_line(line@),
{
    let t = trim_chars(line);
    if t.len() == 0 {
        return ParsedLine::Blank;
    }
    let space: Vec<char> = vec![' '];
    assert(space@ == seq![' ']);
    match find_chars(&t, &space) {
        None => ParsedLine::Malformed,
        Some(k) => {
            proof {
                lemma_find(t@, space@);
            }
            let quantity_text = sub_chars(&t, 0, k);
            let rest = sub_chars(&t, k + 1, t.len());
            match parse_usize_chars(&quantity_text) {
                None => ParsedLine::BadQuantity,
                Some(q) => {
                    let name = trim_chars(&rest);
                    ParsedLine::Entry(DeckEntry { quantity: q, card_name: string_of(&name) })
                },
            }
        },
    }
}

/// The index of the `\n` that ends the line starting at `start`, or the
/// length of the text when that line is the last.
pub fn line_end(cs: &Vec<char>, start: usize) -> (e: usize)
    requires
        start <= cs.len(),
    ensures
        e == start + line_len(cs@.subrange(start as int, cs.len() as int)),
        start <= e <= cs.len(),
        e < cs.len() ==> cs@[e as int] == '\n',
{
    let n = cs.len();
    let mut i: usize = start;
    while i < n && cs[i] != '\n'
        invariant
            start <= i <= n == cs.len(),
            line_len(cs@.subrange(start as int, n as int)) == (i - start) + line_len(
                cs@.subrange(i as int, n as int),
            ),
        decreases n - i,
    {
        assert(cs@.subrange(i as int, n as int).drop_first() == cs@.subrange(i + 1, n as int));
        i = i + 1;
    }
    i
}

/// One step of reading a deck list: the line starting at `start` and what
/// follows it.
pub proof fn lemma_read_deck_step(cs: Seq<char>, start: int, e: int, number: int)
    requires
        0 <= start < cs.len(),
        e == start + line_len(cs.subrange(start, cs.len() as int)),
        start <= e <= cs.len(),
    ensures
        deck_step(
            cs.subrange(start, cs.len() as int),
            cs.subrange(
                if e < cs.len() {
                    e + 1
                } else {
                    cs.len() as int
                },
                cs.len() as int,
            ),
            read_line(cs.subrange(start, e)),
            number,
        ),
{
    let s = cs.subrange(start, cs.len() as int);
    assert(s.subrange(0, line_len(s)) == cs.subrange(start, e));
    if e < cs.len() {
        assert(after_line(s) == cs.subrange(e + 1, cs.len() as int));
    } else {
        assert(after_line(s) == cs.subrange(cs.len() as int, cs.len() as int));
    }
}

/// Reads the line of `cs` that starts at `start`; also returns where the
/// next line starts.
pub(crate) fn next_deck_line(cs: &Vec<char>, start: usize, Ghost(number): Ghost<int>) -> (r: (
    ParsedLine,
    usize,
))
    requires
        start < cs.len(),
    ensures
        start < r.1 <= cs.len(),
        deck_step(
            cs@.subrange(start as int, cs.len() as int),
            cs@.subrange(r.1 as int, cs.len() as int),
            parsed_view(r.0),
            number,
        ),
{
    let n = cs.len();
    let e = line_end(cs, start);
    let line = sub_chars(cs, start, e);
    proof {
        lemma_read_deck_step(cs@, start as int, e as int, number);
    }
    let next = if e < n {
        e + 1
    } else {
        n
    };
    (read_deck_line(&line), next)
}

/// `prepend` of two runs of entries is `prepend` of their concatenation.
pub proof fn lemma_prepend_twice(
    a: Seq<(usize, Seq<char>)>,
    b: Seq<(usize, Seq<char>)>,
    rest: Result<Seq<(usize, Seq<char>)>, DeckListFault>,
)
    ensures
        prepend(a, prepend(b, rest)) == prepend(a + b, rest),
{
    match rest {
        Ok(more) => {
            assert(a + (b + more) == (a + b) + more);
        },
        Err(_) => {},
    }
}

/// Reads a deck list: every non-blank line must be a quantity, a space and a
/// card name.
pub fn parse_decklist(deck_text: &str) -> (r: Result<Vec<DeckEntry>, AppError>)
    ensures
        match r {
            Ok(entries) => read_deck_text(deck_text@) == Ok::<
                Seq<(usize, Seq<char>)>,
                DeckListFault,
            >(entries_view(entries@)),
            Err(error) => read_deck_text(deck_text@) matches Err(fault) && error == fault_error(
                fault,
            ),
        },
{
    let cs = chars_of(deck_text);
    let n = cs.len();
    let mut entries: Vec<DeckEntry> = Vec::new();
    let mut start: usize = 0;
    let mut line_index: usize = 0;
    assert(cs@.subrange(0, n as int) == cs@);
    assert(entries_view(entries@) == Seq::<(usize, Seq<char>)>::empty());
    while start < n
        invariant
            n == cs.len(),
            cs@ == deck_text@,
            start <= n,
            line_index <= start,
            read_deck_text(cs@) == prepend(
                entries_view(entries@),
                read_deck(cs@.subrange(start as int, n as int), line_index + 1),
            ),
        decreases n - start,
    {
        let line_number = line_index + 1;
        let (parsed, next) = next_deck_line(&cs, start, Ghost(line_number as int));
        let ghost before = entries_view(entries@);
        let ghost rest = cs@.subrange(next as int, n as int);
        match parsed {
            ParsedLine::Blank => {},
            ParsedLine::Malformed => {
                return Err(AppError::InvalidDeckLine { line_number });
            },
            ParsedLine::BadQuantity => {
                return Err(AppError::InvalidQuantity { line_number });
            },
            ParsedLine::Entry(entry) => {
                let ghost item = entry@;
                entries.push(entry);
                proof {
                    assert(entries_view(entries@) == before + seq![item]);
                    lemma_prepend_twice(before, seq![item], read_deck(rest, line_number + 1));
                }
            },
        }
        start = next;
        line_index = line_number;
    }
    assert(cs@.subrange(n as int, n as int) == Seq::<char>::empty());
    assert(entries_view(entries@) + Seq::<(usize, Seq<char>)>::empty() == entries_view(entries@));
    Ok(entries)
}

/// Whether the cards of the readable part of a deck list add up to a number
/// that fits in `usize`, which is what counting them needs.
pub fn deck_quantity_fits(deck_text: &str) -> (r: bool)
    ensures
        r == (quantity_sum(readable_prefix(deck_text@)) <= usize::MAX),
{
    let cs = chars_of(deck_text);
    let n = cs.len();
    let mut total: usize = 0;
    let mut start: usize = 0;
    let ghost mut counted: Seq<(usize, Seq<char>)> = Seq::empty();
    assert(cs@.subrange(0, n as int) == cs@);
    assert(counted + readable_prefix(cs@) == readable_prefix(cs@));
    while start < n
        invariant
            n == cs.len(),
            cs@ == deck_text@,
            start <= n,
            total == quantity_sum(counted),
            readable_prefix(cs@) == counted + readable_prefix(cs@.subrange(start as int, n as int)),
        decreases n - start,
    {
        let (parsed, next) = next_deck_line(&cs, start, Ghost(1));
        let ghost rest = cs@.subrange(next as int, n as int);
        match parsed {
            ParsedLine::Entry(entry) => {
                let ghost x = entry@;
                proof {
                    lemma_quantity_sum_concat(counted, seq![x]);
                    lemma_quantity_sum_single(x);
                    assert(counted + (seq![x] + readable_prefix(rest)) == (counted + seq![x])
                        + readable_prefix(rest));
                }
                match total.checked_add(entry.quantity) {
                    Some(t) => {
                        total = t;
                        proof {
                            counted = counted + seq![x];
                        }
                    },
                    None => {
                        proof {
                            lemma_quantity_sum_concat(counted + seq![x], readable_prefix(rest));
                        }
                        return false;
                    },
                }
            },
            ParsedLine::Blank => {},
            _ => {
                assert(readable_prefix(cs@.subrange(start as int, n as int)) == Seq::<
                    (usize, Seq<char>),
                >::empty());
                assert(counted + Seq::<(usize, Seq<char>)>::empty() == counted);
                return true;
            },
        }
        start = next;
    }
    assert(cs@.subrange(n as int, n as int) == Seq::<char>::empty());
    assert(counted + Seq::<(usize, Seq<char>)>::empty() == counted);
    true
}

} // verus!
