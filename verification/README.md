# deck_analyzer

Deck statistics, commander deck checks, card role tagging and Archidekt
helpers for Magic: The Gathering deck lists, written in Verus.

- `src/` is the verified library:
  - `text` — whitespace trimming, substring search, decimal parsing and
    printing on character sequences;
  - `decklist` — reading `<quantity> <card name>` deck lists;
  - `analyzer` — deck statistics and commander deck validation over a
    `CardLookup`;
  - `db` — the roles a card plays, judged from its rules text, and the JSON
    list columns of the card database;
  - `source_decks` — Archidekt addresses and search queries, source decks,
    Moxfield export lines and the most common cards across decks;
  - `types`, `error` — card roles and the error type.
- `app/` is the command line program: the SQLite card database, HTTP, files,
  JSON decoding and printing.
- `tests/` runs the library on concrete decks and cards.
