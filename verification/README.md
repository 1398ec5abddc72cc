# Chronatello

Chronatello converts the public DATA 385 Fall 2026 schedule into an automatically updated
iCalendar subscription. Its logic is a Verus library: what each function returns is stated in its
contract and proved.

1. The schedule page is read into items with a lasting identity (`extract`, `identity`,
   `overrides`).
2. The model is asked about items that are new or have changed (`gemini`).
3. Its replies are held against the schedule text: dates, weekdays, times, column and links
   (`validate`, `evidence`).
4. The stored state is brought up to date (`reconcile`, `state`).
5. A calendar is written of the active events, in lines that can be folded (`calendar`, `ics`,
   `folding`).
6. The files are checked and published in steps that never lose the last publication (`publish`,
   `reading`, `publication`).

What a reconciliation keeps is proved in `stability`: identifiers last, revision numbers grow by
one, a reply decides nothing but the event of its item, an update that would retire more than half
of the active events is refused, and a second pass changes nothing.

The calls into chrono, chrono-tz, icalendar, regex, reqwest's `Url`, scraper, serde_json and sha2
stand behind small wrappers in `clock`, `ics`, `pattern`, `web`, `page`, `json` and `digest`. What
is believed of each is its contract.

`app/` holds the program: network and file access, the stored forms of the data, and messages.

## Manual identity overrides

`overrides.json` maps exact normalized schedule text to an identity, for an unlinked item that is
renamed and moved. A readable value makes a new identity. To keep the identity of an event that was
published before, give its `source_key` from `_state.json`:

```json
{
  "Submit the final analysis by Mon 8/31": "source_key:0123456789abcdef0123456789abcdef0123456789abcdef0123456789abcdef"
}
```
