# Last Epoch build as plain text

Turns the data behind a [Last Epoch Tools](https://www.lastepochtools.com/planner/)
build planner page into a plain-text build summary (character, stats, skills and
passive trees, equipment, idols, blessings), and scrapes the idol listings of the
item database.

The logic is a library verified with Verus; a small command-line program around it
drives the browser, reads and writes files and copies the report to the clipboard.

## Layout

- `src/json.rs`: the library's model of a parsed JSON document, with accessors and
  its compact text.
- `src/text.rs`: decimal rendering and parsing, joining, replacing, prefix tests,
  removal of markup tags.
- `src/sorting.rs`: the stable sort by numeric key used to order tree nodes.
- `src/sub_logic/resolver.rs`: the name resolver, loaded from the translation,
  core, item and ability databases.
- `src/sub_logic/report.rs`: a report under construction, text interleaved with
  numeric detail lines.
- `src/sub_logic/trees.rs`: the skill tree and passive tree sections.
- `src/sub_logic/gear.rs`: the equipment, idol and blessing sections.
- `src/sub_logic/mod.rs`: what a run does, the character and stats sections, and the
  whole report.
- `src/sub_logic/idols_scraper.rs`: the pages of the idol scrape and what is written
  for each.
- `src/page_text.rs`: the short report built from text read off the rendered page.
- `app/`: the command-line program (browser, files, clipboard, number formatting).
- `tests/`: tests of the library on concrete documents.

Each public function states in its contract what it returns, over spec functions of
the JSON model and of the resolver's view; the `law_*` proof functions state
properties that span functions.
