# atomic_core

The decisions of a personal knowledge base, written in Verus: what is done with a note, a tag, a
setting, a feed, an article or a report, and what is answered. What each function returns or
changes is stated in its contract and proved.

- `src/` is the library. Long-running work (an import, a poll of a feed, a search, the research
  for a report) is a state machine: `start` or `begin` gives the first action, `accepts` tells
  whether an event is awaited, `step` takes one in and gives the next action. Functions whose name
  ends in `_as` take ids and times as arguments; those without make fresh ones.
- `app/` carries the actions out: storage, models, files, floating point, JSON and the server.
- `tests/` runs the library.

Proof functions named `law_...` state what holds of the library as a whole.

| module | about |
| --- | --- |
| `atoms`, `pipeline` | making and changing notes, and the jobs that follow |
| `auth`, `state`, `routes`, `events` | the server: tokens, setup claims, answers, events |
| `canvas`, `embeddings`, `graph` | what the canvas and the neighbourhood of a note show |
| `import`, `ingest` | vaults of notes, pages and feeds |
| `markdown`, `source`, `text`, `strmap` | text |
| `reports` | schedules, research, evidence and citations of reports |
| `rows`, `startup` | the database |
| `search`, `settings`, `tags`, `wiki` | searches, layered settings, the tag tree, articles |
