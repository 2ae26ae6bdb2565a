# feedhub

An RSS/Atom aggregation service: it registers feeds, fetches them with
conditional GETs, parses RSS 2.0 and Atom documents, stores their entries
with stable identities, and answers a small REST API. A fixture server and
a command-line client come with it.

`src/` is the library, verified with Verus: every function carries a
contract over mathematical models (`Seq`, `Map`, spec functions), and the
properties the service promises across calls stand as `law_*` proof
functions next to the code they are about.

- Dates: `date`, `datetime`, `storedate`, `feeddate`, `instant` — RFC 3339
  and RFC 822 readings, UTC normalization, storage formats.
- Documents: `xml` (events from `quick-xml`), `feed`, `parser`, `onepass`,
  `pathparse` (event-driven readers) and `domfeed` (a `roxmltree` tree).
- Storage: `store` (feeds and entries, ordering, windows, search), `refresh`
  and `fetch` (what a fetch outcome does to the store and reports).
- HTTP: `router` and `rest` (routing and request validation), `params`,
  `fileserve` and `httpwire` (the fixture server), `ctl` (the client's
  requests and output lines), `dto`, `api`, `model`, `text`, `fixtures`.

`app/` holds the program: argument parsing, sockets, files, the clock,
fetches and JSON. `tests/` runs the library on concrete values.
