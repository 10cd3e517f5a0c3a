# kaeru

A graph memory whose nodes are grouped by initiative, written in Verus.

A store keeps nodes, edges, memberships, share policies and an audit trail in an embedded CozoDB
database. Nodes and edges are bi-temporal: every write is stamped with a whole second, and nothing is
erased. What is forgotten stops reading from then on; a read of an earlier moment still finds it.

## Layout

| where | what |
|---|---|
| `src/model.rs` | what a store holds, as mathematical values, and what a history reads as |
| `src/substrate.rs` | the database: its scripts, and what each of them answers or changes |
| `src/store.rs`, `rows.rs`, `clock.rs`, `text.rs` | the store, result rows, the clock, text |
| `src/nodes.rs`, `edges.rs`, `briefs.rs`, `policy.rs`, `board.rs`, `audit.rs` | single records |
| `src/mutate/` | rename, merge, delete and attach |
| `src/recall.rs`, `recall/`, `listing.rs`, `spelling.rs` | discovery of initiatives |
| `src/open_work.rs`, `tags.rs`, `order.rs`, `dates.rs` | open tasks, due reminders, open claims |
| `src/invariants.rs` | what every verb keeps |
| `src/api/` | the rules of the REST surface |
| `app/` | the HTTP service around the library |

Each verb comes twice. `rename_initiative_at` takes the moment it happens at and has an exact
contract; `rename_initiative` asks the clock and does the same. Writes are stamped with the second, and
the present is read at the microsecond, so that it lies past every stamp; a verb that both looks and
writes takes the two apart, as `attach_node_at` does. A contract speaks of `held()`, what the
store holds, and of `settings()`, what it is set to.

The database, the calendar and the Unicode tables are trusted. Their contracts stand in
`src/substrate.rs`, `src/clock.rs` and `src/text.rs`, each with a comment that says what it claims. A
call of the database may fail at any time: every contract says what the store then holds.

Weights are held as the bits of their doubles, since doubles are not reasoned about here; `app/`
converts.
