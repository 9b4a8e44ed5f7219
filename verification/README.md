# spine_ui

The rules behind the Spine task-tree card: a card that shows, inside a conversation, the tree of
tasks that an agent works on and the trees of the agents it has spawned. The library decides what a
card holds, when it changes, who is told, and what happens to it when listeners are replaced, turns
end, threads are rolled back or unloaded. Its code is verified with Verus.

## Layout

`src/` is the library. Its code is verified but for what is trusted, below; the page in `resource` is
a text that it hands on, of which nothing is proved.

- Cards: `protocol` (what is reported), `state`, `snapshot`, `spawn`, `agents` (what a card holds
  and how reports change it), `render` (its payload), `card` (the item that carries it), `laws`.
- Live cards, which last as long as their turns: `live` (one thread), `routes` (from a child to its
  parent's card), `listener` (what each event and command does).
- Retained cards, which outlive their turns: `retained` (one thread), `lineage` (routes, and which
  completed cards show which agents), `ancestry` (changes that go up to the ancestors), `barrier`
  (waiting for children at the end of a turn), `lifecycle`, `steps` and `commands` (a listener's
  work), `recovery` (stored cards), `ancestry_laws`.
- Threads and connections: `subscriptions`, `attach`, `history`, `turns`, `unloading`.
- What holds of cards, threads, routes and lineages as a whole: `invariants`, `thread_laws`,
  `subtree_laws`.
- The internal tool server that shows the card: `mcp`, `names`, `resource`.
- Opening a workspace in the desktop app: `desktop`.
- Foundations: `keyed` (sets and maps with a stable order), `text`, `events`, `clock`.

Time is an argument: wall-clock times of cards are Unix milliseconds, instants of delays are
milliseconds of a clock that never goes back. Messages between threads are values that functions
return; whoever calls them delivers them.

`app/` is ordinary Rust around the library: it reads the environment and the clocks, writes JSON,
starts processes, and runs the listeners on tokio tasks and channels. What it needs from the rest of
an application stands in `app/ports.rs`.

`tests/` exercises the library through its public interface.

## What is trusted

`clock` reads the system clock through `std::time`, and `desktop` encodes one form field with
`url::form_urlencoded`. Their contracts are believed; everything else is proved.
