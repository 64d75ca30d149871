# Kyoso

The verified core of a collaborative scene editor.

- `src/agent` — an agent's view of a scene graph: stable node references and
  paths, scans, walks, navigation, queries, pattern matching, edits, and a
  coalesced stream of changes.
- `src/editor` — what the two editors share: commands on the replicated graph,
  selection, connecting, and the events told to the outside.
- `src/client`, `src/circuit` — the design editor and the circuit editor.
- `src/presence`, `src/wire` — awareness of other peers and its wire format.
- `src/bridge` — channels between an editor and whoever drives it; `src/channel`
  holds the halves they are made of.
- `app` — the command line front end: the agent demo, the wire schema, and the
  editors running without a window, with commands and events as lines of JSON.

Coordinates, colours and sizes are held as the bit patterns of single-precision
numbers; arithmetic on them stays in `app`.
