# neuronic

A live view of the message flow on a Caryatid message bus: monitor
snapshots arrive over RabbitMQ and are drawn as a graph of modules (nodes)
joined by the topics they write and read (edges), with health colors,
activity effects, search, filters and groups.

The project is a Verus crate:

- `src/` is the verified library. It decodes the snapshots that arrive
  from the bus, builds the flow graph from a snapshot
  (one node per module, one edge per producer/consumer pair of a topic that
  is not ignored), rates the health of modules and connections, finds the
  modules that lie on cycles, decides which activity effects a snapshot
  starts and keeps them within their limits, matches search queries, and
  holds the viewer's filter, group, theme, tier and key-handling rules.
  The graph itself is petgraph's `DiGraph`, reached through the functions
  of `src/digraph.rs`, whose contracts describe each call.
- `app/` is the program around it: command line, configuration files,
  the RabbitMQ subscription, and the egui window, which draws, animates
  and lays out the graph in floating point.
- `tests/` exercise the library with concrete snapshots.
