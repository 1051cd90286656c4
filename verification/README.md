# nexus_core

The core of a property graph engine, written in Verus: each function states
what it returns or changes in `requires` / `ensures` clauses over
mathematical models (`Seq`, `Map`, `Set`), and Verus proves the code against
them.

## Layout

- `src/` — the verified library.
  - `graph_simple`, `graph_algorithms`, `graph_construction`,
    `graph_comparison`: property graphs, traversals (BFS, DFS, components,
    topological order, spanning-tree selection), graph construction and
    graph differences.
  - `graph_correlation`: correlation graphs between code entities, their
    builders and manager, extraction from vectorizer results, collection
    queries and their builder, export formats (GraphML, GEXF, DOT) and
    performance measurements.
  - `index`: the label index over roaring bitmaps, pending index updates and
    the slot bookkeeping of the vector index.
  - `memory`, `memory_management`: a NUMA-partitioned cache, an access
    prefetcher, counter, stack and hash map with atomic-style operations,
    NUMA node selection, and the memory pool's allocation, release,
    merging and collection of blocks.
  - `monitoring`, `status`: metrics with a bounded history, health checks,
    profiles and query statistics.
  - `loader`, `csv`: the settings and phases of bulk loading, and the
    reading of node and relationship rows from comma-separated text.
  - `procedures`: the registry of named graph procedures, with the built-in
    `gds.` procedures protected from removal.
  - `laws`: proof functions stating properties that span several
    operations (what a read gives back of a write, what deletion keeps,
    what a repeated cached search returns, and others).
  - `str_map`, `id_map`, `text`, `time`, `error`: the keyed stores, number
    rendering, clock access and the error type the rest builds on.
- `tests/` — tests of the library.
- `app/` — the parts that are floating point, serde, I/O or thread based:
  weighted shortest paths, layouts and clustering, the B-tree property index,
  the HNSW vector index, the monitoring dashboard, the memory pool's
  background thread, NUMA probing, reading CSV files, the JSON parameters of
  queries, and serde copies of the library's types.

Calls into outside crates (`roaring`, `chrono`, `std` clock and hashing)
stand behind small trusted wrappers whose contracts say what the crates'
documentation promises.
