# databend

Pieces of a cloud data warehouse, with their behaviour stated in contracts and proved by Verus.

- `src/` is the library. Rows and blocks: `types`, `column`, `block`, `schema`, `rows`, `order`.
  Query processing: `filter`, `sort_merge` with `loser_tree`, `sort_group`, `aggregate`,
  `build_spill`, `transform_filter`, `async_function`. Plans: `plan_fragment`, `dataflow`, `s_expr`,
  `vector_index`, `binder`, `udf_validator`, `insert`, `merge_into_shuffle`, `data_mask`, `show`,
  `profile`. Storage: `read_partitions`, `mutation_part`, `mutation_source`, `truncate`,
  `cache_manager`, `share_cache`, `metatypes`, `arrow`. Services: `flight_client`, `flight_service`,
  `session_mgr`, `raft_service`, `license`, `background_config`, `compaction_job`. Samples:
  `fixture`, `data_dir`. Shared: `text`, `vec_map`, `uuids`, `error`.
- `tests/` runs the library on concrete values.
- `app/` surrounds the library with serialization, locks, files, the network and the clock.

Calls into other crates stand in small functions whose contracts are believed: time zones
(`chrono-tz`), graphs (`petgraph`), identifiers (`uuid`), caches that forget (`moka`), and the
encodings of `bincode` and `jsonb`.
