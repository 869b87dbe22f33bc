pub mod aggregate;
pub mod arrow;
pub mod async_function;
pub mod background_config;
pub mod binder;
pub mod block;
pub mod build_spill;
pub mod cache_manager;
pub mod column;
pub mod compaction_job;
pub mod data_dir;
pub mod data_mask;
pub mod dataflow;
pub mod error;
pub mod filter;
pub mod fixture;
pub mod flight_client;
pub mod flight_service;
pub mod insert;
pub mod license;
pub mod loser_tree;
pub mod merge_into_shuffle;
pub mod metatypes;
pub mod mutation_part;
pub mod mutation_source;
pub mod order;
pub mod plan_fragment;
pub mod profile;
pub mod raft_service;
pub mod read_partitions;
pub mod rows;
pub mod s_expr;
pub mod schema;
pub mod session_mgr;
pub mod share_cache;
pub mod show;
pub mod sort_group;
pub mod sort_merge;
pub mod text;
pub mod transform_filter;
pub mod truncate;
pub mod types;
pub mod udf_validator;
pub mod uuids;
pub mod vec_map;
pub mod vector_index;
