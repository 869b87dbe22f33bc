use databend::data_dir::check_data_dir;
use databend::data_dir::check_last_snapshot;
use databend::data_dir::check_table_statistic_file;
use databend::data_dir::file_kind;
use databend::data_dir::scan_data_dir;
use databend::data_dir::DirCounts;
use databend::data_dir::DirPrefixes;
use databend::data_dir::FileKind;
use databend::error::ErrorCode;
use databend::metatypes::Database;
use databend::metatypes::Table;
use databend::read_partitions::do_read_partitions;
use databend::read_partitions::prune_snapshot_blocks;
use databend::read_partitions::read_partitions_with_metas;
use databend::read_partitions::to_partitions;
use databend::read_partitions::BlockMeta;
use databend::read_partitions::ColumnMeta;
use databend::read_partitions::ColumnStatistics;
use databend::read_partitions::PartitionsShuffleKind;
use databend::read_partitions::PrunedBlock;
use databend::read_partitions::PrunerKind;
use databend::read_partitions::PruningStatistics;
use databend::read_partitions::PushDownInfo;
use databend::read_partitions::ReadPlan;
use databend::read_partitions::SnapshotSummary;
use databend::read_partitions::TopK;
use databend::schema::TableSchema;
use databend::share_cache::SharePresignedCacheManager;
use databend::truncate::cleared_snapshot;
use databend::truncate::new_snapshot;
use databend::truncate::Truncation;
use databend::truncate::TruncateAction;
use databend::truncate::UpsertError;
use std::collections::HashSet;

fn text(s: &str) -> String {
    s.to_string()
}

fn block(location: &str, rows: u64, min: i64, max: i64) -> PrunedBlock {
    PrunedBlock {
        range: None,
        meta: BlockMeta {
            row_count: rows,
            block_size: 100 * rows,
            col_metas: vec![
                (0, ColumnMeta { offset: 0, len: 10, num_values: rows }),
                (1, ColumnMeta { offset: 10, len: 7, num_values: rows }),
            ],
            col_stats: vec![(0, ColumnStatistics { min, max })],
            location: text(location),
            format_version: 2,
            delete_mask_location: None,
            delete_mark_size: 0,
            compression: 1,
        },
    }
}

fn three_blocks() -> Vec<PrunedBlock> {
    vec![block("a", 5, 4, 9), block("b", 3, 1, 20), block("c", 2, 4, 7)]
}

fn push_down(projection: Option<Vec<u32>>, filters: bool, limit: Option<usize>) -> Option<PushDownInfo> {
    Some(PushDownInfo { projection, has_filters: filters, has_order_by: false, limit })
}

fn locations(parts: &[databend::read_partitions::FusePartInfo]) -> Vec<String> {
    parts.iter().map(|p| p.location.clone()).collect()
}

#[test]
fn all_blocks_are_read_without_a_limit() {
    let (s, p) = to_partitions(None, three_blocks(), None, &None);
    assert_eq!(locations(&p.partitions), ["a", "b", "c"]);
    assert_eq!(p.kind, PartitionsShuffleKind::Mod);
    assert_eq!((s.read_rows, s.read_bytes, s.is_exact), (10, 1000, true));
    assert_eq!(p.partitions[0].columns_meta.len(), 2);
    assert_eq!(p.partitions[0].sort_min_max, None);
}

#[test]
fn no_more_blocks_are_read_than_the_limit_asks_for() {
    let (s, p) = to_partitions(None, three_blocks(), None, &push_down(None, false, Some(5)));
    assert_eq!(locations(&p.partitions), ["a"]);
    assert_eq!((s.read_rows, s.is_exact), (5, true));

    let (s, p) = to_partitions(None, three_blocks(), None, &push_down(None, false, Some(6)));
    assert_eq!(locations(&p.partitions), ["a", "b"]);
    assert_eq!((s.read_rows, s.is_exact), (8, false));

    let (s, p) = to_partitions(None, three_blocks(), None, &push_down(None, false, Some(0)));
    assert!(p.partitions.is_empty());
    assert_eq!((s.read_rows, s.is_exact), (0, true));
}

#[test]
fn a_filter_sets_the_limit_aside() {
    let (s, p) = to_partitions(None, three_blocks(), None, &push_down(None, true, Some(1)));
    assert_eq!(p.partitions.len(), 3);
    assert!(!s.is_exact);
}

#[test]
fn deleted_columns_are_not_read() {
    let mut deleted: HashSet<u32> = HashSet::new();
    deleted.insert(1);
    let (s, p) = to_partitions(Some(&deleted), three_blocks(), None, &None);
    assert_eq!(p.partitions[2].columns_meta.keys().copied().collect::<Vec<u32>>(), [0]);
    assert_eq!(s.read_bytes, 1000);
}

#[test]
fn a_projection_reads_its_columns() {
    let (s, p) = to_partitions(None, three_blocks(), None, &push_down(Some(vec![1, 8]), false, None));
    assert_eq!(s.read_bytes, 21);
    assert_eq!(p.partitions[1].columns_meta.get(&1), Some(&ColumnMeta { offset: 10, len: 7, num_values: 3 }));
    assert_eq!(p.partitions[1].columns_meta.len(), 1);
}

#[test]
fn top_k_blocks_are_sorted() {
    let asc = Some(TopK { column_id: 0, asc: true });
    let (_, p) = to_partitions(None, three_blocks(), asc, &None);
    assert_eq!(locations(&p.partitions), ["b", "c", "a"]);
    assert_eq!(p.kind, PartitionsShuffleKind::InOrder);
    assert_eq!(p.partitions[0].sort_min_max, Some((1, 20)));

    let desc = Some(TopK { column_id: 0, asc: false });
    let (_, p) = to_partitions(None, three_blocks(), desc, &push_down(Some(vec![0]), false, Some(4)));
    assert_eq!(locations(&p.partitions), ["b", "a"]);
}

#[test]
fn deletion_marks_are_handed_on() {
    let mut b = block("a", 5, 1, 2);
    b.range = Some((1, 3));
    b.meta.delete_mask_location = Some(77);
    b.meta.delete_mark_size = 12;
    let (_, p) = to_partitions(None, vec![b], None, &None);
    assert_eq!(p.partitions[0].delete_mark, Some((77, 12)));
    assert_eq!(p.partitions[0].range, Some((1, 3)));
    assert_eq!((p.partitions[0].format_version, p.partitions[0].compression), (2, 1));
}

#[test]
fn statistics_tell_what_was_pruned() {
    let pruning = PruningStatistics { segments_before: 4, segments_after: 2, blocks_before: 9, blocks_after: 3 };
    let (s, _) = read_partitions_with_metas(None, three_blocks(), None, &push_down(None, false, Some(1)), 9, pruning);
    assert_eq!((s.partitions_total, s.partitions_scanned), (9, 3));
    assert_eq!(s.pruning_stats, pruning);
    assert!(!s.is_exact);
}

#[test]
fn a_read_is_planned_from_the_snapshot() {
    assert!(matches!(do_read_partitions(&None, true), ReadPlan::Nothing));
    let snapshot =
        Some(SnapshotSummary { row_count: 10, compressed_byte_size: 50, block_count: 6, segments: vec![31, 32] });
    match do_read_partitions(&snapshot, true) {
        ReadPlan::LazySegments { statistics, kind, segments } => {
            assert_eq!((statistics.read_rows, statistics.read_bytes), (10, 50));
            assert_eq!((statistics.partitions_scanned, statistics.partitions_total), (2, 2));
            assert!(!statistics.is_exact);
            assert_eq!(kind, PartitionsShuffleKind::Mod);
            assert_eq!(segments, [31, 32]);
        }
        other => panic!("{:?}", other),
    }
    match do_read_partitions(&snapshot, false) {
        ReadPlan::Prune { segments, partitions_total } => {
            assert_eq!((segments, partitions_total as u64), (vec![31, 32], 6));
        }
        other => panic!("{:?}", other),
    }
}

#[test]
fn pages_are_pruned_in_clustered_native_tables() {
    assert_eq!(prune_snapshot_blocks(true, true), PrunerKind::BlocksAndPages);
    assert_eq!(prune_snapshot_blocks(false, true), PrunerKind::Blocks);
    assert_eq!(prune_snapshot_blocks(true, false), PrunerKind::Blocks);
    assert_eq!(prune_snapshot_blocks(false, false), PrunerKind::Blocks);
}

#[test]
fn a_cleared_snapshot_follows_the_last() {
    let first = cleared_snapshot(7, None, TableSchema { fields: vec![] });
    assert_eq!((first.snapshot_id, first.prev_snapshot_id), (7, None));
    let mut full = first;
    full.segments.push(text("s"));
    full.summary.row_count = 3;
    let second = cleared_snapshot(8, Some(full), TableSchema { fields: vec![] });
    assert_eq!((second.snapshot_id, second.prev_snapshot_id), (8, Some(7)));
    assert_eq!((second.segments.len(), second.summary.row_count), (0, 0));
}

#[test]
fn new_snapshots_are_named_by_their_ids() {
    let (a, name) = new_snapshot(None, TableSchema { fields: vec![] });
    assert_eq!(name, format!("{:032x}", a.snapshot_id));
    assert_eq!((a.snapshot_id >> 76) & 0xf, 4);
    let id = a.snapshot_id;
    let (b, _) = new_snapshot(Some(a), TableSchema { fields: vec![] });
    assert_eq!(b.prev_snapshot_id, Some(id));
    assert_ne!(b.snapshot_id, id);
}

#[test]
fn truncation_is_tried_with_the_version_of_now() {
    let mut t = Truncation::do_truncate(3);
    assert!(matches!(t.commit_truncate(Ok(())), TruncateAction::Done));
    let other = t.commit_truncate(Err(UpsertError::Other(ErrorCode::Internal(text("x")))));
    assert!(matches!(other, TruncateAction::Permanent(ErrorCode::Internal(_))));
    let cause = match t.commit_truncate(Err(UpsertError::TableVersionMissMatch(ErrorCode::Internal(text("v"))))) {
        TruncateAction::FetchVersion(e) => e,
        other => panic!("{:?}", other),
    };
    assert!(matches!(t.version_fetched(cause, Ok(5)), TruncateAction::Transient(ErrorCode::Internal(m)) if m == "v"));
    assert_eq!(t.version, 5);
    let lost = t.version_fetched(ErrorCode::Internal(text("v")), Err(ErrorCode::UnknownTable(text("t"))));
    assert!(matches!(lost, TruncateAction::Transient(ErrorCode::UnknownTable(_))));
    assert_eq!(t.version, 5);
}

#[test]
fn databases_are_read_back() {
    let d = Database::from_parts(3, vec![(text("t1"), 4), (text("t2"), 5), (text("t1"), 6)]);
    assert_eq!(d.to_text(), "database id: 3");
    let bytes = d.serialize_into_vec();
    let mut expected: Vec<u8> = vec![];
    expected.extend(3u64.to_le_bytes());
    expected.extend(2u64.to_le_bytes());
    for (name, id) in d.tables.entries() {
        expected.extend((name.len() as u64).to_le_bytes());
        expected.extend(name.as_bytes());
        expected.extend(id.to_le_bytes());
    }
    assert_eq!(bytes, expected);
    let e = Database::deserialize_from_vec(&bytes).unwrap();
    assert_eq!(e.database_id, 3);
    assert_eq!(e.tables.len(), 2);
    assert_eq!(e.tables.get(&text("t1")), Some(&6));
    assert_eq!(e.tables.get(&text("t2")), Some(&5));
    assert!(Database::deserialize_from_vec(&bytes[0..9]).is_none());
}

#[test]
fn tables_are_read_back() {
    let t = Table::from_parts(9, vec![1, 2, 3], vec![text("p"), text("q"), text("p")]);
    assert_eq!(t.to_text(), "table id: 9");
    let bytes = t.serialize_into_vec();
    assert_eq!(bytes.len(), 8 + 8 + 3 + 8 + 2 * (8 + 1));
    assert_eq!(&bytes[0..19], &[9, 0, 0, 0, 0, 0, 0, 0, 3, 0, 0, 0, 0, 0, 0, 0, 1, 2, 3]);
    let u = Table::deserialize_from_vec(&bytes).unwrap();
    assert_eq!((u.table_id, u.schema.clone(), u.parts.len()), (9, vec![1, 2, 3], 2));
    assert_eq!(u.parts.get(&text("q")), Some(&()));
    assert_eq!(u.parts.get(&text("r")), None);
    assert!(Table::deserialize_from_vec(&[]).is_none());
}

#[test]
fn the_last_request_is_remembered() {
    let mut m = SharePresignedCacheManager::init();
    assert!(m.get("a/b", 1).is_none());
    let signed = |uri: &str| (text("GET"), text(uri), vec![(text("h"), text("v"))]);
    m.set("a/b", 1, signed("one"));
    m.set("a/b", 2, signed("two"));
    assert_eq!(m.get("a/b", 1), Some(signed("one")));
    m.set("a/b", 1, signed("three"));
    assert_eq!(m.get("a/b", 1), Some(signed("three")));
    assert_eq!(m.get("a/b", 2), Some(signed("two")));
    assert_eq!(m.get("a/c", 1), None);
}

fn prefixes() -> DirPrefixes {
    DirPrefixes {
        snapshot: text("_ss"),
        snapshot_statistics: text("_ts"),
        segment: text("_sg"),
        block: text("_b"),
        index: text("_i"),
        last_snapshot_hint: text("last_snapshot_location_hint"),
    }
}

#[test]
fn files_are_counted_by_their_names() {
    let p = prefixes();
    assert_eq!(file_kind("_ss", &p), FileKind::Snapshot);
    assert_eq!(file_kind("_i_b_v2", &p), FileKind::Index);
    assert_eq!(file_kind("x", &p), FileKind::Other);
    let files = vec![
        text("/d/1/2/_ss/s1"),
        text("/d/1/2/_sg/g1"),
        text("/d/1/2/_sg/g2"),
        text("/d/1/2/_b/b1"),
        text("/d/1/2/_i_b_v2/i1"),
        text("/d/1/2/_ts/t1"),
        text("/d/1/2/last_snapshot_location_hint"),
        text("/d/1/2/other"),
    ];
    let found = scan_data_dir("/d", &files, &p);
    let counts = DirCounts { snapshots: 1, table_statistics: 1, segments: 2, blocks: 1, indexes: 1 };
    assert_eq!(found.counts, counts);
    assert_eq!(found.table_statistic_files, ["/1/2/_ts/t1"]);
    assert_eq!(found.last_snapshot_hints, ["/1/2/last_snapshot_location_hint"]);
    assert_eq!(check_data_dir("c", &found.counts, &counts), Ok(()));
    let mut more = counts;
    more.segments = 3;
    assert_eq!(check_data_dir("c", &found.counts, &more), Err(text("case [c], check segment count")));
    more.snapshots = 0;
    assert_eq!(check_data_dir("c", &found.counts, &more), Err(text("case [c], check snapshot count")));
    assert!(check_table_statistic_file(&found.table_statistic_files, "1/2/_ts/t1"));
    assert!(!check_table_statistic_file(&found.table_statistic_files, "1/2/_ts/t2"));
}

#[test]
fn the_hint_names_the_last_snapshot() {
    assert!(check_last_snapshot("1/2/_ss/s1", "1/2/_ss/s1"));
    assert!(check_last_snapshot("root/1/2/_ss/s1", "1/2/_ss/s1"));
    assert!(!check_last_snapshot("1/2/_ss/s1", "1/2/_ss/s2"));
    assert!(!check_last_snapshot("s1/s1", "s1"));
}
