use databend::block::BlockEntry;
use databend::block::DataBlock;
use databend::block::Value;
use databend::error::ErrorCode;
use databend::fixture::expects_err;
use databend::fixture::expects_ok;
use databend::fixture::gen_computed_sample_blocks;
use databend::fixture::gen_sample_blocks;
use databend::fixture::gen_sample_blocks_ex;
use databend::fixture::gen_variant_sample_blocks;
use databend::fixture::history_should_have_item;
use databend::fixture::remove_computed_fields;
use databend::fixture::ComputedExpr;
use databend::fixture::TableDataType;
use databend::fixture::TestFixture;
use databend::mutation_part::BlockMetaIndex;
use databend::mutation_part::DeletedSegment;
use databend::mutation_part::HashedBy;
use databend::mutation_part::Mutation;
use databend::mutation_part::MutationPartInfo;
use databend::mutation_part::PartInfo;
use databend::mutation_part::Statistics;
use databend::mutation_part::VirtualColumnPartInfo;
use databend::mutation_source::AsyncAction;
use databend::mutation_source::Event;
use databend::mutation_source::InputState;
use databend::mutation_source::MutationAction;
use databend::mutation_source::MutationMeta;
use databend::mutation_source::MutationSource;
use databend::mutation_source::PortAction;
use databend::mutation_source::Predicates;
use databend::mutation_source::ProcessAction;
use databend::mutation_source::State;
use databend::read_partitions::FusePartInfo;
use databend::types::Column;
use databend::types::DataType;
use databend::types::NumberDataType;
use databend::types::NumberScalar;
use databend::types::Scalar;
use std::collections::HashMap;

fn text(s: &str) -> String {
    s.to_string()
}

fn rows_of(b: &DataBlock, i: usize) -> Vec<Scalar> {
    b.get_by_offset(i).to_column(b.num_rows()).rows
}

fn number(s: &Scalar) -> i64 {
    match s {
        Scalar::Number(NumberScalar::Int32(n)) => *n as i64,
        Scalar::Number(NumberScalar::Int64(n)) => *n,
        other => panic!("{:?}", other),
    }
}

fn numbers(b: &DataBlock, i: usize) -> Vec<i64> {
    rows_of(b, i).iter().map(number).collect()
}

#[test]
fn sample_blocks_hold_pairs() {
    let (schema, blocks) = gen_sample_blocks(2, 10);
    assert_eq!(schema.iter().map(|c| c.name.as_str()).collect::<Vec<_>>(), ["id", "t"]);
    assert!(matches!(&schema[0].data_type, TableDataType::Other(DataType::Number(NumberDataType::Int32))));
    match &schema[1].data_type {
        TableDataType::Tuple { fields_name, fields_type } => {
            assert_eq!((fields_name.join(","), fields_type.len()), (text("a,b"), 2));
        }
        other => panic!("{:?}", other),
    }
    assert_eq!(blocks.len(), 2);
    assert_eq!(numbers(&blocks[1], 0), [11, 11, 11]);
    match &rows_of(&blocks[1], 1)[2] {
        Scalar::Tuple(pair) => assert_eq!((number(&pair[0]), number(&pair[1])), (22, 33)),
        other => panic!("{:?}", other),
    }
    let (_, blocks) = gen_sample_blocks_ex(1, 4, 5);
    assert_eq!(numbers(&blocks[0], 0), [5, 10, 20, 40]);
}

#[test]
fn sample_objects_are_encoded() {
    let (_, blocks) = gen_variant_sample_blocks(2, 3);
    assert_eq!(numbers(&blocks[1], 0), [4, 4, 4]);
    match &rows_of(&blocks[1], 1)[1] {
        Scalar::Variant(bytes) => {
            let value = jsonb::from_slice(bytes).unwrap();
            assert_eq!(value.to_string(), "{\"a\":2,\"b\":4}");
        }
        other => panic!("{:?}", other),
    }
}

#[test]
fn computed_samples_leave_out_what_is_computed() {
    let (schema, blocks) = gen_computed_sample_blocks(1, 2);
    assert_eq!(schema.fields.len(), 3);
    assert_eq!(numbers(&blocks[0], 0), [6, 7, 8]);
    assert_eq!(numbers(&blocks[0], 2), [20, 21, 22]);
    assert!(matches!(&rows_of(&blocks[0], 1)[2], Scalar::String(s) if s == b"s-2-2"));
    let all = TestFixture::computed_schema();
    assert_eq!((all.len(), remove_computed_fields(&all).fields.len()), (7, 3));
}

#[test]
fn fixtures_have_names_of_their_own() {
    let f = TestFixture::setup(text("ten"));
    let g = TestFixture::setup(text("ten"));
    assert_ne!(f.default_db_name(), g.default_db_name());
    assert_eq!(f.prefix.len(), 32);
    assert!(f.prefix.chars().all(|c| c.is_ascii_hexdigit() && !c.is_ascii_uppercase()));
    assert_eq!(f.default_db_name(), format!("db_{}", f.prefix));
    assert_eq!(f.default_table_name(), format!("tbl_{}", f.prefix));
    assert_eq!((f.default_tenant().as_str(), f.default_catalog_name().as_str()), ("ten", "default"));
    let plan = f.default_create_table_plan("database_id");
    assert_eq!(plan.options, vec![(text("database_id"), text("1"))]);
    assert_eq!(plan.cluster_key.as_deref(), Some("(id)"));
    assert_eq!(f.normal_create_table_plan("database_id").cluster_key, None);
    for plan in [plan, f.normal_create_table_plan("database_id"), f.variant_create_table_plan("database_id")] {
        assert_eq!(plan.schema.len(), 2);
        assert!(plan.schema.iter().all(|c| c.computed_expr.is_none()));
    }
    let computed = f.computed_create_table_plan("database_id").schema;
    let columns: Vec<(&str, Option<(bool, &str)>)> = computed
        .iter()
        .map(|c| {
            let expr = match &c.computed_expr {
                Some(ComputedExpr::Virtual(e)) => Some((false, e.as_str())),
                Some(ComputedExpr::Stored(e)) => Some((true, e.as_str())),
                None => None,
            };
            (c.field.name.as_str(), expr)
        })
        .collect();
    assert_eq!(
        columns,
        vec![
            ("id", None),
            ("a1", Some((false, "reverse(c)"))),
            ("a2", Some((true, "upper(c)"))),
            ("b1", Some((false, "(d + 2)"))),
            ("b2", Some((true, "((d + 1) * 3)"))),
            ("c", None),
            ("d", None),
        ]
    );
    assert_eq!(
        f.history_query(),
        format!("select count(*) as count from fuse_snapshot('db_{}', 'tbl_{}')", f.prefix, f.prefix)
    );
}

#[test]
fn outcomes_are_compared_with_what_was_expected() {
    assert_eq!(
        history_should_have_item(3),
        ["+----------+", "| Column 0 |", "+----------+", "| 3        |", "+----------+"]
    );
    assert_eq!(expects_ok("c", Ok(5)), Ok(5));
    let failed: Result<u8, String> = expects_ok("c", Err(text("e")));
    assert_eq!(failed, Err(text("case name c, expecting  Ok, but got err e")));
    assert_eq!(expects_err("c", 7, Err((7, text("e")))), None);
    assert_eq!(expects_err("c", 7, Err((8, text("e")))), Some(text("case name c, unexpected error: e")));
    assert_eq!(expects_err("c", 7, Ok(())), Some(text("case name c, expecting err code 7, but got ok")));
}

fn fuse(location: &str) -> FusePartInfo {
    FusePartInfo {
        location: text(location),
        format_version: 2,
        nums_rows: 4,
        columns_meta: HashMap::new(),
        compression: 0,
        sort_min_max: None,
        range: None,
        delete_mark: None,
    }
}

#[test]
fn parts_are_hashed_by_what_they_are_read_from() {
    let index = BlockMetaIndex { segment_idx: 1, block_idx: 2 };
    let whole: PartInfo<u8> = PartInfo::Mutation(Box::new(Mutation::MutationDeletedSegment(DeletedSegment {
        index: 3,
        segment_info: ((text("seg"), 4), Statistics { row_count: 9 }),
    })));
    assert!(matches!(whole.hashed_by(), HashedBy::Segment(s) if s.0 == "seg"));
    assert!(Mutation::from_part(&whole).is_ok());
    let inner = MutationPartInfo::create(index, Some(5u8), PartInfo::Fuse(fuse("b")), false);
    assert_eq!((inner.index, inner.cluster_stats, inner.whole_block_mutation), (index, Some(5), false));
    let part = PartInfo::Mutation(Box::new(Mutation::MutationPartInfo(inner)));
    assert!(matches!(part.hashed_by(), HashedBy::Block(p) if p.location == "b"));
    match VirtualColumnPartInfo::from_part(&part) {
        Err(ErrorCode::Internal(m)) => assert_eq!(m, "Cannot downcast from PartInfo to VirtualColumnPartInfo."),
        other => panic!("{:?}", other),
    }
    match Mutation::from_part(&PartInfo::<u8>::Fuse(fuse("b"))) {
        Err(ErrorCode::Internal(m)) => assert_eq!(m, "Cannot downcast from PartInfo to Mutation."),
        other => panic!("{:?}", other),
    }
    match FusePartInfo::from_part(&part) {
        Err(ErrorCode::Internal(m)) => assert_eq!(m, "Cannot downcast from PartInfo to FusePartInfo."),
        other => panic!("{:?}", other),
    }
}

fn int_block(v: &[i32]) -> DataBlock {
    let t = DataType::Number(NumberDataType::Int32);
    let rows: Vec<Scalar> = v.iter().map(|n| Scalar::Number(NumberScalar::Int32(*n))).collect();
    DataBlock::new(
        vec![BlockEntry::new(t, Value::Column(Column { data_type: DataType::Number(NumberDataType::Int32), rows }))],
        v.len(),
    )
}

/// A source that has read its part and is about to filter it.
fn source_with_data(action: MutationAction, remain: bool) -> (MutationSource<u8, u16>, PartInfo<u8>) {
    let mut s: MutationSource<u8, u16> = MutationSource::try_create(action, true, remain, false, false);
    let part = PartInfo::Mutation(Box::new(Mutation::MutationPartInfo(MutationPartInfo::create(
        BlockMetaIndex { segment_idx: 6, block_idx: 7 },
        Some(1),
        PartInfo::Fuse(fuse("loc")),
        false,
    ))));
    let (event, _) = s.event(false, true, InputState::Data(Ok(part))).unwrap();
    assert_eq!(event, Event::Async);
    let part = match s.async_process().unwrap() {
        AsyncAction::Read(p) => p,
        other => panic!("{:?}", other),
    };
    assert_eq!(s.index, BlockMetaIndex { segment_idx: 6, block_idx: 7 });
    s.data_read(part, 33);
    match s.process().unwrap() {
        ProcessAction::Decode { part, data } => {
            assert_eq!(data, 33);
            (s, part)
        }
        other => panic!("{:?}", other),
    }
}

#[test]
fn deletion_keeps_the_rows_that_do_not_pass() {
    let (mut s, part) = source_with_data(MutationAction::Deletion, false);
    assert_eq!(s.name(), "MutationSource");
    let bits = vec![true, false, true, false];
    let affected = s.filter_data(part, int_block(&[1, 2, 3, 4]), Some(Predicates::Column(bits))).unwrap();
    assert_eq!(affected, Some(2));
    match &s.state {
        State::PerformOperator(b, path) => {
            assert_eq!((numbers(b, 0), path.as_str()), (vec![2, 4], "loc"));
        }
        other => panic!("{:?}", other),
    }
}

#[test]
fn nothing_is_done_where_no_row_passes() {
    let (mut s, part) = source_with_data(MutationAction::Update, true);
    let affected = s.filter_data(part, int_block(&[1, 2]), Some(Predicates::Scalar(false))).unwrap();
    assert_eq!(affected, None);
    match s.event(false, true, InputState::Nothing).unwrap() {
        (Event::NeedConsume, PortAction::Push(b, None)) => assert_eq!(b.num_rows(), 0),
        other => panic!("{:?}", other),
    }
    assert!(matches!(s.event(false, true, InputState::Finished), Ok((Event::Finished, PortAction::FinishOutput))));
    assert!(matches!(s.event(true, true, InputState::Nothing), Ok((Event::Finished, PortAction::FinishInput))));
    assert!(matches!(s.event(false, false, InputState::Nothing), Ok((Event::NeedConsume, PortAction::SetNotNeedData))));
    let failed = s.event(false, true, InputState::Data(Err(ErrorCode::Internal(text("x")))));
    assert!(matches!(failed, Err(ErrorCode::Internal(_))));
}

#[test]
fn other_columns_are_merged_into_what_was_updated() {
    let (mut s, part) = source_with_data(MutationAction::Deletion, true);
    let bits = vec![true, false, true, false];
    s.filter_data(part, int_block(&[1, 2, 3, 4]), Some(Predicates::Column(bits))).unwrap();
    assert!(matches!(s.event(true, true, InputState::Nothing), Ok((Event::Finished, PortAction::FinishInput))));
    let (part, data_block, filter) = match s.async_process().unwrap() {
        AsyncAction::ReadRemain { part, data_block, filter } => (part, data_block, filter),
        other => panic!("{:?}", other),
    };
    assert_eq!(numbers(&data_block, 0), [2, 4]);
    s.remain_read(part, 44, data_block, filter);
    let (part, data_block, filter) = match s.process().unwrap() {
        ProcessAction::DecodeRemain { part, data, data_block, filter } => {
            assert_eq!(data, 44);
            (part, data_block, filter)
        }
        other => panic!("{:?}", other),
    };
    s.merge_remain(part, int_block(&[10, 20, 30, 40]), data_block, filter);
    let (block, path) = match s.process().unwrap() {
        ProcessAction::Execute { data_block, path } => (data_block, path),
        other => panic!("{:?}", other),
    };
    assert_eq!((numbers(&block, 0), numbers(&block, 1), path.as_str()), (vec![2, 4], vec![20, 40], "loc"));
    s.perform_operator(block, path).unwrap();
    match s.event(false, true, InputState::Nothing).unwrap() {
        (Event::NeedConsume, PortAction::Push(b, Some(MutationMeta::SerializeBlock { index, .. }))) => {
            assert_eq!((b.num_rows(), index.segment_idx, index.block_idx), (2, 6, 7));
        }
        other => panic!("{:?}", other),
    }
}

#[test]
fn row_ids_are_there_for_the_filter() {
    let s: MutationSource<u8, u16> = MutationSource::try_create(MutationAction::Update, true, false, true, false);
    let mut b = int_block(&[1, 2]);
    let t = DataType::Number(NumberDataType::Int32);
    s.filter_input(&mut b, BlockEntry::new(t, Value::Scalar(Scalar::Number(NumberScalar::Int32(5)))));
    assert_eq!(numbers(&b, 1), [5, 5]);
}
