use databend::arrow::write_value;
use databend::arrow::Field;
use databend::arrow::FixedSizeBinaryArray;
use databend::arrow::FixedSizeListArray;
use databend::arrow::OrcFileReader;
use databend::arrow::PrimitiveArray;
use databend::async_function::DictGetOperator;
use databend::async_function::DictGetOperators;
use databend::async_function::DictGetTask;
use databend::async_function::DictStep;
use databend::async_function::TransformAsyncFunction;
use databend::block::BlockEntry;
use databend::block::DataBlock;
use databend::block::Value;
use databend::build_spill::BuildSpillState;
use databend::compaction_job::AdviceRow;
use databend::compaction_job::CompactionJob;
use databend::data_mask::CreateDatamaskPolicyPlan;
use databend::data_mask::DataMaskArg;
use databend::data_mask::DataMaskPolicy;
use databend::data_mask::DropDatamaskPolicyPlan;
use databend::profile::PlanProfile;
use databend::profile::PlanScope;
use databend::profile::PlanScopeGuard;
use databend::profile::Profile;
use databend::show::ShowLimit;
use databend::show::ShowOptions;
use databend::transform_filter::TransformFilter;
use databend::types::Column;
use databend::types::DataType;
use databend::types::NumberDataType;
use databend::types::NumberScalar;
use databend::types::Scalar;
use databend::vec_map::VecMap;
use std::collections::HashSet;

fn text(s: &str) -> String {
    s.to_string()
}

fn int32(n: i32) -> Scalar {
    Scalar::Number(NumberScalar::Int32(n))
}

fn int_type() -> DataType {
    DataType::Number(NumberDataType::Int32)
}

fn ints(v: &[i32]) -> BlockEntry {
    let rows: Vec<Scalar> = v.iter().map(|n| int32(*n)).collect();
    BlockEntry::new(int_type(), Value::Column(Column { data_type: int_type(), rows }))
}

fn block(v: &[i32]) -> DataBlock {
    DataBlock::new(vec![ints(v)], v.len())
}

fn rows_of(b: &DataBlock, i: usize) -> Vec<Scalar> {
    b.get_by_offset(i).to_column(b.num_rows()).rows
}

fn values_of(b: &DataBlock, i: usize) -> Vec<i64> {
    rows_of(b, i)
        .iter()
        .map(|s| match s {
            Scalar::Number(NumberScalar::Int32(n)) => *n as i64,
            Scalar::Number(NumberScalar::UInt64(n)) => *n as i64,
            other => panic!("{:?}", other),
        })
        .collect()
}

#[test]
fn fields_carry_metadata() {
    let f = Field::new(text("a"), 7u8, true);
    assert_eq!(f.metadata.len(), 0);
    let f = f.with_metadata(VecMap::from_entries(vec![(text("k"), text("u")), (text("k"), text("v"))]));
    assert_eq!((f.name.as_str(), *f.data_type(), f.is_nullable), ("a", 7, true));
    assert_eq!(f.metadata.entries(), &vec![(text("k"), text("v"))]);
}

#[test]
fn arrays_are_equal_by_type_and_values() {
    let a = PrimitiveArray { data_type: 1, values: vec![Some(1), None] };
    let b = PrimitiveArray { data_type: 1, values: vec![Some(1), None] };
    let c = PrimitiveArray { data_type: 2, values: vec![Some(1), None] };
    let d = PrimitiveArray { data_type: 1, values: vec![Some(1)] };
    assert!(a.equal(&b));
    assert!(!a.equal(&c));
    assert!(!a.equal(&d));
    let x = FixedSizeBinaryArray { data_type: 3, values: vec![Some(vec![1, 2]), None] };
    let y = FixedSizeBinaryArray { data_type: 3, values: vec![Some(vec![1, 3]), None] };
    assert!(x.equal(&x));
    assert!(!x.equal(&y));
}

#[test]
fn lists_of_fixed_size_are_shown() {
    let mut a = FixedSizeListArray {
        size: 2,
        values: vec![Some(text("1")), None, Some(text("3")), Some(text("4"))],
        validity: None,
    };
    let mut out = text("> ");
    write_value(&a, 0, "null", &mut out);
    assert_eq!(out, "> [1, null]");
    assert_eq!(a.to_text(2), "FixedSizeListArray[[1, None], [3, 4]]");
    a.validity = Some(vec![true, false]);
    assert_eq!(a.to_text(2), "FixedSizeListArray[[1, None], None]");
}

#[test]
fn a_file_is_read_by_its_range() {
    let r = OrcFileReader { path: text("p"), size: 90 };
    assert_eq!(r.len(), 90);
    assert_eq!(r.get_bytes(10, 5), (10, 15));
}

#[test]
fn options_are_shown() {
    let like = ShowLimit::Like { pattern: text("a%") };
    assert_eq!(like.to_text(), "LIKE 'a%'");
    let o = ShowOptions { limit_option: Some(like), limit: Some(12) };
    assert_eq!(o.to_text(), "LIKE 'a%' LIMIT = '12'");
    let w = ShowOptions { limit_option: Some(ShowLimit::Where { selection: text("x = 1") }), limit: None };
    assert_eq!(w.to_text(), "WHERE x = 1");
    assert_eq!(ShowOptions { limit_option: None, limit: None }.to_text(), "");
}

fn profile(first: usize, second: usize) -> Profile {
    Profile {
        plan_id: Some(4),
        plan_name: Some(text("Filter")),
        plan_parent_id: None,
        title: text("t"),
        labels: 2,
        statistics: vec![first, second],
    }
}

#[test]
fn profiles_are_added_up() {
    let mut p = PlanProfile::create(&profile(1, 10));
    assert_eq!((p.id, p.name.as_deref(), p.parent_id), (Some(4), Some("Filter"), None));
    p.accumulate(&profile(2, 20));
    assert_eq!(p.statistics, [3, 30]);
    let q = PlanProfile::create(&profile(5, 7));
    let mut pq = PlanProfile::create(&profile(3, 30));
    pq.merge(&q);
    let mut qp = q;
    qp.merge(&p);
    assert_eq!(pq.statistics, [8, 37]);
    assert_eq!(qp.statistics, pq.statistics);
}

#[test]
fn scopes_are_closed_from_the_last() {
    let mut size: usize = 2;
    assert!(PlanScopeGuard::create(1).close(&mut size));
    assert!(!PlanScopeGuard::create(1).close(&mut size));
    assert_eq!(size, 0);
    let s = PlanScope::create(3, text("Join"), text("t"), 0);
    assert_eq!((s.id, s.name.as_str(), s.parent_id), (3, "Join", None));
}

#[test]
fn a_policy_is_requested() {
    let plan = CreateDatamaskPolicyPlan {
        if_not_exists: true,
        tenant: text("ten"),
        name: text("mask"),
        policy: DataMaskPolicy {
            args: vec![DataMaskArg { arg_name: text("v"), arg_type: text("STRING") }],
            return_type: text("STRING"),
            body: text("'***'"),
            comment: None,
        },
    };
    assert!(plan.schema().fields.is_empty());
    let req = plan.into_request(77);
    assert!(req.if_not_exists);
    assert_eq!((req.name.tenant.as_str(), req.name.name.as_str()), ("ten", "mask"));
    assert_eq!(req.args, vec![(text("v"), text("STRING"))]);
    assert_eq!((req.return_type.as_str(), req.body.as_str(), req.comment), ("STRING", "'***'", None));
    assert_eq!(req.create_on, 77);
    assert!(DropDatamaskPolicyPlan { if_exists: false, name: text("m") }.schema().fields.is_empty());
}

#[test]
fn compaction_is_asked_for() {
    let advice = CompactionJob::get_compaction_advice_sql(text("db1"), text("t1"));
    assert!(advice.contains("from fuse_snapshot('db1', 't1') order by timestamp ASC LIMIT 1;"));
    let job = CompactionJob { segment_limit: Some(10), block_limit: None };
    assert_eq!(job.do_segment_compaction(text("d"), text("t")), "OPTIMIZE TABLE d.t COMPACT SEGMENT LIMIT 10;");
    assert_eq!(job.do_block_compaction(text("d"), text("t")), "OPTIMIZE TABLE d.t COMPACT;");
    let row = AdviceRow {
        segment_advice: true,
        block_advice: false,
        row_count: 1,
        bytes_uncompressed: 2,
        bytes_compressed: 3,
        index_size: 4,
    };
    let (segments, blocks, stats) = CompactionJob::do_check_table(&row);
    assert_eq!((segments, blocks), (true, false));
    assert_eq!((stats.num_rows, stats.data_size), (Some(1), Some(2)));
    assert_eq!((stats.data_size_compressed, stats.index_size), (Some(3), Some(4)));
}

#[test]
fn a_sequence_numbers_the_rows() {
    let mut b = block(&[7, 8, 9]);
    assert_eq!(TransformAsyncFunction::sequence_count(&b), Some(3));
    assert_eq!(TransformAsyncFunction::sequence_count(&block(&[])), None);
    TransformAsyncFunction::transform_sequence(&mut b, 41, &DataType::Number(NumberDataType::UInt64));
    assert_eq!(values_of(&b, 1), [41, 42, 43]);
}

fn look_up(dict: &mut DictGetOperator, entry: &BlockEntry, b: &mut DataBlock) -> Vec<Vec<u8>> {
    let mut task = DictGetTask::start(entry);
    let mut reads: Vec<Vec<u8>> = vec![];
    loop {
        match task.step(dict) {
            DictStep::Read(key) => {
                let value = if key == b"1" { b"one".to_vec() } else { vec![] };
                reads.push(key);
                task.supply(dict, value);
            }
            DictStep::Done => break,
        }
    }
    task.finish(b, &DataType::String);
    reads
}

#[test]
fn a_dictionary_is_read_once_for_each_key() {
    let mut dict = DictGetOperator::new(text("redis://h"));
    let mut b = block(&[1, 2, 1]);
    let reads = look_up(&mut dict, &ints(&[1, 2, 1]), &mut b);
    assert_eq!(reads, vec![b"1".to_vec(), b"2".to_vec()]);
    let found = rows_of(&b, 1);
    assert!(matches!(&found[0], Scalar::String(s) if s == b"one"));
    assert!(matches!(&found[1], Scalar::String(s) if s == b"null"));
    assert!(matches!(&found[2], Scalar::String(s) if s == b"one"));
    assert_eq!(dict.get_value(&b"1".to_vec()), Some(b"one".to_vec()));
    assert_eq!(dict.get_value(&b"3".to_vec()), None);

    let mut c = block(&[5]);
    let reads = look_up(&mut dict, &BlockEntry::new(int_type(), Value::Scalar(int32(2))), &mut c);
    assert!(reads.is_empty());
    assert!(matches!(&rows_of(&c, 1)[0], Scalar::Null));
}

#[test]
fn dictionaries_are_found_by_their_connections() {
    let mut all = DictGetOperators::new();
    assert!(all.add_new_operator(text("a"), "redis"));
    all.operators[0].add_new_kv(b"k".to_vec(), b"v".to_vec());
    assert!(!all.add_new_operator(text("a"), "redis"));
    assert_eq!(all.operators[0].get_value(&b"k".to_vec()), Some(b"v".to_vec()));
    assert!(all.add_new_operator(text("c"), "Redis"));
    assert_eq!(all.get_operator("c"), Some(1));
    assert_eq!(all.get_operator("a"), Some(0));
    assert_eq!(all.get_operator("b"), None);
    assert!(DictGetOperators::is_supported("REDIS"));
    assert!(!DictGetOperators::is_supported("mysql"));
}

#[test]
fn spilled_rows_go_to_their_partitions() {
    let mut s = BuildSpillState::create();
    s.buffer_data(block(&[10, 11]));
    s.buffer_data(block(&[12, 13]));
    s.spill(&vec![1, 9, 2, 1 << 8]);
    let got: Vec<(u8, Vec<i64>)> = s.spiller.partitions.iter().map(|(p, b)| (*p, values_of(b, 0))).collect();
    assert_eq!(got, vec![(0, vec![13]), (1, vec![10, 11]), (2, vec![12])]);
    assert_eq!(s.spiller.partition_set, [0, 1, 2]);

    s.spiller.spilled_partition_set.insert(1);
    let (spilled, kept) = s.spill_input(&block(&[20, 21, 22]), &vec![9, 3, 1]);
    assert_eq!(spilled.len(), 1);
    assert_eq!((spilled[0].0, values_of(&spilled[0].1, 0)), (1, vec![20, 22]));
    assert_eq!(values_of(&kept, 0), [21]);
}

#[test]
fn a_full_memory_is_spilled() {
    let mut s = BuildSpillState::create();
    let input = block(&[1, 2]);
    assert!(!s.check_need_spill(&input, true, 0, false, &vec![], &vec![]));
    s.buffer_data(block(&[1]));
    assert!(s.check_need_spill(&input, true, 0, false, &vec![], &vec![]));
    assert!(!s.check_need_spill(&input, false, 0, false, &vec![], &vec![]));
    assert!(!s.check_need_spill(&input, true, 0, true, &vec![], &vec![]));
    assert!(!s.check_need_spill(&input, true, 1 << 20, false, &vec![], &vec![]));
}

#[test]
fn filtered_blocks_come_out_in_order() {
    let mut keep: HashSet<usize> = HashSet::new();
    keep.insert(0);
    let mut f = TransformFilter::create(keep, 2);
    let cuts = f.consume(block(&[1, 2, 3]), None);
    assert_eq!(cuts.iter().map(|b| values_of(b, 0)).collect::<Vec<_>>(), vec![vec![1, 2], vec![3]]);
    for b in cuts {
        f.add_filtered(b);
    }
    f.add_filtered(block(&[]));
    let from_index = DataBlock::new(vec![ints(&[4]), ints(&[5]), ints(&[6])], 1);
    assert!(f.consume(from_index, Some(1)).is_empty());
    assert_eq!(values_of(&f.transform().unwrap(), 0), [1, 2]);
    assert_eq!(values_of(&f.transform().unwrap(), 0), [3]);
    let last = f.transform().unwrap();
    assert_eq!((values_of(&last, 0), values_of(&last, 1)), (vec![4], vec![6]));
    assert!(f.transform().is_none());
}

#[test]
fn keys_of_a_map_are_distinct() {
    let mut m: VecMap<String, u8> = VecMap::new();
    m.insert(text("a"), 1);
    m.insert(text("b"), 2);
    m.insert(text("a"), 3);
    assert_eq!((m.len(), m.get(&text("a")), m.get(&text("c"))), (2, Some(&3), None));
    assert_eq!(m.remove(&text("a")), Some(3));
    assert_eq!(m.remove(&text("a")), None);
    assert_eq!(m.entries(), &vec![(text("b"), 2)]);
    let n: VecMap<Option<u32>, u8> = VecMap::from_entries(vec![(None, 1), (Some(2), 2), (None, 3)]);
    assert_eq!((n.len(), n.get(&None), n.get(&Some(2))), (2, Some(&3), Some(&2)));
}
