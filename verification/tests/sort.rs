use databend::block::BlockEntry;
use databend::block::DataBlock;
use databend::block::Value;
use databend::error::ErrorCode;
use databend::loser_tree::Cursor;
use databend::rows::RowConverter;
use databend::rows::Rows;
use databend::rows::SimpleRowConverter;
use databend::rows::SimpleRows;
use databend::rows::SimpleStringRowConverter;
use databend::rows::SimpleStringRows;
use databend::rows::SortColumnDescription;
use databend::schema::DataField;
use databend::schema::DataSchema;
use databend::sort_group::BinaryHeapSort;
use databend::sort_group::LoserTreeSort;
use databend::sort_group::SortdGroup;
use databend::sort_merge::sort_merge;
use databend::sort_merge::try_create_transform_sort_merge;
use databend::sort_merge::check_aborting;
use databend::sort_merge::Interrupts;
use databend::sort_merge::SortMergeCompactor;
use databend::sort_merge::SortRows;
use databend::types::Column;
use databend::types::DataType;
use databend::types::NumberDataType;
use databend::types::NumberScalar;
use databend::types::Scalar;

fn int_type() -> DataType {
    DataType::Number(NumberDataType::Int32)
}

fn ints(v: &[i32]) -> Column {
    Column { data_type: int_type(), rows: v.iter().map(|n| Scalar::Number(NumberScalar::Int32(*n))).collect() }
}

fn values(b: &DataBlock, i: usize) -> Vec<i32> {
    b.get_by_offset(i)
        .to_column(b.num_rows())
        .rows
        .iter()
        .map(|s| match s {
            Scalar::Number(NumberScalar::Int32(n)) => *n,
            other => panic!("{:?}", other),
        })
        .collect()
}

fn schema() -> DataSchema {
    DataSchema {
        fields: vec![
            DataField { name: "k".to_string(), data_type: int_type() },
            DataField { name: "v".to_string(), data_type: int_type() },
        ],
    }
}

fn by_first(asc: bool) -> Vec<SortColumnDescription> {
    vec![SortColumnDescription { offset: 0, asc, nulls_first: false }]
}

fn block(keys: &[i32], vals: &[i32]) -> DataBlock {
    DataBlock::new_from_columns(vec![ints(keys), ints(vals)])
}

#[test]
fn merge_of_sorted_blocks_is_sorted_and_stable() {
    let blocks = vec![
        block(&[1, 3, 5], &[10, 11, 12]),
        block(&[], &[]),
        block(&[1, 2, 5, 6], &[20, 21, 22, 23]),
        block(&[0, 5], &[30, 31]),
    ];
    let out = sort_merge::<SimpleRows, SimpleRowConverter>(&schema(), 4, by_first(true), blocks).unwrap();
    let keys: Vec<i32> = out.iter().flat_map(|b| values(b, 0)).collect();
    let vals: Vec<i32> = out.iter().flat_map(|b| values(b, 1)).collect();
    assert_eq!(keys, vec![0, 1, 1, 2, 3, 5, 5, 5, 6]);
    assert_eq!(vals, vec![30, 10, 20, 21, 11, 12, 22, 31, 23]);
    assert_eq!(out.iter().map(|b| b.num_rows()).collect::<Vec<_>>(), vec![4, 4, 1]);
}

#[test]
fn merge_in_falling_order() {
    let blocks = vec![block(&[5, 3], &[1, 2]), block(&[4, 4], &[3, 4])];
    let out = sort_merge::<SimpleRows, SimpleRowConverter>(&schema(), 10, by_first(false), blocks).unwrap();
    assert_eq!(out.len(), 1);
    assert_eq!(values(&out[0], 0), vec![5, 4, 4, 3]);
    assert_eq!(values(&out[0], 1), vec![1, 3, 4, 2]);
}

#[test]
fn one_block_is_left_alone() {
    let out = sort_merge::<SimpleRows, SimpleRowConverter>(&schema(), 1, by_first(true), vec![block(&[1, 2], &[3, 4])]).unwrap();
    assert_eq!(out.len(), 1);
    assert_eq!(out[0].num_rows(), 2);
    let none = sort_merge::<SimpleRows, SimpleRowConverter>(&schema(), 1, by_first(true), vec![]).unwrap();
    assert!(none.is_empty());
}

#[test]
fn interrupted_merges_are_aborted() {
    let mut c = SortMergeCompactor::<SimpleRows, SimpleRowConverter>::try_create(&schema(), 4, by_first(true), false).unwrap();
    c.interrupt();
    match c.compact_final(vec![block(&[1], &[1]), block(&[2], &[2])]) {
        Err(ErrorCode::AbortedQuery(m)) => {
            assert_eq!(m, "Aborted query, because the server is shutting down or the query was killed.")
        }
        other => panic!("{:?}", other),
    }
    assert!(c.compact_final(vec![block(&[1], &[1])]).is_ok());
    assert_eq!(SortMergeCompactor::<SimpleRows, SimpleRowConverter>::name(), "SortMergeTransform");
}

#[test]
fn merges_are_given_up_at_a_yes() {
    let c = SortMergeCompactor::<SimpleRows, SimpleRowConverter>::try_create(&schema(), 2, by_first(true), false).unwrap();
    let blocks = || vec![block(&[1, 3], &[1, 3]), block(&[2], &[2])];
    // Three rows and two blocks make five questions.
    for k in 0..5 {
        let mut answers = vec![false; k];
        answers.push(true);
        assert!(matches!(c.compact(blocks(), &Interrupts::Answers(&answers)), Err(ErrorCode::AbortedQuery(_))));
    }
    let late = vec![false, false, false, false, false, true];
    let out = c.compact(blocks(), &Interrupts::Answers(&late)).unwrap();
    assert_eq!(out.iter().flat_map(|b| values(b, 0)).collect::<Vec<i32>>(), vec![1, 2, 3]);
    assert!(c.compact(blocks(), &Interrupts::Never).is_ok());
    assert!(c.compact(vec![block(&[1], &[1])], &Interrupts::Answers(&vec![true])).is_ok());
    assert!(check_aborting(true).is_err() && check_aborting(false).is_ok());
}

#[test]
fn order_columns_are_added() {
    let mut c = SortMergeCompactor::<SimpleRows, SimpleRowConverter>::try_create(&schema(), 4, by_first(true), true).unwrap();
    let out = c.compact_final(vec![block(&[1, 4], &[1, 2]), block(&[2], &[3])]).unwrap();
    assert_eq!(out[0].num_columns(), 3);
    assert_eq!(values(&out[0], 2), vec![1, 2, 4]);
}

#[test]
fn rows_are_chosen_by_the_sort_column() {
    let of = |t: DataType, n: usize| {
        let s = DataSchema { fields: vec![DataField { name: "a".to_string(), data_type: t }] };
        let desc = vec![SortColumnDescription { offset: 0, asc: true, nulls_first: false }; n];
        try_create_transform_sort_merge(&s, &desc)
    };
    assert!(matches!(of(int_type(), 1), SortRows::SimpleNumber(NumberDataType::Int32)));
    assert!(matches!(of(DataType::Date, 1), SortRows::SimpleDate));
    assert!(matches!(of(DataType::Timestamp, 1), SortRows::SimpleTimestamp));
    assert!(matches!(of(DataType::String, 1), SortRows::SimpleString));
    assert!(matches!(of(DataType::Boolean, 1), SortRows::Common));
    assert!(matches!(of(int_type(), 2), SortRows::Common));
}

fn int_rows(v: &[i32]) -> SimpleRows {
    let converter = SimpleRowConverter::create(by_first(true), &schema()).unwrap();
    converter.convert(&vec![BlockEntry::new(int_type(), Value::Column(ints(v)))], v.len())
}

fn drain<G: SortdGroup<Rows = SimpleRows>>(lists: &[&[i32]]) -> Vec<(usize, usize)> {
    let mut group = G::with_capacity(lists.len());
    for (i, l) in lists.iter().enumerate() {
        group.push(i, Cursor::new(i, int_rows(l)));
    }
    let mut out = vec![];
    while !group.is_empty() {
        let (input, row, finished) = match group.peek() {
            Some(c) => (c.input_index, c.row_index, c.row_index + 1 == c.rows.len()),
            None => unreachable!(),
        };
        out.push((input, row));
        if finished {
            group.pop();
        } else {
            let mut next = Cursor::new(input, int_rows(lists[input]));
            for _ in 0..row + 1 {
                next.advance();
            }
            group.update_top(next);
        }
    }
    out
}

#[test]
fn both_groups_give_the_same_order() {
    let lists: [&[i32]; 3] = [&[1, 4, 7], &[2, 4, 4], &[0, 9]];
    let expected = vec![(2, 0), (0, 0), (1, 0), (0, 1), (1, 1), (1, 2), (0, 2), (2, 1)];
    assert_eq!(drain::<LoserTreeSort<SimpleRows>>(&lists), expected);
    assert_eq!(drain::<BinaryHeapSort<SimpleRows>>(&lists), expected);
}

#[test]
fn groups_of_any_size_give_the_same_order() {
    let lists: [&[i32]; 7] = [&[5, 8], &[3, 3, 10], &[6], &[1, 9], &[3, 4], &[2], &[7, 7]];
    let expected = drain::<BinaryHeapSort<SimpleRows>>(&lists);
    let values: Vec<i32> = expected.iter().map(|(i, row)| lists[*i][*row]).collect();
    assert_eq!(values, vec![1, 2, 3, 3, 3, 4, 5, 6, 7, 7, 8, 9, 10]);
    for n in 0..lists.len() + 1 {
        let of_tree = drain::<LoserTreeSort<SimpleRows>>(&lists[..n]);
        assert_eq!(of_tree, drain::<BinaryHeapSort<SimpleRows>>(&lists[..n]));
        assert_eq!(of_tree.len(), lists[..n].iter().map(|l| l.len()).sum::<usize>());
    }
}

fn first_two<G: SortdGroup<Rows = SimpleRows>>(lists: &[&[i32]]) -> (usize, usize) {
    let mut group = G::with_capacity(lists.len());
    for (i, l) in lists.iter().enumerate() {
        group.push(i, Cursor::new(i, int_rows(l)));
    }
    let first = group.peek().unwrap().input_index;
    (first, group.peek_top2().input_index)
}

#[test]
fn the_second_of_a_group_is_seen() {
    let lists: [&[i32]; 5] = [&[5], &[3], &[6], &[1], &[2]];
    assert_eq!(first_two::<LoserTreeSort<SimpleRows>>(&lists), (3, 4));
    assert_eq!(first_two::<BinaryHeapSort<SimpleRows>>(&lists), (3, 4));
    assert_eq!(first_two::<LoserTreeSort<SimpleRows>>(&lists[..4]), (3, 1));
    assert_eq!(first_two::<BinaryHeapSort<SimpleRows>>(&lists[..4]), (3, 1));
    assert_eq!(first_two::<LoserTreeSort<SimpleRows>>(&lists[..2]), (1, 0));
    assert_eq!(first_two::<BinaryHeapSort<SimpleRows>>(&lists[..2]), (1, 0));
}

fn pop_of_an_empty_group<G: SortdGroup<Rows = SimpleRows>>() {
    let mut group = G::with_capacity(2);
    group.pop();
    assert!(group.is_empty());
    assert!(group.peek().is_none());
    group.push(1, Cursor::new(1, int_rows(&[4])));
    assert_eq!(group.peek().map(|c| c.input_index), Some(1));
    group.pop();
    group.pop();
    assert!(group.is_empty());
    assert!(group.peek().is_none());
}

#[test]
fn an_empty_group_stays_empty() {
    pop_of_an_empty_group::<LoserTreeSort<SimpleRows>>();
    pop_of_an_empty_group::<BinaryHeapSort<SimpleRows>>();
}

#[test]
fn strings_are_sorted_by_bytes() {
    let text = |v: &[&str]| Column {
        data_type: DataType::String,
        rows: v.iter().map(|s| Scalar::String(s.as_bytes().to_vec())).collect(),
    };
    let s = DataSchema { fields: vec![DataField { name: "s".to_string(), data_type: DataType::String }] };
    let out = sort_merge::<SimpleStringRows, SimpleStringRowConverter>(
        &s,
        10,
        by_first(true),
        vec![
            DataBlock::new_from_columns(vec![text(&["a", "b"])]),
            DataBlock::new_from_columns(vec![text(&["ab"])]),
        ],
    )
    .unwrap();
    let rows = out[0].get_by_offset(0).to_column(3).rows;
    assert_eq!(rows, text(&["a", "ab", "b"]).rows);
}
