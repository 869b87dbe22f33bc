use std::collections::HashSet;

use databend::block::BlockEntry;
use databend::block::BlockMeta;
use databend::block::BlockMetaInfo;
use databend::block::BlockMetaInfoDowncast;
use databend::block::DataBlock;
use databend::block::SortSpillMeta;
use databend::block::SortSpillMetaWithParams;
use databend::block::Value;
use databend::error::ErrorCode;
use databend::schema::DataField;
use databend::schema::DataSchema;
use databend::types::Column;
use databend::types::DataType;
use databend::types::DecimalDataType;
use databend::types::DecimalSize;
use databend::types::NumberDataType;
use databend::types::NumberScalar;
use databend::types::Scalar;

fn int32(n: i32) -> Scalar {
    Scalar::Number(NumberScalar::Int32(n))
}

fn int_type() -> DataType {
    DataType::Number(NumberDataType::Int32)
}

fn ints(v: &[i32]) -> Column {
    Column { data_type: int_type(), rows: v.iter().map(|n| int32(*n)).collect() }
}

fn column_of(b: &DataBlock, i: usize) -> Vec<i32> {
    let c = b.get_by_offset(i).to_column(b.num_rows());
    c.rows
        .iter()
        .map(|s| match s {
            Scalar::Number(NumberScalar::Int32(n)) => *n,
            other => panic!("{:?}", other),
        })
        .collect()
}

fn two_columns() -> DataBlock {
    DataBlock::new(
        vec![
            BlockEntry::new(int_type(), Value::Column(ints(&[1, 2, 3, 4, 5]))),
            BlockEntry::new(int_type(), Value::Scalar(int32(9))),
        ],
        5,
    )
}

#[test]
fn slices_of_slices_are_slices() {
    let b = two_columns();
    let direct = b.slice(2..4);
    let nested = b.slice(1..5).slice(1..3);
    assert_eq!(column_of(&direct, 0), vec![3, 4]);
    assert_eq!(column_of(&nested, 0), column_of(&direct, 0));
    assert_eq!(nested.num_rows(), 2);
    assert_eq!(b.slice(3..3).num_rows(), 0);
}

#[test]
fn splits_hold_every_row() {
    let b = two_columns();
    let (cuts, rest) = b.split_by_rows(2);
    assert_eq!(cuts.len(), 2);
    assert_eq!(column_of(&rest.unwrap(), 0), vec![5]);
    let all: Vec<i32> = b.split_by_rows_no_tail(2).iter().flat_map(|p| column_of(p, 0)).collect();
    assert_eq!(all, vec![1, 2, 3, 4, 5]);
    let even = b.slice(0..4).split_by_rows(2);
    assert!(even.1.is_none());
}

#[test]
fn splits_if_needed_keep_up_to_nine_fifths() {
    let b = DataBlock::new_from_columns(vec![ints(&(0..17).collect::<Vec<i32>>())]);
    // 17 rows are fewer than nine fifths of 10
    assert_eq!(b.split_by_rows_if_needed_no_tail(10).len(), 1);
    let pieces = b.split_by_rows_if_needed_no_tail(5);
    let sizes: Vec<usize> = pieces.iter().map(|p| p.num_rows()).collect();
    assert_eq!(sizes, vec![5, 5, 7]);
}

#[test]
fn full_blocks_repeat_scalars() {
    let full = two_columns().convert_to_full();
    assert!(matches!(full.get_by_offset(1).value, Value::Column(_)));
    assert_eq!(column_of(&full, 1), vec![9; 5]);
    let again = full.convert_to_full();
    assert_eq!(column_of(&again, 1), vec![9; 5]);
    assert_eq!(column_of(&two_columns().consume_convert_to_full(), 0), vec![1, 2, 3, 4, 5]);
}

#[test]
fn added_columns_are_popped_again() {
    let mut b = two_columns();
    b.add_column(BlockEntry::new(int_type(), Value::Column(ints(&[6, 7, 8, 9, 10]))));
    assert_eq!(b.num_columns(), 3);
    b.pop_columns(1);
    assert_eq!(b.num_columns(), 2);
    b.merge_block(two_columns());
    assert_eq!(b.num_columns(), 4);
}

#[test]
fn columns_of_other_lengths_are_found() {
    let mut b = two_columns();
    assert!(b.check_valid().is_ok());
    b.columns_mut()[1] = BlockEntry { data_type: int_type(), value: Value::Column(ints(&[1])) };
    match b.check_valid() {
        Err(ErrorCode::Internal(m)) => assert_eq!(
            m,
            "DataBlock corrupted, column length mismatch, col rows: 1, num_rows: 5, datatype: Int32"
        ),
        other => panic!("{:?}", other),
    }
}

#[test]
fn resort_follows_the_names() {
    let field = |n: &str| DataField { name: n.to_string(), data_type: int_type() };
    let src = DataSchema { fields: vec![field("a"), field("b")] };
    let dest = DataSchema { fields: vec![field("b"), field("a")] };
    let b = two_columns().resort(&src, &dest).unwrap();
    assert_eq!(column_of(&b, 0), vec![9; 5]);
    let unknown = DataSchema { fields: vec![field("c")] };
    match two_columns().resort(&src, &unknown) {
        Err(ErrorCode::BadArguments(m)) => {
            assert_eq!(m, "Unable to get field named \"c\". Valid fields: [\"a\", \"b\"]")
        }
        other => panic!("{:?}", other),
    }
    // Only the columns that are used have to be there.
    let longer = DataSchema { fields: vec![field("a"), field("b"), field("gone")] };
    assert_eq!(two_columns().resort(&longer, &dest).unwrap().num_columns(), 2);
}

#[test]
fn removing_nullability_keeps_what_is_stored() {
    let nullable = || DataType::Nullable(Box::new(int_type()));
    let over = |n: i32| Scalar::NullOver(Box::new(int32(n)));
    let column = Column { data_type: nullable(), rows: vec![int32(1), over(2), int32(3), Scalar::Null] };
    assert!(over(2).check_type(&nullable()) && !over(2).check_type(&int_type()));
    let entry = BlockEntry::new(nullable(), Value::Column(column));
    let b = DataBlock::new(vec![entry.remove_nullable()], 4);
    assert!(b.get_by_offset(0).data_type == int_type());
    assert_eq!(column_of(&b, 0), vec![1, 2, 3, 0]);
    // A slice keeps what is stored as well.
    let column = Column { data_type: nullable(), rows: vec![over(7), int32(8)] };
    let whole = DataBlock::new(vec![BlockEntry::new(nullable(), Value::Column(column))], 2);
    let cut = whole.slice(0..1);
    let b = DataBlock::new(vec![cut.get_by_offset(0).clone().remove_nullable()], 1);
    assert_eq!(column_of(&b, 0), vec![7]);
    // A scalar stays as it is.
    let scalar = BlockEntry::new(nullable(), Value::Scalar(Scalar::Null)).remove_nullable();
    assert!(scalar.data_type == nullable());
}

#[test]
fn types_are_shown() {
    let t = DataType::Nullable(Box::new(DataType::Array(Box::new(DataType::String))));
    assert_eq!(t.to_text(), "Array(String) NULL");
    assert_eq!(DataType::Tuple(vec![DataType::Boolean, int_type()]).to_text(), "Tuple(Boolean, Int32)");
    assert_eq!(DataType::Tuple(vec![DataType::Date]).to_text(), "Tuple(Date,)");
    let pair = DataType::Tuple(vec![DataType::String, DataType::Variant]);
    assert_eq!(DataType::Mapping(Box::new(pair)).to_text(), "Map(String, Variant)");
    let size = DecimalSize { precision: 12, scale: 3 };
    assert_eq!(DataType::Decimal(DecimalDataType::Decimal128(size)).to_text(), "Decimal(12, 3)");
    assert_eq!(DataType::Generic(4).to_text(), "T4");
}

#[test]
fn metas_are_set_once() {
    let b = two_columns().add_meta(Some(Box::new(BlockMeta::Kept(4)))).unwrap();
    assert_eq!(b.get_meta().map(|m| **m), Some(BlockMeta::Kept(4)));
    match b.add_meta(None) {
        Err(ErrorCode::Internal(m)) => assert_eq!(m, "Internal error, block meta data is set twice."),
        other => panic!("{:?}", other),
    }
    let mut c = DataBlock::empty_with_meta(SortSpillMeta {}.clone_self());
    assert!(c.is_empty() && c.num_columns() == 0);
    assert!(SortSpillMeta::downcast_from(c.take_meta().unwrap()).is_some());
    assert!(c.get_owned_meta().is_none());
    let params = SortSpillMetaWithParams { batch_size: 3, num_merge: 4 };
    assert_eq!(SortSpillMetaWithParams::downcast_ref_from(&params.clone_self()), Some(params));
    assert!(SortSpillMeta::downcast_ref_from(&params.clone_self()).is_none());
    assert!(params.equals(&params.clone_self()));
}

#[test]
fn projections_keep_columns() {
    let mut b = two_columns();
    b.add_column(BlockEntry::new(int_type(), Value::Column(ints(&[6, 7, 8, 9, 10]))));
    let only: HashSet<usize> = [0].into_iter().collect();
    assert_eq!(b.clone().project(&only).num_columns(), 1);
    let with_last = b.project_with_agg_index(&only, 1);
    assert_eq!(with_last.num_columns(), 2);
    assert_eq!(column_of(&with_last, 1), vec![6, 7, 8, 9, 10]);
}

#[test]
fn missing_columns_get_default_values() {
    let field = |n: &str| DataField { name: n.to_string(), data_type: int_type() };
    let schema = DataSchema { fields: vec![field("a"), field("b")] };
    let b = DataBlock::create_with_default_value_and_chunk(&schema, &vec![ints(&[1, 2])], &vec![Some(int32(5)), None], 2);
    assert_eq!(column_of(&b, 0), vec![5, 5]);
    assert_eq!(column_of(&b, 1), vec![1, 2]);
    let c = DataBlock::create_with_default_value(&schema, &vec![int32(3), int32(4)], 2);
    assert_eq!(column_of(&c, 1), vec![4, 4]);
    assert_eq!(DataBlock::empty_with_schema(&schema).num_columns(), 2);
}

#[test]
fn nullable_is_removed_with_defaults() {
    let e = BlockEntry {
        data_type: DataType::Nullable(Box::new(int_type())),
        value: Value::Column(Column {
            data_type: DataType::Nullable(Box::new(int_type())),
            rows: vec![int32(1), Scalar::Null],
        }),
    };
    let plain = e.remove_nullable();
    match plain.value {
        Value::Column(c) => assert_eq!(c.rows, vec![int32(1), int32(0)]),
        other => panic!("{:?}", other),
    }
}
