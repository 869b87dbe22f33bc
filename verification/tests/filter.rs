use databend::filter::select_array;
use databend::filter::select_boolean;
use databend::filter::select_columns;
use databend::filter::select_primitive;
use databend::filter::select_primitive_adapt;
use databend::filter::select_string;
use databend::filter::SelectOp;
use databend::filter::SelectStrategy;
use databend::types::Column;
use databend::types::DataType;
use databend::types::NumberDataType;
use databend::types::NumberScalar;
use databend::types::Scalar;

fn ints(v: &[i32]) -> Column {
    Column {
        data_type: DataType::Number(NumberDataType::Int32),
        rows: v.iter().map(|n| Scalar::Number(NumberScalar::Int32(*n))).collect(),
    }
}

#[test]
fn select_primitive_splits_rows() {
    let mut yes = [9u32; 6];
    let mut no = [9u32; 6];
    let (mut ti, mut fi) = (1usize, 0usize);
    let n = select_primitive::<i32, true, true>(
        SelectOp::Gt,
        vec![5, 1, 7, 3],
        vec![4, 4, 4, 4],
        None,
        &mut yes,
        &mut no,
        &mut ti,
        &mut fi,
        SelectStrategy::ALL,
        4,
    );
    assert_eq!(n, 2);
    assert_eq!((ti, fi), (3, 2));
    assert_eq!(yes, [9, 0, 2, 9, 9, 9]);
    assert_eq!(no, [1, 3, 9, 9, 9, 9]);
}

#[test]
fn select_primitive_honours_validity() {
    let mut yes = [0u32; 4];
    let mut no = [0u32; 4];
    let (mut ti, mut fi) = (0usize, 0usize);
    let n = select_primitive::<u64, true, true>(
        SelectOp::Equal,
        vec![1, 1, 2, 1],
        vec![1, 1, 1, 1],
        Some(vec![true, false, true, true]),
        &mut yes,
        &mut no,
        &mut ti,
        &mut fi,
        SelectStrategy::ALL,
        4,
    );
    assert_eq!(n, 2);
    assert_eq!(&yes[..ti], &[0, 3]);
    assert_eq!(&no[..fi], &[1, 2]);
}

#[test]
fn splits_narrow_one_after_the_other() {
    let left = vec![1, 2, 3, 4, 5, 6];
    let mut yes = [0u32; 6];
    let mut no = [0u32; 6];
    let (mut ti, mut fi) = (0usize, 0usize);
    let n = select_primitive::<i64, true, false>(
        SelectOp::Gt,
        left.clone(),
        vec![2; 6],
        None,
        &mut yes,
        &mut no,
        &mut ti,
        &mut fi,
        SelectStrategy::ALL,
        6,
    );
    assert_eq!(n, 4);
    ti = 0;
    let n = select_primitive::<i64, true, false>(
        SelectOp::Lte,
        left,
        vec![5; 6],
        None,
        &mut yes,
        &mut no,
        &mut ti,
        &mut fi,
        SelectStrategy::True,
        n,
    );
    assert_eq!(n, 3);
    assert_eq!(&yes[..3], &[2, 3, 4]);
}

#[test]
fn select_false_only_counts_the_others() {
    let mut yes = [0u32; 0];
    let mut no = [0u32; 4];
    let (mut ti, mut fi) = (0usize, 0usize);
    let n = select_boolean::<false, true>(
        SelectOp::NotEqual,
        vec![true, false, true],
        vec![true, true, false],
        None,
        &mut yes,
        &mut no,
        &mut ti,
        &mut fi,
        SelectStrategy::ALL,
        3,
    );
    assert_eq!(n, 2);
    assert_eq!((ti, fi), (0, 1));
    assert_eq!(no[0], 0);
}

#[test]
fn strings_and_arrays_compare_by_their_first_difference() {
    let mut yes = [0u32; 3];
    let mut no = [0u32; 3];
    let (mut ti, mut fi) = (0usize, 0usize);
    let n = select_string::<true, true>(
        SelectOp::Lt,
        vec![b"ab".to_vec(), b"b".to_vec(), b"a".to_vec()],
        vec![b"abc".to_vec(), b"abc".to_vec(), b"a".to_vec()],
        None,
        &mut yes,
        &mut no,
        &mut ti,
        &mut fi,
        SelectStrategy::ALL,
        3,
    );
    assert_eq!((n, yes[0], no[0], no[1]), (1, 0, 1, 2));
    let (mut ti, mut fi) = (0usize, 0usize);
    let n = select_array::<true, true>(
        SelectOp::Gte,
        vec![ints(&[1, 2]), ints(&[1])],
        vec![ints(&[1, 1, 9]), ints(&[1, 0])],
        None,
        &mut yes,
        &mut no,
        &mut ti,
        &mut fi,
        SelectStrategy::ALL,
        2,
    );
    assert_eq!((n, yes[0], no[0]), (1, 0, 1));
}

#[test]
fn adapt_chooses_what_is_written() {
    let mut yes = [0u32; 3];
    let mut no = [7u32; 3];
    let (mut ti, mut fi) = (0usize, 0usize);
    let n = select_primitive_adapt::<u8>(
        SelectOp::Lt,
        vec![1, 2, 3],
        vec![2, 2, 2],
        None,
        &mut yes,
        &mut no,
        false,
        &mut ti,
        &mut fi,
        SelectStrategy::ALL,
        3,
    );
    assert_eq!(n, 1);
    assert_eq!(no, [7, 7, 7]);
    assert_eq!(fi, 0);
}

#[test]
fn select_columns_leaves_out_missing_values() {
    let nullable = DataType::Nullable(Box::new(DataType::Number(NumberDataType::Int32)));
    let left = Column {
        data_type: nullable.clone(),
        rows: vec![
            Scalar::Number(NumberScalar::Int32(1)),
            Scalar::Null,
            Scalar::Number(NumberScalar::Int32(3)),
        ],
    };
    let mut yes = [0u32; 3];
    let mut no = [0u32; 3];
    let (mut ti, mut fi) = (0usize, 0usize);
    let n = select_columns(
        SelectOp::Gte,
        left,
        ints(&[1, 1, 9]),
        nullable,
        DataType::Number(NumberDataType::Int32),
        &mut yes,
        &mut no,
        true,
        &mut ti,
        &mut fi,
        SelectStrategy::ALL,
        3,
    );
    assert_eq!(n, 1);
    assert_eq!(&yes[..ti], &[0]);
    assert_eq!(&no[..fi], &[1, 2]);
}
