use databend::aggregate::AggregateHashTable;
use databend::aggregate::ProbeState;
use databend::types::Column;
use databend::types::DataType;
use databend::types::NumberDataType;
use databend::types::NumberScalar;
use databend::types::Scalar;

fn ints(v: &[i64]) -> Column {
    Column {
        data_type: DataType::Number(NumberDataType::Int64),
        rows: v.iter().map(|n| Scalar::Number(NumberScalar::Int64(*n))).collect(),
    }
}

fn state() -> ProbeState {
    ProbeState { group_hashes: vec![], addresses: vec![] }
}

#[test]
fn equal_rows_are_of_one_group() {
    let mut table = AggregateHashTable::new(64);
    let mut s = state();
    let keys = [3, 5, 3, 7, 5, 3];
    let hashes: Vec<u64> = keys.iter().map(|k| *k as u64 * 0x9e37_79b9_7f4a_7c15).collect();
    assert_eq!(table.add_groups(&mut s, &vec![ints(&keys)], &hashes, 6), 3);
    assert_eq!(s.addresses, vec![0, 1, 0, 2, 1, 0]);
    assert_eq!(table.len(), 3);
    // Rows that are added again find their groups.
    assert_eq!(table.add_groups(&mut s, &vec![ints(&keys)], &hashes, 6), 0);
    assert_eq!(s.addresses, vec![0, 1, 0, 2, 1, 0]);
    assert_eq!(table.add_groups(&mut s, &vec![ints(&[7, 8])], &vec![hashes[3], 12345], 2), 1);
    assert_eq!(s.addresses, vec![2, 3]);
    assert_eq!(table.len(), 4);
}

#[test]
fn rows_of_one_hash_are_told_apart() {
    let mut table = AggregateHashTable::new(64);
    let mut s = state();
    let n = table.add_groups(&mut s, &vec![ints(&[1, 2, 1, 2, 3])], &vec![42; 5], 5);
    assert_eq!(n, 3);
    assert_eq!(s.addresses[0], s.addresses[2]);
    assert_eq!(s.addresses[1], s.addresses[3]);
    assert_ne!(s.addresses[0], s.addresses[1]);
    assert_ne!(s.addresses[4], s.addresses[1]);
}

#[test]
fn tables_are_combined() {
    let mut a = AggregateHashTable::new(64);
    let mut b = AggregateHashTable::new(64);
    let mut s = state();
    let hash = |k: i64| (k as u64).wrapping_mul(0x9e37_79b9_7f4a_7c15);
    a.add_groups(&mut s, &vec![ints(&[1, 2])], &vec![hash(1), hash(2)], 2);
    b.add_groups(&mut s, &vec![ints(&[2, 3])], &vec![hash(2), hash(3)], 2);
    let places = a.combine(b, &mut s);
    assert_eq!(places, vec![1, 2]);
    assert_eq!(a.len(), 3);
}

#[test]
fn capacities_are_powers_of_two() {
    assert_eq!(AggregateHashTable::initial_capacity(), 4096);
    assert_eq!(AggregateHashTable::get_capacity_for_count(0), 8192);
    assert_eq!(AggregateHashTable::get_capacity_for_count(5000), 8192);
    assert_eq!(AggregateHashTable::get_capacity_for_count(6000), 16384);
}

#[test]
fn growth_loses_no_group() {
    let mut table = AggregateHashTable::new(64);
    let mut s = state();
    // Both first cells lie above the cells of the table that grows.
    assert_eq!(table.add_groups(&mut s, &vec![ints(&[-1, -2])], &vec![5000, 5000], 2), 2);
    let keys: Vec<i64> = (0..5000).collect();
    let hashes: Vec<u64> = keys.iter().map(|k| (*k as u64).wrapping_mul(0x9e37_79b9_7f4a_7c15)).collect();
    assert_eq!(table.add_groups(&mut s, &vec![ints(&keys)], &hashes, keys.len()), 5000);
    assert_eq!(table.add_groups(&mut s, &vec![ints(&[-1, -2])], &vec![5000, 5000], 2), 0);
    assert_eq!(s.addresses, vec![0, 1]);
    assert_eq!(table.add_groups(&mut s, &vec![ints(&keys)], &hashes, keys.len()), 0);
    table.resize(1 << 15);
    assert_eq!(table.add_groups(&mut s, &vec![ints(&[-2])], &vec![5000], 1), 0);
    assert_eq!(table.len(), 5002);
}

#[test]
fn missing_values_are_one_group() {
    let mut table = AggregateHashTable::new(64);
    let mut s = state();
    let t = DataType::Nullable(Box::new(DataType::Number(NumberDataType::Int64)));
    let over = |n: i64| Scalar::NullOver(Box::new(Scalar::Number(NumberScalar::Int64(n))));
    let column = Column { data_type: t, rows: vec![over(1), over(2), Scalar::Null] };
    assert_eq!(table.add_groups(&mut s, &vec![column], &vec![9, 9, 9], 3), 1);
    assert_eq!(s.addresses, vec![0, 0, 0]);
}
