//! Columns that are filled from outside: the next values of a sequence, and the values of a
//! dictionary.

use vstd::prelude::*;

use crate::block::rows_ok;
use crate::block::BlockEntry;
use crate::block::BlockView;
use crate::block::DataBlock;
use crate::block::EntryView;
use crate::block::Value;
use crate::block::ValueView;
use crate::order::number_rank;
use crate::text::decimal;
use crate::text::digit;
use crate::text::same_text;
use crate::text::signed_decimal;
use crate::types::clone_bytes;
use crate::types::lemma_scalar_views_push;
use crate::types::same_bytes;
use crate::types::scalar_view;
use crate::types::scalar_views;
use crate::types::Column;
use crate::types::ColumnView;
use crate::types::DataType;
use crate::types::NumberDataType;
use crate::types::NumberScalar;
use crate::types::Scalar;
use crate::types::ScalarView;
use crate::types::TypeView;

verus! {

/// Which function fills a column.
#[derive(Debug)]
pub enum AsyncFunctionArgument {
    SequenceFunction(String),
    /// The connection of the dictionary.
    DictGetFunction(String),
}

#[derive(Debug)]
pub struct AsyncFunctionDesc {
    pub func_arg: AsyncFunctionArgument,
    pub arg_indices: Vec<usize>,
    pub data_type: DataType,
}

#[derive(Debug)]
pub struct TransformAsyncFunction {
    pub async_func_descs: Vec<AsyncFunctionDesc>,
}

/// The numbers from `start` on, as a column.
pub open spec fn sequence_column(start: u64, count: nat) -> ColumnView {
    ColumnView {
        data_type: TypeView::Number(NumberDataType::UInt64),
        rows: Seq::new(count, |i: int| ScalarView::Number(NumberScalar::UInt64((start + i) as u64))),
    }
}

impl TransformAsyncFunction {
    pub fn new(async_func_descs: Vec<AsyncFunctionDesc>) -> (r: TransformAsyncFunction)
        ensures
            r.async_func_descs == async_func_descs,
    {
        TransformAsyncFunction { async_func_descs }
    }

    /// How many values of a sequence a block needs; none where it has no rows.
    pub fn sequence_count(data_block: &DataBlock) -> (r: Option<u64>)
        ensures
            r is None <==> data_block@.num_rows == 0,
            r matches Some(count) ==> count == data_block@.num_rows,
    {
        let count: u64 = data_block.num_rows() as u64;
        if count == 0 {
            None
        } else {
            Some(count)
        }
    }

    /// Adds the column of the values of a sequence from `start` on, one for each row.
    pub fn transform_sequence(data_block: &mut DataBlock, start: u64, data_type: &DataType)
        requires
            rows_ok(old(data_block)@.columns, old(data_block)@.num_rows),
            start + old(data_block)@.num_rows <= u64::MAX,
        ensures
            final(data_block)@ == (BlockView {
                columns: old(data_block)@.columns.push(
                    EntryView {
                        data_type: data_type@,
                        value: ValueView::Column(sequence_column(start, old(data_block)@.num_rows)),
                    },
                ),
                ..old(data_block)@
            }),
    {
        let count: usize = data_block.num_rows();
        let mut rows: Vec<Scalar> = Vec::new();
        let mut i: usize = 0;
        while i < count
            invariant
                i <= count,
                start + count <= u64::MAX,
                rows@.len() == i,
                forall|j: int|
                    0 <= j < i ==> scalar_view(#[trigger] rows@[j]) == ScalarView::Number(
                        NumberScalar::UInt64((start + j) as u64),
                    ),
            decreases count - i,
        {
            rows.push(Scalar::Number(NumberScalar::UInt64(start + i as u64)));
            i += 1;
        }
        let column = Column { data_type: DataType::Number(NumberDataType::UInt64), rows };
        assert(column@.rows =~= sequence_column(start, count as nat).rows);
        data_block.add_column(BlockEntry { data_type: data_type.clone(), value: Value::Column(column) });
    }
}

/// What is known of a dictionary: keys and their values, the value `null` for a key that the
/// dictionary does not have.
#[derive(Debug)]
pub struct DictGetOperator {
    pub conn_str: String,
    pub cache: Vec<(Vec<u8>, Vec<u8>)>,
}

pub open spec fn cache_views(v: Seq<(Vec<u8>, Vec<u8>)>) -> Seq<(Seq<u8>, Seq<u8>)> {
    v.map_values(|e: (Vec<u8>, Vec<u8>)| (e.0@, e.1@))
}

/// The value of a key.
pub open spec fn cached(cache: Seq<(Seq<u8>, Seq<u8>)>, key: Seq<u8>) -> Option<Seq<u8>>
    decreases cache.len(),
{
    if cache.len() == 0 {
        None
    } else if cache.last().0 == key {
        Some(cache.last().1)
    } else {
        cached(cache.drop_last(), key)
    }
}

impl DictGetOperator {
    pub open spec fn known(&self, key: Seq<u8>) -> Option<Seq<u8>> {
        cached(cache_views(self.cache@), key)
    }

    pub fn new(conn_str: String) -> (r: DictGetOperator)
        ensures
            r.conn_str@ == conn_str@,
            r.cache@.len() == 0,
            forall|key: Seq<u8>| #[trigger] r.known(key) is None,
    {
        DictGetOperator { conn_str, cache: Vec::new() }
    }

    /// Remembers the value of a key.
    pub fn add_new_kv(&mut self, key: Vec<u8>, value: Vec<u8>)
        ensures
            final(self).conn_str == old(self).conn_str,
            forall|k: Seq<u8>| #[trigger] final(self).known(k) == if k == key@ {
                Some(value@)
            } else {
                old(self).known(k)
            },
    {
        let ghost before = cache_views(self.cache@);
        self.cache.push((key, value));
        proof {
            assert(cache_views(self.cache@) =~= before.push((key@, value@)));
            assert(before.push((key@, value@)).drop_last() =~= before);
        }
    }

    /// The value of a key as far as it is known.
    pub fn get_value(&self, key: &Vec<u8>) -> (r: Option<Vec<u8>>)
        ensures
            r matches Some(v) ==> self.known(key@) == Some(v@),
            r is None ==> self.known(key@) is None,
    {
        let ghost all = cache_views(self.cache@);
        let mut i: usize = self.cache.len();
        assert(all.take(i as int) =~= all);
        while i > 0
            invariant
                i <= self.cache@.len(),
                all == cache_views(self.cache@),
                all.len() == self.cache@.len(),
                cached(all, key@) == cached(all.take(i as int), key@),
            decreases i,
        {
            proof {
                assert(all.take(i as int).last() == (self.cache@[i - 1].0@, self.cache@[i - 1].1@));
                assert(all.take(i as int).drop_last() =~= all.take(i - 1));
            }
            if same_bytes(&self.cache[i - 1].0, key) {
                return Some(clone_bytes(&self.cache[i - 1].1));
            }
            i -= 1;
        }
        None
    }
}

/// The bytes of the text `null`, which stands for a missing value.
pub open spec fn null_text() -> Seq<u8> {
    seq![110u8, 117u8, 108u8, 108u8]
}

fn null_bytes() -> (r: Vec<u8>)
    ensures
        r@ == null_text(),
{
    let mut r: Vec<u8> = Vec::new();
    r.push(110);
    r.push(117);
    r.push(108);
    r.push(108);
    assert(r@ =~= null_text());
    r
}

/// The digits of an integer as bytes.
pub open spec fn decimal_bytes(n: int) -> Seq<u8> {
    signed_decimal(n).map_values(|c: char| c as u8)
}

/// The key that a value is looked up by: a text itself, a number by its digits, and nothing for
/// any other value.
pub open spec fn dict_key(s: ScalarView) -> Seq<u8> {
    match s {
        ScalarView::String(v) => v,
        ScalarView::Number(n) => decimal_bytes(number_rank(n)),
        _ => Seq::empty(),
    }
}

/// A number whose digits are those of its rank.
pub open spec fn is_integer(s: ScalarView) -> bool {
    s matches ScalarView::Number(n) ==> !(n is Float32) && !(n is Float64)
}

fn unsigned_bytes(n: u64) -> (r: Vec<u8>)
    ensures
        r@ == decimal_bytes(n as int),
    decreases n,
{
    if n < 10 {
        let mut r: Vec<u8> = Vec::new();
        r.push(digit_byte(n));
        assert(r@ =~= decimal_bytes(n as int));
        r
    } else {
        let mut r = unsigned_bytes(n / 10);
        r.push(digit_byte(n % 10));
        assert(r@ =~= decimal_bytes(n as int));
        r
    }
}

fn digit_byte(d: u64) -> (r: u8)
    requires
        d < 10,
    ensures
        r == digit(d as nat) as u8,
{
    48 + d as u8
}

fn signed_bytes(n: i64) -> (r: Vec<u8>)
    ensures
        r@ == decimal_bytes(n as int),
{
    if n < 0 {
        let mut r: Vec<u8> = Vec::new();
        r.push(45);
        let magnitude: u64 = if n == i64::MIN {
            0x8000_0000_0000_0000
        } else {
            (-n) as u64
        };
        let mut digits = unsigned_bytes(magnitude);
        r.append(&mut digits);
        assert(r@ =~= decimal_bytes(n as int));
        r
    } else {
        unsigned_bytes(n as u64)
    }
}

fn key_of(s: &Scalar) -> (r: Vec<u8>)
    requires
        is_integer(s@),
    ensures
        r@ == dict_key(s@),
{
    match s {
        Scalar::String(v) => clone_bytes(v),
        Scalar::Number(n) => match *n {
            NumberScalar::UInt8(v) => unsigned_bytes(v as u64),
            NumberScalar::UInt16(v) => unsigned_bytes(v as u64),
            NumberScalar::UInt32(v) => unsigned_bytes(v as u64),
            NumberScalar::UInt64(v) => unsigned_bytes(v),
            NumberScalar::Int8(v) => signed_bytes(v as i64),
            NumberScalar::Int16(v) => signed_bytes(v as i64),
            NumberScalar::Int32(v) => signed_bytes(v as i64),
            NumberScalar::Int64(v) => signed_bytes(v),
            NumberScalar::Float32(v) => signed_bytes(v as i64),
            NumberScalar::Float64(v) => signed_bytes(v),
        },
        _ => Vec::new(),
    }
}

/// The value of a key that is known. For a single value the text `null` stands for a missing
/// value; in a column it stands for itself.
pub open spec fn known_value(scalar: bool, value: Seq<u8>) -> ScalarView {
    if scalar && value == null_text() {
        ScalarView::Null
    } else {
        ScalarView::String(value)
    }
}

/// The value of a key that has just been read.
pub open spec fn read_value(scalar: bool, read: Seq<u8>) -> ScalarView {
    if read.len() == 0 {
        if scalar {
            ScalarView::Null
        } else {
            ScalarView::String(null_text())
        }
    } else {
        ScalarView::String(read)
    }
}

/// What is remembered of a key that has been read.
pub open spec fn remembered(read: Seq<u8>) -> Seq<u8> {
    if read.len() == 0 {
        null_text()
    } else {
        read
    }
}

/// A look-up of the values of one argument, row by row.
#[derive(Debug)]
pub struct DictGetTask {
    keys: Vec<Vec<u8>>,
    /// Whether the argument is one value for all rows.
    scalar: bool,
    values: Vec<Scalar>,
}

/// What a look-up needs next.
#[derive(Debug)]
pub enum DictStep {
    /// The key has to be read from the dictionary.
    Read(Vec<u8>),
    Done,
}

pub open spec fn key_views(keys: Seq<Vec<u8>>) -> Seq<Seq<u8>> {
    keys.map_values(|k: Vec<u8>| k@)
}

/// The keys of an argument.
pub open spec fn argument_keys(e: EntryView) -> Seq<Seq<u8>> {
    match e.value {
        ValueView::Scalar(s) => seq![dict_key(s)],
        ValueView::Column(c) => c.rows.map_values(|s: ScalarView| dict_key(s)),
    }
}

/// No key of an argument is a float.
pub open spec fn argument_ok(e: EntryView) -> bool {
    match e.value {
        ValueView::Scalar(s) => is_integer(s),
        ValueView::Column(c) => forall|i: int| 0 <= i < c.rows.len() ==> is_integer(#[trigger] c.rows[i]),
    }
}

/// The values found for the rows of a column are what the dictionary is known to hold.
pub open spec fn values_known(keys: Seq<Seq<u8>>, values: Seq<ScalarView>, dict: DictGetOperator) -> bool {
    forall|j: int|
        #![trigger values[j]]
        0 <= j < values.len() ==> if keys[j].len() == 0 {
            values[j] == ScalarView::String(Seq::empty())
        } else {
            dict.known(keys[j]) matches Some(v) && values[j] == ScalarView::String(v)
        }
}

impl DictGetTask {
    pub closed spec fn all_keys(&self) -> Seq<Seq<u8>> {
        key_views(self.keys@)
    }

    pub closed spec fn is_scalar(&self) -> bool {
        self.scalar
    }

    pub closed spec fn found(&self) -> Seq<ScalarView> {
        scalar_views(self.values@)
    }

    /// Starts the look-up of an argument.
    pub fn start(entry: &BlockEntry) -> (r: DictGetTask)
        requires
            argument_ok(entry@),
        ensures
            r.all_keys() == argument_keys(entry@),
            r.is_scalar() == (entry@.value is Scalar),
            r.found().len() == 0,
    {
        let mut keys: Vec<Vec<u8>> = Vec::new();
        let scalar = match &entry.value {
            Value::Scalar(s) => {
                keys.push(key_of(s));
                assert(key_views(keys@) =~= argument_keys(entry@));
                true
            },
            Value::Column(c) => {
                let ghost rows = scalar_views(c.rows@);
                let mut i: usize = 0;
                assert(entry@.value == ValueView::Column(c@));
                assert forall|j: int| 0 <= j < rows.len() implies is_integer(#[trigger] rows[j]) by {
                    assert(c@.rows[j] == rows[j]);
                }
                while i < c.rows.len()
                    invariant
                        i <= c.rows@.len(),
                        rows == scalar_views(c.rows@),
                        forall|j: int| 0 <= j < rows.len() ==> is_integer(#[trigger] rows[j]),
                        keys@.len() == i,
                        forall|j: int| 0 <= j < i ==> (#[trigger] keys@[j])@ == dict_key(rows[j]),
                    decreases c.rows.len() - i,
                {
                    assert(rows[i as int] == scalar_view(c.rows@[i as int]));
                    keys.push(key_of(&c.rows[i]));
                    i += 1;
                }
                assert(key_views(keys@) =~= argument_keys(entry@));
                false
            },
        };
        DictGetTask { keys, scalar, values: Vec::new() }
    }

    /// Finds values as far as they are known.
    pub fn step(&mut self, dict: &DictGetOperator) -> (r: DictStep)
        requires
            old(self).found().len() <= old(self).all_keys().len(),
        ensures
            final(self).all_keys() == old(self).all_keys(),
            final(self).is_scalar() == old(self).is_scalar(),
            old(self).found().len() <= final(self).found().len() <= final(self).all_keys().len(),
            final(self).found().take(old(self).found().len() as int) == old(self).found(),
            forall|j: int|
                #![trigger final(self).found()[j]]
                old(self).found().len() <= j < final(self).found().len() ==> {
                    let key = old(self).all_keys()[j];
                    if key.len() == 0 {
                        final(self).found()[j] == ScalarView::String(Seq::empty())
                    } else {
                        dict.known(key) matches Some(v) && final(self).found()[j] == known_value(
                            old(self).is_scalar(),
                            v,
                        )
                    }
                },
            r is Done <==> final(self).found().len() == final(self).all_keys().len(),
            r matches DictStep::Read(key) ==> {
                &&& key@ == final(self).all_keys()[final(self).found().len() as int]
                &&& key@.len() > 0
                &&& dict.known(key@) is None
            },
            !old(self).is_scalar() && values_known(old(self).all_keys(), old(self).found(), *dict) ==> values_known(
                final(self).all_keys(),
                final(self).found(),
                *dict,
            ),
    {
        let ghost keys = self.all_keys();
        let ghost start = self.found();
        let ghost scalar = self.scalar;
        assert(start.take(start.len() as int) =~= start);
        while self.values.len() < self.keys.len()
            invariant
                self.keys == old(self).keys,
                self.scalar == old(self).scalar,
                scalar == self.scalar,
                keys == self.all_keys(),
                keys.len() == self.keys@.len(),
                start == old(self).found(),
                start.len() <= self.values@.len() <= keys.len(),
                self.found().len() == self.values@.len(),
                self.found().take(start.len() as int) == start,
                forall|j: int|
                    #![trigger self.found()[j]]
                    start.len() <= j < self.values@.len() ==> {
                        if keys[j].len() == 0 {
                            self.found()[j] == ScalarView::String(Seq::empty())
                        } else {
                            dict.known(keys[j]) matches Some(v) && self.found()[j] == known_value(scalar, v)
                        }
                    },
            decreases self.keys@.len() - self.values@.len(),
        {
            let i: usize = self.values.len();
            assert(keys[i as int] == self.keys@[i as int]@);
            let value = if self.keys[i].len() == 0 {
                Scalar::String(Vec::new())
            } else {
                match dict.get_value(&self.keys[i]) {
                    Some(v) => if self.scalar && same_bytes(&v, &null_bytes()) {
                        Scalar::Null
                    } else {
                        Scalar::String(v)
                    },
                    None => {
                        let key = clone_bytes(&self.keys[i]);
                        proof {
                            lemma_known_prefix(keys, start, self.found(), *dict, scalar);
                        }
                        return DictStep::Read(key);
                    },
                }
            };
            let ghost before = self.values@;
            let ghost view = value@;
            assert(self.keys[i as int]@.len() == 0 ==> view == ScalarView::String(Seq::empty()));
            self.values.push(value);
            proof {
                lemma_scalar_views_push(before, self.values@[i as int]);
                assert(self.values@ =~= before.push(self.values@[i as int]));
                assert(self.found() =~= scalar_views(before).push(view));
                assert(self.found().take(start.len() as int) =~= start);
            }
        }
        proof {
            lemma_known_prefix(keys, start, self.found(), *dict, scalar);
        }
        DictStep::Done
    }

    /// Takes what was read of the key that `step` asked for: a text, or nothing where the
    /// dictionary does not have the key.
    pub fn supply(&mut self, dict: &mut DictGetOperator, read: Vec<u8>)
        requires
            old(self).found().len() < old(self).all_keys().len(),
        ensures
            final(self).all_keys() == old(self).all_keys(),
            final(self).is_scalar() == old(self).is_scalar(),
            final(self).found() == old(self).found().push(read_value(old(self).is_scalar(), read@)),
            final(dict).conn_str == old(dict).conn_str,
            forall|k: Seq<u8>| #[trigger] final(dict).known(k) == if k == old(self).all_keys()[old(self).found().len() as int] {
                Some(remembered(read@))
            } else {
                old(dict).known(k)
            },
            ({
                let key = old(self).all_keys()[old(self).found().len() as int];
                !old(self).is_scalar() && key.len() > 0 && old(dict).known(key) is None && values_known(
                    old(self).all_keys(),
                    old(self).found(),
                    *old(dict),
                )
            }) ==> values_known(final(self).all_keys(), final(self).found(), *final(dict)),
    {
        let i: usize = self.values.len();
        assert(self.all_keys()[i as int] == self.keys@[i as int]@);
        let key = clone_bytes(&self.keys[i]);
        let ghost before = self.values@;
        let value = if read.len() == 0 {
            dict.add_new_kv(key, null_bytes());
            if self.scalar {
                Scalar::Null
            } else {
                Scalar::String(null_bytes())
            }
        } else {
            dict.add_new_kv(key, clone_bytes(&read));
            Scalar::String(read)
        };
        self.values.push(value);
        proof {
            lemma_scalar_views_push(before, self.values@[i as int]);
            assert(self.values@ =~= before.push(self.values@[i as int]));
            let now = self.found();
            assert(now == scalar_views(before).push(read_value(self.scalar, read@)));
            let keys = self.all_keys();
            let k = keys[i as int];
            if !self.scalar && k.len() > 0 && old(dict).known(k) is None && values_known(
                keys,
                old(self).found(),
                *old(dict),
            ) {
                assert forall|j: int| #![trigger now[j]] 0 <= j < now.len() implies if keys[j].len() == 0 {
                    now[j] == ScalarView::String(Seq::empty())
                } else {
                    dict.known(keys[j]) matches Some(v) && now[j] == ScalarView::String(v)
                } by {
                    if j < i {
                        assert(now[j] == old(self).found()[j]);
                        assert(dict.known(keys[j]) == if keys[j] == k {
                            Some(remembered(read@))
                        } else {
                            old(dict).known(keys[j])
                        });
                    } else {
                        assert(dict.known(k) == Some(remembered(read@)));
                    }
                }
            }
        }
    }

    /// Adds the column of the values that were found.
    pub fn finish(self, data_block: &mut DataBlock, data_type: &DataType)
        requires
            self.found().len() == self.all_keys().len(),
            rows_ok(old(data_block)@.columns, old(data_block)@.num_rows),
            self.is_scalar() ==> self.found().len() == 1,
            !self.is_scalar() ==> self.found().len() == old(data_block)@.num_rows,
        ensures
            final(data_block)@ == (BlockView {
                columns: old(data_block)@.columns.push(
                    EntryView {
                        data_type: data_type@,
                        value: if self.is_scalar() {
                            ValueView::Scalar(self.found()[0])
                        } else {
                            ValueView::Column(ColumnView { data_type: TypeView::String, rows: self.found() })
                        },
                    },
                ),
                ..old(data_block)@
            }),
    {
        let mut values = self.values;
        let value = if self.scalar {
            assert(self.found()[0] == scalar_view(values@[0]));
            Value::Scalar(values.swap_remove(0))
        } else {
            Value::Column(Column { data_type: DataType::String, rows: values })
        };
        data_block.add_column(BlockEntry { data_type: data_type.clone(), value });
    }
}

proof fn lemma_known_prefix(
    keys: Seq<Seq<u8>>,
    start: Seq<ScalarView>,
    now: Seq<ScalarView>,
    dict: DictGetOperator,
    scalar: bool,
)
    requires
        start.len() <= now.len() <= keys.len(),
        now.take(start.len() as int) == start,
        forall|j: int|
            #![trigger now[j]]
            start.len() <= j < now.len() ==> if keys[j].len() == 0 {
                now[j] == ScalarView::String(Seq::empty())
            } else {
                dict.known(keys[j]) matches Some(v) && now[j] == known_value(scalar, v)
            },
    ensures
        !scalar && values_known(keys, start, dict) ==> values_known(keys, now, dict),
{
    if !scalar && values_known(keys, start, dict) {
        assert forall|j: int| #![trigger now[j]] 0 <= j < now.len() implies if keys[j].len() == 0 {
            now[j] == ScalarView::String(Seq::empty())
        } else {
            dict.known(keys[j]) matches Some(v) && now[j] == ScalarView::String(v)
        } by {
            if j < start.len() {
                assert(now.take(start.len() as int)[j] == start[j]);
            }
        }
    }
}

/// The dictionaries that are in use, by their connections.
#[derive(Debug)]
pub struct DictGetOperators {
    pub operators: Vec<DictGetOperator>,
}

/// A character in lower case, as far as it is one of the Latin alphabet.
pub open spec fn ascii_lower(c: char) -> char {
    if 'A' <= c && c <= 'Z' {
        ((c as u32) + 32) as char
    } else {
        c
    }
}

/// A source of dictionaries that is named `redis`, in upper or lower case.
pub open spec fn is_redis(source: Seq<char>) -> bool {
    source.map_values(|c: char| ascii_lower(c)) == "redis"@
}

fn check_redis(source: &str) -> (r: bool)
    ensures
        r == is_redis(source@),
{
    proof {
        reveal_strlit("redis");
    }
    let ghost lower = source@.map_values(|c: char| ascii_lower(c));
    if source.unicode_len() != 5 {
        assert(lower.len() != 5);
        return false;
    }
    let c0 = source.get_char(0);
    let c1 = source.get_char(1);
    let c2 = source.get_char(2);
    let c3 = source.get_char(3);
    let c4 = source.get_char(4);
    let r = (c0 == 'r' || c0 == 'R') && (c1 == 'e' || c1 == 'E') && (c2 == 'd' || c2 == 'D') && (c3 == 'i' || c3 == 'I')
        && (c4 == 's' || c4 == 'S');
    proof {
        if r {
            assert(lower =~= "redis"@);
        } else {
            if lower == "redis"@ {
                assert(lower[0] == 'r' && lower[1] == 'e' && lower[2] == 'd' && lower[3] == 'i' && lower[4] == 's');
            }
        }
    }
    r
}

pub open spec fn connections(v: Seq<DictGetOperator>) -> Seq<Seq<char>> {
    v.map_values(|o: DictGetOperator| o.conn_str@)
}

impl DictGetOperators {
    pub fn new() -> (r: DictGetOperators)
        ensures
            r.operators@.len() == 0,
    {
        DictGetOperators { operators: Vec::new() }
    }

    /// Takes a dictionary into use, unless it is in use already. Returns whether it is new.
    pub fn add_new_operator(&mut self, conn_str: String, source: &str) -> (r: bool)
        requires
            connections(old(self).operators@).contains(conn_str@) || is_redis(source@),
        ensures
            r == !connections(old(self).operators@).contains(conn_str@),
            !r ==> final(self).operators@ == old(self).operators@,
            r ==> {
                &&& final(self).operators@.len() == old(self).operators@.len() + 1
                &&& final(self).operators@.drop_last() == old(self).operators@
                &&& final(self).operators@.last().conn_str@ == conn_str@
                &&& final(self).operators@.last().cache@.len() == 0
            },
    {
        if let Some(_) = self.get_operator(conn_str.as_str()) {
            return false;
        }
        let ghost before = self.operators@;
        self.operators.push(DictGetOperator::new(conn_str));
        assert(self.operators@.drop_last() =~= before);
        true
    }

    /// Whether a dictionary of the source can be taken into use.
    pub fn is_supported(source: &str) -> (r: bool)
        ensures
            r == is_redis(source@),
    {
        check_redis(source)
    }

    /// The place of the dictionary of a connection.
    pub fn get_operator(&self, conn_str: &str) -> (r: Option<usize>)
        ensures
            r matches Some(i) ==> i < self.operators@.len() && self.operators@[i as int].conn_str@ == conn_str@,
            r is Some <==> connections(self.operators@).contains(conn_str@),
    {
        let ghost all = connections(self.operators@);
        let mut i: usize = 0;
        while i < self.operators.len()
            invariant
                i <= self.operators@.len(),
                all == connections(self.operators@),
                forall|j: int| 0 <= j < i ==> #[trigger] all[j] != conn_str@,
            decreases self.operators.len() - i,
        {
            assert(all[i as int] == self.operators@[i as int].conn_str@);
            if same_text(self.operators[i].conn_str.as_str(), conn_str) {
                return Some(i);
            }
            i += 1;
        }
        assert(!all.contains(conn_str@));
        None
    }
}

/// The numbers of a sequence follow each other, one for each row.
pub proof fn sequence_numbers_follow_each_other(start: u64, count: nat, i: int)
    requires
        start + count <= u64::MAX,
        0 <= i < count,
    ensures
        sequence_column(start, count).rows.len() == count,
        sequence_column(start, count).data_type == TypeView::Number(NumberDataType::UInt64),
        sequence_column(start, count).rows[i] matches ScalarView::Number(NumberScalar::UInt64(n)) && n == start + i,
{
}

/// A dictionary is asked by the bytes of a string, or by the decimal digits of a number; nothing
/// else is asked for.
pub proof fn what_a_dictionary_is_asked_by(s: ScalarView)
    ensures
        s matches ScalarView::String(v) ==> dict_key(s) == v,
        s matches ScalarView::Number(NumberScalar::UInt64(n)) ==> dict_key(s) == decimal(n as nat).map_values(
            |c: char| c as u8,
        ),
        s matches ScalarView::Number(NumberScalar::Int64(n)) ==> (n < 0 ==> dict_key(s) == (seq!['-'] + decimal(
            (-n) as nat,
        )).map_values(|c: char| c as u8)),
        !(s is String || s is Number) ==> dict_key(s).len() == 0,
{
}

/// What a dictionary does not have is missing where one value is asked for, and the text `null` in
/// a column; what it has is given as it is. What was read is known from then on: it is given again
/// just so.
pub proof fn what_was_read_is_given_again(scalar: bool, read: Seq<u8>)
    ensures
        read.len() == 0 && scalar ==> read_value(scalar, read) == ScalarView::Null,
        read.len() == 0 && !scalar ==> read_value(scalar, read) == ScalarView::String(
            "null"@.map_values(|c: char| c as u8),
        ),
        read.len() > 0 ==> read_value(scalar, read) == ScalarView::String(read),
        !scalar || read != "null"@.map_values(|c: char| c as u8) ==> known_value(scalar, remembered(read))
            == read_value(scalar, read),
{
    reveal_strlit("null");
    assert("null"@.map_values(|c: char| c as u8) =~= null_text());
}

/// A dictionary of the one source that there is can be named in any case.
pub proof fn the_source_is_named_in_any_case(source: Seq<char>)
    ensures
        is_redis(source) <==> {
            &&& source.len() == 5
            &&& source[0] == 'r' || source[0] == 'R'
            &&& source[1] == 'e' || source[1] == 'E'
            &&& source[2] == 'd' || source[2] == 'D'
            &&& source[3] == 'i' || source[3] == 'I'
            &&& source[4] == 's' || source[4] == 'S'
        },
{
    reveal_strlit("redis");
    let lower = source.map_values(|c: char| ascii_lower(c));
    if lower == "redis"@ {
        assert(lower.len() == 5);
        assert(lower[0] == 'r' && lower[1] == 'e' && lower[2] == 'd' && lower[3] == 'i' && lower[4] == 's');
    }
    if source.len() == 5 && lower[0] == 'r' && lower[1] == 'e' && lower[2] == 'd' && lower[3] == 'i' && lower[4] == 's' {
        assert(lower =~= "redis"@);
    }
}

/// A value is known for a key that was stored, and it is the one that was stored last.
pub proof fn the_last_value_of_a_key_counts(cache: Seq<(Seq<u8>, Seq<u8>)>, key: Seq<u8>)
    ensures
        cached(cache, key) is Some <==> exists|i: int| 0 <= i < cache.len() && (#[trigger] cache[i]).0 == key,
        cached(cache, key) matches Some(v) ==> exists|i: int|
            #![trigger cache[i]]
            0 <= i < cache.len() && cache[i] == (key, v) && forall|j: int| i < j < cache.len() ==> (#[trigger] cache[j]).0 != key,
    decreases cache.len(),
{
    if cache.len() > 0 {
        let n = cache.len() - 1;
        let before = cache.drop_last();
        the_last_value_of_a_key_counts(before, key);
        assert(cache.last() == cache[n]);
        if cache[n].0 == key {
            assert(cache[n] == (key, cache[n].1));
        } else {
            if let Some(v) = cached(before, key) {
                let i = choose|i: int|
                    #![trigger before[i]]
                    0 <= i < before.len() && before[i] == (key, v) && forall|j: int|
                        i < j < before.len() ==> (#[trigger] before[j]).0 != key;
                assert(cache[i] == (key, v));
                assert forall|j: int| i < j < cache.len() implies (#[trigger] cache[j]).0 != key by {
                    if j < n {
                        assert(before[j] == cache[j]);
                    }
                }
            }
            if exists|i: int| 0 <= i < cache.len() && (#[trigger] cache[i]).0 == key {
                let i = choose|i: int| 0 <= i < cache.len() && (#[trigger] cache[i]).0 == key;
                assert(before[i] == cache[i]);
            }
        }
    }
}

}
