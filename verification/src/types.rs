//! Data types, scalars and columns.

use vstd::prelude::*;

use crate::text::decimal;
use crate::text::join;
use crate::text::push_decimal;
use crate::text::separated;
use crate::text::texts;

verus! {

#[derive(Clone, Copy, Debug, PartialEq, Eq, Structural)]
pub enum NumberDataType {
    UInt8,
    UInt16,
    UInt32,
    UInt64,
    Int8,
    Int16,
    Int32,
    Int64,
    Float32,
    Float64,
}

#[derive(Clone, Copy, Debug, PartialEq, Eq, Structural)]
pub struct DecimalSize {
    pub precision: u8,
    pub scale: u8,
}

#[derive(Clone, Copy, Debug, PartialEq, Eq, Structural)]
pub enum DecimalDataType {
    Decimal128(DecimalSize),
    Decimal256(DecimalSize),
}

#[derive(Debug)]
pub enum DataType {
    Null,
    EmptyArray,
    EmptyMap,
    Boolean,
    String,
    Number(NumberDataType),
    Decimal(DecimalDataType),
    Timestamp,
    Date,
    Nullable(Box<DataType>),
    Array(Box<DataType>),
    Mapping(Box<DataType>),
    Bitmap,
    Tuple(Vec<DataType>),
    Variant,
    Generic(usize),
}

/// What a `DataType` stands for: the same tree, with sequences in place of vectors.
pub enum TypeView {
    Null,
    EmptyArray,
    EmptyMap,
    Boolean,
    String,
    Number(NumberDataType),
    Decimal(DecimalDataType),
    Timestamp,
    Date,
    Nullable(Box<TypeView>),
    Array(Box<TypeView>),
    Mapping(Box<TypeView>),
    Bitmap,
    Tuple(Seq<TypeView>),
    Variant,
    Generic(usize),
}

impl View for DataType {
    type V = TypeView;

    open spec fn view(&self) -> TypeView {
        type_view(*self)
    }
}

pub open spec fn type_view(t: DataType) -> TypeView
    decreases t,
{
    match t {
        DataType::Null => TypeView::Null,
        DataType::EmptyArray => TypeView::EmptyArray,
        DataType::EmptyMap => TypeView::EmptyMap,
        DataType::Boolean => TypeView::Boolean,
        DataType::String => TypeView::String,
        DataType::Number(n) => TypeView::Number(n),
        DataType::Decimal(d) => TypeView::Decimal(d),
        DataType::Timestamp => TypeView::Timestamp,
        DataType::Date => TypeView::Date,
        DataType::Nullable(t) => TypeView::Nullable(Box::new(type_view(*t))),
        DataType::Array(t) => TypeView::Array(Box::new(type_view(*t))),
        DataType::Mapping(t) => TypeView::Mapping(Box::new(type_view(*t))),
        DataType::Bitmap => TypeView::Bitmap,
        DataType::Tuple(ts) => TypeView::Tuple(type_views(ts@)),
        DataType::Variant => TypeView::Variant,
        DataType::Generic(n) => TypeView::Generic(n),
    }
}

pub open spec fn type_views(ts: Seq<DataType>) -> Seq<TypeView>
    decreases ts,
{
    Seq::new(ts.len(), |i: int| if 0 <= i < ts.len() { type_view(ts[i]) } else { TypeView::Null })
}

impl DataType {
    fn copied_all(ts: &Vec<DataType>) -> (out: Vec<DataType>)
        ensures
            type_views(out@) == type_views(ts@),
        decreases ts,
    {
        let mut out: Vec<DataType> = Vec::new();
        let mut i: usize = 0;
        while i < ts.len()
            invariant
                0 <= i <= ts.len(),
                out.len() == i,
                forall|j: int| 0 <= j < i ==> type_view(#[trigger] out@[j]) == type_view(ts@[j]),
            decreases ts.len() - i,
        {
            assert(decreases_to!(ts => ts[i as int]));
            let t = ts[i].copied();
            out.push(t);
            i += 1;
        }
        assert(type_views(out@) =~= type_views(ts@));
        out
    }

    fn copied(&self) -> (r: DataType)
        ensures
            r@ == self@,
        decreases self,
    {
        match self {
            DataType::Null => DataType::Null,
            DataType::EmptyArray => DataType::EmptyArray,
            DataType::EmptyMap => DataType::EmptyMap,
            DataType::Boolean => DataType::Boolean,
            DataType::String => DataType::String,
            DataType::Number(n) => DataType::Number(*n),
            DataType::Decimal(d) => DataType::Decimal(*d),
            DataType::Timestamp => DataType::Timestamp,
            DataType::Date => DataType::Date,
            DataType::Nullable(t) => DataType::Nullable(Box::new(t.copied())),
            DataType::Array(t) => DataType::Array(Box::new(t.copied())),
            DataType::Mapping(t) => DataType::Mapping(Box::new(t.copied())),
            DataType::Bitmap => DataType::Bitmap,
            DataType::Tuple(ts) => {
                let out = Self::copied_all(ts);
                DataType::Tuple(out)
            }
            DataType::Variant => DataType::Variant,
            DataType::Generic(n) => DataType::Generic(*n),
        }
    }

    fn same_all(a: &Vec<DataType>, b: &Vec<DataType>) -> (r: bool)
        ensures
            r == (type_views(a@) == type_views(b@)),
        decreases a,
    {
        if a.len() != b.len() {
            assert(type_views(a@).len() != type_views(b@).len());
            return false;
        }
        let mut i: usize = 0;
        while i < a.len()
            invariant
                i <= a.len(),
                a.len() == b.len(),
                forall|j: int| 0 <= j < i ==> type_view(#[trigger] a@[j]) == type_view(b@[j]),
            decreases a.len() - i,
        {
            assert(decreases_to!(a => a[i as int]));
            if !a[i].same(&b[i]) {
                assert(type_views(a@)[i as int] != type_views(b@)[i as int]);
                return false;
            }
            i += 1;
        }
        assert(type_views(a@) =~= type_views(b@));
        true
    }

    /// Whether two types are the same type.
    pub fn same(&self, other: &DataType) -> (r: bool)
        ensures
            r == (self@ == other@),
        decreases self,
    {
        match (self, other) {
            (DataType::Null, DataType::Null) => true,
            (DataType::EmptyArray, DataType::EmptyArray) => true,
            (DataType::EmptyMap, DataType::EmptyMap) => true,
            (DataType::Boolean, DataType::Boolean) => true,
            (DataType::String, DataType::String) => true,
            (DataType::Number(a), DataType::Number(b)) => *a == *b,
            (DataType::Decimal(a), DataType::Decimal(b)) => *a == *b,
            (DataType::Timestamp, DataType::Timestamp) => true,
            (DataType::Date, DataType::Date) => true,
            (DataType::Nullable(a), DataType::Nullable(b)) => a.same(b),
            (DataType::Array(a), DataType::Array(b)) => a.same(b),
            (DataType::Mapping(a), DataType::Mapping(b)) => a.same(b),
            (DataType::Bitmap, DataType::Bitmap) => true,
            (DataType::Tuple(a), DataType::Tuple(b)) => Self::same_all(a, b),
            (DataType::Variant, DataType::Variant) => true,
            (DataType::Generic(a), DataType::Generic(b)) => *a == *b,
            _ => false,
        }
    }

    /// Strips one `Nullable`.
    pub fn remove_nullable(&self) -> (r: DataType)
        ensures
            r@ == remove_nullable(self@),
    {
        match self {
            DataType::Nullable(t) => t.copied(),
            _ => self.copied(),
        }
    }

    pub fn is_nullable_or_null(&self) -> (r: bool)
        ensures
            r == is_nullable_or_null(self@),
    {
        matches!(self, DataType::Nullable(_) | DataType::Null)
    }
}

impl Clone for DataType {
    fn clone(&self) -> (r: DataType)
        ensures
            r@ == self@,
    {
        self.copied()
    }
}

impl PartialEq for DataType {
    fn eq(&self, other: &DataType) -> (r: bool) {
        self.same(other)
    }
}

impl vstd::std_specs::cmp::PartialEqSpecImpl for DataType {
    open spec fn obeys_eq_spec() -> bool {
        true
    }

    open spec fn eq_spec(&self, other: &DataType) -> bool {
        self@ == other@
    }
}

pub open spec fn remove_nullable(t: TypeView) -> TypeView {
    match t {
        TypeView::Nullable(inner) => *inner,
        _ => t,
    }
}

pub open spec fn is_nullable_or_null(t: TypeView) -> bool {
    t is Nullable || t is Null
}

pub open spec fn number_type_text(t: NumberDataType) -> Seq<char> {
    match t {
        NumberDataType::UInt8 => "UInt8"@,
        NumberDataType::UInt16 => "UInt16"@,
        NumberDataType::UInt32 => "UInt32"@,
        NumberDataType::UInt64 => "UInt64"@,
        NumberDataType::Int8 => "Int8"@,
        NumberDataType::Int16 => "Int16"@,
        NumberDataType::Int32 => "Int32"@,
        NumberDataType::Int64 => "Int64"@,
        NumberDataType::Float32 => "Float32"@,
        NumberDataType::Float64 => "Float64"@,
    }
}

pub open spec fn decimal_size(t: DecimalDataType) -> DecimalSize {
    match t {
        DecimalDataType::Decimal128(size) => size,
        DecimalDataType::Decimal256(size) => size,
    }
}

/// How a type is shown.
pub open spec fn type_text(t: TypeView) -> Seq<char>
    decreases t,
{
    match t {
        TypeView::Null => "NULL"@,
        TypeView::EmptyArray => "Array(Nothing)"@,
        TypeView::EmptyMap => "Map(Nothing)"@,
        TypeView::Boolean => "Boolean"@,
        TypeView::String => "String"@,
        TypeView::Number(n) => number_type_text(n),
        TypeView::Decimal(d) => "Decimal("@ + decimal(decimal_size(d).precision as nat) + ", "@ + decimal(
            decimal_size(d).scale as nat,
        ) + ")"@,
        TypeView::Timestamp => "Timestamp"@,
        TypeView::Date => "Date"@,
        TypeView::Nullable(inner) => type_text(*inner) + " NULL"@,
        TypeView::Array(inner) => "Array("@ + type_text(*inner) + ")"@,
        TypeView::Mapping(inner) => "Map("@ + (match *inner {
            TypeView::Tuple(ts) => separated(type_texts(ts), ", "@),
            _ => type_text(*inner),
        }) + ")"@,
        TypeView::Bitmap => "Bitmap"@,
        TypeView::Tuple(ts) => if ts.len() == 1 {
            "Tuple("@ + separated(type_texts(ts), ", "@) + ",)"@
        } else {
            "Tuple("@ + separated(type_texts(ts), ", "@) + ")"@
        },
        TypeView::Variant => "Variant"@,
        TypeView::Generic(n) => "T"@ + decimal(n as nat),
    }
}

pub open spec fn type_texts(ts: Seq<TypeView>) -> Seq<Seq<char>>
    decreases ts,
{
    Seq::new(ts.len(), |i: int| if 0 <= i < ts.len() { type_text(ts[i]) } else { Seq::empty() })
}

impl NumberDataType {
    pub fn to_text(&self) -> (r: String)
        ensures
            r@ == number_type_text(*self),
    {
        let text = match self {
            NumberDataType::UInt8 => "UInt8",
            NumberDataType::UInt16 => "UInt16",
            NumberDataType::UInt32 => "UInt32",
            NumberDataType::UInt64 => "UInt64",
            NumberDataType::Int8 => "Int8",
            NumberDataType::Int16 => "Int16",
            NumberDataType::Int32 => "Int32",
            NumberDataType::Int64 => "Int64",
            NumberDataType::Float32 => "Float32",
            NumberDataType::Float64 => "Float64",
        };
        text.to_owned()
    }
}

impl DataType {
    fn texts_of(ts: &Vec<DataType>) -> (out: Vec<String>)
        ensures
            texts(out@) == type_texts(type_views(ts@)),
        decreases ts,
    {
        let mut out: Vec<String> = Vec::new();
        let mut i: usize = 0;
        while i < ts.len()
            invariant
                i <= ts.len(),
                out.len() == i,
                forall|j: int| 0 <= j < i ==> (#[trigger] out@[j])@ == type_text(type_view(ts@[j])),
            decreases ts.len() - i,
        {
            assert(decreases_to!(ts => ts[i as int]));
            let s = ts[i].to_text();
            out.push(s);
            i += 1;
        }
        assert(texts(out@) =~= type_texts(type_views(ts@)));
        out
    }

    /// The type as it is shown.
    pub fn to_text(&self) -> (r: String)
        ensures
            r@ == type_text(self@),
        decreases self,
    {
        let mut r = String::new();
        match self {
            DataType::Null => r.append("NULL"),
            DataType::EmptyArray => r.append("Array(Nothing)"),
            DataType::EmptyMap => r.append("Map(Nothing)"),
            DataType::Boolean => r.append("Boolean"),
            DataType::String => r.append("String"),
            DataType::Number(n) => r.append(n.to_text().as_str()),
            DataType::Decimal(d) => {
                let size = match d {
                    DecimalDataType::Decimal128(size) => *size,
                    DecimalDataType::Decimal256(size) => *size,
                };
                r.append("Decimal(");
                push_decimal(&mut r, size.precision as u64);
                r.append(", ");
                push_decimal(&mut r, size.scale as u64);
                r.append(")");
            },
            DataType::Timestamp => r.append("Timestamp"),
            DataType::Date => r.append("Date"),
            DataType::Nullable(inner) => {
                r.append(inner.to_text().as_str());
                r.append(" NULL");
                assert(self@ == TypeView::Nullable(Box::new(type_view(**inner))));
                assert(r@ =~= type_text(self@));
            },
            DataType::Array(inner) => {
                r.append("Array(");
                r.append(inner.to_text().as_str());
                r.append(")");
                assert(self@ == TypeView::Array(Box::new(type_view(**inner))));
                assert(r@ =~= type_text(self@));
            },
            DataType::Mapping(inner) => {
                r.append("Map(");
                match &**inner {
                    DataType::Tuple(ts) => {
                        let fields = Self::texts_of(ts);
                        r.append(join(&fields, ", ").as_str());
                    },
                    other => r.append(other.to_text().as_str()),
                }
                r.append(")");
                assert(self@ == TypeView::Mapping(Box::new(type_view(**inner))));
                assert(r@ =~= type_text(self@));
            },
            DataType::Bitmap => r.append("Bitmap"),
            DataType::Tuple(ts) => {
                let fields = Self::texts_of(ts);
                r.append("Tuple(");
                r.append(join(&fields, ", ").as_str());
                r.append(if ts.len() == 1 {
                    ",)"
                } else {
                    ")"
                });
                assert(self@ == TypeView::Tuple(type_views(ts@)));
                assert(r@ =~= type_text(self@));
            },
            DataType::Variant => r.append("Variant"),
            DataType::Generic(n) => {
                r.append("T");
                push_decimal(&mut r, *n as u64);
            },
        }
        assert(r@ =~= type_text(self@));
        r
    }
}

/// A number of one of the numeric types.
///
/// A float is held by its order key: the integer by which it is ordered among the floats of
/// its width, and from which it is found again.
#[derive(Clone, Copy, Debug, PartialEq, Eq, Structural)]
pub enum NumberScalar {
    UInt8(u8),
    UInt16(u16),
    UInt32(u32),
    UInt64(u64),
    Int8(i8),
    Int16(i16),
    Int32(i32),
    Int64(i64),
    Float32(i32),
    Float64(i64),
}

/// The integer `high * 2^128 + low`.
#[derive(Clone, Copy, Debug, PartialEq, Eq, Structural)]
pub struct I256 {
    pub high: i128,
    pub low: u128,
}

impl I256 {
    pub open spec fn value(self) -> int {
        self.high * 0x1_0000_0000_0000_0000_0000_0000_0000_0000int + self.low
    }
}

#[derive(Clone, Copy, Debug, PartialEq, Eq, Structural)]
pub enum DecimalScalar {
    Decimal128(i128, DecimalSize),
    Decimal256(I256, DecimalSize),
}

#[derive(Debug)]
pub enum Scalar {
    Null,
    /// A row of a nullable column that is NULL, and the value that the column stores in it.
    NullOver(Box<Scalar>),
    EmptyArray,
    EmptyMap,
    Number(NumberScalar),
    Decimal(DecimalScalar),
    Timestamp(i64),
    Date(i32),
    Boolean(bool),
    String(Vec<u8>),
    Array(Column),
    Mapping(Column),
    Bitmap(Vec<u8>),
    Tuple(Vec<Scalar>),
    Variant(Vec<u8>),
}

/// A column: its type and one scalar per row.
///
/// A nullable column keeps a value in every row, and which rows are valid. A valid row is its
/// value; a row that is not is the value under `Scalar::NullOver`, or `Scalar::Null` where the
/// value is the default of the type.
#[derive(Debug)]
pub struct Column {
    pub data_type: DataType,
    pub rows: Vec<Scalar>,
}

/// What a `Scalar` stands for.
pub enum ScalarView {
    Null,
    NullOver(Box<ScalarView>),
    EmptyArray,
    EmptyMap,
    Number(NumberScalar),
    Decimal(DecimalScalar),
    Timestamp(i64),
    Date(i32),
    Boolean(bool),
    String(Seq<u8>),
    Array(ColumnView),
    Mapping(ColumnView),
    Bitmap(Seq<u8>),
    Tuple(Seq<ScalarView>),
    Variant(Seq<u8>),
}

/// What a `Column` stands for.
pub struct ColumnView {
    pub data_type: TypeView,
    pub rows: Seq<ScalarView>,
}

impl View for Scalar {
    type V = ScalarView;

    open spec fn view(&self) -> ScalarView {
        scalar_view(*self)
    }
}

impl View for Column {
    type V = ColumnView;

    open spec fn view(&self) -> ColumnView {
        column_view(*self)
    }
}

pub open spec fn scalar_view(s: Scalar) -> ScalarView
    decreases s,
{
    match s {
        Scalar::Null => ScalarView::Null,
        Scalar::NullOver(v) => ScalarView::NullOver(Box::new(scalar_view(*v))),
        Scalar::EmptyArray => ScalarView::EmptyArray,
        Scalar::EmptyMap => ScalarView::EmptyMap,
        Scalar::Number(n) => ScalarView::Number(n),
        Scalar::Decimal(d) => ScalarView::Decimal(d),
        Scalar::Timestamp(t) => ScalarView::Timestamp(t),
        Scalar::Date(d) => ScalarView::Date(d),
        Scalar::Boolean(b) => ScalarView::Boolean(b),
        Scalar::String(v) => ScalarView::String(v@),
        Scalar::Array(c) => ScalarView::Array(column_view(c)),
        Scalar::Mapping(c) => ScalarView::Mapping(column_view(c)),
        Scalar::Bitmap(v) => ScalarView::Bitmap(v@),
        Scalar::Tuple(v) => ScalarView::Tuple(scalar_views(v@)),
        Scalar::Variant(v) => ScalarView::Variant(v@),
    }
}

pub open spec fn scalar_views(s: Seq<Scalar>) -> Seq<ScalarView>
    decreases s,
{
    Seq::new(s.len(), |i: int| if 0 <= i < s.len() { scalar_view(s[i]) } else { ScalarView::Null })
}

pub open spec fn column_view(c: Column) -> ColumnView
    decreases c,
{
    ColumnView { data_type: type_view(c.data_type), rows: scalar_views(c.rows@) }
}

/// A missing value.
pub open spec fn is_null(s: ScalarView) -> bool {
    s is Null || s is NullOver
}

/// What is seen of a scalar: nothing of what is stored under a missing value.
pub open spec fn seen(s: ScalarView) -> ScalarView
    decreases s,
{
    match s {
        ScalarView::NullOver(_) => ScalarView::Null,
        ScalarView::Array(c) => ScalarView::Array(ColumnView { data_type: c.data_type, rows: all_seen(c.rows) }),
        ScalarView::Mapping(c) => ScalarView::Mapping(ColumnView { data_type: c.data_type, rows: all_seen(c.rows) }),
        ScalarView::Tuple(fields) => ScalarView::Tuple(all_seen(fields)),
        _ => s,
    }
}

pub open spec fn all_seen(rows: Seq<ScalarView>) -> Seq<ScalarView>
    decreases rows,
{
    Seq::new(rows.len(), |i: int| if 0 <= i < rows.len() { seen(rows[i]) } else { ScalarView::Null })
}

pub proof fn lemma_scalar_views_push(s: Seq<Scalar>, x: Scalar)
    ensures
        scalar_views(s.push(x)) == scalar_views(s).push(scalar_view(x)),
{
    assert(scalar_views(s.push(x)) =~= scalar_views(s).push(scalar_view(x)));
}

pub fn clone_bytes(v: &Vec<u8>) -> (r: Vec<u8>)
    ensures
        r@ == v@,
{
    let r = v.clone();
    assert(r@ =~= v@);
    r
}

impl Scalar {
    fn copied(&self) -> (r: Scalar)
        ensures
            r@ == self@,
        decreases self,
    {
        match self {
            Scalar::Null => Scalar::Null,
            Scalar::NullOver(v) => Scalar::NullOver(Box::new(v.copied())),
            Scalar::EmptyArray => Scalar::EmptyArray,
            Scalar::EmptyMap => Scalar::EmptyMap,
            Scalar::Number(n) => Scalar::Number(*n),
            Scalar::Decimal(d) => Scalar::Decimal(*d),
            Scalar::Timestamp(t) => Scalar::Timestamp(*t),
            Scalar::Date(d) => Scalar::Date(*d),
            Scalar::Boolean(b) => Scalar::Boolean(*b),
            Scalar::String(v) => Scalar::String(clone_bytes(v)),
            Scalar::Array(c) => Scalar::Array(c.copied()),
            Scalar::Mapping(c) => Scalar::Mapping(c.copied()),
            Scalar::Bitmap(v) => Scalar::Bitmap(clone_bytes(v)),
            Scalar::Tuple(v) => Scalar::Tuple(Self::copied_all(v)),
            Scalar::Variant(v) => Scalar::Variant(clone_bytes(v)),
        }
    }

    fn copied_all(v: &Vec<Scalar>) -> (out: Vec<Scalar>)
        ensures
            scalar_views(out@) == scalar_views(v@),
        decreases v,
    {
        let mut out: Vec<Scalar> = Vec::new();
        let mut i: usize = 0;
        while i < v.len()
            invariant
                i <= v.len(),
                out.len() == i,
                forall|j: int| 0 <= j < i ==> scalar_view(#[trigger] out@[j]) == scalar_view(v@[j]),
            decreases v.len() - i,
        {
            assert(decreases_to!(v => v[i as int]));
            let s = v[i].copied();
            out.push(s);
            i += 1;
        }
        assert(scalar_views(out@) =~= scalar_views(v@));
        out
    }

    pub fn is_null(&self) -> (r: bool)
        ensures
            r == is_null(self@),
    {
        match self {
            Scalar::Null => true,
            Scalar::NullOver(_) => true,
            _ => false,
        }
    }

    /// What is seen of the scalar.
    pub fn seen(&self) -> (r: Scalar)
        ensures
            r@ == seen(self@),
        decreases self,
    {
        match self {
            Scalar::NullOver(_) => Scalar::Null,
            Scalar::Array(c) => Scalar::Array(c.seen()),
            Scalar::Mapping(c) => Scalar::Mapping(c.seen()),
            Scalar::Tuple(v) => Scalar::Tuple(Self::seen_all(v)),
            _ => self.copied(),
        }
    }

    fn seen_all(v: &Vec<Scalar>) -> (out: Vec<Scalar>)
        ensures
            scalar_views(out@) == all_seen(scalar_views(v@)),
        decreases v,
    {
        let mut out: Vec<Scalar> = Vec::new();
        let mut i: usize = 0;
        while i < v.len()
            invariant
                i <= v.len(),
                out.len() == i,
                forall|j: int| 0 <= j < i ==> scalar_view(#[trigger] out@[j]) == seen(scalar_view(v@[j])),
            decreases v.len() - i,
        {
            assert(decreases_to!(v => v[i as int]));
            let s = v[i].seen();
            out.push(s);
            i += 1;
        }
        assert(scalar_views(out@) =~= all_seen(scalar_views(v@)));
        out
    }

    fn same_all(a: &Vec<Scalar>, b: &Vec<Scalar>) -> (r: bool)
        ensures
            r == (scalar_views(a@) == scalar_views(b@)),
        decreases a,
    {
        if a.len() != b.len() {
            assert(scalar_views(a@).len() != scalar_views(b@).len());
            return false;
        }
        let mut i: usize = 0;
        while i < a.len()
            invariant
                i <= a.len(),
                a.len() == b.len(),
                forall|j: int| 0 <= j < i ==> scalar_view(#[trigger] a@[j]) == scalar_view(b@[j]),
            decreases a.len() - i,
        {
            assert(decreases_to!(a => a[i as int]));
            if !a[i].same(&b[i]) {
                assert(scalar_views(a@)[i as int] != scalar_views(b@)[i as int]);
                return false;
            }
            i += 1;
        }
        assert(scalar_views(a@) =~= scalar_views(b@));
        true
    }

    /// Whether two scalars are the same value of the same kind.
    pub fn same(&self, other: &Scalar) -> (r: bool)
        ensures
            r == (self@ == other@),
        decreases self,
    {
        match (self, other) {
            (Scalar::Null, Scalar::Null) => true,
            (Scalar::NullOver(a), Scalar::NullOver(b)) => a.same(b),
            (Scalar::EmptyArray, Scalar::EmptyArray) => true,
            (Scalar::EmptyMap, Scalar::EmptyMap) => true,
            (Scalar::Number(a), Scalar::Number(b)) => *a == *b,
            (Scalar::Decimal(a), Scalar::Decimal(b)) => *a == *b,
            (Scalar::Timestamp(a), Scalar::Timestamp(b)) => *a == *b,
            (Scalar::Date(a), Scalar::Date(b)) => *a == *b,
            (Scalar::Boolean(a), Scalar::Boolean(b)) => *a == *b,
            (Scalar::String(a), Scalar::String(b)) => same_bytes(a, b),
            (Scalar::Array(a), Scalar::Array(b)) => a.same(b),
            (Scalar::Mapping(a), Scalar::Mapping(b)) => a.same(b),
            (Scalar::Bitmap(a), Scalar::Bitmap(b)) => same_bytes(a, b),
            (Scalar::Tuple(a), Scalar::Tuple(b)) => Self::same_all(a, b),
            (Scalar::Variant(a), Scalar::Variant(b)) => same_bytes(a, b),
            _ => false,
        }
    }
}

pub fn same_bytes(a: &Vec<u8>, b: &Vec<u8>) -> (r: bool)
    ensures
        r == (a@ == b@),
{
    if a.len() != b.len() {
        return false;
    }
    let mut i: usize = 0;
    while i < a.len()
        invariant
            i <= a.len(),
            a.len() == b.len(),
            forall|j: int| 0 <= j < i ==> a@[j] == b@[j],
        decreases a.len() - i,
    {
        if a[i] != b[i] {
            return false;
        }
        i += 1;
    }
    assert(a@ =~= b@);
    true
}

impl Column {
    fn copied(&self) -> (r: Column)
        ensures
            r@ == self@,
        decreases self,
    {
        Column { data_type: self.data_type.clone(), rows: Scalar::copied_all(&self.rows) }
    }

    fn seen(&self) -> (r: Column)
        ensures
            r@ == (ColumnView { data_type: self@.data_type, rows: all_seen(self@.rows) }),
        decreases self,
    {
        Column { data_type: self.data_type.clone(), rows: Scalar::seen_all(&self.rows) }
    }

    pub fn same(&self, other: &Column) -> (r: bool)
        ensures
            r == (self@ == other@),
        decreases self,
    {
        let t = self.data_type.same(&other.data_type);
        let r = Scalar::same_all(&self.rows, &other.rows);
        t && r
    }
}

impl Clone for Scalar {
    fn clone(&self) -> (r: Scalar)
        ensures
            r@ == self@,
    {
        self.copied()
    }
}

impl Clone for Column {
    fn clone(&self) -> (r: Column)
        ensures
            r@ == self@,
    {
        self.copied()
    }
}

impl PartialEq for Scalar {
    fn eq(&self, other: &Scalar) -> (r: bool) {
        self.same(other)
    }
}

impl vstd::std_specs::cmp::PartialEqSpecImpl for Scalar {
    open spec fn obeys_eq_spec() -> bool {
        true
    }

    open spec fn eq_spec(&self, other: &Scalar) -> bool {
        self@ == other@
    }
}

impl PartialEq for Column {
    fn eq(&self, other: &Column) -> (r: bool) {
        self.same(other)
    }
}

impl vstd::std_specs::cmp::PartialEqSpecImpl for Column {
    open spec fn obeys_eq_spec() -> bool {
        true
    }

    open spec fn eq_spec(&self, other: &Column) -> bool {
        self@ == other@
    }
}

pub open spec fn number_type(n: NumberScalar) -> NumberDataType {
    match n {
        NumberScalar::UInt8(_) => NumberDataType::UInt8,
        NumberScalar::UInt16(_) => NumberDataType::UInt16,
        NumberScalar::UInt32(_) => NumberDataType::UInt32,
        NumberScalar::UInt64(_) => NumberDataType::UInt64,
        NumberScalar::Int8(_) => NumberDataType::Int8,
        NumberScalar::Int16(_) => NumberDataType::Int16,
        NumberScalar::Int32(_) => NumberDataType::Int32,
        NumberScalar::Int64(_) => NumberDataType::Int64,
        NumberScalar::Float32(_) => NumberDataType::Float32,
        NumberScalar::Float64(_) => NumberDataType::Float64,
    }
}

impl NumberScalar {
    pub fn data_type(&self) -> (r: NumberDataType)
        ensures
            r == number_type(*self),
    {
        match self {
            NumberScalar::UInt8(_) => NumberDataType::UInt8,
            NumberScalar::UInt16(_) => NumberDataType::UInt16,
            NumberScalar::UInt32(_) => NumberDataType::UInt32,
            NumberScalar::UInt64(_) => NumberDataType::UInt64,
            NumberScalar::Int8(_) => NumberDataType::Int8,
            NumberScalar::Int16(_) => NumberDataType::Int16,
            NumberScalar::Int32(_) => NumberDataType::Int32,
            NumberScalar::Int64(_) => NumberDataType::Int64,
            NumberScalar::Float32(_) => NumberDataType::Float32,
            NumberScalar::Float64(_) => NumberDataType::Float64,
        }
    }
}

pub open spec fn decimal_type(d: DecimalScalar) -> DecimalDataType {
    match d {
        DecimalScalar::Decimal128(_, size) => DecimalDataType::Decimal128(size),
        DecimalScalar::Decimal256(_, size) => DecimalDataType::Decimal256(size),
    }
}

impl DecimalScalar {
    pub fn data_type(&self) -> (r: DecimalDataType)
        ensures
            r == decimal_type(*self),
    {
        match self {
            DecimalScalar::Decimal128(_, size) => DecimalDataType::Decimal128(*size),
            DecimalScalar::Decimal256(_, size) => DecimalDataType::Decimal256(*size),
        }
    }
}

/// The type that a scalar shows by itself.
pub open spec fn infer_type(s: ScalarView) -> TypeView
    decreases s,
{
    match s {
        ScalarView::Null => TypeView::Null,
        ScalarView::NullOver(_) => TypeView::Null,
        ScalarView::EmptyArray => TypeView::EmptyArray,
        ScalarView::EmptyMap => TypeView::EmptyMap,
        ScalarView::Number(n) => TypeView::Number(number_type(n)),
        ScalarView::Decimal(d) => TypeView::Decimal(decimal_type(d)),
        ScalarView::Timestamp(_) => TypeView::Timestamp,
        ScalarView::Date(_) => TypeView::Date,
        ScalarView::Boolean(_) => TypeView::Boolean,
        ScalarView::String(_) => TypeView::String,
        ScalarView::Array(c) => TypeView::Array(Box::new(c.data_type)),
        ScalarView::Mapping(c) => TypeView::Mapping(Box::new(c.data_type)),
        ScalarView::Bitmap(_) => TypeView::Bitmap,
        ScalarView::Tuple(fields) => TypeView::Tuple(infer_types(fields)),
        ScalarView::Variant(_) => TypeView::Variant,
    }
}

pub open spec fn infer_types(s: Seq<ScalarView>) -> Seq<TypeView>
    decreases s,
{
    Seq::new(s.len(), |i: int| if 0 <= i < s.len() { infer_type(s[i]) } else { TypeView::Null })
}

/// Whether a scalar may stand where a value of type `t` is expected: a missing value where the
/// type is nullable, a tuple field by field, any other value where it shows the type itself or
/// its nullable form. A row that is NULL over a value stands in a nullable column of the value's
/// type.
pub open spec fn has_type(t: TypeView, s: ScalarView) -> bool
    decreases s, 1nat,
{
    match s {
        ScalarView::Null => is_nullable_or_null(t),
        ScalarView::NullOver(v) => match t {
            TypeView::Nullable(inner) => has_type(*inner, *v),
            _ => false,
        },
        ScalarView::Tuple(fields) => match remove_nullable(t) {
            TypeView::Tuple(types) => fields_have_types(types, fields),
            _ => false,
        },
        _ => infer_type(s) == remove_nullable(t),
    }
}

/// Fields are checked against the types that stand at the same place, as far as both go.
pub open spec fn fields_have_types(types: Seq<TypeView>, fields: Seq<ScalarView>) -> bool
    decreases fields, 0nat,
{
    forall|i: int| 0 <= i < fields.len() && i < types.len() ==> has_type(#[trigger] types[i], fields[i])
}

impl Scalar {
    fn infer_all(v: &Vec<Scalar>) -> (out: Vec<DataType>)
        ensures
            type_views(out@) == infer_types(scalar_views(v@)),
        decreases v,
    {
        let mut out: Vec<DataType> = Vec::new();
        let mut i: usize = 0;
        while i < v.len()
            invariant
                i <= v.len(),
                out.len() == i,
                forall|j: int| 0 <= j < i ==> type_view(#[trigger] out@[j]) == infer_type(scalar_view(v@[j])),
            decreases v.len() - i,
        {
            assert(decreases_to!(v => v[i as int]));
            let t = v[i].infer_data_type();
            out.push(t);
            i += 1;
        }
        assert(type_views(out@) =~= infer_types(scalar_views(v@)));
        out
    }

    pub fn infer_data_type(&self) -> (r: DataType)
        ensures
            r@ == infer_type(self@),
        decreases self,
    {
        match self {
            Scalar::Null => DataType::Null,
            Scalar::NullOver(_) => DataType::Null,
            Scalar::EmptyArray => DataType::EmptyArray,
            Scalar::EmptyMap => DataType::EmptyMap,
            Scalar::Number(n) => DataType::Number(n.data_type()),
            Scalar::Decimal(d) => DataType::Decimal(d.data_type()),
            Scalar::Timestamp(_) => DataType::Timestamp,
            Scalar::Date(_) => DataType::Date,
            Scalar::Boolean(_) => DataType::Boolean,
            Scalar::String(_) => DataType::String,
            Scalar::Array(c) => {
                let r = DataType::Array(Box::new(c.data_type.clone()));
                assert(self@ == ScalarView::Array(column_view(*c)));
                assert(r@ == infer_type(self@));
                r
            },
            Scalar::Mapping(c) => {
                let r = DataType::Mapping(Box::new(c.data_type.clone()));
                assert(self@ == ScalarView::Mapping(column_view(*c)));
                assert(r@ == infer_type(self@));
                r
            },
            Scalar::Bitmap(_) => DataType::Bitmap,
            Scalar::Tuple(fields) => {
                let r = DataType::Tuple(Self::infer_all(fields));
                assert(self@ == ScalarView::Tuple(scalar_views(fields@)));
                assert(r@ == infer_type(self@));
                r
            },
            Scalar::Variant(_) => DataType::Variant,
        }
    }

    /// Whether the scalar may stand where a value of the type is expected.
    pub fn check_type(&self, data_type: &DataType) -> (r: bool)
        ensures
            r == has_type(data_type@, self@),
        decreases self,
    {
        match self {
            Scalar::Null => data_type.is_nullable_or_null(),
            Scalar::NullOver(v) => match data_type {
                DataType::Nullable(inner) => v.check_type(inner),
                _ => false,
            },
            Scalar::Tuple(fields) => {
                let stripped = data_type.remove_nullable();
                match &stripped {
                    DataType::Tuple(types) => Self::check_fields(types, fields),
                    _ => false,
                }
            }
            _ => self.infer_data_type().same(&data_type.remove_nullable()),
        }
    }

    fn check_fields(types: &Vec<DataType>, fields: &Vec<Scalar>) -> (r: bool)
        ensures
            r == fields_have_types(type_views(types@), scalar_views(fields@)),
        decreases fields,
    {
        let ghost tv = type_views(types@);
        let ghost fv = scalar_views(fields@);
        let mut i: usize = 0;
        while i < types.len() && i < fields.len()
            invariant
                i <= types.len(),
                i <= fields.len(),
                tv == type_views(types@),
                fv == scalar_views(fields@),
                forall|j: int| 0 <= j < i ==> has_type(#[trigger] tv[j], fv[j]),
            decreases types.len() - i,
        {
            assert(decreases_to!(fields => fields[i as int]));
            let ok = fields[i].check_type(&types[i]);
            assert(tv[i as int] == type_view(types@[i as int]));
            assert(fv[i as int] == scalar_view(fields@[i as int]));
            if !ok {
                return false;
            }
            i += 1;
        }
        true
    }
}

/// Every row of a column is of the column's type.
pub open spec fn column_ok(c: ColumnView) -> bool {
    forall|i: int| 0 <= i < c.rows.len() ==> has_type(c.data_type, #[trigger] c.rows[i])
}

/// Of a missing value nothing is seen, whatever is stored under it; a plain value is seen as it is,
/// and nested values are seen one by one.
pub proof fn missing_values_look_alike(s: ScalarView)
    ensures
        s is Null || s is NullOver ==> seen(s) == ScalarView::Null,
        !(s is Null || s is NullOver || s is Array || s is Mapping || s is Tuple) ==> seen(s) == s,
        s matches ScalarView::Tuple(fields) ==> (seen(s) matches ScalarView::Tuple(shown) && shown.len() == fields.len()
            && forall|i: int| 0 <= i < fields.len() ==> #[trigger] shown[i] == seen(fields[i])),
        s matches ScalarView::Array(c) ==> (seen(s) matches ScalarView::Array(shown) && shown.data_type == c.data_type
            && shown.rows.len() == c.rows.len() && forall|i: int|
            0 <= i < c.rows.len() ==> #[trigger] shown.rows[i] == seen(c.rows[i])),
        s matches ScalarView::Mapping(c) ==> (seen(s) matches ScalarView::Mapping(shown) && shown.data_type
            == c.data_type && shown.rows.len() == c.rows.len() && forall|i: int|
            0 <= i < c.rows.len() ==> #[trigger] shown.rows[i] == seen(c.rows[i])),
{
    reveal_with_fuel(seen, 2);
}

/// The type that a value shows is the one that it is made for.
pub proof fn a_value_shows_what_it_is(s: ScalarView)
    ensures
        match s {
            ScalarView::Null => infer_type(s) == TypeView::Null,
            ScalarView::NullOver(_) => infer_type(s) == TypeView::Null,
            ScalarView::EmptyArray => infer_type(s) == TypeView::EmptyArray,
            ScalarView::EmptyMap => infer_type(s) == TypeView::EmptyMap,
            ScalarView::Number(n) => infer_type(s) == TypeView::Number(
                match n {
                    NumberScalar::UInt8(_) => NumberDataType::UInt8,
                    NumberScalar::UInt16(_) => NumberDataType::UInt16,
                    NumberScalar::UInt32(_) => NumberDataType::UInt32,
                    NumberScalar::UInt64(_) => NumberDataType::UInt64,
                    NumberScalar::Int8(_) => NumberDataType::Int8,
                    NumberScalar::Int16(_) => NumberDataType::Int16,
                    NumberScalar::Int32(_) => NumberDataType::Int32,
                    NumberScalar::Int64(_) => NumberDataType::Int64,
                    NumberScalar::Float32(_) => NumberDataType::Float32,
                    NumberScalar::Float64(_) => NumberDataType::Float64,
                },
            ),
            ScalarView::Decimal(d) => infer_type(s) == TypeView::Decimal(
                match d {
                    DecimalScalar::Decimal128(_, size) => DecimalDataType::Decimal128(size),
                    DecimalScalar::Decimal256(_, size) => DecimalDataType::Decimal256(size),
                },
            ),
            ScalarView::Timestamp(_) => infer_type(s) == TypeView::Timestamp,
            ScalarView::Date(_) => infer_type(s) == TypeView::Date,
            ScalarView::Boolean(_) => infer_type(s) == TypeView::Boolean,
            ScalarView::String(_) => infer_type(s) == TypeView::String,
            ScalarView::Array(c) => infer_type(s) == TypeView::Array(Box::new(c.data_type)),
            ScalarView::Mapping(c) => infer_type(s) == TypeView::Mapping(Box::new(c.data_type)),
            ScalarView::Bitmap(_) => infer_type(s) == TypeView::Bitmap,
            ScalarView::Tuple(fields) => infer_type(s) matches TypeView::Tuple(ts) && ts.len() == fields.len() && forall|
                i: int,
            |
                0 <= i < fields.len() ==> #[trigger] ts[i] == infer_type(fields[i]),
            ScalarView::Variant(_) => infer_type(s) == TypeView::Variant,
        },
{
    reveal_with_fuel(infer_type, 2);
}

/// A value stands where its own type is expected or the nullable form of it, a missing value where
/// the type is nullable or that of missing values, and a tuple where each of its fields does.
pub proof fn where_a_value_may_stand(t: TypeView, s: ScalarView)
    ensures
        match s {
            ScalarView::Null => has_type(t, s) <==> t is Nullable || t == TypeView::Null,
            ScalarView::NullOver(v) => has_type(t, s) <==> (t matches TypeView::Nullable(inner) && has_type(*inner, *v)),
            ScalarView::Tuple(fields) => {
                &&& t matches TypeView::Tuple(ts) ==> (has_type(t, s) <==> forall|i: int|
                    0 <= i < fields.len() && i < ts.len() ==> has_type(#[trigger] ts[i], fields[i]))
                &&& t matches TypeView::Nullable(inner) ==> (has_type(t, s) <==> *inner is Tuple && has_type(*inner, s))
                &&& !(t is Tuple) && !(t is Nullable) ==> !has_type(t, s)
            },
            _ => has_type(t, s) <==> t == infer_type(s) || t == TypeView::Nullable(Box::new(infer_type(s))),
        },
{
    reveal_with_fuel(has_type, 2);
    match s {
        ScalarView::Null => {},
        ScalarView::NullOver(_) => {},
        ScalarView::Tuple(fields) => {
            if let TypeView::Tuple(ts) = t {
                assert(has_type(t, s) == fields_have_types(ts, fields));
            }
            if let TypeView::Nullable(inner) = t {
                if let TypeView::Tuple(ts) = *inner {
                    assert(has_type(t, s) == fields_have_types(ts, fields));
                    assert(has_type(*inner, s) == fields_have_types(ts, fields));
                }
            }
        },
        _ => {
            assert(!(infer_type(s) is Nullable));
            assert(has_type(t, s) == (infer_type(s) == remove_nullable(t)));
        },
    }
}

/// A type is shown by its name, with the types that it is made of in brackets.
pub proof fn types_are_shown_by_their_names(t: TypeView)
    ensures
        match t {
            TypeView::Null => type_text(t) == "NULL"@,
            TypeView::EmptyArray => type_text(t) == "Array(Nothing)"@,
            TypeView::EmptyMap => type_text(t) == "Map(Nothing)"@,
            TypeView::Boolean => type_text(t) == "Boolean"@,
            TypeView::String => type_text(t) == "String"@,
            TypeView::Number(NumberDataType::UInt8) => type_text(t) == "UInt8"@,
            TypeView::Number(NumberDataType::UInt16) => type_text(t) == "UInt16"@,
            TypeView::Number(NumberDataType::UInt32) => type_text(t) == "UInt32"@,
            TypeView::Number(NumberDataType::UInt64) => type_text(t) == "UInt64"@,
            TypeView::Number(NumberDataType::Int8) => type_text(t) == "Int8"@,
            TypeView::Number(NumberDataType::Int16) => type_text(t) == "Int16"@,
            TypeView::Number(NumberDataType::Int32) => type_text(t) == "Int32"@,
            TypeView::Number(NumberDataType::Int64) => type_text(t) == "Int64"@,
            TypeView::Number(NumberDataType::Float32) => type_text(t) == "Float32"@,
            TypeView::Number(NumberDataType::Float64) => type_text(t) == "Float64"@,
            TypeView::Decimal(DecimalDataType::Decimal128(size)) => type_text(t) == "Decimal("@ + decimal(
                size.precision as nat,
            ) + ", "@ + decimal(size.scale as nat) + ")"@,
            TypeView::Decimal(DecimalDataType::Decimal256(size)) => type_text(t) == "Decimal("@ + decimal(
                size.precision as nat,
            ) + ", "@ + decimal(size.scale as nat) + ")"@,
            TypeView::Timestamp => type_text(t) == "Timestamp"@,
            TypeView::Date => type_text(t) == "Date"@,
            TypeView::Nullable(inner) => type_text(t) == type_text(*inner) + " NULL"@,
            TypeView::Array(inner) => type_text(t) == "Array("@ + type_text(*inner) + ")"@,
            TypeView::Mapping(_) => type_text(t).take(4) == "Map("@,
            TypeView::Bitmap => type_text(t) == "Bitmap"@,
            TypeView::Tuple(_) => type_text(t).take(6) == "Tuple("@,
            TypeView::Variant => type_text(t) == "Variant"@,
            TypeView::Generic(n) => type_text(t) == "T"@ + decimal(n as nat),
        },
{
    reveal_strlit("Map(");
    reveal_strlit("Tuple(");
    assert("Map("@.len() == 4);
    assert("Tuple("@.len() == 6);
    match t {
        TypeView::Mapping(_) => assert(type_text(t).take(4) =~= "Map("@),
        TypeView::Tuple(_) => assert(type_text(t).take(6) =~= "Tuple("@),
        _ => {},
    }
}

/// The fields of a tuple are shown one after the other, with a comma behind the only field of one;
/// a map shows the types of its keys and of its values.
pub proof fn tuples_show_their_fields(ts: Seq<TypeView>)
    ensures
        ({
            let tuple = TypeView::Tuple(ts);
            let fields = ts.map_values(|t: TypeView| type_text(t));
            &&& type_text(tuple) == "Tuple("@ + separated(fields, ", "@) + (if ts.len() == 1 {
                ",)"@
            } else {
                ")"@
            })
            &&& type_text(TypeView::Mapping(Box::new(tuple))) == "Map("@ + separated(fields, ", "@) + ")"@
        }),
{
    let fields = ts.map_values(|t: TypeView| type_text(t));
    assert(type_texts(ts) =~= fields);
    reveal_with_fuel(type_text, 2);
    assert(type_text(TypeView::Mapping(Box::new(TypeView::Tuple(ts)))) == "Map("@ + separated(type_texts(ts), ", "@)
        + ")"@);
}

}
