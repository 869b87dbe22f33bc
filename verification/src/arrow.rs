//! Fields and arrays.

use vstd::prelude::*;
use vstd::std_specs::cmp::PartialEqSpec;

use crate::text::join;
use crate::text::separated;
use crate::text::texts;
use crate::types::same_bytes;
use crate::vec_map::VecMap;

verus! {

pub const ARROW_EXT_TYPE_EMPTY_ARRAY: &'static str = "EmptyArray";

pub const ARROW_EXT_TYPE_EMPTY_MAP: &'static str = "EmptyMap";

pub const ARROW_EXT_TYPE_VARIANT: &'static str = "Variant";

pub const ARROW_EXT_TYPE_BITMAP: &'static str = "Bitmap";

pub const ARROW_EXT_TYPE_GEOMETRY: &'static str = "Geometry";

pub const ARROW_EXT_TYPE_GEOGRAPHY: &'static str = "Geography";

/// Custom metadata, by its keys.
pub type Metadata = VecMap<String, String>;

/// A column: a logical type with a name and nullability.
/// A Field has optional [`Metadata`] that can be used to annotate the field with custom metadata.
#[derive(Debug)]
pub struct Field<T> {
    /// Its name
    pub name: String,
    /// Its logical type
    pub data_type: T,
    /// Its nullability
    pub is_nullable: bool,
    /// Additional custom (opaque) metadata.
    pub metadata: Metadata,
}

impl<T> Field<T> {
    /// Creates a new [`Field`].
    pub fn new(name: String, data_type: T, is_nullable: bool) -> (r: Self)
        ensures
            r.name == name,
            r.data_type == data_type,
            r.is_nullable == is_nullable,
            r.metadata.wf(),
            r.metadata@ == Map::<Seq<char>, String>::empty(),
    {
        Field { name, data_type, is_nullable, metadata: VecMap::new() }
    }

    /// Creates a new [`Field`] with metadata.
    pub fn with_metadata(self, metadata: Metadata) -> (r: Self)
        requires
            metadata.wf(),
        ensures
            r == (Field { metadata, ..self }),
            r.metadata.wf(),
    {
        Field { name: self.name, data_type: self.data_type, is_nullable: self.is_nullable, metadata }
    }

    /// Returns the type of the [`Field`].
    pub fn data_type(&self) -> (r: &T)
        ensures
            *r == self.data_type,
    {
        &self.data_type
    }
}

/// An array of values of one size, some of which may be missing; its type is given by its number.
#[derive(Debug)]
pub struct FixedSizeBinaryArray {
    pub data_type: u64,
    pub values: Vec<Option<Vec<u8>>>,
}

pub open spec fn bytes_option(v: Option<Vec<u8>>) -> Option<Seq<u8>> {
    match v {
        Some(b) => Some(b@),
        None => None,
    }
}

impl FixedSizeBinaryArray {
    pub open spec fn items(&self) -> Seq<Option<Seq<u8>>> {
        self.values@.map_values(|v: Option<Vec<u8>>| bytes_option(v))
    }

    /// Whether two arrays are of one type and hold the same.
    pub fn equal(&self, other: &FixedSizeBinaryArray) -> (r: bool)
        ensures
            r == (self.data_type == other.data_type && self.items() == other.items()),
    {
        if self.data_type != other.data_type {
            return false;
        }
        if self.values.len() != other.values.len() {
            assert(self.items().len() != other.items().len());
            return false;
        }
        let mut i: usize = 0;
        while i < self.values.len()
            invariant
                i <= self.values@.len(),
                self.values@.len() == other.values@.len(),
                forall|j: int| 0 <= j < i ==> #[trigger] self.items()[j] == other.items()[j],
            decreases self.values.len() - i,
        {
            let same = match (&self.values[i], &other.values[i]) {
                (Some(a), Some(b)) => same_bytes(a, b),
                (None, None) => true,
                _ => false,
            };
            if !same {
                assert(self.items()[i as int] != other.items()[i as int]);
                return false;
            }
            i += 1;
        }
        assert(self.items() =~= other.items());
        true
    }
}

/// An array of plain values, some of which may be missing; its type is given by its number.
#[derive(Debug)]
pub struct PrimitiveArray<T> {
    pub data_type: u64,
    pub values: Vec<Option<T>>,
}

/// Two values are equal, or both are missing.
pub open spec fn same_option<T: PartialEqSpec>(a: Option<T>, b: Option<T>) -> bool {
    match (a, b) {
        (Some(x), Some(y)) => x.eq_spec(&y),
        (None, None) => true,
        _ => false,
    }
}

impl<T: PartialEq> PrimitiveArray<T> {
    /// Whether two arrays are of one type and hold equal values.
    pub fn equal(&self, other: &PrimitiveArray<T>) -> (r: bool)
        requires
            T::obeys_eq_spec(),
        ensures
            r == (self.data_type == other.data_type && self.values@.len() == other.values@.len() && forall|i: int|
                0 <= i < self.values@.len() ==> same_option(#[trigger] self.values@[i], other.values@[i])),
    {
        if self.data_type != other.data_type || self.values.len() != other.values.len() {
            return false;
        }
        let mut i: usize = 0;
        while i < self.values.len()
            invariant
                T::obeys_eq_spec(),
                i <= self.values@.len(),
                self.values@.len() == other.values@.len(),
                forall|j: int| 0 <= j < i ==> same_option(#[trigger] self.values@[j], other.values@[j]),
            decreases self.values.len() - i,
        {
            let same = match (&self.values[i], &other.values[i]) {
                (Some(a), Some(b)) => *a == *b,
                (None, None) => true,
                _ => false,
            };
            if !same {
                assert(!same_option(self.values@[i as int], other.values@[i as int]));
                return false;
            }
            i += 1;
        }
        true
    }
}

/// An array of lists of one length; the values are given as they are displayed.
#[derive(Debug)]
pub struct FixedSizeListArray {
    pub size: usize,
    pub values: Vec<Option<String>>,
    /// Which of the lists are not missing; none is where there is no such list.
    pub validity: Option<Vec<bool>>,
}

/// Something between brackets, with commas.
pub open spec fn bracketed(items: Seq<Seq<char>>) -> Seq<char> {
    "["@ + separated(items, ", "@) + "]"@
}

pub open spec fn shown_value(v: Option<String>, null: Seq<char>) -> Seq<char> {
    match v {
        Some(s) => s@,
        None => null,
    }
}

/// The values of a list as they are displayed.
pub open spec fn list_items(array: FixedSizeListArray, index: int, null: Seq<char>) -> Seq<Seq<char>> {
    Seq::new(array.size as nat, |i: int| shown_value(array.values@[index * array.size + i], null))
}

pub open spec fn list_text(array: FixedSizeListArray, index: int, null: Seq<char>) -> Seq<char> {
    bracketed(list_items(array, index, null))
}

fn write_vec(items: &Vec<String>, f: &mut String)
    ensures
        final(f)@ == old(f)@ + bracketed(texts(items@)),
{
    let ghost before = f@;
    let text = join(items, ", ");
    f.append("[");
    f.append(text.as_str());
    f.append("]");
    assert(f@ =~= before + bracketed(texts(items@)));
}

/// Writes one of the lists of an array.
pub fn write_value(array: &FixedSizeListArray, index: usize, null: &str, f: &mut String)
    requires
        (index + 1) * array.size <= array.values@.len(),
    ensures
        final(f)@ == old(f)@ + list_text(*array, index as int, null@),
{
    let mut items: Vec<String> = Vec::new();
    let ghost all = list_items(*array, index as int, null@);
    assert((index + 1) * array.size == index * array.size + array.size) by (nonlinear_arith);
    assert(array.values.len() == array.values@.len());
    assert(index * array.size >= 0) by (nonlinear_arith);
    let start: usize = index * array.size;
    let mut i: usize = 0;
    assert(texts(items@) =~= all.take(0));
    while i < array.size
        invariant
            i <= array.size,
            start == index * array.size,
            start + array.size <= array.values@.len(),
            array.values@.len() <= usize::MAX,
            all == list_items(*array, index as int, null@),
            texts(items@) == all.take(i as int),
        decreases array.size - i,
    {
        let ghost before = texts(items@);
        let shown = match &array.values[start + i] {
            Some(s) => s.clone(),
            None => null.to_owned(),
        };
        items.push(shown);
        proof {
            assert(texts(items@) =~= before.push(shown@));
            assert(all[i as int] == shown@);
            assert(all.take(i + 1) =~= all.take(i as int).push(all[i as int]));
        }
        i += 1;
    }
    assert(all.take(i as int) =~= all);
    write_vec(&items, f);
}

/// A list of an array, or that it is missing.
pub open spec fn shown_list(array: FixedSizeListArray, index: int) -> Seq<char> {
    match array.validity {
        Some(valid) => if valid@[index] {
            list_text(array, index, "None"@)
        } else {
            "None"@
        },
        None => list_text(array, index, "None"@),
    }
}

impl FixedSizeListArray {
    /// Shows all lists.
    pub fn to_text(&self, len: usize) -> (r: String)
        requires
            len * self.size <= self.values@.len(),
            self.validity matches Some(valid) ==> valid@.len() == len,
        ensures
            r@ == "FixedSizeListArray"@ + bracketed(Seq::new(len as nat, |i: int| shown_list(*self, i))),
    {
        let ghost all = Seq::new(len as nat, |i: int| shown_list(*self, i));
        let mut items: Vec<String> = Vec::new();
        let mut i: usize = 0;
        assert(texts(items@) =~= all.take(0));
        while i < len
            invariant
                i <= len,
                len * self.size <= self.values@.len(),
                self.validity matches Some(valid) ==> valid@.len() == len,
                all == Seq::new(len as nat, |i: int| shown_list(*self, i)),
                texts(items@) == all.take(i as int),
            decreases len - i,
        {
            let ghost before = texts(items@);
            let valid = match &self.validity {
                Some(v) => v[i],
                None => true,
            };
            let mut item = String::new();
            if valid {
                assert((i + 1) * self.size <= len * self.size) by (nonlinear_arith)
                    requires
                        i + 1 <= len,
                ;
                write_value(self, i, "None", &mut item);
                assert(item@ =~= list_text(*self, i as int, "None"@));
            } else {
                item.append("None");
                assert(item@ =~= "None"@);
            }
            items.push(item);
            proof {
                assert(texts(items@) =~= before.push(item@));
                assert(all[i as int] == item@);
                assert(all.take(i + 1) =~= all.take(i as int).push(all[i as int]));
            }
            i += 1;
        }
        assert(all.take(i as int) =~= all);
        let mut r = String::new();
        r.append("FixedSizeListArray");
        assert(r@ =~= "FixedSizeListArray"@);
        write_vec(&items, &mut r);
        r
    }
}

/// A file that is read in pieces.
#[derive(Debug)]
pub struct OrcFileReader {
    pub path: String,
    pub size: u64,
}

impl OrcFileReader {
    pub fn len(&self) -> (r: u64)
        ensures
            r == self.size,
    {
        self.size
    }

    /// Where a piece starts, and where it ends.
    pub fn get_bytes(&self, offset_from_start: u64, length: u64) -> (r: (u64, u64))
        requires
            offset_from_start + length <= u64::MAX,
        ensures
            r.0 == offset_from_start,
            r.1 == offset_from_start + length,
    {
        (offset_from_start, offset_from_start + length)
    }
}

/// The items of a list of a fixed size stand one list after the other.
pub proof fn lists_stand_one_after_the_other(array: FixedSizeListArray, index: int, i: int, null: Seq<char>)
    requires
        0 <= index,
        0 <= i < array.size,
        (index + 1) * array.size <= array.values@.len(),
    ensures
        list_items(array, index, null).len() == array.size,
        match array.values@[index * array.size + i] {
            Some(s) => list_items(array, index, null)[i] == s@,
            None => list_items(array, index, null)[i] == null,
        },
        list_text(array, index, null) == "["@ + separated(list_items(array, index, null), ", "@) + "]"@,
        shown_list(array, index) == if array.validity matches Some(valid) && !valid@[index] {
            "None"@
        } else {
            list_text(array, index, "None"@)
        },
{
}

}
