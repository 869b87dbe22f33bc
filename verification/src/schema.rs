//! Schemas.

use vstd::prelude::*;

use crate::types::DataType;
use crate::types::TypeView;

verus! {

#[derive(Debug)]
pub struct DataField {
    pub name: String,
    pub data_type: DataType,
}

pub struct FieldView {
    pub name: Seq<char>,
    pub data_type: TypeView,
}

impl View for DataField {
    type V = FieldView;

    open spec fn view(&self) -> FieldView {
        FieldView { name: self.name@, data_type: self.data_type@ }
    }
}

impl Clone for DataField {
    fn clone(&self) -> (r: DataField)
        ensures
            r@ == self@,
    {
        DataField { name: self.name.clone(), data_type: self.data_type.clone() }
    }
}

/// The named and typed columns of a block.
#[derive(Debug)]
pub struct DataSchema {
    pub fields: Vec<DataField>,
}

impl View for DataSchema {
    type V = Seq<FieldView>;

    open spec fn view(&self) -> Seq<FieldView> {
        self.fields@.map_values(|f: DataField| f@)
    }
}

impl Clone for DataSchema {
    fn clone(&self) -> (r: DataSchema)
        ensures
            r@ == self@,
    {
        let mut fields: Vec<DataField> = Vec::new();
        let mut i: usize = 0;
        while i < self.fields.len()
            invariant
                i <= self.fields@.len(),
                fields@.len() == i,
                forall|j: int| 0 <= j < i ==> (#[trigger] fields@[j])@ == self.fields@[j]@,
            decreases self.fields.len() - i,
        {
            fields.push(self.fields[i].clone());
            i += 1;
        }
        let r = DataSchema { fields };
        assert(r@ =~= self@);
        r
    }
}

/// Where the field of the given name stands first.
pub open spec fn field_position(fields: Seq<FieldView>, name: Seq<char>) -> Option<int>
    decreases fields.len(),
{
    if fields.len() == 0 {
        None
    } else if fields[0].name == name {
        Some(0)
    } else {
        match field_position(fields.skip(1), name) {
            Some(i) => Some(i + 1),
            None => None,
        }
    }
}

impl DataSchema {
    /// Whether two schemas have the same fields.
    pub fn same(&self, other: &DataSchema) -> (r: bool)
        ensures
            r == (self@ == other@),
    {
        let ghost a = self@;
        let ghost b = other@;
        if self.fields.len() != other.fields.len() {
            assert(a.len() != b.len());
            return false;
        }
        let mut i: usize = 0;
        while i < self.fields.len()
            invariant
                i <= self.fields.len(),
                self.fields.len() == other.fields.len(),
                a == self@,
                b == other@,
                forall|j: int| 0 <= j < i ==> #[trigger] a[j] == b[j],
            decreases self.fields.len() - i,
        {
            assert(a[i as int] == self.fields@[i as int]@);
            assert(b[i as int] == other.fields@[i as int]@);
            if !(self.fields[i].name == other.fields[i].name) || !self.fields[i].data_type.same(
                &other.fields[i].data_type,
            ) {
                assert(a[i as int] != b[i as int]);
                return false;
            }
            i += 1;
        }
        assert(a =~= b);
        true
    }

    /// Where the field of the given name stands first.
    pub fn index_of(&self, name: &String) -> (r: Option<usize>)
        ensures
            r matches Some(i) ==> field_position(self@, name@) == Some(i as int) && i < self@.len(),
            r is None ==> field_position(self@, name@) is None,
    {
        let ghost fields = self@;
        let mut i: usize = 0;
        assert(fields.skip(0) =~= fields);
        while i < self.fields.len()
            invariant
                i <= self.fields.len(),
                fields == self@,
                fields.len() == self.fields.len(),
                field_position(fields, name@) == (match field_position(fields.skip(i as int), name@) {
                    Some(k) => Some(k + i),
                    None => None::<int>,
                }),
            decreases self.fields.len() - i,
        {
            assert(fields.skip(i as int)[0] == self.fields@[i as int]@);
            if self.fields[i].name == *name {
                return Some(i);
            }
            assert(fields.skip(i as int).skip(1) =~= fields.skip(i + 1));
            i += 1;
        }
        None
    }
}

/// A column of a table.
#[derive(Debug)]
pub struct TableField {
    pub name: String,
    pub data_type: DataType,
    pub column_id: u32,
}

#[derive(Debug)]
pub struct TableSchema {
    pub fields: Vec<TableField>,
}

impl TableSchema {
    pub open spec fn column_ids(&self) -> Seq<u32> {
        self.fields@.map_values(|f: TableField| f.column_id)
    }
}

/// A field is found at the first place where its name stands, and only there.
pub proof fn fields_are_found_by_name(fields: Seq<FieldView>, name: Seq<char>)
    ensures
        match field_position(fields, name) {
            Some(i) => 0 <= i < fields.len() && fields[i].name == name && forall|j: int|
                0 <= j < i ==> (#[trigger] fields[j]).name != name,
            None => forall|j: int| 0 <= j < fields.len() ==> (#[trigger] fields[j]).name != name,
        },
    decreases fields.len(),
{
    if fields.len() > 0 && fields[0].name != name {
        let rest = fields.skip(1);
        fields_are_found_by_name(rest, name);
        let end = match field_position(rest, name) {
            Some(i) => {
                assert(fields[i + 1] == rest[i]);
                i + 1
            },
            None => fields.len() as int,
        };
        assert forall|j: int| 0 <= j < end implies (#[trigger] fields[j]).name != name by {
            if j > 0 {
                assert(fields[j] == rest[j - 1]);
            }
        }
    }
}

}
