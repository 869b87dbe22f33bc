//! Sample tables, and what is found in the directory of one.

use vstd::prelude::*;
use vstd::utf8::encode_utf8;

use crate::block::BlockView;
use crate::block::DataBlock;
use crate::block::EntryView;
use crate::block::ValueView;
use crate::block::block_views;
use crate::schema::DataField;
use crate::schema::DataSchema;
use crate::schema::FieldView;
use crate::text::concat;
use crate::text::decimal;
use crate::text::push_decimal;
use crate::text::push_signed_decimal;
use crate::text::signed_decimal;
use crate::text::texts;
use crate::types::scalar_view;
use crate::types::scalar_views;
use crate::types::type_views;
use crate::types::Column;
use crate::types::ColumnView;
use crate::types::DataType;
use crate::types::NumberDataType;
use crate::types::NumberScalar;
use crate::types::Scalar;
use crate::types::ScalarView;
use crate::types::TypeView;
use crate::uuids::is_random;
use crate::uuids::new_v4;
use crate::uuids::simple;
use crate::uuids::simple_text;

verus! {

/// What ends with the thread of a test.
#[derive(Debug)]
pub struct TestGuard {
    pub thread_name: String,
}

impl TestGuard {
    pub fn new(thread_name: String) -> (r: Self)
        ensures
            r.thread_name == thread_name,
    {
        TestGuard { thread_name }
    }
}

/// A tenant with a database and a table of names that no other has.
#[derive(Debug)]
pub struct TestFixture {
    pub tenant: String,
    pub prefix: String,
}

/// How a computed column is computed.
#[derive(Debug)]
pub enum ComputedExpr {
    Virtual(String),
    Stored(String),
}

pub enum ComputedView {
    Virtual(Seq<char>),
    Stored(Seq<char>),
}

#[derive(Debug)]
pub struct ComputedField {
    pub field: DataField,
    pub computed_expr: Option<ComputedExpr>,
}

pub struct ComputedFieldView {
    pub field: FieldView,
    pub computed_expr: Option<ComputedView>,
}

pub open spec fn computed_field_view(f: ComputedField) -> ComputedFieldView {
    ComputedFieldView {
        field: f.field@,
        computed_expr: match f.computed_expr {
            Some(ComputedExpr::Virtual(s)) => Some(ComputedView::Virtual(s@)),
            Some(ComputedExpr::Stored(s)) => Some(ComputedView::Stored(s@)),
            None => None,
        },
    }
}

pub open spec fn computed_views(v: Seq<ComputedField>) -> Seq<ComputedFieldView> {
    v.map_values(|f: ComputedField| computed_field_view(f))
}

/// Fields none of which is computed.
pub open spec fn not_computed(fields: Seq<FieldView>) -> Seq<ComputedFieldView> {
    fields.map_values(|f: FieldView| ComputedFieldView { field: f, computed_expr: None })
}

/// The fields that are not computed.
pub open spec fn plain_fields(v: Seq<ComputedFieldView>) -> Seq<FieldView>
    decreases v.len(),
{
    if v.len() == 0 {
        Seq::empty()
    } else if v.last().computed_expr is None {
        plain_fields(v.drop_last()).push(v.last().field)
    } else {
        plain_fields(v.drop_last())
    }
}

#[derive(Clone, Copy, Debug, PartialEq, Eq, Structural)]
pub enum Engine {
    Fuse,
}

/// A table to be created.
#[derive(Debug)]
pub struct CreateTablePlan {
    pub if_not_exists: bool,
    pub tenant: String,
    pub catalog: String,
    pub database: String,
    pub table: String,
    /// The columns, and of those that are computed how.
    pub schema: Vec<ComputedField>,
    pub engine: Engine,
    pub read_only_attach: bool,
    pub part_prefix: String,
    pub options: Vec<(String, String)>,
    pub field_comments: Vec<String>,
    pub cluster_key: Option<String>,
}

pub open spec fn int32() -> TypeView {
    TypeView::Number(NumberDataType::Int32)
}

pub open spec fn int64() -> TypeView {
    TypeView::Number(NumberDataType::Int64)
}

pub open spec fn tuple_type() -> TypeView {
    TypeView::Tuple(seq![int32(), int32()])
}

pub open spec fn field(name: Seq<char>, data_type: TypeView) -> FieldView {
    FieldView { name, data_type }
}

fn new_field(name: &str, data_type: DataType) -> (r: DataField)
    ensures
        r@ == field(name@, data_type@),
{
    DataField { name: name.to_owned(), data_type }
}

fn int32_type() -> (r: DataType)
    ensures
        r@ == int32(),
{
    DataType::Number(NumberDataType::Int32)
}

fn int64_type() -> (r: DataType)
    ensures
        r@ == int64(),
{
    DataType::Number(NumberDataType::Int64)
}

fn pair_type() -> (r: DataType)
    ensures
        r@ == tuple_type(),
{
    let mut inner: Vec<DataType> = Vec::new();
    inner.push(int32_type());
    inner.push(int32_type());
    let r = DataType::Tuple(inner);
    assert(type_views(inner@) =~= seq![int32(), int32()]);
    r
}

/// The type of a column of a table: the fields of a tuple have names there.
#[derive(Debug)]
pub enum TableDataType {
    Tuple { fields_name: Vec<String>, fields_type: Vec<DataType> },
    Other(DataType),
}

pub enum TableTypeView {
    Tuple { fields_name: Seq<Seq<char>>, fields_type: Seq<TypeView> },
    Other(TypeView),
}

impl View for TableDataType {
    type V = TableTypeView;

    open spec fn view(&self) -> TableTypeView {
        match *self {
            TableDataType::Tuple { fields_name, fields_type } => TableTypeView::Tuple {
                fields_name: texts(fields_name@),
                fields_type: type_views(fields_type@),
            },
            TableDataType::Other(t) => TableTypeView::Other(t@),
        }
    }
}

/// A column of a table.
#[derive(Debug)]
pub struct TableColumn {
    pub name: String,
    pub data_type: TableDataType,
}

pub struct TableColumnView {
    pub name: Seq<char>,
    pub data_type: TableTypeView,
}

pub open spec fn table_column_views(v: Seq<TableColumn>) -> Seq<TableColumnView> {
    v.map_values(|c: TableColumn| TableColumnView { name: c.name@, data_type: c.data_type@ })
}

/// The columns of the sample blocks: ids, and pairs of `a` and `b`.
pub open spec fn sample_columns() -> Seq<TableColumnView> {
    seq![
        TableColumnView { name: "id"@, data_type: TableTypeView::Other(int32()) },
        TableColumnView {
            name: "t"@,
            data_type: TableTypeView::Tuple { fields_name: seq!["a"@, "b"@], fields_type: seq![int32(), int32()] },
        },
    ]
}

fn sample_schema() -> (r: Vec<TableColumn>)
    ensures
        table_column_views(r@) == sample_columns(),
{
    let mut fields_name: Vec<String> = Vec::new();
    fields_name.push("a".to_owned());
    fields_name.push("b".to_owned());
    assert(texts(fields_name@) =~= seq!["a"@, "b"@]);
    let mut fields_type: Vec<DataType> = Vec::new();
    fields_type.push(int32_type());
    fields_type.push(int32_type());
    assert(type_views(fields_type@) =~= seq![int32(), int32()]);
    let mut columns: Vec<TableColumn> = Vec::new();
    columns.push(TableColumn { name: "id".to_owned(), data_type: TableDataType::Other(int32_type()) });
    columns.push(TableColumn { name: "t".to_owned(), data_type: TableDataType::Tuple { fields_name, fields_type } });
    assert(table_column_views(columns@) =~= sample_columns());
    columns
}

/// The columns of the default table.
pub open spec fn default_fields() -> Seq<FieldView> {
    seq![field("id"@, int32()), field("t"@, tuple_type())]
}

pub open spec fn variant_fields() -> Seq<FieldView> {
    seq![field("id"@, int32()), field("v"@, TypeView::Variant)]
}

pub open spec fn computed_fields() -> Seq<ComputedFieldView> {
    seq![
        ComputedFieldView { field: field("id"@, int32()), computed_expr: None },
        ComputedFieldView {
            field: field("a1"@, TypeView::String),
            computed_expr: Some(ComputedView::Virtual("reverse(c)"@)),
        },
        ComputedFieldView {
            field: field("a2"@, TypeView::String),
            computed_expr: Some(ComputedView::Stored("upper(c)"@)),
        },
        ComputedFieldView { field: field("b1"@, int64()), computed_expr: Some(ComputedView::Virtual("(d + 2)"@)) },
        ComputedFieldView {
            field: field("b2"@, int64()),
            computed_expr: Some(ComputedView::Stored("((d + 1) * 3)"@)),
        },
        ComputedFieldView { field: field("c"@, TypeView::String), computed_expr: None },
        ComputedFieldView { field: field("d"@, int64()), computed_expr: None },
    ]
}

/// The columns of the table with computed columns that are not computed.
pub open spec fn stored_fields() -> Seq<FieldView> {
    seq![field("id"@, int32()), field("c"@, TypeView::String), field("d"@, int64())]
}

fn computed(name: &str, data_type: DataType, computed_expr: Option<ComputedExpr>) -> (r: ComputedField)
    ensures
        r.field@ == field(name@, data_type@),
        r.computed_expr == computed_expr,
{
    ComputedField { field: new_field(name, data_type), computed_expr }
}

/// The plan that creates a table of the fixture.
pub open spec fn is_plan(
    plan: CreateTablePlan,
    fixture: TestFixture,
    schema: Seq<ComputedFieldView>,
    comments: Seq<Seq<char>>,
    cluster_key: Option<Seq<char>>,
    database_id_key: Seq<char>,
) -> bool {
    &&& !plan.if_not_exists
    &&& plan.tenant@ == fixture.tenant@
    &&& plan.catalog@ == "default"@
    &&& plan.database@ == "db_"@ + fixture.prefix@
    &&& plan.table@ == "tbl_"@ + fixture.prefix@
    &&& computed_views(plan.schema@) == schema
    &&& plan.engine == Engine::Fuse
    &&& !plan.read_only_attach
    &&& plan.part_prefix@.len() == 0
    &&& plan.options@.len() == 1
    &&& plan.options@[0].0@ == database_id_key
    &&& plan.options@[0].1@ == "1"@
    &&& texts(plan.field_comments@) == comments
    &&& match cluster_key {
        Some(k) => plan.cluster_key matches Some(c) && c@ == k,
        None => plan.cluster_key is None,
    }
}

impl TestFixture {
    /// A fixture whose names are drawn at random.
    pub fn setup(tenant: String) -> (r: TestFixture)
        ensures
            r.tenant == tenant,
            exists|id: u128| is_random(id) && r.prefix@ == #[trigger] simple(id),
    {
        let id: u128 = new_v4();
        let prefix = simple_text(id);
        assert(prefix@ == simple(id));
        TestFixture { tenant, prefix }
    }

    pub fn default_tenant(&self) -> (r: String)
        ensures
            r@ == self.tenant@,
    {
        self.tenant.clone()
    }

    pub fn default_db_name(&self) -> (r: String)
        ensures
            r@ == "db_"@ + self.prefix@,
    {
        gen_db_name(self.prefix.as_str())
    }

    pub fn default_catalog_name(&self) -> (r: String)
        ensures
            r@ == "default"@,
    {
        "default".to_owned()
    }

    pub fn default_table_name(&self) -> (r: String)
        ensures
            r@ == "tbl_"@ + self.prefix@,
    {
        prefixed("tbl_", self.prefix.as_str())
    }

    pub fn default_schema() -> (r: DataSchema)
        ensures
            r@ == default_fields(),
    {
        let mut fields: Vec<DataField> = Vec::new();
        fields.push(new_field("id", int32_type()));
        fields.push(new_field("t", pair_type()));
        let r = DataSchema { fields };
        assert(r@ =~= default_fields());
        r
    }

    pub fn variant_schema() -> (r: DataSchema)
        ensures
            r@ == variant_fields(),
    {
        let mut fields: Vec<DataField> = Vec::new();
        fields.push(new_field("id", int32_type()));
        fields.push(new_field("v", DataType::Variant));
        let r = DataSchema { fields };
        assert(r@ =~= variant_fields());
        r
    }

    pub fn computed_schema() -> (r: Vec<ComputedField>)
        ensures
            computed_views(r@) == computed_fields(),
    {
        let mut fields: Vec<ComputedField> = Vec::new();
        fields.push(computed("id", int32_type(), None));
        fields.push(computed("a1", DataType::String, Some(ComputedExpr::Virtual("reverse(c)".to_owned()))));
        fields.push(computed("a2", DataType::String, Some(ComputedExpr::Stored("upper(c)".to_owned()))));
        fields.push(computed("b1", int64_type(), Some(ComputedExpr::Virtual("(d + 2)".to_owned()))));
        fields.push(computed("b2", int64_type(), Some(ComputedExpr::Stored("((d + 1) * 3)".to_owned()))));
        fields.push(computed("c", DataType::String, None));
        fields.push(computed("d", int64_type(), None));
        assert(computed_views(fields@) =~= computed_fields());
        fields
    }

    fn create_table_plan(
        &self,
        schema: Vec<ComputedField>,
        field_comments: Vec<String>,
        cluster_key: Option<String>,
        database_id_key: &str,
    ) -> (r: CreateTablePlan)
        ensures
            is_plan(
                r,
                *self,
                computed_views(schema@),
                texts(field_comments@),
                match cluster_key {
                    Some(k) => Some(k@),
                    None => None,
                },
                database_id_key@,
            ),
    {
        let mut options: Vec<(String, String)> = Vec::new();
        // database id is required for FUSE
        options.push((database_id_key.to_owned(), "1".to_owned()));
        CreateTablePlan {
            if_not_exists: false,
            tenant: self.default_tenant(),
            catalog: self.default_catalog_name(),
            database: self.default_db_name(),
            table: self.default_table_name(),
            schema,
            engine: Engine::Fuse,
            read_only_attach: false,
            part_prefix: String::new(),
            options,
            field_comments,
            cluster_key,
        }
    }

    /// The default table, clustered by its ids.
    pub fn default_create_table_plan(&self, database_id_key: &str) -> (r: CreateTablePlan)
        ensures
            is_plan(
                r,
                *self,
                not_computed(default_fields()),
                seq!["number"@, "tuple"@],
                Some("(id)"@),
                database_id_key@,
            ),
    {
        self.create_table_plan(without_computed(Self::default_schema()), sample_comments(), Some("(id)".to_owned()), database_id_key)
    }

    /// create a normal table without cluster key.
    pub fn normal_create_table_plan(&self, database_id_key: &str) -> (r: CreateTablePlan)
        ensures
            is_plan(r, *self, not_computed(default_fields()), seq!["number"@, "tuple"@], None, database_id_key@),
    {
        self.create_table_plan(without_computed(Self::default_schema()), sample_comments(), None, database_id_key)
    }

    /// create a variant table
    pub fn variant_create_table_plan(&self, database_id_key: &str) -> (r: CreateTablePlan)
        ensures
            is_plan(r, *self, not_computed(variant_fields()), Seq::empty(), None, database_id_key@),
    {
        let comments: Vec<String> = Vec::new();
        assert(texts(comments@) =~= Seq::<Seq<char>>::empty());
        self.create_table_plan(without_computed(Self::variant_schema()), comments, None, database_id_key)
    }

    /// create a table with computed column
    pub fn computed_create_table_plan(&self, database_id_key: &str) -> (r: CreateTablePlan)
        ensures
            is_plan(r, *self, computed_fields(), Seq::empty(), None, database_id_key@),
    {
        let comments: Vec<String> = Vec::new();
        assert(texts(comments@) =~= Seq::<Seq<char>>::empty());
        self.create_table_plan(Self::computed_schema(), comments, None, database_id_key)
    }

    /// How many snapshots the history of the table has, as a query.
    pub fn history_query(&self) -> (r: String)
        ensures
            r@ == "select count(*) as count from fuse_snapshot('db_"@ + self.prefix@ + "', 'tbl_"@ + self.prefix@ + "')"@,
    {
        let mut r = String::new();
        r.append("select count(*) as count from fuse_snapshot('db_");
        r.append(self.prefix.as_str());
        r.append("', 'tbl_");
        r.append(self.prefix.as_str());
        r.append("')");
        assert(r@ =~= "select count(*) as count from fuse_snapshot('db_"@ + self.prefix@ + "', 'tbl_"@ + self.prefix@
            + "')"@);
        r
    }
}

fn without_computed(schema: DataSchema) -> (r: Vec<ComputedField>)
    ensures
        computed_views(r@) == not_computed(schema@),
{
    let mut fields: Vec<ComputedField> = Vec::new();
    let ghost all = not_computed(schema@);
    let mut i: usize = 0;
    while i < schema.fields.len()
        invariant
            i <= schema.fields@.len(),
            all == not_computed(schema@),
            fields@.len() == i,
            forall|j: int| 0 <= j < i ==> computed_field_view(#[trigger] fields@[j]) == all[j],
        decreases schema.fields.len() - i,
    {
        assert(schema@[i as int] == schema.fields@[i as int]@);
        fields.push(ComputedField { field: schema.fields[i].clone(), computed_expr: None });
        i += 1;
    }
    assert(computed_views(fields@) =~= all);
    fields
}

fn sample_comments() -> (r: Vec<String>)
    ensures
        texts(r@) == seq!["number"@, "tuple"@],
{
    let mut comments: Vec<String> = Vec::new();
    comments.push("number".to_owned());
    comments.push("tuple".to_owned());
    assert(texts(comments@) =~= seq!["number"@, "tuple"@]);
    comments
}

fn prefixed(a: &str, b: &str) -> (r: String)
    ensures
        r@ == a@ + b@,
{
    let r = concat(a, b, "", "");
    proof {
        reveal_strlit("");
        assert(r@ =~= a@ + b@);
    }
    r
}

fn gen_db_name(prefix: &str) -> (r: String)
    ensures
        r@ == "db_"@ + prefix@,
{
    prefixed("db_", prefix)
}

/// The lines that a query for the number of snapshots answers with.
pub fn history_should_have_item(item_cnt: u32) -> (r: Vec<String>)
    ensures
        texts(r@) == seq![
            "+----------+"@,
            "| Column 0 |"@,
            "+----------+"@,
            "| "@ + decimal(item_cnt as nat) + "        |"@,
            "+----------+"@,
        ],
{
    let mut count_str = String::new();
    count_str.append("| ");
    push_decimal(&mut count_str, item_cnt as u64);
    count_str.append("        |");
    assert(count_str@ =~= "| "@ + decimal(item_cnt as nat) + "        |"@);
    let ghost line = count_str@;
    let mut r: Vec<String> = Vec::new();
    r.push("+----------+".to_owned());
    r.push("| Column 0 |".to_owned());
    r.push("+----------+".to_owned());
    r.push(count_str);
    r.push("+----------+".to_owned());
    assert(texts(r@) =~= seq!["+----------+"@, "| Column 0 |"@, "+----------+"@, line, "+----------+"@]);
    r
}

/// What came where no error was expected, or what is wrong.
pub fn expects_ok<T>(case_name: &str, outcome: Result<T, String>) -> (r: Result<T, String>)
    ensures
        match outcome {
            Ok(blocks) => r == Ok::<T, String>(blocks),
            Err(e) => r matches Err(m) && m@ == "case name "@ + case_name@ + ", expecting  Ok, but got err "@ + e@,
        },
{
    match outcome {
        Ok(blocks) => Ok(blocks),
        Err(e) => Err(concat("case name ", case_name, ", expecting  Ok, but got err ", e.as_str())),
    }
}

/// What is wrong where an error of a code was expected; nothing where it came.
pub fn expects_err(case_name: &str, err_code: u16, outcome: Result<(), (u16, String)>) -> (r: Option<String>)
    ensures
        match outcome {
            Err(e) => if e.0 == err_code {
                r is None
            } else {
                r matches Some(m) && m@ == "case name "@ + case_name@ + ", unexpected error: "@ + e.1@
            },
            Ok(()) => r matches Some(m) && m@ == "case name "@ + case_name@ + ", expecting err code "@ + decimal(
                err_code as nat,
            ) + ", but got ok"@,
        },
{
    match outcome {
        Err(e) => if e.0 == err_code {
            None
        } else {
            Some(concat("case name ", case_name, ", unexpected error: ", e.1.as_str()))
        },
        Ok(()) => {
            let mut m = String::new();
            m.append("case name ");
            m.append(case_name);
            m.append(", expecting err code ");
            push_decimal(&mut m, err_code as u64);
            m.append(", but got ok");
            assert(m@ =~= "case name "@ + case_name@ + ", expecting err code "@ + decimal(err_code as nat)
                + ", but got ok"@);
            Some(m)
        },
    }
}

/// A number doubled that many times.
pub open spec fn doubled(n: int, times: nat) -> int
    decreases times,
{
    if times == 0 {
        n
    } else {
        doubled(n, (times - 1) as nat) * 2
    }
}

pub open spec fn fits_i32(n: int) -> bool {
    i32::MIN <= n <= i32::MAX
}

/// All values of the sample blocks are numbers of 32 bits.
pub open spec fn sample_fits(num_of_block: nat, rows_per_block: nat, start: int) -> bool {
    forall|idx: int|
        0 <= idx < num_of_block ==> #[trigger] fits_i32(3 * (start + idx)) && (rows_per_block % 3 != 0 ==> forall|
            r: nat,
        |
            r <= rows_per_block ==> fits_i32(#[trigger] doubled(start + idx, r)))
}

pub open spec fn int32_scalar(n: int) -> ScalarView {
    ScalarView::Number(NumberScalar::Int32(n as i32))
}

pub open spec fn column_entry(data_type: TypeView, rows: Seq<ScalarView>) -> EntryView {
    EntryView { data_type, value: ValueView::Column(ColumnView { data_type, rows }) }
}

/// A sample block: the ids are one number, or that number doubled from row to row where the rows
/// do not come in threes; the pairs are twice and three times that number.
pub open spec fn sample_block(idx: int, rows_per_block: nat, start: int) -> BlockView {
    let n = start + idx;
    BlockView {
        columns: seq![
            column_entry(
                int32(),
                Seq::new(
                    rows_per_block,
                    |r: int|
                        int32_scalar(
                            if rows_per_block % 3 == 0 {
                                n
                            } else {
                                doubled(n, r as nat)
                            },
                        ),
                ),
            ),
            column_entry(
                tuple_type(),
                Seq::new(
                    rows_per_block,
                    |r: int| ScalarView::Tuple(seq![int32_scalar(n * 2), int32_scalar(n * 3)]),
                ),
            ),
        ],
        num_rows: rows_per_block,
        meta: None,
    }
}

fn two_column_block(first: Column, second: Column, Ghost(n): Ghost<nat>) -> (r: DataBlock)
    requires
        first@.rows.len() == n,
        second@.rows.len() == n,
    ensures
        r@ == (BlockView {
            columns: seq![
                column_entry(first@.data_type, first@.rows),
                column_entry(second@.data_type, second@.rows),
            ],
            num_rows: n,
            meta: None,
        }),
{
    let ghost a = first@;
    let ghost b = second@;
    let mut columns: Vec<Column> = Vec::new();
    columns.push(first);
    columns.push(second);
    let r = DataBlock::new_from_columns(columns);
    assert(r@.columns =~= seq![column_entry(a.data_type, a.rows), column_entry(b.data_type, b.rows)]);
    r
}

fn gen_sample_block(idx: usize, rows_per_block: usize, start: i32) -> (r: DataBlock)
    requires
        fits_i32(3 * (start + idx)),
        rows_per_block % 3 != 0 ==> forall|r: nat|
            r <= rows_per_block ==> fits_i32(#[trigger] doubled(start + idx, r)),
    ensures
        r@ == sample_block(idx as int, rows_per_block as nat, start as int),
{
    let repeat = rows_per_block % 3 == 0;
    let number: i32 = (idx as i64 + start as i64) as i32;
    let ghost n = start + idx;
    let mut curr: i32 = number;
    let mut ids: Vec<Scalar> = Vec::new();
    let mut pairs: Vec<Scalar> = Vec::new();
    let mut row: usize = 0;
    while row < rows_per_block
        invariant
            row <= rows_per_block,
            repeat == (rows_per_block % 3 == 0),
            number == n,
            fits_i32(3 * n),
            !repeat ==> forall|r: nat| r <= rows_per_block ==> fits_i32(#[trigger] doubled(n, r)),
            curr == (if repeat {
                n
            } else {
                doubled(n, row as nat)
            }),
            ids@.len() == row,
            pairs@.len() == row,
            forall|j: int|
                0 <= j < row ==> scalar_view(#[trigger] ids@[j]) == int32_scalar(
                    if repeat {
                        n
                    } else {
                        doubled(n, j as nat)
                    },
                ),
            forall|j: int|
                0 <= j < row ==> scalar_view(#[trigger] pairs@[j]) == ScalarView::Tuple(
                    seq![int32_scalar(n * 2), int32_scalar(n * 3)],
                ),
        decreases rows_per_block - row,
    {
        ids.push(Scalar::Number(NumberScalar::Int32(curr)));
        if !repeat {
            assert(fits_i32(doubled(n, (row + 1) as nat)));
            curr = curr * 2;
        }
        let mut pair: Vec<Scalar> = Vec::new();
        pair.push(Scalar::Number(NumberScalar::Int32(number * 2)));
        pair.push(Scalar::Number(NumberScalar::Int32(number * 3)));
        proof {
            assert(scalar_view(pair@[0]) == int32_scalar(n * 2));
            assert(scalar_view(pair@[1]) == int32_scalar(n * 3));
            assert(scalar_views(pair@) =~= seq![int32_scalar(n * 2), int32_scalar(n * 3)]);
        }
        let tuple = Scalar::Tuple(pair);
        assert(scalar_view(tuple) == ScalarView::Tuple(scalar_views(pair@)));
        pairs.push(tuple);
        row += 1;
    }
    let id_column = Column { data_type: int32_type(), rows: ids };
    let pair_column = Column { data_type: pair_type(), rows: pairs };
    proof {
        let wanted = sample_block(idx as int, rows_per_block as nat, start as int);
        assert(wanted.columns[0].value->Column_0.rows =~= id_column@.rows);
        assert(wanted.columns[1].value->Column_0.rows =~= pair_column@.rows);
    }
    let r = two_column_block(id_column, pair_column, Ghost(rows_per_block as nat));
    assert(r@.columns =~= sample_block(idx as int, rows_per_block as nat, start as int).columns);
    r
}

/// Sample blocks of three rows each.
pub fn gen_sample_blocks(num_of_blocks: usize, start: i32) -> (r: (Vec<TableColumn>, Vec<DataBlock>))
    requires
        sample_fits(num_of_blocks as nat, 3, start as int),
    ensures
        table_column_views(r.0@) == sample_columns(),
        block_views(r.1@) == Seq::new(num_of_blocks as nat, |idx: int| sample_block(idx, 3, start as int)),
{
    gen_sample_blocks_ex(num_of_blocks, 3, start)
}

/// Sample blocks, and their columns.
pub fn gen_sample_blocks_ex(num_of_block: usize, rows_per_block: usize, start: i32) -> (r: (
    Vec<TableColumn>,
    Vec<DataBlock>,
))
    requires
        sample_fits(num_of_block as nat, rows_per_block as nat, start as int),
    ensures
        table_column_views(r.0@) == sample_columns(),
        block_views(r.1@) == Seq::new(
            num_of_block as nat,
            |idx: int| sample_block(idx, rows_per_block as nat, start as int),
        ),
{
    let mut blocks: Vec<DataBlock> = Vec::new();
    let mut idx: usize = 0;
    while idx < num_of_block
        invariant
            idx <= num_of_block,
            sample_fits(num_of_block as nat, rows_per_block as nat, start as int),
            blocks@.len() == idx,
            forall|j: int|
                0 <= j < idx ==> (#[trigger] blocks@[j])@ == sample_block(j, rows_per_block as nat, start as int),
        decreases num_of_block - idx,
    {
        assert(fits_i32(3 * (start + idx)));
        blocks.push(gen_sample_block(idx, rows_per_block, start));
        idx += 1;
    }
    assert(block_views(blocks@) =~= Seq::new(
        num_of_block as nat,
        |idx: int| sample_block(idx, rows_per_block as nat, start as int),
    ));
    (sample_schema(), blocks)
}

pub open spec fn numbers_view(v: Seq<(String, i64)>) -> Seq<(Seq<char>, i64)> {
    v.map_values(|p: (String, i64)| (p.0@, p.1))
}

/// The bytes of an object with these fields.
pub uninterp spec fn object_bytes(fields: Seq<(Seq<char>, i64)>) -> Seq<u8>;

/// Encodes an object of numbers with `jsonb::Value::write_to_vec`. The bytes depend on the fields
/// alone; what they look like is not stated.
#[verifier::external_body]
fn encode_object(fields: &Vec<(String, i64)>) -> (r: Vec<u8>)
    ensures
        r@ == object_bytes(numbers_view(fields@)),
{
    let number = |v: i64| jsonb::Value::Number(jsonb::Number::Int64(v));
    let object: jsonb::Object = fields.iter().map(|(k, v)| (k.clone(), number(*v))).collect();
    let mut buf = Vec::new();
    jsonb::Value::Object(object).write_to_vec(&mut buf);
    buf
}

/// The fields of the object in a row of a sample block.
pub open spec fn variant_fields_of(n: int) -> Seq<(Seq<char>, i64)> {
    seq![("a"@, n as i64), ("b"@, (n * 2) as i64)]
}

/// The fields of the object in a row of a sample block.
pub fn variant_object(n: usize) -> (r: Vec<(String, i64)>)
    requires
        n * 2 <= i64::MAX,
        n * 2 <= usize::MAX,
    ensures
        numbers_view(r@) == variant_fields_of(n as int),
{
    let mut fields: Vec<(String, i64)> = Vec::new();
    fields.push(("a".to_owned(), n as i64));
    fields.push(("b".to_owned(), (n * 2) as i64));
    assert(numbers_view(fields@) =~= variant_fields_of(n as int));
    fields
}

/// A sample block of objects.
pub open spec fn variant_block(idx: int, rows_per_block: nat, start: int) -> BlockView {
    BlockView {
        columns: seq![
            column_entry(int32(), Seq::new(rows_per_block, |r: int| int32_scalar(start + idx))),
            column_entry(
                TypeView::Variant,
                Seq::new(rows_per_block, |r: int| ScalarView::Variant(object_bytes(variant_fields_of(idx + r)))),
            ),
        ],
        num_rows: rows_per_block,
        meta: None,
    }
}

/// Sample blocks of three rows each, with objects.
pub fn gen_variant_sample_blocks(num_of_blocks: usize, start: i32) -> (r: (DataSchema, Vec<DataBlock>))
    requires
        start + num_of_blocks <= i32::MAX,
        num_of_blocks <= i32::MAX,
        (num_of_blocks + 3) * 2 <= usize::MAX,
    ensures
        r.0@ == variant_fields(),
        block_views(r.1@) == Seq::new(num_of_blocks as nat, |idx: int| variant_block(idx, 3, start as int)),
{
    gen_variant_sample_blocks_ex(num_of_blocks, 3, start)
}

/// Sample blocks with objects, and their columns.
pub fn gen_variant_sample_blocks_ex(num_of_block: usize, rows_per_block: usize, start: i32) -> (r: (
    DataSchema,
    Vec<DataBlock>,
))
    requires
        start + num_of_block <= i32::MAX,
        num_of_block <= i32::MAX,
        (num_of_block + rows_per_block) * 2 <= i64::MAX,
        (num_of_block + rows_per_block) * 2 <= usize::MAX,
    ensures
        r.0@ == variant_fields(),
        block_views(r.1@) == Seq::new(
            num_of_block as nat,
            |idx: int| variant_block(idx, rows_per_block as nat, start as int),
        ),
{
    let mut blocks: Vec<DataBlock> = Vec::new();
    let mut idx: usize = 0;
    while idx < num_of_block
        invariant
            idx <= num_of_block,
            start + num_of_block <= i32::MAX,
            num_of_block <= i32::MAX,
            (num_of_block + rows_per_block) * 2 <= i64::MAX,
            (num_of_block + rows_per_block) * 2 <= usize::MAX,
            blocks@.len() == idx,
            forall|j: int|
                0 <= j < idx ==> (#[trigger] blocks@[j])@ == variant_block(j, rows_per_block as nat, start as int),
        decreases num_of_block - idx,
    {
        let number: i32 = (idx as i64 + start as i64) as i32;
        let mut ids: Vec<Scalar> = Vec::new();
        let mut objects: Vec<Scalar> = Vec::new();
        let mut i: usize = 0;
        while i < rows_per_block
            invariant
                i <= rows_per_block,
                idx < num_of_block,
                (num_of_block + rows_per_block) * 2 <= i64::MAX,
                (num_of_block + rows_per_block) * 2 <= usize::MAX,
                number == start + idx,
                ids@.len() == i,
                objects@.len() == i,
                forall|j: int| 0 <= j < i ==> scalar_view(#[trigger] ids@[j]) == int32_scalar(start + idx),
                forall|j: int|
                    0 <= j < i ==> scalar_view(#[trigger] objects@[j]) == ScalarView::Variant(
                        object_bytes(variant_fields_of(idx + j)),
                    ),
            decreases rows_per_block - i,
        {
            ids.push(Scalar::Number(NumberScalar::Int32(number)));
            let fields = variant_object(idx + i);
            objects.push(Scalar::Variant(encode_object(&fields)));
            i += 1;
        }
        let id_column = Column { data_type: int32_type(), rows: ids };
        let object_column = Column { data_type: DataType::Variant, rows: objects };
        proof {
            let wanted = variant_block(idx as int, rows_per_block as nat, start as int);
            assert(wanted.columns[0].value->Column_0.rows =~= id_column@.rows);
            assert(wanted.columns[1].value->Column_0.rows =~= object_column@.rows);
        }
        let block = two_column_block(id_column, object_column, Ghost(rows_per_block as nat));
        assert(block@.columns =~= variant_block(idx as int, rows_per_block as nat, start as int).columns);
        blocks.push(block);
        idx += 1;
    }
    assert(block_views(blocks@) =~= Seq::new(
        num_of_block as nat,
        |idx: int| variant_block(idx, rows_per_block as nat, start as int),
    ));
    (TestFixture::variant_schema(), blocks)
}

/// The text in a row of a sample block.
pub open spec fn row_text(start: int, row: nat) -> Seq<char> {
    "s-"@ + signed_decimal(start) + "-"@ + decimal(row)
}

/// A sample block for the table with computed columns.
pub open spec fn computed_block(rows_per_block: nat, start: int) -> BlockView {
    BlockView {
        columns: seq![
            column_entry(int32(), Seq::new(rows_per_block, |r: int| int32_scalar(r + start * 3))),
            column_entry(
                TypeView::String,
                Seq::new(rows_per_block, |r: int| ScalarView::String(encode_utf8(row_text(start, r as nat)))),
            ),
            column_entry(
                int64(),
                Seq::new(
                    rows_per_block,
                    |r: int| ScalarView::Number(NumberScalar::Int64((r + start * 10) as i64)),
                ),
            ),
        ],
        num_rows: rows_per_block,
        meta: None,
    }
}

/// All values of the sample blocks for the table with computed columns are numbers that fit.
pub open spec fn computed_fits(rows_per_block: nat, start: int) -> bool {
    rows_per_block > 0 ==> fits_i32(start * 3) && fits_i32(start * 10) && rows_per_block - 1 <= i32::MAX && fits_i32(
        rows_per_block - 1 + start * 3,
    )
}

fn row_bytes(start: i32, row: usize) -> (r: Vec<u8>)
    ensures
        r@ == encode_utf8(row_text(start as int, row as nat)),
{
    let mut text = String::new();
    text.append("s-");
    push_signed_decimal(&mut text, start as i64);
    text.append("-");
    push_decimal(&mut text, row as u64);
    assert(text@ =~= row_text(start as int, row as nat));
    let bytes = text.as_str().as_bytes();
    let mut r: Vec<u8> = Vec::new();
    let mut i: usize = 0;
    while i < bytes.len()
        invariant
            i <= bytes@.len(),
            r@ == bytes@.take(i as int),
        decreases bytes.len() - i,
    {
        r.push(bytes[i]);
        assert(bytes@.take(i + 1) =~= bytes@.take(i as int).push(bytes@[i as int]));
        i += 1;
    }
    assert(bytes@.take(i as int) =~= bytes@);
    r
}

fn gen_computed_block(rows_per_block: usize, start: i32) -> (r: DataBlock)
    requires
        computed_fits(rows_per_block as nat, start as int),
    ensures
        r@ == computed_block(rows_per_block as nat, start as int),
{
    let mut ids: Vec<Scalar> = Vec::new();
    let mut cs: Vec<Scalar> = Vec::new();
    let mut ds: Vec<Scalar> = Vec::new();
    let mut i: usize = 0;
    while i < rows_per_block
        invariant
            i <= rows_per_block,
            computed_fits(rows_per_block as nat, start as int),
            ids@.len() == i,
            cs@.len() == i,
            ds@.len() == i,
            forall|j: int| 0 <= j < i ==> scalar_view(#[trigger] ids@[j]) == int32_scalar(j + start * 3),
            forall|j: int|
                0 <= j < i ==> scalar_view(#[trigger] cs@[j]) == ScalarView::String(
                    encode_utf8(row_text(start as int, j as nat)),
                ),
            forall|j: int|
                0 <= j < i ==> scalar_view(#[trigger] ds@[j]) == ScalarView::Number(
                    NumberScalar::Int64((j + start * 10) as i64),
                ),
        decreases rows_per_block - i,
    {
        ids.push(Scalar::Number(NumberScalar::Int32(i as i32 + start * 3)));
        cs.push(Scalar::String(row_bytes(start, i)));
        ds.push(Scalar::Number(NumberScalar::Int64(i as i64 + (start * 10) as i64)));
        i += 1;
    }
    let first = Column { data_type: int32_type(), rows: ids };
    let second = Column { data_type: DataType::String, rows: cs };
    let third = Column { data_type: int64_type(), rows: ds };
    let ghost wanted = computed_block(rows_per_block as nat, start as int);
    proof {
        assert(wanted.columns[0].value->Column_0.rows =~= first@.rows);
        assert(wanted.columns[1].value->Column_0.rows =~= second@.rows);
        assert(wanted.columns[2].value->Column_0.rows =~= third@.rows);
    }
    let mut columns: Vec<Column> = Vec::new();
    columns.push(first);
    columns.push(second);
    columns.push(third);
    let r = DataBlock::new_from_columns(columns);
    assert(r@.columns =~= wanted.columns);
    r
}

/// Sample blocks of three rows each, for the table with computed columns.
pub fn gen_computed_sample_blocks(num_of_blocks: usize, start: i32) -> (r: (DataSchema, Vec<DataBlock>))
    requires
        num_of_blocks > 0 ==> computed_fits(3, start as int),
    ensures
        r.0@ == stored_fields(),
        block_views(r.1@) == Seq::new(num_of_blocks as nat, |idx: int| computed_block(3, start as int)),
{
    gen_computed_sample_blocks_ex(num_of_blocks, 3, start)
}

/// The columns that are not computed.
pub fn remove_computed_fields(fields: &Vec<ComputedField>) -> (r: DataSchema)
    ensures
        r@ == plain_fields(computed_views(fields@)),
{
    let mut plain: Vec<DataField> = Vec::new();
    let ghost all = computed_views(fields@);
    let mut i: usize = 0;
    let ghost mut views: Seq<FieldView> = Seq::empty();
    assert(all.take(0) =~= Seq::<ComputedFieldView>::empty());
    while i < fields.len()
        invariant
            i <= fields@.len(),
            all == computed_views(fields@),
            views == plain@.map_values(|f: DataField| f@),
            views == plain_fields(all.take(i as int)),
        decreases fields.len() - i,
    {
        proof {
            assert(all.take(i + 1).drop_last() =~= all.take(i as int));
            assert(all.take(i + 1).last() == computed_field_view(fields@[i as int]));
        }
        if fields[i].computed_expr.is_none() {
            plain.push(fields[i].field.clone());
            proof {
                views = views.push(fields@[i as int].field@);
                assert(plain@.map_values(|f: DataField| f@) =~= views);
            }
        }
        i += 1;
    }
    assert(all.take(i as int) =~= all);
    DataSchema { fields: plain }
}

proof fn lemma_stored_fields()
    ensures
        plain_fields(computed_fields()) == stored_fields(),
{
    let all = computed_fields();
    reveal_with_fuel(plain_fields, 8);
    assert(all.drop_last().drop_last().drop_last().drop_last().drop_last().drop_last().drop_last()
        =~= Seq::<ComputedFieldView>::empty());
    assert(plain_fields(all) =~= stored_fields());
}

/// Sample blocks for the table with computed columns, and their columns.
pub fn gen_computed_sample_blocks_ex(num_of_block: usize, rows_per_block: usize, start: i32) -> (r: (
    DataSchema,
    Vec<DataBlock>,
))
    requires
        num_of_block > 0 ==> computed_fits(rows_per_block as nat, start as int),
    ensures
        r.0@ == stored_fields(),
        block_views(r.1@) == Seq::new(
            num_of_block as nat,
            |idx: int| computed_block(rows_per_block as nat, start as int),
        ),
{
    let computed = TestFixture::computed_schema();
    let schema = remove_computed_fields(&computed);
    proof {
        lemma_stored_fields();
    }
    let mut blocks: Vec<DataBlock> = Vec::new();
    let mut idx: usize = 0;
    while idx < num_of_block
        invariant
            idx <= num_of_block,
            num_of_block > 0 ==> computed_fits(rows_per_block as nat, start as int),
            blocks@.len() == idx,
            forall|j: int|
                0 <= j < idx ==> (#[trigger] blocks@[j])@ == computed_block(rows_per_block as nat, start as int),
        decreases num_of_block - idx,
    {
        blocks.push(gen_computed_block(rows_per_block, start));
        idx += 1;
    }
    assert(block_views(blocks@) =~= Seq::new(
        num_of_block as nat,
        |idx: int| computed_block(rows_per_block as nat, start as int),
    ));
    (schema, blocks)
}

/// The ids of a sample block start at the number of the block, counted from the start. Where the
/// rows come in threes all are the same, and otherwise each is twice the one before. The pairs are
/// twice and three times the number of the block.
pub proof fn sample_ids_are_doubled(idx: int, rows_per_block: nat, start: int, r: int)
    requires
        0 <= r < rows_per_block,
        forall|k: nat| k <= rows_per_block ==> fits_i32(#[trigger] doubled(start + idx, k)),
        fits_i32(3 * (start + idx)),
        fits_i32(2 * (start + idx)),
    ensures
        ({
            let b = sample_block(idx, rows_per_block, start);
            let n = start + idx;
            let int_of = |s: ScalarView|
                match s {
                    ScalarView::Number(NumberScalar::Int32(v)) => Some(v as int),
                    _ => None,
                };
            &&& b.num_rows == rows_per_block && b.columns.len() == 2 && b.meta is None
            &&& b.columns[0].data_type == TypeView::Number(NumberDataType::Int32)
            &&& b.columns[0].value matches ValueView::Column(ids) && {
                &&& ids.rows.len() == rows_per_block
                &&& int_of(ids.rows[0]) == Some(n)
                &&& rows_per_block % 3 == 0 ==> ids.rows[r] == ids.rows[0]
                &&& rows_per_block % 3 != 0 && r > 0 ==> match (int_of(ids.rows[r - 1]), int_of(ids.rows[r])) {
                    (Some(v), Some(w)) => w == 2 * v,
                    _ => false,
                }
            }
            &&& b.columns[1].value matches ValueView::Column(pairs) && {
                &&& pairs.rows.len() == rows_per_block
                &&& pairs.rows[r] matches ScalarView::Tuple(p) && p.len() == 2 && int_of(p[0]) == Some(2 * n) && int_of(
                    p[1],
                ) == Some(3 * n)
            }
        }),
{
    let n = start + idx;
    assert(doubled(n, 0) == n);
    assert(fits_i32(doubled(n, 0)));
    assert(fits_i32(doubled(n, r as nat)));
    if r > 0 {
        assert(fits_i32(doubled(n, (r - 1) as nat)));
        assert(doubled(n, r as nat) == doubled(n, (r - 1) as nat) * 2);
    }
    assert(n * 2 == 2 * n && n * 3 == 3 * n) by (nonlinear_arith);
}

/// A sample block for the table with computed columns counts on from row to row: the ids from
/// three times the start, the numbers from ten times the start. The text of a row names the start
/// and the row.
pub proof fn computed_samples_count_on(rows_per_block: nat, start: int, r: int)
    requires
        0 <= r < rows_per_block,
        computed_fits(rows_per_block, start),
    ensures
        ({
            let b = computed_block(rows_per_block, start);
            &&& b.num_rows == rows_per_block && b.columns.len() == 3
            &&& b.columns[0].value matches ValueView::Column(ids) && ids.rows.len() == rows_per_block && (ids.rows[r]
                matches ScalarView::Number(NumberScalar::Int32(v)) && v == start * 3 + r)
            &&& b.columns[1].value matches ValueView::Column(names) && names.rows.len() == rows_per_block && (
            names.rows[r] matches ScalarView::String(bytes) && bytes == encode_utf8(
                "s-"@ + signed_decimal(start) + "-"@ + decimal(r as nat),
            ))
            &&& b.columns[2].value matches ValueView::Column(numbers) && numbers.rows.len() == rows_per_block && (
            numbers.rows[r] matches ScalarView::Number(NumberScalar::Int64(v)) && v == start * 10 + r)
        }),
{
}

/// The columns that are not computed are those without an expression, in their order.
pub proof fn columns_without_an_expression_are_plain(v: Seq<ComputedFieldView>)
    ensures
        plain_fields(v) == v.filter(|f: ComputedFieldView| f.computed_expr is None).map_values(
            |f: ComputedFieldView| f.field,
        ),
    decreases v.len(),
{
    reveal(Seq::filter);
    let plain = |f: ComputedFieldView| f.computed_expr is None;
    let of = |f: ComputedFieldView| f.field;
    if v.len() > 0 {
        columns_without_an_expression_are_plain(v.drop_last());
        let before = v.drop_last().filter(plain);
        assert(before.push(v.last()).map_values(of) =~= before.map_values(of).push(of(v.last())));
        assert(v.filter(plain) == if plain(v.last()) {
            before.push(v.last())
        } else {
            before
        });
    } else {
        assert(v.filter(plain).map_values(of) =~= Seq::<FieldView>::empty());
    }
}

}
