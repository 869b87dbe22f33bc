//! How an insert is carried out.

use vstd::prelude::*;

use crate::error::ErrorCode;
use crate::schema::DataSchema;
use crate::schema::FieldView;
use crate::types::DataType;
use crate::types::TypeView;

verus! {

/// Where the inserted rows come from.
#[derive(Debug)]
pub enum InsertInputSource {
    Values,
    StreamingWithFormat,
    /// A query whose result has the schema.
    SelectPlan(DataSchema),
}

#[derive(Debug)]
pub struct InsertInterpreterV2 {
    pub source: InsertInputSource,
    /// The columns of the table that rows are inserted into.
    pub schema: DataSchema,
    pub overwrite: bool,
    pub async_insert: bool,
    /// Whether a source pipe has been handed in.
    pub has_source_pipe: bool,
}

/// A cast of a column to the type of the column that it is inserted into.
#[derive(Debug)]
pub struct SchemaCast {
    pub target_type: DataType,
    pub from_type: DataType,
}

/// An insert that every node of a cluster has a share in. What the nodes have appended is merged
/// and committed at once.
#[derive(Debug)]
pub struct DistributedInsertSelect {
    pub catalog: String,
    pub select_schema: DataSchema,
    pub insert_schema: DataSchema,
    pub cast_needed: bool,
    pub overwrite: bool,
}

/// What is done first for an insert.
#[derive(Clone, Copy, Debug, PartialEq, Eq, Structural)]
pub enum InsertAction {
    /// The pipe that was handed in is the source.
    UseSourcePipe,
    /// The values are the source, read by as many readers as there are threads.
    ReadValues { readers: u64 },
    /// The query is built for the whole cluster. Once it is, `schedule_insert_select` tells how it
    /// inserts what each node finds.
    ScheduleInsertSelect,
    /// The query is built for this node. Once it is, `select_casts` tells how its columns are cast.
    RunSelect,
}

pub open spec fn cast_views(v: Seq<SchemaCast>) -> Seq<(TypeView, TypeView)> {
    v.map_values(|c: SchemaCast| (c.target_type@, c.from_type@))
}

/// The casts from the columns of a query to those of a table, column by column.
pub open spec fn casts_between(table: Seq<FieldView>, query: Seq<FieldView>) -> Seq<(TypeView, TypeView)> {
    Seq::new(table.len(), |i: int| (table[i].data_type, query[i].data_type))
}

/// What is done first for an insert; nothing where a pipe is asked for that was not handed in.
pub open spec fn first_action(insert: InsertInterpreterV2, max_threads: u64, cluster_is_empty: bool) -> Option<
    InsertAction,
> {
    if insert.async_insert || insert.source is StreamingWithFormat {
        if insert.has_source_pipe {
            Some(InsertAction::UseSourcePipe)
        } else {
            None
        }
    } else if insert.source is Values {
        Some(InsertAction::ReadValues { readers: max_threads })
    } else if cluster_is_empty {
        Some(InsertAction::RunSelect)
    } else {
        Some(InsertAction::ScheduleInsertSelect)
    }
}

impl InsertInterpreterV2 {
    pub fn try_create(source: InsertInputSource, schema: DataSchema, overwrite: bool, async_insert: bool) -> (r: InsertInterpreterV2)
        ensures
            r == (InsertInterpreterV2 { source, schema, overwrite, async_insert, has_source_pipe: false }),
    {
        InsertInterpreterV2 { source, schema, overwrite, async_insert, has_source_pipe: false }
    }

    pub fn name(&self) -> (r: &'static str)
        ensures
            r@ == "InsertIntoInterpreter"@,
    {
        "InsertIntoInterpreter"
    }

    pub fn set_source_pipe_builder(&mut self, has_source_pipe: bool)
        ensures
            *final(self) == (InsertInterpreterV2 { has_source_pipe, ..*old(self) }),
    {
        self.has_source_pipe = has_source_pipe;
    }

    /// Whether the columns of a query have to be cast: they are not exactly those of the table.
    pub fn check_schema_cast(&self, select_schema: &DataSchema) -> (r: Result<bool, ErrorCode>)
        ensures
            r is Ok <==> select_schema@.len() >= self.schema@.len(),
            r matches Ok(cast_needed) ==> cast_needed == (select_schema@ != self.schema@),
            r matches Err(e) ==> (e matches ErrorCode::BadArguments(m) && m@
                == "Fields in select statement is less than expected"@),
    {
        if select_schema.fields.len() < self.schema.fields.len() {
            return Err(ErrorCode::BadArguments("Fields in select statement is less than expected".to_owned()));
        }
        Ok(!select_schema.same(&self.schema))
    }

    /// What is done first for the insert. After that the rows are appended to the table and
    /// committed, unless the whole cluster does it.
    pub fn execute_new(&self, max_threads: u64, cluster_is_empty: bool) -> (r: Result<InsertAction, ErrorCode>)
        ensures
            match first_action(*self, max_threads, cluster_is_empty) {
                Some(action) => r == Ok::<InsertAction, ErrorCode>(action),
                None => r matches Err(ErrorCode::EmptyData(m)) && m@ == "empty source pipe builder"@,
            },
    {
        if self.async_insert {
            return self.use_source_pipe();
        }
        match &self.source {
            InsertInputSource::Values => Ok(InsertAction::ReadValues { readers: max_threads }),
            InsertInputSource::StreamingWithFormat => self.use_source_pipe(),
            InsertInputSource::SelectPlan(_) => if !cluster_is_empty {
                // distributed insert select
                Ok(InsertAction::ScheduleInsertSelect)
            } else {
                Ok(InsertAction::RunSelect)
            },
        }
    }

    /// How the columns of a query that was built for this node are cast; nothing where they are
    /// those of the table.
    pub fn select_casts(&self, select_schema: &DataSchema) -> (r: Result<Option<Vec<SchemaCast>>, ErrorCode>)
        ensures
            if select_schema@.len() < self.schema@.len() {
                r matches Err(ErrorCode::BadArguments(m)) && m@ == "Fields in select statement is less than expected"@
            } else if select_schema@ == self.schema@ {
                r == Ok::<Option<Vec<SchemaCast>>, ErrorCode>(None)
            } else {
                r matches Ok(Some(casts)) && cast_views(casts@) == casts_between(self.schema@, select_schema@)
            },
    {
        match self.check_schema_cast(select_schema) {
            Ok(cast_needed) => if cast_needed {
                Ok(Some(self.casts_from(select_schema)))
            } else {
                Ok(None)
            },
            Err(e) => Err(e),
        }
    }

    /// How a query that was built for the whole cluster inserts what each node finds.
    pub fn schedule_insert_select(&self, select_schema: &DataSchema, catalog: String) -> (r: Result<
        DistributedInsertSelect,
        ErrorCode,
    >)
        ensures
            if select_schema@.len() < self.schema@.len() {
                r matches Err(ErrorCode::BadArguments(m)) && m@ == "Fields in select statement is less than expected"@
            } else {
                r matches Ok(plan) && {
                    &&& plan.catalog == catalog
                    &&& plan.select_schema@ == select_schema@
                    &&& plan.insert_schema@ == self.schema@
                    &&& plan.cast_needed == (select_schema@ != self.schema@)
                    &&& plan.overwrite == self.overwrite
                }
            },
    {
        let cast_needed = match self.check_schema_cast(select_schema) {
            Ok(cast_needed) => cast_needed,
            Err(e) => return Err(e),
        };
        Ok(
            DistributedInsertSelect {
                catalog,
                select_schema: select_schema.clone(),
                insert_schema: self.schema.clone(),
                cast_needed,
                overwrite: self.overwrite,
            },
        )
    }

    fn use_source_pipe(&self) -> (r: Result<InsertAction, ErrorCode>)
        ensures
            self.has_source_pipe ==> r == Ok::<InsertAction, ErrorCode>(InsertAction::UseSourcePipe),
            !self.has_source_pipe ==> (r matches Err(ErrorCode::EmptyData(m)) && m@ == "empty source pipe builder"@),
    {
        if self.has_source_pipe {
            Ok(InsertAction::UseSourcePipe)
        } else {
            Err(ErrorCode::EmptyData("empty source pipe builder".to_owned()))
        }
    }

    fn casts_from(&self, query: &DataSchema) -> (r: Vec<SchemaCast>)
        requires
            self.schema@.len() <= query@.len(),
        ensures
            cast_views(r@) == casts_between(self.schema@, query@),
    {
        let mut r: Vec<SchemaCast> = Vec::new();
        let ghost expected = casts_between(self.schema@, query@);
        let mut i: usize = 0;
        while i < self.schema.fields.len()
            invariant
                i <= self.schema.fields.len(),
                self.schema@.len() <= query@.len(),
                expected == casts_between(self.schema@, query@),
                r@.len() == i,
                forall|j: int|
                    0 <= j < i ==> ((#[trigger] r@[j]).target_type@, r@[j].from_type@) == expected[j],
            decreases self.schema.fields.len() - i,
        {
            assert(self.schema@[i as int] == self.schema.fields@[i as int]@);
            assert(query@[i as int] == query.fields@[i as int]@);
            r.push(
                SchemaCast {
                    target_type: self.schema.fields[i].data_type.clone(),
                    from_type: query.fields[i].data_type.clone(),
                },
            );
            i += 1;
        }
        assert(cast_views(r@) =~= expected);
        r
    }
}

/// Where the rows of an insert come from: from the source pipe where the insert is asynchronous or
/// its rows are streamed, which has to be there; from the values that are written down, with as
/// many readers as there are threads; or from a query, which the whole cluster runs where there
/// is one.
pub proof fn where_the_rows_of_an_insert_come_from(insert: InsertInterpreterV2, max_threads: u64, cluster_is_empty: bool)
    ensures
        ({
            let first = first_action(insert, max_threads, cluster_is_empty);
            let piped = insert.async_insert || insert.source is StreamingWithFormat;
            &&& piped && insert.has_source_pipe ==> first == Some(InsertAction::UseSourcePipe)
            &&& first is None <==> piped && !insert.has_source_pipe
            &&& !piped && insert.source is Values ==> first == Some(InsertAction::ReadValues { readers: max_threads })
            &&& !piped && insert.source is SelectPlan && cluster_is_empty ==> first == Some(InsertAction::RunSelect)
            &&& !piped && insert.source is SelectPlan && !cluster_is_empty ==> first == Some(
                InsertAction::ScheduleInsertSelect,
            )
        }),
{
}

/// Each column of the table gets the column of the query at its place, cast from the type that it
/// has there to the type of the table.
pub proof fn columns_are_cast_place_by_place(table: Seq<FieldView>, query: Seq<FieldView>, casts: Seq<SchemaCast>, i: int)
    requires
        cast_views(casts) == casts_between(table, query),
        0 <= i < table.len(),
    ensures
        casts.len() == table.len(),
        casts[i].target_type@ == table[i].data_type,
        casts[i].from_type@ == query[i].data_type,
{
    assert(cast_views(casts).len() == casts.len());
    assert(cast_views(casts)[i] == casts_between(table, query)[i]);
}

}
