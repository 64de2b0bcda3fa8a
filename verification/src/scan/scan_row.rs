//! The rows that a scan hands out: the adds of a batch, reshaped.
//!
//! Every row of a batch is reshaped, whether it is selected or not: whoever
//! reads the scan rows has to go by the selection vector that comes with them.

use crate::engine_data::{ActionBatch, BatchView, Column, ColumnView};
use crate::error::{DeltaResult, Error};
use crate::expressions::{ExprView, Expression};
use crate::schema::{
    ColumnName, DataType, DataTypeView, MapType, PrimitiveType, StructField, StructFieldView,
    StructType,
};
use crate::utils::first_error;
use vstd::prelude::*;

verus! {

pub open spec fn string_type() -> DataTypeView {
    DataTypeView::Primitive(PrimitiveType::String)
}

pub open spec fn integer_type() -> DataTypeView {
    DataTypeView::Primitive(PrimitiveType::Integer)
}

pub open spec fn long_type() -> DataTypeView {
    DataTypeView::Primitive(PrimitiveType::Long)
}

/// The type of a map from strings to strings whose values may be null.
pub open spec fn string_map_type() -> DataTypeView {
    DataTypeView::MapOf(
        MapType {
            key_type: PrimitiveType::String,
            value_type: PrimitiveType::String,
            value_contains_null: true,
        },
    )
}

/// A field that may be null and is stored under its own name.
pub open spec fn nullable_field(name: Seq<char>, data_type: DataTypeView) -> StructFieldView {
    StructFieldView { name, data_type, nullable: true, physical_name: None }
}

/// The schema of a scan row. The positions of the fields are part of the
/// interface: readers of scan rows go by them.
///
/// ```text
/// path: string
/// size: long
/// modificationTime: long
/// stats: string
/// deletionVector: struct {
///     storageType: string, pathOrInlineDv: string, offset: integer,
///     sizeInBytes: integer, cardinality: long }
/// fileConstantValues: struct { partitionValues: map<string, string> }
/// ```
///
/// Every field is nullable, as a field taken out of a nullable struct is.
pub open spec fn scan_row_schema_spec() -> Seq<StructFieldView> {
    seq![
        nullable_field("path"@, string_type()),
        nullable_field("size"@, long_type()),
        nullable_field("modificationTime"@, long_type()),
        nullable_field("stats"@, string_type()),
        nullable_field(
            "deletionVector"@,
            DataTypeView::Struct(
                seq![
                    nullable_field("storageType"@, string_type()),
                    nullable_field("pathOrInlineDv"@, string_type()),
                    nullable_field("offset"@, integer_type()),
                    nullable_field("sizeInBytes"@, integer_type()),
                    nullable_field("cardinality"@, long_type()),
                ],
            ),
        ),
        nullable_field(
            "fileConstantValues"@,
            DataTypeView::Struct(seq![nullable_field("partitionValues"@, string_map_type())]),
        ),
    ]
}

fn nullable(name: &str, data_type: DataType) -> (r: StructField)
    ensures
        r@ == nullable_field(name@, data_type@),
{
    StructField::nullable(name.to_owned(), data_type)
}

fn struct_of(fields: Vec<StructField>) -> (r: DataType)
    ensures
        r@ == DataTypeView::Struct(fields@.map_values(|f: StructField| f@)),
{
    let inner = StructType::new(fields);
    let r = DataType::Struct(Box::new(inner));
    assert(r@ == DataTypeView::Struct(inner@));
    r
}

/// The schema of a scan row.
pub fn scan_row_schema() -> (r: StructType)
    ensures
        r@ == scan_row_schema_spec(),
{
    let string_map = MapType::new(PrimitiveType::String, PrimitiveType::String, true);
    let mut file_constant_values: Vec<StructField> = Vec::new();
    file_constant_values.push(nullable("partitionValues", DataType::MapOf(string_map)));
    let mut deletion_vector: Vec<StructField> = Vec::new();
    deletion_vector.push(nullable("storageType", DataType::Primitive(PrimitiveType::String)));
    deletion_vector.push(nullable("pathOrInlineDv", DataType::Primitive(PrimitiveType::String)));
    deletion_vector.push(nullable("offset", DataType::Primitive(PrimitiveType::Integer)));
    deletion_vector.push(nullable("sizeInBytes", DataType::Primitive(PrimitiveType::Integer)));
    deletion_vector.push(nullable("cardinality", DataType::Primitive(PrimitiveType::Long)));
    let ghost dv = deletion_vector@.map_values(|f: StructField| f@);
    let ghost fcv = file_constant_values@.map_values(|f: StructField| f@);
    assert(dv =~= scan_row_schema_spec()[4].data_type->Struct_0);
    assert(fcv =~= scan_row_schema_spec()[5].data_type->Struct_0);
    let mut fields: Vec<StructField> = Vec::new();
    fields.push(nullable("path", DataType::Primitive(PrimitiveType::String)));
    fields.push(nullable("size", DataType::Primitive(PrimitiveType::Long)));
    fields.push(nullable("modificationTime", DataType::Primitive(PrimitiveType::Long)));
    fields.push(nullable("stats", DataType::Primitive(PrimitiveType::String)));
    fields.push(nullable("deletionVector", struct_of(deletion_vector)));
    fields.push(nullable("fileConstantValues", struct_of(file_constant_values)));
    let r = StructType::new(fields);
    assert(r@ =~= scan_row_schema_spec());
    r
}

pub open spec fn column_of(path: Seq<Seq<char>>) -> ExprView {
    ExprView::Column(path)
}

/// The expression that reshapes the columns of an add into a scan row:
/// `Struct(add.path, add.size, add.modificationTime, add.stats,
/// add.deletionVector, Struct(add.partitionValues))`.
pub open spec fn add_transform_spec() -> ExprView {
    ExprView::Struct(
        seq![
            column_of(seq!["add"@, "path"@]),
            column_of(seq!["add"@, "size"@]),
            column_of(seq!["add"@, "modificationTime"@]),
            column_of(seq!["add"@, "stats"@]),
            column_of(seq!["add"@, "deletionVector"@]),
            ExprView::Struct(seq![column_of(seq!["add"@, "partitionValues"@])]),
        ],
    )
}

fn column_expr(a: &str, b: &str) -> (r: Expression)
    ensures
        r@ == column_of(seq![a@, b@]),
{
    Expression::Column(ColumnName::of2(a, b))
}

/// The expression that reshapes the columns of an add into a scan row.
pub fn get_add_transform_expr() -> (r: Expression)
    ensures
        r@ == add_transform_spec(),
{
    let mut inner: Vec<Expression> = Vec::new();
    inner.push(column_expr("add", "partitionValues"));
    let file_constant_values = Expression::Struct(inner);
    assert(file_constant_values@->Struct_0 =~= seq![column_of(seq!["add"@, "partitionValues"@])]);
    let mut fields: Vec<Expression> = Vec::new();
    fields.push(column_expr("add", "path"));
    fields.push(column_expr("add", "size"));
    fields.push(column_expr("add", "modificationTime"));
    fields.push(column_expr("add", "stats"));
    fields.push(column_expr("add", "deletionVector"));
    fields.push(file_constant_values);
    let r = Expression::Struct(fields);
    assert(r@->Struct_0 =~= add_transform_spec()->Struct_0);
    r
}

/// The kind of values that a column of a scan row holds.
#[derive(Clone, Copy, Debug, PartialEq, Eq, Structural)]
pub enum ColumnKind {
    Str,
    Int,
    Long,
    StrMap,
}

/// A column of a scan row: where it comes from in the batch, what it is
/// called in the scan row, and what it holds.
pub struct ScanRowColumn {
    pub source: Seq<Seq<char>>,
    pub name: Seq<Seq<char>>,
    pub kind: ColumnKind,
}

/// The columns of a scan row: the leaves of its schema, in order, each with
/// the column of the add that it is taken from.
pub open spec fn scan_row_columns() -> Seq<ScanRowColumn> {
    seq![
        ScanRowColumn {
            source: seq!["add"@, "path"@],
            name: seq!["path"@],
            kind: ColumnKind::Str,
        },
        ScanRowColumn {
            source: seq!["add"@, "size"@],
            name: seq!["size"@],
            kind: ColumnKind::Long,
        },
        ScanRowColumn {
            source: seq!["add"@, "modificationTime"@],
            name: seq!["modificationTime"@],
            kind: ColumnKind::Long,
        },
        ScanRowColumn {
            source: seq!["add"@, "stats"@],
            name: seq!["stats"@],
            kind: ColumnKind::Str,
        },
        ScanRowColumn {
            source: seq!["add"@, "deletionVector"@, "storageType"@],
            name: seq!["deletionVector"@, "storageType"@],
            kind: ColumnKind::Str,
        },
        ScanRowColumn {
            source: seq!["add"@, "deletionVector"@, "pathOrInlineDv"@],
            name: seq!["deletionVector"@, "pathOrInlineDv"@],
            kind: ColumnKind::Str,
        },
        ScanRowColumn {
            source: seq!["add"@, "deletionVector"@, "offset"@],
            name: seq!["deletionVector"@, "offset"@],
            kind: ColumnKind::Int,
        },
        ScanRowColumn {
            source: seq!["add"@, "deletionVector"@, "sizeInBytes"@],
            name: seq!["deletionVector"@, "sizeInBytes"@],
            kind: ColumnKind::Int,
        },
        ScanRowColumn {
            source: seq!["add"@, "deletionVector"@, "cardinality"@],
            name: seq!["deletionVector"@, "cardinality"@],
            kind: ColumnKind::Long,
        },
        ScanRowColumn {
            source: seq!["add"@, "partitionValues"@],
            name: seq!["fileConstantValues"@, "partitionValues"@],
            kind: ColumnKind::StrMap,
        },
    ]
}

/// The kind of values that a column of the type `t` holds, for the types
/// that a column of a scan row can have.
pub open spec fn kind_for(t: DataTypeView) -> Option<ColumnKind> {
    match t {
        DataTypeView::Primitive(PrimitiveType::String) => Some(ColumnKind::Str),
        DataTypeView::Primitive(PrimitiveType::Integer) => Some(ColumnKind::Int),
        DataTypeView::Primitive(PrimitiveType::Long) => Some(ColumnKind::Long),
        DataTypeView::MapOf(m) => if t == string_map_type() {
            Some(ColumnKind::StrMap)
        } else {
            None
        },
        _ => None,
    }
}

/// The columns that make up the value of the expression `e` as a value of
/// the type `t` called `name`. A column of a struct type is made up of the
/// columns of its fields, and a struct expression of the columns of its
/// parts, each taken as the field at its position.
pub open spec fn leaves_of(e: ExprView, name: Seq<Seq<char>>, t: DataTypeView) -> Seq<
    ScanRowColumn,
>
    decreases t, 1nat, 0nat,
{
    match t {
        DataTypeView::Struct(fields) => match e {
            ExprView::Column(c) => leaves_of_column(c, name, fields, fields.len()),
            ExprView::Struct(es) => leaves_of_struct(es, name, fields, fields.len()),
            _ => Seq::empty(),
        },
        _ => match (e, kind_for(t)) {
            (ExprView::Column(c), Some(kind)) => seq![ScanRowColumn { source: c, name, kind }],
            _ => Seq::empty(),
        },
    }
}

/// The columns that make up the first `n` fields of the struct column `c`.
pub open spec fn leaves_of_column(
    c: Seq<Seq<char>>,
    name: Seq<Seq<char>>,
    fields: Seq<StructFieldView>,
    n: nat,
) -> Seq<ScanRowColumn>
    decreases fields, 0nat, n,
{
    if n == 0 || n > fields.len() {
        Seq::empty()
    } else {
        let field = fields[n - 1];
        leaves_of_column(c, name, fields, (n - 1) as nat) + leaves_of(
            ExprView::Column(c.push(field.name)),
            name.push(field.name),
            field.data_type,
        )
    }
}

/// The columns that make up the first `n` parts of a struct expression.
pub open spec fn leaves_of_struct(
    es: Seq<ExprView>,
    name: Seq<Seq<char>>,
    fields: Seq<StructFieldView>,
    n: nat,
) -> Seq<ScanRowColumn>
    decreases fields, 0nat, n,
{
    if n == 0 || n > fields.len() || n > es.len() {
        Seq::empty()
    } else {
        let field = fields[n - 1];
        leaves_of_struct(es, name, fields, (n - 1) as nat) + leaves_of(
            es[n - 1],
            name.push(field.name),
            field.data_type,
        )
    }
}

/// The columns of a scan row are what the expression that reshapes an add
/// yields under the schema of a scan row.
pub proof fn lemma_scan_row_columns_follow_schema()
    ensures
        leaves_of(
            add_transform_spec(),
            Seq::empty(),
            DataTypeView::Struct(scan_row_schema_spec()),
        ) == scan_row_columns(),
{
    reveal_with_fuel(leaves_of, 4);
    reveal_with_fuel(leaves_of_column, 8);
    reveal_with_fuel(leaves_of_struct, 8);
    let schema = scan_row_schema_spec();
    let es = add_transform_spec()->Struct_0;
    let top = Seq::<Seq<char>>::empty();
    let table = scan_row_columns();
    let dv_fields = schema[4].data_type->Struct_0;
    let dv_name = top.push("deletionVector"@);
    let dv_source = seq!["add"@, "deletionVector"@];
    assert(dv_name =~= seq!["deletionVector"@]);
    assert forall|k: int| 0 <= k < 5 implies #[trigger] dv_source.push(dv_fields[k].name)
        == table[4 + k].source && dv_name.push(dv_fields[k].name) == table[4 + k].name by {
        assert(dv_source.push(dv_fields[k].name) =~= table[4 + k].source);
        assert(dv_name.push(dv_fields[k].name) =~= table[4 + k].name);
    }
    let dv = leaves_of_column(dv_source, dv_name, dv_fields, 5);
    assert(dv =~= table.subrange(4, 9));
    let fcv_fields = schema[5].data_type->Struct_0;
    let fcv_name = top.push("fileConstantValues"@);
    assert(fcv_name.push(fcv_fields[0].name) =~= table[9].name);
    let fcv = leaves_of_struct(es[5]->Struct_0, fcv_name, fcv_fields, 1);
    assert(fcv =~= table.subrange(9, 10));
    assert forall|k: int| 0 <= k < 4 implies #[trigger] top.push(schema[k].name)
        == table[k].name by {
        assert(top.push(schema[k].name) =~= table[k].name);
    }
    let head = leaves_of_struct(es, top, schema, 4);
    assert(head =~= table.subrange(0, 4));
    assert(leaves_of_struct(es, top, schema, 6) =~= table);
}

pub open spec fn kind_of(c: ColumnView) -> ColumnKind {
    match c {
        ColumnView::Str(_) => ColumnKind::Str,
        ColumnView::Int(_) => ColumnKind::Int,
        ColumnView::Long(_) => ColumnKind::Long,
        ColumnView::StrMap(_) => ColumnKind::StrMap,
    }
}

/// The column of the batch that scan row column `k` is taken from. It is a
/// failure if the batch lacks the column, or holds values of another kind in
/// it.
pub open spec fn scan_row_source(batch: BatchView, k: int) -> Result<ColumnView, Error> {
    let wanted = scan_row_columns()[k];
    if !batch.has_column(wanted.source) {
        Err(Error::MissingColumn(k as usize))
    } else if kind_of(batch.column(wanted.source)) != wanted.kind {
        Err(Error::UnexpectedColumnType)
    } else {
        Ok(batch.column(wanted.source))
    }
}

pub open spec fn scan_row_sources(batch: BatchView) -> Seq<Result<ColumnView, Error>> {
    Seq::new(scan_row_columns().len(), |k: int| scan_row_source(batch, k))
}

/// The scan rows of a batch: for every row of the batch the columns of a
/// scan row. The first column that cannot be taken fails the whole.
pub open spec fn scan_rows_spec(batch: BatchView) -> Result<BatchView, Error> {
    match first_error(scan_row_sources(batch)) {
        Some(e) => Err(e),
        None => Ok(
            BatchView {
                num_rows: batch.num_rows,
                names: Seq::new(scan_row_columns().len(), |k: int| scan_row_columns()[k].name),
                columns: Seq::new(
                    scan_row_columns().len(),
                    |k: int| scan_row_source(batch, k)->Ok_0,
                ),
            },
        ),
    }
}

fn kind(column: &Column) -> (r: ColumnKind)
    ensures
        r == kind_of(column@),
{
    match column {
        Column::Str(_) => ColumnKind::Str,
        Column::Int(_) => ColumnKind::Int,
        Column::Long(_) => ColumnKind::Long,
        Column::StrMap(_) => ColumnKind::StrMap,
    }
}

/// The columns of a scan row, as the table that the projection walks.
fn scan_row_table() -> (r: Vec<(ColumnName, ColumnName, ColumnKind)>)
    ensures
        r@.len() == scan_row_columns().len(),
        forall|k: int|
            0 <= k < r@.len() ==> (#[trigger] r@[k]).0@ == scan_row_columns()[k].source && r@[k].1@
                == scan_row_columns()[k].name && r@[k].2 == scan_row_columns()[k].kind,
{
    let mut t: Vec<(ColumnName, ColumnName, ColumnKind)> = Vec::new();
    t.push((ColumnName::of2("add", "path"), ColumnName::of1("path"), ColumnKind::Str));
    t.push((ColumnName::of2("add", "size"), ColumnName::of1("size"), ColumnKind::Long));
    t.push(
        (
            ColumnName::of2("add", "modificationTime"),
            ColumnName::of1("modificationTime"),
            ColumnKind::Long,
        ),
    );
    t.push((ColumnName::of2("add", "stats"), ColumnName::of1("stats"), ColumnKind::Str));
    t.push(
        (
            ColumnName::of3("add", "deletionVector", "storageType"),
            ColumnName::of2("deletionVector", "storageType"),
            ColumnKind::Str,
        ),
    );
    t.push(
        (
            ColumnName::of3("add", "deletionVector", "pathOrInlineDv"),
            ColumnName::of2("deletionVector", "pathOrInlineDv"),
            ColumnKind::Str,
        ),
    );
    t.push(
        (
            ColumnName::of3("add", "deletionVector", "offset"),
            ColumnName::of2("deletionVector", "offset"),
            ColumnKind::Int,
        ),
    );
    t.push(
        (
            ColumnName::of3("add", "deletionVector", "sizeInBytes"),
            ColumnName::of2("deletionVector", "sizeInBytes"),
            ColumnKind::Int,
        ),
    );
    t.push(
        (
            ColumnName::of3("add", "deletionVector", "cardinality"),
            ColumnName::of2("deletionVector", "cardinality"),
            ColumnKind::Long,
        ),
    );
    t.push(
        (
            ColumnName::of2("add", "partitionValues"),
            ColumnName::of2("fileConstantValues", "partitionValues"),
            ColumnKind::StrMap,
        ),
    );
    t
}

/// Reshapes every row of a batch into a scan row.
pub fn scan_rows(actions: &ActionBatch) -> (r: DeltaResult<ActionBatch>)
    ensures
        match scan_rows_spec(actions@) {
            Ok(rows) => r matches Ok(found) && found@ == rows,
            Err(e) => r matches Err(x) && x == e,
        },
{
    let table = scan_row_table();
    let ghost sources = scan_row_sources(actions@);
    let mut rows = ActionBatch::new(actions.len());
    let mut k: usize = 0;
    assert(sources.take(0) =~= Seq::<Result<ColumnView, Error>>::empty());
    while k < table.len()
        invariant
            k <= table.len(),
            table@.len() == scan_row_columns().len(),
            forall|j: int|
                0 <= j < table@.len() ==> (#[trigger] table@[j]).0@ == scan_row_columns()[j].source
                    && table@[j].1@ == scan_row_columns()[j].name && table@[j].2
                    == scan_row_columns()[j].kind,
            sources == scan_row_sources(actions@),
            first_error(sources.take(k as int)) is None,
            rows@.num_rows == actions@.num_rows,
            rows@.names.len() == k,
            rows@.columns.len() == k,
            forall|j: int| 0 <= j < k ==> #[trigger] rows@.names[j] == scan_row_columns()[j].name,
            forall|j: int|
                0 <= j < k ==> sources[j] == Ok::<ColumnView, Error>(#[trigger] rows@.columns[j]),
        decreases table.len() - k,
    {
        proof {
            assert(sources.take(k + 1) =~= sources.take(k as int).push(sources[k as int]));
            crate::utils::lemma_first_error_push(sources.take(k as int), sources[k as int]);
            assert(sources[k as int] == scan_row_source(actions@, k as int));
        }
        let column: &Column = match actions.column(&table[k].0) {
            Some(c) => c,
            None => {
                proof {
                    lemma_first_error_prefix(sources, k + 1);
                }
                return Err(Error::MissingColumn(k));
            },
        };
        if kind(column) != table[k].2 {
            proof {
                lemma_first_error_prefix(sources, k + 1);
            }
            return Err(Error::UnexpectedColumnType);
        }
        let name = table[k].1.clone();
        // Every column of a batch has as many rows as the batch, so the
        // column fits.
        rows = rows.with_column(name, column.clone()).unwrap();
        k += 1;
    }
    proof {
        assert(sources.len() == scan_row_columns().len());
        assert(k == sources.len());
        assert(sources.take(k as int) =~= sources);
        assert(first_error(sources) is None);
        let want = scan_rows_spec(actions@)->Ok_0;
        assert(want.names.len() == k);
        assert forall|j: int| 0 <= j < k implies rows@.names[j] == want.names[j] by {}
        assert forall|j: int| 0 <= j < k implies rows@.columns[j] == want.columns[j] by {
            assert(sources[j] == scan_row_source(actions@, j));
        }
        assert(rows@.names =~= want.names);
        assert(rows@.columns =~= want.columns);
    }
    Ok(rows)
}

/// A failure in a prefix of a list is the first failure of the list.
proof fn lemma_first_error_prefix<T>(items: Seq<Result<T, Error>>, n: int)
    requires
        0 <= n <= items.len(),
        first_error(items.take(n)) is Some,
    ensures
        first_error(items) == first_error(items.take(n)),
    decreases n,
{
    if n > 0 {
        assert(items.take(n)[0] == items[0]);
        match items[0] {
            Err(_) => {},
            Ok(_) => {
                assert(items.take(n).drop_first() =~= items.drop_first().take(n - 1));
                lemma_first_error_prefix(items.drop_first(), n - 1);
            },
        }
    }
}

} // verus!
