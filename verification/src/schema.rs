//! The normalized schema model: a database is an ordered list of tables,
//! each an ordered list of columns carrying nullability, key flags and the
//! foreign-key links in both directions.

use vstd::prelude::*;

verus! {

/// Engine variant of the relational database a schema was extracted from.
#[derive(Clone, Copy, PartialEq, Eq, Structural, Debug)]
pub enum DatabaseKind {
    Postgres,
    MySql,
    MariaDb,
    SqLite,
}

/// A named lookup key for a column elsewhere in the schema; it owns nothing
/// and is resolved against the schema when consumed.
#[derive(Debug, PartialEq)]
pub struct Reference {
    pub table: String,
    pub column: String,
}

/// Mathematical model of a [`Reference`].
pub struct ReferenceView {
    pub table: Seq<char>,
    pub column: Seq<char>,
}

impl DeepView for Reference {
    type V = ReferenceView;

    open spec fn deep_view(&self) -> ReferenceView {
        ReferenceView { table: self.table@, column: self.column@ }
    }
}

/// One column of a table. `references` is the single outgoing foreign-key
/// link, if any; `referenced_by` collects every incoming link and is derived
/// from the same global constraint scan, so the two stay consistent.
#[derive(Debug, PartialEq)]
pub struct Column {
    pub name: String,
    pub kind: String,
    pub is_primary_key: bool,
    pub optional: bool,
    pub referenced_by: Vec<Reference>,
    pub references: Option<Reference>,
}

/// Mathematical model of a [`Column`].
pub struct ColumnView {
    pub name: Seq<char>,
    pub kind: Seq<char>,
    pub is_primary_key: bool,
    pub optional: bool,
    pub referenced_by: Seq<ReferenceView>,
    pub references: Option<ReferenceView>,
}

impl DeepView for Column {
    type V = ColumnView;

    open spec fn deep_view(&self) -> ColumnView {
        ColumnView {
            name: self.name@,
            kind: self.kind@,
            is_primary_key: self.is_primary_key,
            optional: self.optional,
            referenced_by: self.referenced_by.deep_view(),
            references: self.references.deep_view(),
        }
    }
}

/// One table: its name and its columns in catalog ordinal order.
#[derive(Debug, PartialEq)]
pub struct Table {
    pub name: String,
    pub columns: Vec<Column>,
}

/// Mathematical model of a [`Table`].
pub struct TableView {
    pub name: Seq<char>,
    pub columns: Seq<ColumnView>,
}

impl DeepView for Table {
    type V = TableView;

    open spec fn deep_view(&self) -> TableView {
        TableView { name: self.name@, columns: self.columns.deep_view() }
    }
}

/// The root entity: one extracted database schema, immutable once built.
#[derive(Debug, PartialEq)]
pub struct Database {
    pub kind: DatabaseKind,
    pub name: String,
    pub tables: Vec<Table>,
}

/// Mathematical model of a [`Database`].
pub struct SchemaView {
    pub kind: DatabaseKind,
    pub name: Seq<char>,
    pub tables: Seq<TableView>,
}

impl DeepView for Database {
    type V = SchemaView;

    open spec fn deep_view(&self) -> SchemaView {
        SchemaView { kind: self.kind, name: self.name@, tables: self.tables.deep_view() }
    }
}

impl Clone for Reference {
    /// A structural copy.
    fn clone(&self) -> (r: Self)
        ensures
            r.deep_view() == self.deep_view(),
    {
        Reference { table: self.table.clone(), column: self.column.clone() }
    }
}

/// An element-wise copy of a reference list.
fn clone_references(v: &Vec<Reference>) -> (r: Vec<Reference>)
    ensures
        r.deep_view() == v.deep_view(),
{
    let mut out: Vec<Reference> = Vec::new();
    let mut i: usize = 0;
    while i < v.len()
        invariant
            i <= v.len(),
            out.deep_view() =~= v.deep_view().take(i as int),
        decreases v.len() - i,
    {
        let c = v[i].clone();
        let ghost pre = out.deep_view();
        out.push(c);
        proof {
            assert(out.deep_view() =~= pre.push(out@[i as int].deep_view()));
            assert(out.deep_view() =~= v.deep_view().take(i as int + 1));
        }
        i += 1;
    }
    proof {
        assert(out.deep_view() =~= v.deep_view());
    }
    out
}

impl Clone for Column {
    /// A structural copy, foreign-key links included.
    fn clone(&self) -> (r: Self)
        ensures
            r.deep_view() == self.deep_view(),
    {
        Column {
            name: self.name.clone(),
            kind: self.kind.clone(),
            is_primary_key: self.is_primary_key,
            optional: self.optional,
            referenced_by: clone_references(&self.referenced_by),
            references: match &self.references {
                Some(r) => Some(r.clone()),
                None => None,
            },
        }
    }
}

/// An element-wise copy of a column list.
fn clone_columns(v: &Vec<Column>) -> (r: Vec<Column>)
    ensures
        r.deep_view() == v.deep_view(),
{
    let mut out: Vec<Column> = Vec::new();
    let mut i: usize = 0;
    while i < v.len()
        invariant
            i <= v.len(),
            out.deep_view() =~= v.deep_view().take(i as int),
        decreases v.len() - i,
    {
        let c = v[i].clone();
        let ghost pre = out.deep_view();
        out.push(c);
        proof {
            assert(out.deep_view() =~= pre.push(out@[i as int].deep_view()));
            assert(out.deep_view() =~= v.deep_view().take(i as int + 1));
        }
        i += 1;
    }
    proof {
        assert(out.deep_view() =~= v.deep_view());
    }
    out
}

impl Clone for Table {
    /// A structural copy.
    fn clone(&self) -> (r: Self)
        ensures
            r.deep_view() == self.deep_view(),
    {
        Table { name: self.name.clone(), columns: clone_columns(&self.columns) }
    }
}

/// An element-wise copy of a table list.
fn clone_tables(v: &Vec<Table>) -> (r: Vec<Table>)
    ensures
        r.deep_view() == v.deep_view(),
{
    let mut out: Vec<Table> = Vec::new();
    let mut i: usize = 0;
    while i < v.len()
        invariant
            i <= v.len(),
            out.deep_view() =~= v.deep_view().take(i as int),
        decreases v.len() - i,
    {
        let c = v[i].clone();
        let ghost pre = out.deep_view();
        out.push(c);
        proof {
            assert(out.deep_view() =~= pre.push(out@[i as int].deep_view()));
            assert(out.deep_view() =~= v.deep_view().take(i as int + 1));
        }
        i += 1;
    }
    proof {
        assert(out.deep_view() =~= v.deep_view());
    }
    out
}

impl Clone for Database {
    /// A structural copy; the original stays untouched, so a snapshot can be
    /// projected per template without mutating the stored schema.
    fn clone(&self) -> (r: Self)
        ensures
            r.deep_view() == self.deep_view(),
    {
        Database { kind: self.kind, name: self.name.clone(), tables: clone_tables(&self.tables) }
    }
}

/// Table names are pairwise distinct.
pub open spec fn distinct_table_names(ts: Seq<TableView>) -> bool {
    forall|i: int, j: int| 0 <= i < j < ts.len() ==> ts[i].name != ts[j].name
}

/// Column names are pairwise distinct.
pub open spec fn distinct_column_names(cs: Seq<ColumnView>) -> bool {
    forall|i: int, j: int| 0 <= i < j < cs.len() ==> cs[i].name != cs[j].name
}

/// Well-formedness of a schema: table names unique within the schema and
/// column names unique within each table.
pub open spec fn schema_wf(s: SchemaView) -> bool {
    &&& distinct_table_names(s.tables)
    &&& forall|i: int| 0 <= i < s.tables.len() ==> distinct_column_names(#[trigger] s.tables[i].columns)
}

/// The first table with the given name, if any.
pub open spec fn find_table(ts: Seq<TableView>, name: Seq<char>) -> Option<TableView>
    decreases ts.len(),
{
    if ts.len() == 0 {
        None
    } else if ts[0].name == name {
        Some(ts[0])
    } else {
        find_table(ts.skip(1), name)
    }
}

/// The first column with the given name, if any.
pub open spec fn find_column(cs: Seq<ColumnView>, name: Seq<char>) -> Option<ColumnView>
    decreases cs.len(),
{
    if cs.len() == 0 {
        None
    } else if cs[0].name == name {
        Some(cs[0])
    } else {
        find_column(cs.skip(1), name)
    }
}

/// The column reached by the lookup key (`table`, `column`), if any.
pub open spec fn lookup_column(s: SchemaView, table: Seq<char>, column: Seq<char>) -> Option<
    ColumnView,
> {
    match find_table(s.tables, table) {
        Some(t) => find_column(t.columns, column),
        None => None,
    }
}

/// Both directions of the foreign-key graph agree: every outgoing link is
/// mirrored by an incoming entry on its target column, and every incoming
/// entry is mirrored by the outgoing link of its source column.
pub open spec fn ref_symmetric(s: SchemaView) -> bool {
    &&& forall|ti: int, ci: int|
        0 <= ti < s.tables.len() && 0 <= ci < s.tables[ti].columns.len()
            ==> (#[trigger] s.tables[ti].columns[ci].references matches Some(r) ==> {
            &&& lookup_column(s, r.table, r.column) matches Some(target)
            &&& lookup_column(s, r.table, r.column)->Some_0.referenced_by.contains(
                ReferenceView { table: s.tables[ti].name, column: s.tables[ti].columns[ci].name },
            )
        })
    &&& forall|ti: int, ci: int, k: int|
        0 <= ti < s.tables.len() && 0 <= ci < s.tables[ti].columns.len() && 0 <= k
            < s.tables[ti].columns[ci].referenced_by.len() ==> {
            let e = #[trigger] s.tables[ti].columns[ci].referenced_by[k];
            &&& lookup_column(s, e.table, e.column) matches Some(source)
            &&& lookup_column(s, e.table, e.column)->Some_0.references == Some(
                ReferenceView { table: s.tables[ti].name, column: s.tables[ti].columns[ci].name },
            )
        }
}

} // verus!
