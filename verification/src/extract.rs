//! The schema extractor: engine dialect dispatch, exclusion filtering,
//! column grouping, and the single global foreign-key scan from which both
//! directions of the reference graph are derived.

use vstd::prelude::*;

use crate::error::ExtractionError;
use crate::schema::{
    Column, ColumnView, Database, DatabaseKind, Reference, ReferenceView, SchemaView, Table,
    TableView,
};
use crate::text::contains_string;

verus! {

/// One row of the catalog's base-table listing.
#[derive(Debug, PartialEq)]
pub struct TableRow {
    pub name: String,
}

impl DeepView for TableRow {
    type V = Seq<char>;

    open spec fn deep_view(&self) -> Seq<char> {
        self.name@
    }
}

/// One row of the catalog's column listing, tagged with its table. Rows are
/// expected in (table, ordinal position) order; grouping goes by the table
/// tag, so stray ordering cannot mix tables up.
#[derive(Debug, PartialEq)]
pub struct ColumnRow {
    pub table: String,
    pub name: String,
    pub kind: String,
    pub is_primary_key: bool,
    pub optional: bool,
}

/// Mathematical model of a [`ColumnRow`].
pub struct ColumnRowView {
    pub table: Seq<char>,
    pub name: Seq<char>,
    pub kind: Seq<char>,
    pub is_primary_key: bool,
    pub optional: bool,
}

impl DeepView for ColumnRow {
    type V = ColumnRowView;

    open spec fn deep_view(&self) -> ColumnRowView {
        ColumnRowView {
            table: self.table@,
            name: self.name@,
            kind: self.kind@,
            is_primary_key: self.is_primary_key,
            optional: self.optional,
        }
    }
}

impl Clone for ColumnRow {
    /// A structural copy.
    fn clone(&self) -> (r: Self)
        ensures
            r.deep_view() == self.deep_view(),
    {
        ColumnRow {
            table: self.table.clone(),
            name: self.name.clone(),
            kind: self.kind.clone(),
            is_primary_key: self.is_primary_key,
            optional: self.optional,
        }
    }
}

/// One foreign-key constraint pair from the global scan: the source column
/// and the column it points at.
#[derive(Debug, PartialEq)]
pub struct ForeignKeyRow {
    pub table: String,
    pub column: String,
    pub target_table: String,
    pub target_column: String,
}

/// Mathematical model of a [`ForeignKeyRow`].
pub struct ForeignKeyRowView {
    pub table: Seq<char>,
    pub column: Seq<char>,
    pub target_table: Seq<char>,
    pub target_column: Seq<char>,
}

impl DeepView for ForeignKeyRow {
    type V = ForeignKeyRowView;

    open spec fn deep_view(&self) -> ForeignKeyRowView {
        ForeignKeyRowView {
            table: self.table@,
            column: self.column@,
            target_table: self.target_table@,
            target_column: self.target_column@,
        }
    }
}

impl Clone for ForeignKeyRow {
    /// A structural copy.
    fn clone(&self) -> (r: Self)
        ensures
            r.deep_view() == self.deep_view(),
    {
        ForeignKeyRow {
            table: self.table.clone(),
            column: self.column.clone(),
            target_table: self.target_table.clone(),
            target_column: self.target_column.clone(),
        }
    }
}

/// The table names that survive the exclusion list, in catalog order.
pub open spec fn kept_tables(tables: Seq<Seq<char>>, exclude: Seq<Seq<char>>) -> Seq<Seq<char>>
    decreases tables.len(),
{
    if tables.len() == 0 {
        Seq::empty()
    } else {
        let pre = kept_tables(tables.drop_last(), exclude);
        if exclude.contains(tables.last()) {
            pre
        } else {
            pre.push(tables.last())
        }
    }
}

/// The column rows of one table, in row order.
pub open spec fn table_columns(columns: Seq<ColumnRowView>, table: Seq<char>) -> Seq<ColumnRowView>
    decreases columns.len(),
{
    if columns.len() == 0 {
        Seq::empty()
    } else {
        let pre = table_columns(columns.drop_last(), table);
        if columns.last().table == table {
            pre.push(columns.last())
        } else {
            pre
        }
    }
}

/// Whether the kept part of the catalog holds a column (`t`, `c`).
pub open spec fn has_column(
    kept: Seq<Seq<char>>,
    columns: Seq<ColumnRowView>,
    t: Seq<char>,
    c: Seq<char>,
) -> bool {
    kept.contains(t) && exists|k: int|
        0 <= k < columns.len() && (#[trigger] columns[k]).table == t && columns[k].name == c
}

/// Whether some link in `links` has source column (`t`, `c`).
pub open spec fn has_source(links: Seq<ForeignKeyRowView>, t: Seq<char>, c: Seq<char>) -> bool {
    exists|k: int|
        0 <= k < links.len() && (#[trigger] links[k]).table == t && links[k].column == c
}

/// Whether both endpoints of a constraint pair exist in the kept schema.
pub open spec fn link_ok(
    f: ForeignKeyRowView,
    kept: Seq<Seq<char>>,
    columns: Seq<ColumnRowView>,
) -> bool {
    has_column(kept, columns, f.table, f.column) && has_column(
        kept,
        columns,
        f.target_table,
        f.target_column,
    )
}

/// The normalized link relation both directions are derived from: constraint
/// pairs whose endpoints both exist, keeping only the first pair for each
/// source column. Deriving forward and backward views from this one relation
/// makes the reference graph symmetric by construction.
pub open spec fn chosen_links(
    fks: Seq<ForeignKeyRowView>,
    kept: Seq<Seq<char>>,
    columns: Seq<ColumnRowView>,
) -> Seq<ForeignKeyRowView>
    decreases fks.len(),
{
    if fks.len() == 0 {
        Seq::empty()
    } else {
        let pre = chosen_links(fks.drop_last(), kept, columns);
        let l = fks.last();
        if link_ok(l, kept, columns) && !has_source(pre, l.table, l.column) {
            pre.push(l)
        } else {
            pre
        }
    }
}

/// The single outgoing link of column (`t`, `c`): the target of the first
/// link whose source it is, if any.
pub open spec fn ref_of(links: Seq<ForeignKeyRowView>, t: Seq<char>, c: Seq<char>) -> Option<
    ReferenceView,
>
    decreases links.len(),
{
    if links.len() == 0 {
        None
    } else if links[0].table == t && links[0].column == c {
        Some(ReferenceView { table: links[0].target_table, column: links[0].target_column })
    } else {
        ref_of(links.skip(1), t, c)
    }
}

/// Every incoming link of column (`t`, `c`), in scan order.
pub open spec fn referenced_by_of(
    links: Seq<ForeignKeyRowView>,
    t: Seq<char>,
    c: Seq<char>,
) -> Seq<ReferenceView>
    decreases links.len(),
{
    if links.len() == 0 {
        Seq::empty()
    } else {
        let pre = referenced_by_of(links.drop_last(), t, c);
        let l = links.last();
        if l.target_table == t && l.target_column == c {
            pre.push(ReferenceView { table: l.table, column: l.column })
        } else {
            pre
        }
    }
}

/// One assembled column: the row's own attributes plus both directions of
/// the link relation at its coordinates.
pub open spec fn built_column(
    row: ColumnRowView,
    links: Seq<ForeignKeyRowView>,
) -> ColumnView {
    ColumnView {
        name: row.name,
        kind: row.kind,
        is_primary_key: row.is_primary_key,
        optional: row.optional,
        referenced_by: referenced_by_of(links, row.table, row.name),
        references: ref_of(links, row.table, row.name),
    }
}

/// The columns of one assembled table.
pub open spec fn built_columns(
    rows: Seq<ColumnRowView>,
    links: Seq<ForeignKeyRowView>,
) -> Seq<ColumnView> {
    Seq::new(rows.len(), |i: int| built_column(rows[i], links))
}

/// One assembled table.
pub open spec fn built_table(
    name: Seq<char>,
    columns: Seq<ColumnRowView>,
    links: Seq<ForeignKeyRowView>,
) -> TableView {
    TableView { name, columns: built_columns(table_columns(columns, name), links) }
}

/// The schema assembled from raw catalog rows: excluded tables dropped,
/// columns grouped by table, and the reference graph derived from the
/// normalized link relation.
pub open spec fn spec_extract(
    kind: DatabaseKind,
    name: Seq<char>,
    tables: Seq<Seq<char>>,
    columns: Seq<ColumnRowView>,
    fks: Seq<ForeignKeyRowView>,
    exclude: Seq<Seq<char>>,
) -> SchemaView {
    let kept = kept_tables(tables, exclude);
    let links = chosen_links(fks, kept, columns);
    SchemaView {
        kind,
        name,
        tables: Seq::new(kept.len(), |i: int| built_table(kept[i], columns, links)),
    }
}

/// Whether the kept part of the catalog holds the column, decided by scan.
fn has_column_exec(kept: &Vec<String>, columns: &Vec<ColumnRow>, t: &String, c: &String) -> (r:
    bool)
    ensures
        r == has_column(kept.deep_view(), columns.deep_view(), t@, c@),
{
    if !contains_string(kept, t) {
        return false;
    }
    let mut k: usize = 0;
    while k < columns.len()
        invariant
            k <= columns.len(),
            kept.deep_view().contains(t@),
            forall|j: int|
                0 <= j < k ==> !((#[trigger] columns.deep_view()[j]).table == t@
                    && columns.deep_view()[j].name == c@),
        decreases columns.len() - k,
    {
        if columns[k].table == *t && columns[k].name == *c {
            proof {
                assert((columns.deep_view()[k as int]).table == t@ && columns.deep_view()[
                    k as int].name == c@);
            }
            return true;
        }
        k += 1;
    }
    false
}

/// Whether some already chosen link has the given source column.
fn has_source_exec(links: &Vec<ForeignKeyRow>, t: &String, c: &String) -> (r: bool)
    ensures
        r == has_source(links.deep_view(), t@, c@),
{
    let mut k: usize = 0;
    while k < links.len()
        invariant
            k <= links.len(),
            forall|j: int|
                0 <= j < k ==> !((#[trigger] links.deep_view()[j]).table == t@
                    && links.deep_view()[j].column == c@),
        decreases links.len() - k,
    {
        if links[k].table == *t && links[k].column == *c {
            proof {
                assert((links.deep_view()[k as int]).table == t@ && links.deep_view()[
                    k as int].column == c@);
            }
            return true;
        }
        k += 1;
    }
    false
}

/// The first chosen link whose source is (`t`, `c`), as a reference value.
fn find_reference(links: &Vec<ForeignKeyRow>, t: &String, c: &String) -> (r: Option<Reference>)
    ensures
        r.deep_view() == ref_of(links.deep_view(), t@, c@),
{
    let ghost lv = links.deep_view();
    proof {
        assert(lv.skip(0) =~= lv);
    }
    let mut k: usize = 0;
    while k < links.len()
        invariant
            k <= links.len(),
            lv == links.deep_view(),
            ref_of(lv, t@, c@) == ref_of(lv.skip(k as int), t@, c@),
        decreases links.len() - k,
    {
        proof {
            assert(lv.skip(k as int)[0] == lv[k as int]);
        }
        if links[k].table == *t && links[k].column == *c {
            let r = Reference {
                table: links[k].target_table.clone(),
                column: links[k].target_column.clone(),
            };
            return Some(r);
        }
        proof {
            assert(lv.skip(k as int).skip(1) =~= lv.skip(k as int + 1));
        }
        k += 1;
    }
    proof {
        assert(lv.skip(k as int).len() == 0);
    }
    None
}

/// Every chosen link pointing at (`t`, `c`), as reference values, in order.
fn find_referenced_by(links: &Vec<ForeignKeyRow>, t: &String, c: &String) -> (r: Vec<Reference>)
    ensures
        r.deep_view() == referenced_by_of(links.deep_view(), t@, c@),
{
    let ghost lv = links.deep_view();
    let mut out: Vec<Reference> = Vec::new();
    let mut k: usize = 0;
    while k < links.len()
        invariant
            k <= links.len(),
            lv == links.deep_view(),
            out.deep_view() =~= referenced_by_of(lv.take(k as int), t@, c@),
        decreases links.len() - k,
    {
        let ghost pre = out.deep_view();
        if links[k].target_table == *t && links[k].target_column == *c {
            out.push(Reference { table: links[k].table.clone(), column: links[k].column.clone() });
        }
        proof {
            assert(lv.take(k as int + 1).drop_last() =~= lv.take(k as int));
            assert(lv.take(k as int + 1).last() == lv[k as int]);
            if lv[k as int].target_table == t@ && lv[k as int].target_column == c@ {
                assert(out.deep_view() =~= pre.push(
                    ReferenceView { table: lv[k as int].table, column: lv[k as int].column },
                ));
            }
        }
        k += 1;
    }
    proof {
        assert(lv.take(links@.len() as int) =~= lv);
    }
    out
}

/// Assembles the normalized schema from raw catalog rows. Tables on the
/// exclusion list are dropped; each remaining table gets the column rows
/// tagged with its name, in row order; the single global constraint scan is
/// normalized — both endpoints must exist, one outgoing link per source
/// column — and both `references` and `referenced_by` are derived from that
/// one relation. The assembled schema is well-formed, its reference graph
/// symmetric, and no excluded table appears in it; duplicated table or
/// column names in the catalog rows are malformed input and abort the
/// extraction.
pub fn build_schema(
    kind: DatabaseKind,
    name: String,
    tables: &Vec<TableRow>,
    columns: &Vec<ColumnRow>,
    foreign_keys: &Vec<ForeignKeyRow>,
    exclude: &Vec<String>,
) -> (r: Result<Database, ExtractionError>)
    ensures
        ({
            let target = spec_extract(
                kind,
                name@,
                tables.deep_view(),
                columns.deep_view(),
                foreign_keys.deep_view(),
                exclude.deep_view(),
            );
            &&& (r is Ok <==> crate::schema::schema_wf(target))
            &&& (r matches Ok(s) ==> s.deep_view() == target)
            &&& (r matches Err(e) ==> e == ExtractionError::Query)
            &&& (r matches Ok(s) ==> crate::schema::ref_symmetric(s.deep_view()))
            &&& (r matches Ok(s) ==> forall|i: int|
                0 <= i < s.deep_view().tables.len() ==> !exclude.deep_view().contains(
                    #[trigger] s.deep_view().tables[i].name,
                ))
        }),
{
    let ghost tv = tables.deep_view();
    let ghost cv = columns.deep_view();
    let ghost fv = foreign_keys.deep_view();
    let ghost ev = exclude.deep_view();
    let ghost target = spec_extract(kind, name@, tv, cv, fv, ev);

    // Exclusion filtering, in catalog order.
    let mut kept: Vec<String> = Vec::new();
    let mut i: usize = 0;
    while i < tables.len()
        invariant
            i <= tables.len(),
            tv == tables.deep_view(),
            ev == exclude.deep_view(),
            kept.deep_view() =~= kept_tables(tv.take(i as int), ev),
        decreases tables.len() - i,
    {
        let ghost pre = kept.deep_view();
        if !contains_string(exclude, &tables[i].name) {
            kept.push(tables[i].name.clone());
        }
        proof {
            assert(tv.take(i as int + 1).drop_last() =~= tv.take(i as int));
            assert(tv.take(i as int + 1).last() == tv[i as int]);
            if !ev.contains(tv[i as int]) {
                assert(kept.deep_view() =~= pre.push(tv[i as int]));
            }
        }
        i += 1;
    }
    proof {
        assert(tv.take(tables@.len() as int) =~= tv);
    }
    let ghost keptv = kept.deep_view();

    // The single global scan, normalized into the link relation.
    let mut links: Vec<ForeignKeyRow> = Vec::new();
    let mut i: usize = 0;
    while i < foreign_keys.len()
        invariant
            i <= foreign_keys.len(),
            fv == foreign_keys.deep_view(),
            cv == columns.deep_view(),
            keptv == kept.deep_view(),
            links.deep_view() =~= chosen_links(fv.take(i as int), keptv, cv),
        decreases foreign_keys.len() - i,
    {
        let ghost pre = links.deep_view();
        let f = &foreign_keys[i];
        let source_ok = has_column_exec(&kept, columns, &f.table, &f.column);
        let target_ok = has_column_exec(&kept, columns, &f.target_table, &f.target_column);
        if source_ok && target_ok && !has_source_exec(&links, &f.table, &f.column) {
            links.push(f.clone());
            proof {
                assert(links.deep_view() =~= pre.push(fv[i as int]));
            }
        }
        proof {
            assert(fv.take(i as int + 1).drop_last() =~= fv.take(i as int));
            assert(fv.take(i as int + 1).last() == fv[i as int]);
        }
        i += 1;
    }
    proof {
        assert(fv.take(foreign_keys@.len() as int) =~= fv);
    }
    let ghost linksv = links.deep_view();
    proof {
        assert(linksv == chosen_links(fv, keptv, cv));
    }

    // Assembly: group columns per kept table, attach both link directions.
    let mut built: Vec<Table> = Vec::new();
    let mut i: usize = 0;
    while i < kept.len()
        invariant
            i <= kept.len(),
            cv == columns.deep_view(),
            keptv == kept.deep_view(),
            linksv == links.deep_view(),
            target == spec_extract(kind, name@, tv, cv, fv, ev),
            linksv == chosen_links(fv, keptv, cv),
            keptv == kept_tables(tv, ev),
            target.tables.len() == keptv.len(),
            built.deep_view().len() == i,
            forall|k: int| 0 <= k < i ==> built.deep_view()[k] == target.tables[k],
        decreases kept.len() - i,
    {
        // The rows of this table, in row order.
        let mut rows: Vec<ColumnRow> = Vec::new();
        let mut j: usize = 0;
        while j < columns.len()
            invariant
                j <= columns.len(),
                i < kept@.len(),
                cv == columns.deep_view(),
                keptv == kept.deep_view(),
                rows.deep_view() =~= table_columns(cv.take(j as int), keptv[i as int]),
            decreases columns.len() - j,
        {
            let ghost pre = rows.deep_view();
            if columns[j].table == kept[i] {
                rows.push(columns[j].clone());
            }
            proof {
                assert(cv.take(j as int + 1).drop_last() =~= cv.take(j as int));
                assert(cv.take(j as int + 1).last() == cv[j as int]);
                if cv[j as int].table == keptv[i as int] {
                    assert(rows.deep_view() =~= pre.push(cv[j as int]));
                }
            }
            j += 1;
        }
        proof {
            assert(cv.take(columns@.len() as int) =~= cv);
        }
        let ghost rowsv = rows.deep_view();

        let mut cols: Vec<Column> = Vec::new();
        let mut j: usize = 0;
        while j < rows.len()
            invariant
                j <= rows.len(),
                linksv == links.deep_view(),
                rowsv == rows.deep_view(),
                cols.deep_view().len() == j,
                forall|k: int|
                    0 <= k < j ==> cols.deep_view()[k] == built_column(rowsv[k], linksv),
            decreases rows.len() - j,
        {
            let references = find_reference(&links, &rows[j].table, &rows[j].name);
            let referenced_by = find_referenced_by(&links, &rows[j].table, &rows[j].name);
            let c = Column {
                name: rows[j].name.clone(),
                kind: rows[j].kind.clone(),
                is_primary_key: rows[j].is_primary_key,
                optional: rows[j].optional,
                referenced_by,
                references,
            };
            let ghost cjv = c.deep_view();
            let ghost pre = cols.deep_view();
            cols.push(c);
            proof {
                assert(cols.deep_view() =~= pre.push(cjv));
                assert(cjv == built_column(rowsv[j as int], linksv));
            }
            j += 1;
        }
        let t = Table { name: kept[i].clone(), columns: cols };
        let ghost tjv = t.deep_view();
        let ghost pre = built.deep_view();
        built.push(t);
        proof {
            assert(built.deep_view() =~= pre.push(tjv));
            assert(tjv.columns =~= built_columns(table_columns(cv, keptv[i as int]), linksv));
            assert(tjv == built_table(keptv[i as int], cv, linksv));
            assert(target.tables[i as int] == built_table(keptv[i as int], cv, linksv));
        }
        i += 1;
    }

    let ghost nv = name@;
    let db = Database { kind, name, tables: built };
    proof {
        assert(db.deep_view().tables =~= target.tables);
        assert(db.deep_view() == target);
        lemma_reference_symmetry(kind, nv, tv, cv, fv, ev);
        lemma_exclusion(kind, nv, tv, cv, fv, ev);
    }
    if schema_distinct(&db) {
        Ok(db)
    } else {
        Err(ExtractionError::Query)
    }
}

/// Whether every column name in the table is unique.
fn table_distinct(t: &Table) -> (r: bool)
    ensures
        r == crate::schema::distinct_column_names(t.deep_view().columns),
{
    let ghost csv = t.deep_view().columns;
    let mut i: usize = 0;
    while i < t.columns.len()
        invariant
            i <= t.columns.len(),
            csv == t.deep_view().columns,
            forall|a: int, b: int| 0 <= a < b < csv.len() && a < i ==> csv[a].name != csv[b].name,
        decreases t.columns.len() - i,
    {
        let mut j: usize = i + 1;
        while j < t.columns.len()
            invariant
                i < j <= t.columns.len(),
                csv == t.deep_view().columns,
                forall|b: int| i < b < j ==> csv[i as int].name != csv[b].name,
            decreases t.columns.len() - j,
        {
            if t.columns[i].name == t.columns[j].name {
                proof {
                    assert(csv[i as int].name == csv[j as int].name);
                }
                return false;
            }
            j += 1;
        }
        i += 1;
    }
    true
}

/// Whether table names, and column names within each table, are unique.
fn schema_distinct(db: &Database) -> (r: bool)
    ensures
        r == crate::schema::schema_wf(db.deep_view()),
{
    let ghost tsv = db.deep_view().tables;
    let mut i: usize = 0;
    while i < db.tables.len()
        invariant
            i <= db.tables.len(),
            tsv == db.deep_view().tables,
            forall|a: int, b: int| 0 <= a < b < tsv.len() && a < i ==> tsv[a].name != tsv[b].name,
            forall|a: int| 0 <= a < i ==> crate::schema::distinct_column_names(
                #[trigger] tsv[a].columns,
            ),
        decreases db.tables.len() - i,
    {
        if !table_distinct(&db.tables[i]) {
            proof {
                assert(db.tables@[i as int].deep_view() == tsv[i as int]);
                assert(!crate::schema::distinct_column_names(tsv[i as int].columns));
            }
            return false;
        }
        let mut j: usize = i + 1;
        while j < db.tables.len()
            invariant
                i < j <= db.tables.len(),
                tsv == db.deep_view().tables,
                forall|b: int| i < b < j ==> tsv[i as int].name != tsv[b].name,
            decreases db.tables.len() - j,
        {
            if db.tables[i].name == db.tables[j].name {
                proof {
                    assert(tsv[i as int].name == tsv[j as int].name);
                }
                return false;
            }
            j += 1;
        }
        i += 1;
    }
    true
}

/// No link in `links` repeats a source column.
pub open spec fn unique_sources(links: Seq<ForeignKeyRowView>) -> bool {
    forall|a: int, b: int|
        0 <= a < b < links.len() ==> !((#[trigger] links[a]).table == (#[trigger] links[b]).table
            && links[a].column == links[b].column)
}

/// No kept table name stands on the exclusion list.
proof fn lemma_kept_excluded(tables: Seq<Seq<char>>, exclude: Seq<Seq<char>>)
    ensures
        forall|i: int|
            0 <= i < kept_tables(tables, exclude).len() ==> !exclude.contains(
                #[trigger] kept_tables(tables, exclude)[i],
            ),
    decreases tables.len(),
{
    if tables.len() == 0 {
    } else {
        lemma_kept_excluded(tables.drop_last(), exclude);
        let pre = kept_tables(tables.drop_last(), exclude);
        let cur = kept_tables(tables, exclude);
        assert forall|i: int| 0 <= i < cur.len() implies !exclude.contains(cur[i]) by {
            if i < pre.len() {
                assert(cur[i] == pre[i]);
            } else {
                assert(cur[i] == tables.last());
            }
        };
    }
}

/// Exclusion law: a table name on the exclusion list never appears among an
/// extracted schema's tables, wherever it stood in catalog order.
pub proof fn lemma_exclusion(
    kind: DatabaseKind,
    name: Seq<char>,
    tables: Seq<Seq<char>>,
    columns: Seq<ColumnRowView>,
    fks: Seq<ForeignKeyRowView>,
    exclude: Seq<Seq<char>>,
)
    ensures
        forall|i: int|
            0 <= i < spec_extract(kind, name, tables, columns, fks, exclude).tables.len()
                ==> !exclude.contains(
                #[trigger] spec_extract(kind, name, tables, columns, fks, exclude).tables[i].name,
            ),
{
    lemma_kept_excluded(tables, exclude);
    let s = spec_extract(kind, name, tables, columns, fks, exclude);
    let kept = kept_tables(tables, exclude);
    let links = chosen_links(fks, kept, columns);
    assert forall|i: int| 0 <= i < s.tables.len() implies !exclude.contains(
        s.tables[i].name,
    ) by {
        assert(s.tables[i] == built_table(kept[i], columns, links));
        assert(s.tables[i].name == kept[i]);
    };
}

/// Every chosen link joins existing columns, and no source repeats.
proof fn lemma_chosen_props(
    fks: Seq<ForeignKeyRowView>,
    kept: Seq<Seq<char>>,
    columns: Seq<ColumnRowView>,
)
    ensures
        forall|k: int|
            0 <= k < chosen_links(fks, kept, columns).len() ==> link_ok(
                #[trigger] chosen_links(fks, kept, columns)[k],
                kept,
                columns,
            ),
        unique_sources(chosen_links(fks, kept, columns)),
    decreases fks.len(),
{
    if fks.len() == 0 {
    } else {
        lemma_chosen_props(fks.drop_last(), kept, columns);
        let pre = chosen_links(fks.drop_last(), kept, columns);
        let l = fks.last();
        let cur = chosen_links(fks, kept, columns);
        if link_ok(l, kept, columns) && !has_source(pre, l.table, l.column) {
            assert forall|a: int, b: int| 0 <= a < b < cur.len() implies !((cur[a]).table == (
            cur[b]).table && cur[a].column == cur[b].column) by {
                if b == pre.len() {
                    assert(cur[a] == pre[a]);
                    assert(!(pre[a].table == l.table && pre[a].column == l.column));
                } else {
                    assert(cur[a] == pre[a] && cur[b] == pre[b]);
                }
            };
        }
    }
}

/// A `Some` result of `ref_of` comes from a link of the relation.
proof fn lemma_ref_of_some(links: Seq<ForeignKeyRowView>, t: Seq<char>, c: Seq<char>)
    ensures
        ref_of(links, t, c) matches Some(r) ==> exists|k: int|
            0 <= k < links.len() && (#[trigger] links[k]).table == t && links[k].column == c
                && links[k].target_table == r.table && links[k].target_column == r.column,
    decreases links.len(),
{
    if links.len() == 0 {
    } else if links[0].table == t && links[0].column == c {
        let r = ref_of(links, t, c)->Some_0;
        assert(links[0].table == t && links[0].column == c && links[0].target_table == r.table
            && links[0].target_column == r.column);
    } else {
        lemma_ref_of_some(links.skip(1), t, c);
        match ref_of(links, t, c) {
            Some(r) => {
                let k = choose|k: int|
                    0 <= k < links.skip(1).len() && (#[trigger] links.skip(1)[k]).table == t
                        && links.skip(1)[k].column == c && links.skip(1)[k].target_table
                        == r.table && links.skip(1)[k].target_column == r.column;
                assert(links[k + 1] == links.skip(1)[k]);
            },
            None => {},
        }
    }
}

/// With unique sources, `ref_of` returns exactly the target of the one link
/// whose source the column is.
proof fn lemma_ref_of_finds(links: Seq<ForeignKeyRowView>, t: Seq<char>, c: Seq<char>, k: int)
    requires
        0 <= k < links.len(),
        links[k].table == t,
        links[k].column == c,
        unique_sources(links),
    ensures
        ref_of(links, t, c) == Some(
            ReferenceView { table: links[k].target_table, column: links[k].target_column },
        ),
    decreases links.len(),
{
    if links[0].table == t && links[0].column == c {
        if k != 0 {
            assert(!(links[0].table == links[k].table && links[0].column == links[k].column));
            assert(false);
        }
    } else {
        assert(k > 0);
        assert forall|a: int, b: int| 0 <= a < b < links.skip(1).len() implies !((links.skip(1)[
        a]).table == (links.skip(1)[b]).table && links.skip(1)[a].column == links.skip(1)[
        b].column) by {
            assert(links.skip(1)[a] == links[a + 1]);
            assert(links.skip(1)[b] == links[b + 1]);
        };
        assert(links.skip(1)[k - 1] == links[k]);
        lemma_ref_of_finds(links.skip(1), t, c, k - 1);
    }
}

/// The incoming entries of a column are exactly the links pointing at it.
proof fn lemma_referenced_by_props(links: Seq<ForeignKeyRowView>, t: Seq<char>, c: Seq<char>)
    ensures
        forall|j: int|
            0 <= j < referenced_by_of(links, t, c).len() ==> exists|k: int|
                0 <= k < links.len() && (#[trigger] links[k]).target_table == t
                    && links[k].target_column == c && links[k].table == (
                #[trigger] referenced_by_of(links, t, c)[j]).table && links[k].column
                    == referenced_by_of(links, t, c)[j].column,
        forall|k: int|
            0 <= k < links.len() && (#[trigger] links[k]).target_table == t
                && links[k].target_column == c ==> referenced_by_of(links, t, c).contains(
                ReferenceView { table: links[k].table, column: links[k].column },
            ),
    decreases links.len(),
{
    if links.len() == 0 {
    } else {
        lemma_referenced_by_props(links.drop_last(), t, c);
        let pre = referenced_by_of(links.drop_last(), t, c);
        let cur = referenced_by_of(links, t, c);
        let l = links.last();
        assert forall|j: int| #![trigger cur[j]] 0 <= j < cur.len() implies exists|k: int|
            0 <= k < links.len() && (#[trigger] links[k]).target_table == t
                && links[k].target_column == c && links[k].table == (cur[j]).table
                && links[k].column == cur[j].column by {
            if j < pre.len() {
                assert(cur[j] == pre[j]);
                let k = choose|k: int|
                    0 <= k < links.drop_last().len() && (#[trigger] links.drop_last()[
                    k]).target_table == t && links.drop_last()[k].target_column == c
                        && links.drop_last()[k].table == pre[j].table && links.drop_last()[
                    k].column == pre[j].column;
                assert(links[k] == links.drop_last()[k]);
            } else {
                assert(l.target_table == t && l.target_column == c);
                assert(cur[j] == ReferenceView { table: l.table, column: l.column });
                assert(links[links.len() - 1] == l);
            }
        };
        assert forall|k: int|
            0 <= k < links.len() && (#[trigger] links[k]).target_table == t
                && links[k].target_column == c implies cur.contains(
            ReferenceView { table: links[k].table, column: links[k].column },
        ) by {
            let e = ReferenceView { table: links[k].table, column: links[k].column };
            if k < links.len() - 1 {
                assert(links.drop_last()[k] == links[k]);
                assert(pre.contains(e));
                let j = choose|j: int| 0 <= j < pre.len() && pre[j] == e;
                assert(cur[j] == e);
            } else {
                assert(cur.last() == e);
            }
        };
    }
}

/// Every grouped row carries the table's name.
proof fn lemma_table_columns_table(columns: Seq<ColumnRowView>, t: Seq<char>)
    ensures
        forall|i: int|
            0 <= i < table_columns(columns, t).len() ==> (#[trigger] table_columns(columns, t)[
                i]).table == t,
    decreases columns.len(),
{
    if columns.len() == 0 {
    } else {
        lemma_table_columns_table(columns.drop_last(), t);
        let pre = table_columns(columns.drop_last(), t);
        let cur = table_columns(columns, t);
        assert forall|i: int| 0 <= i < cur.len() implies (cur[i]).table == t by {
            if i < pre.len() {
                assert(cur[i] == pre[i]);
            } else {
                assert(cur[i] == columns.last());
            }
        };
    }
}

/// A column row of a table survives the grouping by its table's name.
proof fn lemma_has_column_row(columns: Seq<ColumnRowView>, t: Seq<char>, c: Seq<char>)
    requires
        exists|k: int|
            0 <= k < columns.len() && (#[trigger] columns[k]).table == t && columns[k].name == c,
    ensures
        exists|i: int|
            0 <= i < table_columns(columns, t).len() && (#[trigger] table_columns(columns, t)[
                i]).name == c,
    decreases columns.len(),
{
    let k = choose|k: int|
        0 <= k < columns.len() && (#[trigger] columns[k]).table == t && columns[k].name == c;
    let pre = table_columns(columns.drop_last(), t);
    let cur = table_columns(columns, t);
    if k == columns.len() - 1 {
        assert(cur[pre.len() as int] == columns.last());
    } else {
        assert(columns.drop_last()[k] == columns[k]);
        lemma_has_column_row(columns.drop_last(), t, c);
        let i = choose|i: int|
            0 <= i < pre.len() && (#[trigger] pre[i]).name == c;
        assert(cur[i] == pre[i]);
    }
}

/// The table found under a kept name is the one assembled for that name.
proof fn lemma_find_built(
    kept: Seq<Seq<char>>,
    columns: Seq<ColumnRowView>,
    links: Seq<ForeignKeyRowView>,
    t: Seq<char>,
)
    requires
        kept.contains(t),
    ensures
        crate::schema::find_table(
            Seq::new(kept.len(), |i: int| built_table(kept[i], columns, links)),
            t,
        ) == Some(built_table(t, columns, links)),
    decreases kept.len(),
{
    let ts = Seq::new(kept.len(), |i: int| built_table(kept[i], columns, links));
    assert(kept.len() > 0);
    assert(ts[0] == built_table(kept[0], columns, links));
    if kept[0] == t {
    } else {
        let k = choose|k: int| 0 <= k < kept.len() && kept[k] == t;
        assert(k > 0);
        assert(kept.skip(1)[k - 1] == t);
        assert(kept.skip(1).contains(t));
        lemma_find_built(kept.skip(1), columns, links, t);
        assert(ts.skip(1) =~= Seq::new(
            kept.skip(1).len(),
            |i: int| built_table(kept.skip(1)[i], columns, links),
        ));
        assert(ts[0].name != t);
    }
}

/// The column found under a grouped row's name carries the link relation at
/// the table's coordinates.
proof fn lemma_find_col(
    rows: Seq<ColumnRowView>,
    links: Seq<ForeignKeyRowView>,
    t: Seq<char>,
    c: Seq<char>,
)
    requires
        forall|i: int| 0 <= i < rows.len() ==> (#[trigger] rows[i]).table == t,
        exists|i: int| 0 <= i < rows.len() && (#[trigger] rows[i]).name == c,
    ensures
        crate::schema::find_column(built_columns(rows, links), c) matches Some(col),
        crate::schema::find_column(built_columns(rows, links), c)->Some_0.references == ref_of(
            links,
            t,
            c,
        ),
        crate::schema::find_column(built_columns(rows, links), c)->Some_0.referenced_by
            == referenced_by_of(links, t, c),
    decreases rows.len(),
{
    let cs = built_columns(rows, links);
    assert(rows.len() > 0);
    assert(cs[0] == built_column(rows[0], links));
    if rows[0].name == c {
        assert(rows[0].table == t);
        assert(crate::schema::find_column(cs, c) == Some(cs[0]));
    } else {
        let k = choose|k: int| 0 <= k < rows.len() && (#[trigger] rows[k]).name == c;
        assert(k > 0);
        assert(rows.skip(1)[k - 1] == rows[k]);
        assert forall|i: int| 0 <= i < rows.skip(1).len() implies (#[trigger] rows.skip(1)[
        i]).table == t by {
            assert(rows.skip(1)[i] == rows[i + 1]);
        };
        lemma_find_col(rows.skip(1), links, t, c);
        assert(built_columns(rows.skip(1), links) =~= cs.skip(1));
        assert(cs[0].name != c);
    }
}

/// Looking a kept column up in the assembled schema finds it, carrying both
/// directions of the link relation at its coordinates.
proof fn lemma_lookup_built(
    kind: DatabaseKind,
    name: Seq<char>,
    tables: Seq<Seq<char>>,
    columns: Seq<ColumnRowView>,
    fks: Seq<ForeignKeyRowView>,
    exclude: Seq<Seq<char>>,
    t: Seq<char>,
    c: Seq<char>,
)
    requires
        has_column(kept_tables(tables, exclude), columns, t, c),
    ensures
        ({
            let s = spec_extract(kind, name, tables, columns, fks, exclude);
            let links = chosen_links(fks, kept_tables(tables, exclude), columns);
            &&& crate::schema::lookup_column(s, t, c) matches Some(col)
            &&& crate::schema::lookup_column(s, t, c)->Some_0.references == ref_of(links, t, c)
            &&& crate::schema::lookup_column(s, t, c)->Some_0.referenced_by == referenced_by_of(
                links,
                t,
                c,
            )
        }),
{
    let s = spec_extract(kind, name, tables, columns, fks, exclude);
    let kept = kept_tables(tables, exclude);
    let links = chosen_links(fks, kept, columns);
    lemma_find_built(kept, columns, links, t);
    assert(s.tables =~= Seq::new(kept.len(), |i: int| built_table(kept[i], columns, links)));
    assert(crate::schema::find_table(s.tables, t) == Some(built_table(t, columns, links)));
    lemma_table_columns_table(columns, t);
    lemma_has_column_row(columns, t, c);
    lemma_find_col(table_columns(columns, t), links, t, c);
}

/// Reference symmetry law: in any schema the extractor assembles, every
/// outgoing link is mirrored by an incoming entry on its target column, and
/// every incoming entry by the outgoing link of its source column.
pub proof fn lemma_reference_symmetry(
    kind: DatabaseKind,
    name: Seq<char>,
    tables: Seq<Seq<char>>,
    columns: Seq<ColumnRowView>,
    fks: Seq<ForeignKeyRowView>,
    exclude: Seq<Seq<char>>,
)
    ensures
        crate::schema::ref_symmetric(spec_extract(kind, name, tables, columns, fks, exclude)),
{
    let s = spec_extract(kind, name, tables, columns, fks, exclude);
    let kept = kept_tables(tables, exclude);
    let links = chosen_links(fks, kept, columns);
    lemma_chosen_props(fks, kept, columns);

    assert forall|ti: int, ci: int|
        0 <= ti < s.tables.len() && 0 <= ci < s.tables[ti].columns.len() implies (
    #[trigger] s.tables[ti].columns[ci].references matches Some(r) ==> {
        &&& crate::schema::lookup_column(s, r.table, r.column) matches Some(target)
        &&& crate::schema::lookup_column(s, r.table, r.column)->Some_0.referenced_by.contains(
            ReferenceView { table: s.tables[ti].name, column: s.tables[ti].columns[ci].name },
        )
    }) by {
        assert(s.tables[ti] == built_table(kept[ti], columns, links));
        let rows = table_columns(columns, kept[ti]);
        assert(s.tables[ti].columns[ci] == built_column(rows[ci], links));
        lemma_table_columns_table(columns, kept[ti]);
        assert(rows[ci].table == kept[ti]);
        let col = s.tables[ti].columns[ci];
        match col.references {
            Some(r) => {
                assert(ref_of(links, kept[ti], rows[ci].name) == Some(r));
                lemma_ref_of_some(links, kept[ti], rows[ci].name);
                let k = choose|k: int|
                    0 <= k < links.len() && (#[trigger] links[k]).table == kept[ti] && links[
                    k].column == rows[ci].name && links[k].target_table == r.table && links[
                    k].target_column == r.column;
                assert(link_ok(links[k], kept, columns));
                assert(has_column(kept, columns, r.table, r.column));
                lemma_lookup_built(kind, name, tables, columns, fks, exclude, r.table, r.column);
                lemma_referenced_by_props(links, r.table, r.column);
                assert(referenced_by_of(links, r.table, r.column).contains(
                    ReferenceView { table: links[k].table, column: links[k].column },
                ));
                assert(s.tables[ti].name == kept[ti]);
                assert(col.name == rows[ci].name);
            },
            None => {},
        }
    };

    assert forall|ti: int, ci: int, k: int|
        0 <= ti < s.tables.len() && 0 <= ci < s.tables[ti].columns.len() && 0 <= k < s.tables[
        ti].columns[ci].referenced_by.len() implies {
        let e = #[trigger] s.tables[ti].columns[ci].referenced_by[k];
        &&& crate::schema::lookup_column(s, e.table, e.column) matches Some(source)
        &&& crate::schema::lookup_column(s, e.table, e.column)->Some_0.references == Some(
            ReferenceView { table: s.tables[ti].name, column: s.tables[ti].columns[ci].name },
        )
    } by {
        assert(s.tables[ti] == built_table(kept[ti], columns, links));
        let rows = table_columns(columns, kept[ti]);
        assert(s.tables[ti].columns[ci] == built_column(rows[ci], links));
        lemma_table_columns_table(columns, kept[ti]);
        assert(rows[ci].table == kept[ti]);
        let col = s.tables[ti].columns[ci];
        assert(col.referenced_by == referenced_by_of(links, kept[ti], rows[ci].name));
        lemma_referenced_by_props(links, kept[ti], rows[ci].name);
        let e = col.referenced_by[k];
        let k2 = choose|k2: int|
            0 <= k2 < links.len() && (#[trigger] links[k2]).target_table == kept[ti] && links[
            k2].target_column == rows[ci].name && links[k2].table == e.table && links[k2].column
                == e.column;
        assert(link_ok(links[k2], kept, columns));
        assert(has_column(kept, columns, e.table, e.column));
        lemma_lookup_built(kind, name, tables, columns, fks, exclude, e.table, e.column);
        lemma_ref_of_finds(links, e.table, e.column, k2);
        assert(s.tables[ti].name == kept[ti]);
        assert(col.name == rows[ci].name);
    };
}

/// The catalog queries of one engine dialect: the base-table listing (one
/// bind parameter, the namespace), the column listing (one bind parameter,
/// the table name), and the global foreign-key pair listing (no parameter).
#[derive(Debug, PartialEq)]
pub struct CatalogQueries {
    pub table_query: String,
    pub column_query: String,
    pub reference_query: String,
}

/// The text of the Postgres base-table listing: the base tables of the
/// bound namespace, in name order.
pub open spec fn postgres_table_query() -> Seq<char> {
    "SELECT \"table_name\" FROM \"information_schema\".\"tables\" WHERE \"table_type\" = 'BASE TABLE' AND \"table_schema\" = $1 ORDER BY \"table_name\""@
}

/// The text of the Postgres column listing for the bound table: name,
/// native type, nullability, and the primary-key flag, in ordinal position
/// order, with foreign-key constraint rows folded away.
pub open spec fn postgres_column_query() -> Seq<char> {
    "SELECT C.\"column_name\", C.\"data_type\", C.\"is_nullable\" = 'YES' AS \"optional\", COALESCE(TC.\"constraint_type\" = 'PRIMARY KEY', FALSE) AS \"is_primary_key\" FROM \"information_schema\".\"columns\" AS C LEFT JOIN \"information_schema\".\"key_column_usage\" AS KCU ON C.\"column_name\" = KCU.\"column_name\" AND C.\"table_name\" = KCU.\"table_name\" LEFT JOIN \"information_schema\".\"table_constraints\" AS TC ON TC.\"table_name\" = KCU.\"table_name\" AND TC.\"constraint_name\" = KCU.\"constraint_name\" WHERE (TC.\"constraint_type\" IS NULL OR TC.\"constraint_type\" != 'FOREIGN KEY') AND C.\"table_name\" = $1 ORDER BY C.\"ordinal_position\""@
}

/// The text of the single global Postgres foreign-key listing: every
/// referential constraint as a (source table, source column, target table,
/// target column) row.
pub open spec fn postgres_reference_query() -> Seq<char> {
    "SELECT REFBY.\"table_name\", REFBY.\"column_name\", REFTO.\"table_name\" AS \"target_table\", REFTO.\"column_name\" AS \"target_column\" FROM \"information_schema\".\"referential_constraints\" AS RC INNER JOIN \"information_schema\".\"key_column_usage\" AS REFBY ON RC.\"constraint_name\" = REFBY.\"constraint_name\" INNER JOIN \"information_schema\".\"key_column_usage\" AS REFTO ON RC.\"unique_constraint_name\" = REFTO.\"constraint_name\""@
}

/// The catalog dialect of an engine. Postgres is implemented and yields
/// exactly the three query texts above; the other declared engines are
/// not, and asking for one fails with an explicit error instead of
/// extracting an empty schema.
pub fn catalog_queries(kind: DatabaseKind) -> (r: Result<CatalogQueries, ExtractionError>)
    ensures
        r is Ok <==> kind == DatabaseKind::Postgres,
        r matches Ok(q) ==> q.table_query@ == postgres_table_query() && q.column_query@
            == postgres_column_query() && q.reference_query@ == postgres_reference_query(),
        r matches Err(e) ==> e == ExtractionError::UnsupportedEngine,
{
    match kind {
        DatabaseKind::Postgres => Ok(
            CatalogQueries {
                table_query: String::from_str(
                    "SELECT \"table_name\" FROM \"information_schema\".\"tables\" WHERE \"table_type\" = 'BASE TABLE' AND \"table_schema\" = $1 ORDER BY \"table_name\"",
                ),
                column_query: String::from_str(
                    "SELECT C.\"column_name\", C.\"data_type\", C.\"is_nullable\" = 'YES' AS \"optional\", COALESCE(TC.\"constraint_type\" = 'PRIMARY KEY', FALSE) AS \"is_primary_key\" FROM \"information_schema\".\"columns\" AS C LEFT JOIN \"information_schema\".\"key_column_usage\" AS KCU ON C.\"column_name\" = KCU.\"column_name\" AND C.\"table_name\" = KCU.\"table_name\" LEFT JOIN \"information_schema\".\"table_constraints\" AS TC ON TC.\"table_name\" = KCU.\"table_name\" AND TC.\"constraint_name\" = KCU.\"constraint_name\" WHERE (TC.\"constraint_type\" IS NULL OR TC.\"constraint_type\" != 'FOREIGN KEY') AND C.\"table_name\" = $1 ORDER BY C.\"ordinal_position\"",
                ),
                reference_query: String::from_str(
                    "SELECT REFBY.\"table_name\", REFBY.\"column_name\", REFTO.\"table_name\" AS \"target_table\", REFTO.\"column_name\" AS \"target_column\" FROM \"information_schema\".\"referential_constraints\" AS RC INNER JOIN \"information_schema\".\"key_column_usage\" AS REFBY ON RC.\"constraint_name\" = REFBY.\"constraint_name\" INNER JOIN \"information_schema\".\"key_column_usage\" AS REFTO ON RC.\"unique_constraint_name\" = REFTO.\"constraint_name\"",
                ),
            },
        ),
        DatabaseKind::MySql => Err(ExtractionError::UnsupportedEngine),
        DatabaseKind::MariaDb => Err(ExtractionError::UnsupportedEngine),
        DatabaseKind::SqLite => Err(ExtractionError::UnsupportedEngine),
    }
}

} // verus!
