//! The template fan-out planner: per-template schema projection, output
//! path substitution, the single/per-table dispatch, and the column
//! filtering helper exposed to templates.

use vstd::prelude::*;

use crate::config::{TemplateConfig, TemplateConfigView};
use crate::language::{spec_resolve, Language, TypeEntryView};
use crate::schema::{Column, ColumnView, Database, SchemaView, Table, TableView};
use crate::text::{chars_to_string, push_all, str_chars};

verus! {

/// The literal placeholder a per-table output pattern may embed.
pub open spec fn table_marker() -> Seq<char> {
    seq!['{', 't', 'a', 'b', 'l', 'e', '}']
}

/// `pattern` with every literal occurrence of the table placeholder
/// replaced by `name`, scanning left to right.
pub open spec fn spec_substitute(pattern: Seq<char>, name: Seq<char>) -> Seq<char>
    decreases pattern.len(),
{
    if pattern.len() == 0 {
        Seq::empty()
    } else if pattern.len() >= 7 && pattern.take(7) == table_marker() {
        name + spec_substitute(pattern.skip(7), name)
    } else {
        seq![pattern[0]] + spec_substitute(pattern.skip(1), name)
    }
}

/// Whether the table placeholder stands in `pat` at position `i`.
fn marker_at(pat: &Vec<char>, i: usize) -> (r: bool)
    requires
        i <= pat@.len(),
    ensures
        r == (i + 7 <= pat@.len() && pat@.skip(i as int).take(7) == table_marker()),
{
    if pat.len() - i < 7 {
        return false;
    }
    let m = pat[i] == '{' && pat[i + 1] == 't' && pat[i + 2] == 'a' && pat[i + 3] == 'b'
        && pat[i + 4] == 'l' && pat[i + 5] == 'e' && pat[i + 6] == '}';
    proof {
        let window = pat@.skip(i as int).take(7);
        if m {
            assert(window =~= table_marker());
        } else if window == table_marker() {
            assert(pat@[i as int] == window[0]);
            assert(pat@[i as int + 1] == window[1]);
            assert(pat@[i as int + 2] == window[2]);
            assert(pat@[i as int + 3] == window[3]);
            assert(pat@[i as int + 4] == window[4]);
            assert(pat@[i as int + 5] == window[5]);
            assert(pat@[i as int + 6] == window[6]);
        }
    }
    m
}

/// `pattern` with every `{table}` placeholder replaced by `name`.
pub fn substitute(pattern: &str, name: &str) -> (r: String)
    ensures
        r@ == spec_substitute(pattern@, name@),
{
    let pat = str_chars(pattern);
    let rep = str_chars(name);
    let mut out: Vec<char> = Vec::new();
    let mut i: usize = 0;
    proof {
        assert(pat@.skip(0) =~= pat@);
    }
    while i < pat.len()
        invariant
            i <= pat@.len(),
            pat@ == pattern@,
            rep@ == name@,
            spec_substitute(pattern@, name@) == out@ + spec_substitute(
                pat@.skip(i as int),
                name@,
            ),
        decreases pat@.len() - i,
    {
        let ghost pre = out@;
        let ghost tail = pat@.skip(i as int);
        if marker_at(&pat, i) {
            push_all(&mut out, &rep);
            proof {
                assert(tail.skip(7) =~= pat@.skip(i as int + 7));
                assert(spec_substitute(tail, name@) == name@ + spec_substitute(
                    pat@.skip(i as int + 7),
                    name@,
                ));
                assert(out@ + spec_substitute(pat@.skip(i as int + 7), name@) =~= pre
                    + spec_substitute(tail, name@));
            }
            i += 7;
        } else {
            out.push(pat[i]);
            proof {
                assert(tail[0] == pat@[i as int]);
                assert(tail.skip(1) =~= pat@.skip(i as int + 1));
                assert(spec_substitute(tail, name@) == seq![pat@[i as int]] + spec_substitute(
                    pat@.skip(i as int + 1),
                    name@,
                ));
                assert(out@ + spec_substitute(pat@.skip(i as int + 1), name@) =~= pre
                    + spec_substitute(tail, name@));
            }
            i += 1;
        }
    }
    proof {
        assert(pat@.skip(i as int).len() == 0);
        assert(out@ + spec_substitute(pat@.skip(i as int), name@) =~= out@);
    }
    chars_to_string(&out)
}

/// One planned rendering: which template input to render, the path of the
/// file to write, and the table bound as context — an index into the
/// projected schema's tables — if any.
#[derive(Debug, PartialEq)]
pub struct RenderJob {
    pub input: String,
    pub path: String,
    pub table: Option<usize>,
}

/// Mathematical model of a [`RenderJob`].
#[verifier::ext_equal]
pub struct RenderJobView {
    pub input: Seq<char>,
    pub path: Seq<char>,
    pub table: Option<int>,
}

impl DeepView for RenderJob {
    type V = RenderJobView;

    open spec fn deep_view(&self) -> RenderJobView {
        RenderJobView {
            input: self.input@,
            path: self.path@,
            table: (match self.table {
                Some(k) => Some(k as int),
                None => None,
            }),
        }
    }
}

/// Path of a rendered file: the output directory, a separator, the file
/// name.
pub open spec fn spec_output_path(dir: Seq<char>, file: Seq<char>) -> Seq<char> {
    dir + seq!['/'] + file
}

/// The one job of a single-mode template: the output pattern is taken
/// verbatim, a placeholder included, and no table is bound.
pub open spec fn spec_single_job(t: TemplateConfigView) -> RenderJobView {
    RenderJobView { input: t.input, path: spec_output_path(t.output_dir, t.output), table: None }
}

/// The job for table `i` of a per-table template: the placeholder is
/// replaced by the table's name and the table is bound as context.
pub open spec fn spec_table_job(t: TemplateConfigView, tables: Seq<TableView>, i: int) -> RenderJobView {
    RenderJobView {
        input: t.input,
        path: spec_output_path(t.output_dir, spec_substitute(t.output, tables[i].name)),
        table: Some(i),
    }
}

/// The fan-out of one template against a schema: in single mode exactly one
/// file under the verbatim pattern (a placeholder is left unsubstituted);
/// in per-table mode one file per table, in schema order, the placeholder
/// replaced by each table's name.
pub open spec fn spec_render_plan(t: TemplateConfigView, tables: Seq<TableView>) -> Seq<
    RenderJobView,
> {
    if t.single {
        seq![spec_single_job(t)]
    } else {
        Seq::new(tables.len(), |i: int| spec_table_job(t, tables, i))
    }
}

/// `dir`, a slash, then `file`.
fn join_path(dir: &String, file: String) -> (r: String)
    ensures
        r@ == spec_output_path(dir@, file@),
{
    let mut p = dir.clone();
    p.append("/");
    p.append(file.as_str());
    proof {
        reveal_strlit("/");
        assert(p@ =~= spec_output_path(dir@, file@));
    }
    p
}

/// Lays out the files one template produces. Single mode yields exactly one
/// job whose path takes the output pattern verbatim; per-table mode yields
/// one job per table of the schema, in schema order, with the `{table}`
/// placeholder substituted — and therefore no job at all for a schema
/// without tables.
pub fn render_plan(t: &TemplateConfig, schema: &Database) -> (r: Vec<RenderJob>)
    ensures
        r.deep_view() == spec_render_plan(t.deep_view(), schema.deep_view().tables),
{
    let ghost plan = spec_render_plan(t.deep_view(), schema.deep_view().tables);
    let mut jobs: Vec<RenderJob> = Vec::new();
    if t.single {
        jobs.push(
            RenderJob {
                input: t.input.clone(),
                path: join_path(&t.output_dir, t.output.clone()),
                table: None,
            },
        );
        proof {
            assert(jobs.deep_view() =~= plan);
        }
    } else {
        let mut i: usize = 0;
        while i < schema.tables.len()
            invariant
                i <= schema.tables.len(),
                !t.single,
                plan == spec_render_plan(t.deep_view(), schema.deep_view().tables),
                plan.len() == schema.tables@.len(),
                jobs.deep_view().len() == i,
                forall|k: int| 0 <= k < i ==> jobs.deep_view()[k] == plan[k],
            decreases schema.tables.len() - i,
        {
            let sub = substitute(t.output.as_str(), schema.tables[i].name.as_str());
            let path = join_path(&t.output_dir, sub);
            let job = RenderJob { input: t.input.clone(), path, table: Some(i) };
            let ghost jv = job.deep_view();
            let ghost pre = jobs.deep_view();
            jobs.push(job);
            proof {
                assert(schema.deep_view().tables[i as int].name == schema.tables@[i as int].name@);
                assert(jobs.deep_view() =~= pre.push(jv));
                assert(sub@ == spec_substitute(
                    t.deep_view().output,
                    schema.deep_view().tables[i as int].name,
                ));
                assert(plan[i as int] == spec_table_job(
                    t.deep_view(),
                    schema.deep_view().tables,
                    i as int,
                ));
                assert(jv == spec_table_job(t.deep_view(), schema.deep_view().tables, i as int));
                assert(jobs.deep_view()[i as int] == plan[i as int]);
            }
            i += 1;
        }
        proof {
            assert(jobs.deep_view() =~= plan);
        }
    }
    jobs
}

/// A column with its raw type rewritten to the language's canonical type;
/// everything else, the foreign-key links included, carries over.
pub open spec fn spec_project_column(c: ColumnView, entries: Seq<TypeEntryView>) -> ColumnView {
    ColumnView {
        name: c.name,
        kind: spec_resolve(entries, c.kind),
        is_primary_key: c.is_primary_key,
        optional: c.optional,
        referenced_by: c.referenced_by,
        references: c.references,
    }
}

/// A schema with every column's raw type resolved through the dictionary.
pub open spec fn spec_project(s: SchemaView, entries: Seq<TypeEntryView>) -> SchemaView {
    SchemaView {
        kind: s.kind,
        name: s.name,
        tables: Seq::new(
            s.tables.len(),
            |i: int|
                TableView {
                    name: s.tables[i].name,
                    columns: Seq::new(
                        s.tables[i].columns.len(),
                        |j: int| spec_project_column(s.tables[i].columns[j], entries),
                    ),
                },
        ),
    }
}

/// The projected copy of a schema for one template: structurally the same
/// schema, with every column's raw type replaced by the language's
/// canonical type. The projection is rebuilt per template and the input
/// schema stays untouched, so templates never share a rewritten copy.
pub fn project_schema(schema: &Database, language: &Language) -> (r: Database)
    ensures
        r.deep_view() == spec_project(schema.deep_view(), language.types.deep_view()),
{
    let ghost target = spec_project(schema.deep_view(), language.types.deep_view());
    let mut tables: Vec<Table> = Vec::new();
    let mut i: usize = 0;
    while i < schema.tables.len()
        invariant
            i <= schema.tables.len(),
            target == spec_project(schema.deep_view(), language.types.deep_view()),
            target.tables.len() == schema.tables@.len(),
            tables.deep_view().len() == i,
            forall|k: int| 0 <= k < i ==> tables.deep_view()[k] == target.tables[k],
        decreases schema.tables.len() - i,
    {
        let mut columns: Vec<Column> = Vec::new();
        let mut j: usize = 0;
        while j < schema.tables[i].columns.len()
            invariant
                i < schema.tables.len(),
                j <= schema.tables[i as int].columns.len(),
                target == spec_project(schema.deep_view(), language.types.deep_view()),
                target.tables.len() == schema.tables@.len(),
                columns.deep_view().len() == j,
                forall|k: int|
                    0 <= k < j ==> columns.deep_view()[k] == target.tables[i as int].columns[k],
            decreases schema.tables[i as int].columns.len() - j,
        {
            let resolved = language.resolve(&schema.tables[i].columns[j].kind);
            let mut c = schema.tables[i].columns[j].clone();
            c.kind = resolved;
            let ghost cjv = c.deep_view();
            let ghost pre = columns.deep_view();
            columns.push(c);
            proof {
                assert(schema.deep_view().tables[i as int].columns[j as int] == schema.tables@[
                    i as int].columns@[j as int].deep_view());
                assert(columns.deep_view() =~= pre.push(cjv));
                assert(cjv == target.tables[i as int].columns[j as int]);
                assert(columns.deep_view()[j as int] == target.tables[i as int].columns[j as int]);
            }
            j += 1;
        }
        tables.push(Table { name: schema.tables[i].name.clone(), columns });
        proof {
            assert(tables.deep_view()[i as int].columns =~= target.tables[i as int].columns);
            assert(tables.deep_view()[i as int] == target.tables[i as int]);
        }
        i += 1;
    }
    let r = Database { kind: schema.kind, name: schema.name.clone(), tables };
    proof {
        assert(r.deep_view().tables =~= target.tables);
        assert(r.deep_view() == target);
    }
    r
}

/// Removes every primary-key column, preserving the relative order of the
/// remainder.
pub open spec fn spec_exclude_keys(cs: Seq<ColumnView>) -> Seq<ColumnView>
    decreases cs.len(),
{
    if cs.len() == 0 {
        Seq::empty()
    } else {
        let pre = spec_exclude_keys(cs.drop_last());
        if cs.last().is_primary_key {
            pre
        } else {
            pre.push(cs.last())
        }
    }
}

/// The column-filtering helper exposed to templates: the same records with
/// every one whose primary-key flag is set removed, the relative order of
/// the remainder preserved.
pub fn exclude_keys(columns: &Vec<Column>) -> (r: Vec<Column>)
    ensures
        r.deep_view() == spec_exclude_keys(columns.deep_view()),
{
    let ghost cv = columns.deep_view();
    let mut out: Vec<Column> = Vec::new();
    let mut i: usize = 0;
    while i < columns.len()
        invariant
            i <= columns.len(),
            cv == columns.deep_view(),
            out.deep_view() =~= spec_exclude_keys(cv.take(i as int)),
        decreases columns.len() - i,
    {
        let ghost pre = out.deep_view();
        if !columns[i].is_primary_key {
            out.push(columns[i].clone());
        }
        proof {
            assert(cv.take(i as int + 1).drop_last() =~= cv.take(i as int));
            assert(cv.take(i as int + 1).last() == cv[i as int]);
            if !cv[i as int].is_primary_key {
                assert(out.deep_view() =~= pre.push(cv[i as int]));
            }
        }
        i += 1;
    }
    proof {
        assert(cv.take(columns@.len() as int) =~= cv);
    }
    out
}

} // verus!
