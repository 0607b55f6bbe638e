//! Rows of the dump tables and the SQL text that loads them.

use crate::text::{decimal, push_decimal, push_escaped, quote_doubled};
use vstd::prelude::*;

verus! {

/// One row of one of the dump tables.
#[derive(Debug, Clone, PartialEq, Eq)]
pub enum Row {
    /// A row of the full-text table `entries`.
    Entry { store_path: String, file_path: String },
    /// A row of the table `packages`.
    Package { id: u64, store_path: String },
    /// A row of the table `files`.
    File { id: u64, package_id: u64, file_path: String },
    /// A row of the table `exported_libs`.
    Lib { id: u64, package_id: u64, lib_name: String },
}

/// The mathematical value of a `Row`.
pub enum RowSpec {
    Entry { store_path: Seq<char>, file_path: Seq<char> },
    Package { id: nat, store_path: Seq<char> },
    File { id: nat, package_id: nat, file_path: Seq<char> },
    Lib { id: nat, package_id: nat, lib_name: Seq<char> },
}

impl View for Row {
    type V = RowSpec;

    open spec fn view(&self) -> RowSpec {
        match *self {
            Row::Entry { store_path, file_path } => RowSpec::Entry {
                store_path: store_path@,
                file_path: file_path@,
            },
            Row::Package { id, store_path } => RowSpec::Package {
                id: id as nat,
                store_path: store_path@,
            },
            Row::File { id, package_id, file_path } => RowSpec::File {
                id: id as nat,
                package_id: package_id as nat,
                file_path: file_path@,
            },
            Row::Lib { id, package_id, lib_name } => RowSpec::Lib {
                id: id as nat,
                package_id: package_id as nat,
                lib_name: lib_name@,
            },
        }
    }
}

impl DeepView for Row {
    type V = RowSpec;

    open spec fn deep_view(&self) -> RowSpec {
        self@
    }
}

/// The rows of the table `packages` among `rows`, in order.
pub open spec fn package_rows(rows: Seq<RowSpec>) -> Seq<RowSpec> {
    rows.filter(|row: RowSpec| row is Package)
}

/// The rows of the table `files` among `rows`, in order.
pub open spec fn file_rows(rows: Seq<RowSpec>) -> Seq<RowSpec> {
    rows.filter(|row: RowSpec| row is File)
}

/// The rows of the table `exported_libs` among `rows`, in order.
pub open spec fn lib_rows(rows: Seq<RowSpec>) -> Seq<RowSpec> {
    rows.filter(|row: RowSpec| row is Lib)
}

/// Picking out the rows of a table from a row or two: a row stays where it
/// is of that table.
pub proof fn lemma_filter_short<A>(a: A, b: A, pred: spec_fn(A) -> bool)
    ensures
        Seq::<A>::empty().filter(pred) == Seq::<A>::empty(),
        seq![a].filter(pred) == if pred(a) {
            seq![a]
        } else {
            Seq::empty()
        },
        seq![a, b].filter(pred) == seq![a].filter(pred) + seq![b].filter(pred),
{
    reveal(Seq::filter);
    assert(Seq::<A>::empty().filter(pred) =~= Seq::<A>::empty());
    assert(seq![a].drop_last() =~= Seq::<A>::empty());
    assert(seq![a].filter(pred) =~= if pred(a) {
        seq![a]
    } else {
        Seq::empty()
    });
    Seq::filter_distributes_over_add(seq![a], seq![b], pred);
    assert(seq![a, b] =~= seq![a] + seq![b]);
}

/// Picking out by a test that every value passes keeps all; by one that
/// none passes, keeps nothing.
pub proof fn lemma_filter_uniform<A>(s: Seq<A>, pred: spec_fn(A) -> bool)
    ensures
        (forall|i: int| 0 <= i < s.len() ==> pred(#[trigger] s[i])) ==> s.filter(pred) == s,
        (forall|i: int| 0 <= i < s.len() ==> !pred(#[trigger] s[i])) ==> s.filter(pred)
            == Seq::<A>::empty(),
    decreases s.len(),
{
    reveal(Seq::filter);
    if s.len() > 0 {
        lemma_filter_uniform(s.drop_last(), pred);
        if forall|i: int| 0 <= i < s.len() ==> pred(#[trigger] s[i]) {
            assert forall|i: int| 0 <= i < s.drop_last().len() implies pred(
                #[trigger] s.drop_last()[i],
            ) by {
                assert(s.drop_last()[i] == s[i]);
            }
            assert(pred(s[s.len() - 1]));
            assert(s.drop_last().push(s.last()) =~= s);
        }
        if forall|i: int| 0 <= i < s.len() ==> !pred(#[trigger] s[i]) {
            assert forall|i: int| 0 <= i < s.drop_last().len() implies !pred(
                #[trigger] s.drop_last()[i],
            ) by {
                assert(s.drop_last()[i] == s[i]);
            }
            assert(!pred(s[s.len() - 1]));
        }
    } else {
        assert(s.filter(pred) =~= Seq::<A>::empty());
        assert(s =~= Seq::<A>::empty());
    }
}

/// The `INSERT` statement that loads `row`: numbers in decimal, texts in
/// single quotes with every embedded quote doubled.
pub open spec fn statement(row: RowSpec) -> Seq<char> {
    match row {
        RowSpec::Entry { store_path, file_path } => {
            "INSERT INTO entries (store_path, file_path) VALUES ('"@ + quote_doubled(store_path)
                + "', '"@ + quote_doubled(file_path) + "');"@
        },
        RowSpec::Package { id, store_path } => {
            "INSERT INTO packages (id, store_path) VALUES ("@ + decimal(id) + ", '"@
                + quote_doubled(store_path) + "');"@
        },
        RowSpec::File { id, package_id, file_path } => {
            "INSERT INTO files (id, package_id, file_path) VALUES ("@ + decimal(id) + ", "@
                + decimal(package_id) + ", '"@ + quote_doubled(file_path) + "');"@
        },
        RowSpec::Lib { id, package_id, lib_name } => {
            "INSERT INTO exported_libs (id, package_id, lib_name) VALUES ("@ + decimal(id)
                + ", "@ + decimal(package_id) + ", '"@ + quote_doubled(lib_name) + "');"@
        },
    }
}

/// The statements of `rows`, one per row and in the same order.
pub open spec fn statements(rows: Seq<RowSpec>) -> Seq<Seq<char>> {
    rows.map_values(|row: RowSpec| statement(row))
}

/// The two lines that relax durability before the load.
pub open spec fn pragma_lines() -> Seq<Seq<char>> {
    seq!["PRAGMA journal_mode=WAL;"@, "PRAGMA synchronous=OFF;"@]
}

/// What stands before the first `INSERT`: the pragmas, the schema, and the
/// opening of the one transaction.
pub open spec fn prologue_lines(schema: Seq<Seq<char>>) -> Seq<Seq<char>> {
    pragma_lines() + schema + seq!["BEGIN;"@]
}

/// What stands after the last `INSERT`: the end of the transaction.
pub open spec fn epilogue_lines() -> Seq<Seq<char>> {
    seq!["COMMIT;"@]
}

/// A whole dump, line by line.
pub open spec fn dump_lines(schema: Seq<Seq<char>>, rows: Seq<RowSpec>) -> Seq<Seq<char>> {
    prologue_lines(schema) + statements(rows) + epilogue_lines()
}

/// The lines as one text, each line ended by a line feed.
pub open spec fn joined(lines: Seq<Seq<char>>) -> Seq<char>
    decreases lines.len(),
{
    if lines.len() == 0 {
        Seq::empty()
    } else {
        joined(lines.drop_last()) + lines.last() + seq!['\n']
    }
}

impl Row {
    /// Writes the row as the `INSERT` statement that loads it.
    pub fn to_sql(&self) -> (sql: String)
        ensures
            sql@ == statement(self@),
    {
        match self {
            Row::Entry { store_path, file_path } => {
                let mut sql = String::from_str(
                    "INSERT INTO entries (store_path, file_path) VALUES ('",
                );
                push_escaped(&mut sql, store_path.as_str());
                sql.append("', '");
                push_escaped(&mut sql, file_path.as_str());
                sql.append("');");
                sql
            },
            Row::Package { id, store_path } => {
                let mut sql = String::from_str("INSERT INTO packages (id, store_path) VALUES (");
                push_decimal(&mut sql, *id);
                sql.append(", '");
                push_escaped(&mut sql, store_path.as_str());
                sql.append("');");
                sql
            },
            Row::File { id, package_id, file_path } => {
                let mut sql = String::from_str(
                    "INSERT INTO files (id, package_id, file_path) VALUES (",
                );
                push_decimal(&mut sql, *id);
                sql.append(", ");
                push_decimal(&mut sql, *package_id);
                sql.append(", '");
                push_escaped(&mut sql, file_path.as_str());
                sql.append("');");
                sql
            },
            Row::Lib { id, package_id, lib_name } => {
                let mut sql = String::from_str(
                    "INSERT INTO exported_libs (id, package_id, lib_name) VALUES (",
                );
                push_decimal(&mut sql, *id);
                sql.append(", ");
                push_decimal(&mut sql, *package_id);
                sql.append(", '");
                push_escaped(&mut sql, lib_name.as_str());
                sql.append("');");
                sql
            },
        }
    }
}

/// The lines to emit before any row of a dump with the given schema.
pub fn prologue(schema: Vec<String>) -> (lines: Vec<String>)
    ensures
        lines.deep_view() == prologue_lines(schema.deep_view()),
{
    let mut lines: Vec<String> = Vec::new();
    lines.push(String::from_str("PRAGMA journal_mode=WAL;"));
    lines.push(String::from_str("PRAGMA synchronous=OFF;"));
    assert(lines.deep_view() =~= pragma_lines());
    let mut schema = schema;
    let ghost declared = schema.deep_view();
    lines.append(&mut schema);
    assert(lines.deep_view() =~= pragma_lines() + declared);
    lines.push(String::from_str("BEGIN;"));
    assert(lines.deep_view() =~= prologue_lines(declared));
    lines
}

/// The lines to emit after the last row of a dump.
pub fn epilogue() -> (lines: Vec<String>)
    ensures
        lines.deep_view() == epilogue_lines(),
{
    let mut lines: Vec<String> = Vec::new();
    lines.push(String::from_str("COMMIT;"));
    assert(lines.deep_view() =~= epilogue_lines());
    lines
}

/// Writes a whole dump: the prologue for `schema`, one statement per row in
/// the order given, and the epilogue.
pub fn dump(schema: Vec<String>, rows: &Vec<Row>) -> (lines: Vec<String>)
    ensures
        lines.deep_view() == dump_lines(schema.deep_view(), rows.deep_view()),
{
    let ghost declared = schema.deep_view();
    let mut lines = prologue(schema);
    let mut i: usize = 0;
    while i < rows.len()
        invariant
            i <= rows.len(),
            lines.deep_view() =~= prologue_lines(declared) + statements(rows.deep_view()).take(
                i as int,
            ),
        decreases rows.len() - i,
    {
        let sql = rows[i].to_sql();
        let ghost before = lines.deep_view();
        lines.push(sql);
        proof {
            let all = statements(rows.deep_view());
            assert(lines.deep_view() =~= before.push(sql@));
            assert(all[i as int] == statement(rows[i as int]@));
            assert(all.take(i + 1) =~= all.take(i as int).push(all[i as int]));
        }
        i += 1;
    }
    assert(statements(rows.deep_view()).take(i as int) =~= statements(rows.deep_view()));
    let mut tail = epilogue();
    let ghost closing = tail.deep_view();
    let ghost before = lines.deep_view();
    lines.append(&mut tail);
    assert(lines.deep_view() =~= before + closing);
    lines
}

/// Joins the lines of a dump into one text, for a reply that carries the
/// dump as its body: each line is ended by a line feed.
pub fn body_of(lines: &Vec<String>) -> (body: String)
    ensures
        body@ == joined(lines.deep_view()),
{
    let mut body = String::new();
    let mut i: usize = 0;
    while i < lines.len()
        invariant
            i <= lines.len(),
            body@ =~= joined(lines.deep_view().take(i as int)),
        decreases lines.len() - i,
    {
        proof {
            let all = lines.deep_view();
            assert(all.take(i + 1).drop_last() =~= all.take(i as int));
            assert(all.take(i + 1).last() == lines[i as int]@);
        }
        body.append(lines[i].as_str());
        body.push('\n');
        i += 1;
    }
    assert(lines.deep_view().take(i as int) =~= lines.deep_view());
    body
}

} // verus!
