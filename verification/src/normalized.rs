//! The normalized dump: a table of packages and a table of files that refer
//! to them by surrogate key.

use crate::dedup::{
    distinct, key_id, lemma_distinct_properties, lemma_distinct_push, lemma_key_id_stable, with_key,
    KeyTable,
};
use crate::entry::{decoded, lemma_decoded_len, EntryError, EntrySpec, IndexEntry};
use crate::pattern::{Pattern, PatternError};
use crate::sql::{
    dump, dump_lines, file_rows, lemma_filter_short, package_rows, Row, RowSpec,
};
use crate::text::{lossy_text, utf8_lossy};
use vstd::prelude::*;

verus! {

/// The store paths of `entries`, one per entry.
pub open spec fn stores(entries: Seq<EntrySpec>) -> Seq<Seq<char>> {
    entries.map_values(|entry: EntrySpec| entry.store_path)
}

/// The distinct store paths of `entries`, in the order in which the scan
/// first meets them.
pub open spec fn first_seen(entries: Seq<EntrySpec>) -> Seq<Seq<char>> {
    distinct(stores(entries))
}

/// The rows that one entry adds when `packages` already have rows, in that
/// order, and `files` file rows were written: a package row first if the
/// store path is new, then the file row.
pub open spec fn entry_rows(packages: Seq<Seq<char>>, files: nat, entry: EntrySpec) -> Seq<
    RowSpec,
> {
    if packages.contains(entry.store_path) {
        seq![
            RowSpec::File {
                id: files + 1,
                package_id: (packages.index_of(entry.store_path) + 1) as nat,
                file_path: utf8_lossy(entry.file_path),
            },
        ]
    } else {
        seq![
            RowSpec::Package { id: packages.len() + 1, store_path: entry.store_path },
            RowSpec::File {
                id: files + 1,
                package_id: packages.len() + 1,
                file_path: utf8_lossy(entry.file_path),
            },
        ]
    }
}

/// The rows of the normalized dump of `entries`, in emission order.
pub open spec fn normalized_rows(entries: Seq<EntrySpec>) -> Seq<RowSpec>
    decreases entries.len(),
{
    if entries.len() == 0 {
        Seq::empty()
    } else {
        let before = entries.drop_last();
        normalized_rows(before) + entry_rows(first_seen(before), before.len(), entries.last())
    }
}

/// The declarations of the two tables.
pub open spec fn schema_lines() -> Seq<Seq<char>> {
    seq![
        "CREATE TABLE packages (id INTEGER PRIMARY KEY, store_path TEXT UNIQUE);"@,
        "CREATE TABLE files (id INTEGER PRIMARY KEY, package_id INTEGER REFERENCES packages(id), file_path TEXT);"@,
    ]
}

/// The pattern that selects every entry of the index for this dump.
pub fn scan_pattern() -> (res: Result<Pattern, PatternError>)
    ensures
        res matches Ok(pattern) ==> pattern@ == ""@,
{
    Pattern::compile("")
}

/// The declarations of the two tables.
pub fn schema() -> (lines: Vec<String>)
    ensures
        lines.deep_view() == schema_lines(),
{
    let mut lines: Vec<String> = Vec::new();
    lines.push(
        String::from_str("CREATE TABLE packages (id INTEGER PRIMARY KEY, store_path TEXT UNIQUE);"),
    );
    lines.push(
        String::from_str(
            "CREATE TABLE files (id INTEGER PRIMARY KEY, package_id INTEGER REFERENCES packages(id), file_path TEXT);",
        ),
    );
    assert(lines.deep_view() =~= schema_lines());
    lines
}

/// The running state of a normalized dump: which packages have a row, and
/// how many file rows were written.
pub struct NormalizedEncoder {
    packages: KeyTable,
    files: u64,
}

impl NormalizedEncoder {
    /// The store paths that have a package row, in the order of their ids.
    pub closed spec fn packages(&self) -> Seq<Seq<char>> {
        self.packages.keys()
    }

    /// The number of file rows written so far.
    pub closed spec fn files(&self) -> nat {
        self.files as nat
    }

    /// The encoder's invariant: no package has two rows, and there are no
    /// more packages than files.
    pub closed spec fn wf(&self) -> bool {
        &&& self.packages.wf()
        &&& self.packages.keys().len() <= self.files
    }

    /// An encoder that has written nothing.
    pub fn new() -> (encoder: NormalizedEncoder)
        ensures
            encoder.wf(),
            encoder.packages() == Seq::<Seq<char>>::empty(),
            encoder.files() == 0,
    {
        NormalizedEncoder { packages: KeyTable::new(), files: 0 }
    }

    /// The number of file rows written so far.
    pub fn file_count(&self) -> (n: u64)
        ensures
            n as nat == self.files(),
    {
        self.files
    }

    /// Takes the next item of the stream and returns the rows to emit for
    /// it: none for a failure to decode; for an entry its file row, after
    /// the package row if the entry is the first of its package.
    pub fn push(&mut self, item: &Result<IndexEntry, EntryError>) -> (rows: Vec<Row>)
        requires
            old(self).wf(),
            old(self).files() < u64::MAX,
        ensures
            final(self).wf(),
            match *item {
                Ok(entry) => {
                    &&& rows.deep_view() == entry_rows(
                        old(self).packages(),
                        old(self).files(),
                        entry@,
                    )
                    &&& final(self).packages() == with_key(old(self).packages(), entry@.store_path)
                    &&& final(self).files() == old(self).files() + 1
                },
                Err(_) => {
                    &&& rows@.len() == 0
                    &&& final(self).packages() == old(self).packages()
                    &&& final(self).files() == old(self).files()
                },
            },
    {
        let mut rows: Vec<Row> = Vec::new();
        match item {
            Ok(entry) => {
                let ghost known = self.packages.keys();
                let (package_id, fresh) = self.packages.intern(entry.store_path.as_str());
                if fresh {
                    rows.push(Row::Package { id: package_id, store_path: entry.store_path.clone() });
                }
                self.files = self.files + 1;
                rows.push(
                    Row::File {
                        id: self.files,
                        package_id,
                        file_path: lossy_text(entry.file_path.as_slice()),
                    },
                );
                proof {
                    if fresh {
                        assert(known.push(entry@.store_path).index_of(entry@.store_path)
                            == known.len()) by {
                            self.packages.lemma_wf();
                            let grown = known.push(entry@.store_path);
                            let j = grown.index_of(entry@.store_path);
                            assert(grown[known.len() as int] == entry@.store_path);
                            if j != known.len() {
                                assert(known[j] == entry@.store_path);
                            }
                        }
                    }
                    assert(rows.deep_view() =~= entry_rows(known, old(self).files(), entry@));
                }
            },
            Err(_) => {},
        }
        rows
    }
}

/// The normalized rows of one more entry follow those of the entries before.
pub proof fn lemma_normalized_rows_push(entries: Seq<EntrySpec>, entry: EntrySpec)
    ensures
        normalized_rows(entries.push(entry)) == normalized_rows(entries) + entry_rows(
            first_seen(entries),
            entries.len(),
            entry,
        ),
        first_seen(entries.push(entry)) == with_key(first_seen(entries), entry.store_path),
{
    assert(entries.push(entry).drop_last() =~= entries);
    assert(stores(entries.push(entry)) =~= stores(entries).push(entry.store_path));
    lemma_distinct_push(stores(entries), entry.store_path);
}

/// The surrogate key of the package at `store_path`: its place among the
/// store paths in first-seen order, counted from 1.
pub open spec fn package_id(entries: Seq<EntrySpec>, store_path: Seq<char>) -> nat {
    (first_seen(entries).index_of(store_path) + 1) as nat
}

/// The table `packages` as it must come out: the distinct store paths in
/// first-seen order, numbered 1, 2, 3 and so on.
pub open spec fn package_table(entries: Seq<EntrySpec>) -> Seq<RowSpec> {
    Seq::new(
        first_seen(entries).len(),
        |i: int| RowSpec::Package { id: (i + 1) as nat, store_path: first_seen(entries)[i] },
    )
}

/// The table `files` as it must come out: one row per entry in scan order,
/// numbered 1, 2, 3 and so on, each with the key of its package.
pub open spec fn file_table(entries: Seq<EntrySpec>) -> Seq<RowSpec> {
    Seq::new(
        entries.len(),
        |k: int|
            RowSpec::File {
                id: (k + 1) as nat,
                package_id: package_id(entries, entries[k].store_path),
                file_path: utf8_lossy(entries[k].file_path),
            },
    )
}

/// The store paths in first-seen order are exactly the store paths of the
/// entries, each once: there are as many as there are distinct store paths.
pub proof fn lemma_first_seen_distinct(entries: Seq<EntrySpec>)
    ensures
        first_seen(entries).no_duplicates(),
        first_seen(entries).to_set() == stores(entries).to_set(),
        first_seen(entries).len() == stores(entries).to_set().len(),
        forall|k: int|
            0 <= k < entries.len() ==> first_seen(entries).contains(
                #[trigger] entries[k].store_path,
            ),
{
    lemma_distinct_properties(stores(entries));
    assert(first_seen(entries).to_set() =~= stores(entries).to_set());
    first_seen(entries).unique_seq_to_set();
    assert forall|k: int| 0 <= k < entries.len() implies first_seen(entries).contains(
        #[trigger] entries[k].store_path,
    ) by {
        assert(stores(entries)[k] == entries[k].store_path);
        assert(stores(entries).contains(entries[k].store_path));
    }
}

/// A package keeps its key when the scan goes on.
pub proof fn lemma_package_id_stable(entries: Seq<EntrySpec>, entry: EntrySpec, k: int)
    requires
        0 <= k < entries.len(),
    ensures
        package_id(entries.push(entry), entries[k].store_path) == package_id(
            entries,
            entries[k].store_path,
        ),
{
    lemma_first_seen_distinct(entries);
    lemma_normalized_rows_push(entries, entry);
    lemma_key_id_stable(first_seen(entries), entries[k].store_path, entry.store_path);
    lemma_first_seen_distinct(entries.push(entry));
    assert(entries.push(entry)[k] == entries[k]);
}

/// Every package gets exactly one row, and the package rows of the dump
/// are, in order, the distinct store paths in first-seen order with the ids
/// 1 to N: their number is the number of distinct store paths.
pub proof fn lemma_package_rows_dense(entries: Seq<EntrySpec>)
    ensures
        package_rows(normalized_rows(entries)) == package_table(entries),
        package_table(entries).len() == stores(entries).to_set().len(),
    decreases entries.len(),
{
    lemma_first_seen_distinct(entries);
    let is_package = |row: RowSpec| row is Package;
    if entries.len() == 0 {
        lemma_filter_short(arbitrary::<RowSpec>(), arbitrary::<RowSpec>(), is_package);
        assert(package_rows(normalized_rows(entries)) =~= package_table(entries));
    } else {
        let before = entries.drop_last();
        let last = entries.last();
        let known = first_seen(before);
        assert(before.push(last) =~= entries);
        lemma_package_rows_dense(before);
        lemma_normalized_rows_push(before, last);
        let added = entry_rows(known, before.len(), last);
        Seq::filter_distributes_over_add(normalized_rows(before), added, is_package);
        let file = RowSpec::File {
            id: before.len() + 1,
            package_id: if known.contains(last.store_path) {
                (known.index_of(last.store_path) + 1) as nat
            } else {
                known.len() + 1
            },
            file_path: utf8_lossy(last.file_path),
        };
        let package = RowSpec::Package { id: known.len() + 1, store_path: last.store_path };
        lemma_filter_short(file, file, is_package);
        lemma_filter_short(package, file, is_package);
        assert(package_rows(normalized_rows(entries)) =~= package_table(entries));
    }
}

/// The file rows of the dump are, in order, the entries in scan order with
/// the ids 1, 2, 3 and so on, each carrying the key of its own package:
/// there are as many as there are entries.
pub proof fn lemma_file_rows_in_scan_order(entries: Seq<EntrySpec>)
    ensures
        file_rows(normalized_rows(entries)) == file_table(entries),
        file_table(entries).len() == entries.len(),
        forall|k: int|
            0 <= k < entries.len() ==> key_id(first_seen(entries), #[trigger] entries[k].store_path)
                == Some(package_id(entries, entries[k].store_path)),
    decreases entries.len(),
{
    lemma_first_seen_distinct(entries);
    let is_file = |row: RowSpec| row is File;
    if entries.len() == 0 {
        lemma_filter_short(arbitrary::<RowSpec>(), arbitrary::<RowSpec>(), is_file);
        assert(file_rows(normalized_rows(entries)) =~= file_table(entries));
    } else {
        let before = entries.drop_last();
        let last = entries.last();
        let known = first_seen(before);
        assert(before.push(last) =~= entries);
        lemma_file_rows_in_scan_order(before);
        lemma_normalized_rows_push(before, last);
        lemma_first_seen_distinct(before);
        let added = entry_rows(known, before.len(), last);
        Seq::filter_distributes_over_add(normalized_rows(before), added, is_file);
        let last_id: nat = if known.contains(last.store_path) {
            (known.index_of(last.store_path) + 1) as nat
        } else {
            known.len() + 1
        };
        let file = RowSpec::File {
            id: before.len() + 1,
            package_id: last_id,
            file_path: utf8_lossy(last.file_path),
        };
        let package = RowSpec::Package { id: known.len() + 1, store_path: last.store_path };
        lemma_filter_short(file, file, is_file);
        lemma_filter_short(package, file, is_file);
        assert(file_rows(added) =~= seq![file]);
        assert(package_id(entries, last.store_path) == last_id) by {
            let grown = first_seen(entries);
            if known.contains(last.store_path) {
                assert(grown == known);
            } else {
                assert(grown[known.len() as int] == last.store_path);
                let j = grown.index_of(last.store_path);
                if j != known.len() {
                    assert(known[j] == last.store_path);
                }
            }
        }
        assert forall|k: int| 0 <= k < before.len() implies package_id(
            entries,
            before[k].store_path,
        ) == package_id(before, before[k].store_path) by {
            lemma_package_id_stable(before, last, k);
        }
        assert(file_rows(normalized_rows(entries)) =~= file_table(entries));
    }
}

/// No other rows are in the dump: each is a package row or a file row.
pub proof fn lemma_normalized_rows_kinds(entries: Seq<EntrySpec>)
    ensures
        forall|i: int|
            0 <= i < normalized_rows(entries).len() ==> {
                let row = #[trigger] normalized_rows(entries)[i];
                row is Package || row is File
            },
    decreases entries.len(),
{
    if entries.len() > 0 {
        lemma_normalized_rows_kinds(entries.drop_last());
    }
}

/// The rows of the normalized dump for a whole stream. Items that failed to
/// decode leave no trace.
pub fn rows(items: &Vec<Result<IndexEntry, EntryError>>) -> (rows: Vec<Row>)
    ensures
        rows.deep_view() == normalized_rows(decoded(items@)),
{
    let mut encoder = NormalizedEncoder::new();
    let mut rows: Vec<Row> = Vec::new();
    let mut i: usize = 0;
    while i < items.len()
        invariant
            i <= items.len(),
            encoder.wf(),
            encoder.packages() == first_seen(decoded(items@.take(i as int))),
            encoder.files() == decoded(items@.take(i as int)).len(),
            rows.deep_view() =~= normalized_rows(decoded(items@.take(i as int))),
        decreases items.len() - i,
    {
        let ghost before = rows.deep_view();
        let ghost seen = decoded(items@.take(i as int));
        proof {
            lemma_decoded_len(items@.take(i as int));
            assert(items@.take(i + 1).drop_last() =~= items@.take(i as int));
            assert(items@.take(i + 1).last() == items@[i as int]);
            if let Ok(entry) = items@[i as int] {
                lemma_normalized_rows_push(seen, entry@);
            }
        }
        let mut more = encoder.push(&items[i]);
        let ghost added = more.deep_view();
        rows.append(&mut more);
        assert(rows.deep_view() =~= before + added);
        i += 1;
    }
    assert(items@.take(i as int) =~= items@);
    rows
}

/// The whole normalized dump of a stream, line by line.
pub fn dump_sqlite_normalized(items: &Vec<Result<IndexEntry, EntryError>>) -> (lines: Vec<String>)
    ensures
        lines.deep_view() == dump_lines(schema_lines(), normalized_rows(decoded(items@))),
{
    let rows = rows(items);
    dump(schema(), &rows)
}

} // verus!
