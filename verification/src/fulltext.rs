//! The full-text dump: one searchable table with a row per index entry.

use crate::entry::{decoded, lemma_decoded_len, EntryError, EntrySpec, IndexEntry};
use crate::pattern::{Pattern, PatternError};
use crate::sql::{dump, dump_lines, statements, Row, RowSpec};
use crate::text::{lossy_text, utf8_lossy};
use vstd::prelude::*;

verus! {

/// The row of `entry`: its store path, and its file path read as text.
pub open spec fn entry_row(entry: EntrySpec) -> RowSpec {
    RowSpec::Entry { store_path: entry.store_path, file_path: utf8_lossy(entry.file_path) }
}

/// One row per entry, in the order of the entries.
pub open spec fn fulltext_rows(entries: Seq<EntrySpec>) -> Seq<RowSpec> {
    entries.map_values(|entry: EntrySpec| entry_row(entry))
}

/// The declaration of the searchable table.
pub open spec fn schema_lines() -> Seq<Seq<char>> {
    seq!["CREATE VIRTUAL TABLE entries USING FTS5(store_path, file_path);"@]
}

/// The dump holds one statement per decoded entry, between the four lines
/// that frame it and the one that declares the table: an item that failed to
/// decode adds nothing.
pub proof fn lemma_one_row_per_decoded_entry(items: Seq<Result<IndexEntry, EntryError>>)
    ensures
        fulltext_rows(decoded(items)).len() == decoded(items).len(),
        statements(fulltext_rows(decoded(items))).len() == decoded(items).len(),
        dump_lines(schema_lines(), fulltext_rows(decoded(items))).len() == decoded(items).len()
            + 5,
        decoded(items).len() <= items.len(),
{
    lemma_decoded_len(items);
}

/// The pattern that selects every entry of the index for this dump.
pub fn scan_pattern() -> (res: Result<Pattern, PatternError>)
    ensures
        res matches Ok(pattern) ==> pattern@ == ".*"@,
{
    Pattern::compile(".*")
}

/// The declaration of the searchable table.
pub fn schema() -> (lines: Vec<String>)
    ensures
        lines.deep_view() == schema_lines(),
{
    let mut lines: Vec<String> = Vec::new();
    lines.push(String::from_str("CREATE VIRTUAL TABLE entries USING FTS5(store_path, file_path);"));
    assert(lines.deep_view() =~= schema_lines());
    lines
}

/// Encodes one entry.
pub fn encode_entry(entry: &IndexEntry) -> (row: Row)
    ensures
        row@ == entry_row(entry@),
{
    Row::Entry {
        store_path: entry.store_path.clone(),
        file_path: lossy_text(entry.file_path.as_slice()),
    }
}

/// Encodes one item of the stream: a row for an entry, nothing for a
/// failure to decode.
pub fn encode_item(item: &Result<IndexEntry, EntryError>) -> (row: Option<Row>)
    ensures
        match *item {
            Ok(entry) => row.deep_view() == Some(entry_row(entry@)),
            Err(_) => row.is_none(),
        },
{
    match item {
        Ok(entry) => Some(encode_entry(entry)),
        Err(_) => None,
    }
}

/// The rows of the full-text table for a whole stream: one per decoded entry
/// and in stream order; items that failed to decode leave no trace.
pub fn rows(items: &Vec<Result<IndexEntry, EntryError>>) -> (rows: Vec<Row>)
    ensures
        rows.deep_view() == fulltext_rows(decoded(items@)),
        rows.len() == decoded(items@).len(),
{
    let mut rows: Vec<Row> = Vec::new();
    let mut i: usize = 0;
    while i < items.len()
        invariant
            i <= items.len(),
            rows.deep_view() =~= fulltext_rows(decoded(items@.take(i as int))),
        decreases items.len() - i,
    {
        let ghost before = rows.deep_view();
        proof {
            assert(items@.take(i + 1).drop_last() =~= items@.take(i as int));
            assert(items@.take(i + 1).last() == items@[i as int]);
        }
        match encode_item(&items[i]) {
            Some(row) => {
                rows.push(row);
                assert(rows.deep_view() =~= before.push(row@));
            },
            None => {},
        }
        i += 1;
    }
    assert(items@.take(i as int) =~= items@);
    rows
}

/// The whole full-text dump of a stream, line by line.
pub fn dump_sqlite_for_fulltext_search(items: &Vec<Result<IndexEntry, EntryError>>) -> (lines:
    Vec<String>)
    ensures
        lines.deep_view() == dump_lines(schema_lines(), fulltext_rows(decoded(items@))),
{
    let rows = rows(items);
    dump(schema(), &rows)
}

} // verus!
