//! What an index yields: entries, and the failures to decode one.

use vstd::prelude::*;

verus! {

/// One file of one package, as the index holds it.
#[derive(Debug, Clone, PartialEq, Eq)]
pub struct IndexEntry {
    /// The store path that identifies the package.
    pub store_path: String,
    /// The path of the file inside the package, as raw bytes.
    pub file_path: Vec<u8>,
}

/// The mathematical value of an `IndexEntry`.
pub struct EntrySpec {
    pub store_path: Seq<char>,
    pub file_path: Seq<u8>,
}

impl View for IndexEntry {
    type V = EntrySpec;

    open spec fn view(&self) -> EntrySpec {
        EntrySpec { store_path: self.store_path@, file_path: self.file_path@ }
    }
}

impl DeepView for IndexEntry {
    type V = EntrySpec;

    open spec fn deep_view(&self) -> EntrySpec {
        self@
    }
}

/// An item of the stream that could not be decoded into an entry.
#[derive(Debug, Clone, PartialEq, Eq)]
pub struct EntryError {
    /// What the reader of the index said about the failure.
    pub message: String,
}

/// The entries among `items`, in stream order, with the failures left out.
pub open spec fn decoded(items: Seq<Result<IndexEntry, EntryError>>) -> Seq<EntrySpec>
    decreases items.len(),
{
    if items.len() == 0 {
        Seq::empty()
    } else {
        match items.last() {
            Ok(entry) => decoded(items.drop_last()).push(entry@),
            Err(_) => decoded(items.drop_last()),
        }
    }
}

/// There are never more decoded entries than stream items.
pub proof fn lemma_decoded_len(items: Seq<Result<IndexEntry, EntryError>>)
    ensures
        decoded(items).len() <= items.len(),
    decreases items.len(),
{
    if items.len() > 0 {
        lemma_decoded_len(items.drop_last());
    }
}

} // verus!
