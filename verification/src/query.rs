//! The query service: from a request's pattern and the entries that the
//! index yields for it, to the JSON answer.

use crate::entry::{decoded, EntryError, EntrySpec, IndexEntry};
use crate::pattern::{Pattern, PatternError};
use crate::text::{digit_char, lossy_text, utf8_lossy};
use vstd::prelude::*;

verus! {

/// The number of results that an answer holds at most.
pub const MAX_RESULTS: usize = 10;

/// Why a request got no answer.
#[derive(Debug, Clone, PartialEq, Eq)]
pub enum QueryError {
    /// The request carries no `query` parameter.
    MissingQuery,
    /// The `query` parameter is not a well-formed pattern.
    BadPattern(PatternError),
    /// One of the stream items that the answer needs failed to decode.
    CorruptEntry(EntryError),
}

/// One search result: a package and a file in it, both as text.
#[derive(Debug, Clone, PartialEq, Eq)]
pub struct SearchResult {
    pub store_path: String,
    pub file_path: String,
}

/// The mathematical value of a `SearchResult`.
pub struct ResultSpec {
    pub store_path: Seq<char>,
    pub file_path: Seq<char>,
}

impl View for SearchResult {
    type V = ResultSpec;

    open spec fn view(&self) -> ResultSpec {
        ResultSpec { store_path: self.store_path@, file_path: self.file_path@ }
    }
}

impl DeepView for SearchResult {
    type V = ResultSpec;

    open spec fn deep_view(&self) -> ResultSpec {
        self@
    }
}

/// The answer to a request.
#[derive(Debug, Clone, PartialEq, Eq)]
pub struct QueryResponse {
    /// The pattern, as the request gave it.
    pub query: String,
    /// The first results, in the order of the stream.
    pub search_results: Vec<SearchResult>,
}

/// What goes back over the network for an answered request.
#[derive(Debug, Clone, PartialEq, Eq)]
pub struct HttpReply {
    pub status: u16,
    pub body: String,
}

/// The search result that an entry becomes: its store path, and its file
/// path read as text.
pub open spec fn result_of(entry: EntrySpec) -> ResultSpec {
    ResultSpec { store_path: entry.store_path, file_path: utf8_lossy(entry.file_path) }
}

/// One result per entry, in order.
pub open spec fn results_of(entries: Seq<EntrySpec>) -> Seq<ResultSpec> {
    entries.map_values(|entry: EntrySpec| result_of(entry))
}

/// The stream items that an answer looks at: the first ten, or all if there
/// are fewer.
pub open spec fn head(items: Seq<Result<IndexEntry, EntryError>>) -> Seq<
    Result<IndexEntry, EntryError>,
> {
    if items.len() <= MAX_RESULTS {
        items
    } else {
        items.take(MAX_RESULTS as int)
    }
}

/// An answer looks at ten items, or at all of them if there are fewer.
pub proof fn lemma_head_len(items: Seq<Result<IndexEntry, EntryError>>)
    ensures
        head(items).len() == if items.len() <= 10 {
            items.len()
        } else {
            10
        },
        forall|i: int| 0 <= i < head(items).len() ==> head(items)[i] == items[i],
{
}

/// Whether the item at `i` is the first that failed to decode.
pub open spec fn first_failure_at(items: Seq<Result<IndexEntry, EntryError>>, i: int) -> bool {
    &&& 0 <= i < items.len()
    &&& items[i] is Err
    &&& forall|j: int| 0 <= j < i ==> (#[trigger] items[j]) is Ok
}

/// Whether every item decoded.
pub open spec fn all_decoded(items: Seq<Result<IndexEntry, EntryError>>) -> bool {
    forall|j: int| 0 <= j < items.len() ==> (#[trigger] items[j]) is Ok
}

/// The character that writes the hexadecimal digit `d`, in lower case.
pub open spec fn hex_digit_char(d: nat) -> char
    recommends
        d < 16,
{
    if d < 10 {
        digit_char(d)
    } else if d == 10 {
        'a'
    } else if d == 11 {
        'b'
    } else if d == 12 {
        'c'
    } else if d == 13 {
        'd'
    } else if d == 14 {
        'e'
    } else {
        'f'
    }
}

/// How one character stands inside a JSON string: the quote and the
/// backslash behind a backslash, the control characters by their short
/// escape where JSON has one and as `\u00XX` where it has none, and every
/// other character as itself.
pub open spec fn json_char(c: char) -> Seq<char> {
    if c == '"' {
        seq!['\\', '"']
    } else if c == '\\' {
        seq!['\\', '\\']
    } else if c == '\n' {
        seq!['\\', 'n']
    } else if c == '\r' {
        seq!['\\', 'r']
    } else if c == '\t' {
        seq!['\\', 't']
    } else if c == '\u{8}' {
        seq!['\\', 'b']
    } else if c == '\u{c}' {
        seq!['\\', 'f']
    } else if (c as u32) < 0x20 {
        seq![
            '\\',
            'u',
            '0',
            '0',
            hex_digit_char((c as u32 / 16) as nat),
            hex_digit_char((c as u32 % 16) as nat),
        ]
    } else {
        seq![c]
    }
}

/// The characters of `s` as they stand inside a JSON string.
pub open spec fn json_escaped(s: Seq<char>) -> Seq<char>
    decreases s.len(),
{
    if s.len() == 0 {
        Seq::empty()
    } else {
        json_char(s[0]) + json_escaped(s.drop_first())
    }
}

/// The JSON string that holds `s`.
pub open spec fn json_string(s: Seq<char>) -> Seq<char> {
    seq!['"'] + json_escaped(s) + seq!['"']
}

/// One result as JSON: the array of its two texts.
pub open spec fn json_result(result: ResultSpec) -> Seq<char> {
    seq!['['] + json_string(result.store_path) + seq![','] + json_string(result.file_path) + seq![
        ']',
    ]
}

/// The results as JSON, with commas between them.
pub open spec fn json_results(results: Seq<ResultSpec>) -> Seq<char>
    decreases results.len(),
{
    if results.len() == 0 {
        Seq::empty()
    } else if results.len() == 1 {
        json_result(results[0])
    } else {
        json_results(results.drop_last()) + seq![','] + json_result(results.last())
    }
}

/// The body of an answer: a JSON object with the pattern under `query` and
/// the array of results under `search_results`.
pub open spec fn response_json(query: Seq<char>, results: Seq<ResultSpec>) -> Seq<char> {
    "{\"query\":"@ + json_string(query) + ",\"search_results\":["@ + json_results(results) + "]}"@
}

/// Escaping a text that ends in `c` is escaping the text before it and
/// then `c`.
pub proof fn lemma_json_escaped_push(s: Seq<char>, c: char)
    ensures
        json_escaped(s.push(c)) == json_escaped(s) + json_char(c),
    decreases s.len(),
{
    if s.len() == 0 {
        assert(s.push(c).drop_first() =~= Seq::<char>::empty());
        assert(json_escaped(s.push(c)) =~= json_char(c) + json_escaped(Seq::empty()));
        assert(json_escaped(s.push(c)) =~= json_escaped(s) + json_char(c));
    } else {
        lemma_json_escaped_push(s.drop_first(), c);
        assert(s.push(c).drop_first() =~= s.drop_first().push(c));
        assert(json_escaped(s.push(c)) =~= json_escaped(s) + json_char(c));
    }
}

/// Reads the request's `query` parameter as a pattern. A request without
/// the parameter is refused; so is one whose pattern does not compile.
pub fn parse_query(query: Option<&str>) -> (res: Result<Pattern, QueryError>)
    ensures
        match query {
            None => res matches Err(QueryError::MissingQuery),
            Some(source) => match res {
                Ok(pattern) => pattern@ == source@,
                Err(error) => error is BadPattern,
            },
        },
{
    match query {
        None => Err(QueryError::MissingQuery),
        Some(source) => match Pattern::compile(source) {
            Ok(pattern) => Ok(pattern),
            Err(error) => Err(QueryError::BadPattern(error)),
        },
    }
}

/// The results of a request: the first ten items of the stream, or all if
/// there are fewer, each as a search result. If one of those items failed
/// to decode, the first such failure is the outcome; later items are never
/// looked at.
pub fn top_results(items: &Vec<Result<IndexEntry, EntryError>>) -> (res: Result<
    Vec<SearchResult>,
    QueryError,
>)
    ensures
        match res {
            Ok(results) => {
                &&& all_decoded(head(items@))
                &&& results.deep_view() == results_of(decoded(head(items@)))
                &&& results.len() == head(items@).len()
            },
            Err(error) => exists|i: int|
                {
                    &&& first_failure_at(head(items@), i)
                    &&& error matches QueryError::CorruptEntry(failure)
                    &&& failure.message@ == (#[trigger] head(items@)[i])->Err_0.message@
                },
        },
{
    let limit = if items.len() <= MAX_RESULTS {
        items.len()
    } else {
        MAX_RESULTS
    };
    let ghost looked_at = head(items@);
    let mut results: Vec<SearchResult> = Vec::new();
    let mut i: usize = 0;
    while i < limit
        invariant
            i <= limit,
            limit == looked_at.len(),
            limit <= items.len(),
            looked_at == head(items@),
            forall|j: int| 0 <= j < limit ==> looked_at[j] == items@[j],
            forall|j: int| 0 <= j < i ==> (#[trigger] looked_at[j]) is Ok,
            results.len() == i,
            results.deep_view() =~= results_of(decoded(looked_at.take(i as int))),
        decreases limit - i,
    {
        let ghost before = results.deep_view();
        proof {
            assert(looked_at.take(i + 1).drop_last() =~= looked_at.take(i as int));
            assert(looked_at.take(i + 1).last() == items@[i as int]);
        }
        match &items[i] {
            Ok(entry) => {
                let result = SearchResult {
                    store_path: entry.store_path.clone(),
                    file_path: lossy_text(entry.file_path.as_slice()),
                };
                results.push(result);
                assert(results.deep_view() =~= before.push(result@));
            },
            Err(failure) => {
                assert(first_failure_at(looked_at, i as int));
                return Err(
                    QueryError::CorruptEntry(EntryError { message: failure.message.clone() }),
                );
            },
        }
        i += 1;
    }
    assert(looked_at.take(i as int) =~= looked_at);
    Ok(results)
}

/// Answers a request for `query` from the items that the index yielded for
/// it.
pub fn answer(query: &str, items: &Vec<Result<IndexEntry, EntryError>>) -> (res: Result<
    QueryResponse,
    QueryError,
>)
    ensures
        match res {
            Ok(response) => {
                &&& all_decoded(head(items@))
                &&& response.query@ == query@
                &&& response.search_results.deep_view() == results_of(decoded(head(items@)))
                &&& response.search_results.len() == head(items@).len()
            },
            Err(error) => exists|i: int|
                {
                    &&& first_failure_at(head(items@), i)
                    &&& error matches QueryError::CorruptEntry(failure)
                    &&& failure.message@ == (#[trigger] head(items@)[i])->Err_0.message@
                },
        },
{
    match top_results(items) {
        Ok(search_results) => Ok(QueryResponse { query: String::from_str(query), search_results }),
        Err(error) => Err(error),
    }
}

fn hex_digit(d: u32) -> (c: char)
    requires
        d < 16,
    ensures
        c == hex_digit_char(d as nat),
{
    if d == 0 {
        '0'
    } else if d == 1 {
        '1'
    } else if d == 2 {
        '2'
    } else if d == 3 {
        '3'
    } else if d == 4 {
        '4'
    } else if d == 5 {
        '5'
    } else if d == 6 {
        '6'
    } else if d == 7 {
        '7'
    } else if d == 8 {
        '8'
    } else if d == 9 {
        '9'
    } else if d == 10 {
        'a'
    } else if d == 11 {
        'b'
    } else if d == 12 {
        'c'
    } else if d == 13 {
        'd'
    } else if d == 14 {
        'e'
    } else {
        'f'
    }
}

fn push_json_char(out: &mut String, c: char)
    ensures
        final(out)@ == old(out)@ + json_char(c),
{
    if c == '"' {
        out.push('\\');
        out.push('"');
    } else if c == '\\' {
        out.push('\\');
        out.push('\\');
    } else if c == '\n' {
        out.push('\\');
        out.push('n');
    } else if c == '\r' {
        out.push('\\');
        out.push('r');
    } else if c == '\t' {
        out.push('\\');
        out.push('t');
    } else if c == '\u{8}' {
        out.push('\\');
        out.push('b');
    } else if c == '\u{c}' {
        out.push('\\');
        out.push('f');
    } else if (c as u32) < 0x20 {
        out.push('\\');
        out.push('u');
        out.push('0');
        out.push('0');
        out.push(hex_digit(c as u32 / 16));
        out.push(hex_digit(c as u32 % 16));
    } else {
        out.push(c);
    }
    assert(out@ =~= old(out)@ + json_char(c));
}

/// Appends `s` to `out` as a JSON string.
pub fn push_json_string(out: &mut String, s: &str)
    ensures
        final(out)@ == old(out)@ + json_string(s@),
{
    out.push('"');
    let chars = s.chars();
    for c in iter: chars
        invariant
            iter.seq() == s@,
            out@ == old(out)@ + seq!['"'] + json_escaped(s@.take(iter.index() as int)),
    {
        let ghost before = out@;
        proof {
            let k = iter.index() as int;
            lemma_json_escaped_push(s@.take(k), c);
            assert(s@.take(k + 1) =~= s@.take(k).push(c));
        }
        push_json_char(out, c);
        assert(out@ =~= old(out)@ + seq!['"'] + json_escaped(s@.take(iter.index() + 1)));
    }
    proof {
        assert(s@.take(s@.len() as int) =~= s@);
    }
    out.push('"');
    assert(out@ =~= old(out)@ + json_string(s@));
}

fn push_json_result(out: &mut String, result: &SearchResult)
    ensures
        final(out)@ == old(out)@ + json_result(result@),
{
    out.push('[');
    push_json_string(out, result.store_path.as_str());
    out.push(',');
    push_json_string(out, result.file_path.as_str());
    out.push(']');
    assert(out@ =~= old(out)@ + json_result(result@));
}

impl QueryResponse {
    /// Writes the answer as JSON.
    pub fn to_json(&self) -> (json: String)
        ensures
            json@ == response_json(self.query@, self.search_results.deep_view()),
    {
        let ghost results = self.search_results.deep_view();
        let mut json = String::from_str("{\"query\":");
        push_json_string(&mut json, self.query.as_str());
        json.append(",\"search_results\":[");
        let ghost opening = json@;
        let mut i: usize = 0;
        assert(json_results(results.take(0)) =~= Seq::<char>::empty());
        while i < self.search_results.len()
            invariant
                i <= self.search_results.len(),
                results == self.search_results.deep_view(),
                json@ =~= opening + json_results(results.take(i as int)),
            decreases self.search_results.len() - i,
        {
            proof {
                assert(results.take(i + 1).drop_last() =~= results.take(i as int));
                assert(results.take(i + 1).last() == self.search_results[i as int]@);
            }
            if i > 0 {
                json.push(',');
            }
            push_json_result(&mut json, &self.search_results[i]);
            i += 1;
        }
        assert(results.take(i as int) =~= results);
        json.append("]}");
        json
    }

    /// The reply that carries the answer: status 200 and the JSON body.
    pub fn reply(&self) -> (reply: HttpReply)
        ensures
            reply.status == 200,
            reply.body@ == response_json(self.query@, self.search_results.deep_view()),
    {
        HttpReply { status: 200, body: self.to_json() }
    }
}

} // verus!
