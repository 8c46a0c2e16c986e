//! How it is stored which files were opened, when, and for which queries.

use vstd::prelude::*;

use crate::fff::hash;
use crate::fff::hash::{hash_to_hex, hex_to_hash, query_history_id, query_match_id, HashError};
use crate::text;
use crate::text::{join, same_text, text_starts_with};

verus! {

/// The mark by which it is known that older stores have been taken over.
pub fn import_marker() -> (r: String)
    ensures
        r@ == "fff-cache-v1"@,
{
    "fff-cache-v1".to_owned()
}

/// How many entries of an older history are taken over.
pub const LEGACY_HISTORY_LIMIT: usize = 128;

/// When a file was opened.
#[derive(Debug)]
pub struct FrecencyEntry {
    pub workspace: String,
    pub path_hash: String,
    pub first_accessed_at: i64,
    pub last_accessed_at: i64,
    pub access_count: i64,
    pub timestamps_json: String,
}

/// A query that was made, or the file that was opened for one.
#[derive(Debug)]
pub struct QueryHistory {
    pub id: String,
    pub workspace: String,
    pub query: String,
    pub opened_path: String,
    pub ts: i64,
}

/// What a search was for.
#[derive(Debug, Clone, Copy, PartialEq, Eq, Structural)]
pub enum QueryHistoryKind {
    File,
    Grep,
}

pub open spec fn kind_name(kind: QueryHistoryKind) -> Seq<char> {
    match kind {
        QueryHistoryKind::File => "file"@,
        QueryHistoryKind::Grep => "grep"@,
    }
}

pub fn query_history_kind(kind: QueryHistoryKind) -> (r: &'static str)
    ensures
        r@ == kind_name(kind),
{
    match kind {
        QueryHistoryKind::File => "file",
        QueryHistoryKind::Grep => "grep",
    }
}

/// The numbers in decimal, with commas between them.
pub open spec fn comma_list(numbers: Seq<u64>) -> Seq<char>
    decreases numbers.len(),
{
    if numbers.len() == 0 {
        seq![]
    } else if numbers.len() == 1 {
        text::decimal(numbers[0] as nat)
    } else {
        comma_list(numbers.drop_last()) + seq![','] + text::decimal(numbers.last() as nat)
    }
}

/// A JSON array of numbers, without white space.
pub open spec fn json_array(numbers: Seq<u64>) -> Seq<char> {
    seq!['['] + comma_list(numbers) + seq![']']
}

/// What a JSON text says, read as an array of numbers.
pub uninterp spec fn json_numbers(json: Seq<char>) -> Option<Seq<u64>>;

/// An error of the JSON reader.
#[verifier::external_type_specification]
#[verifier::external_body]
pub struct ExJsonError(serde_json::Error);

/// `serde_json::to_string` on a list of numbers: their JSON array, without white space. Writing
/// numbers does not fail.
#[verifier::external_body]
fn to_json(numbers: &Vec<u64>) -> (r: Result<String, serde_json::Error>)
    ensures
        match r {
            Ok(json) => json@ == json_array(numbers@),
            Err(_) => false,
        },
{
    serde_json::to_string(numbers)
}

/// `serde_json::from_str` into a list of numbers: depends on the text alone, and gives back the
/// numbers of an array that was written without white space. What it makes of other texts is not
/// said.
#[verifier::external_body]
fn from_json(json: &str) -> (r: Result<Vec<u64>, serde_json::Error>)
    ensures
        match r {
            Ok(numbers) => json_numbers(json@) == Some(numbers@),
            Err(_) => json_numbers(json@) is None,
        },
        forall|numbers: Seq<u64>|
            json@ == #[trigger] json_array(numbers) ==> match r {
                Ok(read) => read@ == numbers,
                Err(_) => false,
            },
{
    serde_json::from_str(json)
}

/// Why an entry cannot be used.
#[derive(Debug, Clone, Copy, PartialEq, Eq, Structural)]
pub enum StoreError {
    Hash(HashError),
    /// The times are not a list of numbers.
    Timestamps,
}

pub open spec fn first_of(accesses: Seq<u64>) -> u64 {
    if accesses.len() > 0 {
        accesses[0]
    } else {
        0
    }
}

pub open spec fn last_of(accesses: Seq<u64>) -> u64 {
    if accesses.len() > 0 {
        accesses.last()
    } else {
        0
    }
}

/// The entry says that the file was opened at those times.
pub open spec fn records(
    entry: FrecencyEntry,
    workspace: Seq<char>,
    path_hash: Seq<u8>,
    accesses: Seq<u64>,
) -> bool {
    &&& entry.workspace@ == workspace
    &&& entry.path_hash@ == hash::hex(path_hash)
    &&& entry.first_accessed_at == first_of(accesses) as i64
    &&& entry.last_accessed_at == last_of(accesses) as i64
    &&& entry.access_count == accesses.len() as i64
    &&& entry.timestamps_json@ == json_array(accesses)
}

/// The entry for a file that was opened at those times.
pub fn frecency_entry(workspace: &str, path_hash: &[u8; 32], accesses: &Vec<u64>) -> (r: Result<
    FrecencyEntry,
    StoreError,
>)
    ensures
        r matches Ok(entry) && records(entry, workspace@, path_hash@, accesses@),
{
    let timestamps_json = match to_json(accesses) {
        Ok(json) => json,
        Err(_) => {
            return Err(StoreError::Timestamps);
        },
    };
    let first: u64 = if accesses.len() > 0 {
        accesses[0]
    } else {
        0
    };
    let last: u64 = if accesses.len() > 0 {
        accesses[accesses.len() - 1]
    } else {
        0
    };
    Ok(
        FrecencyEntry {
            workspace: workspace.to_owned(),
            path_hash: hash_to_hex(path_hash),
            first_accessed_at: #[verifier::truncate] (first as i64),
            last_accessed_at: #[verifier::truncate] (last as i64),
            access_count: #[verifier::truncate] (accesses.len() as i64),
            timestamps_json,
        },
    )
}

/// What was stored about a file.
#[derive(Debug)]
pub struct FrecencyRecord {
    pub path_hash: [u8; 32],
    pub accesses: Vec<u64>,
}

/// Reads an entry; `times` is what its list of times was read as.
pub fn frecency_record_with(path_hash: &str, times: Option<Vec<u64>>) -> (r: Result<
    FrecencyRecord,
    StoreError,
>)
    requires
        vstd::utf8::encode_utf8(path_hash@).len() == 64 ==> hash::pairs_are_whole(
            vstd::utf8::encode_utf8(path_hash@),
        ),
    ensures
        ({
            let bytes = vstd::utf8::encode_utf8(path_hash@);
            match r {
                Ok(record) => {
                    &&& bytes.len() == 64 && hash::first_unreadable(bytes, 0) == 32
                    &&& forall|i: int|
                        0 <= i < 32 ==> Some(#[trigger] record.path_hash@[i]) == hash::hex_pair(
                            bytes[2 * i],
                            bytes[2 * i + 1],
                        )
                    &&& times == Some(record.accesses)
                },
                Err(StoreError::Hash(HashError::InvalidLength(n))) => n == bytes.len() && n != 64,
                Err(StoreError::Hash(HashError::InvalidByte(i))) => bytes.len() == 64 && i
                    == hash::first_unreadable(bytes, 0) && i < 32,
                Err(StoreError::Timestamps) => bytes.len() == 64 && hash::first_unreadable(bytes, 0)
                    == 32 && times is None,
            }
        }),
{
    let path_hash = match hex_to_hash(path_hash) {
        Ok(read) => read,
        Err(error) => {
            return Err(StoreError::Hash(error));
        },
    };
    match times {
        Some(accesses) => Ok(FrecencyRecord { path_hash, accesses }),
        None => Err(StoreError::Timestamps),
    }
}

/// A hash of the right length holds whole characters, two by two.
pub open spec fn readable(entry: FrecencyEntry) -> bool {
    let bytes = vstd::utf8::encode_utf8(entry.path_hash@);
    bytes.len() == 64 ==> hash::pairs_are_whole(bytes)
}

/// The entry is read as `r`. A bad hash is told before bad times.
pub open spec fn reads(entry: FrecencyEntry, r: Result<FrecencyRecord, StoreError>) -> bool {
    let bytes = vstd::utf8::encode_utf8(entry.path_hash@);
    match r {
        Ok(record) => {
            &&& bytes.len() == 64 && hash::first_unreadable(bytes, 0) == 32
            &&& forall|i: int|
                0 <= i < 32 ==> Some(#[trigger] record.path_hash@[i]) == hash::hex_pair(
                    bytes[2 * i],
                    bytes[2 * i + 1],
                )
            &&& json_numbers(entry.timestamps_json@) == Some(record.accesses@)
        },
        Err(StoreError::Hash(HashError::InvalidLength(n))) => n == bytes.len() && n != 64,
        Err(StoreError::Hash(HashError::InvalidByte(i))) => bytes.len() == 64 && i
            == hash::first_unreadable(bytes, 0) && i < 32,
        Err(StoreError::Timestamps) => bytes.len() == 64 && hash::first_unreadable(bytes, 0) == 32
            && json_numbers(entry.timestamps_json@) is None,
    }
}

/// The entry can be read.
pub open spec fn reads_well(entry: FrecencyEntry) -> bool {
    exists|record: FrecencyRecord| #[trigger] reads(entry, Ok(record))
}

/// Reads an entry.
pub fn frecency_record(entry: &FrecencyEntry) -> (r: Result<FrecencyRecord, StoreError>)
    requires
        readable(*entry),
    ensures
        reads(*entry, r),
        // What was written is read back.
        forall|workspace: Seq<char>, path_hash: Seq<u8>, accesses: Seq<u64>|
            path_hash.len() == 32 && #[trigger] records(*entry, workspace, path_hash, accesses)
                ==> (r matches Ok(record) && record.path_hash@ == path_hash && record.accesses@
                == accesses),
{
    let times = match from_json(entry.timestamps_json.as_str()) {
        Ok(accesses) => Some(accesses),
        Err(_) => None,
    };
    let r = frecency_record_with(entry.path_hash.as_str(), times);
    proof {
        assert forall|workspace: Seq<char>, path_hash: Seq<u8>, accesses: Seq<u64>|
            path_hash.len() == 32 && #[trigger] records(*entry, workspace, path_hash, accesses)
                implies (r matches Ok(record) && record.path_hash@ == path_hash
                && record.accesses@ == accesses) by {
            hash::law_written_hashes_are_read_back(path_hash);
            assert(entry.timestamps_json@ == json_array(accesses));
            let bytes = vstd::utf8::encode_utf8(entry.path_hash@);
            match r {
                Ok(record) => {
                    assert forall|i: int| 0 <= i < 32 implies record.path_hash@[i]
                        == path_hash[i] by {
                        assert(hash::hex_pair(bytes[2 * i], bytes[2 * i + 1]) == Some(
                            path_hash[i],
                        ));
                    }
                    assert(record.path_hash@ =~= path_hash);
                },
                Err(_) => {},
            }
        }
    }
    r
}

/// Reads all entries of a workspace, or tells what is wrong with the first that cannot be read.
pub fn load_all(entries: &Vec<FrecencyEntry>) -> (r: Result<Vec<FrecencyRecord>, StoreError>)
    requires
        forall|i: int| 0 <= i < entries@.len() ==> readable(#[trigger] entries@[i]),
    ensures
        match r {
            Ok(records) => {
                &&& records@.len() == entries@.len()
                &&& forall|i: int|
                    0 <= i < entries@.len() ==> reads(entries@[i], Ok(#[trigger] records@[i]))
            },
            Err(error) => exists|i: int|
                0 <= i < entries@.len() && reads(#[trigger] entries@[i], Err(error)) && forall|j: int|
                    0 <= j < i ==> reads_well(#[trigger] entries@[j]),
        },
{
    let mut records: Vec<FrecencyRecord> = Vec::new();
    let mut i: usize = 0;
    while i < entries.len()
        invariant
            i <= entries@.len(),
            records@.len() == i,
            forall|j: int| 0 <= j < entries@.len() ==> readable(#[trigger] entries@[j]),
            forall|j: int| 0 <= j < i ==> reads(entries@[j], Ok(#[trigger] records@[j])),
        decreases entries@.len() - i,
    {
        match frecency_record(&entries[i]) {
            Ok(record) => {
                records.push(record);
            },
            Err(error) => {
                assert forall|j: int| 0 <= j < i implies reads_well(#[trigger] entries@[j]) by {
                    assert(reads(entries@[j], Ok(records@[j])));
                }
                assert(reads(entries@[i as int], Err(error)));
                return Err(error);
            },
        }
        i += 1;
    }
    Ok(records)
}

pub open spec fn is_match_row(
    row: QueryHistory,
    workspace: Seq<char>,
    query: Seq<char>,
    payload: Seq<char>,
    ts: u64,
) -> bool {
    &&& row.id@ == "fff:assoc:"@ + text::hex_fixed(
        hash::fnv_parts(seq![workspace, query]) as nat,
        16,
    )
    &&& row.workspace@ == workspace
    &&& row.query@ == query
    &&& row.opened_path@ == payload
    &&& row.ts == ts as i64
}

/// The row that keeps which file was opened for a query.
pub fn query_match_row(workspace: &str, query: &str, payload_json: &str, ts: u64) -> (r: QueryHistory)
    ensures
        is_match_row(r, workspace@, query@, payload_json@, ts),
{
    QueryHistory {
        id: query_match_id(workspace, query),
        workspace: workspace.to_owned(),
        query: query.to_owned(),
        opened_path: payload_json.to_owned(),
        ts: #[verifier::truncate] (ts as i64),
    }
}

pub open spec fn is_history_row(
    row: QueryHistory,
    workspace: Seq<char>,
    kind: Seq<char>,
    query: Seq<char>,
    ts: u64,
) -> bool {
    let at = text::signed_decimal((ts as i64) as int);
    &&& row.id@ == "fff:history:"@ + kind + seq![':'] + at + seq![':'] + text::hex_fixed(
        hash::fnv_parts(seq![workspace, kind, query, at]) as nat,
        16,
    )
    &&& row.workspace@ == workspace
    &&& row.query@ == query
    &&& row.opened_path@ == "fff:history:"@ + kind
    &&& row.ts == ts as i64
}

/// The row that keeps that a query was made.
pub fn history_row(workspace: &str, kind: &str, query: &str, ts: u64) -> (r: QueryHistory)
    ensures
        is_history_row(r, workspace@, kind@, query@, ts),
{
    let at: i64 = #[verifier::truncate] (ts as i64);
    QueryHistory {
        id: query_history_id(workspace, kind, query, at),
        workspace: workspace.to_owned(),
        query: query.to_owned(),
        opened_path: join("fff:history:", kind),
        ts: at,
    }
}

/// How many rows there are of each sort.
#[derive(Debug, Clone, Copy, PartialEq, Eq, Structural)]
pub struct EntryCounts {
    pub query_file_entries: u64,
    pub query_history_entries: u64,
    pub grep_query_history_entries: u64,
}

/// What a row adds to the counts.
pub open spec fn counted(counts: (nat, nat, nat), row: QueryHistory) -> (nat, nat, nat) {
    (
        counts.0 + (if text::starts_with(row.id@, "fff:assoc:"@) {
            1nat
        } else {
            0
        }),
        counts.1 + (if row.opened_path@ == "fff:history:file"@ {
            1nat
        } else {
            0
        }),
        counts.2 + (if row.opened_path@ == "fff:history:grep"@ {
            1nat
        } else {
            0
        }),
    )
}

pub open spec fn all_counted(rows: Seq<QueryHistory>) -> (nat, nat, nat)
    decreases rows.len(),
{
    if rows.len() == 0 {
        (0, 0, 0)
    } else {
        counted(all_counted(rows.drop_last()), rows.last())
    }
}

/// Counts the rows of a workspace.
pub fn entry_counts(rows: &Vec<QueryHistory>) -> (r: EntryCounts)
    ensures
        (
            r.query_file_entries as nat,
            r.query_history_entries as nat,
            r.grep_query_history_entries as nat,
        ) == all_counted(rows@),
{
    let mut counts = EntryCounts {
        query_file_entries: 0,
        query_history_entries: 0,
        grep_query_history_entries: 0,
    };
    let total: usize = rows.len();
    let mut i: usize = 0;
    assert(rows@.take(0) =~= seq![]);
    while i < total
        invariant
            i <= total == rows@.len(),
            counts.query_file_entries <= i,
            counts.query_history_entries <= i,
            counts.grep_query_history_entries <= i,
            (
                counts.query_file_entries as nat,
                counts.query_history_entries as nat,
                counts.grep_query_history_entries as nat,
            ) == all_counted(rows@.take(i as int)),
        decreases total - i,
    {
        assert(rows@.take(i + 1).drop_last() =~= rows@.take(i as int));
        let row = &rows[i];
        if text_starts_with(row.id.as_str(), "fff:assoc:") {
            counts.query_file_entries = counts.query_file_entries + 1;
        }
        if same_text(row.opened_path.as_str(), "fff:history:file") {
            counts.query_history_entries = counts.query_history_entries + 1;
        }
        if same_text(row.opened_path.as_str(), "fff:history:grep") {
            counts.grep_query_history_entries = counts.grep_query_history_entries + 1;
        }
        i += 1;
    }
    assert(rows@.take(i as int) =~= rows@);
    counts
}

/// Whether older stores are taken over: one exists, and it has not been done yet.
pub fn should_import(frecency_exists: bool, queries_exist: bool, already_imported: bool) -> (r: bool)
    ensures
        r == ((frecency_exists || queries_exist) && !already_imported),
{
    (frecency_exists || queries_exist) && !already_imported
}

/// Whether an entry of an older store is taken over: its key is a hash and it has times.
pub open spec fn is_importable(key: Seq<u8>, accesses: Seq<u64>) -> bool {
    key.len() == 32 && accesses.len() > 0
}

/// The entries of an older store that are taken over.
pub open spec fn importable(items: Seq<(Vec<u8>, Vec<u64>)>) -> Seq<(Vec<u8>, Vec<u64>)>
    decreases items.len(),
{
    if items.len() == 0 {
        seq![]
    } else {
        let rest = importable(items.drop_last());
        if is_importable(items.last().0@, items.last().1@) {
            rest.push(items.last())
        } else {
            rest
        }
    }
}

fn hash_from(key: &Vec<u8>) -> (r: [u8; 32])
    requires
        key@.len() == 32,
    ensures
        r@ == key@,
{
    let mut out: [u8; 32] = [0u8;32];
    let mut i: usize = 0;
    while i < 32
        invariant
            i <= 32,
            key@.len() == 32,
            out@.len() == 32,
            forall|j: int| 0 <= j < i ==> out@[j] == key@[j],
        decreases 32 - i,
    {
        out[i] = key[i];
        i += 1;
    }
    assert(out@ =~= key@);
    out
}

/// Takes over what an older store knows about files.
pub fn legacy_frecency_entries(items: &Vec<(Vec<u8>, Vec<u64>)>, workspace: &str) -> (r: Result<
    Vec<FrecencyEntry>,
    StoreError,
>)
    ensures
        r matches Ok(entries) && {
            let taken = importable(items@);
            &&& entries@.len() == taken.len()
            &&& forall|i: int|
                0 <= i < taken.len() ==> records(
                    #[trigger] entries@[i],
                    workspace@,
                    taken[i].0@,
                    taken[i].1@,
                )
        },
{
    let mut entries: Vec<FrecencyEntry> = Vec::new();
    let mut i: usize = 0;
    assert(items@.take(0) =~= seq![]);
    while i < items.len()
        invariant
            i <= items@.len(),
            entries@.len() == importable(items@.take(i as int)).len(),
            forall|j: int|
                0 <= j < entries@.len() ==> records(
                    #[trigger] entries@[j],
                    workspace@,
                    importable(items@.take(i as int))[j].0@,
                    importable(items@.take(i as int))[j].1@,
                ),
        decreases items@.len() - i,
    {
        assert(items@.take(i + 1).drop_last() =~= items@.take(i as int));
        let item = &items[i];
        if item.0.len() == 32 && item.1.len() > 0 {
            let path_hash = hash_from(&item.0);
            match frecency_entry(workspace, &path_hash, &item.1) {
                Ok(entry) => {
                    entries.push(entry);
                },
                Err(error) => {
                    return Err(error);
                },
            }
        }
        i += 1;
    }
    assert(items@.take(i as int) =~= items@);
    Ok(entries)
}

/// A query of an older history.
#[derive(Debug)]
pub struct LegacyHistoryEntry {
    pub query: String,
    pub timestamp: u64,
    /// The file that was opened for it, if that is known, and when.
    pub opened: Option<(String, u64)>,
}

/// The file that a row is made for beside its query: only a search for files has one.
pub open spec fn file_opened(kind: QueryHistoryKind, entry: LegacyHistoryEntry) -> Option<
    (String, u64),
> {
    match kind {
        QueryHistoryKind::File => entry.opened,
        QueryHistoryKind::Grep => None,
    }
}

/// The rows are those of the entries: each query, followed by the file that was opened for it if
/// there is one.
pub open spec fn rows_for(
    rows: Seq<QueryHistory>,
    workspace: Seq<char>,
    kind: QueryHistoryKind,
    entries: Seq<LegacyHistoryEntry>,
) -> bool
    decreases entries.len(),
{
    if entries.len() == 0 {
        rows.len() == 0
    } else {
        let entry = entries.last();
        match file_opened(kind, entry) {
            Some((payload, at)) => {
                &&& rows.len() >= 2
                &&& is_match_row(rows.last(), workspace, entry.query@, payload@, at)
                &&& is_history_row(
                    rows[rows.len() - 2],
                    workspace,
                    kind_name(kind),
                    entry.query@,
                    entry.timestamp,
                )
                &&& rows_for(rows.drop_last().drop_last(), workspace, kind, entries.drop_last())
            },
            None => {
                &&& rows.len() >= 1
                &&& is_history_row(
                    rows.last(),
                    workspace,
                    kind_name(kind),
                    entry.query@,
                    entry.timestamp,
                )
                &&& rows_for(rows.drop_last(), workspace, kind, entries.drop_last())
            },
        }
    }
}

/// Takes over an older history: its last entries, oldest first. Of searches in files only the
/// queries are taken over.
pub fn legacy_history_rows(workspace: &str, kind: QueryHistoryKind, history: &Vec<LegacyHistoryEntry>) -> (r: Vec<
    QueryHistory,
>)
    ensures
        rows_for(
            r@,
            workspace@,
            kind,
            history@.skip(
                if history@.len() > LEGACY_HISTORY_LIMIT {
                    history@.len() - LEGACY_HISTORY_LIMIT
                } else {
                    0
                },
            ),
        ),
{
    let name = query_history_kind(kind);
    let start: usize = history.len().saturating_sub(LEGACY_HISTORY_LIMIT);
    let mut rows: Vec<QueryHistory> = Vec::new();
    let mut i: usize = start;
    assert(history@.subrange(start as int, i as int) =~= seq![]);
    while i < history.len()
        invariant
            start <= i <= history@.len(),
            name@ == kind_name(kind),
            rows_for(
                rows@,
                workspace@,
                kind,
                history@.subrange(start as int, i as int),
            ),
        decreases history@.len() - i,
    {
        let ghost before = rows@;
        let entry = &history[i];
        rows.push(history_row(workspace, name, entry.query.as_str(), entry.timestamp));
        let ghost middle = rows@;
        assert(middle.drop_last() =~= before);
        if kind == QueryHistoryKind::File {
            if let Some((payload, at)) = &entry.opened {
                rows.push(query_match_row(workspace, entry.query.as_str(), payload.as_str(), *at));
                assert(rows@.drop_last() =~= middle);
            }
        }
        i += 1;
        assert(history@.subrange(start as int, i as int).drop_last() =~= history@.subrange(
            start as int,
            i - 1,
        ));
    }
    assert(history@.subrange(start as int, i as int) =~= history@.skip(start as int));
    rows
}

/// A record has the first and the last of the accesses and their number.
pub proof fn law_records_span_the_accesses(
    entry: FrecencyEntry,
    workspace: Seq<char>,
    path_hash: Seq<u8>,
    accesses: Seq<u64>,
)
    requires
        records(entry, workspace, path_hash, accesses),
        0 < accesses.len() <= i64::MAX,
        forall|i: int| 0 <= i < accesses.len() ==> #[trigger] accesses[i] <= i64::MAX,
    ensures
        entry.first_accessed_at == accesses[0],
        entry.last_accessed_at == accesses[accesses.len() - 1],
        entry.access_count == accesses.len(),
        entry.workspace@ == workspace,
{
}

/// Rows are counted by what they are: those for a match as such, those of a history by its kind.
pub proof fn law_rows_are_counted_by_kind(
    rows: Seq<QueryHistory>,
    row: QueryHistory,
    workspace: Seq<char>,
    query: Seq<char>,
    payload: Seq<char>,
    ts: u64,
)
    ensures
        all_counted(Seq::<QueryHistory>::empty()) == (0nat, 0nat, 0nat),
        ({
            let (matches, files, greps) = all_counted(rows);
            let after = all_counted(rows.push(row));
            &&& is_match_row(row, workspace, query, payload, ts) ==> after.0 == matches + 1
            &&& is_history_row(row, workspace, "file"@, query, ts) ==> after == (
                matches,
                files + 1,
                greps,
            )
            &&& is_history_row(row, workspace, "grep"@, query, ts) ==> after == (
                matches,
                files,
                greps + 1,
            )
        }),
{
    reveal_strlit("fff:assoc:");
    reveal_strlit("fff:history:");
    reveal_strlit("file");
    reveal_strlit("grep");
    reveal_strlit("fff:history:file");
    reveal_strlit("fff:history:grep");
    assert(rows.push(row).drop_last() =~= rows);
    assert("fff:history:"@ + "file"@ =~= "fff:history:file"@);
    assert("fff:history:"@ + "grep"@ =~= "fff:history:grep"@);
    assert("fff:history:file"@[12] != "fff:history:grep"@[12]);
    if is_match_row(row, workspace, query, payload, ts) {
        assert(row.id@.take(10) =~= "fff:assoc:"@);
    }
    if is_history_row(row, workspace, "file"@, query, ts) || is_history_row(
        row,
        workspace,
        "grep"@,
        query,
        ts,
    ) {
        assert(row.id@[4] == 'h');
        assert("fff:assoc:"@[4] == 'a');
        if text::starts_with(row.id@, "fff:assoc:"@) {
            assert(row.id@.take(10)[4] == row.id@[4]);
        }
    }
}

/// What can be imported is each entry with a whole hash and an access, in order.
pub proof fn law_whole_entries_are_imported(
    items: Seq<(Vec<u8>, Vec<u64>)>,
    item: (Vec<u8>, Vec<u64>),
)
    ensures
        importable(Seq::<(Vec<u8>, Vec<u64>)>::empty()).len() == 0,
        item.0@.len() == 32 && item.1@.len() > 0 ==> importable(items.push(item)) == importable(
            items,
        ).push(item),
        item.0@.len() != 32 || item.1@.len() == 0 ==> importable(items.push(item)) == importable(
            items,
        ),
{
    assert(items.push(item).drop_last() =~= items);
}

/// Searches in text leave one row each, in order.
pub proof fn law_searches_in_text_leave_one_row(
    rows: Seq<QueryHistory>,
    workspace: Seq<char>,
    entries: Seq<LegacyHistoryEntry>,
)
    requires
        rows_for(rows, workspace, QueryHistoryKind::Grep, entries),
    ensures
        rows.len() == entries.len(),
        forall|i: int|
            0 <= i < rows.len() ==> is_history_row(
                #[trigger] rows[i],
                workspace,
                "grep"@,
                entries[i].query@,
                entries[i].timestamp,
            ),
    decreases entries.len(),
{
    if entries.len() > 0 {
        let (front, before) = (rows.drop_last(), entries.drop_last());
        law_searches_in_text_leave_one_row(front, workspace, before);
        assert forall|i: int| 0 <= i < rows.len() implies is_history_row(
            #[trigger] rows[i],
            workspace,
            "grep"@,
            entries[i].query@,
            entries[i].timestamp,
        ) by {
            if i < front.len() {
                assert(rows[i] == front[i]);
                assert(entries[i] == before[i]);
            }
        }
    }
}

/// A search for files from which one was opened leaves a row for the search and one for the match
/// behind it; without, only the first.
pub proof fn law_opened_files_leave_a_match(
    rows: Seq<QueryHistory>,
    workspace: Seq<char>,
    entries: Seq<LegacyHistoryEntry>,
    entry: LegacyHistoryEntry,
)
    requires
        rows_for(rows, workspace, QueryHistoryKind::File, entries.push(entry)),
    ensures
        entry.opened is None ==> rows.len() > 0 && rows_for(
            rows.drop_last(),
            workspace,
            QueryHistoryKind::File,
            entries,
        ) && is_history_row(rows.last(), workspace, "file"@, entry.query@, entry.timestamp),
        entry.opened matches Some((payload, at)) ==> rows.len() > 1 && rows_for(
            rows.drop_last().drop_last(),
            workspace,
            QueryHistoryKind::File,
            entries,
        ) && is_history_row(
            rows[rows.len() - 2],
            workspace,
            "file"@,
            entry.query@,
            entry.timestamp,
        ) && is_match_row(rows.last(), workspace, entry.query@, payload@, at),
{
    assert(entries.push(entry).drop_last() =~= entries);
}

/// An entry is read in one way: it is either well and gives one record, or ill in one manner.
pub proof fn law_entries_are_read_in_one_way(
    entry: FrecencyEntry,
    a: FrecencyRecord,
    b: FrecencyRecord,
    error: StoreError,
    other: StoreError,
)
    requires
        hash::first_unreadable(vstd::utf8::encode_utf8(entry.path_hash@), 0) <= 32,
    ensures
        reads(entry, Ok(a)) && reads(entry, Ok(b)) ==> a.path_hash@ == b.path_hash@ && a.accesses@
            == b.accesses@,
        reads(entry, Ok(a)) ==> !reads(entry, Err(error)),
        reads(entry, Err(error)) && reads(entry, Err(other)) ==> error == other,
        reads(entry, Ok(a)) ==> json_numbers(entry.timestamps_json@) == Some(a.accesses@),
{
    if reads(entry, Ok(a)) && reads(entry, Ok(b)) {
        assert(a.path_hash@.len() == 32 && b.path_hash@.len() == 32);
        assert forall|i: int| 0 <= i < 32 implies a.path_hash@[i] == b.path_hash@[i] by {
            assert(Some(a.path_hash@[i]) == Some(b.path_hash@[i]));
        }
        assert(a.path_hash@ =~= b.path_hash@);
    }
}

/// Numbers are written in brackets, with a comma between any two.
pub proof fn law_numbers_are_written_with_commas(numbers: Seq<u64>, n: u64)
    ensures
        json_array(Seq::<u64>::empty()) == seq!['[', ']'],
        json_array(seq![n]) == seq!['['] + text::decimal(n as nat) + seq![']'],
        numbers.len() > 0 ==> json_array(numbers.push(n)) == json_array(numbers).drop_last() + seq![
            ',',
        ] + text::decimal(n as nat) + seq![']'],
{
    assert(json_array(Seq::<u64>::empty()) =~= seq!['[', ']']);
    assert(numbers.push(n).drop_last() =~= numbers);
    if numbers.len() > 0 {
        assert(json_array(numbers).drop_last() =~= seq!['['] + comma_list(numbers));
        assert(json_array(numbers.push(n)) =~= json_array(numbers).drop_last() + seq![',']
            + text::decimal(n as nat) + seq![']']);
    }
}

/// The first and the last access are those of the list, and none where there is none.
pub proof fn law_accesses_span_their_list(accesses: Seq<u64>, at: u64)
    ensures
        last_of(accesses.push(at)) == at,
        first_of(accesses.push(at)) == if accesses.len() == 0 {
            at
        } else {
            first_of(accesses)
        },
        last_of(Seq::<u64>::empty()) == 0,
        first_of(Seq::<u64>::empty()) == 0,
{
}

} // verus!
