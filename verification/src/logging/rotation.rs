//! The files of the log: when a new one is begun, and where the old ones go.
//!
//! File 0 is the log; file `i` is its `i`th backup.

use vstd::prelude::*;

use crate::logging::LogError;
use crate::text;
use crate::text::decimal_text;

verus! {

/// A log file that is written to.
#[derive(Debug, Clone, Copy, PartialEq, Eq, Structural)]
pub struct RotatingFile {
    pub max_bytes: u64,
    pub backups: usize,
    pub bytes_written: u64,
}

pub open spec fn saturating_sum(a: u64, b: u64) -> u64 {
    if a + b <= u64::MAX {
        (a + b) as u64
    } else {
        u64::MAX
    }
}

impl RotatingFile {
    /// A log that already has so many bytes, if it exists. Also whether it is moved away first.
    pub fn open(existing: Option<u64>, max_bytes: u64, backups: usize) -> (r: Result<
        (RotatingFile, bool),
        LogError,
    >)
        ensures
            match r {
                Err(error) => max_bytes == 0 && error == LogError::InvalidSize,
                Ok((file, rotate)) => {
                    &&& max_bytes > 0
                    &&& rotate == (existing matches Some(n) && n >= max_bytes)
                    &&& file.max_bytes == max_bytes
                    &&& file.backups == backups
                    &&& file.bytes_written == match existing {
                        Some(n) => if n >= max_bytes {
                            0
                        } else {
                            n
                        },
                        None => 0,
                    }
                },
            },
    {
        if max_bytes == 0 {
            return Err(LogError::InvalidSize);
        }
        let (rotate, bytes_written): (bool, u64) = match existing {
            Some(n) => if n >= max_bytes {
                (true, 0)
            } else {
                (false, n)
            },
            None => (false, 0),
        };
        Ok((RotatingFile { max_bytes, backups, bytes_written }, rotate))
    }

    /// Whether a record of so many bytes begins a new file: it would make a file that is not
    /// empty too large.
    pub open spec fn outgrows(self, bytes: u64) -> bool {
        self.bytes_written > 0 && saturating_sum(self.bytes_written, bytes) > self.max_bytes
    }

    pub fn must_rotate(&self, bytes: u64) -> (r: bool)
        ensures
            r == self.outgrows(bytes),
    {
        self.bytes_written > 0 && self.bytes_written.saturating_add(bytes) > self.max_bytes
    }

    /// A new file has been begun.
    pub fn rotated(&mut self)
        ensures
            *final(self) == (RotatingFile { bytes_written: 0, ..*old(self) }),
    {
        self.bytes_written = 0;
    }

    /// A record has been written.
    pub fn wrote(&mut self, bytes: u64)
        ensures
            *final(self) == (RotatingFile {
                bytes_written: saturating_sum(old(self).bytes_written, bytes),
                ..*old(self)
            }),
    {
        self.bytes_written = self.bytes_written.saturating_add(bytes);
    }

    /// The file could not be moved away: it goes on with the bytes that it has.
    pub fn rotation_failed(&mut self, bytes: Option<u64>)
        ensures
            *final(self) == (RotatingFile {
                bytes_written: match bytes {
                    Some(n) => n,
                    None => 0,
                },
                ..*old(self)
            }),
    {
        self.bytes_written = match bytes {
            Some(n) => n,
            None => 0,
        };
    }
}

/// No file grows beyond the limit, but for one record that alone is larger.
pub proof fn law_files_stay_within_their_limit(file: RotatingFile, bytes: u64)
    requires
        file.max_bytes > 0,
        file.bytes_written <= file.max_bytes,
        bytes <= file.max_bytes,
    ensures
        ({
            let begun = if file.outgrows(bytes) {
                0
            } else {
                file.bytes_written
            };
            saturating_sum(begun as u64, bytes) <= file.max_bytes
        }),
{
}

/// One file is put in the place of another, if it exists.
#[derive(Debug, Clone, Copy, PartialEq, Eq, Structural)]
pub struct Move {
    pub from: usize,
    pub to: usize,
}

/// The files after a move.
pub open spec fn moved<T>(files: Map<nat, T>, step: Move) -> Map<nat, T> {
    if files.dom().contains(step.from as nat) {
        files.insert(step.to as nat, files[step.from as nat]).remove(step.from as nat)
    } else {
        files
    }
}

pub open spec fn moved_all<T>(files: Map<nat, T>, steps: Seq<Move>) -> Map<nat, T>
    decreases steps.len(),
{
    if steps.len() == 0 {
        files
    } else {
        moved(moved_all(files, steps.drop_last()), steps.last())
    }
}

/// How the files of a log with backups move: the last but one backup first, the log last.
pub open spec fn shifts(backups: nat) -> Seq<Move> {
    Seq::new(
        backups,
        |i: int| Move { from: (backups - 1 - i) as usize, to: (backups - i) as usize },
    )
}

/// How a log makes way for a new one: without backups it is deleted (nothing), else files move.
pub fn rotate_files(backups: usize) -> (r: Option<Vec<Move>>)
    ensures
        match r {
            None => backups == 0,
            Some(steps) => backups > 0 && steps@ == shifts(backups as nat),
        },
{
    if backups == 0 {
        return None;
    }
    let mut steps: Vec<Move> = Vec::new();
    let mut index: usize = backups - 1;
    while index > 0
        invariant
            index < backups,
            steps@.len() == backups - 1 - index,
            forall|i: int| 0 <= i < steps@.len() ==> #[trigger] steps@[i] == shifts(backups as nat)[i],
        decreases index,
    {
        steps.push(Move { from: index, to: index + 1 });
        index = index - 1;
    }
    steps.push(Move { from: 0, to: 1 });
    assert(steps@ =~= shifts(backups as nat));
    Some(steps)
}

proof fn lemma_shifted<T>(files: Map<nat, T>, backups: nat, n: int, i: nat)
    requires
        0 <= n <= backups <= usize::MAX,
    ensures
        ({
            let after = moved_all(files, shifts(backups).take(n));
            // Files below the moves done so far are untouched, the others have moved up by one.
            &&& i < backups - n ==> (after.dom().contains(i) <==> files.dom().contains(i))
                && (files.dom().contains(i) ==> after[i] == files[i])
            &&& i > backups ==> (after.dom().contains(i) <==> files.dom().contains(i))
                && (files.dom().contains(i) ==> after[i] == files[i])
            &&& n > 0 && i == backups - n ==> !after.dom().contains(i)
            &&& backups - n < i <= backups && files.dom().contains((i - 1) as nat) ==> after.dom().contains(
                i,
            ) && after[i] == files[(i - 1) as nat]
        }),
    decreases n,
{
    let steps = shifts(backups).take(n);
    if n > 0 {
        assert(steps.drop_last() =~= shifts(backups).take(n - 1));
        lemma_shifted(files, backups, n - 1, i);
        lemma_shifted(files, backups, n - 1, (backups - n) as nat);
        if i > 0 {
            lemma_shifted(files, backups, n - 1, (i - 1) as nat);
        }
        let step = steps.last();
        assert(step.from == backups - n && step.to == backups - n + 1);
    } else {
        assert(steps =~= seq![]);
    }
}

/// After a rotation the log is gone, each file that existed has become the next backup, and no
/// backup beyond the last one has come about.
pub proof fn law_rotation_shifts_the_backups<T>(files: Map<nat, T>, backups: nat, i: nat)
    requires
        0 < backups <= usize::MAX,
    ensures
        ({
            let after = moved_all(files, shifts(backups));
            &&& !after.dom().contains(0)
            &&& i < backups && files.dom().contains(i) ==> after.dom().contains(i + 1) && after[i + 1]
                == files[i]
            &&& i > backups ==> (after.dom().contains(i) <==> files.dom().contains(i))
        }),
{
    assert(shifts(backups).take(backups as int) =~= shifts(backups));
    lemma_shifted(files, backups, backups as int, 0);
    lemma_shifted(files, backups, backups as int, i);
    lemma_shifted(files, backups, backups as int, i + 1);
}

/// The path of a backup.
pub fn backup_path(path: &str, index: usize) -> (r: String)
    ensures
        r@ == path@ + seq!['.'] + text::decimal(index as nat),
{
    let mut value = String::new();
    value.append(path);
    value.push('.');
    value.append(decimal_text(index as u64).as_str());
    assert(value@ =~= path@ + seq!['.'] + text::decimal(index as nat));
    value
}

/// A file is filled up before a new one begins: only a record that does not fit into what is left
/// of one that holds something begins another.
pub proof fn law_files_are_filled_up(file: RotatingFile, bytes: u64)
    requires
        file.max_bytes < u64::MAX,
    ensures
        file.outgrows(bytes) <==> file.bytes_written > 0 && file.bytes_written + bytes
            > file.max_bytes,
{
}

} // verus!
