//! Tailing a session log: a cursor per file, and the records that its
//! newly completed lines hold.

use crate::assoc::distinct_keys;
use crate::assoc::find_key;
use crate::assoc::table;
use crate::text::owned;
use crate::text::utf8_text;
use crate::watcher::parser::parse_line;
use crate::watcher::parser::parsed_line;
use crate::watcher::types::JsonlRecord;
use crate::watcher::types::RecordView;
use vstd::prelude::*;
use vstd::slice::slice_subrange;

verus! {

/// The byte that ends a line.
pub const NEWLINE: u8 = 10;

/// The length of the first line of `data`, its newline included; `None`
/// where `data` holds no newline.
pub open spec fn first_line_len(data: Seq<u8>) -> Option<nat>
    decreases data.len(),
{
    if data.len() == 0 {
        None
    } else if data[0] == NEWLINE {
        Some(1)
    } else {
        match first_line_len(data.drop_first()) {
            Some(n) => Some(n + 1),
            None => None,
        }
    }
}

/// The terminated lines of `data`, each with its newline. What follows the
/// last newline is no line yet.
pub open spec fn complete_lines(data: Seq<u8>) -> Seq<Seq<u8>>
    decreases data.len(),
{
    match first_line_len(data) {
        Some(n) => if 0 < n <= data.len() {
            seq![data.take(n as int)] + complete_lines(data.skip(n as int))
        } else {
            Seq::empty()
        },
        None => Seq::empty(),
    }
}

/// The number of bytes that the terminated lines of `data` take up.
pub open spec fn consumed_len(data: Seq<u8>) -> nat
    decreases data.len(),
{
    match first_line_len(data) {
        Some(n) => if 0 < n <= data.len() {
            n + consumed_len(data.skip(n as int))
        } else {
            0
        },
        None => 0,
    }
}

/// The record that one line holds: none where the bytes are not UTF-8 or
/// the text is no record.
pub open spec fn line_record(line: Seq<u8>) -> Option<RecordView> {
    if vstd::utf8::valid_utf8(line) {
        parsed_line(vstd::utf8::decode_utf8(line))
    } else {
        None
    }
}

/// The records of the terminated lines of `data`, in order; a line that
/// holds none is passed over.
pub open spec fn records_in(data: Seq<u8>) -> Seq<RecordView> {
    complete_lines(data).filter_map(|line: Seq<u8>| line_record(line))
}

/// Where a read starts: at the cursor, or at the start of the file where
/// the file has become shorter than the cursor.
pub open spec fn effective_offset(stored: u64, file_len: nat) -> nat {
    if file_len < stored {
        0
    } else {
        stored as nat
    }
}

/// The cursor of `path` among `cursors`: 0 for a file that was not read
/// yet.
pub open spec fn cursor_at(cursors: Map<Seq<char>, u64>, path: Seq<char>) -> u64 {
    if cursors.contains_key(path) {
        cursors[path]
    } else {
        0
    }
}

/// What one read of a file yields: the records and the next cursor.
pub struct ReadOutcome {
    pub records: Seq<RecordView>,
    pub offset: nat,
}

/// One read of a file whose bytes are `content`, with the cursor at
/// `stored`.
pub open spec fn read_outcome(stored: u64, content: Seq<u8>) -> ReadOutcome {
    let start = effective_offset(stored, content.len());
    let tail = content.skip(start as int);
    ReadOutcome { records: records_in(tail), offset: start + consumed_len(tail) }
}

/// The first line ends at the first newline.
pub proof fn lemma_first_line(data: Seq<u8>, k: int)
    requires
        0 <= k <= data.len(),
        forall|j: int| 0 <= j < k ==> #[trigger] data[j] != NEWLINE,
        k < data.len() ==> data[k] == NEWLINE,
    ensures
        first_line_len(data) == if k < data.len() {
            Some((k + 1) as nat)
        } else {
            None
        },
    decreases k,
{
    if k > 0 {
        let rest = data.drop_first();
        assert forall|j: int| 0 <= j < k - 1 implies #[trigger] rest[j] != NEWLINE by {
            assert(rest[j] == data[j + 1]);
        }
        lemma_first_line(rest, k - 1);
    }
}

/// The terminated lines end where the last newline stands: they take up no
/// more than the data, and what follows them holds no newline.
pub proof fn lemma_consumed(data: Seq<u8>)
    ensures
        consumed_len(data) <= data.len(),
        first_line_len(data.skip(consumed_len(data) as int)) is None,
    decreases data.len(),
{
    match first_line_len(data) {
        Some(n) => {
            if 0 < n <= data.len() {
                let rest = data.skip(n as int);
                lemma_consumed(rest);
                assert(rest.skip(consumed_len(rest) as int) =~= data.skip(
                    consumed_len(data) as int,
                ));
            } else {
                assert(data.skip(0) =~= data);
                lemma_first_line_bound(data);
            }
        },
        None => {
            assert(data.skip(0) =~= data);
        },
    }
}

/// The first line is not empty and no longer than the data.
pub proof fn lemma_first_line_bound(data: Seq<u8>)
    ensures
        first_line_len(data) matches Some(n) ==> 0 < n <= data.len(),
    decreases data.len(),
{
    if data.len() > 0 && data[0] != NEWLINE {
        lemma_first_line_bound(data.drop_first());
    }
}

/// A second read of a file that has not changed yields no record and
/// leaves the cursor where the first read put it.
pub proof fn lemma_unchanged_file_reads_nothing(stored: u64, content: Seq<u8>)
    requires
        content.len() <= u64::MAX,
    ensures
        ({
            let first = read_outcome(stored, content);
            let second = read_outcome(first.offset as u64, content);
            second.records.len() == 0 && second.offset == first.offset
        }),
{
    let start = effective_offset(stored, content.len());
    let tail = content.skip(start as int);
    lemma_consumed(tail);
    let first = read_outcome(stored, content);
    let rest = content.skip(first.offset as int);
    assert(tail.skip(consumed_len(tail) as int) =~= rest);
    assert(complete_lines(rest) =~= Seq::empty());
    assert(consumed_len(rest) == 0);
}

/// A read of a file that is shorter than the cursor starts over: it
/// yields every record of the file.
pub proof fn lemma_shrunk_file_is_read_whole(stored: u64, content: Seq<u8>)
    requires
        content.len() < stored,
    ensures
        read_outcome(stored, content).records == records_in(content),
        read_outcome(stored, content).offset == consumed_len(content),
{
    assert(content.skip(0) =~= content);
}

/// The records of the terminated lines of `data`, and the number of bytes
/// that those lines take up.
pub fn read_complete_lines(data: &[u8]) -> (read: (Vec<JsonlRecord>, usize))
    ensures
        read.0.deep_view() == records_in(data@),
        read.1 == consumed_len(data@),
        read.1 <= data@.len(),
{
    let ghost all = data@;
    let ghost pick = |line: Seq<u8>| line_record(line);
    let ghost mut lines: Seq<Seq<u8>> = Seq::empty();
    let mut records: Vec<JsonlRecord> = Vec::new();
    let mut start: usize = 0;
    let mut i: usize = 0;
    proof {
        assert(all.skip(0) =~= all);
        assert(lines + complete_lines(all) =~= complete_lines(all));
        assert(records.deep_view() =~= lines.filter_map(pick));
    }
    while i < data.len()
        invariant
            start <= i <= data.len(),
            all == data@,
            pick == |line: Seq<u8>| line_record(line),
            forall|j: int| start <= j < i ==> #[trigger] all[j] != NEWLINE,
            complete_lines(all) == lines + complete_lines(all.skip(start as int)),
            consumed_len(all) == start + consumed_len(all.skip(start as int)),
            records.deep_view() == lines.filter_map(pick),
        decreases data.len() - i,
    {
        if data[i] == NEWLINE {
            let line = slice_subrange(data, start, i + 1);
            let ghost rest = all.skip(start as int);
            let ghost n = (i + 1 - start) as nat;
            let ghost before = records.deep_view();
            proof {
                assert forall|j: int| 0 <= j < i - start implies #[trigger] rest[j] != NEWLINE by {
                    assert(rest[j] == all[j + start]);
                }
                lemma_first_line(rest, i - start);
                assert(rest.take(n as int) =~= line@);
                assert(rest.skip(n as int) =~= all.skip(i + 1));
                assert(lines + (seq![line@] + complete_lines(all.skip(i + 1))) =~= lines.push(
                    line@,
                ) + complete_lines(all.skip(i + 1)));
                assert(lines.push(line@).drop_last() =~= lines);
            }
            match utf8_text(line) {
                Some(text) => {
                    proof {
                        vstd::utf8::encode_utf8_valid_utf8(text@);
                        vstd::utf8::encode_utf8_decode_utf8(text@);
                    }
                    match parse_line(text) {
                        Some(record) => {
                            records.push(record);
                            assert(records.deep_view() =~= before + seq![record@]);
                        },
                        None => {},
                    }
                },
                None => {},
            }
            proof {
                lines = lines.push(line@);
            }
            start = i + 1;
        }
        i += 1;
    }
    proof {
        let rest = all.skip(start as int);
        assert forall|j: int| 0 <= j < rest.len() implies #[trigger] rest[j] != NEWLINE by {
            assert(rest[j] == all[j + start]);
        }
        lemma_first_line(rest, rest.len() as int);
        assert(lines + Seq::<Seq<u8>>::empty() =~= lines);
    }
    (records, start)
}

/// The cursors of the files that are read: for each path, the byte up to
/// which its lines have been handed out.
pub struct IncrementalReader {
    offsets: Vec<(String, u64)>,
}

impl View for IncrementalReader {
    type V = Map<Seq<char>, u64>;

    closed spec fn view(&self) -> Map<Seq<char>, u64> {
        table(self.offsets@)
    }
}

impl Default for IncrementalReader {
    fn default() -> (reader: IncrementalReader)
        ensures
            reader.wf(),
            reader@ == Map::<Seq<char>, u64>::empty(),
    {
        IncrementalReader::new()
    }
}

impl IncrementalReader {
    /// No path has two cursors.
    pub closed spec fn wf(self) -> bool {
        distinct_keys(self.offsets@)
    }

    /// The cursor of `path`: 0 for a file that was not read yet.
    pub open spec fn cursor(self, path: Seq<char>) -> u64 {
        cursor_at(self@, path)
    }

    pub fn new() -> (reader: IncrementalReader)
        ensures
            reader.wf(),
            reader@ == Map::<Seq<char>, u64>::empty(),
    {
        let reader = IncrementalReader { offsets: Vec::new() };
        assert(reader@ =~= Map::<Seq<char>, u64>::empty());
        reader
    }

    /// The cursor that is kept for `path`, if one is.
    pub fn offset(&self, path: &str) -> (stored: Option<u64>)
        requires
            self.wf(),
        ensures
            match stored {
                Some(offset) => self@.contains_key(path@) && self@[path@] == offset,
                None => !self@.contains_key(path@),
            },
    {
        match find_key(&self.offsets, path) {
            Some(i) => {
                proof {
                    crate::assoc::lemma_table_entry(self.offsets@, i as int);
                }
                Some(self.offsets[i].1)
            },
            None => None,
        }
    }

    /// Puts the cursor of `path` at `offset`.
    pub fn set_offset(&mut self, path: &str, offset: u64)
        requires
            old(self).wf(),
        ensures
            final(self).wf(),
            final(self)@ == old(self)@.insert(path@, offset),
    {
        match find_key(&self.offsets, path) {
            Some(i) => {
                let entry = (owned(path), offset);
                proof {
                    crate::assoc::lemma_table_update(self.offsets@, i as int, entry);
                }
                self.offsets.set(i, entry);
            },
            None => {
                let entry = (owned(path), offset);
                proof {
                    crate::assoc::lemma_table_push(self.offsets@, entry);
                }
                self.offsets.push(entry);
            },
        }
    }

    /// Where the next read of `path` starts in a file of `file_len` bytes.
    pub fn start_offset(&self, path: &str, file_len: u64) -> (start: u64)
        requires
            self.wf(),
        ensures
            start == effective_offset(self.cursor(path@), file_len as nat),
            start <= file_len,
    {
        let stored = match self.offset(path) {
            Some(offset) => offset,
            None => 0,
        };
        if file_len < stored {
            0
        } else {
            stored
        }
    }

    /// Hands out the records of the lines that `tail` completes, where
    /// `tail` is what the file `path` holds from byte `start` on, and moves
    /// the cursor past those lines.
    pub fn read_from(&mut self, path: &str, start: u64, tail: &[u8]) -> (records: Vec<JsonlRecord>)
        requires
            old(self).wf(),
            start + tail@.len() <= u64::MAX,
        ensures
            final(self).wf(),
            records.deep_view() == records_in(tail@),
            final(self)@ == old(self)@.insert(
                path@,
                (start + consumed_len(tail@)) as u64,
            ),
    {
        let (records, consumed) = read_complete_lines(tail);
        let moved: u64 = start + consumed as u64;
        self.set_offset(path, moved);
        records
    }

    /// One poll of the file `path`, whose bytes are `file`, or `None` where
    /// it cannot be read: the records of the lines completed since the last
    /// poll, or of all lines where the file has become shorter than the
    /// cursor. A file that cannot be read yields nothing and keeps its
    /// cursor.
    pub fn read_new_lines(&mut self, path: &str, file: Option<&[u8]>) -> (records: Vec<
        JsonlRecord,
    >)
        requires
            old(self).wf(),
        ensures
            final(self).wf(),
            match file {
                Some(content) => {
                    let outcome = read_outcome(old(self).cursor(path@), content@);
                    &&& records.deep_view() == outcome.records
                    &&& final(self)@ == old(self)@.insert(path@, outcome.offset as u64)
                    &&& outcome.offset <= content@.len()
                },
                None => records.deep_view() == Seq::<RecordView>::empty() && final(self)@ == old(
                    self,
                )@,
            },
            file is None ==> records.len() == 0,
    {
        let content = match file {
            Some(content) => content,
            None => {
                let none: Vec<JsonlRecord> = Vec::new();
                assert(none.deep_view() =~= Seq::<RecordView>::empty());
                return none;
            },
        };
        let file_len: u64 = content.len() as u64;
        let start = self.start_offset(path, file_len);
        let tail = slice_subrange(content, start as usize, content.len());
        proof {
            assert(tail@ =~= content@.skip(start as int));
            lemma_consumed(tail@);
        }
        self.read_from(path, start, tail)
    }

    /// Forgets the cursor of `path`.
    pub fn remove(&mut self, path: &str)
        requires
            old(self).wf(),
        ensures
            final(self).wf(),
            final(self)@ == old(self)@.remove(path@),
    {
        match find_key(&self.offsets, path) {
            Some(i) => {
                proof {
                    crate::assoc::lemma_table_remove(self.offsets@, i as int);
                }
                self.offsets.remove(i);
            },
            None => {
                assert(old(self)@.remove(path@) =~= old(self)@);
            },
        }
    }
}

} // verus!
