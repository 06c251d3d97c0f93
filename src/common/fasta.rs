//! Incremental reader of sequence-record (FASTA) text.
//!
//! A record is a name line, which starts with `>`, followed by sequence
//! lines. The reader holds the input, a cursor into it and one line of
//! lookahead: the name line of the next record once a record has been read.
use crate::common::text::{starts_with_char, strip_prefix_char, string_from_utf8, trim, trimmed};
use crate::errors::{failure, Error, ErrorKind, Result};
use vstd::prelude::*;
use vstd::string::StringExecFns;
use vstd::utf8::{decode_utf8, valid_utf8};

verus! {

/// The character that starts a name line.
pub const NAME_MARKER: char = '>';

/// The byte that ends a line.
pub const LINE_FEED: u8 = 10;

/// One past the end of the line that starts at `pos`: past its line feed,
/// or the end of the input.
pub open spec fn line_end(data: Seq<u8>, pos: int) -> int
    decreases data.len() - pos,
{
    if pos >= data.len() {
        data.len() as int
    } else if data[pos] == LINE_FEED {
        pos + 1
    } else {
        line_end(data, pos + 1)
    }
}

/// A line that starts a record.
pub open spec fn is_name_line(line: Seq<char>) -> bool {
    line.len() > 0 && line[0] == NAME_MARKER
}

/// The name that a name line gives: the rest of the line, trimmed; empty for
/// any other line.
pub open spec fn name_of(line: Seq<char>) -> Seq<char> {
    if is_name_line(line) {
        trimmed(line.drop_first())
    } else {
        Seq::empty()
    }
}

/// Where a run of sequence lines ends.
pub enum ScanStop {
    /// At a name line, which is kept as lookahead.
    Name(Seq<char>),
    /// At the end of the input.
    End,
    /// At a line that is not well-formed UTF-8.
    Undecodable,
}

/// The sequence lines that start at some position, read up to the next
/// name line or the end of the input.
pub struct Scan {
    /// The lines, each trimmed, concatenated in order.
    pub sequence: Seq<char>,
    /// The position after the last line read (the stopping line included).
    pub pos: int,
    /// What stopped the run.
    pub stop: ScanStop,
}

/// Reads the sequence lines of `data` from `pos` on.
pub open spec fn scan(data: Seq<u8>, pos: int) -> Scan
    decreases data.len() - pos,
{
    if pos < 0 || pos >= data.len() {
        Scan { sequence: Seq::empty(), pos, stop: ScanStop::End }
    } else {
        let end = line_end(data, pos);
        let bytes = data.subrange(pos, end);
        if !valid_utf8(bytes) {
            Scan { sequence: Seq::empty(), pos: end, stop: ScanStop::Undecodable }
        } else if is_name_line(decode_utf8(bytes)) {
            Scan { sequence: Seq::empty(), pos: end, stop: ScanStop::Name(decode_utf8(bytes)) }
        } else {
            proof {
                lemma_line_end(data, pos);
            }
            let rest = scan(data, end);
            Scan { sequence: trimmed(decode_utf8(bytes)) + rest.sequence, ..rest }
        }
    }
}

/// A line that starts inside the input ends after it starts and within it.
pub proof fn lemma_line_end(data: Seq<u8>, pos: int)
    requires
        0 <= pos < data.len(),
    ensures
        pos < line_end(data, pos) <= data.len(),
        forall|i: int| pos <= i < line_end(data, pos) - 1 ==> data[i] != LINE_FEED,
        line_end(data, pos) < data.len() ==> data[line_end(data, pos) - 1] == LINE_FEED,
    decreases data.len() - pos,
{
    if data[pos] != LINE_FEED {
        if pos + 1 < data.len() {
            lemma_line_end(data, pos + 1);
        } else {
            assert(line_end(data, pos + 1) == data.len());
        }
    }
}

/// The state of a reader: the whole input, the cursor, and the lookahead
/// line (empty when none is held).
pub struct ReaderView {
    pub data: Seq<u8>,
    pub pos: int,
    pub line: Seq<char>,
}

/// A record as values.
pub struct RecordView {
    pub name: Seq<char>,
    pub sequence: Seq<char>,
}

/// Pulls the line at the cursor into the lookahead: the new state and the
/// kind of failure, if any.
pub open spec fn next_line(v: ReaderView) -> (ReaderView, Option<ErrorKind>) {
    if v.pos >= v.data.len() {
        (ReaderView { line: Seq::empty(), ..v }, Some(ErrorKind::Eof))
    } else {
        let end = line_end(v.data, v.pos);
        let bytes = v.data.subrange(v.pos, end);
        if valid_utf8(bytes) {
            (ReaderView { pos: end, line: decode_utf8(bytes), ..v }, None)
        } else {
            (ReaderView { pos: end, line: Seq::empty(), ..v }, Some(ErrorKind::IO))
        }
    }
}

/// Makes sure that a line is held as lookahead, pulling one if none is.
pub open spec fn ensure_line(v: ReaderView) -> (ReaderView, Option<ErrorKind>) {
    if v.line.len() == 0 {
        next_line(v)
    } else {
        (v, None)
    }
}

/// One parse step: the reader's and the record's new states and the kind of
/// failure, if any.
///
/// A step that reaches the end of the input while it reads the sequence
/// lines has filled the record and still reports `Eof`.
pub open spec fn read_step(v: ReaderView, rec: RecordView) -> (
    ReaderView,
    RecordView,
    Option<ErrorKind>,
) {
    let v1 = ensure_line(v).0;
    let fail = ensure_line(v).1;
    if fail is Some {
        (v1, rec, fail)
    } else if !is_name_line(v1.line) {
        (v1, rec, Some(ErrorKind::Format))
    } else {
        let s = scan(v1.data, v1.pos);
        let rec1 = RecordView { name: name_of(v1.line), sequence: s.sequence };
        match s.stop {
            ScanStop::Name(line) => (ReaderView { pos: s.pos, line, ..v1 }, rec1, None),
            ScanStop::End => (
                ReaderView { pos: s.pos, line: Seq::empty(), ..v1 },
                rec1,
                Some(ErrorKind::Eof),
            ),
            ScanStop::Undecodable => (
                ReaderView { pos: s.pos, line: Seq::empty(), ..v1 },
                rec1,
                Some(ErrorKind::IO),
            ),
        }
    }
}

/// Reader for fasta files
pub struct Reader {
    data: Vec<u8>,
    pos: usize,
    line: String,
}

impl View for Reader {
    type V = ReaderView;

    closed spec fn view(&self) -> ReaderView {
        ReaderView { data: self.data@, pos: self.pos as int, line: self.line@ }
    }
}

impl Reader {
    /// The cursor lies within the input.
    pub closed spec fn wf(&self) -> bool {
        self.pos <= self.data@.len()
    }

    /// Constructor for fasta Reader
    pub fn new(reader: &[u8]) -> (r: Self)
        ensures
            r.wf(),
            r@ == (ReaderView { data: reader@, pos: 0, line: Seq::empty() }),
    {
        Reader { data: vstd::slice::slice_to_vec(reader), pos: 0, line: String::new() }
    }

    /// Read data into a record
    pub fn read(&mut self, record: &mut Record) -> (r: Result<()>)
        requires
            old(self).wf(),
        ensures
            final(self).wf(),
            (final(self)@, final(record)@, failure(r)) == read_step(old(self)@, old(record)@),
    {
        let ghost v0 = self@;
        let ghost rec0 = record@;
        if self.line.as_str().is_empty() {
            if let Err(e) = self.read_line() {
                return Err(e);
            }
        }
        if !is_name(self.line.as_str()) {
            return Err(Error::new(ErrorKind::Format, "invalid fasta format"));
        }
        let ghost v1 = self@;
        let ghost s = scan(v1.data, v1.pos);
        record.name = get_name(self.line.as_str());
        record.sequence = String::new();
        loop
            invariant
                old(self)@ == v0,
                old(record)@ == rec0,
                ensure_line(v0).0 == v1,
                ensure_line(v0).1 is None,
                s == scan(v1.data, v1.pos),
                is_name_line(v1.line),
                self.wf(),
                self@.data == v1.data,
                record.name@ == name_of(v1.line),
                record.sequence@ + scan(v1.data, self@.pos).sequence == s.sequence,
                scan(v1.data, self@.pos).pos == s.pos,
                scan(v1.data, self@.pos).stop == s.stop,
            decreases self@.data.len() - self@.pos,
        {
            let ghost p = self@.pos;
            if let Err(e) = self.read_line() {
                proof {
                    assert(record.sequence@ + Seq::<char>::empty() == record.sequence@);
                }
                return Err(e);
            }
            if is_name(self.line.as_str()) {
                proof {
                    assert(record.sequence@ + Seq::<char>::empty() == record.sequence@);
                }
                return Ok(());
            }
            proof {
                lemma_line_end(v1.data, p);
            }
            let piece = get_sequence(self.line.as_str());
            record.sequence.append(piece.as_str());
            proof {
                assert(record.sequence@ + scan(v1.data, self@.pos).sequence =~= s.sequence);
            }
        }
    }

    /// Returns an iterator
    pub fn iter(self) -> (r: Records)
        requires
            self.wf(),
        ensures
            r.wf(),
            r@ == (RecordsView { reader: self@, done: false }),
    {
        Records { reader: self, done: false }
    }

    /// Read line
    fn read_line(&mut self) -> (r: Result<()>)
        requires
            old(self).wf(),
        ensures
            final(self).wf(),
            (final(self)@, failure(r)) == next_line(old(self)@),
    {
        self.line = String::new();
        let n = self.data.len();
        if self.pos >= n {
            return Err(Error::new(ErrorKind::Eof, "end of file"));
        }
        let start = self.pos;
        let mut bytes: Vec<u8> = Vec::new();
        let mut end = start;
        let mut done = false;
        while !done && end < n
            invariant
                start <= end <= n,
                n == self.data@.len(),
                start < n,
                bytes@ == self.data@.subrange(start as int, end as int),
                done ==> end > start && self.data@[end - 1] == LINE_FEED,
                !done ==> line_end(self.data@, end as int) == line_end(self.data@, start as int),
                done ==> line_end(self.data@, start as int) == end,
            decreases n - end,
        {
            let b = self.data[end];
            bytes.push(b);
            end += 1;
            if b == LINE_FEED {
                done = true;
            }
            proof {
                assert(bytes@ =~= self.data@.subrange(start as int, end as int));
            }
        }
        self.pos = end;
        match string_from_utf8(bytes) {
            Some(line) => {
                self.line = line;
                Ok(())
            },
            None => Err(Error::new(ErrorKind::IO, "invalid utf-8 in input")),
        }
    }
}

/// Check to see if line is a name line
pub fn is_name(line: &str) -> (r: bool)
    ensures
        r == is_name_line(line@),
{
    starts_with_char(line, NAME_MARKER)
}

/// Get name retrieves the name from a name line
pub fn get_name(line: &str) -> (r: String)
    ensures
        r@ == name_of(line@),
{
    let rest = match strip_prefix_char(line, NAME_MARKER) {
        Some(rest) => rest,
        None => "",
    };
    proof {
        reveal_strlit("");
    }
    trim(rest).to_owned()
}

/// Get sequence retrieves the sequence from the line
pub fn get_sequence(line: &str) -> (r: String)
    ensures
        r@ == trimmed(line@),
{
    trim(line).to_owned()
}

/// Record is a fasta record
#[derive(Debug, PartialEq)]
pub struct Record {
    pub name: String,
    pub sequence: String,
}

impl View for Record {
    type V = RecordView;

    open spec fn view(&self) -> RecordView {
        RecordView { name: self.name@, sequence: self.sequence@ }
    }
}

impl Record {
    /// Construct a new, empty record
    pub fn new() -> (r: Self)
        ensures
            r@ == (RecordView { name: Seq::empty(), sequence: Seq::empty() }),
    {
        Record { name: String::new(), sequence: String::new() }
    }
}

/// What one step of iteration hands out.
pub enum Item {
    /// A record that was read.
    Rec(RecordView),
    /// A failure other than the end of the input.
    Fail(ErrorKind),
}

/// Nothing is left to read: no lookahead line and the cursor at the end.
pub open spec fn exhausted(v: ReaderView) -> bool {
    v.line.len() == 0 && v.pos >= v.data.len()
}

/// One record pulled from a reader: the reader's new state and what is
/// handed out, `None` once the input is exhausted.
pub open spec fn read_item(v: ReaderView) -> (ReaderView, Option<Item>) {
    if exhausted(v) {
        (v, None)
    } else {
        let (v1, rec, fail) = read_step(v, RecordView { name: Seq::empty(), sequence: Seq::empty() });
        match fail {
            None => (v1, Some(Item::Rec(rec))),
            Some(ErrorKind::Eof) => (v1, Some(Item::Rec(rec))),
            Some(kind) => (v1, Some(Item::Fail(kind))),
        }
    }
}

/// The state of an iteration: the reader, and whether a failure has ended
/// the iteration.
pub struct RecordsView {
    pub reader: ReaderView,
    pub done: bool,
}

/// One step of iteration: the new state and what is handed out. A failure
/// ends the iteration: every later step hands out `None` and changes nothing.
pub open spec fn iter_step(s: RecordsView) -> (RecordsView, Option<Item>) {
    if s.done {
        (s, None)
    } else {
        let (v1, item) = read_item(s.reader);
        (RecordsView { reader: v1, done: item matches Some(Item::Fail(_)) }, item)
    }
}

/// What a call of [`Records::next`] returned, as values.
pub open spec fn item_of(r: Option<Result<Record>>) -> Option<Item> {
    match r {
        None => None,
        Some(Ok(rec)) => Some(Item::Rec(rec@)),
        Some(Err(e)) => Some(Item::Fail(e.spec_kind())),
    }
}

/// Type for iterating records
pub struct Records {
    reader: Reader,
    done: bool,
}

impl View for Records {
    type V = RecordsView;

    closed spec fn view(&self) -> RecordsView {
        RecordsView { reader: self.reader@, done: self.done }
    }
}

impl Records {
    /// The underlying reader is well formed.
    pub closed spec fn wf(&self) -> bool {
        self.reader.wf()
    }

    /// The cursor of a well-formed iterator lies within the input.
    pub proof fn lemma_bounds(&self)
        requires
            self.wf(),
        ensures
            0 <= self@.reader.pos <= self@.reader.data.len(),
    {
    }

    /// The next record, or the failure that stopped reading it; `None` once
    /// the input is exhausted or after a failure.
    ///
    /// The last record, which the end of the input ends, is handed out like
    /// the others.
    pub fn next(&mut self) -> (r: Option<Result<Record>>)
        requires
            old(self).wf(),
        ensures
            final(self).wf(),
            (final(self)@, item_of(r)) == iter_step(old(self)@),
    {
        if self.done {
            return None;
        }
        if self.reader.line.as_str().is_empty() && self.reader.pos >= self.reader.data.len() {
            return None;
        }
        let mut record = Record::new();
        match self.reader.read(&mut record) {
            Ok(()) => Some(Ok(record)),
            Err(err) => {
                if *err.kind() == ErrorKind::Eof {
                    Some(Ok(record))
                } else {
                    self.done = true;
                    Some(Err(err))
                }
            },
        }
    }
}

/// How many more items an iteration can hand out, at most: every record
/// consumes input, and a failure ends it.
pub open spec fn items_left(s: RecordsView) -> int {
    if s.done {
        0
    } else {
        remaining(s.reader) + 1
    }
}

/// Iteration is finite, bounded by the length of the input: each item
/// handed out lowers `items_left`, which starts at twice the input length
/// plus one.
pub proof fn lemma_iteration_finite(s: RecordsView)
    requires
        0 <= s.reader.pos <= s.reader.data.len(),
        iter_step(s).1 is Some,
    ensures
        0 <= iter_step(s).0.reader.pos <= iter_step(s).0.reader.data.len(),
        0 <= items_left(iter_step(s).0) < items_left(s),
        items_left(s) <= 2 * s.reader.data.len() + 2,
{
    let v = s.reader;
    if v.line.len() == 0 && v.pos < v.data.len() {
        lemma_line_end(v.data, v.pos);
    }
    let v1 = ensure_line(v).0;
    if 0 <= v1.pos <= v1.data.len() {
        lemma_scan_bounds(v1.data, v1.pos);
    }
    if read_item(v).1 matches Some(Item::Rec(_)) {
        lemma_iter_progress(v);
    }
}

/// How much input is left: twice the unread bytes, plus one for a held line.
pub open spec fn remaining(v: ReaderView) -> int {
    2 * (v.data.len() - v.pos) + if v.line.len() > 0 {
        1int
    } else {
        0int
    }
}

/// A scan ends between where it starts and the end of the input, and past
/// its start unless the input ends there.
pub proof fn lemma_scan_bounds(data: Seq<u8>, pos: int)
    requires
        0 <= pos <= data.len(),
    ensures
        pos <= scan(data, pos).pos <= data.len(),
        !(scan(data, pos).stop is End) ==> scan(data, pos).pos > pos,
    decreases data.len() - pos,
{
    if pos < data.len() {
        lemma_line_end(data, pos);
        let end = line_end(data, pos);
        let bytes = data.subrange(pos, end);
        if valid_utf8(bytes) && !is_name_line(decode_utf8(bytes)) {
            lemma_scan_bounds(data, end);
        }
    }
}

/// Each record handed out consumes input, so iteration ends.
pub proof fn lemma_iter_progress(v: ReaderView)
    requires
        0 <= v.pos <= v.data.len(),
        read_item(v).1 matches Some(Item::Rec(_)),
    ensures
        0 <= read_item(v).0.pos <= read_item(v).0.data.len(),
        read_item(v).0.data == v.data,
        0 <= remaining(read_item(v).0) < remaining(v),
{
    let v1 = ensure_line(v).0;
    if v.line.len() == 0 {
        lemma_line_end(v.data, v.pos);
    }
    lemma_scan_bounds(v1.data, v1.pos);
}

/// Everything that iteration hands out from `v` on: the records in input
/// order, or the first failure.
pub open spec fn collect_records(v: ReaderView) -> std::result::Result<Seq<RecordView>, ErrorKind>
    decreases remaining(v),
    when 0 <= v.pos <= v.data.len()
{
    match read_item(v).1 {
        None => Ok(Seq::empty()),
        Some(Item::Fail(kind)) => Err(kind),
        Some(Item::Rec(rec)) => {
            proof {
                lemma_iter_progress(v);
            }
            match collect_records(read_item(v).0) {
                Ok(rest) => Ok(seq![rec] + rest),
                Err(kind) => Err(kind),
            }
        },
    }
}

/// The lines of `data` from `pos` on, each decoded (its line feed kept).
pub open spec fn lines_from(data: Seq<u8>, pos: int) -> Seq<Seq<char>>
    decreases data.len() - pos,
{
    if pos < 0 || pos >= data.len() {
        Seq::empty()
    } else {
        proof {
            lemma_line_end(data, pos);
        }
        seq![decode_utf8(data.subrange(pos, line_end(data, pos)))] + lines_from(
            data,
            line_end(data, pos),
        )
    }
}

/// Every line of `data` from `pos` on is well-formed UTF-8.
pub open spec fn lines_decode(data: Seq<u8>, pos: int) -> bool
    decreases data.len() - pos,
{
    if pos < 0 || pos >= data.len() {
        true
    } else {
        proof {
            lemma_line_end(data, pos);
        }
        valid_utf8(data.subrange(pos, line_end(data, pos))) && lines_decode(
            data,
            line_end(data, pos),
        )
    }
}

/// The sequence lines at the front of `lines`, each trimmed, concatenated.
pub open spec fn sequence_block(lines: Seq<Seq<char>>) -> Seq<char>
    decreases lines.len(),
{
    if lines.len() == 0 || is_name_line(lines[0]) {
        Seq::empty()
    } else {
        trimmed(lines[0]) + sequence_block(lines.drop_first())
    }
}

/// The records that `lines` hold: one for each name line, in order, whose
/// sequence is made of the lines after it up to the next name line.
pub open spec fn records_in(lines: Seq<Seq<char>>) -> Seq<RecordView>
    decreases lines.len(),
{
    if lines.len() == 0 {
        Seq::empty()
    } else if is_name_line(lines[0]) {
        seq![RecordView { name: name_of(lines[0]), sequence: sequence_block(lines.drop_first()) }]
            + records_in(lines.drop_first())
    } else {
        records_in(lines.drop_first())
    }
}

/// A scan over well-formed lines reads the sequence block of the lines and
/// stops at the next name line or at the end.
proof fn lemma_scan_block(data: Seq<u8>, pos: int)
    requires
        0 <= pos <= data.len(),
        lines_decode(data, pos),
    ensures
        scan(data, pos).sequence == sequence_block(lines_from(data, pos)),
        !(scan(data, pos).stop is Undecodable),
        scan(data, pos).stop is End ==> scan(data, pos).pos == data.len() && records_in(
            lines_from(data, pos),
        ) == Seq::<RecordView>::empty(),
        scan(data, pos).stop matches ScanStop::Name(l) ==> 0 <= scan(data, pos).pos <= data.len()
            && is_name_line(l) && lines_decode(data, scan(data, pos).pos) && records_in(
            lines_from(data, pos),
        ) == records_in(seq![l] + lines_from(data, scan(data, pos).pos)),
    decreases data.len() - pos,
{
    if pos < data.len() {
        lemma_line_end(data, pos);
        let end = line_end(data, pos);
        let l = decode_utf8(data.subrange(pos, end));
        let ls = lines_from(data, pos);
        assert(ls[0] == l);
        assert(ls.drop_first() == lines_from(data, end));
        if is_name_line(l) {
            assert(seq![l] + lines_from(data, end) =~= ls);
        } else {
            lemma_scan_block(data, end);
        }
    }
}

/// From a reader that holds the name line `l` as lookahead, iteration hands
/// out the records of `l` and the lines after it.
proof fn lemma_collect_from_name(data: Seq<u8>, pos: int, l: Seq<char>)
    requires
        0 <= pos <= data.len(),
        lines_decode(data, pos),
        is_name_line(l),
    ensures
        collect_records(ReaderView { data, pos, line: l }) == Ok::<Seq<RecordView>, ErrorKind>(
            records_in(seq![l] + lines_from(data, pos)),
        ),
    decreases data.len() - pos,
{
    let v = ReaderView { data, pos, line: l };
    let s = scan(data, pos);
    lemma_scan_block(data, pos);
    lemma_scan_bounds(data, pos);
    let all = seq![l] + lines_from(data, pos);
    assert(all[0] == l);
    assert(all.drop_first() =~= lines_from(data, pos));
    let rec = RecordView { name: name_of(l), sequence: s.sequence };
    assert(read_item(v).1 == Some(Item::Rec(rec)));
    lemma_iter_progress(v);
    match s.stop {
        ScanStop::Name(l2) => {
            let v2 = ReaderView { data, pos: s.pos, line: l2 };
            lemma_collect_from_name(data, s.pos, l2);
            assert(read_item(v).0 == v2);
            let rest = records_in(seq![l2] + lines_from(data, s.pos));
            assert(collect_records(v2) == Ok::<Seq<RecordView>, ErrorKind>(rest));
            assert(records_in(all) == seq![rec] + records_in(lines_from(data, pos)));
            assert(records_in(lines_from(data, pos)) == rest);
            assert(records_in(all) == seq![rec] + rest);
            assert(collect_records(v) == Ok::<Seq<RecordView>, ErrorKind>(seq![rec] + rest));
        },
        ScanStop::End => {
            let v2 = ReaderView { data, pos: s.pos, line: Seq::empty() };
            assert(read_item(v).0 == v2);
            assert(read_item(v2).1 is None);
            assert(collect_records(v2) == Ok::<Seq<RecordView>, ErrorKind>(Seq::empty()));
            assert(records_in(all) =~= seq![rec] + Seq::<RecordView>::empty());
            assert(collect_records(v) == Ok::<Seq<RecordView>, ErrorKind>(
                seq![rec] + Seq::<RecordView>::empty(),
            ));
        },
        ScanStop::Undecodable => {},
    }
}

/// Iteration over well-formed input that starts with a name line (or is
/// empty) hands out, in input order, one record per name line: its name,
/// trimmed, and the concatenation of the trimmed lines up to the next name
/// line or the end of the input.
pub proof fn lemma_iteration_yields_records(data: Seq<u8>)
    requires
        lines_decode(data, 0),
        lines_from(data, 0).len() > 0 ==> is_name_line(lines_from(data, 0)[0]),
    ensures
        collect_records(ReaderView { data, pos: 0, line: Seq::empty() }) == Ok::<
            Seq<RecordView>,
            ErrorKind,
        >(records_in(lines_from(data, 0))),
{
    let v = ReaderView { data, pos: 0, line: Seq::empty() };
    if data.len() == 0 {
        assert(read_item(v).1 is None);
    } else {
        lemma_line_end(data, 0);
        let end = line_end(data, 0);
        let l = decode_utf8(data.subrange(0, end));
        let v1 = ReaderView { data, pos: end, line: l };
        assert(lines_from(data, 0) == seq![l] + lines_from(data, end));
        lemma_collect_from_name(data, end, l);
        assert(ensure_line(v) == (v1, None::<ErrorKind>));
        assert(ensure_line(v1) == (v1, None::<ErrorKind>));
        assert(read_item(v) == read_item(v1));
        lemma_iter_progress(v);
        lemma_iter_progress(v1);
    }
}

/// Reading empty input ends at once: the first step reports the end of the
/// input, never a format error, and leaves the record as it was.
pub proof fn lemma_empty_input_ends(rec: RecordView)
    ensures
        read_step(ReaderView { data: Seq::empty(), pos: 0, line: Seq::empty() }, rec) == (
            ReaderView { data: Seq::<u8>::empty(), pos: 0, line: Seq::<char>::empty() },
            rec,
            Some(ErrorKind::Eof),
        ),
{
}

/// Input whose first line is no name line is rejected by the first step,
/// which fills nothing in.
pub proof fn lemma_first_line_not_name(data: Seq<u8>, rec: RecordView)
    requires
        lines_decode(data, 0),
        lines_from(data, 0).len() > 0,
        !is_name_line(lines_from(data, 0)[0]),
    ensures
        read_step(ReaderView { data, pos: 0, line: Seq::empty() }, rec).1 == rec,
        read_step(ReaderView { data, pos: 0, line: Seq::empty() }, rec).2 == Some(
            ErrorKind::Format,
        ),
{
    lemma_line_end(data, 0);
}

} // verus!
