//! Turning the raw bytes of a source file into a typed table: UTF-16LE text,
//! tab-separated records with a header line, one column cast to a timestamp.
use vstd::prelude::*;
use crate::delimited::{
    chars_of, join_with, lemma_join_chars, lemma_split_join, plain, split_fields, split_text, QUOTE,
};
use crate::progress::{milestones, ProgressChannel, FULL, OPENED, PARSED};

verus! {

/// Header of the identifier column.
pub const ID_HEADER: &'static str = "STUDENT NUMBER";
/// Header of the date column.
pub const DATE_HEADER: &'static str = "ENROLMENT DATE";
/// Day.month.year hour.minute.second, every field dot-separated.
pub const DATE_FORMAT: &'static str = "%d.%m.%Y %H.%M.%S";
/// Separator between the fields of a record.
pub const FIELD_SEP: char = '\t';
/// Separator between records.
pub const LINE_SEP: char = '\n';

/// The text that a UTF-16LE decoder without BOM handling gives for `b`, or
/// `None` where `b` holds a malformed code-unit sequence.
pub uninterp spec fn utf16le_text(b: Seq<u8>) -> Option<Seq<char>>;

/// The microseconds since 1970-01-01T00:00:00 of the date and time that
/// `text` spells in the pattern `fmt`, or `None` where it does not match.
pub uninterp spec fn stamp_micros(text: Seq<char>, fmt: Seq<char>) -> Option<i64>;

/// Relies on encoding_rs's UTF-16LE `Decoder` with BOM handling off, asked to
/// treat malformed input as fatal: the decoded text, or the count of bytes read
/// up to and including the malformed sequence. The bound on the length keeps
/// the output size computation from overflowing.
#[verifier::external_body]
fn decode_utf16le(b: &[u8]) -> (r: Result<Vec<char>, usize>)
    requires
        b@.len() <= usize::MAX / 4,
    ensures
        match r {
            Ok(v) => utf16le_text(b@) == Some(v@),
            Err(end) => utf16le_text(b@).is_none() && end <= b@.len(),
        },
{
    let mut decoder = encoding_rs::UTF_16LE.new_decoder_without_bom_handling();
    let room = decoder.max_utf8_buffer_length_without_replacement(b.len()).unwrap();
    let mut text = String::with_capacity(room);
    let (outcome, read) = decoder.decode_to_string_without_replacement(b, &mut text, true);
    match outcome {
        encoding_rs::DecoderResult::InputEmpty => Ok(text.chars().collect()),
        _ => Err(read),
    }
}

/// Relies on chrono's `NaiveDateTime::parse_from_str` and on
/// `and_utc().timestamp_micros()` of what it parsed.
#[verifier::external_body]
fn parse_stamp(text: &str, fmt: &str) -> (r: Option<i64>)
    ensures
        r == stamp_micros(text@, fmt@),
{
    match chrono::NaiveDateTime::parse_from_str(text, fmt) {
        Ok(d) => Some(d.and_utc().timestamp_micros()),
        Err(_) => None,
    }
}

/// Relies on std's `String: FromIterator<char>`: the string of the characters.
#[verifier::external_body]
fn text_of(v: &[char]) -> (r: String)
    ensures
        r@ == v@,
{
    v.iter().collect()
}

/// Why an ingestion failed, in the abstract.
pub enum Fault {
    Io(Seq<char>),
    Decode(int),
    Schema(Seq<char>),
    Cast(int, Seq<char>),
}

/// Why an ingestion failed.
#[derive(Debug, Clone, PartialEq, Eq)]
pub enum IngestError {
    /// The file could not be read; the cause as the system gave it.
    Io { detail: String },
    /// Malformed UTF-16LE; the region ends at this byte offset of the file.
    Decode { offset: usize },
    /// A required column header is absent.
    Schema { header: String },
    /// The date text of a data row (counted from 0) does not match the pattern.
    Cast { row: usize, text: String },
}

impl View for IngestError {
    type V = Fault;

    open spec fn view(&self) -> Fault {
        match self {
            IngestError::Io { detail } => Fault::Io(detail@),
            IngestError::Decode { offset } => Fault::Decode(*offset as int),
            IngestError::Schema { header } => Fault::Schema(header@),
            IngestError::Cast { row, text } => Fault::Cast(*row as int, text@),
        }
    }
}

/// A table in the abstract: the identifiers and the timestamps, row by row.
pub struct TableView {
    pub ids: Seq<Seq<char>>,
    pub dates: Seq<i64>,
}

/// The typed table: a string identifier column and a timestamp column of
/// microseconds since 1970-01-01T00:00:00, of equal length.
#[derive(Debug, Clone, PartialEq, Eq)]
pub struct Table {
    pub ids: Vec<String>,
    pub dates: Vec<i64>,
}

impl View for Table {
    type V = TableView;

    open spec fn view(&self) -> TableView {
        TableView { ids: self.ids@.map_values(|s: String| s@), dates: self.dates@ }
    }
}

impl Table {
    /// The number of data rows.
    pub fn row_count(&self) -> (r: usize)
        ensures
            r == self.dates@.len(),
    {
        self.dates.len()
    }
}

pub open spec fn outcome_view(r: Result<Table, IngestError>) -> Result<TableView, Fault> {
    match r {
        Ok(t) => Ok(t@),
        Err(e) => Err(e@),
    }
}

/// A line without the carriage return that may end it.
pub open spec fn strip_cr(l: Seq<char>) -> Seq<char> {
    if l.len() > 0 && l.last() == '\r' {
        l.drop_last()
    } else {
        l
    }
}

/// The lines that are not empty once stripped, stripped, in their order.
pub open spec fn nonblank(ls: Seq<Seq<char>>) -> Seq<Seq<char>>
    decreases ls.len(),
{
    if ls.len() == 0 {
        Seq::empty()
    } else {
        let rest = nonblank(ls.drop_last());
        let l = strip_cr(ls.last());
        if l.len() == 0 {
            rest
        } else {
            rest.push(l)
        }
    }
}

pub open spec fn split_record(l: Seq<char>) -> Seq<Seq<char>> {
    split_text(l, FIELD_SEP, true)
}

/// The records of the text, header first, each split into its fields.
pub open spec fn records_of(text: Seq<char>) -> Seq<Seq<Seq<char>>> {
    nonblank(split_text(text, LINE_SEP, false)).map_values(|l: Seq<char>| split_record(l))
}

/// The first position at or after `i` where `h` holds `name`.
pub open spec fn find_column(h: Seq<Seq<char>>, name: Seq<char>, i: int) -> Option<int>
    decreases h.len() - i,
{
    if i < 0 || i >= h.len() {
        None
    } else if h[i] == name {
        Some(i)
    } else {
        find_column(h, name, i + 1)
    }
}

/// The field of `row` in column `k`; empty where the row is shorter.
pub open spec fn cell(row: Seq<Seq<char>>, k: int) -> Seq<char> {
    if 0 <= k < row.len() {
        row[k]
    } else {
        Seq::empty()
    }
}

pub open spec fn date_of(row: Seq<Seq<char>>, k: int) -> Option<i64> {
    stamp_micros(cell(row, k), DATE_FORMAT@)
}

/// The first data row at or after `i` whose date field does not parse.
pub open spec fn first_bad(rows: Seq<Seq<Seq<char>>>, k: int, i: int) -> Option<int>
    decreases rows.len() - i,
{
    if i < 0 || i >= rows.len() {
        None
    } else if date_of(rows[i], k).is_none() {
        Some(i)
    } else {
        first_bad(rows, k, i + 1)
    }
}

pub open spec fn header_of(recs: Seq<Seq<Seq<char>>>) -> Seq<Seq<char>> {
    if recs.len() > 0 {
        recs[0]
    } else {
        Seq::empty()
    }
}

pub open spec fn data_of(recs: Seq<Seq<Seq<char>>>) -> Seq<Seq<Seq<char>>> {
    if recs.len() > 0 {
        recs.drop_first()
    } else {
        Seq::empty()
    }
}

/// The table that decoded text describes, or why there is none: a missing
/// identifier header, else a missing date header, else the first data row
/// whose date does not parse.
pub open spec fn table_spec(text: Seq<char>) -> Result<TableView, Fault> {
    let recs = records_of(text);
    let rows = data_of(recs);
    match find_column(header_of(recs), ID_HEADER@, 0) {
        None => Err(Fault::Schema(ID_HEADER@)),
        Some(a) => match find_column(header_of(recs), DATE_HEADER@, 0) {
            None => Err(Fault::Schema(DATE_HEADER@)),
            Some(b) => match first_bad(rows, b, 0) {
                Some(i) => Err(Fault::Cast(i, cell(rows[i], b))),
                None => Ok(
                    TableView {
                        ids: rows.map_values(|r: Seq<Seq<char>>| cell(r, a)),
                        dates: rows.map_values(|r: Seq<Seq<char>>| date_of(r, b).unwrap()),
                    },
                ),
            },
        },
    }
}

pub open spec fn records_view(v: Seq<Vec<Vec<char>>>) -> Seq<Seq<Seq<char>>> {
    v.map_values(|r: Vec<Vec<char>>| chars_of(r@))
}

/// The records of the text, header first: lines at `LINE_SEP` with a final
/// carriage return dropped and blank ones left out, each split at
/// `FIELD_SEP` with `QUOTE` honoured.
pub fn records(text: &Vec<char>) -> (r: Vec<Vec<Vec<char>>>)
    ensures
        records_view(r@) == records_of(text@),
{
    let lines = split_fields(text, LINE_SEP, false);
    let ghost ls = split_text(text@, LINE_SEP, false);
    let mut out: Vec<Vec<Vec<char>>> = Vec::new();
    let mut i: usize = 0;
    assert(records_view(out@) =~= nonblank(ls.take(0)).map_values(
        |l: Seq<char>| split_record(l),
    ));
    while i < lines.len()
        invariant
            i <= lines@.len(),
            chars_of(lines@) == ls,
            records_view(out@) == nonblank(ls.take(i as int)).map_values(
                |l: Seq<char>| split_record(l),
            ),
        decreases lines.len() - i,
    {
        let mut line = lines[i].clone();
        assert(line@ == ls[i as int]);
        if line.len() > 0 && line[line.len() - 1] == '\r' {
            line.pop();
        }
        assert(line@ =~= strip_cr(ls[i as int]));
        assert(ls.take(i + 1).drop_last() =~= ls.take(i as int));
        assert(ls.take(i + 1).last() == ls[i as int]);
        if line.len() > 0 {
            let fields = split_fields(&line, FIELD_SEP, true);
            let ghost before = out@;
            out.push(fields);
            assert(records_view(out@) =~= records_view(before).push(chars_of(fields@)));
            assert(nonblank(ls.take(i + 1)) == nonblank(ls.take(i as int)).push(line@));
            assert(records_view(out@) =~= nonblank(ls.take(i + 1)).map_values(
                |l: Seq<char>| split_record(l),
            ));
        }
        i = i + 1;
    }
    assert(ls.take(i as int) =~= ls);
    out
}

/// The first position of the header `h` that holds `name`.
pub fn column_index(h: &Vec<Vec<char>>, name: &str) -> (r: Option<usize>)
    ensures
        match r {
            Some(k) => find_column(chars_of(h@), name@, 0) == Some(k as int),
            None => find_column(chars_of(h@), name@, 0).is_none(),
        },
{
    let want = name.to_owned();
    let mut i: usize = 0;
    while i < h.len()
        invariant
            i <= h@.len(),
            want@ == name@,
            find_column(chars_of(h@), name@, 0) == find_column(chars_of(h@), name@, i as int),
        decreases h.len() - i,
    {
        let field = text_of(h[i].as_slice());
        if field == want {
            return Some(i);
        }
        i = i + 1;
    }
    None
}

/// The table that decoded text describes, or the first reason it describes
/// none, as `table_spec` gives it.
pub fn table_from_text(text: &Vec<char>) -> (r: Result<Table, IngestError>)
    ensures
        outcome_view(r) == table_spec(text@),
{
    let recs = records(text);
    let ghost rv = records_of(text@);
    let ghost rows = data_of(rv);
    if recs.len() == 0 {
        return Err(IngestError::Schema { header: ID_HEADER.to_owned() });
    }
    assert(chars_of(recs[0]@) == header_of(rv));
    let a = match column_index(&recs[0], ID_HEADER) {
        Some(a) => a,
        None => {
            return Err(IngestError::Schema { header: ID_HEADER.to_owned() });
        },
    };
    let b = match column_index(&recs[0], DATE_HEADER) {
        Some(b) => b,
        None => {
            return Err(IngestError::Schema { header: DATE_HEADER.to_owned() });
        },
    };
    let mut ids: Vec<String> = Vec::new();
    let mut dates: Vec<i64> = Vec::new();
    let mut k: usize = 1;
    while k < recs.len()
        invariant
            1 <= k <= recs@.len(),
            records_view(recs@) == rv,
            rv == records_of(text@),
            rows == rv.drop_first(),
            find_column(header_of(rv), ID_HEADER@, 0) == Some(a as int),
            find_column(header_of(rv), DATE_HEADER@, 0) == Some(b as int),
            first_bad(rows, b as int, 0) == first_bad(rows, b as int, k - 1),
            ids@.map_values(|s: String| s@) =~= rows.take(k - 1).map_values(
                |r: Seq<Seq<char>>| cell(r, a as int),
            ),
            dates@ =~= rows.take(k - 1).map_values(
                |r: Seq<Seq<char>>| date_of(r, b as int).unwrap(),
            ),
        decreases recs.len() - k,
    {
        let ghost row = rows[k - 1];
        assert(chars_of(recs[k as int]@) == row);
        let id = if a < recs[k].len() {
            text_of(recs[k][a].as_slice())
        } else {
            String::new()
        };
        let date_text = if b < recs[k].len() {
            text_of(recs[k][b].as_slice())
        } else {
            String::new()
        };
        assert(id@ == cell(row, a as int));
        assert(date_text@ == cell(row, b as int));
        match parse_stamp(date_text.as_str(), DATE_FORMAT) {
            None => {
                assert(first_bad(rows, b as int, k - 1) == Some((k - 1) as int));
                return Err(IngestError::Cast { row: k - 1, text: date_text });
            },
            Some(d) => {
                let ghost ids0 = ids@;
                let ghost dates0 = dates@;
                ids.push(id);
                dates.push(d);
                assert(rows.take(k as int) =~= rows.take(k - 1).push(row));
                assert(ids@.map_values(|s: String| s@) =~= ids0.map_values(|s: String| s@).push(
                    id@,
                ));
            },
        }
        k = k + 1;
    }
    assert(rows.take(k - 1) =~= rows);
    Ok(Table { ids, dates })
}

} // verus!

verus! {

/// The bytes after a leading UTF-16LE byte order mark, if there is one.
pub open spec fn body_bytes(b: Seq<u8>) -> Seq<u8> {
    if b.len() >= 2 && b[0] == 0xFFu8 && b[1] == 0xFEu8 {
        b.subrange(2, b.len() as int)
    } else {
        b
    }
}

/// What ingesting the bytes of a source file gives, for well-formed UTF-16LE;
/// `None` where the bytes are malformed.
pub open spec fn ingest_spec(b: Seq<u8>) -> Option<Result<TableView, Fault>> {
    match utf16le_text(body_bytes(b)) {
        Some(text) => Some(table_spec(text)),
        None => None,
    }
}

/// Decodes the bytes of a source file (a leading byte order mark dropped),
/// parses them and casts the date column. Malformed UTF-16LE gives a
/// `Decode` error naming where the bad sequence ends.
pub fn ingest_bytes(bytes: &[u8]) -> (r: Result<Table, IngestError>)
    requires
        bytes@.len() <= usize::MAX / 4,
    ensures
        match ingest_spec(bytes@) {
            Some(t) => outcome_view(r) == t,
            None => r matches Err(IngestError::Decode { offset }) && offset <= bytes@.len(),
        },
{
    let skip: usize = if bytes.len() >= 2 && bytes[0] == 0xFFu8 && bytes[1] == 0xFEu8 {
        2
    } else {
        0
    };
    let body = vstd::slice::slice_subrange(bytes, skip, bytes.len());
    assert(body@ == body_bytes(bytes@)) by {
        if skip == 0 {
            assert(bytes@.subrange(0, bytes@.len() as int) =~= bytes@);
        }
    }
    match decode_utf16le(body) {
        Ok(text) => table_from_text(&text),
        Err(end) => Err(IngestError::Decode { offset: end + skip }),
    }
}

/// One ingestion run over the bytes of a source file, reporting its
/// milestones through `progress`: the file is open, then parsed and cast,
/// then done. A failed run reports only the first.
pub fn process_csv_file(bytes: &[u8], progress: &mut ProgressChannel) -> (r: Result<
    Table,
    IngestError,
>)
    requires
        bytes@.len() <= usize::MAX / 4,
    ensures
        match ingest_spec(bytes@) {
            Some(t) => outcome_view(r) == t,
            None => r matches Err(IngestError::Decode { offset }) && offset <= bytes@.len(),
        },
        final(progress).written() == old(progress).written() + milestones(r is Ok),
{
    progress.write(OPENED);
    let r = ingest_bytes(bytes);
    if r.is_ok() {
        progress.write(PARSED);
        progress.write(FULL);
    }
    assert(progress.written() =~= old(progress).written() + milestones(r is Ok));
    r
}

} // verus!

verus! {

/// Records written as text: fields joined by `FIELD_SEP`, records by `LINE_SEP`.
pub open spec fn render(recs: Seq<Seq<Seq<char>>>) -> Seq<char> {
    join_with(recs.map_values(|r: Seq<Seq<char>>| join_with(r, FIELD_SEP)), LINE_SEP)
}

/// A field that needs no quoting and holds no line break.
pub open spec fn clean_cell(c: Seq<char>) -> bool {
    forall|i: int|
        0 <= i < c.len() ==> c[i] != FIELD_SEP && c[i] != LINE_SEP && c[i] != '\r' && c[i]
            != QUOTE
}

proof fn lemma_find_column(h: Seq<Seq<char>>, name: Seq<char>, i: int)
    requires
        0 <= i,
    ensures
        find_column(h, name, i) matches Some(k) ==> i <= k < h.len() && h[k] == name,
    decreases h.len() - i,
{
    if i < h.len() {
        lemma_find_column(h, name, i + 1);
    }
}

proof fn lemma_no_bad(rows: Seq<Seq<Seq<char>>>, k: int, i: int)
    requires
        0 <= i,
        forall|j: int| 0 <= j < rows.len() ==> (#[trigger] date_of(rows[j], k)) is Some,
    ensures
        first_bad(rows, k, i) is None,
    decreases rows.len() - i,
{
    if i < rows.len() {
        lemma_no_bad(rows, k, i + 1);
    }
}

proof fn lemma_nonblank_keeps(ls: Seq<Seq<char>>)
    requires
        forall|i: int| 0 <= i < ls.len() ==> (#[trigger] ls[i]).len() > 0 && ls[i].last() != '\r',
    ensures
        nonblank(ls) == ls,
    decreases ls.len(),
{
    if ls.len() > 0 {
        lemma_nonblank_keeps(ls.drop_last());
        assert(ls.drop_last().push(ls.last()) =~= ls);
    }
}

/// A text whose header lacks the date column gives a schema error naming
/// that column, and no table.
pub proof fn lemma_missing_date_header(text: Seq<char>)
    requires
        find_column(header_of(records_of(text)), ID_HEADER@, 0) is Some,
        find_column(header_of(records_of(text)), DATE_HEADER@, 0) is None,
    ensures
        table_spec(text) == Err::<TableView, Fault>(Fault::Schema(DATE_HEADER@)),
{
}

/// Round trip: a header naming both required columns and N rows of as many
/// fields, written as text with no field needing quotes, whose date fields
/// all match the pattern, give a table of exactly N rows: the identifier
/// fields, and the dates that the date fields spell.
pub proof fn lemma_round_trip(header: Seq<Seq<char>>, rows: Seq<Seq<Seq<char>>>)
    requires
        find_column(header, ID_HEADER@, 0) is Some,
        find_column(header, DATE_HEADER@, 0) is Some,
        forall|k: int| 0 <= k < header.len() ==> clean_cell(#[trigger] header[k]),
        forall|j: int, k: int|
            0 <= j < rows.len() && 0 <= k < rows[j].len() ==> clean_cell(#[trigger] rows[j][k]),
        forall|j: int| 0 <= j < rows.len() ==> (#[trigger] rows[j]).len() == header.len(),
        forall|j: int|
            0 <= j < rows.len() ==> (#[trigger] date_of(
                rows[j],
                find_column(header, DATE_HEADER@, 0).unwrap(),
            )) is Some,
    ensures
        table_spec(render(seq![header] + rows)) == Ok::<TableView, Fault>(
            TableView {
                ids: rows.map_values(
                    |r: Seq<Seq<char>>| cell(r, find_column(header, ID_HEADER@, 0).unwrap()),
                ),
                dates: rows.map_values(
                    |r: Seq<Seq<char>>|
                        date_of(r, find_column(header, DATE_HEADER@, 0).unwrap()).unwrap(),
                ),
            },
        ),
        rows.map_values(
            |r: Seq<Seq<char>>| cell(r, find_column(header, ID_HEADER@, 0).unwrap()),
        ).len() == rows.len(),
{
    let a = find_column(header, ID_HEADER@, 0).unwrap();
    let b = find_column(header, DATE_HEADER@, 0).unwrap();
    lemma_find_column(header, ID_HEADER@, 0);
    lemma_find_column(header, DATE_HEADER@, 0);
    reveal_strlit("STUDENT NUMBER");
    reveal_strlit("ENROLMENT DATE");
    assert(ID_HEADER@[0] != DATE_HEADER@[0]);
    assert(a != b);
    let recs = seq![header] + rows;
    let lines = recs.map_values(|r: Seq<Seq<char>>| join_with(r, FIELD_SEP));
    assert forall|j: int| 0 <= j < recs.len() implies (#[trigger] recs[j]).len() >= 2 && forall|
        k: int,
    | 0 <= k < recs[j].len() ==> clean_cell(#[trigger] recs[j][k]) by {
        if j > 0 {
            assert(recs[j] == rows[j - 1]);
        }
    }
    assert forall|j: int| 0 <= j < recs.len() implies split_record(#[trigger] lines[j])
        == recs[j] && plain(lines[j], LINE_SEP, false) && lines[j].len() > 0 && lines[j].last()
        != '\r' by {
        let r = recs[j];
        assert forall|k: int| 0 <= k < r.len() implies plain(#[trigger] r[k], FIELD_SEP, true) by {
            assert(clean_cell(r[k]));
        }
        lemma_split_join(r, FIELD_SEP, true);
        lemma_join_chars(r, FIELD_SEP, LINE_SEP);
        lemma_join_chars(r, FIELD_SEP, '\r');
        assert(lines[j] == join_with(r, FIELD_SEP));
        assert(lines[j][lines[j].len() - 1] != '\r');
    }
    assert forall|j: int| 0 <= j < lines.len() implies plain(#[trigger] lines[j], LINE_SEP, false) by {
    }
    lemma_split_join(lines, LINE_SEP, false);
    lemma_nonblank_keeps(lines);
    assert(records_of(render(recs)) =~= recs);
    assert(header_of(recs) == header);
    assert(data_of(recs) =~= rows);
    assert forall|j: int| 0 <= j < rows.len() implies (#[trigger] date_of(rows[j], b)) is Some by {
    }
    lemma_no_bad(rows, b, 0);
}

} // verus!
