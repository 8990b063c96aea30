//! The formatters of a flat listing: short columns, a long table and
//! structured records. Each turns an ordered entry list into its output and
//! prints nothing.

use vstd::prelude::*;
use vstd::string::*;
use crate::calendar::{
    record_time, table_time, time_text, RECORD_TIME_PATTERN, TABLE_TIME_PATTERN,
};
use crate::entry::{entry_views, Entry, EntryView, OutputMode};
use crate::size::{format_size, size_text};
use crate::text::{concatenated, joined};

verus! {

/// Written before the name of a directory: the escape sequence that turns
/// the text bold and blue.
pub const DIRECTORY_PREFIX: &'static str = "\x1B[1;34m";

/// Written after the name of a directory: the escape sequence that ends the
/// colour, then a path separator.
pub const DIRECTORY_SUFFIX: &'static str = "\x1B[0m/";

/// Written between two names in short columns.
pub const COLUMN_GAP: &'static str = "  ";

/// Written between two columns of the long table.
pub const COLUMN_TAB: &'static str = "\t";

/// Written after the path in a header line.
pub const HEADER_MARK: &'static str = ":";

/// Ends a line.
pub const LINE_END: &'static str = "\n";

/// The first column of the long table for a directory.
pub const DIRECTORY_TYPE: &'static str = "d";

/// The first column of the long table for anything else.
pub const FILE_TYPE: &'static str = "-";

/// The name of an entry as text modes show it: a directory's name stands
/// out in colour and ends in a path separator, any other name is plain.
pub open spec fn display_name(e: EntryView) -> Seq<char> {
    if e.is_directory {
        DIRECTORY_PREFIX@ + e.name + DIRECTORY_SUFFIX@
    } else {
        e.name
    }
}

/// The header line of a listing: the path, a colon and a line end.
pub open spec fn header_text(path: Seq<char>) -> Seq<char> {
    path + HEADER_MARK@ + LINE_END@
}

/// The names of the entries as text modes show them, in order.
pub open spec fn display_names(entries: Seq<EntryView>) -> Seq<Seq<char>> {
    entries.map_values(|e: EntryView| display_name(e))
}

/// A listing in short columns: the header line, then the names with a
/// double space between each two, then a line end.
pub open spec fn short_columns_text(path: Seq<char>, entries: Seq<EntryView>) -> Seq<char> {
    header_text(path) + joined(display_names(entries), COLUMN_GAP@) + LINE_END@
}

/// The type column of an entry: `d` for a directory, `-` otherwise.
pub open spec fn type_text(e: EntryView) -> Seq<char> {
    if e.is_directory {
        DIRECTORY_TYPE@
    } else {
        FILE_TYPE@
    }
}

/// One line of the long table: type, scaled size, time of modification and
/// name, with a tab between each two, then a line end.
pub open spec fn long_line(e: EntryView) -> Seq<char> {
    type_text(e) + COLUMN_TAB@ + size_text(e.size) + COLUMN_TAB@ + time_text(
        e.modified,
        TABLE_TIME_PATTERN@,
    ) + COLUMN_TAB@ + display_name(e) + LINE_END@
}

/// The lines of the long table, in order.
pub open spec fn long_lines(entries: Seq<EntryView>) -> Seq<Seq<char>> {
    entries.map_values(|e: EntryView| long_line(e))
}

/// A listing as a long table: the header line, then one line per entry.
pub open spec fn long_table_text(path: Seq<char>, entries: Seq<EntryView>) -> Seq<char> {
    header_text(path) + concatenated(long_lines(entries))
}

/// One structured record as the contracts see it.
pub struct FileInfoView {
    pub name: Seq<char>,
    pub size: nat,
    pub modified: Seq<char>,
    pub is_dir: bool,
}

/// One structured record: the name, the size in bytes, the time of
/// modification as `YYYY-MM-DD HH:MM:SS` and the directory flag.
#[derive(Debug, PartialEq, Eq)]
pub struct FileInfo {
    pub name: String,
    pub size: u64,
    pub modified: String,
    pub is_dir: bool,
}

impl View for FileInfo {
    type V = FileInfoView;

    open spec fn view(&self) -> FileInfoView {
        FileInfoView {
            name: self.name@,
            size: self.size as nat,
            modified: self.modified@,
            is_dir: self.is_dir,
        }
    }
}

/// The record of an entry: its fields, the name plain and the size in
/// bytes, the time written under the pattern of records.
pub open spec fn record_of(e: EntryView) -> FileInfoView {
    FileInfoView {
        name: e.name,
        size: e.size,
        modified: time_text(e.modified, RECORD_TIME_PATTERN@),
        is_dir: e.is_directory,
    }
}

/// The views of a sequence of records, in order.
pub open spec fn record_views(records: Seq<FileInfo>) -> Seq<FileInfoView> {
    Seq::new(records.len(), |i: int| records[i]@)
}

/// The records of the entries, in order.
pub open spec fn records_of(entries: Seq<EntryView>) -> Seq<FileInfoView> {
    entries.map_values(|e: EntryView| record_of(e))
}

/// The output of a formatter.
#[derive(Debug, PartialEq, Eq)]
pub enum Rendering {
    /// Text for a reader, ready to be printed as it is.
    Text(String),
    /// Records for a serialiser, which gives them their textual form.
    Records(Vec<FileInfo>),
}

/// The output of a formatter as the contracts see it.
pub enum RenderingView {
    Text(Seq<char>),
    Records(Seq<FileInfoView>),
}

impl View for Rendering {
    type V = RenderingView;

    open spec fn view(&self) -> RenderingView {
        match *self {
            Rendering::Text(text) => RenderingView::Text(text@),
            Rendering::Records(records) => RenderingView::Records(record_views(records@)),
        }
    }
}

/// What each mode makes of an ordered entry list. The text modes begin
/// with a header line that names the path; structured records have none.
pub open spec fn rendered(mode: OutputMode, path: Seq<char>, entries: Seq<EntryView>) -> RenderingView {
    match mode {
        OutputMode::ShortColumns => RenderingView::Text(short_columns_text(path, entries)),
        OutputMode::LongTable => RenderingView::Text(long_table_text(path, entries)),
        OutputMode::StructuredRecords => RenderingView::Records(records_of(entries)),
    }
}

/// Appends the name of an entry as text modes show it.
pub fn append_display_name(out: &mut String, entry: &Entry)
    ensures
        final(out)@ == old(out)@ + display_name(entry@),
{
    if entry.is_directory() {
        out.append(DIRECTORY_PREFIX);
        out.append(entry.name());
        out.append(DIRECTORY_SUFFIX);
        assert(final(out)@ =~= old(out)@ + display_name(entry@));
    } else {
        out.append(entry.name());
    }
}

/// Appends the header line of a listing of `path`.
pub fn append_header(out: &mut String, path: &str)
    ensures
        final(out)@ == old(out)@ + header_text(path@),
{
    out.append(path);
    out.append(HEADER_MARK);
    out.append(LINE_END);
    assert(final(out)@ =~= old(out)@ + header_text(path@));
}

/// Renders the entries in short columns: the header line, the names in
/// their order with a double space between each two, and a line end.
pub fn list_short_format(path: &str, entries: &Vec<Entry>) -> (text: String)
    ensures
        text@ == short_columns_text(path@, entry_views(entries@)),
{
    let ghost names = display_names(entry_views(entries@));
    let mut text: String = String::new();
    append_header(&mut text, path);
    let mut at: usize = 0;
    assert(text@ =~= header_text(path@) + joined(names.take(0), COLUMN_GAP@));
    while at < entries.len()
        invariant
            at <= entries.len(),
            names == display_names(entry_views(entries@)),
            text@ == header_text(path@) + joined(names.take(at as int), COLUMN_GAP@),
        decreases entries.len() - at,
    {
        let ghost before = text@;
        if at > 0 {
            text.append(COLUMN_GAP);
        }
        append_display_name(&mut text, &entries[at]);
        proof {
            let upto = names.take(at as int + 1);
            assert(upto.drop_last() =~= names.take(at as int));
            assert(upto.last() == display_name(entries[at as int]@));
            assert(text@ =~= header_text(path@) + joined(upto, COLUMN_GAP@));
        }
        at = at + 1;
    }
    assert(names.take(at as int) =~= names);
    text.append(LINE_END);
    text
}

/// Appends the line of the long table for one entry.
pub fn append_long_line(out: &mut String, entry: &Entry)
    ensures
        final(out)@ == old(out)@ + long_line(entry@),
{
    if entry.is_directory() {
        out.append(DIRECTORY_TYPE);
    } else {
        out.append(FILE_TYPE);
    }
    out.append(COLUMN_TAB);
    let size: String = format_size(entry.size());
    out.append(size.as_str());
    out.append(COLUMN_TAB);
    let time: String = table_time(entry.modified());
    out.append(time.as_str());
    out.append(COLUMN_TAB);
    append_display_name(out, entry);
    out.append(LINE_END);
    assert(final(out)@ =~= old(out)@ + long_line(entry@));
}

/// Renders the entries as a long table: the header line, then for each
/// entry in its order one line of type, scaled size, time and name.
pub fn list_long_format(path: &str, entries: &Vec<Entry>) -> (text: String)
    ensures
        text@ == long_table_text(path@, entry_views(entries@)),
{
    let ghost lines = long_lines(entry_views(entries@));
    let mut text: String = String::new();
    append_header(&mut text, path);
    let mut at: usize = 0;
    assert(text@ =~= header_text(path@) + concatenated(lines.take(0)));
    while at < entries.len()
        invariant
            at <= entries.len(),
            lines == long_lines(entry_views(entries@)),
            text@ == header_text(path@) + concatenated(lines.take(at as int)),
        decreases entries.len() - at,
    {
        append_long_line(&mut text, &entries[at]);
        proof {
            let upto = lines.take(at as int + 1);
            assert(upto.drop_last() =~= lines.take(at as int));
            assert(upto.last() == long_line(entries[at as int]@));
            assert(text@ =~= header_text(path@) + concatenated(upto));
        }
        at = at + 1;
    }
    assert(lines.take(at as int) =~= lines);
    text
}

/// Makes the structured records of the entries: one record per entry, in
/// order, with the entry's name, size and directory flag and its time of
/// modification as `YYYY-MM-DD HH:MM:SS`.
pub fn structured_records(entries: &Vec<Entry>) -> (records: Vec<FileInfo>)
    ensures
        record_views(records@) == records_of(entry_views(entries@)),
        records.len() == entries.len(),
{
    let mut records: Vec<FileInfo> = Vec::new();
    let mut at: usize = 0;
    while at < entries.len()
        invariant
            at <= entries.len(),
            records.len() == at,
            forall|i: int| 0 <= i < at ==> (#[trigger] records[i])@ == record_of(entries[i]@),
        decreases entries.len() - at,
    {
        let entry = &entries[at];
        let record = FileInfo {
            name: String::from_str(entry.name()),
            size: entry.size(),
            modified: record_time(entry.modified()),
            is_dir: entry.is_directory(),
        };
        records.push(record);
        at = at + 1;
    }
    assert(record_views(records@) =~= records_of(entry_views(entries@)));
    records
}

/// Renders an ordered entry list in the given mode.
pub fn render(mode: OutputMode, path: &str, entries: &Vec<Entry>) -> (output: Rendering)
    ensures
        output@ == rendered(mode, path@, entry_views(entries@)),
{
    match mode {
        OutputMode::ShortColumns => Rendering::Text(list_short_format(path, entries)),
        OutputMode::LongTable => Rendering::Text(list_long_format(path, entries)),
        OutputMode::StructuredRecords => Rendering::Records(structured_records(entries)),
    }
}

/// Formatting is repeatable: two outputs that a formatter gives for the
/// same mode, path and ordered entry list are the same, character by
/// character and record by record.
pub proof fn lemma_rendering_is_repeatable(
    mode: OutputMode,
    path: Seq<char>,
    entries: Seq<EntryView>,
    first: RenderingView,
    second: RenderingView,
)
    requires
        first == rendered(mode, path, entries),
        second == rendered(mode, path, entries),
    ensures
        first == second,
{
}

/// Structured records keep the cardinality and the field values of the
/// entry list: as many records as entries, and at each place the name, the
/// size and the directory flag of the entry there.
pub proof fn lemma_records_keep_fields(entries: Seq<EntryView>)
    ensures
        records_of(entries).len() == entries.len(),
        forall|i: int|
            0 <= i < entries.len() ==> {
                &&& (#[trigger] records_of(entries)[i]).name == entries[i].name
                &&& records_of(entries)[i].size == entries[i].size
                &&& records_of(entries)[i].is_dir == entries[i].is_directory
                &&& records_of(entries)[i].modified == time_text(
                    entries[i].modified,
                    RECORD_TIME_PATTERN@,
                )
            },
{
}

} // verus!
