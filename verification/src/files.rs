use vstd::prelude::*;
use vstd::utf8::*;
use calamine::Reader;
use crate::text::{
    copy_strings, lowercase_of, owned, push_char, str_eq, string_from_utf8, strings_view, to_lowercase,
    utf8_error_text, utf8_lossy, utf8_lossy_of,
};

verus! {

/// The kinds of file the library reads.
#[derive(Debug, Clone, Copy, PartialEq, Eq, Structural)]
pub enum FileType {
    Csv,
    Xlsx,
    Xls,
    Txt,
    Json,
    Unknown,
}

/// The type a lower-cased extension stands for.
pub open spec fn file_type_for(lower: Seq<char>) -> FileType {
    if lower == "csv"@ {
        FileType::Csv
    } else if lower == "xlsx"@ {
        FileType::Xlsx
    } else if lower == "xls"@ {
        FileType::Xls
    } else if lower == "txt"@ {
        FileType::Txt
    } else if lower == "json"@ {
        FileType::Json
    } else {
        FileType::Unknown
    }
}

pub open spec fn extension_of_type(t: FileType) -> Seq<char> {
    match t {
        FileType::Csv => "csv"@,
        FileType::Xlsx => "xlsx"@,
        FileType::Xls => "xls"@,
        FileType::Txt => "txt"@,
        FileType::Json => "json"@,
        FileType::Unknown => "txt"@,
    }
}

impl FileType {
    /// The type of a file with the given extension, compared without regard
    /// to case.
    pub fn from_extension(ext: &str) -> (t: Self)
        ensures
            t == file_type_for(lowercase_of(ext@)),
    {
        let lower = to_lowercase(ext);
        let l = lower.as_str();
        if str_eq(l, "csv") {
            FileType::Csv
        } else if str_eq(l, "xlsx") {
            FileType::Xlsx
        } else if str_eq(l, "xls") {
            FileType::Xls
        } else if str_eq(l, "txt") {
            FileType::Txt
        } else if str_eq(l, "json") {
            FileType::Json
        } else {
            FileType::Unknown
        }
    }

    /// The extension files of this type are written with.
    pub fn extension(&self) -> (ext: &'static str)
        ensures
            ext@ == extension_of_type(*self),
    {
        match self {
            FileType::Csv => "csv",
            FileType::Xlsx => "xlsx",
            FileType::Xls => "xls",
            FileType::Txt => "txt",
            FileType::Json => "json",
            FileType::Unknown => "txt",
        }
    }
}

/// The extension a type is written with reads back as that type; unknown
/// files are written as text.
pub proof fn law_extension_round_trip(t: FileType)
    ensures
        file_type_for(extension_of_type(t)) == if t == FileType::Unknown {
            FileType::Txt
        } else {
            t
        },
{
    reveal_strlit("csv");
    reveal_strlit("xlsx");
    reveal_strlit("xls");
    reveal_strlit("txt");
    reveal_strlit("json");
    assert("xlsx"@ != "csv"@) by {
        assert("xlsx"@.len() != "csv"@.len());
    }
    assert("xls"@ != "csv"@) by {
        assert("xls"@[1] != "csv"@[1]);
    }
    assert("xls"@ != "xlsx"@) by {
        assert("xls"@.len() != "xlsx"@.len());
    }
    assert("txt"@ != "csv"@) by {
        assert("txt"@[0] != "csv"@[0]);
    }
    assert("txt"@ != "xlsx"@) by {
        assert("txt"@.len() != "xlsx"@.len());
    }
    assert("txt"@ != "xls"@) by {
        assert("txt"@[0] != "xls"@[0]);
    }
    assert("json"@ != "csv"@) by {
        assert("json"@.len() != "csv"@.len());
    }
    assert("json"@ != "xlsx"@) by {
        assert("json"@[0] != "xlsx"@[0]);
    }
    assert("json"@ != "xls"@) by {
        assert("json"@.len() != "xls"@.len());
    }
    assert("json"@ != "txt"@) by {
        assert("json"@.len() != "txt"@.len());
    }
}

/// A table: optional header row, data rows, and the sheet it came from.
#[derive(Debug)]
pub struct TabularData {
    pub headers: Option<Vec<String>>,
    pub rows: Vec<Vec<String>>,
    pub sheet_name: Option<String>,
}

/// What a file holds: a table, or text.
#[derive(Debug)]
pub enum FileContent {
    Tabular(TabularData),
    Text(String),
}

/// A parsed file.
#[derive(Debug)]
pub struct ParsedFile {
    pub file_type: FileType,
    pub content: FileContent,
    pub original_name: String,
}

/// Why a file could not be read or written.
#[derive(Debug)]
pub struct ParseError(pub String);

/// Reads files.
pub struct FileParser;

pub open spec fn rows_view(v: Seq<Vec<String>>) -> Seq<Seq<Seq<char>>> {
    v.map_values(|r: Vec<String>| strings_view(r@))
}

pub open spec fn opt_strings_view(o: Option<Vec<String>>) -> Option<Seq<Seq<char>>> {
    match o {
        Some(v) => Some(strings_view(v@)),
        None => None,
    }
}

pub open spec fn opt_string_view(o: Option<String>) -> Option<Seq<char>> {
    match o {
        Some(s) => Some(s@),
        None => None,
    }
}

pub struct TableView {
    pub headers: Option<Seq<Seq<char>>>,
    pub rows: Seq<Seq<Seq<char>>>,
    pub sheet_name: Option<Seq<char>>,
}

pub enum ContentView {
    Tabular(TableView),
    Text(Seq<char>),
}

impl View for TabularData {
    type V = TableView;

    open spec fn view(&self) -> TableView {
        TableView {
            headers: opt_strings_view(self.headers),
            rows: rows_view(self.rows@),
            sheet_name: opt_string_view(self.sheet_name),
        }
    }
}

impl View for FileContent {
    type V = ContentView;

    open spec fn view(&self) -> ContentView {
        match self {
            FileContent::Tabular(t) => ContentView::Tabular(t@),
            FileContent::Text(s) => ContentView::Text(s@),
        }
    }
}

// ---------------------------------------------------------------------------
// Outside crates and std paths
// ---------------------------------------------------------------------------

#[verifier::external_type_specification]
#[verifier::external_body]
pub struct ExCsvError(csv::Error);

/// The header row (if it reads) and the data rows of CSV data read by the
/// csv crate with flexible row lengths and a header row; `None` when a
/// record fails to read.
pub uninterp spec fn csv_table_of(data: Seq<u8>) -> Option<(Option<Seq<Seq<char>>>, Seq<Seq<Seq<char>>>)>;

/// `csv::ReaderBuilder` (flexible, with headers) over the bytes: the
/// headers (`None` when they fail to read) and the records as strings.
/// Claimed: the outcome is the named `csv_table_of` of the bytes.
#[verifier::external_body]
fn csv_read(data: &[u8]) -> (table: Result<(Option<Vec<String>>, Vec<Vec<String>>), csv::Error>)
    ensures
        table is Ok <==> csv_table_of(data@) is Some,
        table matches Ok(t) ==> csv_table_of(data@) == Some((opt_strings_view(t.0), rows_view(t.1@))),
{
    let mut reader = csv::ReaderBuilder::new().flexible(true).has_headers(true).from_reader(data);
    let headers = reader.headers().ok().map(|h| h.iter().map(|s| s.to_string()).collect());
    let rows: Result<Vec<Vec<String>>, csv::Error> = reader.records().map(
        |r| r.map(|rec| rec.iter().map(|s| s.to_string()).collect()),
    ).collect();
    rows.map(|rows| (headers, rows))
}

/// The bytes `csv::Writer` writes for the records, `None` when it fails.
pub uninterp spec fn csv_written_of(records: Seq<Seq<Seq<char>>>) -> Option<Seq<u8>>;

/// `csv::Writer` over a byte vector: writes each record, then hands back
/// the bytes. Claimed: the outcome is the named `csv_written_of`.
#[verifier::external_body]
fn csv_write(records: &Vec<Vec<String>>) -> (bytes: Result<Vec<u8>, csv::Error>)
    ensures
        bytes is Ok <==> csv_written_of(rows_view(records@)) is Some,
        bytes matches Ok(b) ==> csv_written_of(rows_view(records@)) == Some(b@),
{
    let mut wtr = csv::Writer::from_writer(Vec::new());
    for record in records {
        wtr.write_record(record)?;
    }
    wtr.into_inner().map_err(|e| csv::Error::from(e.into_error()))
}

/// The message of a csv error (its `Display`). Nothing is claimed of it.
#[verifier::external_body]
fn csv_error_text(e: &csv::Error) -> String {
    e.to_string()
}

// Paths are read with '/' as the only separator, as `std::path::Path` reads
// them on Unix.

/// Where the component ending at `end` starts: just after the last '/'
/// before `end`, or 0.
pub open spec fn piece_start_at(p: Seq<char>, end: nat) -> nat
    decreases end,
{
    if end == 0 {
        0
    } else if p[end - 1] == '/' {
        end
    } else {
        piece_start_at(p, (end - 1) as nat)
    }
}

/// The range of the file name among the first `end` characters:
/// trailing separators and "." components are skipped; nothing when no
/// component is left or the last one is "..".
pub open spec fn file_name_at(p: Seq<char>, end: nat) -> Option<(nat, nat)>
    decreases end,
{
    if end == 0 {
        None
    } else if p[end - 1] == '/' {
        file_name_at(p, (end - 1) as nat)
    } else {
        let s = piece_start_at(p, end);
        if end == s + 1 && p[s as int] == '.' {
            file_name_at(p, (end - 1) as nat)
        } else if end == s + 2 && p[s as int] == '.' && p[(s + 1) as int] == '.' {
            None
        } else {
            Some((s, end))
        }
    }
}

/// The final component of a path (what `Path::file_name` gives on Unix).
pub open spec fn path_file_name_of(path: Seq<char>) -> Option<Seq<char>> {
    match file_name_at(path, path.len()) {
        Some((s, e)) => Some(path.subrange(s as int, e as int)),
        None => None,
    }
}

/// The position of the last '.' among the first `end` characters.
pub open spec fn last_dot_at(n: Seq<char>, end: nat) -> Option<nat>
    decreases end,
{
    if end == 0 {
        None
    } else if n[end - 1] == '.' {
        Some((end - 1) as nat)
    } else {
        last_dot_at(n, (end - 1) as nat)
    }
}

/// A file name split at its last '.': the stem and the extension; a name
/// with no '.', or whose only '.' comes first, has no extension.
pub open spec fn split_at_dot(n: Seq<char>) -> (Seq<char>, Option<Seq<char>>) {
    match last_dot_at(n, n.len()) {
        Some(d) => if d == 0 {
            (n, None)
        } else {
            (n.take(d as int), Some(n.skip((d + 1) as int)))
        },
        None => (n, None),
    }
}

/// The extension of a path's file name (what `Path::extension` gives on
/// Unix).
pub open spec fn path_extension_of(path: Seq<char>) -> Option<Seq<char>> {
    match path_file_name_of(path) {
        Some(n) => split_at_dot(n).1,
        None => None,
    }
}

/// The file name without its extension (what `Path::file_stem` gives on
/// Unix).
pub open spec fn path_file_stem_of(path: Seq<char>) -> Option<Seq<char>> {
    match path_file_name_of(path) {
        Some(n) => Some(split_at_dot(n).0),
        None => None,
    }
}

/// The characters of a string.
fn chars_of(s: &str) -> (v: Vec<char>)
    ensures
        v@ == s@,
{
    let mut v: Vec<char> = Vec::new();
    for c in it: s.chars()
        invariant
            it.seq() == s@,
            v@ == s@.take(it.index() as int),
    {
        proof {
            assert(s@.take(it.index() + 1) =~= s@.take(it.index() as int).push(c));
        }
        v.push(c);
    }
    proof {
        assert(s@.take(s@.len() as int) =~= s@);
    }
    v
}

/// A string of the characters `v[start..end]`.
fn string_of(v: &Vec<char>, start: usize, end: usize) -> (s: String)
    requires
        start <= end <= v.len(),
    ensures
        s@ == v@.subrange(start as int, end as int),
{
    let mut s = String::new();
    let mut i = start;
    while i < end
        invariant
            start <= i <= end <= v.len(),
            s@ == v@.subrange(start as int, i as int),
        decreases end - i,
    {
        push_char(&mut s, v[i]);
        proof {
            assert(v@.subrange(start as int, i + 1) =~= v@.subrange(start as int, i as int).push(v@[i as int]));
        }
        i = i + 1;
    }
    s
}

fn piece_start(p: &Vec<char>, end: usize) -> (k: usize)
    requires
        end <= p.len(),
    ensures
        k == piece_start_at(p@, end as nat),
        k <= end,
        forall|i: int| k <= i < end ==> p@[i] != '/',
{
    let mut k = end;
    while k > 0 && p[k - 1] != '/'
        invariant
            k <= end <= p.len(),
            piece_start_at(p@, k as nat) == piece_start_at(p@, end as nat),
            forall|i: int| k <= i < end ==> p@[i] != '/',
        decreases k,
    {
        k = k - 1;
    }
    k
}

/// The range of a path's file name.
fn file_name_range(p: &Vec<char>) -> (r: Option<(usize, usize)>)
    ensures
        match (r, file_name_at(p@, p.len() as nat)) {
            (Some((s, e)), Some((s2, e2))) => s == s2 && e == e2 && s <= e <= p.len(),
            (None, None) => true,
            _ => false,
        },
{
    let mut end = p.len();
    loop
        invariant
            end <= p.len(),
            file_name_at(p@, end as nat) == file_name_at(p@, p.len() as nat),
        decreases end,
    {
        if end == 0 {
            return None;
        }
        if p[end - 1] == '/' {
            end = end - 1;
        } else {
            let s = piece_start(p, end);
            if end - s == 1 && p[s] == '.' {
                end = end - 1;
            } else if end - s == 2 && p[s] == '.' && p[s + 1] == '.' {
                return None;
            } else {
                return Some((s, end));
            }
        }
    }
}

fn last_dot(n: &Vec<char>) -> (d: Option<usize>)
    ensures
        match (d, last_dot_at(n@, n.len() as nat)) {
            (Some(a), Some(b)) => a == b && a < n.len(),
            (None, None) => true,
            _ => false,
        },
{
    let mut end = n.len();
    while end > 0
        invariant
            end <= n.len(),
            last_dot_at(n@, end as nat) == last_dot_at(n@, n.len() as nat),
        decreases end,
    {
        if n[end - 1] == '.' {
            return Some(end - 1);
        }
        end = end - 1;
    }
    None
}

/// The file name of a path, read with '/' as the separator.
pub(crate) fn path_file_name(path: &str) -> (name: Option<String>)
    ensures
        match name {
            Some(n) => path_file_name_of(path@) == Some(n@),
            None => path_file_name_of(path@) is None,
        },
{
    let p = chars_of(path);
    match file_name_range(&p) {
        Some((s, e)) => Some(string_of(&p, s, e)),
        None => None,
    }
}

/// The stem and the extension of a path's file name.
fn path_split(path: &str) -> (parts: Option<(String, Option<String>)>)
    ensures
        match (parts, path_file_name_of(path@)) {
            (Some((stem, ext)), Some(n)) => stem@ == split_at_dot(n).0 && match (ext, split_at_dot(n).1) {
                (Some(a), Some(b)) => a@ == b,
                (None, None) => true,
                _ => false,
            },
            (None, None) => true,
            _ => false,
        },
{
    let p = chars_of(path);
    match file_name_range(&p) {
        Some((s, e)) => {
            let name = string_of(&p, s, e);
            let n = chars_of(name.as_str());
            match last_dot(&n) {
                Some(d) => {
                    if d == 0 {
                        Some((name, None))
                    } else {
                        let stem = string_of(&n, 0, d);
                        let ext = string_of(&n, d + 1, n.len());
                        proof {
                            assert(n@.subrange(0, d as int) =~= n@.take(d as int));
                            assert(n@.subrange(d + 1, n.len() as int) =~= n@.skip(d + 1));
                        }
                        Some((stem, Some(ext)))
                    }
                },
                None => Some((name, None)),
            }
        },
        None => None,
    }
}

/// The extension of a path's file name.
pub(crate) fn path_extension(path: &str) -> (ext: Option<String>)
    ensures
        match ext {
            Some(e) => path_extension_of(path@) == Some(e@),
            None => path_extension_of(path@) is None,
        },
{
    match path_split(path) {
        Some((_, ext)) => ext,
        None => None,
    }
}

/// A path's file name without its extension.
pub(crate) fn path_file_stem(path: &str) -> (stem: Option<String>)
    ensures
        match stem {
            Some(s) => path_file_stem_of(path@) == Some(s@),
            None => path_file_stem_of(path@) is None,
        },
{
    match path_split(path) {
        Some((stem, _)) => Some(stem),
        None => None,
    }
}

// ---------------------------------------------------------------------------
// Parsing
// ---------------------------------------------------------------------------

/// The extension of a file name, empty when it has none.
pub open spec fn extension_or_empty(name: Seq<char>) -> Seq<char> {
    match path_extension_of(name) {
        Some(e) => e,
        None => ""@,
    }
}

/// A workbook's content: the first sheet, its first row as the header row.
pub open spec fn workbook_table(sheet: Seq<char>, rows: Seq<Seq<Seq<char>>>) -> TableView {
    TableView {
        headers: if rows.len() > 0 {
            Some(rows[0])
        } else {
            None
        },
        rows: if rows.len() > 0 {
            rows.drop_first()
        } else {
            rows
        },
        sheet_name: Some(sheet),
    }
}

/// What reading a workbook gave: its sheet names and, when it has any, the
/// rows of its first sheet (each cell as text) or the reason that sheet did
/// not read.
#[derive(Debug)]
pub struct WorkbookRead {
    pub sheet_names: Vec<String>,
    pub first_sheet: Result<Vec<Vec<String>>, String>,
}

pub struct WorkbookView {
    pub sheet_names: Seq<Seq<char>>,
    pub first_sheet: Result<Seq<Seq<Seq<char>>>, Seq<char>>,
}

impl View for WorkbookRead {
    type V = WorkbookView;

    open spec fn view(&self) -> WorkbookView {
        WorkbookView {
            sheet_names: strings_view(self.sheet_names@),
            first_sheet: match self.first_sheet {
                Ok(rows) => Ok(rows_view(rows@)),
                Err(e) => Err(e@),
            },
        }
    }
}

/// A workbook as a table, or the message of why it is not one.
pub open spec fn workbook_outcome(w: WorkbookView) -> Result<ContentView, Seq<char>> {
    if w.sheet_names.len() == 0 {
        Err("No sheets found in workbook"@)
    } else {
        match w.first_sheet {
            Ok(rows) => Ok(ContentView::Tabular(workbook_table(w.sheet_names[0], rows))),
            Err(e) => Err("Failed to read worksheet: "@ + e),
        }
    }
}

/// How a workbook read, as the caller hands it in: the reading, or why the
/// workbook did not open.
pub open spec fn workbook_view(x: Result<WorkbookRead, String>) -> Result<WorkbookView, Seq<char>> {
    match x {
        Ok(w) => Ok(w@),
        Err(e) => Err(e@),
    }
}

/// The content the bytes of a file of the given type hold, or the message
/// of the error: `Err(Some(m))` where the message is `m`, `Err(None)` where
/// it is the text of an error of the csv crate. `in_memory` tells bytes
/// received from bytes read from a path: in memory, text is decoded
/// leniently; from a path it must be valid UTF-8. A workbook (XLSX or XLS)
/// is read by the caller and handed in as `workbook`.
pub open spec fn content_of(
    t: FileType,
    data: Seq<u8>,
    in_memory: bool,
    workbook: Result<WorkbookView, Seq<char>>,
) -> Result<ContentView, Option<Seq<char>>> {
    match t {
        FileType::Csv => match csv_table_of(data) {
            Some((headers, rows)) => Ok(
                ContentView::Tabular(TableView { headers, rows, sheet_name: None }),
            ),
            None => Err(None),
        },
        FileType::Xlsx | FileType::Xls => match workbook {
            Ok(w) => match workbook_outcome(w) {
                Ok(c) => Ok(c),
                Err(m) => Err(Some(m)),
            },
            Err(reason) => Err(
                Some(
                    if t == FileType::Xlsx {
                        reason
                    } else if in_memory {
                        "Failed to parse XLS: "@ + reason
                    } else {
                        "Failed to open XLS: "@ + reason
                    },
                ),
            ),
        },
        _ => if valid_utf8(data) {
            Ok(ContentView::Text(decode_utf8(data)))
        } else if in_memory {
            Ok(ContentView::Text(utf8_lossy_of(data)))
        } else {
            Err(Some("stream did not contain valid UTF-8"@))
        },
    }
}

/// The type of a file, by the extension of its name or path, in any case
/// ("unknown" when it has none).
pub fn file_type_of(filename: &str) -> (t: FileType)
    ensures
        t == file_type_for(lowercase_of(extension_or_empty(filename@))),
{
    let extension = match path_extension(filename) {
        Some(e) => e,
        None => owned(""),
    };
    FileType::from_extension(extension.as_str())
}

/// `parse_file(path, bytes, workbook)` and `parse_from_bytes(bytes, path,
/// workbook)` find the same type (by the path's extension) and parse the
/// same content when the bytes are valid UTF-8, but for the wording of an
/// XLS workbook that did not open; `parse_file` names the file by the last
/// component of the path.
pub proof fn law_parse_file_agrees_with_parse_from_bytes(
    t: FileType,
    data: Seq<u8>,
    workbook: Result<WorkbookView, Seq<char>>,
)
    requires
        valid_utf8(data),
        t != FileType::Xls || workbook is Ok,
    ensures
        content_of(t, data, true, workbook) == content_of(t, data, false, workbook),
{
}

/// What a parse gives, against what `content_of` says of it.
pub open spec fn parse_meets(
    content: Result<FileContent, ParseError>,
    expected: Result<ContentView, Option<Seq<char>>>,
) -> bool {
    match expected {
        Ok(c) => content matches Ok(got) && got@ == c,
        Err(Some(m)) => content matches Err(e) && e.0@ == m,
        Err(None) => content is Err,
    }
}

/// Turns the first sheet of a workbook into a table, its first row being
/// the header row.
fn workbook_rows_to_content(sheet: String, rows: Vec<Vec<String>>) -> (content: FileContent)
    ensures
        content@ == ContentView::Tabular(workbook_table(sheet@, rows_view(rows@))),
{
    let mut rows = rows;
    let ghost all = rows@;
    let headers = if rows.len() > 0 {
        Some(rows.remove(0))
    } else {
        None
    };
    proof {
        if all.len() > 0 {
            assert(rows_view(rows@) =~= rows_view(all).drop_first());
        }
    }
    FileContent::Tabular(TabularData { headers, rows, sheet_name: Some(sheet) })
}

impl FileParser {
    /// The table of a workbook: its first sheet, the first row of which is
    /// the header row. Fails when the workbook has no sheet, or its first
    /// sheet did not read.
    pub fn parse_workbook(workbook: WorkbookRead) -> (content: Result<FileContent, ParseError>)
        ensures
            parse_meets(
                content,
                match workbook_outcome(workbook@) {
                    Ok(c) => Ok(c),
                    Err(m) => Err(Some(m)),
                },
            ),
    {
        let WorkbookRead { sheet_names, first_sheet } = workbook;
        if sheet_names.len() == 0 {
            return Err(ParseError(owned("No sheets found in workbook")));
        }
        let sheet = sheet_names[0].clone();
        match first_sheet {
            Ok(rows) => Ok(workbook_rows_to_content(sheet, rows)),
            Err(e) => {
                let mut msg = owned("Failed to read worksheet: ");
                msg.append(e.as_str());
                Err(ParseError(msg))
            },
        }
    }

    fn parse_csv_bytes(data: &[u8]) -> (content: Result<FileContent, ParseError>)
        ensures
            parse_meets(content, content_of(FileType::Csv, data@, true, Err(Seq::empty()))),
    {
        match csv_read(data) {
            Ok((headers, rows)) => Ok(
                FileContent::Tabular(TabularData { headers, rows, sheet_name: None }),
            ),
            Err(e) => Err(ParseError(csv_error_text(&e))),
        }
    }

    fn parse_content(
        file_type: FileType,
        data: &[u8],
        in_memory: bool,
        workbook: Result<WorkbookRead, String>,
    ) -> (content: Result<FileContent, ParseError>)
        ensures
            parse_meets(content, content_of(file_type, data@, in_memory, workbook_view(workbook))),
    {
        match file_type {
            FileType::Csv => Self::parse_csv_bytes(data),
            FileType::Xlsx | FileType::Xls => match workbook {
                Ok(w) => Self::parse_workbook(w),
                Err(reason) => if file_type == FileType::Xlsx {
                    Err(ParseError(reason))
                } else {
                    let mut msg = if in_memory {
                        owned("Failed to parse XLS: ")
                    } else {
                        owned("Failed to open XLS: ")
                    };
                    msg.append(reason.as_str());
                    Err(ParseError(msg))
                },
            },
            _ => {
                let mut bytes: Vec<u8> = Vec::new();
                bytes.extend_from_slice(data);
                proof {
                    assert(bytes@ =~= data@);
                }
                match string_from_utf8(bytes) {
                    Ok(text) => Ok(FileContent::Text(text)),
                    Err(_) => if in_memory {
                        Ok(FileContent::Text(utf8_lossy(data)))
                    } else {
                        Err(ParseError(owned("stream did not contain valid UTF-8")))
                    },
                }
            },
        }
    }

    /// Parses the bytes of a file named `filename`, choosing the format by
    /// its extension: CSV, XLSX or XLS tables, and text (decoded leniently)
    /// for anything else. A workbook (XLSX or XLS) is read by the caller and
    /// handed in as `workbook`, the reading or why it did not open; for other
    /// files it is not looked at.
    pub fn parse_from_bytes(
        data: &[u8],
        filename: &str,
        workbook: Result<WorkbookRead, String>,
    ) -> (parsed: Result<ParsedFile, ParseError>)
        ensures
            ({
                let t = file_type_for(lowercase_of(extension_or_empty(filename@)));
                match content_of(t, data@, true, workbook_view(workbook)) {
                    Ok(c) => parsed matches Ok(p) && p.file_type == t && p.content@ == c
                        && p.original_name@ == filename@,
                    Err(Some(m)) => parsed matches Err(e) && e.0@ == m,
                    Err(None) => parsed is Err,
                }
            }),
    {
        let file_type = file_type_of(filename);
        let content = Self::parse_content(file_type, data, true, workbook)?;
        Ok(ParsedFile { file_type, content, original_name: owned(filename) })
    }

    /// Parses a file at `path` whose bytes are `contents` (read by the
    /// caller): like `parse_from_bytes`, but text must be valid UTF-8, and
    /// the file's name is the last component of the path ("unknown" when it
    /// has none).
    pub fn parse_file(
        path: &str,
        contents: &[u8],
        workbook: Result<WorkbookRead, String>,
    ) -> (parsed: Result<ParsedFile, ParseError>)
        ensures
            ({
                let t = file_type_for(lowercase_of(extension_or_empty(path@)));
                match content_of(t, contents@, false, workbook_view(workbook)) {
                    Ok(c) => parsed matches Ok(p) && p.file_type == t && p.content@ == c
                        && p.original_name@ == match path_file_name_of(path@) {
                        Some(n) => n,
                        None => "unknown"@,
                    },
                    Err(Some(m)) => parsed matches Err(e) && e.0@ == m,
                    Err(None) => parsed is Err,
                }
            }),
    {
        let file_type = file_type_of(path);
        let original_name = match path_file_name(path) {
            Some(n) => n,
            None => owned("unknown"),
        };
        let content = Self::parse_content(file_type, contents, false, workbook)?;
        Ok(ParsedFile { file_type, content, original_name })
    }
}

/// The records `content_to_csv` writes: the header row, if any, then the
/// rows.
pub open spec fn csv_records(t: TableView) -> Seq<Seq<Seq<char>>> {
    match t.headers {
        Some(h) => seq![h] + t.rows,
        None => t.rows,
    }
}

/// The content as CSV text: tables through the csv writer, text as it is.
pub fn content_to_csv(content: &FileContent) -> (csv: Result<String, ParseError>)
    ensures
        match content@ {
            ContentView::Text(t) => (csv matches Ok(s) && s@ == t),
            ContentView::Tabular(t) => match csv_written_of(csv_records(t)) {
                Some(bytes) => valid_utf8(bytes) ==> (csv matches Ok(s) && s@ == decode_utf8(bytes)),
                None => csv is Err,
            },
        },
{
    match content {
        FileContent::Tabular(data) => {
            let mut records: Vec<Vec<String>> = Vec::new();
            match &data.headers {
                Some(h) => records.push(copy_strings(h)),
                None => {},
            }
            let mut i: usize = 0;
            while i < data.rows.len()
                invariant
                    i <= data.rows.len(),
                    rows_view(records@) == csv_records(TableView {
                        headers: data@.headers,
                        rows: rows_view(data.rows@.take(i as int)),
                        sheet_name: data@.sheet_name,
                    }),
                decreases data.rows.len() - i,
            {
                let ghost before = records@;
                records.push(copy_strings(&data.rows[i]));
                proof {
                    assert(rows_view(data.rows@.take(i + 1)) =~= rows_view(data.rows@.take(i as int)).push(strings_view(data.rows@[i as int]@)));
                    assert(rows_view(records@) =~= rows_view(before).push(strings_view(data.rows@[i as int]@)));
                    match data@.headers {
                        Some(h) => {
                            assert(seq![h] + rows_view(data.rows@.take(i + 1)) =~= (seq![h] + rows_view(data.rows@.take(i as int))).push(strings_view(data.rows@[i as int]@)));
                        },
                        None => {},
                    }
                }
                i = i + 1;
            }
            proof {
                assert(data.rows@.take(data.rows.len() as int) =~= data.rows@);
            }
            let bytes = match csv_write(&records) {
                Ok(b) => b,
                Err(e) => {
                    return Err(ParseError(csv_error_text(&e)));
                },
            };
            match string_from_utf8(bytes) {
                Ok(s) => Ok(s),
                Err(e) => Err(ParseError(utf8_error_text(&e))),
            }
        },
        FileContent::Text(text) => Ok(text.clone()),
    }
}

} // verus!
