//! Category-aware content extraction.
//!
//! Reading files off the disk is the caller's affair: extraction here works
//! on what was read — raw bytes, or the per-page texts of a PDF — and is
//! exact about what each category contributes to the corpus.

use vstd::prelude::*;
use crate::category::{category_of, language_of, FileCategory, get_language_from_extension};
use crate::paths::{file_name_of, path_file_name, name_stem, stem_of_name};
use crate::text::{all_space, chars_eq, chars_vec, dec_chars, dec_str, is_blank, join_chars, join_with, push_all, string_from_chars};
use crate::paths::{extension_of, path_extension};

verus! {

/// Content longer than this many bytes is not read as plain text.
pub const MAX_PLAIN_TEXT_BYTES: usize = 10000000;

/// At most this many PDF pages contribute text.
pub const MAX_PDF_PAGES: usize = 25;

/// At most this many spreadsheet rows are flattened.
pub const MAX_CSV_ROWS: usize = 1000;

/// Why extraction of one file's content failed.  Such a failure never stops
/// a scan: the file keeps its category and proceeds with empty content.
#[derive(Clone, Copy, Debug, PartialEq, Eq, Structural)]
pub enum ExtractError {
    /// The file is too large to read as plain text.
    TooLarge,
    /// The PDF had no pages.
    EmptyPdf,
    /// The PDF pages carried no text.
    NoPdfText,
    /// The raw content the caller handed over does not fit the file kind.
    Unreadable,
}

impl ExtractError {
    /// A short description of the failure.
    pub fn message(&self) -> (r: &'static str)
        ensures
            (*self is TooLarge) ==> r@ == "File too large for processing"@,
            (*self is EmptyPdf) ==> r@ == "PDF appears to be empty"@,
            (*self is NoPdfText) ==> r@ == "No text content found in PDF"@,
            (*self is Unreadable) ==> r@ == "File content could not be read"@,
    {
        match self {
            ExtractError::TooLarge => "File too large for processing",
            ExtractError::EmptyPdf => "PDF appears to be empty",
            ExtractError::NoPdfText => "No text content found in PDF",
            ExtractError::Unreadable => "File content could not be read",
        }
    }
}

/// What the caller read for one file before extraction.
pub enum RawContent {
    /// The texts of a PDF's pages, in page order.
    PdfPages(Vec<String>),
    /// The raw bytes of the file.
    Bytes(Vec<u8>),
    /// Nothing could be read.
    Unavailable,
}

/// The metadata line a code file contributes in place of its source text.
pub open spec fn code_meta_of(file_path: Seq<char>, extension: Seq<char>) -> Seq<char> {
    let name = file_name_of(file_path);
    "code_file: "@ + name + " language: "@ + language_of(extension) + " filename: "@ + name
        + " stem: "@ + stem_of_name(name)
}

/// Build the metadata line for a code file: its name, language and stem.
pub fn extract_code_metadata(file_path: &str, extension: &str) -> (r: String)
    ensures
        r@ == code_meta_of(file_path@, extension@),
{
    let p = chars_vec(file_path);
    let name = path_file_name(&p);
    let stem = name_stem(&name);
    let language = get_language_from_extension(extension);
    let mut out = chars_vec("code_file: ");
    push_all(&mut out, &name);
    let part2 = chars_vec(" language: ");
    push_all(&mut out, &part2);
    let lang_chars = chars_vec(language);
    push_all(&mut out, &lang_chars);
    let part3 = chars_vec(" filename: ");
    push_all(&mut out, &part3);
    push_all(&mut out, &name);
    let part4 = chars_vec(" stem: ");
    push_all(&mut out, &part4);
    push_all(&mut out, &stem);
    string_from_chars(&out)
}

/// What each category contributes to the corpus: code files only their
/// metadata line, documents and data files their text, media nothing.
pub open spec fn category_content_of(
    content: Seq<char>,
    category: FileCategory,
    extension: Seq<char>,
    file_path: Seq<char>,
) -> Seq<char> {
    match category {
        FileCategory::Code => code_meta_of(file_path, extension),
        FileCategory::Media => Seq::empty(),
        _ => content,
    }
}

/// Shape extracted text by category.
pub fn extract_category_content(
    content: &str,
    category: &FileCategory,
    extension: &str,
    file_path: &str,
) -> (r: String)
    ensures
        r@ == category_content_of(content@, *category, extension@, file_path@),
{
    match category {
        FileCategory::Code => extract_code_metadata(file_path, extension),
        FileCategory::Media => String::new(),
        _ => {
            let c = chars_vec(content);
            string_from_chars(&c)
        },
    }
}

/// The text of a PDF: its first pages joined by line breaks.
pub open spec fn pdf_text_of(pages: Seq<Seq<char>>) -> Seq<char> {
    join_with(if pages.len() > MAX_PDF_PAGES as int {
        pages.take(MAX_PDF_PAGES as int)
    } else {
        pages
    }, "\n"@)
}

/// Join the page texts of a PDF, capped at [`MAX_PDF_PAGES`] pages.  A PDF
/// with no pages, or whose pages hold only whitespace, is an error.
pub fn combine_pdf_pages(pages: &Vec<String>) -> (r: Result<String, ExtractError>)
    ensures
        pages.deep_view().len() == 0 ==> r == Result::<String, ExtractError>::Err(ExtractError::EmptyPdf),
        pages.deep_view().len() > 0 && all_space(pdf_text_of(pages.deep_view())) ==> r
            == Result::<String, ExtractError>::Err(ExtractError::NoPdfText),
        pages.deep_view().len() > 0 && !all_space(pdf_text_of(pages.deep_view())) ==> (r is Ok
            && r->Ok_0@ == pdf_text_of(pages.deep_view())),
{
    if pages.len() == 0 {
        return Err(ExtractError::EmptyPdf);
    }
    let mut taken: Vec<Vec<char>> = Vec::new();
    let count: usize = if pages.len() > MAX_PDF_PAGES {
        MAX_PDF_PAGES
    } else {
        pages.len()
    };
    let ghost capped = if pages.deep_view().len() > MAX_PDF_PAGES as int {
        pages.deep_view().take(MAX_PDF_PAGES as int)
    } else {
        pages.deep_view()
    };
    let mut i: usize = 0;
    while i < count
        invariant
            i <= count,
            count == (if pages.deep_view().len() > MAX_PDF_PAGES as int {
                MAX_PDF_PAGES as int
            } else {
                pages.deep_view().len() as int
            }),
            capped == (if pages.deep_view().len() > MAX_PDF_PAGES as int {
                pages.deep_view().take(MAX_PDF_PAGES as int)
            } else {
                pages.deep_view()
            }),
            taken.deep_view() =~~= capped.take(i as int),
        decreases count - i,
    {
        taken.push(chars_vec(pages[i].as_str()));
        proof {
            assert(capped.take(i + 1) =~= capped.take(i as int).push(capped[i as int]));
            assert(taken.deep_view() =~~= capped.take(i + 1));
        }
        i = i + 1;
    }
    proof {
        assert(capped.take(count as int) =~= capped);
    }
    let sep = chars_vec("\n");
    let joined = join_chars(&taken, &sep);
    if is_blank(&joined) {
        return Err(ExtractError::NoPdfText);
    }
    Ok(string_from_chars(&joined))
}

/// What the csv reader finds as the header row of `data` under the given
/// delimiter; an unreadable header row reads as no fields at all.
pub uninterp spec fn csv_headers_of(data: Seq<u8>, delim: u8) -> Seq<Seq<char>>;

/// The data rows the csv reader yields for `data` under the given
/// delimiter, each a sequence of fields, up to its first unreadable row.
pub uninterp spec fn csv_records_of(data: Seq<u8>, delim: u8) -> Seq<Seq<Seq<char>>>;

/// Relies on csv's `Reader::headers`: the header row of the data, read
/// with the given delimiter in flexible mode; an error leaves no fields.
#[verifier::external_body]
fn parse_csv_headers(data: &Vec<u8>, delim: u8) -> (r: Vec<String>)
    ensures
        r.deep_view() == csv_headers_of(data@, delim),
{
    let mut rdr = csv::ReaderBuilder::new().delimiter(delim).flexible(true).from_reader(
        data.as_slice(),
    );
    match rdr.headers() {
        Ok(h) => h.iter().map(|f| f.to_string()).collect(),
        Err(_) => Vec::new(),
    }
}

/// Relies on csv's `Reader::records`: the data rows after the header row,
/// read with the given delimiter in flexible mode, stopping at the first
/// row that does not parse.
#[verifier::external_body]
fn parse_csv_records(data: &Vec<u8>, delim: u8) -> (r: Vec<Vec<String>>)
    ensures
        r.deep_view() == csv_records_of(data@, delim),
{
    let mut rdr = csv::ReaderBuilder::new().delimiter(delim).flexible(true).from_reader(
        data.as_slice(),
    );
    rdr.records().map_while(|row| row.ok()).map(
        |row| row.iter().map(|f| f.to_string()).collect(),
    ).collect()
}

/// One flattened row: `header: value` pairs joined with ` | ` when the
/// header fits the row, else `colN: value` pairs.
pub open spec fn csv_row_line(headers: Seq<Seq<char>>, row: Seq<Seq<char>>) -> Seq<char> {
    if headers.len() > 0 && headers.len() == row.len() {
        join_with(Seq::new(row.len(), |i: int| headers[i] + ": "@ + row[i]), " | "@)
    } else {
        join_with(Seq::new(row.len(), |i: int| "col"@ + dec_str(i + 1) + ": "@ + row[i]), " | "@)
    }
}

/// The flattened form of a spreadsheet: its first rows, one line each,
/// with a truncation marker when the row cap was reached.
pub open spec fn csv_flat_of(headers: Seq<Seq<char>>, records: Seq<Seq<Seq<char>>>) -> Seq<char> {
    let used = if records.len() > MAX_CSV_ROWS as int {
        records.take(MAX_CSV_ROWS as int)
    } else {
        records
    };
    let lines = used.map_values(|row: Seq<Seq<char>>| csv_row_line(headers, row));
    let all_lines = if records.len() >= MAX_CSV_ROWS as int {
        lines.push("[truncated after 1000 rows]"@)
    } else {
        lines
    };
    join_with(all_lines, "\n"@)
}

/// Flatten one parsed row into its display line.
fn flatten_row(headers: &Vec<Vec<char>>, row: &Vec<String>) -> (r: Vec<char>)
    ensures
        r@ == csv_row_line(headers.deep_view(), row.deep_view()),
{
    let named = headers.len() > 0 && headers.len() == row.len();
    let sep = chars_vec(" | ");
    let colon = chars_vec(": ");
    let mut cells: Vec<Vec<char>> = Vec::new();
    let ghost target: Seq<Seq<char>> = if named {
        Seq::new(row.deep_view().len(), |i: int| headers.deep_view()[i] + ": "@ + row.deep_view()[i])
    } else {
        Seq::new(row.deep_view().len(), |i: int| "col"@ + dec_str(i + 1) + ": "@ + row.deep_view()[i])
    };
    let mut i: usize = 0;
    while i < row.len()
        invariant
            i <= row@.len(),
            named ==> headers@.len() == row@.len(),
            target.len() == row@.len(),
            named ==> target =~= Seq::new(row.deep_view().len(), |k: int| headers.deep_view()[k] + ": "@ + row.deep_view()[k]),
            !named ==> target =~= Seq::new(row.deep_view().len(), |k: int| "col"@ + dec_str(k + 1) + ": "@ + row.deep_view()[k]),
            colon@ == ": "@,
            cells.deep_view() =~~= target.take(i as int),
        decreases row.len() - i,
    {
        let mut cell: Vec<char> = Vec::new();
        if named {
            push_all(&mut cell, &headers[i]);
        } else {
            let prefix = chars_vec("col");
            push_all(&mut cell, &prefix);
            let num = dec_chars((i as u64) + 1);
            push_all(&mut cell, &num);
        }
        push_all(&mut cell, &colon);
        let value = chars_vec(row[i].as_str());
        push_all(&mut cell, &value);
        cells.push(cell);
        proof {
            assert(target.take(i + 1) =~= target.take(i as int).push(target[i as int]));
            assert(cells.deep_view() =~~= target.take(i + 1));
        }
        i = i + 1;
    }
    proof {
        assert(target.take(target.len() as int) =~= target);
    }
    join_chars(&cells, &sep)
}

/// Flatten spreadsheet bytes: each of the first [`MAX_CSV_ROWS`] rows
/// becomes a line of `header: value` (or `colN: value`) cells, and a
/// truncation marker is appended when the cap was reached.
pub fn csv_to_string(data: &Vec<u8>, delim: u8) -> (r: String)
    ensures
        r@ == csv_flat_of(csv_headers_of(data@, delim), csv_records_of(data@, delim)),
{
    let raw_headers = parse_csv_headers(data, delim);
    let mut headers: Vec<Vec<char>> = Vec::new();
    let mut h: usize = 0;
    while h < raw_headers.len()
        invariant
            h <= raw_headers@.len(),
            headers.deep_view() =~~= raw_headers.deep_view().take(h as int),
        decreases raw_headers.len() - h,
    {
        headers.push(chars_vec(raw_headers[h].as_str()));
        proof {
            assert(raw_headers.deep_view().take(h + 1) =~= raw_headers.deep_view().take(
                h as int,
            ).push(raw_headers.deep_view()[h as int]));
            assert(headers.deep_view() =~~= raw_headers.deep_view().take(h + 1));
        }
        h = h + 1;
    }
    proof {
        assert(raw_headers.deep_view().take(raw_headers.deep_view().len() as int) =~= raw_headers.deep_view());
    }

    let records = parse_csv_records(data, delim);
    let ghost header_views = csv_headers_of(data@, delim);
    let ghost record_views = csv_records_of(data@, delim);
    let used: usize = if records.len() > MAX_CSV_ROWS {
        MAX_CSV_ROWS
    } else {
        records.len()
    };
    let ghost used_rows = if record_views.len() > MAX_CSV_ROWS as int {
        record_views.take(MAX_CSV_ROWS as int)
    } else {
        record_views
    };
    let ghost target_lines = used_rows.map_values(|row: Seq<Seq<char>>| csv_row_line(header_views, row));
    let mut lines: Vec<Vec<char>> = Vec::new();
    let mut i: usize = 0;
    while i < used
        invariant
            i <= used,
            headers.deep_view() == header_views,
            records.deep_view() == record_views,
            used == (if record_views.len() > MAX_CSV_ROWS as int {
                MAX_CSV_ROWS as int
            } else {
                record_views.len() as int
            }),
            used_rows == (if record_views.len() > MAX_CSV_ROWS as int {
                record_views.take(MAX_CSV_ROWS as int)
            } else {
                record_views
            }),
            target_lines == used_rows.map_values(
                |row: Seq<Seq<char>>| csv_row_line(header_views, row),
            ),
            lines.deep_view() =~~= target_lines.take(i as int),
        decreases used - i,
    {
        let line = flatten_row(&headers, &records[i]);
        proof {
            assert(records.deep_view()[i as int] == used_rows[i as int]);
            assert(line@ == target_lines[i as int]);
        }
        lines.push(line);
        proof {
            assert(target_lines.take(i + 1) =~= target_lines.take(i as int).push(target_lines[i as int]));
            assert(lines.deep_view() =~~= target_lines.take(i + 1));
        }
        i = i + 1;
    }
    proof {
        assert(target_lines.take(target_lines.len() as int) =~= target_lines);
    }
    if records.len() >= MAX_CSV_ROWS {
        lines.push(chars_vec("[truncated after 1000 rows]"));
        proof {
            assert(lines.deep_view() =~~= target_lines.push("[truncated after 1000 rows]"@));
        }
    }
    let sep = chars_vec("\n");
    let joined = join_chars(&lines, &sep);
    string_from_chars(&joined)
}

/// What `String::from_utf8_lossy` makes of the bytes.
pub uninterp spec fn utf8_lossy_of(bytes: Seq<u8>) -> Seq<char>;

/// Relies on std's `String::from_utf8_lossy`: the bytes decoded as UTF-8
/// with invalid sequences replaced; empty input stays empty.
#[verifier::external_body]
fn lossy_utf8(bytes: &Vec<u8>) -> (r: String)
    ensures
        r@ == utf8_lossy_of(bytes@),
        bytes@.len() == 0 ==> r@.len() == 0,
{
    String::from_utf8_lossy(bytes.as_slice()).into_owned()
}

/// Text capped at `max` characters.
pub open spec fn cap_chars(s: Seq<char>, max_chars: Option<usize>) -> Seq<char> {
    match max_chars {
        Option::Some(m) => {
            if s.len() > m {
                s.take(m as int)
            } else {
                s
            }
        },
        Option::None => s,
    }
}

/// What extraction yields for one file: the raw text by extension kind,
/// shaped by category and capped at `max_chars` characters, or the error.
/// Extension matching here is case-sensitive, as the extractor dispatches
/// on the extension exactly as the path carries it.
pub open spec fn extract_spec(
    path: Seq<char>,
    raw: RawContent,
    max_chars: Option<usize>,
    process_content: bool,
) -> Result<(Seq<char>, FileCategory), ExtractError> {
    let ext = extension_of(path);
    let category = category_of(ext);
    if !process_content {
        Result::Ok((Seq::empty(), category))
    } else {
        let raw_text: Result<Seq<char>, ExtractError> = if ext == "pdf"@ {
            match raw {
                RawContent::PdfPages(pages) => {
                    if pages.deep_view().len() == 0 {
                        Result::Err(ExtractError::EmptyPdf)
                    } else if all_space(pdf_text_of(pages.deep_view())) {
                        Result::Err(ExtractError::NoPdfText)
                    } else {
                        Result::Ok(pdf_text_of(pages.deep_view()))
                    }
                },
                _ => Result::Err(ExtractError::Unreadable),
            }
        } else if ext == "csv"@ || ext == "tsv"@ {
            match raw {
                RawContent::Bytes(b) => {
                    let delim: u8 = if ext == "tsv"@ {
                        9
                    } else {
                        44
                    };
                    Result::Ok(csv_flat_of(csv_headers_of(b@, delim), csv_records_of(b@, delim)))
                },
                _ => Result::Err(ExtractError::Unreadable),
            }
        } else {
            match raw {
                RawContent::Bytes(b) => {
                    if b@.len() > MAX_PLAIN_TEXT_BYTES as int {
                        Result::Err(ExtractError::TooLarge)
                    } else {
                        Result::Ok(utf8_lossy_of(b@))
                    }
                },
                _ => Result::Err(ExtractError::Unreadable),
            }
        };
        match raw_text {
            Result::Ok(t) => Result::Ok(
                (cap_chars(category_content_of(t, category, ext, path), max_chars), category),
            ),
            Result::Err(e) => Result::Err(e),
        }
    }
}

/// Extract one file's corpus text from what the caller read for it.
/// PDF page texts are combined and capped; spreadsheet bytes are
/// flattened row by row; anything else is read as (lossily decoded)
/// plain text unless too large.  The text is then shaped by category and
/// capped at `max_chars` characters.
pub fn read_file_content_with_category(
    path: &str,
    raw: &RawContent,
    max_chars: Option<usize>,
    process_content: bool,
) -> (r: Result<(String, FileCategory), ExtractError>)
    ensures
        ({
            let expect = extract_spec(path@, *raw, max_chars, process_content);
            match r {
                Result::Ok(p) => expect is Ok && p.0@ == expect->Ok_0.0 && p.1 == expect->Ok_0.1,
                Result::Err(e) => expect is Err && e == expect->Err_0,
            }
        }),
{
    let p = chars_vec(path);
    let ext = path_extension(&p);
    let ext_string = string_from_chars(&ext);
    let category = FileCategory::from_extension(ext_string.as_str());
    if !process_content {
        return Ok((String::new(), category));
    }

    let pdf_lit = chars_vec("pdf");
    let csv_lit = chars_vec("csv");
    let tsv_lit = chars_vec("tsv");
    let is_pdf = chars_eq(&ext, &pdf_lit);
    let is_csv = chars_eq(&ext, &csv_lit);
    let is_tsv = chars_eq(&ext, &tsv_lit);

    let text: String = if is_pdf {
        match raw {
            RawContent::PdfPages(pages) => {
                match combine_pdf_pages(pages) {
                    Ok(t) => t,
                    Err(e) => {
                        return Err(e);
                    },
                }
            },
            _ => {
                return Err(ExtractError::Unreadable);
            },
        }
    } else if is_csv || is_tsv {
        match raw {
            RawContent::Bytes(b) => {
                let delim: u8 = if is_tsv {
                    9
                } else {
                    44
                };
                csv_to_string(b, delim)
            },
            _ => {
                return Err(ExtractError::Unreadable);
            },
        }
    } else {
        match raw {
            RawContent::Bytes(b) => {
                if b.len() > MAX_PLAIN_TEXT_BYTES {
                    return Err(ExtractError::TooLarge);
                }
                lossy_utf8(b)
            },
            _ => {
                return Err(ExtractError::Unreadable);
            },
        }
    };

    let shaped = extract_category_content(text.as_str(), &category, ext_string.as_str(), path);
    let mut shaped_chars = chars_vec(shaped.as_str());
    match max_chars {
        Some(m) => {
            if shaped_chars.len() > m {
                shaped_chars.truncate(m);
                proof {
                    assert(shaped_chars@ =~= cap_chars(shaped@, max_chars));
                }
            }
        },
        None => {},
    }
    Ok((string_from_chars(&shaped_chars), category))
}

} // verus!
