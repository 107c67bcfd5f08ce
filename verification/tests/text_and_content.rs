//! Text shaping: categories, chunking, metadata strings, extraction.

use file_corpus::category::{get_language_from_extension, FileCategory};
use file_corpus::chunks::{chunk_text, create_metadata_string};
use file_corpus::content::{
    combine_pdf_pages, csv_to_string, extract_category_content, extract_code_metadata,
    read_file_content_with_category, ExtractError, RawContent,
};
use file_corpus::paths::extract_drive;

fn make_words(n: usize) -> String {
    let mut out = String::new();
    let mut i = 0usize;
    while i < n {
        if i > 0 {
            out.push(' ');
        }
        out.push_str(&format!("word{:04}", i));
        i += 1;
    }
    out
}

#[test]
fn category_from_extension_covers_every_kind() {
    assert_eq!(FileCategory::from_extension("rs"), FileCategory::Code);
    assert_eq!(FileCategory::from_extension("md"), FileCategory::Document);
    assert_eq!(FileCategory::from_extension("CSV"), FileCategory::Spreadsheet);
    assert_eq!(FileCategory::from_extension("sqlite3"), FileCategory::Database);
    assert_eq!(FileCategory::from_extension("png"), FileCategory::Media);
    assert_eq!(FileCategory::from_extension("json"), FileCategory::Config);
    assert_eq!(FileCategory::from_extension("zip"), FileCategory::Archive);
    assert_eq!(FileCategory::from_extension("exe"), FileCategory::Binary);
    assert_eq!(FileCategory::from_extension("xyz"), FileCategory::Unknown);
    assert_eq!(FileCategory::from_extension(""), FileCategory::Unknown);
}

#[test]
fn language_tags_fold_case() {
    assert_eq!(get_language_from_extension("RS"), "rust");
    assert_eq!(get_language_from_extension("tsx"), "react_typescript");
    assert_eq!(get_language_from_extension("bash"), "shell");
    assert_eq!(get_language_from_extension("weird"), "unknown");
}

#[test]
fn chunking_a_thousand_words_gives_five_chunks() {
    let text = make_words(1000);
    let chunks = chunk_text(&text, 200);
    assert_eq!(chunks.len(), 5);
    for c in &chunks {
        assert!(c.chars().count() > 50);
        assert_eq!(c.split_whitespace().count(), 200);
    }
}

#[test]
fn chunking_a_short_document_gives_nothing() {
    let chunks = chunk_text("a b c d e f g h i j", 200);
    assert_eq!(chunks.len(), 0);
}

#[test]
fn chunking_keeps_word_order_across_chunks() {
    let text = make_words(401);
    let chunks = chunk_text(&text, 200);
    // the trailing one-word group is only 8 characters and is dropped
    assert_eq!(chunks.len(), 2);
    assert!(chunks[0].starts_with("word0000"));
    assert!(chunks[0].ends_with("word0199"));
    assert!(chunks[1].starts_with("word0200"));
    assert!(chunks[1].ends_with("word0399"));
}

#[test]
fn chunking_drops_trailing_noise_chunk() {
    // 200 long words then one short word: the second chunk is 8 chars,
    // under the 50-character floor, and is dropped.
    let mut text = make_words(200);
    text.push_str(" tiny");
    let chunks = chunk_text(&text, 200);
    assert_eq!(chunks.len(), 1);
}

#[test]
fn metadata_string_lists_the_folder_chain() {
    let m = create_metadata_string("/home/user/notes.txt");
    assert_eq!(
        m,
        "filename: notes.txt stem: notes extension: txt path: /home/user/notes.txt \
         parent_folder: user folder_hierarchy: root > home > user drive: unknown"
    );
}

#[test]
fn metadata_string_reports_windows_drives() {
    let m = create_metadata_string("C:\\Users\\docs\\report.pdf");
    assert_eq!(
        m,
        "filename: report.pdf stem: report extension: pdf path: C:\\Users\\docs\\report.pdf \
         parent_folder: docs folder_hierarchy: drive_C: > root > Users > docs drive: C:"
    );
}

#[test]
fn drive_extraction() {
    assert_eq!(extract_drive("C:\\x\\y.txt"), "C:");
    assert_eq!(extract_drive("/home/y.txt"), "unknown");
}

#[test]
fn code_files_contribute_metadata_not_source() {
    let meta = extract_code_metadata("/src/main.rs", "rs");
    assert_eq!(meta, "code_file: main.rs language: rust filename: main.rs stem: main");
    let shaped = extract_category_content("fn main() {}", &FileCategory::Code, "rs", "/src/main.rs");
    assert_eq!(shaped, meta);
    let media = extract_category_content("binary noise", &FileCategory::Media, "png", "/p/a.png");
    assert_eq!(media, "");
    let doc = extract_category_content("body text", &FileCategory::Document, "md", "/p/a.md");
    assert_eq!(doc, "body text");
}

#[test]
fn csv_rows_flatten_under_their_headers() {
    let data = b"name,age\nBob,7\nAnn,9".to_vec();
    assert_eq!(csv_to_string(&data, b','), "name: Bob | age: 7\nname: Ann | age: 9");
}

#[test]
fn csv_rows_fall_back_to_column_numbers() {
    let data = b"a,b\n1,2,3".to_vec();
    assert_eq!(csv_to_string(&data, b','), "col1: 1 | col2: 2 | col3: 3");
}

#[test]
fn tsv_uses_the_tab_delimiter() {
    let data = b"k\tv\nx\ty".to_vec();
    assert_eq!(csv_to_string(&data, b'\t'), "k: x | v: y");
}

#[test]
fn pdf_pages_join_with_line_breaks() {
    let pages = vec!["Hello".to_string(), "World".to_string()];
    assert_eq!(combine_pdf_pages(&pages).unwrap(), "Hello\nWorld");
}

#[test]
fn pdf_without_pages_is_an_error() {
    let pages: Vec<String> = Vec::new();
    assert_eq!(combine_pdf_pages(&pages).unwrap_err(), ExtractError::EmptyPdf);
    assert_eq!(
        ExtractError::EmptyPdf.message(),
        "PDF appears to be empty"
    );
}

#[test]
fn pdf_with_blank_pages_is_an_error() {
    let pages = vec!["   ".to_string(), "\n\t".to_string()];
    assert_eq!(combine_pdf_pages(&pages).unwrap_err(), ExtractError::NoPdfText);
}

#[test]
fn pdf_is_capped_at_twenty_five_pages() {
    let pages: Vec<String> = (0..30).map(|i| format!("p{}", i)).collect();
    let text = combine_pdf_pages(&pages).unwrap();
    assert!(text.ends_with("p24"));
    assert!(!text.contains("p25"));
}

#[test]
fn plain_text_reads_bytes_lossily() {
    let raw = RawContent::Bytes(b"hello world".to_vec());
    let (content, cat) = read_file_content_with_category("/p/n.txt", &raw, None, true).unwrap();
    assert_eq!(content, "hello world");
    assert_eq!(cat, FileCategory::Document);

    let raw = RawContent::Bytes(vec![0x68, 0xFF, 0x69]);
    let (content, _) = read_file_content_with_category("/p/n.txt", &raw, None, true).unwrap();
    assert_eq!(content, "h\u{FFFD}i");
}

#[test]
fn oversized_plain_text_is_refused() {
    let raw = RawContent::Bytes(vec![b'a'; 10_000_001]);
    let err = read_file_content_with_category("/p/n.txt", &raw, None, true).unwrap_err();
    assert_eq!(err, ExtractError::TooLarge);
    assert_eq!(err.message(), "File too large for processing");
}

#[test]
fn unprocessed_files_keep_their_category_and_no_content() {
    let raw = RawContent::Unavailable;
    let (content, cat) = read_file_content_with_category("/p/n.md", &raw, None, false).unwrap();
    assert_eq!(content, "");
    assert_eq!(cat, FileCategory::Document);
}

#[test]
fn content_is_capped_at_max_chars() {
    let raw = RawContent::Bytes(b"abcdefghij".to_vec());
    let (content, _) = read_file_content_with_category("/p/n.txt", &raw, Some(4), true).unwrap();
    assert_eq!(content, "abcd");
}

#[test]
fn unreadable_raw_content_is_an_error() {
    let err = read_file_content_with_category("/p/n.txt", &RawContent::Unavailable, None, true)
        .unwrap_err();
    assert_eq!(err, ExtractError::Unreadable);
    assert_eq!(err.message(), "File content could not be read");
    // a PDF whose pages could not be loaded is equally unreadable
    let err = read_file_content_with_category("/p/n.pdf", &RawContent::Unavailable, None, true)
        .unwrap_err();
    assert_eq!(err, ExtractError::Unreadable);
}

#[test]
fn pdf_pages_go_through_the_document_path() {
    let raw = RawContent::PdfPages(vec!["First page".to_string(), "Second page".to_string()]);
    let (content, cat) = read_file_content_with_category("/p/doc.pdf", &raw, None, true).unwrap();
    assert_eq!(content, "First page\nSecond page");
    assert_eq!(cat, FileCategory::Document);
}

#[test]
fn csv_content_goes_through_the_spreadsheet_path() {
    let raw = RawContent::Bytes(b"h\nv".to_vec());
    let (content, cat) = read_file_content_with_category("/p/t.csv", &raw, None, true).unwrap();
    assert_eq!(content, "h: v");
    assert_eq!(cat, FileCategory::Spreadsheet);
}
