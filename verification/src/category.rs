//! File categories, derived from the file extension.

use vstd::prelude::*;
use crate::text::{chars_vec, chars_eq, lower_chars, to_lower};

verus! {

/// The closed set of categories a file can fall in.
#[derive(Clone, Copy, Debug, PartialEq, Eq, Structural)]
pub enum FileCategory {
    Code,
    Document,
    Spreadsheet,
    Database,
    Media,
    Config,
    Binary,
    Archive,
    Unknown,
}

/// Lowercased extensions of source-code files.
pub open spec fn is_code_ext(e: Seq<char>) -> bool {
    ||| e == "rs"@ ||| e == "js"@ ||| e == "ts"@ ||| e == "jsx"@ ||| e == "tsx"@
    ||| e == "py"@ ||| e == "java"@ ||| e == "c"@ ||| e == "cpp"@ ||| e == "h"@
    ||| e == "hpp"@ ||| e == "cs"@ ||| e == "php"@ ||| e == "rb"@ ||| e == "go"@
    ||| e == "swift"@ ||| e == "kt"@ ||| e == "scala"@ ||| e == "clj"@ ||| e == "hs"@
    ||| e == "ml"@ ||| e == "fs"@ ||| e == "elm"@ ||| e == "dart"@ ||| e == "r"@
    ||| e == "m"@ ||| e == "mm"@ ||| e == "pl"@ ||| e == "sh"@ ||| e == "bash"@
    ||| e == "zsh"@ ||| e == "fish"@
}

/// Lowercased extensions of document files.
pub open spec fn is_document_ext(e: Seq<char>) -> bool {
    ||| e == "md"@ ||| e == "txt"@ ||| e == "pdf"@ ||| e == "doc"@ ||| e == "docx"@
    ||| e == "rtf"@ ||| e == "odt"@ ||| e == "tex"@ ||| e == "rst"@ ||| e == "adoc"@
}

/// Lowercased extensions of spreadsheet files.
pub open spec fn is_spreadsheet_ext(e: Seq<char>) -> bool {
    ||| e == "csv"@ ||| e == "tsv"@ ||| e == "xls"@ ||| e == "xlsx"@ ||| e == "ods"@
}

/// Lowercased extensions of database files.
pub open spec fn is_database_ext(e: Seq<char>) -> bool {
    ||| e == "db"@ ||| e == "sqlite"@ ||| e == "sqlite3"@ ||| e == "sql"@
    ||| e == "mdb"@ ||| e == "accdb"@
}

/// Lowercased extensions of image, audio and video files.
pub open spec fn is_media_ext(e: Seq<char>) -> bool {
    ||| e == "jpg"@ ||| e == "jpeg"@ ||| e == "png"@ ||| e == "gif"@ ||| e == "bmp"@
    ||| e == "svg"@ ||| e == "webp"@ ||| e == "ico"@ ||| e == "tiff"@ ||| e == "tif"@
    ||| e == "mp3"@ ||| e == "wav"@ ||| e == "flac"@ ||| e == "aac"@ ||| e == "ogg"@
    ||| e == "wma"@ ||| e == "m4a"@ ||| e == "mp4"@ ||| e == "avi"@ ||| e == "mkv"@
    ||| e == "mov"@ ||| e == "wmv"@ ||| e == "flv"@ ||| e == "webm"@ ||| e == "m4v"@
}

/// Lowercased extensions of configuration files.
pub open spec fn is_config_ext(e: Seq<char>) -> bool {
    ||| e == "json"@ ||| e == "yaml"@ ||| e == "yml"@ ||| e == "toml"@ ||| e == "ini"@
    ||| e == "cfg"@ ||| e == "conf"@ ||| e == "config"@ ||| e == "xml"@ ||| e == "plist"@
    ||| e == "properties"@ ||| e == "env"@
}

/// Lowercased extensions of archive files.
pub open spec fn is_archive_ext(e: Seq<char>) -> bool {
    ||| e == "zip"@ ||| e == "rar"@ ||| e == "7z"@ ||| e == "tar"@ ||| e == "gz"@
    ||| e == "bz2"@ ||| e == "xz"@ ||| e == "dmg"@ ||| e == "iso"@
}

/// Lowercased extensions of binary program files.
pub open spec fn is_binary_ext(e: Seq<char>) -> bool {
    ||| e == "exe"@ ||| e == "dll"@ ||| e == "so"@ ||| e == "dylib"@ ||| e == "bin"@
    ||| e == "app"@ ||| e == "deb"@ ||| e == "rpm"@ ||| e == "msi"@
}

/// The category an extension maps to, after case folding.
pub open spec fn category_of(ext: Seq<char>) -> FileCategory {
    let e = to_lower(ext);
    if is_code_ext(e) {
        FileCategory::Code
    } else if is_document_ext(e) {
        FileCategory::Document
    } else if is_spreadsheet_ext(e) {
        FileCategory::Spreadsheet
    } else if is_database_ext(e) {
        FileCategory::Database
    } else if is_media_ext(e) {
        FileCategory::Media
    } else if is_config_ext(e) {
        FileCategory::Config
    } else if is_archive_ext(e) {
        FileCategory::Archive
    } else if is_binary_ext(e) {
        FileCategory::Binary
    } else {
        FileCategory::Unknown
    }
}

/// Does the already-lowercased extension equal the literal?
fn ext_is(lower: &Vec<char>, lit: &str) -> (r: bool)
    ensures
        r == (lower@ == lit@),
{
    let l = chars_vec(lit);
    chars_eq(lower, &l)
}

impl FileCategory {
    /// Map a file extension to its category, case-insensitively.
    pub fn from_extension(ext: &str) -> (r: Self)
        ensures
            r == category_of(ext@),
    {
        let raw = chars_vec(ext);
        let e = lower_chars(&raw);
        if ext_is(&e, "rs") || ext_is(&e, "js") || ext_is(&e, "ts") || ext_is(&e, "jsx")
            || ext_is(&e, "tsx") || ext_is(&e, "py") || ext_is(&e, "java") || ext_is(&e, "c")
            || ext_is(&e, "cpp") || ext_is(&e, "h") || ext_is(&e, "hpp") || ext_is(&e, "cs")
            || ext_is(&e, "php") || ext_is(&e, "rb") || ext_is(&e, "go") || ext_is(&e, "swift")
            || ext_is(&e, "kt") || ext_is(&e, "scala") || ext_is(&e, "clj") || ext_is(&e, "hs")
            || ext_is(&e, "ml") || ext_is(&e, "fs") || ext_is(&e, "elm") || ext_is(&e, "dart")
            || ext_is(&e, "r") || ext_is(&e, "m") || ext_is(&e, "mm") || ext_is(&e, "pl")
            || ext_is(&e, "sh") || ext_is(&e, "bash") || ext_is(&e, "zsh") || ext_is(&e, "fish")
        {
            FileCategory::Code
        } else if ext_is(&e, "md") || ext_is(&e, "txt") || ext_is(&e, "pdf") || ext_is(&e, "doc")
            || ext_is(&e, "docx") || ext_is(&e, "rtf") || ext_is(&e, "odt") || ext_is(&e, "tex")
            || ext_is(&e, "rst") || ext_is(&e, "adoc")
        {
            FileCategory::Document
        } else if ext_is(&e, "csv") || ext_is(&e, "tsv") || ext_is(&e, "xls")
            || ext_is(&e, "xlsx") || ext_is(&e, "ods")
        {
            FileCategory::Spreadsheet
        } else if ext_is(&e, "db") || ext_is(&e, "sqlite") || ext_is(&e, "sqlite3")
            || ext_is(&e, "sql") || ext_is(&e, "mdb") || ext_is(&e, "accdb")
        {
            FileCategory::Database
        } else if ext_is(&e, "jpg") || ext_is(&e, "jpeg") || ext_is(&e, "png")
            || ext_is(&e, "gif") || ext_is(&e, "bmp") || ext_is(&e, "svg") || ext_is(&e, "webp")
            || ext_is(&e, "ico") || ext_is(&e, "tiff") || ext_is(&e, "tif") || ext_is(&e, "mp3")
            || ext_is(&e, "wav") || ext_is(&e, "flac") || ext_is(&e, "aac") || ext_is(&e, "ogg")
            || ext_is(&e, "wma") || ext_is(&e, "m4a") || ext_is(&e, "mp4") || ext_is(&e, "avi")
            || ext_is(&e, "mkv") || ext_is(&e, "mov") || ext_is(&e, "wmv") || ext_is(&e, "flv")
            || ext_is(&e, "webm") || ext_is(&e, "m4v")
        {
            FileCategory::Media
        } else if ext_is(&e, "json") || ext_is(&e, "yaml") || ext_is(&e, "yml")
            || ext_is(&e, "toml") || ext_is(&e, "ini") || ext_is(&e, "cfg") || ext_is(&e, "conf")
            || ext_is(&e, "config") || ext_is(&e, "xml") || ext_is(&e, "plist")
            || ext_is(&e, "properties") || ext_is(&e, "env")
        {
            FileCategory::Config
        } else if ext_is(&e, "zip") || ext_is(&e, "rar") || ext_is(&e, "7z") || ext_is(&e, "tar")
            || ext_is(&e, "gz") || ext_is(&e, "bz2") || ext_is(&e, "xz") || ext_is(&e, "dmg")
            || ext_is(&e, "iso")
        {
            FileCategory::Archive
        } else if ext_is(&e, "exe") || ext_is(&e, "dll") || ext_is(&e, "so")
            || ext_is(&e, "dylib") || ext_is(&e, "bin") || ext_is(&e, "app") || ext_is(&e, "deb")
            || ext_is(&e, "rpm") || ext_is(&e, "msi")
        {
            FileCategory::Binary
        } else {
            FileCategory::Unknown
        }
    }
}

/// The language tag of a source-code extension, after case folding.
pub open spec fn language_of(ext: Seq<char>) -> Seq<char> {
    let e = to_lower(ext);
    if e == "rs"@ {
        "rust"@
    } else if e == "js"@ {
        "javascript"@
    } else if e == "ts"@ {
        "typescript"@
    } else if e == "jsx"@ {
        "react_javascript"@
    } else if e == "tsx"@ {
        "react_typescript"@
    } else if e == "py"@ {
        "python"@
    } else if e == "java"@ {
        "java"@
    } else if e == "c"@ {
        "c"@
    } else if e == "cpp"@ || e == "cc"@ || e == "cxx"@ {
        "cpp"@
    } else if e == "h"@ || e == "hpp"@ {
        "c_header"@
    } else if e == "cs"@ {
        "csharp"@
    } else if e == "php"@ {
        "php"@
    } else if e == "rb"@ {
        "ruby"@
    } else if e == "go"@ {
        "go"@
    } else if e == "swift"@ {
        "swift"@
    } else if e == "kt"@ {
        "kotlin"@
    } else if e == "scala"@ {
        "scala"@
    } else if e == "clj"@ {
        "clojure"@
    } else if e == "hs"@ {
        "haskell"@
    } else if e == "ml"@ {
        "ocaml"@
    } else if e == "fs"@ {
        "fsharp"@
    } else if e == "elm"@ {
        "elm"@
    } else if e == "dart"@ {
        "dart"@
    } else if e == "r"@ {
        "r"@
    } else if e == "m"@ || e == "mm"@ {
        "objective_c"@
    } else if e == "pl"@ {
        "perl"@
    } else if e == "sh"@ || e == "bash"@ || e == "zsh"@ || e == "fish"@ {
        "shell"@
    } else {
        "unknown"@
    }
}

/// The language tag used in code-file metadata, case-insensitively.
pub fn get_language_from_extension(ext: &str) -> (r: &'static str)
    ensures
        r@ == language_of(ext@),
{
    let raw = chars_vec(ext);
    let e = lower_chars(&raw);
    if ext_is(&e, "rs") {
        "rust"
    } else if ext_is(&e, "js") {
        "javascript"
    } else if ext_is(&e, "ts") {
        "typescript"
    } else if ext_is(&e, "jsx") {
        "react_javascript"
    } else if ext_is(&e, "tsx") {
        "react_typescript"
    } else if ext_is(&e, "py") {
        "python"
    } else if ext_is(&e, "java") {
        "java"
    } else if ext_is(&e, "c") {
        "c"
    } else if ext_is(&e, "cpp") || ext_is(&e, "cc") || ext_is(&e, "cxx") {
        "cpp"
    } else if ext_is(&e, "h") || ext_is(&e, "hpp") {
        "c_header"
    } else if ext_is(&e, "cs") {
        "csharp"
    } else if ext_is(&e, "php") {
        "php"
    } else if ext_is(&e, "rb") {
        "ruby"
    } else if ext_is(&e, "go") {
        "go"
    } else if ext_is(&e, "swift") {
        "swift"
    } else if ext_is(&e, "kt") {
        "kotlin"
    } else if ext_is(&e, "scala") {
        "scala"
    } else if ext_is(&e, "clj") {
        "clojure"
    } else if ext_is(&e, "hs") {
        "haskell"
    } else if ext_is(&e, "ml") {
        "ocaml"
    } else if ext_is(&e, "fs") {
        "fsharp"
    } else if ext_is(&e, "elm") {
        "elm"
    } else if ext_is(&e, "dart") {
        "dart"
    } else if ext_is(&e, "r") {
        "r"
    } else if ext_is(&e, "m") || ext_is(&e, "mm") {
        "objective_c"
    } else if ext_is(&e, "pl") {
        "perl"
    } else if ext_is(&e, "sh") || ext_is(&e, "bash") || ext_is(&e, "zsh") || ext_is(&e, "fish") {
        "shell"
    } else {
        "unknown"
    }
}

} // verus!
