//! The SQL schema of the embedded backend, assembled as one script.

use vstd::prelude::*;
use crate::text::{chars_vec, push_all, string_from_chars};

verus! {

pub const CREATE_USERS_TABLE: &'static str = "
CREATE TABLE IF NOT EXISTS users (
    id INTEGER PRIMARY KEY AUTOINCREMENT,
    name TEXT NOT NULL,
    email TEXT NOT NULL UNIQUE,
    created_at TEXT NOT NULL,
    updated_at TEXT NOT NULL
);
";

pub const CREATE_FILES_TABLE: &'static str = "
CREATE TABLE IF NOT EXISTS files (
    id INTEGER PRIMARY KEY AUTOINCREMENT,
    name TEXT NOT NULL,
    extension TEXT NOT NULL,
    path TEXT NOT NULL UNIQUE,
    content TEXT NOT NULL,
    author TEXT,
    file_size INTEGER,
    category TEXT,
    content_processed BOOLEAN DEFAULT 1,
    score REAL DEFAULT 0,
    created_at TEXT NOT NULL,
    updated_at TEXT NOT NULL,
    last_accessed TEXT
);
";

pub const CREATE_FILE_VEC_TABLE: &'static str = "
CREATE VIRTUAL TABLE IF NOT EXISTS file_vec USING vec0(
    content_vec float[768]
);
";

pub const CREATE_FILE_VEC_MAP_TABLE: &'static str = "
CREATE TABLE IF NOT EXISTS file_vec_map (
    id INTEGER PRIMARY KEY AUTOINCREMENT,
    vec_rowid INTEGER NOT NULL,
    file_id INTEGER NOT NULL,
    FOREIGN KEY(file_id) REFERENCES files(id)
);
";

pub const CREATE_FILES_FTS_TABLE: &'static str = "
CREATE VIRTUAL TABLE IF NOT EXISTS files_fts USING fts5(
    name,
    content,
    content='files',
    content_rowid='id'
);
";

pub const CREATE_FILES_FTS_TRIGGERS: &'static str = "
CREATE TRIGGER IF NOT EXISTS files_fts_after_insert AFTER INSERT ON files BEGIN
    INSERT INTO files_fts(rowid, name, content) VALUES (new.id, new.name, new.content);
END;
CREATE TRIGGER IF NOT EXISTS files_fts_after_delete AFTER DELETE ON files BEGIN
    INSERT INTO files_fts(files_fts, rowid, name, content) VALUES ('delete', old.id, old.name, old.content);
END;
CREATE TRIGGER IF NOT EXISTS files_fts_after_update AFTER UPDATE ON files BEGIN
    INSERT INTO files_fts(files_fts, rowid, name, content) VALUES ('delete', old.id, old.name, old.content);
    INSERT INTO files_fts(rowid, name, content) VALUES (new.id, new.name, new.content);
END;
";

pub const CREATE_FOLDERS_TABLE: &'static str = "
CREATE TABLE IF NOT EXISTS folders (
    id INTEGER PRIMARY KEY AUTOINCREMENT,
    name TEXT NOT NULL,
    path TEXT NOT NULL UNIQUE,
    parent_folder_id INTEGER,
    file_count INTEGER DEFAULT 0,
    folder_size INTEGER DEFAULT 0,
    score REAL DEFAULT 0,
    created_at TEXT NOT NULL,
    updated_at TEXT NOT NULL,
    last_accessed TEXT,
    FOREIGN KEY(parent_folder_id) REFERENCES folders(id)
);
";

pub const CREATE_PATH_RULES_TABLE: &'static str = "
CREATE TABLE IF NOT EXISTS path_rules (
    id INTEGER PRIMARY KEY AUTOINCREMENT,
    path TEXT NOT NULL,
    rule_type TEXT NOT NULL,
    is_recursive BOOLEAN NOT NULL,
    created_at TEXT NOT NULL
);
";

pub const CREATE_FOLDER_RULES_TABLE: &'static str = "
CREATE TABLE IF NOT EXISTS folder_rules (
    id INTEGER PRIMARY KEY AUTOINCREMENT,
    folder_name TEXT NOT NULL,
    rule_type TEXT NOT NULL,
    is_recursive BOOLEAN NOT NULL,
    created_at TEXT NOT NULL
);
";

pub const CREATE_EXTENSION_RULES_TABLE: &'static str = "
CREATE TABLE IF NOT EXISTS extension_rules (
    id INTEGER PRIMARY KEY AUTOINCREMENT,
    extension TEXT NOT NULL,
    rule_type TEXT NOT NULL,
    created_at TEXT NOT NULL
);
";

pub const CREATE_FILENAME_RULES_TABLE: &'static str = "
CREATE TABLE IF NOT EXISTS filename_rules (
    id INTEGER PRIMARY KEY AUTOINCREMENT,
    filename TEXT NOT NULL,
    rule_type TEXT NOT NULL,
    created_at TEXT NOT NULL
);
";

pub const CREATE_SETTINGS_TABLE: &'static str = "
CREATE TABLE IF NOT EXISTS settings (
    id INTEGER PRIMARY KEY AUTOINCREMENT,
    key TEXT NOT NULL UNIQUE,
    value TEXT NOT NULL,
    created_at TEXT NOT NULL,
    updated_at TEXT NOT NULL
);
";

/// The whole schema script: every table statement in creation order, with
/// the triggers that keep the full-text index in sync with the file rows.
pub open spec fn all_sql_spec() -> Seq<char> {
    CREATE_USERS_TABLE@ + CREATE_FILES_TABLE@ + CREATE_FILE_VEC_TABLE@ + CREATE_FILE_VEC_MAP_TABLE@
        + CREATE_FILES_FTS_TABLE@ + CREATE_FILES_FTS_TRIGGERS@ + CREATE_FOLDERS_TABLE@
        + CREATE_PATH_RULES_TABLE@ + CREATE_FOLDER_RULES_TABLE@ + CREATE_EXTENSION_RULES_TABLE@
        + CREATE_FILENAME_RULES_TABLE@ + CREATE_SETTINGS_TABLE@
}

/// Assemble the schema script.
pub fn create_all_sql() -> (r: String)
    ensures
        r@ == all_sql_spec(),
{
    let mut out = chars_vec(CREATE_USERS_TABLE);
    let part = chars_vec(CREATE_FILES_TABLE);
    push_all(&mut out, &part);
    let part = chars_vec(CREATE_FILE_VEC_TABLE);
    push_all(&mut out, &part);
    let part = chars_vec(CREATE_FILE_VEC_MAP_TABLE);
    push_all(&mut out, &part);
    let part = chars_vec(CREATE_FILES_FTS_TABLE);
    push_all(&mut out, &part);
    let part = chars_vec(CREATE_FILES_FTS_TRIGGERS);
    push_all(&mut out, &part);
    let part = chars_vec(CREATE_FOLDERS_TABLE);
    push_all(&mut out, &part);
    let part = chars_vec(CREATE_PATH_RULES_TABLE);
    push_all(&mut out, &part);
    let part = chars_vec(CREATE_FOLDER_RULES_TABLE);
    push_all(&mut out, &part);
    let part = chars_vec(CREATE_EXTENSION_RULES_TABLE);
    push_all(&mut out, &part);
    let part = chars_vec(CREATE_FILENAME_RULES_TABLE);
    push_all(&mut out, &part);
    let part = chars_vec(CREATE_SETTINGS_TABLE);
    push_all(&mut out, &part);
    string_from_chars(&out)
}

} // verus!
