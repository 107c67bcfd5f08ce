//! The catalog, the scan pipeline, and the scan guard.

use file_corpus::category::FileCategory;
use file_corpus::hashing::{calculate_content_hash, file_needs_reindex};
use file_corpus::schema;
use file_corpus::content::RawContent;
use file_corpus::pipeline::{
    build_embedding_chunks, plan_batches, prepare_files_for_processing, store_results,
    EmbedProgress, FileMeta, RawFileInput, ScanError, ScanFlag,
};
use file_corpus::store::{IndexStore, StoreError};

fn strings(xs: &[&str]) -> Vec<String> {
    xs.iter().map(|s| s.to_string()).collect()
}

fn make_words(n: usize) -> String {
    let mut out = String::new();
    let mut i = 0usize;
    while i < n {
        if i > 0 {
            out.push(' ');
        }
        out.push_str(&format!("word{:04}", i));
        i += 1;
    }
    out
}

fn insert_plain_file(store: &mut IndexStore, path: &str, score_tenths: u32) -> u64 {
    store
        .insert_file(path, "", FileCategory::Document, false, score_tenths, 100, "t", "t", "t")
        .unwrap()
}

#[test]
fn a_path_is_indexed_at_most_once() {
    let mut store = IndexStore::new();
    let id = insert_plain_file(&mut store, "/A/File.TXT", 10);
    assert_eq!(id, 1);
    let refused = store.insert_file(
        "/a/file.txt",
        "",
        FileCategory::Document,
        false,
        10,
        100,
        "t",
        "t",
        "t",
    );
    assert_eq!(refused.unwrap_err(), StoreError::PathExists);
    assert_eq!(store.file_count(), 1);
    assert!(store.file_exists("/A/FILE.txt"));
    assert!(!store.file_exists("/other.txt"));
}

#[test]
fn folder_recording_is_idempotent_and_links_parents() {
    let mut store = IndexStore::new();
    let a = store.insert_folder("/a", "t", "t", "t");
    let again = store.insert_folder("/a", "t", "t", "t");
    assert_eq!(a, again);
    assert_eq!(store.folder_count(), 1);
    let b = store.insert_folder("/a/b", "t", "t", "t");
    assert!(b != a);
    assert_eq!(store.folder_count(), 2);
    assert_eq!(store.folders[1].parent_folder_id, Some(a));
    assert_eq!(store.folders[1].name, "b");
}

#[test]
fn chunks_need_an_owning_file_and_a_vector() {
    let mut store = IndexStore::new();
    let id = insert_plain_file(&mut store, "/a.txt", 10);
    assert!(store.insert_chunk(id, 0, "text", vec![1, 2, 3, 4]).is_ok());
    assert_eq!(store.chunk_count(), 1);
    // an empty vector is skipped without error
    assert!(store.insert_chunk(id, 1, "text", Vec::new()).is_ok());
    assert_eq!(store.chunk_count(), 1);
    // an unknown file id is refused
    let refused = store.insert_chunk(99, 0, "text", vec![1, 2, 3, 4]);
    assert_eq!(refused.unwrap_err(), StoreError::NoSuchFile);
    assert!(store.verify_embeddings(id));
    assert!(!store.verify_embeddings(99));
}

#[test]
fn folder_scores_are_the_rounded_mean_of_their_files() {
    let mut store = IndexStore::new();
    insert_plain_file(&mut store, "/data/a.txt", 20);
    insert_plain_file(&mut store, "/data/b.txt", 40);
    insert_plain_file(&mut store, "/data/c.txt", 60);
    insert_plain_file(&mut store, "/elsewhere/d.txt", 90);
    store.insert_folder("/data", "t", "t", "t");
    store.insert_folder("/empty", "t", "t", "t");
    store.update_folder_scores();
    // mean of 2.0, 4.0, 6.0 is 4.0
    assert_eq!(store.folders[0].score_tenths, 40);
    // a folder without files scores zero
    assert_eq!(store.folders[1].score_tenths, 0);
}

#[test]
fn folder_score_rounding_is_half_up() {
    let mut store = IndexStore::new();
    insert_plain_file(&mut store, "/d/a.txt", 20);
    insert_plain_file(&mut store, "/d/b.txt", 21);
    store.insert_folder("/d", "t", "t", "t");
    store.update_folder_scores();
    // mean 2.05 rounds up to 2.1
    assert_eq!(store.folders[0].score_tenths, 21);
}

#[test]
fn a_second_scan_cannot_start_and_leaves_the_catalog_alone() {
    let mut store = IndexStore::new();
    insert_plain_file(&mut store, "/a.txt", 10);
    store.insert_folder("/x", "t", "t", "t");
    let files_before = store.file_count();
    let folders_before = store.folder_count();
    let chunks_before = store.chunk_count();

    let mut flag = ScanFlag::new();
    assert!(flag.try_begin().is_ok());
    let second = flag.try_begin();
    assert_eq!(second.unwrap_err(), ScanError::AlreadyRunning);
    assert_eq!(ScanError::AlreadyRunning.message(), "A scan is already in progress.");

    assert_eq!(store.file_count(), files_before);
    assert_eq!(store.folder_count(), folders_before);
    assert_eq!(store.chunk_count(), chunks_before);

    flag.finish();
    assert!(flag.try_begin().is_ok());
}

#[test]
fn preparing_skips_paths_already_indexed() {
    let mut store = IndexStore::new();
    insert_plain_file(&mut store, "/docs/old.md", 10);
    let inputs = vec![
        RawFileInput {
            path: "/docs/old.md".to_string(),
            meta: Some(FileMeta { file_size: 5, age_seconds: Some(0) }),
            raw: RawContent::Bytes(b"same again".to_vec()),
        },
        RawFileInput {
            path: "/docs/new.md".to_string(),
            meta: Some(FileMeta { file_size: 5, age_seconds: Some(0) }),
            raw: RawContent::Bytes(b"fresh text".to_vec()),
        },
    ];
    let included = strings(&["/docs"]);
    let none = strings(&[]);
    let exts = strings(&["md"]);
    let prepared =
        prepare_files_for_processing(&store, &inputs, &included, &none, &exts, false, None);
    assert_eq!(prepared.len(), 1);
    assert_eq!(prepared[0].path, "/docs/new.md");
    assert_eq!(prepared[0].content, "fresh text");
    assert!(prepared[0].content_processed);
}

#[test]
fn indexing_a_directory_end_to_end() {
    // one markdown file of 300 words and one image, with only `md` included
    let mut store = IndexStore::new();
    let body = make_words(300);
    let included = strings(&["/docs"]);
    let none = strings(&[]);
    let exts = strings(&["md"]);

    // discovery: the image never reaches the pipeline
    assert!(file_corpus::discovery::should_exclude_path(
        "/docs/pic.png",
        &none,
        &none,
        Some(&exts),
    ));
    assert!(!file_corpus::discovery::should_exclude_path(
        "/docs/notes.md",
        &none,
        &none,
        Some(&exts),
    ));

    let inputs = vec![RawFileInput {
        path: "/docs/notes.md".to_string(),
        meta: Some(FileMeta { file_size: 2000, age_seconds: Some(0) }),
        raw: RawContent::Bytes(body.clone().into_bytes()),
    }];
    let prepared =
        prepare_files_for_processing(&store, &inputs, &included, &none, &exts, false, None);
    assert_eq!(prepared.len(), 1);
    assert_eq!(prepared[0].category, FileCategory::Document);

    let (all_chunks, chunk_map) = build_embedding_chunks(&prepared);
    // the metadata descriptor plus two content chunks (200 + 100 words)
    assert!(all_chunks.len() >= 2);
    assert_eq!(all_chunks.len(), 3);
    assert!(all_chunks[0].starts_with("filename: notes.md"));
    assert_eq!(chunk_map.len(), 1);
    assert_eq!(chunk_map[0].0, "/docs/notes.md");
    assert_eq!(chunk_map[0].1, vec![0, 1, 2]);

    let embeddings: Vec<Vec<u8>> = all_chunks.iter().map(|_| vec![0u8; 8]).collect();
    let stored = store_results(&mut store, &prepared, &all_chunks, &embeddings, &chunk_map, "now");
    assert_eq!(stored.unwrap(), 1);
    assert_eq!(store.file_count(), 1);
    assert_eq!(store.chunk_count(), 3);
    assert!(store.file_exists("/docs/notes.md"));
    assert!(store.verify_embeddings(store.files[0].id));

    // scanning the same directory again indexes nothing new
    let prepared_again =
        prepare_files_for_processing(&store, &inputs, &included, &none, &exts, false, None);
    assert_eq!(prepared_again.len(), 0);
    assert_eq!(store.file_count(), 1);
}

#[test]
fn an_extraction_failure_keeps_the_category_and_drops_the_text() {
    // the file's raw content could not be read, yet the scan goes on and
    // the extension-derived category is still recorded
    let store = IndexStore::new();
    let inputs = vec![RawFileInput {
        path: "/docs/broken.md".to_string(),
        meta: Some(FileMeta { file_size: 5, age_seconds: Some(0) }),
        raw: RawContent::Unavailable,
    }];
    let included = strings(&["/docs"]);
    let none = strings(&[]);
    let exts = strings(&["md"]);
    let prepared =
        prepare_files_for_processing(&store, &inputs, &included, &none, &exts, false, None);
    assert_eq!(prepared.len(), 1);
    assert_eq!(prepared[0].content, "");
    assert_eq!(prepared[0].category, FileCategory::Document);
    assert!(prepared[0].content_processed);
}

#[test]
fn metadata_only_passes_read_no_content() {
    let store = IndexStore::new();
    let inputs = vec![RawFileInput {
        path: "/any/file.rs".to_string(),
        meta: None,
        raw: RawContent::Unavailable,
    }];
    let none = strings(&[]);
    let prepared = prepare_files_for_processing(&store, &inputs, &none, &none, &none, true, None);
    assert_eq!(prepared.len(), 1);
    assert_eq!(prepared[0].content, "");
    assert_eq!(prepared[0].category, FileCategory::Code);
    assert!(!prepared[0].content_processed);
    assert_eq!(prepared[0].score_tenths, 0);
}

#[test]
fn batches_cover_the_work_in_order() {
    assert_eq!(plan_batches(25, 10), vec![(0, 10), (10, 20), (20, 25)]);
    assert_eq!(plan_batches(20, 10), vec![(0, 10), (10, 20)]);
    assert_eq!(plan_batches(3, 10), vec![(0, 3)]);
    assert_eq!(plan_batches(0, 10), Vec::<(usize, usize)>::new());
}

#[test]
fn the_progress_counter_climbs_one_at_a_time() {
    let mut p = EmbedProgress::new(3);
    assert_eq!(p.record_done(), 1);
    assert_eq!(p.record_done(), 2);
    assert_eq!(p.record_done(), 3);
    assert_eq!(p.done, p.total);
}

#[test]
fn content_hashes_pin_reindexing() {
    let hash = calculate_content_hash("abc");
    assert_eq!(hash, "ba7816bf8f01cfea414140de5dae2223b00361a396177a9cb410ff61f20015ad");
    assert!(!file_needs_reindex(true, Some(&hash), "abc"));
    assert!(file_needs_reindex(true, Some(&hash), "abd"));
    assert!(file_needs_reindex(false, Some(&hash), "abc"));
    assert!(file_needs_reindex(true, None, "abc"));
    // a wrapper that handed its input back unchanged would fail here
    assert!(file_needs_reindex(true, Some(&"abc".to_string()), "abc"));
}

#[test]
fn the_schema_script_concatenates_every_table() {
    let sql = schema::create_all_sql();
    let expected = format!(
        "{}{}{}{}{}{}{}{}{}{}{}{}",
        schema::CREATE_USERS_TABLE,
        schema::CREATE_FILES_TABLE,
        schema::CREATE_FILE_VEC_TABLE,
        schema::CREATE_FILE_VEC_MAP_TABLE,
        schema::CREATE_FILES_FTS_TABLE,
        schema::CREATE_FILES_FTS_TRIGGERS,
        schema::CREATE_FOLDERS_TABLE,
        schema::CREATE_PATH_RULES_TABLE,
        schema::CREATE_FOLDER_RULES_TABLE,
        schema::CREATE_EXTENSION_RULES_TABLE,
        schema::CREATE_FILENAME_RULES_TABLE,
        schema::CREATE_SETTINGS_TABLE
    );
    assert_eq!(sql, expected);
    assert!(sql.contains("CREATE TABLE IF NOT EXISTS files"));
    assert!(sql.contains("USING vec0"));
    assert!(sql.contains("USING fts5"));
    // the full-text index stays in sync with the file rows
    assert!(sql.contains("files_fts_after_insert"));
    assert!(sql.contains("files_fts_after_delete"));
    assert!(sql.contains("files_fts_after_update"));
}
