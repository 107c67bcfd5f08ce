//! The scan pipeline's decision stages.
//!
//! The filesystem walk, the file reads and the embedding calls are the
//! caller's affair; these functions decide which discovered files are new,
//! what each contributes, how the text units are laid out for bulk
//! embedding, and how the results land in the catalog — all under the
//! single-scan guard.

use vstd::prelude::*;
use crate::category::{category_of, FileCategory};
use crate::chunks::{chunks_of, create_metadata_string, chunk_text, meta_string_of};
use crate::content::{extract_spec, read_file_content_with_category, RawContent};
use crate::discovery::{check_phase1_rules, phase1_spec};
use crate::MAX_SCORE_TENTHS;
use crate::paths::extension_of;
use crate::score::{calculate_file_score, score_of};
use crate::store::{spec_file_exists, ChunkRow, IndexStore, StoreError};
use crate::text::{all_space, chars_vec, is_blank, join_with, lemma_all_space_no_words, lemma_join_with_len, lemma_words_wf, words};

verus! {

/// Progress of a long-running stage, as reported to the progress sink.
pub struct ScanProgress {
    pub current: usize,
    pub total: usize,
    pub current_file: String,
    pub stage: String,
}

/// The scan settings the surrounding application persists.
pub struct ScanSettings {
    pub scan_paths: Vec<String>,
    pub ignored_folders: Vec<String>,
}

/// Why a scan request was refused.
#[derive(Clone, Copy, Debug, PartialEq, Eq, Structural)]
pub enum ScanError {
    /// Another scan holds the single-scan guard.
    AlreadyRunning,
}

impl ScanError {
    /// A short description of the refusal.
    pub fn message(&self) -> (r: &'static str)
        ensures
            r@ == "A scan is already in progress."@,
    {
        "A scan is already in progress."
    }
}

/// The single-scan guard.  At most one scan runs at a time: a second
/// request fails fast, with no side effects, until the holder finishes.
pub struct ScanFlag {
    pub scanning: bool,
}

impl ScanFlag {
    /// A released guard.
    pub fn new() -> (r: Self)
        ensures
            !r.scanning,
    {
        ScanFlag { scanning: false }
    }

    /// Try to begin a scan.  While one is already running this fails and
    /// changes nothing — in particular it touches no catalog state.
    pub fn try_begin(&mut self) -> (r: Result<(), ScanError>)
        ensures
            old(self).scanning ==> r == Result::<(), ScanError>::Err(ScanError::AlreadyRunning)
                && *final(self) == *old(self),
            !old(self).scanning ==> r == Result::<(), ScanError>::Ok(()) && final(self).scanning,
    {
        if self.scanning {
            Err(ScanError::AlreadyRunning)
        } else {
            self.scanning = true;
            Ok(())
        }
    }

    /// Release the guard.  Release must be guaranteed on every exit from
    /// a scan, successful or not.
    pub fn finish(&mut self)
        ensures
            !final(self).scanning,
    {
        self.scanning = false;
    }
}

/// What the caller could read of a file's filesystem metadata.
#[derive(Clone, Copy, Debug, PartialEq, Eq, Structural)]
pub struct FileMeta {
    pub file_size: u64,
    pub age_seconds: Option<u64>,
}

/// One discovered file, with whatever was read for it.
pub struct RawFileInput {
    pub path: String,
    pub meta: Option<FileMeta>,
    pub raw: RawContent,
}

/// One file prepared for indexing.
pub struct FileContent {
    pub path: String,
    pub content: String,
    pub category: FileCategory,
    pub content_processed: bool,
    pub score_tenths: u32,
    pub file_size: u64,
}

/// A file whose metadata could not be read scores zero.
pub open spec fn input_score(inp: RawFileInput, included: Seq<Seq<char>>) -> int {
    match inp.meta {
        Option::Some(m) => score_of(inp.path@, m.file_size, m.age_seconds, included),
        Option::None => 0,
    }
}

/// The recorded size of an input file; zero when metadata was unreadable.
pub open spec fn input_size(inp: RawFileInput) -> u64 {
    match inp.meta {
        Option::Some(m) => m.file_size,
        Option::None => 0,
    }
}

/// The indexes of the inputs whose paths the catalog does not hold yet,
/// from position `i` on.
pub open spec fn fresh_idxs(inputs: Seq<RawFileInput>, files: Seq<crate::store::FileRow>, i: int) -> Seq<int>
    decreases inputs.len() - i,
{
    if i < 0 || i >= inputs.len() {
        Seq::empty()
    } else if !spec_file_exists(files, inputs[i].path@) {
        seq![i] + fresh_idxs(inputs, files, i + 1)
    } else {
        fresh_idxs(inputs, files, i + 1)
    }
}

/// What one prepared file must hold: the input's path and score, and —
/// by mode — either metadata only, or the content the extractor yields
/// under the content-processing rules.  An extraction failure demotes the
/// file to empty content but its extension-derived category is still
/// recorded: one bad file never stops a scan and loses only its text.
pub open spec fn prepared_ok(
    fc: FileContent,
    inp: RawFileInput,
    included: Seq<Seq<char>>,
    exclude_folders: Seq<Seq<char>>,
    include_exts: Seq<Seq<char>>,
    is_phase2: bool,
    max_chars: Option<usize>,
) -> bool {
    &&& fc.path@ == inp.path@
    &&& fc.score_tenths == input_score(inp, included)
    &&& fc.file_size == input_size(inp)
    &&& if is_phase2 {
        &&& fc.content_processed == false
        &&& fc.category == category_of(extension_of(inp.path@))
        &&& fc.content@ == Seq::<char>::empty()
    } else {
        let crawl = phase1_spec(inp.path@, included, exclude_folders, include_exts).0;
        &&& fc.content_processed == crawl
        &&& match extract_spec(inp.path@, inp.raw, max_chars, crawl) {
            Result::Ok(sc) => fc.content@ == sc.0 && fc.category == sc.1,
            Result::Err(_) => fc.content@ == Seq::<char>::empty() && fc.category
                == category_of(extension_of(inp.path@)),
        }
    }
}

/// Filter the discovered files down to the new ones and prepare each:
/// score it, decide whether its content is processed, and extract what
/// it contributes.  Files whose paths the catalog already holds are
/// skipped — this is what makes re-scanning idempotent.
pub fn prepare_files_for_processing(
    store: &IndexStore,
    inputs: &Vec<RawFileInput>,
    included_paths: &Vec<String>,
    exclude_folders: &Vec<String>,
    include_exts: &Vec<String>,
    is_phase2: bool,
    max_chars: Option<usize>,
) -> (r: Vec<FileContent>)
    ensures
        r@.len() == fresh_idxs(inputs@, store.files@, 0).len(),
        forall|k: int|
            0 <= k < r@.len() ==> {
                let fi = fresh_idxs(inputs@, store.files@, 0)[k];
                &&& 0 <= fi < inputs@.len()
                &&& prepared_ok(
                    #[trigger] r@[k],
                    inputs@[fi],
                    included_paths.deep_view(),
                    exclude_folders.deep_view(),
                    include_exts.deep_view(),
                    is_phase2,
                    max_chars,
                )
            },
{
    let mut r: Vec<FileContent> = Vec::new();
    let ghost mut done: Seq<int> = Seq::empty();
    let mut i: usize = 0;
    proof {
        assert(fresh_idxs(inputs@, store.files@, 0) =~= done + fresh_idxs(inputs@, store.files@, 0));
    }
    while i < inputs.len()
        invariant
            i <= inputs@.len(),
            fresh_idxs(inputs@, store.files@, 0) =~= done + fresh_idxs(inputs@, store.files@, i as int),
            r@.len() == done.len(),
            forall|k: int|
                0 <= k < done.len() ==> 0 <= #[trigger] done[k] < inputs@.len() && prepared_ok(
                    r@[k],
                    inputs@[done[k]],
                    included_paths.deep_view(),
                    exclude_folders.deep_view(),
                    include_exts.deep_view(),
                    is_phase2,
                    max_chars,
                ),
        decreases inputs.len() - i,
    {
        let inp = &inputs[i];
        if store.file_exists(inp.path.as_str()) {
            proof {
                assert(fresh_idxs(inputs@, store.files@, i as int) =~= fresh_idxs(
                    inputs@,
                    store.files@,
                    i + 1,
                ));
            }
        } else {
            let score: u32 = match &inp.meta {
                Some(m) => calculate_file_score(
                    inp.path.as_str(),
                    m.file_size,
                    m.age_seconds,
                    included_paths,
                ),
                None => 0,
            };
            let size: u64 = match &inp.meta {
                Some(m) => m.file_size,
                None => 0,
            };
            let fc: FileContent = if is_phase2 {
                let p = chars_vec(inp.path.as_str());
                let ext = crate::paths::path_extension(&p);
                let ext_string = crate::text::string_from_chars(&ext);
                let category = FileCategory::from_extension(ext_string.as_str());
                FileContent {
                    path: inp.path.clone(),
                    content: String::new(),
                    category,
                    content_processed: false,
                    score_tenths: score,
                    file_size: size,
                }
            } else {
                let decision = check_phase1_rules(
                    inp.path.as_str(),
                    included_paths,
                    exclude_folders,
                    include_exts,
                );
                let crawl = decision.0;
                match read_file_content_with_category(inp.path.as_str(), &inp.raw, max_chars, crawl) {
                    Ok(pair) => FileContent {
                        path: inp.path.clone(),
                        content: pair.0,
                        category: pair.1,
                        content_processed: crawl,
                        score_tenths: score,
                        file_size: size,
                    },
                    Err(_) => {
                        let p = chars_vec(inp.path.as_str());
                        let ext = crate::paths::path_extension(&p);
                        let ext_string = crate::text::string_from_chars(&ext);
                        let category = FileCategory::from_extension(ext_string.as_str());
                        FileContent {
                            path: inp.path.clone(),
                            content: String::new(),
                            category,
                            content_processed: crawl,
                            score_tenths: score,
                            file_size: size,
                        }
                    },
                }
            };
            r.push(fc);
            proof {
                done = done.push(i as int);
                assert(prepared_ok(
                    r@.last(),
                    inputs@[i as int],
                    included_paths.deep_view(),
                    exclude_folders.deep_view(),
                    include_exts.deep_view(),
                    is_phase2,
                    max_chars,
                ));
                assert(fresh_idxs(inputs@, store.files@, i as int) =~= seq![i as int] + fresh_idxs(
                    inputs@,
                    store.files@,
                    i + 1,
                ));
            }
        }
        i = i + 1;
    }
    proof {
        assert(fresh_idxs(inputs@, store.files@, inputs@.len() as int) =~= Seq::<int>::empty());
        assert(done =~= fresh_idxs(inputs@, store.files@, 0));
    }
    r
}

/// A catalog that already holds every input path prepares nothing: the
/// second scan of an unchanged directory is a no-op, and no path can
/// ever gain a second row.
pub proof fn lemma_rescan_prepares_nothing(
    inputs: Seq<RawFileInput>,
    files: Seq<crate::store::FileRow>,
    i: int,
)
    requires
        forall|k: int| 0 <= k < inputs.len() ==> spec_file_exists(files, #[trigger] inputs[k].path@),
        0 <= i <= inputs.len(),
    ensures
        fresh_idxs(inputs, files, i).len() == 0,
    decreases inputs.len() - i,
{
    if i < inputs.len() {
        lemma_rescan_prepares_nothing(inputs, files, i + 1);
    }
}

/// Blank chunks dropped from a chunk list.
pub open spec fn drop_blank(chs: Seq<Seq<char>>) -> Seq<Seq<char>>
    decreases chs.len(),
{
    if chs.len() == 0 {
        Seq::empty()
    } else {
        (if all_space(chs[0]) {
            Seq::<Seq<char>>::empty()
        } else {
            seq![chs[0]]
        }) + drop_blank(chs.drop_first())
    }
}

/// The embeddable units one file yields: its metadata descriptor first
/// (when not blank — it never is), then its non-blank content chunks of
/// two hundred words.
pub open spec fn file_units(path: Seq<char>, content: Seq<char>) -> Seq<Seq<char>> {
    let meta: Seq<Seq<char>> = if !all_space(meta_string_of(path)) {
        seq![meta_string_of(path)]
    } else {
        Seq::empty()
    };
    let cs: Seq<Seq<char>> = if !all_space(content) {
        drop_blank(chunks_of(words(content), 200))
    } else {
        Seq::empty()
    };
    meta + cs
}

/// The units of all files from position `i` on, flattened in file order.
pub open spec fn units_concat(files: Seq<FileContent>, i: int) -> Seq<Seq<char>>
    decreases files.len() - i,
{
    if i < 0 || i >= files.len() {
        Seq::empty()
    } else {
        file_units(files[i].path@, files[i].content@) + units_concat(files, i + 1)
    }
}

/// Where file `i`'s units start in the flat unit list.
pub open spec fn units_offset(files: Seq<FileContent>, i: int) -> int {
    units_concat(files, 0).len() - units_concat(files, i).len()
}

/// The embeddable units of one file.
fn units_for_file(path: &str, content: &str) -> (us: Vec<String>)
    ensures
        us.deep_view() == file_units(path@, content@),
{
    let mut us: Vec<String> = Vec::new();
    let meta = create_metadata_string(path);
    let meta_chars = chars_vec(meta.as_str());
    if !is_blank(&meta_chars) {
        us.push(meta);
    }
    let ghost meta_part = us.deep_view();
    proof {
        let m: Seq<Seq<char>> = if !all_space(meta_string_of(path@)) {
            seq![meta_string_of(path@)]
        } else {
            Seq::<Seq<char>>::empty()
        };
        assert(meta_part =~~= m);
    }
    let content_chars = chars_vec(content);
    if !is_blank(&content_chars) {
        let chunks = chunk_text(content, 200);
        let ghost cv = chunks.deep_view();
        let mut k: usize = 0;
        proof {
            assert(cv.skip(0) =~= cv);
        }
        while k < chunks.len()
            invariant
                k <= chunks@.len(),
                chunks.deep_view() == cv,
                us.deep_view() + drop_blank(cv.skip(k as int)) =~~= meta_part + drop_blank(cv),
            decreases chunks.len() - k,
        {
            let ch = chars_vec(chunks[k].as_str());
            proof {
                assert(cv.skip(k as int)[0] == cv[k as int]);
                assert(cv.skip(k as int).drop_first() =~= cv.skip(k + 1));
            }
            let ghost before = us.deep_view();
            if !is_blank(&ch) {
                us.push(chunks[k].clone());
                proof {
                    assert(us.deep_view() =~~= before.push(cv[k as int]));
                }
            }
            k = k + 1;
        }
        proof {
            assert(cv.skip(cv.len() as int) =~= Seq::<Seq<char>>::empty());
            assert(us.deep_view() =~~= meta_part + drop_blank(cv));
            assert(us.deep_view() =~~= file_units(path@, content@));
        }
    } else {
        proof {
            assert(us.deep_view() =~~= file_units(path@, content@));
        }
    }
    us
}

/// A file with enough content always earns embeddable units beyond its
/// metadata descriptor: the descriptor is never blank, and a first chunk
/// of at least twenty-six words joins to more than the noise floor of
/// [`MIN_CHUNK_CHARS`] characters.  An indexed document of that length
/// therefore yields at least two units — the descriptor and a content
/// chunk.
pub proof fn lemma_content_yields_units(path: Seq<char>, content: Seq<char>)
    requires
        words(content).len() >= 26,
    ensures
        file_units(path, content).len() >= 2,
{
    reveal_strlit("filename: ");
    let meta = meta_string_of(path);
    assert(meta[0] == 'f');
    assert(!all_space(meta));

    assert(!all_space(content)) by {
        if all_space(content) {
            lemma_all_space_no_words(content);
        }
    }

    reveal_strlit(" ");
    let ws = words(content);
    lemma_words_wf(content);
    let m: int = if ws.len() < 200 {
        ws.len() as int
    } else {
        200
    };
    let g = join_with(ws.take(m), " "@);
    assert(forall|q: int| 0 <= q < m ==> (#[trigger] ws.take(m)[q]).len() >= 1);
    lemma_join_with_len(ws.take(m), " "@);
    assert(g.len() >= 2 * m - 1);
    assert(g[0] == ws[0][0]);
    assert(!all_space(g));

    let chs = chunks_of(ws, 200);
    assert(chs == seq![g] + chunks_of(ws.skip(m), 200));
    assert(chs[0] == g);
    assert(chs.drop_first() =~= chunks_of(ws.skip(m), 200));
    assert(drop_blank(chs) == seq![g] + drop_blank(chs.drop_first()));
    assert(drop_blank(chs).len() >= 1);
    assert(file_units(path, content).len() >= 2);
}

/// Lay every file's units out in one flat list for bulk embedding, with
/// a per-file map of which positions in that list belong to it: file
/// `i`'s units occupy the consecutive positions starting at its offset.
pub fn build_embedding_chunks(files: &Vec<FileContent>) -> (r: (Vec<String>, Vec<(String, Vec<usize>)>))
    ensures
        r.0.deep_view() == units_concat(files@, 0),
        r.1@.len() == files@.len(),
        forall|i: int|
            0 <= i < files@.len() ==> {
                let entry = #[trigger] r.1@[i];
                &&& entry.0@ == files@[i].path@
                &&& entry.1@.len() == file_units(files@[i].path@, files@[i].content@).len()
                &&& forall|j: int|
                    0 <= j < entry.1@.len() ==> entry.1@[j] == units_offset(files@, i) + j
            },
{
    let mut all_chunks: Vec<String> = Vec::new();
    let mut chunk_map: Vec<(String, Vec<usize>)> = Vec::new();
    let mut i: usize = 0;
    proof {
        assert(all_chunks.deep_view() + units_concat(files@, 0) =~~= units_concat(files@, 0));
    }
    while i < files.len()
        invariant
            i <= files@.len(),
            all_chunks.deep_view() + units_concat(files@, i as int) =~~= units_concat(files@, 0),
            chunk_map@.len() == i,
            forall|k: int|
                0 <= k < i ==> {
                    let entry = #[trigger] chunk_map@[k];
                    &&& entry.0@ == files@[k].path@
                    &&& entry.1@.len() == file_units(files@[k].path@, files@[k].content@).len()
                    &&& forall|j: int|
                        0 <= j < entry.1@.len() ==> entry.1@[j] == units_offset(files@, k) + j
                },
        decreases files.len() - i,
    {
        let f = &files[i];
        let us = units_for_file(f.path.as_str(), f.content.as_str());
        let ghost uv = us.deep_view();
        let base: usize = all_chunks.len();
        proof {
            assert(base == units_offset(files@, i as int));
            assert(units_concat(files@, i as int) =~= uv + units_concat(files@, i + 1));
        }
        let mut indices: Vec<usize> = Vec::new();
        let mut j: usize = 0;
        let ghost before_chunks = all_chunks.deep_view();
        while j < us.len()
            invariant
                j <= us@.len(),
                us.deep_view() == uv,
                all_chunks@.len() == base + j,
                all_chunks.deep_view() =~~= before_chunks + uv.take(j as int),
                indices@.len() == j,
                forall|q: int| 0 <= q < j ==> #[trigger] indices@[q] == base + q,
            decreases us.len() - j,
        {
            indices.push(all_chunks.len());
            let ghost pre = all_chunks.deep_view();
            let cloned = us[j].clone();
            all_chunks.push(cloned);
            proof {
                assert(all_chunks.deep_view() =~~= pre.push(uv[j as int]));
                assert(uv.take(j + 1) =~= uv.take(j as int).push(uv[j as int]));
                assert(all_chunks.deep_view() =~~= before_chunks + uv.take(j + 1));
            }
            j = j + 1;
        }
        proof {
            assert(uv.take(uv.len() as int) =~= uv);
            assert(all_chunks.deep_view() =~~= before_chunks + uv);
        }
        chunk_map.push((f.path.clone(), indices));
        i = i + 1;
    }
    proof {
        assert(units_concat(files@, files@.len() as int) =~= Seq::<Seq<char>>::empty());
        assert(all_chunks.deep_view() =~~= units_concat(files@, 0));
    }
    (all_chunks, chunk_map)
}

/// Every prepared file is new to the catalog, and no two of them share a
/// path in any letter case.  Stage one establishes exactly this, and the
/// batched writes of stage three rely on it.
pub open spec fn distinct_fresh(files: Seq<FileContent>, rows: Seq<crate::store::FileRow>) -> bool {
    &&& forall|i: int| 0 <= i < files.len() ==> !spec_file_exists(rows, #[trigger] files[i].path@)
    &&& forall|i: int, j: int|
        0 <= i < j < files.len() ==> !crate::text::eq_ignore_case(
            #[trigger] files[i].path@,
            #[trigger] files[j].path@,
        )
}

/// One saved file row, with all timestamps set to the scan time.
pub open spec fn file_row_saved(
    row: crate::store::FileRow,
    fc: FileContent,
    id: u64,
    now: Seq<char>,
) -> bool {
    &&& row.id == id
    &&& row.name@ == crate::paths::file_name_of(fc.path@)
    &&& row.extension@ == extension_of(fc.path@)
    &&& row.path@ == fc.path@
    &&& row.content@ == fc.content@
    &&& row.author is None
    &&& row.file_size == fc.file_size
    &&& row.category == fc.category
    &&& row.content_processed == fc.content_processed
    &&& row.score_tenths == fc.score_tenths
    &&& row.created_at@ == now
    &&& row.updated_at@ == now
    &&& row.last_accessed@ == now
}

/// The chunk rows one file's unit positions yield, from position `j` on:
/// each position with a non-empty embedding becomes one row.
pub open spec fn chunk_tuples_for_file(
    file_id: u64,
    idxs: Seq<usize>,
    chunks: Seq<Seq<char>>,
    embs: Seq<Seq<u8>>,
    j: int,
) -> Seq<(u64, int, Seq<char>, Seq<u8>)>
    decreases idxs.len() - j,
{
    if j < 0 || j >= idxs.len() {
        Seq::empty()
    } else if embs[idxs[j] as int].len() > 0 {
        seq![(file_id, j, chunks[idxs[j] as int], embs[idxs[j] as int])] + chunk_tuples_for_file(
            file_id,
            idxs,
            chunks,
            embs,
            j + 1,
        )
    } else {
        chunk_tuples_for_file(file_id, idxs, chunks, embs, j + 1)
    }
}

/// The chunk rows of all files from position `i` on, in file order.
pub open spec fn all_chunk_tuples(
    map: Seq<(String, Vec<usize>)>,
    chunks: Seq<Seq<char>>,
    embs: Seq<Seq<u8>>,
    first_id: u64,
    i: int,
) -> Seq<(u64, int, Seq<char>, Seq<u8>)>
    decreases map.len() - i,
{
    if i < 0 || i >= map.len() {
        Seq::empty()
    } else {
        chunk_tuples_for_file((first_id + i) as u64, map[i].1@, chunks, embs, 0) + all_chunk_tuples(
            map,
            chunks,
            embs,
            first_id,
            i + 1,
        )
    }
}

/// Do the stored chunk rows carry exactly these tuples, in order?
pub open spec fn rows_match(rows: Seq<ChunkRow>, ts: Seq<(u64, int, Seq<char>, Seq<u8>)>) -> bool {
    &&& rows.len() == ts.len()
    &&& forall|m: int|
        0 <= m < ts.len() ==> {
            let row = #[trigger] rows[m];
            &&& row.file_id == ts[m].0
            &&& row.chunk_index as int == ts[m].1
            &&& row.text@ == ts[m].2
            &&& row.vector@ == ts[m].3
        }
}

/// Store a batch: one file row per prepared file, in order, and one
/// chunk row per unit position with a non-empty embedding, tied to its
/// owning file's fresh id.  The batch succeeds whole: stage one has
/// already filtered to new, distinct paths, so no insert can be refused.
pub fn store_results(
    store: &mut IndexStore,
    files: &Vec<FileContent>,
    all_chunks: &Vec<String>,
    embeddings: &Vec<Vec<u8>>,
    chunk_map: &Vec<(String, Vec<usize>)>,
    now: &str,
) -> (r: Result<usize, StoreError>)
    requires
        old(store).inv(),
        old(store).next_file_id + files@.len() < u64::MAX,
        distinct_fresh(files@, old(store).files@),
        chunk_map@.len() == files@.len(),
        embeddings@.len() == all_chunks@.len(),
        forall|i: int| 0 <= i < chunk_map@.len() ==> (#[trigger] chunk_map@[i]).0@ == files@[i].path@,
        forall|i: int, j: int|
            0 <= i < chunk_map@.len() && 0 <= j < chunk_map@[i].1@.len()
                ==> #[trigger] chunk_map@[i].1@[j] < all_chunks@.len(),
        forall|i: int| 0 <= i < files@.len() ==> (#[trigger] files@[i]).score_tenths <= MAX_SCORE_TENTHS,
    ensures
        final(store).inv(),
        r is Ok && r->Ok_0 == files@.len(),
        final(store).files@.len() == old(store).files@.len() + files@.len(),
        final(store).files@.take(old(store).files@.len() as int) == old(store).files@,
        forall|k: int|
            0 <= k < files@.len() ==> file_row_saved(
                #[trigger] final(store).files@[old(store).files@.len() + k],
                files@[k],
                (old(store).next_file_id + k) as u64,
                now@,
            ),
        final(store).next_file_id == old(store).next_file_id + files@.len(),
        final(store).folders == old(store).folders,
        final(store).next_folder_id == old(store).next_folder_id,
        final(store).chunks@.take(old(store).chunks@.len() as int) == old(store).chunks@,
        rows_match(
            final(store).chunks@.skip(old(store).chunks@.len() as int),
            all_chunk_tuples(
                chunk_map@,
                all_chunks.deep_view(),
                embeddings.deep_view(),
                old(store).next_file_id,
                0,
            ),
        ),
{
    let ghost first_id = old(store).next_file_id;
    let ghost old_files = old(store).files@;
    let ghost old_chunks = old(store).chunks@;
    let ghost cviews = all_chunks.deep_view();
    let ghost eviews = embeddings.deep_view();
    let ghost all_tuples = all_chunk_tuples(chunk_map@, cviews, eviews, first_id, 0);
    let ghost mut done_tuples: Seq<(u64, int, Seq<char>, Seq<u8>)> = Seq::empty();
    let mut i: usize = 0;
    proof {
        assert(all_tuples =~= done_tuples + all_chunk_tuples(chunk_map@, cviews, eviews, first_id, 0));
    }
    while i < files.len()
        invariant
            store.inv(),
            i <= files@.len(),
            first_id == old(store).next_file_id,
            old_files == old(store).files@,
            old_chunks == old(store).chunks@,
            cviews == all_chunks.deep_view(),
            eviews == embeddings.deep_view(),
            all_tuples == all_chunk_tuples(chunk_map@, cviews, eviews, first_id, 0),
            first_id + files@.len() < u64::MAX,
            distinct_fresh(files@, old_files),
            chunk_map@.len() == files@.len(),
            eviews.len() == cviews.len(),
            forall|a: int| 0 <= a < chunk_map@.len() ==> (#[trigger] chunk_map@[a]).0@ == files@[a].path@,
            forall|a: int, b: int|
                0 <= a < chunk_map@.len() && 0 <= b < chunk_map@[a].1@.len()
                    ==> #[trigger] chunk_map@[a].1@[b] < cviews.len(),
            forall|a: int| 0 <= a < files@.len() ==> (#[trigger] files@[a]).score_tenths <= MAX_SCORE_TENTHS,
            store.files@.len() == old_files.len() + i,
            store.files@.take(old_files.len() as int) == old_files,
            forall|k: int|
                0 <= k < i ==> file_row_saved(
                    #[trigger] store.files@[old_files.len() + k],
                    files@[k],
                    (first_id + k) as u64,
                    now@,
                ),
            store.next_file_id == first_id + i,
            store.folders == old(store).folders,
            store.next_folder_id == old(store).next_folder_id,
            store.chunks@.len() == old_chunks.len() + done_tuples.len(),
            store.chunks@.take(old_chunks.len() as int) == old_chunks,
            rows_match(store.chunks@.skip(old_chunks.len() as int), done_tuples),
            all_tuples =~= done_tuples + all_chunk_tuples(chunk_map@, cviews, eviews, first_id, i as int),
        decreases files.len() - i,
    {
        let fc = &files[i];
        proof {
            assert(!spec_file_exists(old_files, files@[i as int].path@));
            assert forall|q: int| 0 <= q < store.files@.len() implies !crate::text::eq_ignore_case(
                #[trigger] store.files@[q].path@,
                files@[i as int].path@,
            ) by {
                if q < old_files.len() {
                    assert(store.files@.take(old_files.len() as int)[q] == store.files@[q]);
                    assert(store.files@[q] == old_files[q]);
                } else {
                    let k = q - old_files.len();
                    assert(store.files@[old_files.len() + k] == store.files@[q]);
                    assert(file_row_saved(store.files@[old_files.len() + k], files@[k], (first_id + k) as u64, now@));
                    assert(!crate::text::eq_ignore_case(files@[k].path@, files@[i as int].path@));
                }
            }
        }
        let ghost store_before = *store;
        let id = match store.insert_file(
            fc.path.as_str(),
            fc.content.as_str(),
            fc.category,
            fc.content_processed,
            fc.score_tenths,
            fc.file_size,
            now,
            now,
            now,
        ) {
            Ok(id) => id,
            Err(e) => {
                proof {
                    assert(spec_file_exists(store_before.files@, files@[i as int].path@));
                    assert(false);
                }
                return Err(e);
            },
        };
        let ghost after_insert = *store;
        proof {
            assert(id == first_id + i);
            assert(file_row_saved(store.files@.last(), files@[i as int], id, now@));
            assert(store.files@.take(old_files.len() as int) =~= old_files);
            assert(crate::store::spec_file_id_known(store.files@, id));
        }
        let idxs = &chunk_map[i].1;
        let ghost idxv = chunk_map@[i as int].1@;
        let ghost file_tuples = chunk_tuples_for_file(id, idxv, cviews, eviews, 0);
        let ghost pre_len = after_insert.chunks@.len();
        let ghost mut file_done: Seq<(u64, int, Seq<char>, Seq<u8>)> = Seq::empty();
        let mut j: usize = 0;
        proof {
            assert(idxv.skip(0) =~= idxv);
            assert(file_tuples =~= file_done + chunk_tuples_for_file(id, idxv, cviews, eviews, 0));
            assert(store.chunks@.take(pre_len as int) =~= after_insert.chunks@);
            assert(rows_match(store.chunks@.skip(pre_len as int), file_done));
        }
        while j < idxs.len()
            invariant
                store.inv(),
                j <= idxv.len(),
                idxs@ == idxv,
                cviews == all_chunks.deep_view(),
                eviews == embeddings.deep_view(),
                eviews.len() == cviews.len(),
                forall|b: int| 0 <= b < idxv.len() ==> #[trigger] idxv[b] < cviews.len(),
                crate::store::spec_file_id_known(store.files@, id),
                store.files == after_insert.files,
                store.folders == after_insert.folders,
                store.next_file_id == after_insert.next_file_id,
                store.next_folder_id == after_insert.next_folder_id,
                pre_len == after_insert.chunks@.len(),
                store.chunks@.len() == pre_len + file_done.len(),
                store.chunks@.take(pre_len as int) == after_insert.chunks@,
                rows_match(store.chunks@.skip(pre_len as int), file_done),
                file_tuples =~= file_done + chunk_tuples_for_file(id, idxv, cviews, eviews, j as int),
            decreases idxs.len() - j,
        {
            let idx: usize = idxs[j];
            let emb_clone = clone_bytes(&embeddings[idx]);
            proof {
                assert(emb_clone@ == eviews[idx as int]) by {
                    assert(embeddings@[idx as int]@ =~= eviews[idx as int]);
                }
            }
            let ghost pre_chunk = *store;
            match store.insert_chunk(id, j, all_chunks[idx].as_str(), emb_clone) {
                Ok(_) => {},
                Err(e) => {
                    proof {
                        assert(false);
                    }
                    return Err(e);
                },
            }
            proof {
                if eviews[idx as int].len() > 0 {
                    assert(store.chunks@.last().file_id == id);
                    assert(store.chunks@.last().text@ =~= cviews[idx as int]) by {
                        assert(all_chunks@[idx as int]@ =~= cviews[idx as int]);
                    }
                    file_done = file_done.push((id, j as int, cviews[idx as int], eviews[idx as int]));
                    assert(store.chunks@.take(pre_chunk.chunks@.len() as int) == pre_chunk.chunks@);
                    assert forall|x: int| 0 <= x < pre_chunk.chunks@.len() implies #[trigger] store.chunks@[x]
                        == pre_chunk.chunks@[x] by {
                        assert(store.chunks@.take(pre_chunk.chunks@.len() as int)[x] == store.chunks@[x]);
                    }
                    assert(store.chunks@.take(pre_len as int) =~= pre_chunk.chunks@.take(pre_len as int));
                    assert(rows_match(store.chunks@.skip(pre_len as int), file_done)) by {
                        assert(store.chunks@.skip(pre_len as int) =~= pre_chunk.chunks@.skip(pre_len as int).push(store.chunks@.last()));
                    }
                } else {
                    assert(*store == pre_chunk);
                }
                assert(chunk_tuples_for_file(id, idxv, cviews, eviews, j as int) =~= (if eviews[idxv[j as int] as int].len() > 0 {
                    seq![(id, j as int, cviews[idxv[j as int] as int], eviews[idxv[j as int] as int])]
                } else {
                    Seq::<(u64, int, Seq<char>, Seq<u8>)>::empty()
                }) + chunk_tuples_for_file(id, idxv, cviews, eviews, j + 1));
                assert(file_tuples =~= file_done + chunk_tuples_for_file(id, idxv, cviews, eviews, j + 1));
            }
            j = j + 1;
        }
        proof {
            assert(chunk_tuples_for_file(id, idxv, cviews, eviews, idxv.len() as int) =~= Seq::<(u64, int, Seq<char>, Seq<u8>)>::empty());
            assert(file_done =~= file_tuples);
            done_tuples = done_tuples + file_tuples;
            assert(all_chunk_tuples(chunk_map@, cviews, eviews, first_id, i as int) =~= file_tuples + all_chunk_tuples(chunk_map@, cviews, eviews, first_id, i + 1));
            assert(all_tuples =~= done_tuples + all_chunk_tuples(chunk_map@, cviews, eviews, first_id, i + 1));
            assert(after_insert.chunks@.take(old_chunks.len() as int) == old_chunks);
            assert forall|x: int| 0 <= x < pre_len implies #[trigger] store.chunks@[x]
                == after_insert.chunks@[x] by {
                assert(store.chunks@.take(pre_len as int)[x] == store.chunks@[x]);
            }
            assert(store.chunks@.take(old_chunks.len() as int) =~= old_chunks) by {
                assert forall|x: int| 0 <= x < old_chunks.len() implies #[trigger] store.chunks@[x]
                    == old_chunks[x] by {
                    assert(store.chunks@[x] == after_insert.chunks@[x]);
                    assert(after_insert.chunks@.take(old_chunks.len() as int)[x] == after_insert.chunks@[x]);
                }
            }
            assert(rows_match(store.chunks@.skip(old_chunks.len() as int), done_tuples)) by {
                let whole = store.chunks@.skip(old_chunks.len() as int);
                let old_done_len = pre_len - old_chunks.len();
                assert forall|m: int| 0 <= m < done_tuples.len() implies {
                    let row = #[trigger] whole[m];
                    &&& row.file_id == done_tuples[m].0
                    &&& row.chunk_index as int == done_tuples[m].1
                    &&& row.text@ == done_tuples[m].2
                    &&& row.vector@ == done_tuples[m].3
                } by {
                    if m < old_done_len {
                        assert(whole[m] == after_insert.chunks@[old_chunks.len() + m]);
                        assert(after_insert.chunks@.skip(old_chunks.len() as int)[m] == whole[m]);
                    } else {
                        assert(whole[m] == store.chunks@.skip(pre_len as int)[m - old_done_len]);
                    }
                }
            }
            assert forall|k: int| 0 <= k < i + 1 implies file_row_saved(
                #[trigger] store.files@[old_files.len() + k],
                files@[k],
                (first_id + k) as u64,
                now@,
            ) by {
                if k < i {
                    assert(after_insert.files@.take(store_before.files@.len() as int) == store_before.files@);
                    assert(store.files@[old_files.len() + k] == store_before.files@[old_files.len() + k]);
                }
            }
            assert(store.files@.take(old_files.len() as int) =~= old_files);
        }
        i = i + 1;
    }
    proof {
        assert(all_chunk_tuples(chunk_map@, cviews, eviews, first_id, files@.len() as int) =~= Seq::<(u64, int, Seq<char>, Seq<u8>)>::empty());
        assert(done_tuples =~= all_tuples);
    }
    Ok(files.len())
}

/// Cut `total` work items into consecutive batches: every batch is full
/// at `batch_size` items except possibly the last, they cover the items
/// in order without gap or overlap, and no batch is empty.
pub fn plan_batches(total: usize, batch_size: usize) -> (r: Vec<(usize, usize)>)
    requires
        batch_size >= 1,
    ensures
        total == 0 ==> r@.len() == 0,
        total > 0 ==> r@.len() >= 1 && (#[trigger] r@[0]).0 == 0 && r@[r@.len() - 1].1 == total,
        forall|k: int|
            0 <= k < r@.len() ==> (#[trigger] r@[k]).0 < r@[k].1 <= total && r@[k].1 - r@[k].0
                <= batch_size,
        forall|k: int| 1 <= k < r@.len() ==> (#[trigger] r@[k]).0 == r@[k - 1].1,
        forall|k: int| 0 <= k < r@.len() - 1 ==> (#[trigger] r@[k]).1 - r@[k].0 == batch_size,
{
    let mut r: Vec<(usize, usize)> = Vec::new();
    let mut start: usize = 0;
    while start < total
        invariant
            start <= total,
            batch_size >= 1,
            start == 0 ==> r@.len() == 0,
            start > 0 ==> r@.len() >= 1 && (#[trigger] r@[0]).0 == 0 && r@[r@.len() - 1].1 == start,
            forall|k: int|
                0 <= k < r@.len() ==> (#[trigger] r@[k]).0 < r@[k].1 <= total && r@[k].1 - r@[k].0
                    <= batch_size,
            forall|k: int| 1 <= k < r@.len() ==> (#[trigger] r@[k]).0 == r@[k - 1].1,
            forall|k: int| 0 <= k < r@.len() - 1 ==> (#[trigger] r@[k]).1 - r@[k].0 == batch_size,
            r@.len() > 0 ==> r@[r@.len() - 1].1 - r@[r@.len() - 1].0 == batch_size || r@[r@.len() - 1].1 == total,
        decreases total - start,
    {
        let end: usize = if total - start < batch_size {
            total
        } else {
            start + batch_size
        };
        r.push((start, end));
        start = end;
    }
    r
}

/// The progress counter the embedding workers share: it only ever moves
/// forward, one completed unit at a time, and never past the total.
pub struct EmbedProgress {
    pub done: usize,
    pub total: usize,
}

impl EmbedProgress {
    /// A fresh counter for `total` units of work.
    pub fn new(total: usize) -> (r: Self)
        ensures
            r.done == 0,
            r.total == total,
    {
        EmbedProgress { done: 0, total }
    }

    /// Record one completed unit; the count rises by exactly one.
    pub fn record_done(&mut self) -> (r: usize)
        requires
            old(self).done < old(self).total,
        ensures
            final(self).done == old(self).done + 1,
            final(self).total == old(self).total,
            r == final(self).done,
    {
        self.done = self.done + 1;
        self.done
    }
}

/// Copy a byte vector.
fn clone_bytes(v: &Vec<u8>) -> (r: Vec<u8>)
    ensures
        r@ == v@,
{
    let mut r: Vec<u8> = Vec::new();
    let mut i: usize = 0;
    while i < v.len()
        invariant
            i <= v@.len(),
            r@ =~= v@.take(i as int),
        decreases v.len() - i,
    {
        r.push(v[i]);
        proof {
            assert(v@.take(i + 1) =~= v@.take(i as int).push(v@[i as int]));
        }
        i = i + 1;
    }
    proof {
        assert(v@.take(v@.len() as int) =~= v@);
    }
    r
}

} // verus!
