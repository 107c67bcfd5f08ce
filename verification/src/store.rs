//! The metadata and vector catalog.
//!
//! This is the logical contract of the persistence layer: one row per file
//! path (case-insensitively), one row per folder path, and chunk-embedding
//! rows that always belong to an existing file row.  A database mirrors
//! these operations; what is proved here is the bookkeeping every backend
//! must keep — the existence check before insert, idempotent folder
//! recording, and the folder-score recomputation.

use vstd::prelude::*;
use crate::category::FileCategory;
use crate::MAX_SCORE_TENTHS;
use crate::paths::{extension_of, file_name_of, path_extension, path_file_name};
use crate::text::{chars_eq, chars_eq_ignore_case, chars_starts_with, chars_vec, eq_ignore_case, is_prefix, string_from_chars};
use vstd::string::StringExecFns;

verus! {

/// One stored file.
pub struct FileRow {
    pub id: u64,
    pub name: String,
    pub extension: String,
    pub path: String,
    pub content: String,
    pub author: Option<String>,
    pub file_size: u64,
    pub category: FileCategory,
    pub content_processed: bool,
    pub score_tenths: u32,
    pub created_at: String,
    pub updated_at: String,
    pub last_accessed: String,
}

/// One stored folder.
pub struct FolderRow {
    pub id: u64,
    pub name: String,
    pub path: String,
    pub parent_folder_id: Option<u64>,
    pub file_count: u64,
    pub folder_size: u64,
    pub score_tenths: u32,
    pub created_at: String,
    pub updated_at: String,
    pub last_accessed: String,
}

/// One chunk embedding, tied to its owning file row.
pub struct ChunkRow {
    pub file_id: u64,
    pub chunk_index: usize,
    pub text: String,
    pub vector: Vec<u8>,
}

/// Why a catalog write was refused.
#[derive(Clone, Copy, Debug, PartialEq, Eq, Structural)]
pub enum StoreError {
    /// A file row with this path (case-insensitively) already exists.
    PathExists,
    /// No file row carries the given id.
    NoSuchFile,
}

impl StoreError {
    /// A short description of the refusal.
    pub fn message(&self) -> (r: &'static str)
        ensures
            (*self is PathExists) ==> r@ == "a file with this path is already indexed"@,
            (*self is NoSuchFile) ==> r@ == "no file row carries this id"@,
    {
        match self {
            StoreError::PathExists => "a file with this path is already indexed",
            StoreError::NoSuchFile => "no file row carries this id",
        }
    }
}

/// The in-memory catalog of files, folders and chunk embeddings.
pub struct IndexStore {
    pub files: Vec<FileRow>,
    pub folders: Vec<FolderRow>,
    pub chunks: Vec<ChunkRow>,
    pub next_file_id: u64,
    pub next_folder_id: u64,
}

/// Some file row already claims this path, case-insensitively.
pub open spec fn spec_file_exists(files: Seq<FileRow>, path: Seq<char>) -> bool {
    exists|i: int| 0 <= i < files.len() && eq_ignore_case(#[trigger] files[i].path@, path)
}

/// Some folder row already claims this exact path.
pub open spec fn spec_folder_exists(folders: Seq<FolderRow>, path: Seq<char>) -> bool {
    exists|i: int| 0 <= i < folders.len() && #[trigger] folders[i].path@ == path
}

/// The id of the folder row at this exact path, if one exists.
pub open spec fn spec_folder_id_at(folders: Seq<FolderRow>, path: Seq<char>) -> Option<u64> {
    if spec_folder_exists(folders, path) {
        let i = choose|i: int| 0 <= i < folders.len() && #[trigger] folders[i].path@ == path;
        Option::Some(folders[i].id)
    } else {
        Option::None
    }
}

/// Some file row carries this id.
pub open spec fn spec_file_id_known(files: Seq<FileRow>, id: u64) -> bool {
    exists|i: int| 0 <= i < files.len() && #[trigger] files[i].id == id
}

impl IndexStore {
    /// The catalog's invariant: paths are unique (case-insensitively for
    /// files, exactly for folders), ids are unique and below the next id
    /// to hand out, scores are legal, and every chunk row belongs to an
    /// existing file row.
    pub open spec fn inv(self) -> bool {
        &&& forall|i: int, j: int|
            0 <= i < j < self.files@.len() ==> !eq_ignore_case(
                #[trigger] self.files@[i].path@,
                #[trigger] self.files@[j].path@,
            )
        &&& forall|i: int| 0 <= i < self.files@.len() ==> #[trigger] self.files@[i].id < self.next_file_id
        &&& forall|i: int, j: int|
            0 <= i < j < self.files@.len() ==> #[trigger] self.files@[i].id != #[trigger] self.files@[j].id
        &&& forall|i: int, j: int|
            0 <= i < j < self.folders@.len() ==> #[trigger] self.folders@[i].path@ != #[trigger] self.folders@[j].path@
        &&& forall|i: int| 0 <= i < self.folders@.len() ==> #[trigger] self.folders@[i].id < self.next_folder_id
        &&& forall|i: int, j: int|
            0 <= i < j < self.folders@.len() ==> #[trigger] self.folders@[i].id != #[trigger] self.folders@[j].id
        &&& forall|i: int| 0 <= i < self.files@.len() ==> #[trigger] self.files@[i].score_tenths <= MAX_SCORE_TENTHS
        &&& forall|i: int| 0 <= i < self.folders@.len() ==> #[trigger] self.folders@[i].score_tenths <= MAX_SCORE_TENTHS
        &&& forall|c: int|
            0 <= c < self.chunks@.len() ==> spec_file_id_known(
                self.files@,
                #[trigger] self.chunks@[c].file_id,
            )
    }

    /// A fresh, empty catalog.
    pub fn new() -> (r: Self)
        ensures
            r.inv(),
            r.files@.len() == 0,
            r.folders@.len() == 0,
            r.chunks@.len() == 0,
    {
        IndexStore {
            files: Vec::new(),
            folders: Vec::new(),
            chunks: Vec::new(),
            next_file_id: 1,
            next_folder_id: 1,
        }
    }

    /// How many file rows the catalog holds.
    pub fn file_count(&self) -> (r: usize)
        ensures
            r == self.files@.len(),
    {
        self.files.len()
    }

    /// How many folder rows the catalog holds.
    pub fn folder_count(&self) -> (r: usize)
        ensures
            r == self.folders@.len(),
    {
        self.folders.len()
    }

    /// How many chunk-embedding rows the catalog holds.
    pub fn chunk_count(&self) -> (r: usize)
        ensures
            r == self.chunks@.len(),
    {
        self.chunks.len()
    }

    /// Is a file with this path already indexed, case-insensitively?
    pub fn file_exists(&self, path: &str) -> (r: bool)
        ensures
            r == spec_file_exists(self.files@, path@),
    {
        let p = chars_vec(path);
        let mut i: usize = 0;
        while i < self.files.len()
            invariant
                i <= self.files@.len(),
                p@ == path@,
                forall|j: int| 0 <= j < i ==> !eq_ignore_case(#[trigger] self.files@[j].path@, path@),
            decreases self.files.len() - i,
        {
            let row_path = chars_vec(self.files[i].path.as_str());
            if chars_eq_ignore_case(&row_path, &p) {
                proof {
                    assert(eq_ignore_case(self.files@[i as int].path@, path@));
                }
                return true;
            }
            i = i + 1;
        }
        false
    }

    /// Insert one file row.  The mandatory existence check comes first: a
    /// path that is already present, in any letter case, is refused and
    /// the catalog left untouched, which is what makes re-scanning safe.
    pub fn insert_file(
        &mut self,
        path: &str,
        content: &str,
        category: FileCategory,
        content_processed: bool,
        score_tenths: u32,
        file_size: u64,
        created_at: &str,
        updated_at: &str,
        last_accessed: &str,
    ) -> (r: Result<u64, StoreError>)
        requires
            old(self).inv(),
            old(self).next_file_id < u64::MAX,
            score_tenths <= MAX_SCORE_TENTHS,
        ensures
            final(self).inv(),
            spec_file_exists(old(self).files@, path@) ==> r
                == Result::<u64, StoreError>::Err(StoreError::PathExists) && *final(self) == *old(self),
            !spec_file_exists(old(self).files@, path@) ==> {
                &&& r == Result::<u64, StoreError>::Ok(old(self).next_file_id)
                &&& final(self).files@.len() == old(self).files@.len() + 1
                &&& final(self).files@.take(old(self).files@.len() as int) == old(self).files@
                &&& ({
                    let row = final(self).files@.last();
                    &&& row.id == old(self).next_file_id
                    &&& row.name@ == file_name_of(path@)
                    &&& row.extension@ == extension_of(path@)
                    &&& row.path@ == path@
                    &&& row.content@ == content@
                    &&& row.author is None
                    &&& row.file_size == file_size
                    &&& row.category == category
                    &&& row.content_processed == content_processed
                    &&& row.score_tenths == score_tenths
                    &&& row.created_at@ == created_at@
                    &&& row.updated_at@ == updated_at@
                    &&& row.last_accessed@ == last_accessed@
                })
                &&& final(self).next_file_id == old(self).next_file_id + 1
                &&& final(self).folders == old(self).folders
                &&& final(self).chunks == old(self).chunks
                &&& final(self).next_folder_id == old(self).next_folder_id
            },
    {
        if self.file_exists(path) {
            return Err(StoreError::PathExists);
        }
        let p = chars_vec(path);
        let name = path_file_name(&p);
        let ext = path_extension(&p);
        let id = self.next_file_id;
        let row = FileRow {
            id,
            name: string_from_chars(&name),
            extension: string_from_chars(&ext),
            path: String::from_str(path),
            content: String::from_str(content),
            author: None,
            file_size,
            category,
            content_processed,
            score_tenths,
            created_at: String::from_str(created_at),
            updated_at: String::from_str(updated_at),
            last_accessed: String::from_str(last_accessed),
        };
        self.files.push(row);
        self.next_file_id = id + 1;
        proof {
            assert(final(self).files@.take(old(self).files@.len() as int) =~= old(self).files@);
            assert forall|c: int| 0 <= c < self.chunks@.len() implies spec_file_id_known(
                self.files@,
                #[trigger] self.chunks@[c].file_id,
            ) by {
                let k = choose|k: int|
                    0 <= k < old(self).files@.len() && #[trigger] old(self).files@[k].id
                        == self.chunks@[c].file_id;
                assert(self.files@[k].id == self.chunks@[c].file_id);
            }
        }
        Ok(id)
    }

    /// The index of the folder row at this exact path, if any.
    fn find_folder(&self, path: &Vec<char>) -> (r: Option<usize>)
        ensures
            match r {
                Option::Some(i) => i < self.folders@.len() && self.folders@[i as int].path@ == path@,
                Option::None => !spec_folder_exists(self.folders@, path@),
            },
    {
        let mut i: usize = 0;
        while i < self.folders.len()
            invariant
                i <= self.folders@.len(),
                forall|j: int| 0 <= j < i ==> #[trigger] self.folders@[j].path@ != path@,
            decreases self.folders.len() - i,
        {
            let row_path = chars_vec(self.folders[i].path.as_str());
            if chars_eq(&row_path, path) {
                return Some(i);
            }
            i = i + 1;
        }
        None
    }

    /// Record one folder.  Recording is idempotent: a folder whose exact
    /// path is already present keeps its row and id.  A new row links to
    /// its parent folder's row when one exists.
    pub fn insert_folder(
        &mut self,
        path: &str,
        created_at: &str,
        updated_at: &str,
        last_accessed: &str,
    ) -> (r: u64)
        requires
            old(self).inv(),
            old(self).next_folder_id < u64::MAX,
        ensures
            final(self).inv(),
            spec_folder_exists(old(self).folders@, path@) ==> {
                &&& *final(self) == *old(self)
                &&& spec_folder_id_at(old(self).folders@, path@) == Option::Some(r)
            },
            !spec_folder_exists(old(self).folders@, path@) ==> {
                &&& r == old(self).next_folder_id
                &&& final(self).folders@.len() == old(self).folders@.len() + 1
                &&& final(self).folders@.take(old(self).folders@.len() as int) == old(self).folders@
                &&& ({
                    let row = final(self).folders@.last();
                    &&& row.id == old(self).next_folder_id
                    &&& row.name@ == file_name_of(path@)
                    &&& row.path@ == path@
                    &&& row.parent_folder_id == (match crate::paths::parent_path_of(path@) {
                        Option::Some(pp) => spec_folder_id_at(old(self).folders@, pp),
                        Option::None => Option::<u64>::None,
                    })
                    &&& row.file_count == 0
                    &&& row.folder_size == 0
                    &&& row.score_tenths == 0
                    &&& row.created_at@ == created_at@
                    &&& row.updated_at@ == updated_at@
                    &&& row.last_accessed@ == last_accessed@
                })
                &&& final(self).next_folder_id == old(self).next_folder_id + 1
                &&& final(self).files == old(self).files
                &&& final(self).chunks == old(self).chunks
                &&& final(self).next_file_id == old(self).next_file_id
            },
    {
        let p = chars_vec(path);
        match self.find_folder(&p) {
            Some(i) => {
                let id = self.folders[i].id;
                proof {
                    let k = choose|k: int|
                        0 <= k < self.folders@.len() && #[trigger] self.folders@[k].path@ == path@;
                    if k != i as int {
                        assert(self.folders@[k].path@ != self.folders@[i as int].path@);
                    }
                    assert(spec_folder_id_at(self.folders@, path@) == Option::Some(id));
                }
                id
            },
            None => {
                let name = path_file_name(&p);
                let parent_id: Option<u64> = match crate::paths::parent_path(&p) {
                    Some(pp) => {
                        match self.find_folder(&pp) {
                            Some(j) => {
                                let pid = self.folders[j].id;
                                proof {
                                    let k = choose|k: int|
                                        0 <= k < self.folders@.len()
                                            && #[trigger] self.folders@[k].path@ == pp@;
                                    if k != j as int {
                                        assert(self.folders@[k].path@ != self.folders@[j as int].path@);
                                    }
                                }
                                Some(pid)
                            },
                            None => None,
                        }
                    },
                    None => None,
                };
                let id = self.next_folder_id;
                let row = FolderRow {
                    id,
                    name: string_from_chars(&name),
                    path: String::from_str(path),
                    parent_folder_id: parent_id,
                    file_count: 0,
                    folder_size: 0,
                    score_tenths: 0,
                    created_at: String::from_str(created_at),
                    updated_at: String::from_str(updated_at),
                    last_accessed: String::from_str(last_accessed),
                };
                self.folders.push(row);
                self.next_folder_id = id + 1;
                proof {
                    assert(final(self).folders@.take(old(self).folders@.len() as int) =~= old(self).folders@);
                }
                id
            },
        }
    }

    /// Attach one chunk embedding to its owning file row.  An empty
    /// vector is silently skipped; an unknown file id is refused.
    pub fn insert_chunk(
        &mut self,
        file_id: u64,
        chunk_index: usize,
        text: &str,
        vector: Vec<u8>,
    ) -> (r: Result<(), StoreError>)
        requires
            old(self).inv(),
        ensures
            final(self).inv(),
            vector@.len() == 0 ==> r == Result::<(), StoreError>::Ok(()) && *final(self) == *old(self),
            vector@.len() > 0 && !spec_file_id_known(old(self).files@, file_id) ==> r
                == Result::<(), StoreError>::Err(StoreError::NoSuchFile) && *final(self) == *old(self),
            vector@.len() > 0 && spec_file_id_known(old(self).files@, file_id) ==> {
                &&& r == Result::<(), StoreError>::Ok(())
                &&& final(self).chunks@.len() == old(self).chunks@.len() + 1
                &&& final(self).chunks@.take(old(self).chunks@.len() as int) == old(self).chunks@
                &&& ({
                    let row = final(self).chunks@.last();
                    &&& row.file_id == file_id
                    &&& row.chunk_index == chunk_index
                    &&& row.text@ == text@
                    &&& row.vector@ == vector@
                })
                &&& final(self).files == old(self).files
                &&& final(self).folders == old(self).folders
                &&& final(self).next_file_id == old(self).next_file_id
                &&& final(self).next_folder_id == old(self).next_folder_id
            },
    {
        if vector.len() == 0 {
            return Ok(());
        }
        let mut known: bool = false;
        let mut i: usize = 0;
        while i < self.files.len()
            invariant
                i <= self.files@.len(),
                known <==> (exists|j: int| 0 <= j < i && #[trigger] self.files@[j].id == file_id),
            decreases self.files.len() - i,
        {
            if self.files[i].id == file_id {
                known = true;
            }
            i = i + 1;
        }
        if !known {
            return Err(StoreError::NoSuchFile);
        }
        let row = ChunkRow { file_id, chunk_index, text: String::from_str(text), vector };
        self.chunks.push(row);
        proof {
            assert(final(self).chunks@.take(old(self).chunks@.len() as int) =~= old(self).chunks@);
        }
        Ok(())
    }
}

/// The summed score, in tenths, of the files lying under a folder path.
pub open spec fn sum_scores_under(files: Seq<FileRow>, fpath: Seq<char>) -> int
    decreases files.len(),
{
    if files.len() == 0 {
        0
    } else {
        (if is_prefix(fpath, files[0].path@) {
            files[0].score_tenths as int
        } else {
            0
        }) + sum_scores_under(files.drop_first(), fpath)
    }
}

/// How many files lie under a folder path.
pub open spec fn count_under(files: Seq<FileRow>, fpath: Seq<char>) -> int
    decreases files.len(),
{
    if files.len() == 0 {
        0
    } else {
        (if is_prefix(fpath, files[0].path@) {
            1int
        } else {
            0
        }) + count_under(files.drop_first(), fpath)
    }
}

/// A folder's score: the mean of its files' scores, rounded to the
/// nearest tenth (half up), or zero when it has no files.
pub open spec fn folder_score_of(files: Seq<FileRow>, fpath: Seq<char>) -> int {
    let n = count_under(files, fpath);
    if n == 0 {
        0
    } else {
        (2 * sum_scores_under(files, fpath) + n) / (2 * n)
    }
}

/// The sum never outruns the count times the largest legal score.
proof fn lemma_sum_bounded(files: Seq<FileRow>, fpath: Seq<char>)
    requires
        forall|i: int| 0 <= i < files.len() ==> #[trigger] files[i].score_tenths <= MAX_SCORE_TENTHS,
    ensures
        0 <= count_under(files, fpath) <= files.len(),
        0 <= sum_scores_under(files, fpath) <= MAX_SCORE_TENTHS * count_under(files, fpath),
    decreases files.len(),
{
    if files.len() > 0 {
        assert(forall|i: int|
            0 <= i < files.drop_first().len() ==> #[trigger] files.drop_first()[i].score_tenths
                <= MAX_SCORE_TENTHS);
        lemma_sum_bounded(files.drop_first(), fpath);
    }
}

/// A folder's score is itself a legal score.
pub proof fn lemma_folder_score_in_range(files: Seq<FileRow>, fpath: Seq<char>)
    requires
        forall|i: int| 0 <= i < files.len() ==> #[trigger] files[i].score_tenths <= MAX_SCORE_TENTHS,
    ensures
        0 <= folder_score_of(files, fpath) <= MAX_SCORE_TENTHS,
{
    lemma_sum_bounded(files, fpath);
    let n = count_under(files, fpath);
    let s = sum_scores_under(files, fpath);
    if n > 0 {
        assert((2 * s + n) / (2 * n) <= MAX_SCORE_TENTHS) by (nonlinear_arith)
            requires
                n > 0,
                0 <= s <= MAX_SCORE_TENTHS * n,
        ;
        assert((2 * s + n) / (2 * n) >= 0) by (nonlinear_arith)
            requires
                n > 0,
                s >= 0,
        ;
    }
}

impl IndexStore {
    /// The folder score for one path, computed over the current file rows.
    fn score_for_folder(&self, fpath: &Vec<char>) -> (r: u32)
        requires
            self.inv(),
        ensures
            r == folder_score_of(self.files@, fpath@),
            r <= MAX_SCORE_TENTHS,
    {
        let ghost fv = self.files@;
        let mut sum: u128 = 0;
        let mut count: u64 = 0;
        let mut i: usize = 0;
        proof {
            lemma_sum_bounded(fv, fpath@);
            assert(fv.skip(0) =~= fv);
        }
        while i < self.files.len()
            invariant
                self.inv(),
                i <= fv.len(),
                fv == self.files@,
                sum + sum_scores_under(fv.skip(i as int), fpath@) == sum_scores_under(fv, fpath@),
                count + count_under(fv.skip(i as int), fpath@) == count_under(fv, fpath@),
                sum <= MAX_SCORE_TENTHS * count,
                count <= i,
            decreases self.files.len() - i,
        {
            let row_path = chars_vec(self.files[i].path.as_str());
            proof {
                assert(fv.skip(i as int)[0] == fv[i as int]);
                assert(fv.skip(i as int).drop_first() =~= fv.skip(i + 1));
                lemma_sum_bounded(fv.skip(i + 1), fpath@);
            }
            if chars_starts_with(&row_path, fpath) {
                sum = sum + self.files[i].score_tenths as u128;
                count = count + 1;
            }
            i = i + 1;
        }
        proof {
            assert(fv.skip(fv.len() as int) =~= Seq::<FileRow>::empty());
            lemma_folder_score_in_range(fv, fpath@);
        }
        if count == 0 {
            0
        } else {
            let num: u128 = 2 * sum + count as u128;
            let den: u128 = 2 * count as u128;
            let q: u128 = num / den;
            proof {
                assert(q == folder_score_of(fv, fpath@));
            }
            q as u32
        }
    }

    /// Recompute every folder's score as the rounded mean of the scores
    /// of the files lying under its path.  Only the scores change; file
    /// rows, chunk rows and every other folder field stay as they were.
    pub fn update_folder_scores(&mut self)
        requires
            old(self).inv(),
        ensures
            final(self).inv(),
            final(self).files == old(self).files,
            final(self).chunks == old(self).chunks,
            final(self).next_file_id == old(self).next_file_id,
            final(self).next_folder_id == old(self).next_folder_id,
            final(self).folders@.len() == old(self).folders@.len(),
            forall|i: int|
                0 <= i < old(self).folders@.len() ==> {
                    let before = #[trigger] old(self).folders@[i];
                    let after = #[trigger] final(self).folders@[i];
                    &&& after.id == before.id
                    &&& after.name == before.name
                    &&& after.path == before.path
                    &&& after.parent_folder_id == before.parent_folder_id
                    &&& after.file_count == before.file_count
                    &&& after.folder_size == before.folder_size
                    &&& after.score_tenths == folder_score_of(old(self).files@, before.path@)
                    &&& after.created_at == before.created_at
                    &&& after.updated_at == before.updated_at
                    &&& after.last_accessed == before.last_accessed
                },
    {
        let mut updated: Vec<FolderRow> = Vec::new();
        let mut k: usize = 0;
        while k < self.folders.len()
            invariant
                self.inv(),
                k <= self.folders@.len(),
                updated@.len() == k,
                forall|i: int|
                    0 <= i < k ==> {
                        let before = #[trigger] self.folders@[i];
                        let after = #[trigger] updated@[i];
                        &&& after.id == before.id
                        &&& after.name == before.name
                        &&& after.path == before.path
                        &&& after.parent_folder_id == before.parent_folder_id
                        &&& after.file_count == before.file_count
                        &&& after.folder_size == before.folder_size
                        &&& after.score_tenths == folder_score_of(self.files@, before.path@)
                        &&& after.created_at == before.created_at
                        &&& after.updated_at == before.updated_at
                        &&& after.last_accessed == before.last_accessed
                    },
            decreases self.folders.len() - k,
        {
            let fpath = chars_vec(self.folders[k].path.as_str());
            let score = self.score_for_folder(&fpath);
            let row = &self.folders[k];
            updated.push(FolderRow {
                id: row.id,
                name: row.name.clone(),
                path: row.path.clone(),
                parent_folder_id: row.parent_folder_id,
                file_count: row.file_count,
                folder_size: row.folder_size,
                score_tenths: score,
                created_at: row.created_at.clone(),
                updated_at: row.updated_at.clone(),
                last_accessed: row.last_accessed.clone(),
            });
            k = k + 1;
        }
        proof {
            assert forall|i: int, j: int| 0 <= i < j < updated@.len() implies #[trigger] updated@[i].path@
                != #[trigger] updated@[j].path@ by {
                assert(updated@[i].path == self.folders@[i].path);
                assert(updated@[j].path == self.folders@[j].path);
            }
            assert forall|i: int| 0 <= i < updated@.len() implies #[trigger] updated@[i].id
                < self.next_folder_id by {
                assert(updated@[i].id == self.folders@[i].id);
            }
            assert forall|i: int, j: int| 0 <= i < j < updated@.len() implies #[trigger] updated@[i].id
                != #[trigger] updated@[j].id by {
                assert(updated@[i].id == self.folders@[i].id);
                assert(updated@[j].id == self.folders@[j].id);
            }
            assert forall|i: int| 0 <= i < updated@.len() implies #[trigger] updated@[i].score_tenths
                <= MAX_SCORE_TENTHS by {
                lemma_folder_score_in_range(self.files@, self.folders@[i].path@);
            }
        }
        self.folders = updated;
    }
}

impl IndexStore {
    /// Does at least one chunk embedding belong to this file?
    pub fn verify_embeddings(&self, file_id: u64) -> (r: bool)
        ensures
            r == exists|c: int| 0 <= c < self.chunks@.len() && (#[trigger] self.chunks@[c]).file_id == file_id,
    {
        let mut c: usize = 0;
        while c < self.chunks.len()
            invariant
                c <= self.chunks@.len(),
                forall|d: int| 0 <= d < c ==> (#[trigger] self.chunks@[d]).file_id != file_id,
            decreases self.chunks.len() - c,
        {
            if self.chunks[c].file_id == file_id {
                return true;
            }
            c = c + 1;
        }
        false
    }
}

/// Two distinct rows of a lawful catalog never share a path, in any
/// letter case: re-indexing the same tree can never create a duplicate.
pub proof fn lemma_no_duplicate_paths(s: IndexStore, i: int, j: int)
    requires
        s.inv(),
        0 <= i < s.files@.len(),
        0 <= j < s.files@.len(),
        i != j,
    ensures
        !eq_ignore_case(s.files@[i].path@, s.files@[j].path@),
{
    if i < j {
        assert(!eq_ignore_case(s.files@[i].path@, s.files@[j].path@));
    } else {
        assert(!eq_ignore_case(s.files@[j].path@, s.files@[i].path@));
        assert(crate::text::to_lower(s.files@[j].path@) != crate::text::to_lower(s.files@[i].path@));
    }
}

} // verus!
