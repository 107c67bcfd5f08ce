//! Per-file scoring.
//!
//! A file's score lies in [0, 10] with one decimal place and is held in
//! integer tenths.  It adds a category base, a bonus for lying under an
//! included root, a recency bucket, a size penalty and a file-name bonus,
//! then clamps into range.

use vstd::prelude::*;
use crate::category::{category_of, FileCategory};
use crate::clamp_tenths;
use crate::paths::{extension_of, file_name_of, path_extension, path_file_name};
use crate::text::{chars_contains, chars_starts_with, chars_vec, is_substring, is_prefix, lower_chars, string_from_chars, to_lower};

verus! {

/// Seconds in seven days.
pub const WEEK_SECONDS: u64 = 604800;

/// Seconds in thirty days.
pub const MONTH_SECONDS: u64 = 2592000;

/// Seconds in 182 days.
pub const HALF_YEAR_SECONDS: u64 = 15724800;

/// Bytes in 100 MiB.
pub const SIZE_PENALTY_BYTES: u64 = 104857600;

/// Bytes in 500 MiB.
pub const SIZE_PENALTY_LARGE_BYTES: u64 = 524288000;

/// The path runs through a log or temporary directory.
pub open spec fn in_log_or_tmp(path: Seq<char>) -> bool {
    let lower = to_lower(path);
    is_substring("/log/"@, lower) || is_substring("/logs/"@, lower) || is_substring("/tmp/"@, lower)
}

/// The category base contribution, in tenths of a point.
pub open spec fn category_base_tenths(path: Seq<char>) -> int {
    if in_log_or_tmp(path) {
        5
    } else {
        match category_of(extension_of(path)) {
            FileCategory::Document => 40,
            FileCategory::Code => 30,
            FileCategory::Spreadsheet => 30,
            FileCategory::Database => 30,
            FileCategory::Config => 20,
            FileCategory::Media => 10,
            FileCategory::Archive => 10,
            FileCategory::Binary => 10,
            FileCategory::Unknown => 0,
        }
    }
}

/// The file lies under one of the included roots.
pub open spec fn under_included_root(path: Seq<char>, included: Seq<Seq<char>>) -> bool {
    exists|i: int| 0 <= i < included.len() && is_prefix(#[trigger] included[i], path)
}

/// The recency bucket contribution, in tenths: fresher files earn more.
/// `age` is the seconds since the file was last modified; `None` means the
/// modification time could not be read.
pub open spec fn recency_tenths(age: Option<u64>) -> int {
    match age {
        Option::Some(a) => {
            if a < WEEK_SECONDS {
                20
            } else if a < MONTH_SECONDS {
                15
            } else if a < HALF_YEAR_SECONDS {
                10
            } else {
                0
            }
        },
        Option::None => 0,
    }
}

/// The size penalty, in tenths: very large files lose a little.
pub open spec fn size_penalty_tenths(size: u64) -> int {
    if size > SIZE_PENALTY_LARGE_BYTES {
        -10
    } else if size > SIZE_PENALTY_BYTES {
        -5
    } else {
        0
    }
}

/// The file-name keyword bonus, in tenths, capped at one point.
pub open spec fn name_bonus_tenths(path: Seq<char>) -> int {
    let name = to_lower(file_name_of(path));
    let b = (if is_substring("project"@, name) { 5int } else { 0 })
        + (if is_substring("report"@, name) { 5int } else { 0 })
        + (if is_substring("final"@, name) { 5int } else { 0 })
        + (if is_substring("db"@, name) { 5int } else { 0 });
    if b > 10 {
        10
    } else {
        b
    }
}

/// The full score of a file, in tenths, before and after clamping.
pub open spec fn score_of(path: Seq<char>, size: u64, age: Option<u64>, included: Seq<Seq<char>>) -> int {
    clamp_tenths(
        category_base_tenths(path) + (if under_included_root(path, included) { 30int } else { 0 })
            + recency_tenths(age) + size_penalty_tenths(size) + name_bonus_tenths(path),
    )
}

/// Is the path a prefix-extension of any included root?
fn check_under_included(path: &Vec<char>, included_paths: &Vec<String>) -> (r: bool)
    ensures
        r == under_included_root(path@, included_paths.deep_view()),
{
    let mut i: usize = 0;
    while i < included_paths.len()
        invariant
            i <= included_paths@.len(),
            forall|j: int| 0 <= j < i ==> !is_prefix(#[trigger] included_paths.deep_view()[j], path@),
        decreases included_paths.len() - i,
    {
        let root = chars_vec(included_paths[i].as_str());
        if chars_starts_with(path, &root) {
            proof {
                assert(is_prefix(included_paths.deep_view()[i as int], path@));
            }
            return true;
        }
        i = i + 1;
    }
    false
}

/// Compute a file's score from its path, size in bytes, seconds since its
/// last modification, and the included roots.  The result is the score in
/// tenths of a point, always within [0, 100].
#[verifier::rlimit(60)]
pub fn calculate_file_score(
    path_str: &str,
    file_size: u64,
    age_seconds: Option<u64>,
    included_paths: &Vec<String>,
) -> (r: u32)
    ensures
        r == score_of(path_str@, file_size, age_seconds, included_paths.deep_view()),
        r <= 100,
{
    let p = chars_vec(path_str);
    let lower = lower_chars(&p);

    let log_pat = chars_vec("/log/");
    let logs_pat = chars_vec("/logs/");
    let tmp_pat = chars_vec("/tmp/");
    let in_junk = chars_contains(&lower, &log_pat) || chars_contains(&lower, &logs_pat)
        || chars_contains(&lower, &tmp_pat);

    let category_score: i64 = if in_junk {
        5
    } else {
        let ext = path_extension(&p);
        let ext_string = string_from_chars(&ext);
        let category = FileCategory::from_extension(ext_string.as_str());
        match category {
            FileCategory::Document => 40,
            FileCategory::Code => 30,
            FileCategory::Spreadsheet => 30,
            FileCategory::Database => 30,
            FileCategory::Config => 20,
            FileCategory::Media => 10,
            FileCategory::Archive => 10,
            FileCategory::Binary => 10,
            FileCategory::Unknown => 0,
        }
    };

    let path_score: i64 = if check_under_included(&p, included_paths) {
        30
    } else {
        0
    };

    let recency_score: i64 = match age_seconds {
        Some(a) => {
            if a < WEEK_SECONDS {
                20
            } else if a < MONTH_SECONDS {
                15
            } else if a < HALF_YEAR_SECONDS {
                10
            } else {
                0
            }
        },
        None => 0,
    };

    let size_penalty: i64 = if file_size > SIZE_PENALTY_LARGE_BYTES {
        -10
    } else if file_size > SIZE_PENALTY_BYTES {
        -5
    } else {
        0
    };

    let name = path_file_name(&p);
    let name_lower = lower_chars(&name);
    let project_pat = chars_vec("project");
    let report_pat = chars_vec("report");
    let final_pat = chars_vec("final");
    let db_pat = chars_vec("db");
    let mut bonus: i64 = 0;
    if chars_contains(&name_lower, &project_pat) {
        bonus = bonus + 5;
    }
    if chars_contains(&name_lower, &report_pat) {
        bonus = bonus + 5;
    }
    if chars_contains(&name_lower, &final_pat) {
        bonus = bonus + 5;
    }
    if chars_contains(&name_lower, &db_pat) {
        bonus = bonus + 5;
    }
    if bonus > 10 {
        bonus = 10;
    }

    let total: i64 = category_score + path_score + recency_score + size_penalty + bonus;
    crate::clamp_score_tenths(total)
}

/// A file that was modified more recently never scores lower than the same
/// file with an older modification time.
pub proof fn lemma_score_monotone_in_recency(
    path: Seq<char>,
    size: u64,
    newer: u64,
    older: u64,
    included: Seq<Seq<char>>,
)
    requires
        newer <= older,
    ensures
        score_of(path, size, Some(newer), included) >= score_of(path, size, Some(older), included),
{
}

/// Every score is a legal one-decimal value in [0, 10].
pub proof fn lemma_score_in_range(path: Seq<char>, size: u64, age: Option<u64>, included: Seq<Seq<char>>)
    ensures
        0 <= score_of(path, size, age, included) <= 100,
{
}

} // verus!
