//! Discovery-time filtering rules.
//!
//! The filesystem walk itself is I/O and lives outside the library; these
//! functions decide, for each path the walk reports, whether it is excluded
//! and whether its content should be processed.

use vstd::prelude::*;
use crate::paths::{extension_of, match_segs, path_extension, path_match_segs};
use crate::text::{chars_eq_ignore_case, chars_starts_with, chars_vec, eq_ignore_case, is_prefix, string_from_chars, trim_chars, trim_spec};

verus! {

/// What a discovery pass works from: the roots to walk and the rule sets
/// applied to everything found under them.
pub struct ScanConfig {
    pub base_paths: Vec<String>,
    pub include_exts: Vec<String>,
    pub exclude_folders: Vec<String>,
    pub exclude_paths: Vec<String>,
}

/// One discovered file: its path and whether its content is processed.
#[derive(Clone, Debug)]
pub struct ScannedFile {
    pub path: String,
    pub content_processed: bool,
}

/// Some exclude-path rule, once trimmed, is a non-empty prefix of `path`.
pub open spec fn excluded_by_path_rule(path: Seq<char>, exclude_paths: Seq<Seq<char>>) -> bool {
    exists|i: int|
        0 <= i < exclude_paths.len() && trim_spec(#[trigger] exclude_paths[i]).len() > 0
            && is_prefix(trim_spec(exclude_paths[i]), path)
}

/// A path segment that is hidden: its name starts with a dot.
pub open spec fn seg_hidden(seg: Seq<char>) -> bool {
    seg.len() > 0 && seg[0] == '.'
}

/// A path segment matching some exclude-folder rule whose text is not
/// blank, compared case-insensitively against the untrimmed rule.
pub open spec fn seg_matches_excluded_folder(seg: Seq<char>, exclude_folders: Seq<Seq<char>>) -> bool {
    exists|i: int|
        0 <= i < exclude_folders.len() && trim_spec(#[trigger] exclude_folders[i]).len() > 0
            && eq_ignore_case(exclude_folders[i], seg)
}

/// Some folder (or the file itself) on the path is hidden or excluded.
pub open spec fn in_excluded_folder(path: Seq<char>, exclude_folders: Seq<Seq<char>>) -> bool {
    exists|k: int|
        0 <= k < match_segs(path).len() && (seg_hidden(#[trigger] match_segs(path)[k])
            || seg_matches_excluded_folder(match_segs(path)[k], exclude_folders))
}

/// With a non-empty include-extension list, the path's extension matches
/// none of it, case-insensitively.
pub open spec fn ext_not_included(path: Seq<char>, include_exts: Seq<Seq<char>>) -> bool {
    include_exts.len() > 0 && (forall|i: int|
        0 <= i < include_exts.len() ==> !eq_ignore_case(
            #[trigger] include_exts[i],
            extension_of(path),
        ))
}

/// The full discovery-time exclusion rule.
pub open spec fn should_exclude_spec(
    path: Seq<char>,
    exclude_folders: Seq<Seq<char>>,
    exclude_paths: Seq<Seq<char>>,
    include_exts: Option<Seq<Seq<char>>>,
) -> bool {
    ||| excluded_by_path_rule(path, exclude_paths)
    ||| in_excluded_folder(path, exclude_folders)
    ||| (match include_exts {
        Option::Some(exts) => ext_not_included(path, exts),
        Option::None => false,
    })
}

/// Is `path` excluded by an exclude-path rule?
fn check_path_rules(path: &Vec<char>, exclude_paths: &Vec<String>) -> (r: bool)
    ensures
        r == excluded_by_path_rule(path@, exclude_paths.deep_view()),
{
    let mut i: usize = 0;
    while i < exclude_paths.len()
        invariant
            i <= exclude_paths@.len(),
            forall|j: int|
                0 <= j < i ==> !(trim_spec(#[trigger] exclude_paths.deep_view()[j]).len() > 0
                    && is_prefix(trim_spec(exclude_paths.deep_view()[j]), path@)),
        decreases exclude_paths.len() - i,
    {
        let rule = chars_vec(exclude_paths[i].as_str());
        let trimmed = trim_chars(&rule);
        if trimmed.len() > 0 && chars_starts_with(path, &trimmed) {
            proof {
                assert(trim_spec(exclude_paths.deep_view()[i as int]).len() > 0
                    && is_prefix(trim_spec(exclude_paths.deep_view()[i as int]), path@));
            }
            return true;
        }
        i = i + 1;
    }
    false
}

/// Does `seg` match some non-blank exclude-folder rule?
fn check_seg_against_folders(seg: &Vec<char>, exclude_folders: &Vec<String>) -> (r: bool)
    ensures
        r == seg_matches_excluded_folder(seg@, exclude_folders.deep_view()),
{
    let mut i: usize = 0;
    while i < exclude_folders.len()
        invariant
            i <= exclude_folders@.len(),
            forall|j: int|
                0 <= j < i ==> !(trim_spec(#[trigger] exclude_folders.deep_view()[j]).len() > 0
                    && eq_ignore_case(exclude_folders.deep_view()[j], seg@)),
        decreases exclude_folders.len() - i,
    {
        let rule = chars_vec(exclude_folders[i].as_str());
        let trimmed = trim_chars(&rule);
        if trimmed.len() > 0 && chars_eq_ignore_case(&rule, seg) {
            proof {
                assert(trim_spec(exclude_folders.deep_view()[i as int]).len() > 0
                    && eq_ignore_case(exclude_folders.deep_view()[i as int], seg@));
            }
            return true;
        }
        i = i + 1;
    }
    false
}

/// Is any folder on the way to the file (or the file itself) hidden or
/// matched by an exclude-folder rule?
fn check_excluded_folders(path: &Vec<char>, exclude_folders: &Vec<String>) -> (r: bool)
    ensures
        r == in_excluded_folder(path@, exclude_folders.deep_view()),
{
    let segs = path_match_segs(path);
    let ghost seg_views = match_segs(path@);
    let mut k: usize = 0;
    while k < segs.len()
        invariant
            k <= segs@.len(),
            segs.deep_view() == seg_views,
            seg_views == match_segs(path@),
            forall|j: int|
                0 <= j < k ==> !(seg_hidden(#[trigger] seg_views[j])
                    || seg_matches_excluded_folder(seg_views[j], exclude_folders.deep_view())),
        decreases segs.len() - k,
    {
        let seg = &segs[k];
        proof {
            assert(seg@ =~= seg_views[k as int]);
        }
        let hidden = seg.len() > 0 && seg[0] == '.';
        if hidden || check_seg_against_folders(seg, exclude_folders) {
            return true;
        }
        k = k + 1;
    }
    false
}

/// Does the path's extension miss a non-empty include-extension list?
fn check_ext_not_included(path: &Vec<char>, include_exts: &Vec<String>) -> (r: bool)
    ensures
        r == ext_not_included(path@, include_exts.deep_view()),
{
    if include_exts.len() == 0 {
        return false;
    }
    let ext = path_extension(path);
    let mut i: usize = 0;
    while i < include_exts.len()
        invariant
            i <= include_exts@.len(),
            ext@ == extension_of(path@),
            forall|j: int|
                0 <= j < i ==> !eq_ignore_case(
                    #[trigger] include_exts.deep_view()[j],
                    extension_of(path@),
                ),
        decreases include_exts.len() - i,
    {
        let rule = chars_vec(include_exts[i].as_str());
        if chars_eq_ignore_case(&rule, &ext) {
            proof {
                assert(eq_ignore_case(include_exts.deep_view()[i as int], extension_of(path@)));
            }
            return false;
        }
        i = i + 1;
    }
    true
}

/// Decide whether a discovered path is excluded: by an exclude-path rule,
/// by a hidden or excluded folder anywhere on it, or (when an extension
/// list is supplied and non-empty) by its extension not being included.
pub fn should_exclude_path(
    path: &str,
    exclude_folders: &Vec<String>,
    exclude_paths: &Vec<String>,
    include_exts: Option<&Vec<String>>,
) -> (r: bool)
    ensures
        r == should_exclude_spec(
            path@,
            exclude_folders.deep_view(),
            exclude_paths.deep_view(),
            match include_exts {
                Option::Some(e) => Option::Some(e.deep_view()),
                Option::None => Option::None,
            },
        ),
{
    let p = chars_vec(path);
    if check_path_rules(&p, exclude_paths) {
        return true;
    }
    if check_excluded_folders(&p, exclude_folders) {
        return true;
    }
    match include_exts {
        Some(exts) => check_ext_not_included(&p, exts),
        None => false,
    }
}

/// A path segment matching some exclude-folder rule, with no blank-rule
/// guard: the content-processing phase compares every rule as it stands.
pub open spec fn seg_in_folder_list(seg: Seq<char>, folders: Seq<Seq<char>>) -> bool {
    exists|i: int| 0 <= i < folders.len() && eq_ignore_case(#[trigger] folders[i], seg)
}

/// Some folder on the way to the file matches an exclude-folder rule.
pub open spec fn in_excluded_folder_plain(path: Seq<char>, folders: Seq<Seq<char>>) -> bool {
    exists|k: int|
        0 <= k < match_segs(path).len() && seg_in_folder_list(#[trigger] match_segs(path)[k], folders)
}

/// The path lies under some included root, compared as given.
pub open spec fn under_root_plain(path: Seq<char>, roots: Seq<Seq<char>>) -> bool {
    exists|i: int| 0 <= i < roots.len() && is_prefix(#[trigger] roots[i], path)
}

/// Some included extension matches the path's, case-insensitively.
pub open spec fn ext_included(path: Seq<char>, exts: Seq<Seq<char>>) -> bool {
    exists|i: int| 0 <= i < exts.len() && eq_ignore_case(#[trigger] exts[i], extension_of(path))
}

/// The content-processing decision for one file: the pair of
/// (process its content, it sits in an excluded folder).
pub open spec fn phase1_spec(
    path: Seq<char>,
    include_paths: Seq<Seq<char>>,
    exclude_folders: Seq<Seq<char>>,
    include_exts: Seq<Seq<char>>,
) -> (bool, bool) {
    if !under_root_plain(path, include_paths) {
        (false, false)
    } else if in_excluded_folder_plain(path, exclude_folders) {
        (false, true)
    } else if include_exts.len() > 0 && !ext_included(path, include_exts) {
        (false, false)
    } else {
        (true, false)
    }
}

/// Is the path under any of the given roots, compared as given?
fn check_under_root_plain(path: &Vec<char>, roots: &Vec<String>) -> (r: bool)
    ensures
        r == under_root_plain(path@, roots.deep_view()),
{
    let mut i: usize = 0;
    while i < roots.len()
        invariant
            i <= roots@.len(),
            forall|j: int| 0 <= j < i ==> !is_prefix(#[trigger] roots.deep_view()[j], path@),
        decreases roots.len() - i,
    {
        let root = chars_vec(roots[i].as_str());
        if chars_starts_with(path, &root) {
            proof {
                assert(is_prefix(roots.deep_view()[i as int], path@));
            }
            return true;
        }
        i = i + 1;
    }
    false
}

/// Does `seg` match any folder in the list, case-insensitively?
fn check_seg_in_list(seg: &Vec<char>, folders: &Vec<String>) -> (r: bool)
    ensures
        r == seg_in_folder_list(seg@, folders.deep_view()),
{
    let mut i: usize = 0;
    while i < folders.len()
        invariant
            i <= folders@.len(),
            forall|j: int| 0 <= j < i ==> !eq_ignore_case(#[trigger] folders.deep_view()[j], seg@),
        decreases folders.len() - i,
    {
        let rule = chars_vec(folders[i].as_str());
        if chars_eq_ignore_case(&rule, seg) {
            proof {
                assert(eq_ignore_case(folders.deep_view()[i as int], seg@));
            }
            return true;
        }
        i = i + 1;
    }
    false
}

/// Does any folder on the path match the list, case-insensitively?
fn check_folders_plain(path: &Vec<char>, folders: &Vec<String>) -> (r: bool)
    ensures
        r == in_excluded_folder_plain(path@, folders.deep_view()),
{
    let segs = path_match_segs(path);
    let ghost seg_views = match_segs(path@);
    let mut k: usize = 0;
    while k < segs.len()
        invariant
            k <= segs@.len(),
            segs.deep_view() == seg_views,
            seg_views == match_segs(path@),
            forall|j: int|
                0 <= j < k ==> !seg_in_folder_list(#[trigger] seg_views[j], folders.deep_view()),
        decreases segs.len() - k,
    {
        let seg = &segs[k];
        proof {
            assert(seg@ =~= seg_views[k as int]);
        }
        if check_seg_in_list(seg, folders) {
            return true;
        }
        k = k + 1;
    }
    false
}

/// Does any included extension match the path's, case-insensitively?
fn check_ext_included(path: &Vec<char>, exts: &Vec<String>) -> (r: bool)
    ensures
        r == ext_included(path@, exts.deep_view()),
{
    let ext = path_extension(path);
    let mut i: usize = 0;
    while i < exts.len()
        invariant
            i <= exts@.len(),
            ext@ == extension_of(path@),
            forall|j: int|
                0 <= j < i ==> !eq_ignore_case(#[trigger] exts.deep_view()[j], extension_of(path@)),
        decreases exts.len() - i,
    {
        let rule = chars_vec(exts[i].as_str());
        if chars_eq_ignore_case(&rule, &ext) {
            proof {
                assert(eq_ignore_case(exts.deep_view()[i as int], extension_of(path@)));
            }
            return true;
        }
        i = i + 1;
    }
    false
}

/// Decide whether one file's content should be processed: it must lie
/// under an included root, sit in no excluded folder, and carry an
/// included extension whenever the extension list is non-empty.  Returns
/// (process content, sits in an excluded folder).
pub fn check_phase1_rules(
    file_path: &str,
    include_paths: &Vec<String>,
    exclude_folders: &Vec<String>,
    include_exts: &Vec<String>,
) -> (r: (bool, bool))
    ensures
        r == phase1_spec(
            file_path@,
            include_paths.deep_view(),
            exclude_folders.deep_view(),
            include_exts.deep_view(),
        ),
{
    let p = chars_vec(file_path);
    if !check_under_root_plain(&p, include_paths) {
        return (false, false);
    }
    if check_folders_plain(&p, exclude_folders) {
        return (false, true);
    }
    if include_exts.len() > 0 && !check_ext_included(&p, include_exts) {
        return (false, false);
    }
    (true, false)
}

/// The drive roots `A:\` through `Z:\` whose presence flag is set.
pub open spec fn drives_of(present: Seq<bool>, i: int) -> Seq<Seq<char>>
    decreases 26 - i,
{
    if i < 0 || i >= 26 {
        Seq::empty()
    } else {
        let here: Seq<Seq<char>> = if present[i] {
            seq![seq![(('A' as u8) + i as u8) as char, ':', '\\']]
        } else {
            Seq::empty()
        };
        here + drives_of(present, i + 1)
    }
}

/// List the candidate drive roots that are present.  The caller supplies
/// one presence flag per letter `A` through `Z`; checking the filesystem
/// for them is the caller's affair.
pub fn discover_drives(present: &Vec<bool>) -> (r: Vec<String>)
    requires
        present@.len() == 26,
    ensures
        r.deep_view() == drives_of(present@, 0),
{
    let mut r: Vec<String> = Vec::new();
    let mut i: usize = 0;
    while i < 26
        invariant
            i <= 26,
            present@.len() == 26,
            r.deep_view() + drives_of(present@, i as int) =~= drives_of(present@, 0),
        decreases 26 - i,
    {
        let ghost before = r.deep_view();
        if present[i] {
            let mut d: Vec<char> = Vec::new();
            d.push((('A' as u8) + i as u8) as char);
            d.push(':');
            d.push('\\');
            proof {
                assert(d@ =~= seq![(('A' as u8) + i as u8) as char, ':', '\\']);
            }
            r.push(string_from_chars(&d));
            proof {
                assert(r.deep_view() =~~= before.push(d@));
                assert(drives_of(present@, i as int) =~= seq![d@] + drives_of(present@, i + 1));
                assert(r.deep_view() + drives_of(present@, i + 1) =~~= before + drives_of(present@, i as int));
            }
        } else {
            proof {
                assert(drives_of(present@, i as int) =~= drives_of(present@, i + 1));
            }
        }
        i = i + 1;
    }
    proof {
        assert(drives_of(present@, 26) =~= Seq::<Seq<char>>::empty());
        assert(r.deep_view() =~= r.deep_view() + drives_of(present@, 26));
    }
    r
}

} // verus!
