//! A small path grammar over plain strings.
//!
//! Paths are read as character strings with `/` and `\` as separators and an
//! optional leading drive prefix of the form `X:`.  That covers what the
//! indexing rules inspect: the file name, its extension and stem, the chain
//! of folder names above a file, and the drive.

use vstd::prelude::*;
use crate::text::{chars_vec, copy_range, push_all};

verus! {

/// Path separator characters.
pub open spec fn is_sep(c: char) -> bool {
    c == '/' || c == '\\'
}

/// Executable mirror of [`is_sep`].
pub fn is_sep_char(c: char) -> (r: bool)
    ensures
        r == is_sep(c),
{
    c == '/' || c == '\\'
}

/// An ASCII letter.
pub open spec fn is_ascii_letter(c: char) -> bool {
    ('a' <= c && c <= 'z') || ('A' <= c && c <= 'Z')
}

/// The path opens with a drive prefix such as `C:`.
pub open spec fn has_drive(p: Seq<char>) -> bool {
    p.len() >= 2 && is_ascii_letter(p[0]) && p[1] == ':'
}

/// A path segment that is itself a drive prefix.
pub open spec fn is_drive_seg(s: Seq<char>) -> bool {
    s.len() == 2 && is_ascii_letter(s[0]) && s[1] == ':'
}

/// The index of the last character satisfying `p`, or -1 when none does.
pub open spec fn last_match(s: Seq<char>, p: spec_fn(char) -> bool) -> int
    decreases s.len(),
{
    if s.len() == 0 {
        -1
    } else if p(s[s.len() - 1]) {
        s.len() - 1
    } else {
        last_match(s.drop_last(), p)
    }
}

/// `last_match` finds `k` when `k` matches and nothing after it does.
pub proof fn lemma_last_match_at(s: Seq<char>, p: spec_fn(char) -> bool, k: int)
    requires
        0 <= k < s.len(),
        p(s[k]),
        forall|j: int| k < j < s.len() ==> !p(#[trigger] s[j]),
    ensures
        last_match(s, p) == k,
    decreases s.len(),
{
    if k < s.len() - 1 {
        lemma_last_match_at(s.drop_last(), p, k);
    }
}

/// `last_match` is -1 exactly when no character matches.
pub proof fn lemma_last_match_none(s: Seq<char>, p: spec_fn(char) -> bool)
    requires
        forall|j: int| 0 <= j < s.len() ==> !p(#[trigger] s[j]),
    ensures
        last_match(s, p) == -1,
    decreases s.len(),
{
    if s.len() > 0 {
        lemma_last_match_none(s.drop_last(), p);
    }
}

/// The index of the last separator, or `None` when the path has none.
pub fn last_sep_index(v: &Vec<char>) -> (r: Option<usize>)
    ensures
        match r {
            Some(i) => i < v@.len() && last_match(v@, |c: char| is_sep(c)) == i,
            None => last_match(v@, |c: char| is_sep(c)) == -1,
        },
{
    let mut i: usize = v.len();
    while i > 0
        invariant
            i <= v@.len(),
            forall|j: int| i <= j < v@.len() ==> !is_sep(#[trigger] v@[j]),
        decreases i,
    {
        i = i - 1;
        if is_sep_char(v[i]) {
            proof {
                lemma_last_match_at(v@, |c: char| is_sep(c), i as int);
            }
            return Some(i);
        }
    }
    proof {
        lemma_last_match_none(v@, |c: char| is_sep(c));
    }
    None
}

/// The index of the last dot, or `None` when there is none.
pub fn last_dot_index(v: &Vec<char>) -> (r: Option<usize>)
    ensures
        match r {
            Some(i) => i < v@.len() && last_match(v@, |c: char| c == '.') == i,
            None => last_match(v@, |c: char| c == '.') == -1,
        },
{
    let mut i: usize = v.len();
    while i > 0
        invariant
            i <= v@.len(),
            forall|j: int| i <= j < v@.len() ==> #[trigger] v@[j] != '.',
        decreases i,
    {
        i = i - 1;
        if v[i] == '.' {
            proof {
                lemma_last_match_at(v@, |c: char| c == '.', i as int);
            }
            return Some(i);
        }
    }
    proof {
        lemma_last_match_none(v@, |c: char| c == '.');
    }
    None
}

/// The file name: everything after the last separator.
pub open spec fn file_name_of(p: Seq<char>) -> Seq<char> {
    p.skip(last_match(p, |c: char| is_sep(c)) + 1)
}

/// The extension of a file name: what follows its last dot, provided that
/// dot is not the leading character.
pub open spec fn extension_of_name(name: Seq<char>) -> Seq<char> {
    let d = last_match(name, |c: char| c == '.');
    if d > 0 {
        name.skip(d + 1)
    } else {
        Seq::empty()
    }
}

/// The stem of a file name: what precedes its last dot, provided that dot
/// is not the leading character.
pub open spec fn stem_of_name(name: Seq<char>) -> Seq<char> {
    let d = last_match(name, |c: char| c == '.');
    if d > 0 {
        name.take(d)
    } else {
        name
    }
}

/// The extension of the file a path points at.
pub open spec fn extension_of(p: Seq<char>) -> Seq<char> {
    extension_of_name(file_name_of(p))
}

/// The drive of a path: its `X:` prefix, or the word `unknown`.
pub open spec fn drive_of(p: Seq<char>) -> Seq<char> {
    if has_drive(p) {
        p.subrange(0, 2)
    } else {
        "unknown"@
    }
}

/// Executable file-name extraction.
pub fn path_file_name(v: &Vec<char>) -> (r: Vec<char>)
    ensures
        r@ == file_name_of(v@),
{
    let n: usize = v.len();
    match last_sep_index(v) {
        Some(i) => {
            let r = copy_range(v, i + 1, n);
            proof {
                assert(v@.subrange(i + 1, v@.len() as int) =~= v@.skip(i + 1));
            }
            r
        },
        None => {
            let r = copy_range(v, 0, v.len());
            proof {
                assert(v@.subrange(0, v@.len() as int) =~= v@.skip(0));
            }
            r
        },
    }
}

/// Executable extension extraction from a file name.
pub fn name_extension(name: &Vec<char>) -> (r: Vec<char>)
    ensures
        r@ == extension_of_name(name@),
{
    let n: usize = name.len();
    match last_dot_index(name) {
        Some(d) => {
            if d > 0 {
                let r = copy_range(name, d + 1, n);
                proof {
                    assert(name@.subrange(d + 1, name@.len() as int) =~= name@.skip(d + 1));
                }
                r
            } else {
                Vec::new()
            }
        },
        None => Vec::new(),
    }
}

/// Executable stem extraction from a file name.
pub fn name_stem(name: &Vec<char>) -> (r: Vec<char>)
    ensures
        r@ == stem_of_name(name@),
{
    match last_dot_index(name) {
        Some(d) => {
            if d > 0 {
                copy_range(name, 0, d)
            } else {
                let r = copy_range(name, 0, name.len());
                proof {
                    assert(name@.subrange(0, name@.len() as int) =~= name@);
                }
                r
            }
        },
        None => {
            let r = copy_range(name, 0, name.len());
            proof {
                assert(name@.subrange(0, name@.len() as int) =~= name@);
            }
            r
        },
    }
}

/// Executable extension extraction from a whole path.
pub fn path_extension(v: &Vec<char>) -> (r: Vec<char>)
    ensures
        r@ == extension_of(v@),
{
    let name = path_file_name(v);
    name_extension(&name)
}

/// The drive identifier of a path as the metadata descriptor reports it.
pub fn extract_drive(file_path: &str) -> (r: String)
    ensures
        r@ == drive_of(file_path@),
{
    let v = chars_vec(file_path);
    if v.len() >= 2 && v[1] == ':' {
        let c = v[0];
        if ('a' <= c && c <= 'z') || ('A' <= c && c <= 'Z') {
            let d = copy_range(&v, 0, 2);
            return crate::text::string_from_chars(&d);
        }
    }
    let u = chars_vec("unknown");
    crate::text::string_from_chars(&u)
}

/// The parent of a path: what stands before its last separator, keeping
/// the separator itself when the parent is a filesystem root.  A path
/// without separators has no parent.
pub open spec fn parent_path_of(p: Seq<char>) -> Option<Seq<char>> {
    let ls = last_match(p, |c: char| is_sep(c));
    if ls == -1 {
        Option::None
    } else if ls == 0 {
        Option::Some(p.take(1))
    } else if has_drive(p) && ls == 2 {
        Option::Some(p.take(3))
    } else {
        Option::Some(p.take(ls))
    }
}

/// Executable mirror of [`parent_path_of`].
pub fn parent_path(v: &Vec<char>) -> (r: Option<Vec<char>>)
    ensures
        match r {
            Option::Some(pp) => parent_path_of(v@) == Option::Some(pp@),
            Option::None => parent_path_of(v@) is None,
        },
{
    match last_sep_index(v) {
        Some(ls) => {
            if ls == 0 {
                Some(copy_range(v, 0, 1))
            } else if ls == 2 && v.len() >= 2 && v[1] == ':' && (('a' <= v[0] && v[0] <= 'z')
                || ('A' <= v[0] && v[0] <= 'Z')) {
                Some(copy_range(v, 0, 3))
            } else {
                Some(copy_range(v, 0, ls))
            }
        },
        None => None,
    }
}

/// The leading run of non-separator characters.
pub open spec fn take_seg(s: Seq<char>) -> Seq<char>
    decreases s.len(),
{
    if s.len() == 0 || is_sep(s[0]) {
        Seq::empty()
    } else {
        seq![s[0]] + take_seg(s.drop_first())
    }
}

/// A segment never outgrows its text, and starts non-empty off a separator.
pub proof fn lemma_take_seg_len(s: Seq<char>)
    ensures
        take_seg(s).len() <= s.len(),
        s.len() > 0 && !is_sep(s[0]) ==> take_seg(s).len() >= 1,
    decreases s.len(),
{
    if s.len() > 0 && !is_sep(s[0]) {
        lemma_take_seg_len(s.drop_first());
    }
}

/// The non-empty segments of a path: maximal runs between separators.
pub open spec fn path_runs(s: Seq<char>) -> Seq<Seq<char>>
    decreases s.len(),
    via path_runs_decreases
{
    if s.len() == 0 {
        Seq::empty()
    } else if is_sep(s[0]) {
        path_runs(s.drop_first())
    } else {
        seq![take_seg(s)] + path_runs(s.skip(take_seg(s).len() as int))
    }
}

#[via_fn]
proof fn path_runs_decreases(s: Seq<char>) {
    if s.len() > 0 && !is_sep(s[0]) {
        lemma_take_seg_len(s);
    }
}

/// A run of `k` non-separator characters closed off by the end of text or
/// a separator is exactly the segment taken from the front.
proof fn lemma_take_seg_exact(s: Seq<char>, k: int)
    requires
        0 <= k <= s.len(),
        forall|j: int| 0 <= j < k ==> !is_sep(#[trigger] s[j]),
        k == s.len() || is_sep(s[k]),
    ensures
        take_seg(s) =~= s.subrange(0, k),
    decreases k,
{
    if k == 0 {
        if s.len() > 0 {
            assert(is_sep(s[0]));
        }
    } else {
        lemma_take_seg_exact(s.drop_first(), k - 1);
        assert(s.drop_first().subrange(0, k - 1) =~= s.subrange(1, k));
        assert(take_seg(s) =~= seq![s[0]] + s.subrange(1, k));
    }
}

/// Split off the segments of `v` from position `i` on.
fn segs_from(v: &Vec<char>, i: usize) -> (r: Vec<Vec<char>>)
    requires
        i <= v@.len(),
    ensures
        r.deep_view() == path_runs(v@.skip(i as int)),
    decreases v@.len() - i,
{
    if i == v.len() {
        let r: Vec<Vec<char>> = Vec::new();
        proof {
            assert(v@.skip(i as int) =~= Seq::<char>::empty());
            assert(r.deep_view() =~= path_runs(v@.skip(i as int)));
        }
        r
    } else if is_sep_char(v[i]) {
        proof {
            assert(v@.skip(i as int).drop_first() =~= v@.skip(i + 1));
        }
        segs_from(v, i + 1)
    } else {
        let ghost tail = v@.skip(i as int);
        let mut j: usize = i + 1;
        while j < v.len() && !is_sep_char(v[j])
            invariant
                i < j <= v@.len(),
                forall|q: int| i <= q < j ==> !is_sep(#[trigger] v@[q]),
            decreases v.len() - j,
        {
            j = j + 1;
        }
        let seg = copy_range(v, i, j);
        proof {
            assert(forall|q: int| 0 <= q < j - i ==> !is_sep(#[trigger] tail[q]));
            if j < v@.len() {
                assert(is_sep(tail[j - i]));
            }
            lemma_take_seg_exact(tail, j - i);
            assert(take_seg(tail) =~= seg@);
            assert(tail.skip(take_seg(tail).len() as int) =~= v@.skip(j as int));
        }
        let ghost rest_view = path_runs(v@.skip(j as int));
        let mut r = segs_from(v, j);
        r.insert(0, seg);
        proof {
            assert(r.deep_view() =~~= seq![take_seg(tail)] + rest_view);
        }
        r
    }
}

/// Split a path into its non-empty segments.
pub fn split_path_runs(v: &Vec<char>) -> (r: Vec<Vec<char>>)
    ensures
        r.deep_view() == path_runs(v@),
{
    proof {
        assert(v@.skip(0) =~= v@);
    }
    segs_from(v, 0)
}

/// The segments whose names the folder rules are matched against: every
/// run of the path except a leading drive prefix.
pub open spec fn match_segs(p: Seq<char>) -> Seq<Seq<char>> {
    let runs = path_runs(p);
    if runs.len() > 0 && is_drive_seg(runs[0]) {
        runs.drop_first()
    } else {
        runs
    }
}

/// Executable mirror of [`match_segs`].
pub fn path_match_segs(v: &Vec<char>) -> (r: Vec<Vec<char>>)
    ensures
        r.deep_view() == match_segs(v@),
{
    let mut runs = split_path_runs(v);
    let ghost all = runs.deep_view();
    if runs.len() > 0 && runs[0].len() == 2 {
        let c = runs[0][0];
        if runs[0][1] == ':' && (('a' <= c && c <= 'z') || ('A' <= c && c <= 'Z')) {
            proof {
                assert(is_drive_seg(all[0]));
            }
            runs.remove(0);
            proof {
                assert(runs.deep_view() =~~= all.drop_first());
            }
            return runs;
        }
    }
    proof {
        if all.len() > 0 {
            assert(all[0] == runs@[0].deep_view());
            assert(all[0].len() == runs@[0]@.len());
        }
    }
    runs
}

} // verus!
