//! Text units for embedding: word-windowed content chunks and the per-file
//! metadata descriptor.

use vstd::prelude::*;
use crate::paths::{drive_of, extension_of, file_name_of, has_drive, is_sep, match_segs, name_extension, name_stem, path_file_name, path_match_segs, stem_of_name};
use crate::text::{chars_vec, copy_range, join_chars, join_with, push_all, split_words, string_from_chars, words};

verus! {

/// A content chunk must serialise to more than this many characters to be
/// kept; shorter chunks are treated as noise.
pub const MIN_CHUNK_CHARS: usize = 50;

/// The groups a word list falls into: `k` words at a time, joined with
/// single spaces, keeping only groups longer than [`MIN_CHUNK_CHARS`].
pub open spec fn chunks_of(ws: Seq<Seq<char>>, k: int) -> Seq<Seq<char>>
    decreases ws.len(),
    when k >= 1
{
    if ws.len() == 0 {
        Seq::empty()
    } else {
        let m = if ws.len() < k {
            ws.len() as int
        } else {
            k
        };
        let g = join_with(ws.take(m), " "@);
        let rest = chunks_of(ws.skip(m), k);
        if g.len() > MIN_CHUNK_CHARS as int {
            seq![g] + rest
        } else {
            rest
        }
    }
}

/// Split text into chunks of at most `max_words` whitespace-separated
/// words, dropping any chunk of [`MIN_CHUNK_CHARS`] characters or fewer.
pub fn chunk_text(text: &str, max_words: usize) -> (r: Vec<String>)
    requires
        max_words >= 1,
    ensures
        r.deep_view() == chunks_of(words(text@), max_words as int),
{
    let t = chars_vec(text);
    let ws = split_words(&t);
    let ghost wv = words(text@);
    let sep = chars_vec(" ");
    let mut r: Vec<String> = Vec::new();
    proof {
        assert(wv.skip(0) =~= wv);
        assert(Seq::<Seq<char>>::empty() + chunks_of(wv, max_words as int) =~= chunks_of(wv, max_words as int));
    }
    let mut i: usize = 0;
    while i < ws.len()
        invariant
            i <= ws@.len(),
            ws.deep_view() == wv,
            sep@ == " "@,
            max_words >= 1,
            r.deep_view() + chunks_of(wv.skip(i as int), max_words as int) =~~= chunks_of(wv, max_words as int),
        decreases ws.len() - i,
    {
        let m: usize = if ws.len() - i < max_words {
            ws.len() - i
        } else {
            max_words
        };
        let mut group: Vec<Vec<char>> = Vec::new();
        let end: usize = i + m;
        let mut q: usize = i;
        while q < end
            invariant
                i <= q <= end,
                end == i + m,
                i + m <= ws@.len(),
                ws.deep_view() == wv,
                group.deep_view() =~~= wv.subrange(i as int, q as int),
            decreases end - q,
        {
            let word = copy_range(&ws[q], 0, ws[q].len());
            proof {
                assert(word@ =~= wv[q as int]);
                assert(wv.subrange(i as int, q + 1) =~= wv.subrange(i as int, q as int).push(wv[q as int]));
                assert(group.deep_view().push(word@) =~~= wv.subrange(i as int, q + 1));
            }
            group.push(word);
            q = q + 1;
        }
        let joined = join_chars(&group, &sep);
        let ghost tail = wv.skip(i as int);
        proof {
            assert(tail.take(m as int) =~= wv.subrange(i as int, i + m));
            assert(tail.skip(m as int) =~= wv.skip(i + m));
            assert(joined@ == join_with(tail.take(m as int), " "@));
        }
        let ghost before = r.deep_view();
        if joined.len() > MIN_CHUNK_CHARS {
            r.push(string_from_chars(&joined));
            proof {
                assert(r.deep_view() =~~= before.push(joined@));
            }
        }
        proof {
            assert(chunks_of(tail, max_words as int) == (if joined@.len() > MIN_CHUNK_CHARS as int {
                seq![joined@] + chunks_of(wv.skip(i + m), max_words as int)
            } else {
                chunks_of(wv.skip(i + m), max_words as int)
            }));
            assert(r.deep_view() + chunks_of(wv.skip(i + m), max_words as int) =~~= chunks_of(wv, max_words as int));
        }
        i = i + m;
    }
    proof {
        assert(wv.skip(wv.len() as int) =~= Seq::<Seq<char>>::empty());
        assert(r.deep_view() + chunks_of(wv.skip(wv.len() as int), max_words as int) =~~= r.deep_view());
    }
    r
}

/// Is there a root separator right after the drive prefix (or at the very
/// start, when there is no drive)?
pub open spec fn has_root(p: Seq<char>) -> bool {
    if has_drive(p) {
        p.len() > 2 && is_sep(p[2])
    } else {
        p.len() > 0 && is_sep(p[0])
    }
}

/// The folder chain above a file, as the metadata descriptor lists it: a
/// `drive_X:` entry for the drive, a `root` entry for an absolute path,
/// then every folder name on the way down, without the file itself.
pub open spec fn parent_parts_of(p: Seq<char>) -> Seq<Seq<char>> {
    let drive_part: Seq<Seq<char>> = if has_drive(p) {
        seq!["drive_"@ + p.subrange(0, 2)]
    } else {
        Seq::empty()
    };
    let root_part: Seq<Seq<char>> = if has_root(p) {
        seq!["root"@]
    } else {
        Seq::empty()
    };
    let segs = match_segs(p);
    let folders = if segs.len() > 0 {
        segs.drop_last()
    } else {
        segs
    };
    drive_part + root_part + folders
}

/// The last entry of the folder chain, or nothing for a bare file name.
pub open spec fn immediate_parent_of(p: Seq<char>) -> Seq<char> {
    let parts = parent_parts_of(p);
    if parts.len() > 0 {
        parts[parts.len() - 1]
    } else {
        Seq::empty()
    }
}

/// The metadata descriptor of a file: name, stem, extension, full path,
/// immediate parent, the folder chain joined with ` > `, and the drive.
pub open spec fn meta_string_of(p: Seq<char>) -> Seq<char> {
    let name = file_name_of(p);
    "filename: "@ + name + " stem: "@ + stem_of_name(name) + " extension: "@ + extension_of(p)
        + " path: "@ + p + " parent_folder: "@ + immediate_parent_of(p) + " folder_hierarchy: "@
        + join_with(parent_parts_of(p), " > "@) + " drive: "@ + drive_of(p)
}

/// Build the folder chain of [`parent_parts_of`].
fn parent_parts(p: &Vec<char>) -> (r: Vec<Vec<char>>)
    ensures
        r.deep_view() == parent_parts_of(p@),
{
    let mut parts: Vec<Vec<char>> = Vec::new();
    let mut has_drive_prefix: bool = false;
    if p.len() >= 2 && p[1] == ':' {
        let c = p[0];
        if ('a' <= c && c <= 'z') || ('A' <= c && c <= 'Z') {
            has_drive_prefix = true;
            let mut d = chars_vec("drive_");
            let prefix = copy_range(p, 0, 2);
            push_all(&mut d, &prefix);
            parts.push(d);
        }
    }
    proof {
        assert(has_drive_prefix == has_drive(p@));
    }
    let root_pos: usize = if has_drive_prefix {
        2
    } else {
        0
    };
    if root_pos < p.len() {
        let c = p[root_pos];
        if c == '/' || c == '\\' {
            parts.push(chars_vec("root"));
        }
    }
    let ghost head = parts.deep_view();
    proof {
        let drive_part: Seq<Seq<char>> = if has_drive(p@) {
            seq!["drive_"@ + p@.subrange(0, 2)]
        } else {
            Seq::<Seq<char>>::empty()
        };
        let root_part: Seq<Seq<char>> = if has_root(p@) {
            seq!["root"@]
        } else {
            Seq::<Seq<char>>::empty()
        };
        assert(head =~~= drive_part + root_part);
    }
    let mut segs = path_match_segs(p);
    let ghost all_segs = segs.deep_view();
    if segs.len() > 0 {
        let _last = segs.pop();
        proof {
            assert(segs.deep_view() =~~= all_segs.drop_last());
        }
    }
    let ghost folders = segs.deep_view();
    let mut k: usize = 0;
    while k < segs.len()
        invariant
            k <= segs@.len(),
            segs.deep_view() == folders,
            parts.deep_view() =~~= head + folders.take(k as int),
        decreases segs.len() - k,
    {
        let seg = copy_range(&segs[k], 0, segs[k].len());
        proof {
            assert(seg@ =~= folders[k as int]);
            assert(folders.take(k + 1) =~= folders.take(k as int).push(folders[k as int]));
            assert(parts.deep_view().push(seg@) =~~= head + folders.take(k + 1));
        }
        parts.push(seg);
        k = k + 1;
    }
    proof {
        assert(folders.take(folders.len() as int) =~= folders);
        assert(parts.deep_view() =~~= parent_parts_of(p@));
    }
    parts
}

/// Build the metadata descriptor string for one file path.
pub fn create_metadata_string(path_str: &str) -> (r: String)
    ensures
        r@ == meta_string_of(path_str@),
{
    let p = chars_vec(path_str);
    let name = path_file_name(&p);
    let stem = name_stem(&name);
    let ext = name_extension(&name);
    proof {
        assert(ext@ == extension_of(p@));
    }
    let parts = parent_parts(&p);
    let sep = chars_vec(" > ");
    let hierarchy = join_chars(&parts, &sep);
    let immediate: Vec<char> = if parts.len() > 0 {
        let last = &parts[parts.len() - 1];
        let r = copy_range(last, 0, last.len());
        proof {
            assert(r@ =~= parent_parts_of(p@)[parent_parts_of(p@).len() - 1]);
        }
        r
    } else {
        Vec::new()
    };
    let drive = crate::paths::extract_drive(path_str);

    let mut out = chars_vec("filename: ");
    push_all(&mut out, &name);
    let t_stem = chars_vec(" stem: ");
    push_all(&mut out, &t_stem);
    push_all(&mut out, &stem);
    let t_ext = chars_vec(" extension: ");
    push_all(&mut out, &t_ext);
    push_all(&mut out, &ext);
    let t_path = chars_vec(" path: ");
    push_all(&mut out, &t_path);
    push_all(&mut out, &p);
    let t_parent = chars_vec(" parent_folder: ");
    push_all(&mut out, &t_parent);
    push_all(&mut out, &immediate);
    let t_hier = chars_vec(" folder_hierarchy: ");
    push_all(&mut out, &t_hier);
    push_all(&mut out, &hierarchy);
    let t_drive = chars_vec(" drive: ");
    push_all(&mut out, &t_drive);
    let drive_chars = chars_vec(drive.as_str());
    push_all(&mut out, &drive_chars);
    string_from_chars(&out)
}

} // verus!
