//! Character-level text utilities.
//!
//! The library does its string work over `Vec<char>`, whose view is the same
//! `Seq<char>` that `str` and `String` have, so contracts stated here carry
//! directly over to the `String`-typed public interface.

use vstd::prelude::*;

verus! {

/// The whitespace characters recognised when splitting text into words:
/// the ASCII spacing characters.  Text whose words are parted only by
/// other Unicode spacing characters reads as one word here.
pub open spec fn is_space(c: char) -> bool {
    c == ' ' || c == '\t' || c == '\n' || c == '\r' || c == '\u{b}' || c == '\u{c}'
}

/// Executable mirror of [`is_space`].
pub fn is_space_char(c: char) -> (r: bool)
    ensures
        r == is_space(c),
{
    c == ' ' || c == '\t' || c == '\n' || c == '\r' || c == '\u{b}' || c == '\u{c}'
}

/// ASCII lowering of one character; other characters pass through.
pub open spec fn lower_char(c: char) -> char {
    if 'A' <= c && c <= 'Z' {
        ((c as u8) + 32) as char
    } else {
        c
    }
}

/// ASCII lowering of a whole sequence.
pub open spec fn to_lower(s: Seq<char>) -> Seq<char> {
    s.map_values(|c: char| lower_char(c))
}

/// Case-insensitive equality, as the ASCII `eq_ignore_ascii_case` has it.
pub open spec fn eq_ignore_case(a: Seq<char>, b: Seq<char>) -> bool {
    to_lower(a) == to_lower(b)
}

/// `p` is a prefix of `s`.
pub open spec fn is_prefix(p: Seq<char>, s: Seq<char>) -> bool {
    p.len() <= s.len() && s.subrange(0, p.len() as int) == p
}

/// `n` occurs inside `s` starting at some position.
pub open spec fn is_substring(n: Seq<char>, s: Seq<char>) -> bool {
    exists|i: int| 0 <= i <= s.len() - n.len() && #[trigger] s.subrange(i, i + n.len()) == n
}

/// Leading whitespace removed.
pub open spec fn trim_start(s: Seq<char>) -> Seq<char>
    decreases s.len(),
{
    if s.len() > 0 && is_space(s[0]) {
        trim_start(s.drop_first())
    } else {
        s
    }
}

/// Trailing whitespace removed.
pub open spec fn trim_end(s: Seq<char>) -> Seq<char>
    decreases s.len(),
{
    if s.len() > 0 && is_space(s[s.len() - 1]) {
        trim_end(s.drop_last())
    } else {
        s
    }
}

/// Whitespace removed at both ends, as `str::trim` has it for ASCII text.
pub open spec fn trim_spec(s: Seq<char>) -> Seq<char> {
    trim_end(trim_start(s))
}

/// A sequence is blank when every character in it is whitespace.
pub open spec fn all_space(s: Seq<char>) -> bool {
    forall|i: int| 0 <= i < s.len() ==> is_space(#[trigger] s[i])
}

/// The longest whitespace-free prefix of `s`.
pub open spec fn take_word(s: Seq<char>) -> Seq<char>
    decreases s.len(),
{
    if s.len() == 0 || is_space(s[0]) {
        Seq::empty()
    } else {
        seq![s[0]] + take_word(s.drop_first())
    }
}

/// A word never outgrows its text, and starts non-empty on a non-space.
pub proof fn lemma_take_word_len(s: Seq<char>)
    ensures
        take_word(s).len() <= s.len(),
        s.len() > 0 && !is_space(s[0]) ==> take_word(s).len() >= 1,
    decreases s.len(),
{
    if s.len() > 0 && !is_space(s[0]) {
        lemma_take_word_len(s.drop_first());
    }
}

/// The words of `s`: maximal runs of non-whitespace characters, in order.
pub open spec fn words(s: Seq<char>) -> Seq<Seq<char>>
    decreases s.len(),
    via words_decreases
{
    if s.len() == 0 {
        Seq::empty()
    } else if is_space(s[0]) {
        words(s.drop_first())
    } else {
        seq![take_word(s)] + words(s.skip(take_word(s).len() as int))
    }
}

#[via_fn]
proof fn words_decreases(s: Seq<char>) {
    if s.len() > 0 && !is_space(s[0]) {
        lemma_take_word_len(s);
    }
}

/// The word taken from the front holds no whitespace.
pub proof fn lemma_take_word_wf(s: Seq<char>)
    ensures
        forall|i: int| 0 <= i < take_word(s).len() ==> !is_space(#[trigger] take_word(s)[i]),
    decreases s.len(),
{
    if s.len() > 0 && !is_space(s[0]) {
        lemma_take_word_wf(s.drop_first());
        assert forall|i: int| 0 <= i < take_word(s).len() implies !is_space(
            #[trigger] take_word(s)[i],
        ) by {
            if i > 0 {
                assert(take_word(s)[i] == take_word(s.drop_first())[i - 1]);
            }
        }
    }
}

/// Every word is non-empty and opens on a non-space character.
pub proof fn lemma_words_wf(s: Seq<char>)
    ensures
        forall|k: int|
            0 <= k < words(s).len() ==> (#[trigger] words(s)[k]).len() >= 1 && !is_space(
                words(s)[k][0],
            ),
    decreases s.len(),
{
    if s.len() == 0 {
    } else if is_space(s[0]) {
        lemma_words_wf(s.drop_first());
        assert(words(s) == words(s.drop_first()));
        assert forall|k: int|
            0 <= k < words(s).len() implies (#[trigger] words(s)[k]).len() >= 1 && !is_space(
            words(s)[k][0],
        ) by {
            assert(words(s)[k] == words(s.drop_first())[k]);
        }
    } else {
        lemma_take_word_len(s);
        lemma_take_word_wf(s);
        lemma_words_wf(s.skip(take_word(s).len() as int));
        assert forall|k: int|
            0 <= k < words(s).len() implies (#[trigger] words(s)[k]).len() >= 1 && !is_space(
            words(s)[k][0],
        ) by {
            if k == 0 {
                assert(words(s)[0] == take_word(s));
                assert(take_word(s) == seq![s[0]] + take_word(s.drop_first()));
                assert(take_word(s)[0] == s[0]);
            } else {
                assert(words(s)[k] == words(s.skip(take_word(s).len() as int))[k - 1]);
            }
        }
    }
}

/// Text that is all whitespace holds no words.
pub proof fn lemma_all_space_no_words(s: Seq<char>)
    requires
        all_space(s),
    ensures
        words(s).len() == 0,
    decreases s.len(),
{
    if s.len() > 0 {
        assert(is_space(s[0]));
        assert(all_space(s.drop_first()));
        lemma_all_space_no_words(s.drop_first());
    }
}

/// `parts` joined with the separator `sep` between consecutive parts.
pub open spec fn join_with(parts: Seq<Seq<char>>, sep: Seq<char>) -> Seq<char>
    decreases parts.len(),
{
    if parts.len() == 0 {
        Seq::empty()
    } else if parts.len() == 1 {
        parts[0]
    } else {
        parts[0] + sep + join_with(parts.drop_first(), sep)
    }
}

/// The decimal digit character for `d`.
pub open spec fn digit_char(d: int) -> char {
    [ '0', '1', '2', '3', '4', '5', '6', '7', '8', '9' ][d]
}

/// The decimal notation of `n`, most significant digit first.
pub open spec fn dec_str(n: int) -> Seq<char>
    decreases n,
{
    if n < 10 {
        seq![digit_char(if n < 0 { 0 } else { n })]
    } else {
        dec_str(n / 10) + seq![digit_char(n % 10)]
    }
}

/// Collect the characters of a string slice.
///
/// Relies on `str::chars` of std: the characters of the string in order.
#[verifier::external_body]
pub fn chars_vec(s: &str) -> (r: Vec<char>)
    ensures
        r@ == s@,
{
    s.chars().collect()
}

/// Build a `String` back from its characters.
///
/// Relies on `FromIterator<char> for String` of std: collecting characters
/// yields the string with exactly those characters in order.
#[verifier::external_body]
pub fn string_from_chars(v: &Vec<char>) -> (r: String)
    ensures
        r@ == v@,
{
    v.iter().collect()
}

/// ASCII-lowercase a character vector.
pub fn lower_chars(v: &Vec<char>) -> (r: Vec<char>)
    ensures
        r@ == to_lower(v@),
{
    let mut r: Vec<char> = Vec::new();
    let mut i: usize = 0;
    while i < v.len()
        invariant
            i <= v.len(),
            r@ =~= to_lower(v@.take(i as int)),
        decreases v.len() - i,
    {
        let c = v[i];
        if 'A' <= c && c <= 'Z' {
            r.push(((c as u8) + 32) as char);
        } else {
            r.push(c);
        }
        proof {
            assert(to_lower(v@.take(i + 1)) =~= to_lower(v@.take(i as int)) + seq![lower_char(v@[i as int])]);
        }
        i = i + 1;
    }
    proof {
        assert(v@.take(v@.len() as int) =~= v@);
    }
    r
}

/// Equality of two character vectors.
pub fn chars_eq(a: &Vec<char>, b: &Vec<char>) -> (r: bool)
    ensures
        r == (a@ == b@),
{
    if a.len() != b.len() {
        proof {
            assert(a@.len() != b@.len());
        }
        return false;
    }
    let mut i: usize = 0;
    while i < a.len()
        invariant
            i <= a.len(),
            a@.len() == b@.len(),
            forall|j: int| 0 <= j < i ==> a@[j] == b@[j],
        decreases a.len() - i,
    {
        if a[i] != b[i] {
            proof {
                assert(a@[i as int] != b@[i as int]);
            }
            return false;
        }
        i = i + 1;
    }
    proof {
        assert(a@ =~= b@);
    }
    true
}

/// Case-insensitive equality of two character vectors.
pub fn chars_eq_ignore_case(a: &Vec<char>, b: &Vec<char>) -> (r: bool)
    ensures
        r == eq_ignore_case(a@, b@),
{
    let la = lower_chars(a);
    let lb = lower_chars(b);
    chars_eq(&la, &lb)
}

/// Does `s` start with the prefix `p`?
pub fn chars_starts_with(s: &Vec<char>, p: &Vec<char>) -> (r: bool)
    ensures
        r == is_prefix(p@, s@),
{
    if p.len() > s.len() {
        return false;
    }
    let mut i: usize = 0;
    while i < p.len()
        invariant
            i <= p.len(),
            p@.len() <= s@.len(),
            forall|j: int| 0 <= j < i ==> s@[j] == p@[j],
        decreases p.len() - i,
    {
        if s[i] != p[i] {
            proof {
                assert(s@.subrange(0, p@.len() as int)[i as int] != p@[i as int]);
            }
            return false;
        }
        i = i + 1;
    }
    proof {
        assert(s@.subrange(0, p@.len() as int) =~= p@);
    }
    true
}

/// Does `n` stand at position `i` of `s`?
fn match_at(s: &Vec<char>, n: &Vec<char>, i: usize) -> (r: bool)
    requires
        i + n@.len() <= s@.len(),
    ensures
        r == (s@.subrange(i as int, i + n@.len()) == n@),
{
    let slen: usize = s.len();
    let mut k: usize = 0;
    while k < n.len()
        invariant
            i + n@.len() <= s@.len(),
            s@.len() == slen,
            k <= n@.len(),
            forall|j: int| 0 <= j < k ==> s@[i + j] == n@[j],
        decreases n.len() - k,
    {
        if s[i + k] != n[k] {
            proof {
                assert(s@.subrange(i as int, i + n@.len())[k as int] == s@[i + k]);
            }
            return false;
        }
        k = k + 1;
    }
    proof {
        assert(s@.subrange(i as int, i + n@.len()) =~= n@);
    }
    true
}

/// Does the needle `n` occur anywhere inside `s`?
pub fn chars_contains(s: &Vec<char>, n: &Vec<char>) -> (r: bool)
    ensures
        r == is_substring(n@, s@),
{
    if n.len() > s.len() {
        return false;
    }
    if n.len() == 0 {
        proof {
            assert(s@.subrange(0, 0 + n@.len() as int) =~= n@);
        }
        return true;
    }
    let last: usize = s.len() - n.len();
    let mut i: usize = 0;
    while i <= last
        invariant
            0 < n@.len() <= s@.len(),
            s@.len() <= usize::MAX,
            last == s@.len() - n@.len(),
            i <= last + 1,
            forall|j: int| 0 <= j < i ==> #[trigger] s@.subrange(j, j + n@.len()) != n@,
        decreases last + 1 - i,
    {
        if match_at(s, n, i) {
            return true;
        }
        i = i + 1;
    }
    false
}

/// Index just past the leading whitespace.
fn start_trim_index(v: &Vec<char>) -> (i: usize)
    ensures
        i <= v@.len(),
        trim_start(v@) == v@.skip(i as int),
        forall|j: int| 0 <= j < i ==> is_space(#[trigger] v@[j]),
{
    proof {
        assert(v@.skip(0) =~= v@);
    }
    let mut i: usize = 0;
    while i < v.len() && is_space_char(v[i])
        invariant
            i <= v@.len(),
            trim_start(v@) == trim_start(v@.skip(i as int)),
            forall|j: int| 0 <= j < i ==> is_space(#[trigger] v@[j]),
        decreases v.len() - i,
    {
        proof {
            assert(v@.skip(i as int).drop_first() =~= v@.skip(i + 1));
        }
        i = i + 1;
    }
    proof {
        if i < v@.len() {
            assert(!is_space(v@.skip(i as int)[0]));
        }
        assert(trim_start(v@.skip(i as int)) == v@.skip(i as int));
    }
    i
}

/// Index of the end of text once trailing whitespace is dropped.
fn end_trim_index(v: &Vec<char>, start: usize) -> (e: usize)
    requires
        start <= v@.len(),
        forall|j: int| 0 <= j < start ==> is_space(#[trigger] v@[j]),
    ensures
        start <= e <= v@.len(),
        trim_end(v@.skip(start as int)) == v@.subrange(start as int, e as int),
{
    let mut e: usize = v.len();
    while e > start && is_space_char(v[e - 1])
        invariant
            start <= e <= v@.len(),
            trim_end(v@.skip(start as int)) == trim_end(v@.subrange(start as int, e as int)),
        decreases e,
    {
        proof {
            assert(v@.subrange(start as int, e as int).drop_last() =~= v@.subrange(start as int, e - 1));
        }
        e = e - 1;
    }
    proof {
        let cur = v@.subrange(start as int, e as int);
        if e > start {
            assert(!is_space(cur[cur.len() - 1]));
        }
        assert(trim_end(cur) == cur);
    }
    e
}

/// Whitespace stripped from both ends, as `str::trim` does for ASCII text.
pub fn trim_chars(v: &Vec<char>) -> (r: Vec<char>)
    ensures
        r@ == trim_spec(v@),
{
    let s = start_trim_index(v);
    let e = end_trim_index(v, s);
    let mut r: Vec<char> = Vec::new();
    let mut i: usize = s;
    while i < e
        invariant
            s <= i <= e <= v@.len(),
            r@ =~= v@.subrange(s as int, i as int),
        decreases e - i,
    {
        r.push(v[i]);
        proof {
            assert(v@.subrange(s as int, i + 1) =~= v@.subrange(s as int, i as int) + seq![v@[i as int]]);
        }
        i = i + 1;
    }
    proof {
        assert(r@ =~= v@.subrange(s as int, e as int));
    }
    r
}

/// Is the text blank, that is, empty once trimmed?
pub fn is_blank(v: &Vec<char>) -> (r: bool)
    ensures
        r == all_space(v@),
{
    let mut i: usize = 0;
    while i < v.len()
        invariant
            i <= v@.len(),
            forall|j: int| 0 <= j < i ==> is_space(#[trigger] v@[j]),
        decreases v.len() - i,
    {
        if !is_space_char(v[i]) {
            return false;
        }
        i = i + 1;
    }
    true
}

/// Append every character of `src` onto `dst`.
pub fn push_all(dst: &mut Vec<char>, src: &Vec<char>)
    ensures
        final(dst)@ == old(dst)@ + src@,
{
    let mut i: usize = 0;
    while i < src.len()
        invariant
            i <= src@.len(),
            dst@ =~= old(dst)@ + src@.take(i as int),
        decreases src.len() - i,
    {
        dst.push(src[i]);
        proof {
            assert(src@.take(i + 1) =~= src@.take(i as int) + seq![src@[i as int]]);
        }
        i = i + 1;
    }
    proof {
        assert(src@.take(src@.len() as int) =~= src@);
    }
}

/// A join of non-empty parts with a non-empty separator runs at least
/// two characters per part but one, and opens on the first part's first
/// character.
pub proof fn lemma_join_with_len(parts: Seq<Seq<char>>, sep: Seq<char>)
    requires
        parts.len() >= 1,
        sep.len() >= 1,
        forall|k: int| 0 <= k < parts.len() ==> (#[trigger] parts[k]).len() >= 1,
    ensures
        join_with(parts, sep).len() >= 2 * parts.len() - 1,
        join_with(parts, sep)[0] == parts[0][0],
    decreases parts.len(),
{
    if parts.len() == 1 {
    } else {
        assert(forall|k: int|
            0 <= k < parts.drop_first().len() ==> (#[trigger] parts.drop_first()[k]).len() >= 1);
        lemma_join_with_len(parts.drop_first(), sep);
        assert(join_with(parts, sep) == parts[0] + sep + join_with(parts.drop_first(), sep));
        assert(join_with(parts, sep)[0] == parts[0][0]);
    }
}

/// Joining one more part onto a non-empty join keeps the shape
/// `joined + sep + part`.
proof fn lemma_join_with_push(parts: Seq<Seq<char>>, sep: Seq<char>, part: Seq<char>)
    requires
        parts.len() >= 1,
    ensures
        join_with(parts.push(part), sep) == join_with(parts, sep) + sep + part,
    decreases parts.len(),
{
    let p2 = parts.push(part);
    if parts.len() == 1 {
        assert(p2.drop_first() =~= seq![part]);
        assert(join_with(p2.drop_first(), sep) == part);
        assert(p2[0] == parts[0]);
    } else {
        lemma_join_with_push(parts.drop_first(), sep, part);
        assert(p2.drop_first() =~= parts.drop_first().push(part));
        assert(p2[0] == parts[0]);
        assert(p2[0] + sep + (join_with(parts.drop_first(), sep) + sep + part) =~= (parts[0] + sep + join_with(parts.drop_first(), sep)) + sep + part);
    }
}

/// Join character vectors with a separator.
pub fn join_chars(parts: &Vec<Vec<char>>, sep: &Vec<char>) -> (r: Vec<char>)
    ensures
        r@ == join_with(parts.deep_view(), sep@),
{
    let mut r: Vec<char> = Vec::new();
    let mut i: usize = 0;
    while i < parts.len()
        invariant
            i <= parts@.len(),
            r@ == join_with(parts.deep_view().take(i as int), sep@),
        decreases parts.len() - i,
    {
        if i > 0 {
            push_all(&mut r, sep);
            let ghost before = parts.deep_view().take(i as int);
            proof {
                lemma_join_with_push(before, sep@, parts.deep_view()[i as int]);
            }
        } else {
            proof {
                assert(parts.deep_view().take(1) =~= seq![parts.deep_view()[0]]);
            }
        }
        push_all(&mut r, &parts[i]);
        proof {
            assert(parts.deep_view().take(i + 1) =~= parts.deep_view().take(i as int).push(parts.deep_view()[i as int]));
        }
        i = i + 1;
    }
    proof {
        assert(parts.deep_view().take(parts.deep_view().len() as int) =~= parts.deep_view());
    }
    r
}

/// Copy the characters of `v` between `i` and `j`.
pub fn copy_range(v: &Vec<char>, i: usize, j: usize) -> (r: Vec<char>)
    requires
        i <= j <= v@.len(),
    ensures
        r@ == v@.subrange(i as int, j as int),
{
    let mut r: Vec<char> = Vec::new();
    let mut k: usize = i;
    while k < j
        invariant
            i <= k <= j <= v@.len(),
            r@ =~= v@.subrange(i as int, k as int),
        decreases j - k,
    {
        r.push(v[k]);
        proof {
            assert(v@.subrange(i as int, k + 1) =~= v@.subrange(i as int, k as int) + seq![v@[k as int]]);
        }
        k = k + 1;
    }
    r
}

/// A run of `k` non-space characters closed off by the end of text or a
/// space is exactly the word taken from the front.
proof fn lemma_take_word_exact(s: Seq<char>, k: int)
    requires
        0 <= k <= s.len(),
        forall|j: int| 0 <= j < k ==> !is_space(#[trigger] s[j]),
        k == s.len() || is_space(s[k]),
    ensures
        take_word(s) =~= s.subrange(0, k),
    decreases k,
{
    if k == 0 {
        if s.len() > 0 {
            assert(is_space(s[0]));
        }
    } else {
        lemma_take_word_exact(s.drop_first(), k - 1);
        assert(s.drop_first().subrange(0, k - 1) =~= s.subrange(1, k));
        assert(take_word(s) =~= seq![s[0]] + s.subrange(1, k));
    }
}

/// Split off the words of `v` from position `i` on.
fn words_from(v: &Vec<char>, i: usize) -> (r: Vec<Vec<char>>)
    requires
        i <= v@.len(),
    ensures
        r.deep_view() == words(v@.skip(i as int)),
    decreases v@.len() - i,
{
    if i == v.len() {
        let r: Vec<Vec<char>> = Vec::new();
        proof {
            assert(v@.skip(i as int) =~= Seq::<char>::empty());
            assert(r.deep_view() =~= words(v@.skip(i as int)));
        }
        r
    } else if is_space_char(v[i]) {
        proof {
            assert(v@.skip(i as int).drop_first() =~= v@.skip(i + 1));
        }
        words_from(v, i + 1)
    } else {
        let ghost tail = v@.skip(i as int);
        let mut j: usize = i + 1;
        while j < v.len() && !is_space_char(v[j])
            invariant
                i < j <= v@.len(),
                forall|q: int| i <= q < j ==> !is_space(#[trigger] v@[q]),
            decreases v.len() - j,
        {
            j = j + 1;
        }
        let word = copy_range(v, i, j);
        proof {
            assert(forall|q: int| 0 <= q < j - i ==> !is_space(#[trigger] tail[q]));
            if j < v@.len() {
                assert(is_space(tail[j - i]));
            }
            lemma_take_word_exact(tail, j - i);
            assert(take_word(tail) =~= word@);
            assert(tail.skip(take_word(tail).len() as int) =~= v@.skip(j as int));
        }
        let ghost rest_view = words(v@.skip(j as int));
        let mut r = words_from(v, j);
        r.insert(0, word);
        proof {
            assert(r.deep_view() =~~= seq![take_word(tail)] + rest_view);
        }
        r
    }
}

/// Split text into its whitespace-separated words.
pub fn split_words(v: &Vec<char>) -> (r: Vec<Vec<char>>)
    ensures
        r.deep_view() == words(v@),
{
    proof {
        assert(v@.skip(0) =~= v@);
    }
    words_from(v, 0)
}

/// Lexicographic order on character strings, by code point; a prefix
/// precedes every extension of itself.
pub open spec fn lex_le(a: Seq<char>, b: Seq<char>) -> bool
    decreases a.len(),
{
    if a.len() == 0 {
        true
    } else if b.len() == 0 {
        false
    } else if a[0] == b[0] {
        lex_le(a.drop_first(), b.drop_first())
    } else {
        a[0] < b[0]
    }
}

/// Compare two character vectors lexicographically.
pub fn chars_lex_le(a: &Vec<char>, b: &Vec<char>) -> (r: bool)
    ensures
        r == lex_le(a@, b@),
{
    let mut i: usize = 0;
    proof {
        assert(a@.skip(0) =~= a@);
        assert(b@.skip(0) =~= b@);
    }
    while i < a.len() && i < b.len()
        invariant
            i <= a@.len(),
            i <= b@.len(),
            lex_le(a@, b@) == lex_le(a@.skip(i as int), b@.skip(i as int)),
        decreases a.len() - i,
    {
        if a[i] != b[i] {
            proof {
                assert(a@.skip(i as int)[0] == a@[i as int]);
                assert(b@.skip(i as int)[0] == b@[i as int]);
            }
            return a[i] < b[i];
        }
        proof {
            assert(a@.skip(i as int)[0] == a@[i as int]);
            assert(b@.skip(i as int)[0] == b@[i as int]);
            assert(a@.skip(i as int).drop_first() =~= a@.skip(i + 1));
            assert(b@.skip(i as int).drop_first() =~= b@.skip(i + 1));
        }
        i = i + 1;
    }
    proof {
        if i == a@.len() {
            assert(a@.skip(i as int) =~= Seq::<char>::empty());
        } else {
            assert(b@.skip(i as int) =~= Seq::<char>::empty());
            assert(a@.skip(i as int).len() > 0);
        }
    }
    i == a.len()
}

/// The decimal notation of `n`.
pub fn dec_chars(n: u64) -> (r: Vec<char>)
    ensures
        r@ == dec_str(n as int),
    decreases n,
{
    let digits: [char; 10] = [ '0', '1', '2', '3', '4', '5', '6', '7', '8', '9' ];
    if n < 10 {
        let mut r: Vec<char> = Vec::new();
        r.push(digits[n as usize]);
        proof {
            assert(r@ =~= seq![digit_char(n as int)]);
        }
        r
    } else {
        let mut r = dec_chars(n / 10);
        r.push(digits[(n % 10) as usize]);
        proof {
            assert(r@ =~= dec_str(n as int / 10) + seq![digit_char(n as int % 10)]);
        }
        r
    }
}

} // verus!
