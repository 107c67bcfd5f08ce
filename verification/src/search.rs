//! Search results, query analysis, and the multi-prong merge.
//!
//! Relevances are integer thousandths of a point, so the weighting and
//! hybrid-boost rules are exact.  Prong weights are a configurable table
//! chosen by query intent; only "higher weight, higher influence" is meant
//! to carry meaning.

use vstd::prelude::*;
use crate::paths::{file_name_of, parent_path, parent_path_of, path_file_name};
use crate::store::{FileRow, FolderRow, IndexStore};
use crate::text::{chars_contains, chars_eq, chars_eq_ignore_case, chars_vec, copy_range, eq_ignore_case, dec_chars, dec_str, is_substring, join_chars, join_with, lower_chars, push_all, split_words, string_from_chars, to_lower, words};

verus! {

/// No prong result may claim a relevance above this many thousandths.
pub const MAX_INPUT_RELEVANCE: i64 = 1000000000;

/// No prong may hand the merge more results than this.
pub const MAX_PRONG_RESULTS: usize = 1000000;

/// One merge step can raise a result's relevance by at most this much.
pub const MERGE_STEP_BOUND: i64 = 2000000000;

/// How a search result matched: by vector similarity, by text relevance,
/// or by both (a hybrid match), with the raw prong scores inside.
#[derive(Clone, Copy, Debug, PartialEq, Eq, Structural)]
pub enum SearchMatchType {
    Vector(i64),
    Text(i64),
    Hybrid(i64, i64),
}

/// One ranked search result.  `relevance_milli` is in thousandths.
pub struct SearchResult {
    pub id: String,
    pub result_type: String,
    pub title: String,
    pub path: String,
    pub relevance_milli: i64,
    pub match_type: SearchMatchType,
    pub snippet: Option<String>,
}

/// Explicit filters a search can carry beside its text.
pub struct SearchFilters {
    pub extensions: Option<Vec<String>>,
    pub date_from: Option<String>,
    pub date_to: Option<String>,
    pub min_size: Option<usize>,
    pub max_size: Option<usize>,
}

/// Every filter field is empty.
pub open spec fn filters_empty(f: SearchFilters) -> bool {
    &&& f.extensions is None
    &&& f.date_from is None
    &&& f.date_to is None
    &&& f.min_size is None
    &&& f.max_size is None
}

impl Default for SearchFilters {
    /// The neutral filter set: nothing is constrained.
    fn default() -> (r: Self)
        ensures
            filters_empty(r),
    {
        SearchFilters { extensions: None, date_from: None, date_to: None, min_size: None, max_size: None }
    }
}

/// What kind of query the user typed, by lexical heuristics.  The full
/// intent taxonomy also distinguishes recent-activity, file-type,
/// author, folder and date-based queries; only the two lexical classes
/// below have settled heuristics and weight tables, so the others would
/// be guesses.  Growing the set means adding a variant here, a row to
/// the weight table, and its cue to [`classify_intent`].
#[derive(Clone, Copy, Debug, PartialEq, Eq, Structural)]
pub enum SearchIntent {
    KeywordBased,
    NaturalLanguage,
}

/// The prong-weight table one intent selects, in thousandths, with the
/// boost applied to a prong's contribution when it lands on a result some
/// earlier prong already found.
pub struct Weights {
    pub semantic_milli: u32,
    pub keyword_milli: u32,
    pub folder_milli: u32,
    pub metadata_milli: u32,
    pub hybrid_boost_milli: u32,
}

/// A query is keyword-like when it quotes text or runs under four words.
pub open spec fn intent_of(query: Seq<char>) -> SearchIntent {
    if is_substring("\""@, query) || words(query).len() < 4 {
        SearchIntent::KeywordBased
    } else {
        SearchIntent::NaturalLanguage
    }
}

/// Classify a query's intent from its text alone.
pub fn classify_intent(query: &str) -> (r: SearchIntent)
    ensures
        r == intent_of(query@),
{
    let q = chars_vec(query);
    let quote = chars_vec("\"");
    if chars_contains(&q, &quote) {
        return SearchIntent::KeywordBased;
    }
    let ws = split_words(&q);
    proof {
        assert(ws.deep_view().len() == words(query@).len());
    }
    if ws.len() < 4 {
        SearchIntent::KeywordBased
    } else {
        SearchIntent::NaturalLanguage
    }
}

/// A decimal digit.
pub open spec fn is_digit(c: char) -> bool {
    '0' <= c && c <= '9'
}

/// A date token, written `YYYY-MM-DD`.
pub open spec fn is_date_token(w: Seq<char>) -> bool {
    &&& w.len() == 10
    &&& is_digit(w[0])
    &&& is_digit(w[1])
    &&& is_digit(w[2])
    &&& is_digit(w[3])
    &&& w[4] == '-'
    &&& is_digit(w[5])
    &&& is_digit(w[6])
    &&& w[7] == '-'
    &&& is_digit(w[8])
    &&& is_digit(w[9])
}

/// An extension keyword: a leading dot followed by a non-empty, dot-free
/// rest, as in `.pdf`.
pub open spec fn is_ext_token(w: Seq<char>) -> bool {
    w.len() >= 2 && w[0] == '.' && (forall|i: int| 1 <= i < w.len() ==> w[i] != '.')
}

/// The word `from`, in any letter case.
pub open spec fn is_from_token(w: Seq<char>) -> bool {
    to_lower(w) == "from"@
}

/// The word `to`, in any letter case.
pub open spec fn is_to_token(w: Seq<char>) -> bool {
    to_lower(w) == "to"@
}

/// The first of two optional values that is present.
pub open spec fn first_some(a: Option<Seq<char>>, b: Option<Seq<char>>) -> Option<Seq<char>> {
    if a is Some {
        a
    } else {
        b
    }
}

/// The view of an optional string.
pub open spec fn opt_view(o: Option<String>) -> Option<Seq<char>> {
    match o {
        Option::Some(s) => Option::Some(s@),
        Option::None => Option::None,
    }
}

/// Parse a query's words: extension keywords and `from DATE` / `to DATE`
/// pairs leave the term and land in the filters; everything else stays a
/// term word.  Of several `from` (or `to`) dates the first one counts,
/// though every such pair is consumed.  The result is (term words,
/// extension values without their dot, date_from, date_to).
pub open spec fn parse_tokens(ws: Seq<Seq<char>>) -> (
    Seq<Seq<char>>,
    Seq<Seq<char>>,
    Option<Seq<char>>,
    Option<Seq<char>>,
)
    decreases ws.len(),
{
    if ws.len() == 0 {
        (Seq::empty(), Seq::empty(), Option::None, Option::None)
    } else if is_ext_token(ws[0]) {
        let r = parse_tokens(ws.drop_first());
        (r.0, seq![ws[0].skip(1)] + r.1, r.2, r.3)
    } else if is_from_token(ws[0]) && ws.len() >= 2 && is_date_token(ws[1]) {
        let r = parse_tokens(ws.skip(2));
        (r.0, r.1, Option::Some(ws[1]), r.3)
    } else if is_to_token(ws[0]) && ws.len() >= 2 && is_date_token(ws[1]) {
        let r = parse_tokens(ws.skip(2));
        (r.0, r.1, r.2, Option::Some(ws[1]))
    } else {
        let r = parse_tokens(ws.drop_first());
        (seq![ws[0]] + r.0, r.1, r.2, r.3)
    }
}

/// Is the word a `YYYY-MM-DD` date?
fn is_date_word(w: &Vec<char>) -> (r: bool)
    ensures
        r == is_date_token(w@),
{
    if w.len() != 10 {
        return false;
    }
    ('0' <= w[0] && w[0] <= '9') && ('0' <= w[1] && w[1] <= '9') && ('0' <= w[2] && w[2] <= '9')
        && ('0' <= w[3] && w[3] <= '9') && w[4] == '-' && ('0' <= w[5] && w[5] <= '9')
        && ('0' <= w[6] && w[6] <= '9') && w[7] == '-' && ('0' <= w[8] && w[8] <= '9')
        && ('0' <= w[9] && w[9] <= '9')
}

/// Is the word an extension keyword such as `.pdf`?
fn is_ext_word(w: &Vec<char>) -> (r: bool)
    ensures
        r == is_ext_token(w@),
{
    if w.len() < 2 || w[0] != '.' {
        return false;
    }
    let mut i: usize = 1;
    while i < w.len()
        invariant
            1 <= i <= w@.len(),
            forall|j: int| 1 <= j < i ==> w@[j] != '.',
        decreases w.len() - i,
    {
        if w[i] == '.' {
            return false;
        }
        i = i + 1;
    }
    true
}

/// Does the word spell the literal, in any letter case?
fn word_is_ci(w: &Vec<char>, lit: &str) -> (r: bool)
    ensures
        r == (to_lower(w@) == lit@),
{
    let lower = lower_chars(w);
    let l = chars_vec(lit);
    chars_eq(&lower, &l)
}

/// Split a query into its search term and explicit filters: extension
/// keywords (`.pdf`) and `from YYYY-MM-DD` / `to YYYY-MM-DD` pairs are
/// parsed out of the text into the filter object, and the words that
/// remain, joined by single spaces, are the search term.  Size filters
/// have no query syntax and come back unconstrained.
pub fn parse_query(query: &str) -> (r: (String, SearchFilters))
    ensures
        ({
            let p = parse_tokens(words(query@));
            &&& r.0@ == join_with(p.0, " "@)
            &&& (match r.1.extensions {
                Option::Some(v) => p.1.len() > 0 && v.deep_view() == p.1,
                Option::None => p.1.len() == 0,
            })
            &&& opt_view(r.1.date_from) == p.2
            &&& opt_view(r.1.date_to) == p.3
            &&& r.1.min_size is None
            &&& r.1.max_size is None
        }),
{
    let q = chars_vec(query);
    let ws = split_words(&q);
    let ghost wv = words(query@);
    let mut remaining: Vec<Vec<char>> = Vec::new();
    let mut exts: Vec<String> = Vec::new();
    let mut date_from: Option<String> = None;
    let mut date_to: Option<String> = None;
    let mut i: usize = 0;
    proof {
        assert(wv.skip(0) =~= wv);
        assert(parse_tokens(wv).0 =~= remaining.deep_view() + parse_tokens(wv.skip(0)).0);
        assert(parse_tokens(wv).1 =~= exts.deep_view() + parse_tokens(wv.skip(0)).1);
    }
    while i < ws.len()
        invariant
            i <= wv.len(),
            ws.deep_view() == wv,
            parse_tokens(wv).0 =~~= remaining.deep_view() + parse_tokens(wv.skip(i as int)).0,
            parse_tokens(wv).1 =~~= exts.deep_view() + parse_tokens(wv.skip(i as int)).1,
            parse_tokens(wv).2 == first_some(opt_view(date_from), parse_tokens(wv.skip(i as int)).2),
            parse_tokens(wv).3 == first_some(opt_view(date_to), parse_tokens(wv.skip(i as int)).3),
        decreases ws.len() - i,
    {
        let w = &ws[i];
        proof {
            assert(w@ =~= wv[i as int]);
            assert(wv.skip(i as int)[0] == wv[i as int]);
            assert(wv.skip(i as int).drop_first() =~= wv.skip(i + 1));
        }
        if is_ext_word(w) {
            let value = copy_range(w, 1, w.len());
            proof {
                assert(value@ =~= wv[i as int].skip(1));
            }
            let ghost before = exts.deep_view();
            exts.push(string_from_chars(&value));
            proof {
                assert(exts.deep_view() =~~= before.push(wv[i as int].skip(1)));
            }
            i = i + 1;
        } else {
            let next_is_date: bool = i + 1 < ws.len() && is_date_word(&ws[i + 1]);
            proof {
                if i + 1 < wv.len() {
                    assert(ws@[i + 1]@ =~= wv[i + 1]);
                    assert(wv.skip(i as int)[1] == wv[i + 1]);
                }
            }
            if next_is_date && word_is_ci(w, "from") {
                proof {
                    assert(wv.skip(i as int).skip(2) =~= wv.skip(i + 2));
                }
                if date_from.is_none() {
                    let d = copy_range(&ws[i + 1], 0, ws[i + 1].len());
                    proof {
                        assert(d@ =~= wv[i + 1]);
                    }
                    date_from = Some(string_from_chars(&d));
                }
                i = i + 2;
            } else if next_is_date && word_is_ci(w, "to") {
                proof {
                    assert(wv.skip(i as int).skip(2) =~= wv.skip(i + 2));
                }
                if date_to.is_none() {
                    let d = copy_range(&ws[i + 1], 0, ws[i + 1].len());
                    proof {
                        assert(d@ =~= wv[i + 1]);
                    }
                    date_to = Some(string_from_chars(&d));
                }
                i = i + 2;
            } else {
                let word = copy_range(w, 0, w.len());
                proof {
                    assert(word@ =~= wv[i as int]);
                }
                let ghost before = remaining.deep_view();
                remaining.push(word);
                proof {
                    assert(remaining.deep_view() =~~= before.push(wv[i as int]));
                }
                i = i + 1;
            }
        }
    }
    proof {
        assert(wv.skip(wv.len() as int) =~= Seq::<Seq<char>>::empty());
        assert(parse_tokens(wv).0 =~~= remaining.deep_view());
        assert(parse_tokens(wv).1 =~~= exts.deep_view());
    }
    let sep = chars_vec(" ");
    let term = join_chars(&remaining, &sep);
    let extensions: Option<Vec<String>> = if exts.len() > 0 {
        Some(exts)
    } else {
        None
    };
    (
        string_from_chars(&term),
        SearchFilters { extensions, date_from, date_to, min_size: None, max_size: None },
    )
}

/// The weight table for one intent.
pub fn weights_for(intent: SearchIntent) -> (r: Weights)
    ensures
        intent is NaturalLanguage ==> r.semantic_milli == 600 && r.keyword_milli == 200
            && r.folder_milli == 300 && r.metadata_milli == 100,
        intent is KeywordBased ==> r.semantic_milli == 200 && r.keyword_milli == 600
            && r.folder_milli == 400 && r.metadata_milli == 200,
        r.hybrid_boost_milli == 1500,
        r.semantic_milli <= 1000 && r.keyword_milli <= 1000 && r.folder_milli <= 1000
            && r.metadata_milli <= 1000,
{
    match intent {
        SearchIntent::NaturalLanguage => Weights {
            semantic_milli: 600,
            keyword_milli: 200,
            folder_milli: 300,
            metadata_milli: 100,
            hybrid_boost_milli: 1500,
        },
        SearchIntent::KeywordBased => Weights {
            semantic_milli: 200,
            keyword_milli: 600,
            folder_milli: 400,
            metadata_milli: 200,
            hybrid_boost_milli: 1500,
        },
    }
}

/// A prong contribution: the relevance scaled by a weight in thousandths.
pub open spec fn weighted(rel: int, weight: int) -> int {
    rel * weight / 1000
}

/// A contribution scaled by the hybrid boost, in thousandths.
pub open spec fn boosted(c: int, boost: int) -> int {
    c * boost / 1000
}

/// The index of the first merged entry with this id, or -1.
pub open spec fn find_id(acc: Seq<SearchResult>, id: Seq<char>) -> int
    decreases acc.len(),
{
    if acc.len() == 0 {
        -1
    } else if acc[0].id@ == id {
        0
    } else {
        let r = find_id(acc.drop_first(), id);
        if r == -1 {
            -1
        } else {
            r + 1
        }
    }
}

/// `find_id` finds `k` when entry `k` has the id and no earlier one does.
pub proof fn lemma_find_id_at(acc: Seq<SearchResult>, id: Seq<char>, k: int)
    requires
        0 <= k < acc.len(),
        acc[k].id@ == id,
        forall|j: int| 0 <= j < k ==> #[trigger] acc[j].id@ != id,
    ensures
        find_id(acc, id) == k,
    decreases acc.len(),
{
    if k > 0 {
        lemma_find_id_at(acc.drop_first(), id, k - 1);
    }
}

/// `find_id` is -1 exactly when no entry has the id.
pub proof fn lemma_find_id_none(acc: Seq<SearchResult>, id: Seq<char>)
    requires
        forall|j: int| 0 <= j < acc.len() ==> #[trigger] acc[j].id@ != id,
    ensures
        find_id(acc, id) == -1,
    decreases acc.len(),
{
    if acc.len() > 0 {
        lemma_find_id_none(acc.drop_first(), id);
    }
}

/// What `find_id` returns is always a hit or -1.
pub proof fn lemma_find_id_valid(acc: Seq<SearchResult>, id: Seq<char>)
    ensures
        -1 <= find_id(acc, id) < acc.len(),
        find_id(acc, id) >= 0 ==> acc[find_id(acc, id)].id@ == id,
    decreases acc.len(),
{
    if acc.len() > 0 && acc[0].id@ != id {
        lemma_find_id_valid(acc.drop_first(), id);
    }
}

/// Merge one prong result into the accumulator: a new id enters with its
/// weighted contribution; a known id has the boosted contribution added,
/// and a text hit landing on a vector hit is marked as a hybrid match.
/// That is the one agreement the match model can carry faithfully — a
/// `Hybrid` pairs exactly one vector score with one text score — so
/// agreement reached through the metadata or folder prong accumulates
/// score but keeps the earlier match type.
pub open spec fn merge_one(
    acc: Seq<SearchResult>,
    r: SearchResult,
    weight: int,
    boost: int,
    hybridize: bool,
) -> Seq<SearchResult> {
    let c = weighted(r.relevance_milli as int, weight);
    let i = find_id(acc, r.id@);
    if i == -1 {
        acc.push(SearchResult { relevance_milli: c as i64, ..r })
    } else {
        let prev = acc[i];
        let mt = if hybridize {
            match (prev.match_type, r.match_type) {
                (SearchMatchType::Vector(v), SearchMatchType::Text(t)) => SearchMatchType::Hybrid(v, t),
                _ => prev.match_type,
            }
        } else {
            prev.match_type
        };
        acc.update(
            i,
            SearchResult {
                relevance_milli: (prev.relevance_milli + boosted(c, boost)) as i64,
                match_type: mt,
                ..prev
            },
        )
    }
}

/// Merge a whole prong, in order.
pub open spec fn merge_list(
    acc: Seq<SearchResult>,
    rs: Seq<SearchResult>,
    weight: int,
    boost: int,
    hybridize: bool,
) -> Seq<SearchResult>
    decreases rs.len(),
{
    if rs.len() == 0 {
        acc
    } else {
        merge_list(merge_one(acc, rs[0], weight, boost, hybridize), rs.drop_first(), weight, boost, hybridize)
    }
}

/// Every relevance in the list lies in [0, b].
pub open spec fn all_bounded(rs: Seq<SearchResult>, b: int) -> bool {
    forall|i: int| 0 <= i < rs.len() ==> 0 <= #[trigger] rs[i].relevance_milli <= b
}

/// A weighted contribution keeps the relevance bound.
proof fn lemma_weighted_bound(rel: int, weight: int, b: int)
    requires
        0 <= rel <= b,
        0 <= weight <= 1000,
    ensures
        0 <= weighted(rel, weight) <= b,
{
    assert(0 <= rel * weight <= b * 1000) by (nonlinear_arith)
        requires
            0 <= rel <= b,
            0 <= weight <= 1000,
    ;
    assert(rel * weight / 1000 <= b * 1000 / 1000) by (nonlinear_arith)
        requires
            0 <= rel * weight <= b * 1000,
    ;
    assert(b * 1000 / 1000 == b) by (nonlinear_arith);
    assert(rel * weight / 1000 >= 0) by (nonlinear_arith)
        requires
            rel * weight >= 0,
    ;
}

/// A boosted contribution at most doubles, and never shrinks below the
/// plain contribution while the boost is at least one.
proof fn lemma_boosted_bound(c: int, boost: int, b: int)
    requires
        0 <= c <= b,
        1000 <= boost <= 2000,
    ensures
        c <= boosted(c, boost) <= 2 * b,
{
    assert(1000 * c <= c * boost <= 2000 * b) by (nonlinear_arith)
        requires
            0 <= c <= b,
            1000 <= boost <= 2000,
    ;
    assert(c * boost / 1000 >= 1000 * c / 1000) by (nonlinear_arith)
        requires
            1000 * c <= c * boost,
    ;
    assert(1000 * c / 1000 == c) by (nonlinear_arith);
    assert(c * boost / 1000 <= 2000 * b / 1000) by (nonlinear_arith)
        requires
            c * boost <= 2000 * b,
            c * boost >= 0,
    ;
    assert(2000 * b / 1000 == 2 * b) by (nonlinear_arith);
}

/// Find the first entry with the given id, as [`find_id`] names it.
fn find_entry(acc: &Vec<SearchResult>, id: &String) -> (r: Option<usize>)
    ensures
        match r {
            Option::Some(i) => i < acc@.len() && find_id(acc@, id@) == i,
            Option::None => find_id(acc@, id@) == -1,
        },
{
    let mut i: usize = 0;
    while i < acc.len()
        invariant
            i <= acc@.len(),
            forall|j: int| 0 <= j < i ==> #[trigger] acc@[j].id@ != id@,
        decreases acc.len() - i,
    {
        if acc[i].id.eq(id) {
            proof {
                lemma_find_id_at(acc@, id@, i as int);
            }
            return Some(i);
        }
        i = i + 1;
    }
    proof {
        lemma_find_id_none(acc@, id@);
    }
    None
}

/// Copy an option of a string.
fn clone_snippet(s: &Option<String>) -> (r: Option<String>)
    ensures
        r == *s,
{
    match s {
        Some(x) => Some(x.clone()),
        None => None,
    }
}

/// Merge one prong's results into the accumulator, in order.
fn merge_prong(
    acc: &mut Vec<SearchResult>,
    rs: &Vec<SearchResult>,
    weight: u32,
    boost: u32,
    hybridize: bool,
    Ghost(acc_bound): Ghost<int>,
)
    requires
        weight <= 1000,
        1000 <= boost <= 2000,
        acc_bound >= 0,
        all_bounded(old(acc)@, acc_bound),
        all_bounded(rs@, MAX_INPUT_RELEVANCE as int),
        rs@.len() <= MAX_PRONG_RESULTS,
        acc_bound + (MAX_PRONG_RESULTS as int) * (MERGE_STEP_BOUND as int) <= i64::MAX,
    ensures
        final(acc)@ == merge_list(old(acc)@, rs@, weight as int, boost as int, hybridize),
        all_bounded(final(acc)@, acc_bound + rs@.len() * (MERGE_STEP_BOUND as int)),
{
    let ghost acc0 = acc@;
    let ghost target = merge_list(acc0, rs@, weight as int, boost as int, hybridize);
    let mut k: usize = 0;
    proof {
        assert(rs@.skip(0) =~= rs@);
    }
    while k < rs.len()
        invariant
            k <= rs@.len(),
            weight <= 1000,
            1000 <= boost <= 2000,
            acc_bound >= 0,
            all_bounded(rs@, MAX_INPUT_RELEVANCE as int),
            rs@.len() <= MAX_PRONG_RESULTS,
            acc_bound + (MAX_PRONG_RESULTS as int) * (MERGE_STEP_BOUND as int) <= i64::MAX,
            all_bounded(acc@, acc_bound + k * (MERGE_STEP_BOUND as int)),
            merge_list(acc@, rs@.skip(k as int), weight as int, boost as int, hybridize) == target,
        decreases rs.len() - k,
    {
        let ghost before = acc@;
        let ghost bound_now = acc_bound + k * (MERGE_STEP_BOUND as int);
        let r = &rs[k];
        let rel: i64 = r.relevance_milli;
        proof {
            assert(0 <= rel <= MAX_INPUT_RELEVANCE);
            assert(0 <= rel * (weight as int) <= (MAX_INPUT_RELEVANCE as int) * 1000)
                by (nonlinear_arith)
                requires
                    0 <= rel <= MAX_INPUT_RELEVANCE as int,
                    0 <= weight <= 1000,
            ;
        }
        let c64: i64 = (rel * (weight as i64)) / 1000;
        proof {
            lemma_weighted_bound(r.relevance_milli as int, weight as int, MAX_INPUT_RELEVANCE as int);
            assert(c64 == weighted(r.relevance_milli as int, weight as int));
        }
        match find_entry(acc, &r.id) {
            None => {
                let fresh = SearchResult {
                    id: r.id.clone(),
                    result_type: r.result_type.clone(),
                    title: r.title.clone(),
                    path: r.path.clone(),
                    relevance_milli: c64,
                    match_type: r.match_type,
                    snippet: clone_snippet(&r.snippet),
                };
                acc.push(fresh);
                proof {
                    assert(acc@ =~= merge_one(before, rs@[k as int], weight as int, boost as int, hybridize));
                }
            },
            Some(i) => {
                proof {
                    assert(0 <= c64 * (boost as int) <= (MAX_INPUT_RELEVANCE as int) * 2000)
                        by (nonlinear_arith)
                        requires
                            0 <= c64 <= MAX_INPUT_RELEVANCE as int,
                            1000 <= boost <= 2000,
                    ;
                }
                let add: i64 = (c64 * (boost as i64)) / 1000;
                proof {
                    lemma_boosted_bound(c64 as int, boost as int, MAX_INPUT_RELEVANCE as int);
                    assert(add == boosted(c64 as int, boost as int));
                }
                let prev = &acc[i];
                let new_mt: SearchMatchType = if hybridize {
                    match (prev.match_type, r.match_type) {
                        (SearchMatchType::Vector(v), SearchMatchType::Text(t)) => SearchMatchType::Hybrid(v, t),
                        _ => prev.match_type,
                    }
                } else {
                    prev.match_type
                };
                let updated = SearchResult {
                    id: prev.id.clone(),
                    result_type: prev.result_type.clone(),
                    title: prev.title.clone(),
                    path: prev.path.clone(),
                    relevance_milli: prev.relevance_milli + add,
                    match_type: new_mt,
                    snippet: clone_snippet(&prev.snippet),
                };
                acc.set(i, updated);
                proof {
                    assert(acc@ =~= merge_one(before, rs@[k as int], weight as int, boost as int, hybridize));
                }
            },
        }
        proof {
            assert(rs@.skip(k as int).drop_first() =~= rs@.skip(k + 1));
            assert(merge_list(acc@, rs@.skip(k + 1), weight as int, boost as int, hybridize) == target);
            assert forall|i: int| 0 <= i < acc@.len() implies 0 <= #[trigger] acc@[i].relevance_milli
                <= acc_bound + (k + 1) * (MERGE_STEP_BOUND as int) by {
                assert((k + 1) * (MERGE_STEP_BOUND as int) == k * (MERGE_STEP_BOUND as int) + MERGE_STEP_BOUND as int) by (nonlinear_arith);
            }
        }
        k = k + 1;
    }
    proof {
        assert(rs@.skip(rs@.len() as int) =~= Seq::<SearchResult>::empty());
    }
}

/// A result the vector prong and the text prong both found scores at
/// least either prong's weighted contribution alone: agreement across
/// prongs never ranks below a single signal.
pub proof fn lemma_hybrid_dominates(
    acc: Seq<SearchResult>,
    r_v: SearchResult,
    r_t: SearchResult,
    w_v: int,
    w_t: int,
    boost: int,
)
    requires
        r_v.relevance_milli >= 0,
        r_t.relevance_milli >= 0,
        0 <= w_v <= 1000,
        0 <= w_t <= 1000,
        1000 <= boost <= 2000,
        r_t.id@ == r_v.id@,
        find_id(acc, r_v.id@) == -1,
        all_bounded(acc, MAX_INPUT_RELEVANCE as int),
        r_v.relevance_milli <= MAX_INPUT_RELEVANCE,
        r_t.relevance_milli <= MAX_INPUT_RELEVANCE,
    ensures
        ({
            let after_v = merge_one(acc, r_v, w_v, boost, false);
            let merged = merge_one(after_v, r_t, w_t, boost, true);
            let i = find_id(merged, r_v.id@);
            &&& 0 <= i < merged.len()
            &&& merged[i].relevance_milli >= weighted(r_v.relevance_milli as int, w_v)
            &&& merged[i].relevance_milli >= weighted(r_t.relevance_milli as int, w_t)
        }),
{
    let c_v = weighted(r_v.relevance_milli as int, w_v);
    let c_t = weighted(r_t.relevance_milli as int, w_t);
    lemma_weighted_bound(r_v.relevance_milli as int, w_v, MAX_INPUT_RELEVANCE as int);
    lemma_weighted_bound(r_t.relevance_milli as int, w_t, MAX_INPUT_RELEVANCE as int);
    lemma_boosted_bound(c_t, boost, MAX_INPUT_RELEVANCE as int);
    let after_v = merge_one(acc, r_v, w_v, boost, false);
    assert(after_v == acc.push(SearchResult { relevance_milli: c_v as i64, ..r_v }));
    assert(after_v[acc.len() as int].id@ == r_v.id@);
    assert forall|j: int| 0 <= j < acc.len() implies #[trigger] after_v[j].id@ != r_v.id@ by {
        lemma_find_id_none_converse(acc, r_v.id@, j);
    }
    lemma_find_id_at(after_v, r_v.id@, acc.len() as int);
    let merged = merge_one(after_v, r_t, w_t, boost, true);
    assert(merged[acc.len() as int].relevance_milli == c_v + boosted(c_t, boost));
    assert forall|j: int| 0 <= j < acc.len() implies #[trigger] merged[j].id@ != r_v.id@ by {
        lemma_find_id_none_converse(acc, r_v.id@, j);
    }
    lemma_find_id_at(merged, r_v.id@, acc.len() as int);
}

/// When `find_id` misses, no entry carries the id.
proof fn lemma_find_id_none_converse(acc: Seq<SearchResult>, id: Seq<char>, j: int)
    requires
        find_id(acc, id) == -1,
        0 <= j < acc.len(),
    ensures
        acc[j].id@ != id,
    decreases acc.len(),
{
    if j > 0 {
        lemma_find_id_valid(acc.drop_first(), id);
        assert(find_id(acc.drop_first(), id) == -1);
        lemma_find_id_none_converse(acc.drop_first(), id, j - 1);
    }
}

/// Copy one search result.
pub fn clone_result(r: &SearchResult) -> (c: SearchResult)
    ensures
        c == *r,
{
    SearchResult {
        id: r.id.clone(),
        result_type: r.result_type.clone(),
        title: r.title.clone(),
        path: r.path.clone(),
        relevance_milli: r.relevance_milli,
        match_type: r.match_type,
        snippet: clone_snippet(&r.snippet),
    }
}

/// `x` slotted into a list so that relevances stay non-increasing; among
/// equal relevances the newcomer goes last, which keeps sorting stable.
pub open spec fn insert_desc(rs: Seq<SearchResult>, x: SearchResult) -> Seq<SearchResult>
    decreases rs.len(),
{
    if rs.len() == 0 {
        seq![x]
    } else if rs[0].relevance_milli < x.relevance_milli {
        seq![x] + rs
    } else {
        seq![rs[0]] + insert_desc(rs.drop_first(), x)
    }
}

/// Insertion sort by relevance, highest first, stable.
pub open spec fn sort_desc_spec(rs: Seq<SearchResult>) -> Seq<SearchResult>
    decreases rs.len(),
{
    if rs.len() == 0 {
        Seq::empty()
    } else {
        insert_desc(sort_desc_spec(rs.drop_last()), rs.last())
    }
}

/// Relevances never increase along the list.
pub open spec fn sorted_desc(rs: Seq<SearchResult>) -> bool {
    forall|a: int, b: int|
        0 <= a < b < rs.len() ==> #[trigger] rs[a].relevance_milli >= #[trigger] rs[b].relevance_milli
}

/// Where the newcomer lands: right before the first entry it outranks.
proof fn lemma_insert_desc_at(rs: Seq<SearchResult>, x: SearchResult, j: int)
    requires
        0 <= j <= rs.len(),
        forall|q: int| 0 <= q < j ==> #[trigger] rs[q].relevance_milli >= x.relevance_milli,
        j < rs.len() ==> rs[j].relevance_milli < x.relevance_milli,
    ensures
        insert_desc(rs, x) =~= rs.take(j) + seq![x] + rs.skip(j),
    decreases j,
{
    if j == 0 {
        assert(rs.take(0) =~= Seq::<SearchResult>::empty());
        assert(rs.skip(0) =~= rs);
    } else {
        assert(rs[0].relevance_milli >= x.relevance_milli);
        lemma_insert_desc_at(rs.drop_first(), x, j - 1);
        assert(rs.drop_first().take(j - 1) =~= rs.take(j).drop_first());
        assert(rs.drop_first().skip(j - 1) =~= rs.skip(j));
    }
}

/// The first `limit` entries, or all of them if there are fewer.
pub open spec fn take_limit(rs: Seq<SearchResult>, limit: int) -> Seq<SearchResult> {
    if rs.len() > limit {
        rs.take(limit)
    } else {
        rs
    }
}

/// Sort results by relevance, highest first.  Entries of equal relevance
/// keep their relative input order.
pub fn sort_results_desc(v: &Vec<SearchResult>) -> (r: Vec<SearchResult>)
    ensures
        r@ == sort_desc_spec(v@),
        sorted_desc(r@),
{
    let mut out: Vec<SearchResult> = Vec::new();
    let mut i: usize = 0;
    proof {
        assert(v@.take(0) =~= Seq::<SearchResult>::empty());
    }
    while i < v.len()
        invariant
            i <= v@.len(),
            out@ == sort_desc_spec(v@.take(i as int)),
            sorted_desc(out@),
        decreases v.len() - i,
    {
        let x = clone_result(&v[i]);
        let mut j: usize = 0;
        while j < out.len() && out[j].relevance_milli >= x.relevance_milli
            invariant
                j <= out@.len(),
                forall|q: int| 0 <= q < j ==> #[trigger] out@[q].relevance_milli >= x.relevance_milli,
            decreases out.len() - j,
        {
            j = j + 1;
        }
        let ghost before = out@;
        proof {
            lemma_insert_desc_at(before, x, j as int);
        }
        out.insert(j, x);
        proof {
            assert(out@ =~= before.take(j as int) + seq![x] + before.skip(j as int));
            assert(out@ =~= insert_desc(before, x));
            assert(v@.take(i + 1).drop_last() =~= v@.take(i as int));
            assert(v@.take(i + 1).last() == v@[i as int]);
            assert(out@ == sort_desc_spec(v@.take(i + 1)));
            assert forall|a: int, b: int| 0 <= a < b < out@.len() implies #[trigger] out@[a].relevance_milli
                >= #[trigger] out@[b].relevance_milli by {
                if a < j && b > j {
                    assert(out@[a] == before[a]);
                    assert(out@[b] == before[b - 1]);
                    if j < before.len() {
                        assert(before[a].relevance_milli >= x.relevance_milli);
                        assert(before[j as int].relevance_milli < x.relevance_milli);
                    }
                }
            }
        }
        i = i + 1;
    }
    proof {
        assert(v@.take(v@.len() as int) =~= v@);
    }
    out
}

/// Merge the four prongs' results under one intent's weight table: the
/// vector prong first, then the text prong (boosted and hybrid-marked on
/// agreement), then the metadata prong (unboosted), then the folder
/// prong (boosted).  A result found by several prongs accumulates their
/// weighted contributions; everything comes back in first-seen order.
pub fn combine_and_rank_results(
    intent: SearchIntent,
    vector_results: &Vec<SearchResult>,
    fts_results: &Vec<SearchResult>,
    folder_results: &Vec<SearchResult>,
    metadata_results: &Vec<SearchResult>,
) -> (r: Vec<SearchResult>)
    requires
        all_bounded(vector_results@, MAX_INPUT_RELEVANCE as int),
        all_bounded(fts_results@, MAX_INPUT_RELEVANCE as int),
        all_bounded(folder_results@, MAX_INPUT_RELEVANCE as int),
        all_bounded(metadata_results@, MAX_INPUT_RELEVANCE as int),
        vector_results@.len() <= MAX_PRONG_RESULTS,
        fts_results@.len() <= MAX_PRONG_RESULTS,
        folder_results@.len() <= MAX_PRONG_RESULTS,
        metadata_results@.len() <= MAX_PRONG_RESULTS,
    ensures
        r@ == merged_spec(
            intent,
            vector_results@,
            fts_results@,
            folder_results@,
            metadata_results@,
        ),
        all_bounded(r@, 4 * (MAX_PRONG_RESULTS as int) * (MERGE_STEP_BOUND as int)),
{
    let w = weights_for(intent);
    let mut acc: Vec<SearchResult> = Vec::new();
    merge_prong(&mut acc, vector_results, w.semantic_milli, 1000, false, Ghost(0));
    merge_prong(
        &mut acc,
        fts_results,
        w.keyword_milli,
        w.hybrid_boost_milli,
        true,
        Ghost((MAX_PRONG_RESULTS as int) * (MERGE_STEP_BOUND as int)),
    );
    merge_prong(
        &mut acc,
        metadata_results,
        w.metadata_milli,
        1000,
        false,
        Ghost(2 * (MAX_PRONG_RESULTS as int) * (MERGE_STEP_BOUND as int)),
    );
    merge_prong(
        &mut acc,
        folder_results,
        w.folder_milli,
        w.hybrid_boost_milli,
        false,
        Ghost(3 * (MAX_PRONG_RESULTS as int) * (MERGE_STEP_BOUND as int)),
    );
    acc
}

/// The weight table an intent selects.
pub open spec fn spec_weights(intent: SearchIntent) -> Weights {
    match intent {
        SearchIntent::NaturalLanguage => Weights {
            semantic_milli: 600,
            keyword_milli: 200,
            folder_milli: 300,
            metadata_milli: 100,
            hybrid_boost_milli: 1500,
        },
        SearchIntent::KeywordBased => Weights {
            semantic_milli: 200,
            keyword_milli: 600,
            folder_milli: 400,
            metadata_milli: 200,
            hybrid_boost_milli: 1500,
        },
    }
}

/// The four-prong merge, written out over [`merge_list`].
pub open spec fn merged_spec(
    intent: SearchIntent,
    vector_results: Seq<SearchResult>,
    fts_results: Seq<SearchResult>,
    folder_results: Seq<SearchResult>,
    metadata_results: Seq<SearchResult>,
) -> Seq<SearchResult> {
    let w = spec_weights(intent);
    let a1 = merge_list(Seq::empty(), vector_results, w.semantic_milli as int, 1000, false);
    let a2 = merge_list(a1, fts_results, w.keyword_milli as int, w.hybrid_boost_milli as int, true);
    let a3 = merge_list(a2, metadata_results, w.metadata_milli as int, 1000, false);
    merge_list(a3, folder_results, w.folder_milli as int, w.hybrid_boost_milli as int, false)
}

/// Merging a prong adds at most one entry per result.
pub proof fn lemma_merge_list_len(
    acc: Seq<SearchResult>,
    rs: Seq<SearchResult>,
    weight: int,
    boost: int,
    hybridize: bool,
)
    ensures
        merge_list(acc, rs, weight, boost, hybridize).len() <= acc.len() + rs.len(),
    decreases rs.len(),
{
    if rs.len() > 0 {
        lemma_find_id_valid(acc, rs[0].id@);
        lemma_merge_list_len(merge_one(acc, rs[0], weight, boost, hybridize), rs.drop_first(), weight, boost, hybridize);
    }
}

/// A folder row the folder prong picks up: its name or path holds the
/// query text, in any letter case.
pub open spec fn folder_matches(row: FolderRow, q: Seq<char>) -> bool {
    is_substring(to_lower(q), to_lower(row.name@)) || is_substring(to_lower(q), to_lower(row.path@))
}

/// The indexes of the matching folder rows, from position `i` on.
pub open spec fn folder_match_idxs(folders: Seq<FolderRow>, q: Seq<char>, i: int) -> Seq<int>
    decreases folders.len() - i,
{
    if i < 0 || i >= folders.len() {
        Seq::empty()
    } else if folder_matches(folders[i], q) {
        seq![i] + folder_match_idxs(folders, q, i + 1)
    } else {
        folder_match_idxs(folders, q, i + 1)
    }
}

/// A search result presenting one folder row.
pub open spec fn folder_result_ok(r: SearchResult, row: FolderRow) -> bool {
    &&& r.id@ == "folder-"@ + dec_str(row.id as int)
    &&& r.result_type@ == "folder"@
    &&& r.title@ == row.name@
    &&& r.path@ == row.path@
    &&& r.relevance_milli == row.score_tenths * 100
    &&& r.match_type == SearchMatchType::Text((row.score_tenths * 100) as i64)
    &&& r.snippet is None
}

/// The raw folder prong: one result per matching folder row, in order.
pub open spec fn folder_prong_ok(raw: Seq<SearchResult>, folders: Seq<FolderRow>, q: Seq<char>) -> bool {
    let idxs = folder_match_idxs(folders, q, 0);
    &&& raw.len() == idxs.len()
    &&& forall|k: int|
        0 <= k < idxs.len() ==> 0 <= #[trigger] idxs[k] < folders.len() && folder_result_ok(
            raw[k],
            folders[idxs[k]],
        )
}

/// Build one folder row's search result.
fn make_folder_result(row: &FolderRow) -> (r: SearchResult)
    requires
        row.score_tenths <= crate::MAX_SCORE_TENTHS,
    ensures
        folder_result_ok(r, *row),
        0 <= r.relevance_milli <= 10000,
{
    let mut idc = chars_vec("folder-");
    let num = dec_chars(row.id);
    push_all(&mut idc, &num);
    let rel: i64 = (row.score_tenths as i64) * 100;
    SearchResult {
        id: string_from_chars(&idc),
        result_type: String::from_str("folder"),
        title: row.name.clone(),
        path: row.path.clone(),
        relevance_milli: rel,
        match_type: SearchMatchType::Text(rel),
        snippet: None,
    }
}

/// The folder prong: folders whose name or path holds the query text, in
/// any letter case, ranked by folder score and cut to `limit`.
pub fn search_folders_by_name(store: &IndexStore, query: &str, limit: usize) -> (r: Vec<SearchResult>)
    requires
        store.inv(),
    ensures
        exists|raw: Seq<SearchResult>|
            #[trigger] folder_prong_ok(raw, store.folders@, query@) && r@ == take_limit(
                sort_desc_spec(raw),
                limit as int,
            ),
        sorted_desc(r@),
        all_bounded(r@, 10000),
{
    let q = chars_vec(query);
    let ql = lower_chars(&q);
    let mut raw: Vec<SearchResult> = Vec::new();
    let ghost mut done: Seq<int> = Seq::empty();
    let mut i: usize = 0;
    proof {
        assert(folder_match_idxs(store.folders@, query@, 0) =~= done + folder_match_idxs(store.folders@, query@, 0));
    }
    while i < store.folders.len()
        invariant
            store.inv(),
            i <= store.folders@.len(),
            ql@ == to_lower(query@),
            folder_match_idxs(store.folders@, query@, 0) =~= done + folder_match_idxs(
                store.folders@,
                query@,
                i as int,
            ),
            raw@.len() == done.len(),
            forall|k: int|
                0 <= k < done.len() ==> 0 <= #[trigger] done[k] < store.folders@.len()
                    && folder_result_ok(raw@[k], store.folders@[done[k]]),
            all_bounded(raw@, 10000),
        decreases store.folders.len() - i,
    {
        let row = &store.folders[i];
        let name_l = lower_chars(&chars_vec(row.name.as_str()));
        let path_l = lower_chars(&chars_vec(row.path.as_str()));
        if chars_contains(&name_l, &ql) || chars_contains(&path_l, &ql) {
            proof {
                assert(folder_matches(store.folders@[i as int], query@));
            }
            let res = make_folder_result(row);
            raw.push(res);
            proof {
                done = done.push(i as int);
                assert(folder_match_idxs(store.folders@, query@, i as int) =~= seq![i as int]
                    + folder_match_idxs(store.folders@, query@, i + 1));
            }
        } else {
            proof {
                assert(!folder_matches(store.folders@[i as int], query@));
                assert(folder_match_idxs(store.folders@, query@, i as int) =~= folder_match_idxs(
                    store.folders@,
                    query@,
                    i + 1,
                ));
            }
        }
        i = i + 1;
    }
    proof {
        assert(folder_match_idxs(store.folders@, query@, store.folders@.len() as int) =~= Seq::<int>::empty());
        assert(done =~= folder_match_idxs(store.folders@, query@, 0));
        assert(folder_prong_ok(raw@, store.folders@, query@));
    }
    let mut sorted = sort_results_desc(&raw);
    if sorted.len() > limit {
        sorted.truncate(limit);
        proof {
            assert(sorted@ =~= take_limit(sort_desc_spec(raw@), limit as int));
        }
    }
    proof {
        lemma_sorted_bounds(sort_desc_spec(raw@), raw@);
        assert(sorted@ =~= take_limit(sort_desc_spec(raw@), limit as int));
        let witness = raw@;
        assert(folder_prong_ok(witness, store.folders@, query@) && sorted@ == take_limit(
            sort_desc_spec(witness),
            limit as int,
        ));
    }
    sorted
}

/// Sorting permutes: whatever bound holds of every input relevance holds
/// of every output relevance, and sorted order survives a prefix cut.
proof fn lemma_sorted_bounds(s: Seq<SearchResult>, orig: Seq<SearchResult>)
    requires
        s == sort_desc_spec(orig),
    ensures
        forall|b: int| all_bounded(orig, b) ==> all_bounded(s, b),
    decreases orig.len(),
{
    if orig.len() > 0 {
        lemma_sorted_bounds(sort_desc_spec(orig.drop_last()), orig.drop_last());
        assert forall|b: int| all_bounded(orig, b) implies all_bounded(s, b) by {
            assert(all_bounded(orig.drop_last(), b));
            lemma_insert_desc_bounds(sort_desc_spec(orig.drop_last()), orig.last(), b);
        }
    }
}

/// Insertion keeps a relevance bound.
proof fn lemma_insert_desc_bounds(rs: Seq<SearchResult>, x: SearchResult, b: int)
    requires
        all_bounded(rs, b),
        0 <= x.relevance_milli <= b,
    ensures
        all_bounded(insert_desc(rs, x), b),
    decreases rs.len(),
{
    if rs.len() > 0 && rs[0].relevance_milli >= x.relevance_milli {
        assert(all_bounded(rs.drop_first(), b));
        lemma_insert_desc_bounds(rs.drop_first(), x, b);
    }
}

/// Some listed extension matches the row's, case-insensitively.
pub open spec fn ext_in_list(ext: Seq<char>, list: Seq<Seq<char>>) -> bool {
    exists|i: int| 0 <= i < list.len() && eq_ignore_case(#[trigger] list[i], ext)
}

/// The structured filters admit the row: its extension is listed (when a
/// list is given), its last update falls between the date bounds (dates
/// compare as strings, which orders `YYYY-MM-DD` stamps correctly), and
/// its size lies within the size bounds.
pub open spec fn row_passes_filters(row: FileRow, f: SearchFilters) -> bool {
    &&& (match f.extensions {
        Option::Some(list) => ext_in_list(row.extension@, list.deep_view()),
        Option::None => true,
    })
    &&& (match f.date_from {
        Option::Some(d) => crate::text::lex_le(d@, row.updated_at@),
        Option::None => true,
    })
    &&& (match f.date_to {
        Option::Some(d) => crate::text::lex_le(row.updated_at@, d@),
        Option::None => true,
    })
    &&& (match f.min_size {
        Option::Some(s) => row.file_size >= s,
        Option::None => true,
    })
    &&& (match f.max_size {
        Option::Some(s) => row.file_size <= s,
        Option::None => true,
    })
}

/// A file row the metadata prong picks up: with a name query, its name
/// holds the query text in any letter case; and the structured filters
/// admit it.
pub open spec fn file_meta_matches(row: FileRow, q: Option<Seq<char>>, f: SearchFilters) -> bool {
    &&& (match q {
        Option::Some(t) => is_substring(to_lower(t), to_lower(row.name@)),
        Option::None => true,
    })
    &&& row_passes_filters(row, f)
}

/// The indexes of the matching file rows, from position `i` on.
pub open spec fn file_match_idxs(files: Seq<FileRow>, q: Option<Seq<char>>, f: SearchFilters, i: int) -> Seq<int>
    decreases files.len() - i,
{
    if i < 0 || i >= files.len() {
        Seq::empty()
    } else if file_meta_matches(files[i], q, f) {
        seq![i] + file_match_idxs(files, q, f, i + 1)
    } else {
        file_match_idxs(files, q, f, i + 1)
    }
}

/// Do the structured filters admit this row?
fn check_row_filters(row: &FileRow, f: &SearchFilters) -> (r: bool)
    ensures
        r == row_passes_filters(*row, *f),
{
    let ext_ok: bool = match &f.extensions {
        Some(list) => {
            let ext = chars_vec(row.extension.as_str());
            let mut found: bool = false;
            let mut i: usize = 0;
            while i < list.len()
                invariant
                    i <= list@.len(),
                    ext@ == row.extension@,
                    found <==> (exists|j: int|
                        0 <= j < i && eq_ignore_case(#[trigger] list.deep_view()[j], row.extension@)),
                decreases list.len() - i,
            {
                if !found {
                    let cand = chars_vec(list[i].as_str());
                    if chars_eq_ignore_case(&cand, &ext) {
                        proof {
                            assert(eq_ignore_case(list.deep_view()[i as int], row.extension@));
                        }
                        found = true;
                    }
                }
                i = i + 1;
            }
            found
        },
        None => true,
    };
    let from_ok: bool = match &f.date_from {
        Some(d) => {
            let dv = chars_vec(d.as_str());
            let u = chars_vec(row.updated_at.as_str());
            crate::text::chars_lex_le(&dv, &u)
        },
        None => true,
    };
    let to_ok: bool = match &f.date_to {
        Some(d) => {
            let dv = chars_vec(d.as_str());
            let u = chars_vec(row.updated_at.as_str());
            crate::text::chars_lex_le(&u, &dv)
        },
        None => true,
    };
    let min_ok: bool = match f.min_size {
        Some(s) => row.file_size >= s as u64,
        None => true,
    };
    let max_ok: bool = match f.max_size {
        Some(s) => row.file_size <= s as u64,
        None => true,
    };
    ext_ok && from_ok && to_ok && min_ok && max_ok
}

/// A search result presenting one file row.
pub open spec fn file_result_ok(r: SearchResult, row: FileRow) -> bool {
    &&& r.id@ == "file-"@ + dec_str(row.id as int)
    &&& r.result_type@ == "file"@
    &&& r.title@ == row.name@
    &&& r.path@ == row.path@
    &&& r.relevance_milli == row.score_tenths * 100
    &&& r.match_type == SearchMatchType::Text((row.score_tenths * 100) as i64)
    &&& r.snippet is None
}

/// The raw metadata prong: one result per matching file row, in order.
pub open spec fn meta_prong_ok(
    raw: Seq<SearchResult>,
    files: Seq<FileRow>,
    q: Option<Seq<char>>,
    f: SearchFilters,
) -> bool {
    let idxs = file_match_idxs(files, q, f, 0);
    &&& raw.len() == idxs.len()
    &&& forall|k: int|
        0 <= k < idxs.len() ==> 0 <= #[trigger] idxs[k] < files.len() && file_result_ok(
            raw[k],
            files[idxs[k]],
        )
}

/// Build one file row's search result.
fn make_file_result(row: &FileRow) -> (r: SearchResult)
    requires
        row.score_tenths <= crate::MAX_SCORE_TENTHS,
    ensures
        file_result_ok(r, *row),
        0 <= r.relevance_milli <= 10000,
{
    let mut idc = chars_vec("file-");
    let num = dec_chars(row.id);
    push_all(&mut idc, &num);
    let rel: i64 = (row.score_tenths as i64) * 100;
    SearchResult {
        id: string_from_chars(&idc),
        result_type: String::from_str("file"),
        title: row.name.clone(),
        path: row.path.clone(),
        relevance_milli: rel,
        match_type: SearchMatchType::Text(rel),
        snippet: None,
    }
}

/// The metadata prong: file rows whose name holds the query text, in any
/// letter case (or every row, without a name query), narrowed by the
/// structured filters, ranked by file score and cut to `limit`.
pub fn advanced_search(
    store: &IndexStore,
    name_query: Option<&str>,
    filters: &SearchFilters,
    limit: usize,
) -> (r: Vec<SearchResult>)
    requires
        store.inv(),
    ensures
        exists|raw: Seq<SearchResult>|
            meta_prong_ok(
                raw,
                store.files@,
                match name_query {
                    Option::Some(q) => Option::Some(q@),
                    Option::None => Option::None,
                },
                *filters,
            ) && r@ == take_limit(#[trigger] sort_desc_spec(raw), limit as int),
        sorted_desc(r@),
        all_bounded(r@, 10000),
{
    let ghost qv: Option<Seq<char>> = match name_query {
        Option::Some(q) => Option::Some(q@),
        Option::None => Option::None,
    };
    let ql: Option<Vec<char>> = match name_query {
        Some(q) => Some(lower_chars(&chars_vec(q))),
        None => None,
    };
    let mut raw: Vec<SearchResult> = Vec::new();
    let ghost mut done: Seq<int> = Seq::empty();
    let mut i: usize = 0;
    proof {
        assert(file_match_idxs(store.files@, qv, *filters, 0) =~= done + file_match_idxs(
            store.files@,
            qv,
            *filters,
            0,
        ));
    }
    while i < store.files.len()
        invariant
            store.inv(),
            i <= store.files@.len(),
            (match ql {
                Option::Some(l) => qv is Some && l@ == to_lower(qv->Some_0),
                Option::None => qv is None,
            }),
            file_match_idxs(store.files@, qv, *filters, 0) =~= done + file_match_idxs(
                store.files@,
                qv,
                *filters,
                i as int,
            ),
            raw@.len() == done.len(),
            forall|k: int|
                0 <= k < done.len() ==> 0 <= #[trigger] done[k] < store.files@.len()
                    && file_result_ok(raw@[k], store.files@[done[k]]),
            all_bounded(raw@, 10000),
        decreases store.files.len() - i,
    {
        let row = &store.files[i];
        let name_hit: bool = match &ql {
            Some(l) => {
                let name_l = lower_chars(&chars_vec(row.name.as_str()));
                chars_contains(&name_l, l)
            },
            None => true,
        };
        let hit: bool = name_hit && check_row_filters(row, filters);
        if hit {
            proof {
                assert(file_meta_matches(store.files@[i as int], qv, *filters));
            }
            let res = make_file_result(row);
            raw.push(res);
            proof {
                done = done.push(i as int);
                assert(file_match_idxs(store.files@, qv, *filters, i as int) =~= seq![i as int]
                    + file_match_idxs(store.files@, qv, *filters, i + 1));
            }
        } else {
            proof {
                assert(!file_meta_matches(store.files@[i as int], qv, *filters));
                assert(file_match_idxs(store.files@, qv, *filters, i as int) =~= file_match_idxs(
                    store.files@,
                    qv,
                    *filters,
                    i + 1,
                ));
            }
        }
        i = i + 1;
    }
    proof {
        assert(file_match_idxs(store.files@, qv, *filters, store.files@.len() as int) =~= Seq::<int>::empty());
        assert(done =~= file_match_idxs(store.files@, qv, *filters, 0));
        assert(meta_prong_ok(raw@, store.files@, qv, *filters));
    }
    let mut sorted = sort_results_desc(&raw);
    if sorted.len() > limit {
        sorted.truncate(limit);
    }
    proof {
        lemma_sorted_bounds(sort_desc_spec(raw@), raw@);
        assert(sorted@ =~= take_limit(sort_desc_spec(raw@), limit as int));
        let witness = raw@;
        assert(meta_prong_ok(witness, store.files@, qv, *filters) && sorted@ == take_limit(
            sort_desc_spec(witness),
            limit as int,
        ));
    }
    sorted
}

/// The directory a file-typed result is grouped under.
pub open spec fn parent_dir_of(r: SearchResult) -> Option<Seq<char>> {
    if r.result_type@ == "file"@ {
        parent_path_of(r.path@)
    } else {
        Option::None
    }
}

/// How many results share this parent directory.
pub open spec fn count_parent(rs: Seq<SearchResult>, d: Seq<char>) -> int
    decreases rs.len(),
{
    if rs.len() == 0 {
        0
    } else {
        (if parent_dir_of(rs[0]) == Option::Some(d) {
            1int
        } else {
            0
        }) + count_parent(rs.drop_first(), d)
    }
}

/// The result at `i` is the first one grouped under its directory.
pub open spec fn first_with_parent(rs: Seq<SearchResult>, i: int) -> bool {
    &&& parent_dir_of(rs[i]) is Some
    &&& forall|j: int| 0 <= j < i ==> #[trigger] parent_dir_of(rs[j]) != parent_dir_of(rs[i])
}

/// The indexes from `i` on whose directory earns a synthetic folder
/// result: the first result of a directory that at least two share.
pub open spec fn synth_idxs(rs: Seq<SearchResult>, i: int) -> Seq<int>
    decreases rs.len() - i,
{
    if i < 0 || i >= rs.len() {
        Seq::empty()
    } else if first_with_parent(rs, i) && count_parent(rs, parent_dir_of(rs[i])->Some_0) >= 2 {
        seq![i] + synth_idxs(rs, i + 1)
    } else {
        synth_idxs(rs, i + 1)
    }
}

/// One synthetic folder result for the directory of the result at `i`.
pub open spec fn synth_result_ok(sr: SearchResult, rs: Seq<SearchResult>, i: int, w_folder: int) -> bool {
    let d = parent_dir_of(rs[i])->Some_0;
    &&& sr.id@ == "folder-"@ + d
    &&& sr.result_type@ == "folder"@
    &&& sr.title@ == file_name_of(d)
    &&& sr.path@ == d
    &&& sr.relevance_milli == count_parent(rs, d) * w_folder
    &&& sr.match_type == SearchMatchType::Text((count_parent(rs, d) * w_folder) as i64)
    &&& sr.snippet is None
}

/// The whole synthesis: one folder result per shared directory.
pub open spec fn synth_ok(out: Seq<SearchResult>, rs: Seq<SearchResult>, w_folder: int) -> bool {
    let idxs = synth_idxs(rs, 0);
    &&& out.len() == idxs.len()
    &&& forall|k: int|
        0 <= k < idxs.len() ==> 0 <= #[trigger] idxs[k] < rs.len() && synth_result_ok(
            out[k],
            rs,
            idxs[k],
            w_folder,
        )
}

/// The directory one result is grouped under, executably.
fn parent_dir(r: &SearchResult) -> (d: Option<Vec<char>>)
    ensures
        match d {
            Option::Some(dv) => parent_dir_of(*r) == Option::Some(dv@),
            Option::None => parent_dir_of(*r) is None,
        },
{
    let file_lit = chars_vec("file");
    let rt = chars_vec(r.result_type.as_str());
    if chars_eq(&rt, &file_lit) {
        let p = chars_vec(r.path.as_str());
        parent_path(&p)
    } else {
        None
    }
}

/// Count the results grouped under `d`.
fn count_results_under(rs: &Vec<SearchResult>, d: &Vec<char>) -> (n: u64)
    requires
        rs@.len() <= u64::MAX,
    ensures
        n == count_parent(rs@, d@),
        n <= rs@.len(),
{
    let mut n: u64 = 0;
    let mut i: usize = 0;
    proof {
        assert(rs@.skip(0) =~= rs@);
    }
    while i < rs.len()
        invariant
            i <= rs@.len(),
            n <= i,
            n + count_parent(rs@.skip(i as int), d@) == count_parent(rs@, d@),
        decreases rs.len() - i,
    {
        let dir_i = parent_dir(&rs[i]);
        proof {
            assert(rs@.skip(i as int)[0] == rs@[i as int]);
            assert(rs@.skip(i as int).drop_first() =~= rs@.skip(i + 1));
        }
        let here: bool = match &dir_i {
            Some(x) => chars_eq(x, d),
            None => false,
        };
        if here {
            n = n + 1;
        }
        i = i + 1;
    }
    proof {
        assert(rs@.skip(rs@.len() as int) =~= Seq::<SearchResult>::empty());
        lemma_count_parent_bounds(rs@, d@);
    }
    n
}

/// A parent count never outruns the list length.
proof fn lemma_count_parent_bounds(rs: Seq<SearchResult>, d: Seq<char>)
    ensures
        0 <= count_parent(rs, d) <= rs.len(),
    decreases rs.len(),
{
    if rs.len() > 0 {
        lemma_count_parent_bounds(rs.drop_first(), d);
    }
}

/// Synthesize folder results from merged file results: each directory
/// that at least two file results share earns one folder result, scored
/// by the number of sharers times the intent's folder weight.
pub fn synthesize_folder_results(results: &Vec<SearchResult>, folder_weight_milli: u32) -> (out: Vec<SearchResult>)
    requires
        folder_weight_milli <= 1000,
        results@.len() <= 8 * MAX_PRONG_RESULTS,
    ensures
        synth_ok(out@, results@, folder_weight_milli as int),
{
    let mut out: Vec<SearchResult> = Vec::new();
    let ghost mut done: Seq<int> = Seq::empty();
    let mut i: usize = 0;
    proof {
        assert(synth_idxs(results@, 0) =~= done + synth_idxs(results@, 0));
    }
    while i < results.len()
        invariant
            i <= results@.len(),
            folder_weight_milli <= 1000,
            results@.len() <= 8 * MAX_PRONG_RESULTS,
            synth_idxs(results@, 0) =~= done + synth_idxs(results@, i as int),
            out@.len() == done.len(),
            forall|k: int|
                0 <= k < done.len() ==> 0 <= #[trigger] done[k] < results@.len() && synth_result_ok(
                    out@[k],
                    results@,
                    done[k],
                    folder_weight_milli as int,
                ),
        decreases results.len() - i,
    {
        let dir_i = parent_dir(&results[i]);
        let mut emit: bool = false;
        match &dir_i {
            Some(d) => {
                let mut first: bool = true;
                let mut j: usize = 0;
                while j < i
                    invariant
                        j <= i < results@.len(),
                        parent_dir_of(results@[i as int]) == Option::Some(d@),
                        first <==> (forall|q: int|
                            0 <= q < j ==> #[trigger] parent_dir_of(results@[q]) != parent_dir_of(
                                results@[i as int],
                            )),
                    decreases i - j,
                {
                    if first {
                        let dir_j = parent_dir(&results[j]);
                        let hit: bool = match &dir_j {
                            Some(x) => chars_eq(x, d),
                            None => false,
                        };
                        if hit {
                            first = false;
                        }
                    }
                    j = j + 1;
                }
                if first {
                    let n = count_results_under(results, d);
                    if n >= 2 {
                        emit = true;
                        proof {
                            assert(first_with_parent(results@, i as int));
                            assert(n * folder_weight_milli <= 8 * (MAX_PRONG_RESULTS as int) * 1000)
                                by (nonlinear_arith)
                                requires
                                    0 <= n <= 8 * (MAX_PRONG_RESULTS as int),
                                    0 <= folder_weight_milli <= 1000,
                            ;
                        }
                        let rel: i64 = (n as i64) * (folder_weight_milli as i64);
                        let mut idc = chars_vec("folder-");
                        push_all(&mut idc, d);
                        let dname = path_file_name(d);
                        let sr = SearchResult {
                            id: string_from_chars(&idc),
                            result_type: String::from_str("folder"),
                            title: string_from_chars(&dname),
                            path: string_from_chars(d),
                            relevance_milli: rel,
                            match_type: SearchMatchType::Text(rel),
                            snippet: None,
                        };
                        out.push(sr);
                        proof {
                            done = done.push(i as int);
                            assert(synth_result_ok(out@.last(), results@, i as int, folder_weight_milli as int));
                            assert(synth_idxs(results@, i as int) =~= seq![i as int] + synth_idxs(
                                results@,
                                i + 1,
                            ));
                        }
                    }
                } else {
                    proof {
                        assert(!first_with_parent(results@, i as int));
                    }
                }
            },
            None => {
                proof {
                    assert(!first_with_parent(results@, i as int));
                }
            },
        }
        proof {
            if !emit {
                assert(synth_idxs(results@, i as int) =~= synth_idxs(results@, i + 1));
            }
        }
        i = i + 1;
    }
    proof {
        assert(synth_idxs(results@, results@.len() as int) =~= Seq::<int>::empty());
        assert(done =~= synth_idxs(results@, 0));
    }
    out
}

/// The merge of the two catalog prongs (each ranked and cut) with the
/// vector and text prong results handed in.
pub open spec fn hybrid_merged(
    intent: SearchIntent,
    vector_results: Seq<SearchResult>,
    fts_results: Seq<SearchResult>,
    fr: Seq<SearchResult>,
    mr: Seq<SearchResult>,
    limit: int,
) -> Seq<SearchResult> {
    merged_spec(
        intent,
        vector_results,
        fts_results,
        take_limit(sort_desc_spec(fr), limit),
        take_limit(sort_desc_spec(mr), limit),
    )
}

/// What a hybrid search returns: there are a folder prong, a metadata
/// prong and a synthesis, all lawful over the catalog and the merge,
/// such that the answer is the merged-and-synthesized list ranked by
/// relevance and cut to the requested limit.
pub open spec fn hybrid_search_post(
    r: Seq<SearchResult>,
    store: IndexStore,
    vector_results: Seq<SearchResult>,
    fts_results: Seq<SearchResult>,
    query: Seq<char>,
    filters: SearchFilters,
    limit: int,
) -> bool {
    exists|fr: Seq<SearchResult>, mr: Seq<SearchResult>, syn: Seq<SearchResult>|
        {
            &&& #[trigger] folder_prong_ok(fr, store.folders@, query)
            &&& #[trigger] meta_prong_ok(mr, store.files@, Option::Some(query), filters)
            &&& #[trigger] synth_ok(
                syn,
                hybrid_merged(intent_of(query), vector_results, fts_results, fr, mr, limit),
                spec_weights(intent_of(query)).folder_milli as int,
            )
            &&& r == take_limit(
                sort_desc_spec(
                    hybrid_merged(intent_of(query), vector_results, fts_results, fr, mr, limit) + syn,
                ),
                limit,
            )
        }
}

/// One hybrid search: classify the query's intent, run the folder and
/// metadata prongs over the catalog, merge them with the vector and
/// text prong results handed in, synthesize folder results for shared
/// directories, and rank everything by relevance, highest first, cut to
/// `limit`.  A prong that found nothing simply contributes nothing.
pub fn perform_hybrid_search(
    store: &IndexStore,
    vector_results: &Vec<SearchResult>,
    fts_results: &Vec<SearchResult>,
    query: &str,
    filters: &SearchFilters,
    limit: usize,
) -> (r: Vec<SearchResult>)
    requires
        store.inv(),
        all_bounded(vector_results@, MAX_INPUT_RELEVANCE as int),
        all_bounded(fts_results@, MAX_INPUT_RELEVANCE as int),
        vector_results@.len() <= MAX_PRONG_RESULTS,
        fts_results@.len() <= MAX_PRONG_RESULTS,
        limit <= MAX_PRONG_RESULTS,
    ensures
        hybrid_search_post(r@, *store, vector_results@, fts_results@, query@, *filters, limit as int),
        sorted_desc(r@),
        r@.len() <= limit,
{
    let intent = classify_intent(query);
    let w = weights_for(intent);
    let folder_results = search_folders_by_name(store, query, limit);
    let metadata_results = advanced_search(store, Some(query), filters, limit);
    let merged = combine_and_rank_results(
        intent,
        vector_results,
        fts_results,
        &folder_results,
        &metadata_results,
    );
    proof {
        lemma_merge_list_len(Seq::empty(), vector_results@, spec_weights(intent).semantic_milli as int, 1000, false);
        let w0 = spec_weights(intent);
        let a1 = merge_list(Seq::empty(), vector_results@, w0.semantic_milli as int, 1000, false);
        lemma_merge_list_len(a1, fts_results@, w0.keyword_milli as int, w0.hybrid_boost_milli as int, true);
        let a2 = merge_list(a1, fts_results@, w0.keyword_milli as int, w0.hybrid_boost_milli as int, true);
        lemma_merge_list_len(a2, metadata_results@, w0.metadata_milli as int, 1000, false);
        let a3 = merge_list(a2, metadata_results@, w0.metadata_milli as int, 1000, false);
        lemma_merge_list_len(a3, folder_results@, w0.folder_milli as int, w0.hybrid_boost_milli as int, false);
    }
    let synth = synthesize_folder_results(&merged, w.folder_milli);
    let ghost merged_view = merged@;
    let ghost synth_view = synth@;
    let mut all = merged;
    let mut synth_owned = synth;
    all.append(&mut synth_owned);
    let mut sorted = sort_results_desc(&all);
    if sorted.len() > limit {
        sorted.truncate(limit);
    }
    proof {
        assert(sorted@ =~= take_limit(sort_desc_spec(all@), limit as int));
        let fr = choose|raw: Seq<SearchResult>|
            folder_prong_ok(raw, store.folders@, query@) && folder_results@ == take_limit(
                #[trigger] sort_desc_spec(raw),
                limit as int,
            );
        let mr = choose|raw: Seq<SearchResult>|
            meta_prong_ok(raw, store.files@, Option::Some(query@), *filters) && metadata_results@
                == take_limit(#[trigger] sort_desc_spec(raw), limit as int);
        assert(merged_view == hybrid_merged(
            intent_of(query@),
            vector_results@,
            fts_results@,
            fr,
            mr,
            limit as int,
        ));
        assert(synth_ok(
            synth_view,
            hybrid_merged(intent_of(query@), vector_results@, fts_results@, fr, mr, limit as int),
            spec_weights(intent_of(query@)).folder_milli as int,
        ));
        assert(sorted@ == take_limit(
            sort_desc_spec(
                hybrid_merged(intent_of(query@), vector_results@, fts_results@, fr, mr, limit as int)
                    + synth_view,
            ),
            limit as int,
        ));
        assert(folder_prong_ok(fr, store.folders@, query@));
        assert(meta_prong_ok(mr, store.files@, Option::Some(query@), *filters));
    }
    sorted
}

} // verus!
