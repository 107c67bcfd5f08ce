//! Query analysis, the multi-prong merge, ranking and folder synthesis.

use file_corpus::category::FileCategory;
use file_corpus::search::{
    advanced_search, classify_intent, combine_and_rank_results, parse_query,
    perform_hybrid_search, search_folders_by_name, sort_results_desc,
    synthesize_folder_results, weights_for, SearchFilters, SearchIntent, SearchMatchType,
    SearchResult,
};
use file_corpus::store::IndexStore;

fn result(id: &str, rtype: &str, path: &str, rel: i64, mt: SearchMatchType) -> SearchResult {
    SearchResult {
        id: id.to_string(),
        result_type: rtype.to_string(),
        title: id.to_string(),
        path: path.to_string(),
        relevance_milli: rel,
        match_type: mt,
        snippet: None,
    }
}

#[test]
fn short_or_quoted_queries_are_keyword_searches() {
    assert_eq!(classify_intent("budget"), SearchIntent::KeywordBased);
    assert_eq!(classify_intent("one two three"), SearchIntent::KeywordBased);
    assert_eq!(
        classify_intent("find the \"quarterly budget\" spreadsheet for me"),
        SearchIntent::KeywordBased
    );
    assert_eq!(
        classify_intent("where did I put the budget"),
        SearchIntent::NaturalLanguage
    );
}

#[test]
fn parsing_a_plain_query_leaves_it_unfiltered() {
    // "from last" is not a date pair, so nothing is extracted
    let (term, filters) = parse_query("tax documents from last year");
    assert_eq!(term, "tax documents from last year");
    assert!(filters.extensions.is_none());
    assert!(filters.date_from.is_none());
    assert!(filters.date_to.is_none());
    assert!(filters.min_size.is_none());
    assert!(filters.max_size.is_none());
}

#[test]
fn parsing_extracts_extension_keywords_and_date_bounds() {
    let (term, filters) = parse_query("budget .pdf report from 2024-01-01 to 2024-06-30");
    assert_eq!(term, "budget report");
    assert_eq!(filters.extensions, Some(vec!["pdf".to_string()]));
    assert_eq!(filters.date_from.as_deref(), Some("2024-01-01"));
    assert_eq!(filters.date_to.as_deref(), Some("2024-06-30"));
    assert!(filters.min_size.is_none());
    assert!(filters.max_size.is_none());
}

#[test]
fn parsing_collects_every_extension_and_keeps_the_first_date() {
    let (term, filters) = parse_query(".md .TXT notes from 2023-01-01 from 2024-01-01");
    assert_eq!(term, "notes");
    assert_eq!(filters.extensions, Some(vec!["md".to_string(), "TXT".to_string()]));
    // every from-pair is consumed, but the first date counts
    assert_eq!(filters.date_from.as_deref(), Some("2023-01-01"));
    assert!(filters.date_to.is_none());
}

#[test]
fn weight_tables_follow_the_intent() {
    let nl = weights_for(SearchIntent::NaturalLanguage);
    assert_eq!(
        (nl.semantic_milli, nl.keyword_milli, nl.folder_milli, nl.metadata_milli),
        (600, 200, 300, 100)
    );
    let kb = weights_for(SearchIntent::KeywordBased);
    assert_eq!(
        (kb.semantic_milli, kb.keyword_milli, kb.folder_milli, kb.metadata_milli),
        (200, 600, 400, 200)
    );
    assert_eq!(nl.hybrid_boost_milli, 1500);
}

#[test]
fn a_hybrid_match_outranks_either_single_prong() {
    let vector = vec![result("file-1", "file", "/a/x.md", 800, SearchMatchType::Vector(800))];
    let fts = vec![result("file-1", "file", "/a/x.md", 600, SearchMatchType::Text(600))];
    let none: Vec<SearchResult> = Vec::new();
    let merged =
        combine_and_rank_results(SearchIntent::KeywordBased, &vector, &fts, &none, &none);
    assert_eq!(merged.len(), 1);
    // vector: 800 * 0.2 = 160; text boosted: 600 * 0.6 * 1.5 = 540
    assert_eq!(merged[0].relevance_milli, 700);
    let v_alone = 800 * 200 / 1000;
    let t_alone = 600 * 600 / 1000;
    assert!(merged[0].relevance_milli >= v_alone);
    assert!(merged[0].relevance_milli >= t_alone);
    assert_eq!(merged[0].match_type, SearchMatchType::Hybrid(800, 600));
}

#[test]
fn results_seen_by_one_prong_keep_their_weighted_score() {
    let vector = vec![result("file-1", "file", "/a/x.md", 900, SearchMatchType::Vector(900))];
    let fts = vec![result("file-2", "file", "/a/y.md", 500, SearchMatchType::Text(500))];
    let none: Vec<SearchResult> = Vec::new();
    let merged =
        combine_and_rank_results(SearchIntent::NaturalLanguage, &vector, &fts, &none, &none);
    assert_eq!(merged.len(), 2);
    assert_eq!(merged[0].relevance_milli, 900 * 600 / 1000);
    assert_eq!(merged[0].match_type, SearchMatchType::Vector(900));
    assert_eq!(merged[1].relevance_milli, 500 * 200 / 1000);
    assert_eq!(merged[1].match_type, SearchMatchType::Text(500));
}

#[test]
fn ranking_is_descending_and_stable_on_ties() {
    let a = result("file-1", "file", "/a", 500, SearchMatchType::Text(500));
    let b = result("file-2", "file", "/b", 900, SearchMatchType::Text(900));
    let c = result("file-3", "file", "/c", 500, SearchMatchType::Text(500));
    let sorted = sort_results_desc(&vec![a, b, c]);
    let ids: Vec<&str> = sorted.iter().map(|r| r.id.as_str()).collect();
    assert_eq!(ids, vec!["file-2", "file-1", "file-3"]);
}

#[test]
fn folder_prong_matches_names_and_paths_by_score() {
    let mut store = IndexStore::new();
    store.insert_folder("/data/reports", "t", "t", "t");
    store.insert_folder("/data/misc", "t", "t", "t");
    store
        .insert_file("/data/reports/a.md", "", FileCategory::Document, true, 60, 10, "t", "t", "t")
        .unwrap();
    store.update_folder_scores();
    let hits = search_folders_by_name(&store, "repo", 10);
    assert_eq!(hits.len(), 1);
    assert_eq!(hits[0].id, "folder-1");
    assert_eq!(hits[0].result_type, "folder");
    assert_eq!(hits[0].title, "reports");
    assert_eq!(hits[0].relevance_milli, 6000);
}

#[test]
fn metadata_prong_matches_file_names_case_insensitively() {
    let mut store = IndexStore::new();
    store
        .insert_file("/d/Budget2024.md", "", FileCategory::Document, true, 80, 10, "t", "t", "t")
        .unwrap();
    store
        .insert_file("/d/notes.md", "", FileCategory::Document, true, 90, 10, "t", "t", "t")
        .unwrap();
    let hits = advanced_search(&store, Some("budget"), &SearchFilters::default(), 10);
    assert_eq!(hits.len(), 1);
    assert_eq!(hits[0].id, "file-1");
    assert_eq!(hits[0].title, "Budget2024.md");
    // without a name query every file matches, ranked by score
    let all = advanced_search(&store, None, &SearchFilters::default(), 10);
    assert_eq!(all.len(), 2);
    assert_eq!(all[0].id, "file-2");
    assert_eq!(all[1].id, "file-1");
    let capped = advanced_search(&store, None, &SearchFilters::default(), 1);
    assert_eq!(capped.len(), 1);
}

#[test]
fn metadata_prong_honours_the_structured_filters() {
    let mut store = IndexStore::new();
    store
        .insert_file("/d/report.md", "", FileCategory::Document, true, 80, 500, "t", "2024-03-01", "t")
        .unwrap();
    store
        .insert_file("/d/report.pdf", "", FileCategory::Document, true, 70, 9000, "t", "2024-09-01", "t")
        .unwrap();

    let mut only_pdf = SearchFilters::default();
    only_pdf.extensions = Some(vec!["PDF".to_string()]);
    let hits = advanced_search(&store, Some("report"), &only_pdf, 10);
    assert_eq!(hits.len(), 1);
    assert_eq!(hits[0].path, "/d/report.pdf");

    let mut early = SearchFilters::default();
    early.date_from = Some("2024-01-01".to_string());
    early.date_to = Some("2024-06-30".to_string());
    let hits = advanced_search(&store, None, &early, 10);
    assert_eq!(hits.len(), 1);
    assert_eq!(hits[0].path, "/d/report.md");

    let mut big = SearchFilters::default();
    big.min_size = Some(1000);
    let hits = advanced_search(&store, None, &big, 10);
    assert_eq!(hits.len(), 1);
    assert_eq!(hits[0].path, "/d/report.pdf");

    let mut small = SearchFilters::default();
    small.max_size = Some(1000);
    let hits = advanced_search(&store, None, &small, 10);
    assert_eq!(hits.len(), 1);
    assert_eq!(hits[0].path, "/d/report.md");
}

#[test]
fn shared_directories_earn_a_synthetic_folder_result() {
    let merged = vec![
        result("file-1", "file", "/shared/a.md", 700, SearchMatchType::Text(700)),
        result("file-2", "file", "/shared/b.md", 600, SearchMatchType::Text(600)),
        result("file-3", "file", "/lonely/c.md", 500, SearchMatchType::Text(500)),
        result("folder-9", "folder", "/shared", 400, SearchMatchType::Text(400)),
    ];
    let synth = synthesize_folder_results(&merged, 300);
    assert_eq!(synth.len(), 1);
    assert_eq!(synth[0].id, "folder-/shared");
    assert_eq!(synth[0].result_type, "folder");
    assert_eq!(synth[0].path, "/shared");
    assert_eq!(synth[0].title, "shared");
    // two sharers, weighted by the folder weight
    assert_eq!(synth[0].relevance_milli, 2 * 300);
}

#[test]
fn hybrid_search_merges_ranks_and_truncates() {
    let mut store = IndexStore::new();
    store
        .insert_file("/w/plan.md", "", FileCategory::Document, true, 90, 10, "t", "t", "t")
        .unwrap();
    store.insert_folder("/w", "t", "t", "t");
    store.update_folder_scores();
    let vector = vec![
        result("file-1", "file", "/w/plan.md", 800, SearchMatchType::Vector(800)),
        result("file-77", "file", "/x/other.md", 300, SearchMatchType::Vector(300)),
    ];
    let fts = vec![result("file-1", "file", "/w/plan.md", 500, SearchMatchType::Text(500))];
    let results = perform_hybrid_search(&store, &vector, &fts, "plan", &SearchFilters::default(), 3);
    assert!(results.len() <= 3);
    assert!(results.len() >= 1);
    for w in results.windows(2) {
        assert!(w[0].relevance_milli >= w[1].relevance_milli);
    }
    // the file seen by both prongs is marked hybrid and ranks first
    assert_eq!(results[0].id, "file-1");
    assert!(matches!(results[0].match_type, SearchMatchType::Hybrid(800, 500)));
}
