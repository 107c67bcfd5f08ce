//! Scoring, the rule engine, and discovery filtering.

use file_corpus::discovery::{check_phase1_rules, discover_drives, should_exclude_path};
use file_corpus::rules::{RuleCategory, RuleStore, RuleType};
use file_corpus::score::{
    calculate_file_score, HALF_YEAR_SECONDS, MONTH_SECONDS, WEEK_SECONDS,
};

fn strings(xs: &[&str]) -> Vec<String> {
    xs.iter().map(|s| s.to_string()).collect()
}

#[test]
fn a_fresh_report_under_an_included_root_scores_high() {
    let included = strings(&["/inc"]);
    // document base 4.0 + included root 3.0 + fresh 2.0 + report bonus 0.5
    let score = calculate_file_score("/inc/report.txt", 1000, Some(0), &included);
    assert_eq!(score, 95);
}

#[test]
fn log_paths_score_near_zero() {
    let included = strings(&[]);
    let score = calculate_file_score("/var/logs/app.txt", 1000, None, &included);
    assert_eq!(score, 5);
}

#[test]
fn the_name_bonus_is_capped_at_one_point() {
    let included = strings(&[]);
    // txt document, stale, small: base 4.0; three keywords would add 1.5
    // but the bonus caps at 1.0
    let score = calculate_file_score(
        "/x/final-project-report.txt",
        1000,
        Some(HALF_YEAR_SECONDS),
        &included,
    );
    assert_eq!(score, 50);
}

#[test]
fn huge_files_are_penalised_and_scores_never_go_negative() {
    let included = strings(&[]);
    // unknown extension, stale, over 500 MiB: 0.0 - 1.0 clamps to 0.0
    let score = calculate_file_score("/x/blob.xyz", 600_000_000, Some(HALF_YEAR_SECONDS), &included);
    assert_eq!(score, 0);
}

#[test]
fn recency_buckets_never_reward_an_older_file_more() {
    let included = strings(&[]);
    let ages = [
        Some(0),
        Some(WEEK_SECONDS - 1),
        Some(WEEK_SECONDS),
        Some(MONTH_SECONDS - 1),
        Some(MONTH_SECONDS),
        Some(HALF_YEAR_SECONDS - 1),
        Some(HALF_YEAR_SECONDS),
        Some(HALF_YEAR_SECONDS * 10),
    ];
    let mut last = u32::MAX;
    for age in ages {
        let s = calculate_file_score("/x/a.md", 1000, age, &included);
        assert!(s <= last);
        assert!(s <= 100);
        last = s;
    }
}

#[test]
fn rule_tags_and_table_names() {
    assert_eq!(RuleType::Include.as_str(), "include");
    assert_eq!(RuleType::Exclude.as_str(), "exclude");
    assert_eq!(RuleCategory::Path.table_name(), "path_rules");
    assert_eq!(RuleCategory::Folder.table_name(), "folder_rules");
    assert_eq!(RuleCategory::Extension.column_name(), "extension");
    assert_eq!(RuleCategory::Filename.column_name(), "filename");
}

#[test]
fn adding_a_rule_twice_keeps_one_entry() {
    let mut store = RuleStore::new();
    store.add_rule(RuleCategory::Path, RuleType::Include, "/home", true, "t0");
    store.add_rule(RuleCategory::Path, RuleType::Include, "/home", true, "t1");
    assert_eq!(store.get_included_paths_sync(), strings(&["/home"]));
}

#[test]
fn extension_rules_are_case_insensitive_sets() {
    let mut store = RuleStore::new();
    store.add_rule(RuleCategory::Extension, RuleType::Include, "MD", false, "t0");
    store.add_rule(RuleCategory::Extension, RuleType::Include, "md", false, "t1");
    assert_eq!(store.get_included_extensions_sync(), strings(&["MD"]));
    store.remove_rule(RuleCategory::Extension, RuleType::Include, "mD");
    assert_eq!(store.get_included_extensions_sync().len(), 0);
}

#[test]
fn rule_sets_are_split_by_category_and_type() {
    let mut store = RuleStore::new();
    store.add_rule(RuleCategory::Path, RuleType::Include, "/a", true, "t");
    store.add_rule(RuleCategory::Path, RuleType::Exclude, "/b", true, "t");
    store.add_rule(RuleCategory::Folder, RuleType::Exclude, "target", true, "t");
    store.add_rule(RuleCategory::Filename, RuleType::Exclude, ".env", false, "t");
    assert_eq!(store.get_included_paths_sync(), strings(&["/a"]));
    assert_eq!(store.get_excluded_paths_sync(), strings(&["/b"]));
    assert_eq!(store.get_excluded_folder_sync(), strings(&["target"]));
    assert_eq!(store.get_excluded_filenames_sync(), strings(&[".env"]));
    assert_eq!(store.get_included_folders_sync().len(), 0);
    assert_eq!(store.get_excluded_extensions_sync().len(), 0);
}

#[test]
fn removing_an_absent_rule_changes_nothing() {
    let mut store = RuleStore::new();
    store.add_rule(RuleCategory::Folder, RuleType::Exclude, "dist", true, "t");
    store.remove_rule(RuleCategory::Folder, RuleType::Exclude, "build");
    assert_eq!(store.get_excluded_folder_sync(), strings(&["dist"]));
}

#[test]
fn excluded_folder_names_prune_whole_subtrees() {
    let folders = strings(&["node_modules"]);
    let none = strings(&[]);
    assert!(should_exclude_path("/p/node_modules/x.js", &folders, &none, None));
    assert!(should_exclude_path("/p/NODE_MODULES/x.js", &folders, &none, None));
    assert!(!should_exclude_path("/p/src/x.js", &folders, &none, None));
}

#[test]
fn hidden_directories_are_always_excluded() {
    let none = strings(&[]);
    assert!(should_exclude_path("/p/.git/config", &none, &none, None));
    assert!(should_exclude_path("/p/.hidden.txt", &none, &none, None));
    assert!(!should_exclude_path("/p/visible.txt", &none, &none, None));
}

#[test]
fn exclude_path_rules_match_by_prefix_after_trimming() {
    let none = strings(&[]);
    let paths = strings(&["  /tmp  ", "   "]);
    assert!(should_exclude_path("/tmp/x", &none, &paths, None));
    assert!(!should_exclude_path("/home/x", &none, &paths, None));
}

#[test]
fn an_extension_list_admits_only_its_members() {
    let none = strings(&[]);
    let exts = strings(&["md"]);
    assert!(!should_exclude_path("/p/notes.md", &none, &none, Some(&exts)));
    assert!(!should_exclude_path("/p/notes.MD", &none, &none, Some(&exts)));
    assert!(should_exclude_path("/p/pic.png", &none, &none, Some(&exts)));
    let empty = strings(&[]);
    assert!(!should_exclude_path("/p/pic.png", &none, &none, Some(&empty)));
}

#[test]
fn content_processing_needs_an_included_root() {
    let roots = strings(&["/docs"]);
    let folders = strings(&[]);
    let exts = strings(&["md"]);
    assert_eq!(check_phase1_rules("/docs/a.md", &roots, &folders, &exts), (true, false));
    assert_eq!(check_phase1_rules("/other/a.md", &roots, &folders, &exts), (false, false));
    assert_eq!(check_phase1_rules("/docs/a.png", &roots, &folders, &exts), (false, false));
    let excl = strings(&["secret"]);
    assert_eq!(check_phase1_rules("/docs/secret/a.md", &roots, &excl, &exts), (false, true));
}

#[test]
fn drive_listing_names_present_letters() {
    let mut present = vec![false; 26];
    present[2] = true;
    present[25] = true;
    assert_eq!(discover_drives(&present), strings(&["C:\\", "Z:\\"]));
}
