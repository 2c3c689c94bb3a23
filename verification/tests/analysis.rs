use langbadge::aggregate::{aggregate_counts, merge_counts, Counts, FileEntry};
use langbadge::analyze::analyze_file_entries;
use langbadge::config::{default_lang_config, LangConfig};
use langbadge::stats::{collapse_small, to_percentages, Stats};

fn entry(path: &[&str], size: u64) -> FileEntry {
    FileEntry { segments: path.iter().map(|s| s.to_string()).collect(), size }
}

fn test_config() -> LangConfig {
    let mut cfg = default_lang_config();
    cfg.languages.push(("rs".to_string(), "Rust".to_string()));
    cfg.languages.push(("py".to_string(), "Python".to_string()));
    cfg.languages.push(("go".to_string(), "Go".to_string()));
    cfg.languages.push(("c".to_string(), "C".to_string()));
    cfg.languages.push(("h".to_string(), "C".to_string()));
    cfg.languages.push(("cpp".to_string(), "C++".to_string()));
    cfg
}

fn value_of(stats: &Stats, lang: &str) -> Option<u64> {
    stats
        .entries
        .iter()
        .find(|e| e.0 == lang)
        .map(|e| e.1)
}

#[test]
fn example_tree_percentages() {
    // a.rs (300 bytes) + b.py (100 bytes) + .git/c.rs (ignored entirely)
    let files = vec![
        entry(&["a.rs"], 300),
        entry(&["b.py"], 100),
        entry(&[".git", "c.rs"], 12345),
    ];
    let cfg = test_config();
    let stats = analyze_file_entries(&files, &cfg, true);
    assert_eq!(stats.entries.len(), 2);
    assert_eq!(value_of(&stats, "Rust"), Some(7500)); // 75.00 percent
    assert_eq!(value_of(&stats, "Python"), Some(2500)); // 25.00 percent
    assert_eq!(value_of(&stats, "Other"), None);
}

#[test]
fn empty_tree_yields_empty_stats() {
    let files: Vec<FileEntry> = Vec::new();
    let cfg = test_config();
    let stats = analyze_file_entries(&files, &cfg, true);
    assert_eq!(stats.entries.len(), 0);
}

#[test]
fn excluded_only_tree_yields_empty_stats() {
    // Only excluded extensions and unclassifiable names: no entries at all.
    let files = vec![entry(&["notes.txt"], 500), entry(&["UNKNOWNFILE"], 300)];
    let cfg = test_config();
    let stats = analyze_file_entries(&files, &cfg, true);
    assert_eq!(stats.entries.len(), 0);
}

#[test]
fn percentages_sum_to_whole() {
    // Three languages with an uneven split still sum to 100 percent within
    // one hundredth of a percent per language.
    let files = vec![
        entry(&["a.rs"], 100),
        entry(&["b.py"], 100),
        entry(&["c.go"], 100),
    ];
    let cfg = test_config();
    let stats = analyze_file_entries(&files, &cfg, false);
    let sum: u64 = stats.entries.iter().map(|e| e.1).sum();
    assert!(sum <= 10000);
    assert!(sum >= 10000 - stats.entries.len() as u64);
    assert_eq!(sum, 9999); // three times 33.33
}

#[test]
fn unknown_extension_counts_as_other() {
    let files = vec![entry(&["prog.zig"], 100), entry(&["a.rs"], 100)];
    let cfg = test_config();
    let stats = analyze_file_entries(&files, &cfg, false);
    assert_eq!(value_of(&stats, "Other"), Some(5000));
    assert_eq!(value_of(&stats, "Rust"), Some(5000));
}

#[test]
fn excluded_language_counts_nowhere() {
    // HTML is an excluded language: its bytes inflate neither numerator
    // nor denominator.
    let mut cfg = test_config();
    cfg.languages.push(("html".to_string(), "HTML".to_string()));
    let files = vec![entry(&["index.html"], 900), entry(&["a.rs"], 100)];
    let stats = analyze_file_entries(&files, &cfg, false);
    assert_eq!(stats.entries.len(), 1);
    assert_eq!(value_of(&stats, "Rust"), Some(10000));
}

#[test]
fn vendor_directories_are_pruned() {
    let files = vec![
        entry(&["a.rs"], 100),
        entry(&["node_modules", "x.py"], 400),
        entry(&["target", "y.py"], 400),
        entry(&["sub", "dist", "z.py"], 400),
    ];
    let cfg = test_config();
    let stats = analyze_file_entries(&files, &cfg, false);
    assert_eq!(stats.entries.len(), 1);
    assert_eq!(value_of(&stats, "Rust"), Some(10000));
}

#[test]
fn deep_entries_beyond_walk_bound_are_skipped() {
    let mut deep: Vec<&str> = Vec::new();
    let dirs = ["d1", "d2", "d3", "d4", "d5", "d6", "d7", "d8", "d9", "d10", "d11", "d12",
        "d13", "d14", "d15"];
    for d in dirs.iter() {
        deep.push(d);
    }
    deep.push("deep.py"); // depth 16: beyond the bound
    let files = vec![entry(&["a.rs"], 100), entry(&deep, 900)];
    let cfg = test_config();
    let stats = analyze_file_entries(&files, &cfg, false);
    assert_eq!(stats.entries.len(), 1);
    assert_eq!(value_of(&stats, "Rust"), Some(10000));
}

#[test]
fn zero_size_files_are_present_but_total_zero_is_empty() {
    // Files whose metadata could not be read contribute size 0; a tree of
    // only such files has a zero total and yields the empty map.
    let files = vec![entry(&["a.rs"], 0), entry(&["b.py"], 0)];
    let cfg = test_config();
    let stats = analyze_file_entries(&files, &cfg, false);
    assert_eq!(stats.entries.len(), 0);
}

#[test]
fn sequential_and_merged_parallel_counts_agree() {
    // Splitting the list anywhere and merging partial counts gives the
    // sequential sums: the parallel mode is deterministic.
    let all = vec![
        entry(&["a.rs"], 300),
        entry(&["b.py"], 100),
        entry(&["c.go"], 200),
        entry(&["d.rs"], 50),
        entry(&["sub", "e.py"], 150),
    ];
    let cfg = test_config();
    let whole = aggregate_counts(&all, &cfg);
    for split in 0..=all.len() {
        let left: Vec<FileEntry> = all[..split].to_vec();
        let right: Vec<FileEntry> = all[split..].to_vec();
        let merged = merge_counts(&aggregate_counts(&left, &cfg), &aggregate_counts(&right, &cfg));
        assert_eq!(merged.total, whole.total);
        assert_eq!(merged.entries.len(), whole.entries.len());
        for (lang, bytes) in whole.entries.iter() {
            let got = merged.entries.iter().find(|e| &e.0 == lang).map(|e| e.1);
            assert_eq!(got, Some(*bytes));
        }
    }
}

#[test]
fn header_with_cpp_sibling_is_cpp() {
    let files = vec![entry(&["foo.h"], 100), entry(&["bar.cpp"], 100)];
    let cfg = test_config();
    let counts = aggregate_counts(&files, &cfg);
    let pcts = to_percentages(&counts);
    assert_eq!(value_of(&pcts, "C++"), Some(10000)); // both foo.h and bar.cpp
    assert_eq!(value_of(&pcts, "C"), None);
}

#[test]
fn header_with_c_sibling_is_c() {
    let files = vec![entry(&["foo.h"], 100), entry(&["bar.c"], 100)];
    let cfg = test_config();
    let counts = aggregate_counts(&files, &cfg);
    let pcts = to_percentages(&counts);
    assert_eq!(value_of(&pcts, "C"), Some(10000));
    assert_eq!(value_of(&pcts, "C++"), None);
}

#[test]
fn lone_header_falls_back_to_extension_table() {
    // No C or C++ sibling anywhere: `h` resolves through the extension
    // table, which maps it to "C".
    let files = vec![entry(&["foo.h"], 100)];
    let cfg = test_config();
    let counts = aggregate_counts(&files, &cfg);
    let pcts = to_percentages(&counts);
    assert_eq!(value_of(&pcts, "C"), Some(10000));
}

#[test]
fn threshold_collapses_small_languages_into_other() {
    let stats = Stats {
        entries: vec![
            ("Rust".to_string(), 9900u64),
            ("Python".to_string(), 60u64),
            ("Go".to_string(), 40u64),
        ],
    };
    let out = collapse_small(&stats, 100);
    assert_eq!(out.entries.len(), 2);
    assert_eq!(out.entries[0], ("Rust".to_string(), 9900));
    assert_eq!(out.entries[1], ("Other".to_string(), 100));
    let sum: u64 = out.entries.iter().map(|e| e.1).sum();
    assert_eq!(sum, 10000);
}

#[test]
fn threshold_without_small_languages_adds_no_other() {
    let stats = Stats {
        entries: vec![("Rust".to_string(), 6000u64), ("Go".to_string(), 4000u64)],
    };
    let out = collapse_small(&stats, 100);
    assert_eq!(out.entries.len(), 2);
    assert!(out.entries.iter().all(|e| e.0 != "Other"));
}

#[test]
fn threshold_adds_collapsed_mass_to_existing_other() {
    let stats = Stats {
        entries: vec![
            ("Other".to_string(), 500u64),
            ("Rust".to_string(), 9450u64),
            ("Go".to_string(), 50u64),
        ],
    };
    let out = collapse_small(&stats, 100);
    assert_eq!(out.entries.len(), 2);
    assert_eq!(out.entries[0], ("Other".to_string(), 550));
    assert_eq!(out.entries[1], ("Rust".to_string(), 9450));
}

#[test]
fn merge_is_pointwise_addition() {
    let a = Counts {
        entries: vec![("Rust".to_string(), 300u64), ("Go".to_string(), 100u64)],
        total: 400,
    };
    let b = Counts {
        entries: vec![("Go".to_string(), 50u64), ("Python".to_string(), 25u64)],
        total: 75,
    };
    let m = merge_counts(&a, &b);
    assert_eq!(m.total, 475);
    let get = |k: &str| m.entries.iter().find(|e| e.0 == k).map(|e| e.1);
    assert_eq!(get("Rust"), Some(300));
    assert_eq!(get("Go"), Some(150));
    assert_eq!(get("Python"), Some(25));
    assert_eq!(m.entries.len(), 3);
}

#[test]
fn file_name_table_matches_any_casing() {
    let mut cfg = test_config();
    cfg.file_names
        .push(("makefile".to_string(), "Makefile".to_string()));
    let files = vec![entry(&["MAKEFILE"], 100), entry(&["sub", "Makefile"], 100)];
    let stats = analyze_file_entries(&files, &cfg, false);
    assert_eq!(value_of(&stats, "Makefile"), Some(10000));
}
