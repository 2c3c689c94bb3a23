use langbadge::cache::{cache_file_name, decode_stats, encode_stats};
use langbadge::classify::{classify, extension};
use langbadge::config::{default_lang_config, get_color, LangConfig};
use langbadge::render::{
    fmt_pct, render, render_badge_svg, render_bar_svg, render_html_ui, render_pie,
    render_svg_ui, sort_langs, top_language, Style,
};
use langbadge::stats::Stats;

fn test_config() -> LangConfig {
    let mut cfg = default_lang_config();
    cfg.languages.push(("rs".to_string(), "Rust".to_string()));
    cfg.file_names
        .push(("makefile".to_string(), "Makefile".to_string()));
    cfg
}

fn stats(entries: &[(&str, u64)]) -> Stats {
    Stats {
        entries: entries.iter().map(|e| (e.0.to_string(), e.1)).collect(),
    }
}

#[test]
fn extension_rules_match_path_conventions() {
    assert_eq!(extension("main.rs"), Some("rs".to_string()));
    assert_eq!(extension("archive.tar.gz"), Some("gz".to_string()));
    assert_eq!(extension(".gitignore"), None);
    assert_eq!(extension("README"), None);
    assert_eq!(extension("odd."), Some("".to_string()));
}

#[test]
fn classify_uses_file_name_table_case_insensitively() {
    let cfg = test_config();
    assert_eq!(
        classify("Makefile", &cfg, false, false),
        Some("Makefile".to_string())
    );
    assert_eq!(classify("README", &cfg, false, false), None);
}

#[test]
fn classify_excluded_extension_is_skipped() {
    let cfg = test_config();
    assert_eq!(classify("notes.md", &cfg, false, false), None);
    assert_eq!(classify("Cargo.lock", &cfg, false, false), None);
}

#[test]
fn classify_unknown_extension_is_other() {
    let cfg = test_config();
    assert_eq!(classify("a.zig", &cfg, false, false), Some("Other".to_string()));
    assert_eq!(classify("a.rs", &cfg, false, false), Some("Rust".to_string()));
}

#[test]
fn classify_header_uses_tree_facts() {
    let cfg = test_config();
    assert_eq!(classify("x.h", &cfg, false, true), Some("C++".to_string()));
    assert_eq!(classify("x.hpp", &cfg, false, true), Some("C++".to_string()));
    assert_eq!(classify("x.h", &cfg, true, false), Some("C".to_string()));
    // neither sibling: the table has no `h`, so the catch-all applies
    assert_eq!(classify("x.h", &cfg, false, false), Some("Other".to_string()));
}

#[test]
fn color_lookup_and_neutral_default() {
    let colors = vec![
        ("Rust".to_string(), "#dea584".to_string()),
        ("Python".to_string(), "#3572A5".to_string()),
    ];
    assert_eq!(get_color(&colors, "Rust"), "#dea584");
    assert_eq!(get_color(&colors, "Brainfuck"), "#cccccc");
}

#[test]
fn sort_puts_other_last_and_descends() {
    let entries = vec![
        ("Go".to_string(), 1000u64),
        ("Other".to_string(), 8000u64),
        ("Rust".to_string(), 900u64),
        ("Python".to_string(), 100u64),
    ];
    let sorted = sort_langs(&entries);
    let names: Vec<&str> = sorted.iter().map(|e| e.0.as_str()).collect();
    assert_eq!(names, vec!["Go", "Rust", "Python", "Other"]);
}

#[test]
fn badge_picks_the_top_language() {
    let s = stats(&[("Go", 4000), ("Rust", 6000)]);
    let top = top_language(&s).unwrap();
    assert_eq!(top.0, "Rust");
    assert_eq!(top.1, 6000);
    let svg = render_badge_svg(&s, &Vec::new());
    assert!(svg.contains(">Rust</text>"));
    assert!(svg.contains("60.0%"));
}

#[test]
fn top_language_of_empty_stats_is_none() {
    let s = stats(&[]);
    assert!(top_language(&s).is_none());
}

#[test]
fn empty_stats_render_a_bar_with_zero_segments() {
    let s = stats(&[]);
    let svg = render_bar_svg(&s, &Vec::new());
    // only the background rectangle, no language segment
    assert_eq!(svg.matches("<rect").count(), 1);
    assert!(svg.starts_with("<svg"));
    assert!(svg.ends_with("</svg>"));
    let ui = render_svg_ui(&s, &Vec::new());
    assert!(ui.starts_with("<svg"));
    assert!(ui.ends_with("</svg>"));
    assert_eq!(ui.matches("<circle").count(), 0);
}

#[test]
fn bar_segments_are_proportional_and_in_map_order() {
    let s = stats(&[("Go", 4000), ("Rust", 6000)]);
    let colors = vec![("Go".to_string(), "#00ADD8".to_string())];
    let svg = render_bar_svg(&s, &colors);
    // 40 percent of 320px = 128px, then 60 percent = 192px from x=128
    assert!(svg.contains("<rect x='0.0' y='0' width='128.0' height='8' fill='#00ADD8' />"));
    assert!(svg.contains("<rect x='128.0' y='0' width='192.0' height='8' fill='#cccccc' />"));
}

#[test]
fn html_ui_lists_sorted_languages_with_percent_text() {
    let s = stats(&[("Go", 4000), ("Rust", 6000)]);
    let html = render_html_ui(&s, &Vec::new());
    assert!(html.starts_with("<!DOCTYPE html>"));
    assert!(html.ends_with("</html>"));
    assert!(html.contains("width:60.0%"));
    assert!(html.contains("width:40.0%"));
    let rust_at = html.find("Rust <span").unwrap();
    let go_at = html.find("Go <span").unwrap();
    assert!(rust_at < go_at);
}

#[test]
fn pie_style_is_a_documented_placeholder() {
    assert_eq!(render_pie(), "pie view is not implemented");
    let s = stats(&[("Rust", 10000)]);
    assert_eq!(render(&s, &Vec::new(), Style::Pie), "pie view is not implemented");
    assert!(render(&s, &Vec::new(), Style::Github).len() > 0);
    assert!(render(&s, &Vec::new(), Style::GithubUi).len() > 0);
    assert!(render(&s, &Vec::new(), Style::Badge).len() > 0);
}

#[test]
fn percent_text_rounds_to_one_decimal() {
    assert_eq!(fmt_pct(7500), "75.0");
    assert_eq!(fmt_pct(2500), "25.0");
    assert_eq!(fmt_pct(3333), "33.3");
    assert_eq!(fmt_pct(9999), "100.0");
    assert_eq!(fmt_pct(5), "0.1");
    assert_eq!(fmt_pct(4), "0.0");
}

#[test]
fn cache_key_is_the_hex_digest_of_the_path() {
    // the digest of the empty and of a short byte string, in lowercase hex
    assert_eq!(cache_file_name(""), "d41d8cd98f00b204e9800998ecf8427e.json");
    assert_eq!(cache_file_name("abc"), "900150983cd24fb0d6963f7d28e17f72.json");
    assert_ne!(cache_file_name("abc"), cache_file_name("abd"));
}

#[test]
fn cache_round_trip_returns_equal_stats() {
    let s = stats(&[("Rust", 7500), ("Python", 2500)]);
    let text = encode_stats(&s);
    assert_eq!(text, "{\"Rust\":75.00,\"Python\":25.00}");
    let back = decode_stats(&text).unwrap();
    assert_eq!(back.entries, s.entries);
}

#[test]
fn cache_round_trip_keeps_hundredths() {
    let s = stats(&[("Rust", 3333), ("Go", 6667)]);
    let back = decode_stats(&encode_stats(&s)).unwrap();
    assert_eq!(back.entries, s.entries);
}

#[test]
fn cache_decode_accepts_plain_json_numbers() {
    let back = decode_stats("{\"Rust\":75.0,\"Python\":25\"}");
    assert!(back.is_none()); // stray quote: malformed, a miss
    let ok = decode_stats("{\"Rust\":75.0,\"Python\":25}").unwrap();
    assert_eq!(ok.entries[0], ("Rust".to_string(), 7500));
    assert_eq!(ok.entries[1], ("Python".to_string(), 2500));
    let long = decode_stats("{\"Rust\":33.333333333333336}").unwrap();
    assert_eq!(long.entries[0], ("Rust".to_string(), 3333));
}

#[test]
fn cache_decode_rejects_malformed_text_as_a_miss() {
    assert!(decode_stats("").is_none());
    assert!(decode_stats("not json").is_none());
    assert!(decode_stats("{\"Rust\":}").is_none());
    assert!(decode_stats("{\"Rust\"").is_none());
    assert!(decode_stats("[1,2]").is_none());
    assert!(decode_stats("{\"Rust\":1e3}").is_none());
    assert!(decode_stats("{\"Rust\":250.0}").is_none()); // beyond one hundred percent
    assert_eq!(decode_stats("{}").unwrap().entries.len(), 0);
}

#[test]
fn default_configuration_matches_the_built_in_fallback() {
    let cfg = default_lang_config();
    assert_eq!(cfg.threshold_cpct, 100); // one percent
    assert_eq!(
        cfg.exclude_exts,
        vec!["txt", "json", "toml", "lock", "yml", "yaml", "log", "md"]
    );
    assert_eq!(
        cfg.exclude_langs,
        vec!["Markdown", "HTML", "JSON", "TOML", "XML", "YAML"]
    );
    assert!(cfg.languages.is_empty());
    assert!(cfg.file_names.is_empty());
    assert!(cfg.header_rules.is_empty());
}
