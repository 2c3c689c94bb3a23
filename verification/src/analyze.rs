//! The whole analysis over a walked file list: classify, sum bytes per
//! language, turn the sums into exact fixed-point percentages, and, for
//! the precise mode, collapse the languages under the display threshold
//! into "Other". The fast mode skips collapsing and returns the raw
//! percentages; a parallel caller reproduces its sums exactly with
//! [`crate::aggregate::merge_counts`] over any split of the list.

use vstd::prelude::*;
use crate::config::LangConfig;
use crate::aggregate::{
    FileEntry, aggregate_counts, total_bytes, lang_bytes, spec_tree_has_c, spec_tree_has_cpp,
    val_of, has_key, keys_unique, sum_values, lang_present, lemma_sum_values_element,
    lemma_sum_values_nonneg,
};
use crate::stats::{
    Stats, to_percentages, collapse_small, spec_pct, sum_pcts, is_collapse_of,
    lemma_percentages_sum_to_whole,
};

verus! {

proof fn lemma_val_of_mapped(c: Seq<(String, u64)>, t: Seq<(String, u64)>, total: int)
    requires
        total > 0,
        c.len() == t.len(),
        forall|j: int|
            0 <= j < c.len() ==> t[j].0@ == c[j].0@ && t[j].1 == spec_pct(c[j].1 as int, total),
    ensures
        forall|lang: Seq<char>|
            #[trigger] val_of(t, lang) == spec_pct(val_of(c, lang), total),
        forall|lang: Seq<char>| #[trigger] has_key(t, lang) == has_key(c, lang),
    decreases c.len(),
{
    assert(0int * 10000 == 0);
    assert(spec_pct(0, total) == 0) by {
        vstd::arithmetic::div_mod::lemma_div_of0(total);
    }
    assert forall|lang: Seq<char>| #[trigger] has_key(t, lang) == has_key(c, lang) by {
        if has_key(t, lang) {
            let k = choose|k: int| 0 <= k < t.len() && t[k].0@ == lang;
            assert(c[k].0@ == lang);
        }
        if has_key(c, lang) {
            let k = choose|k: int| 0 <= k < c.len() && c[k].0@ == lang;
            assert(t[k].0@ == lang);
        }
    }
    if c.len() > 0 {
        assert(forall|j: int|
            0 <= j < c.drop_first().len() ==> c.drop_first()[j] == c[j + 1]
                && t.drop_first()[j] == t[j + 1]);
        lemma_val_of_mapped(c.drop_first(), t.drop_first(), total);
        assert forall|lang: Seq<char>|
            #[trigger] val_of(t, lang) == spec_pct(val_of(c, lang), total) by {
            if c[0].0@ != lang {
                assert(val_of(t.drop_first(), lang) == spec_pct(
                    val_of(c.drop_first(), lang),
                    total,
                ));
            }
        }
    }
}

/// Analyzes a walked file list.
///
/// With `collapse` set (the precise mode) the languages under the
/// configured display threshold are folded into "Other"; without it (the
/// fast mode) the raw percentages come back unchanged. Either way the
/// entries are distinct languages, every value is a percentage in
/// hundredths of a percent, the values sum to at most one hundred
/// percent, and a tree of only excluded or unclassifiable bytes yields
/// the empty map. In the fast mode the map holds exactly the languages
/// of the counted files, each at the floor of its exact percentage of
/// the counted bytes.
pub fn analyze_file_entries(files: &Vec<FileEntry>, cfg: &LangConfig, collapse: bool) -> (r:
    Stats)
    requires
        total_bytes(files@, *cfg, spec_tree_has_c(files@), spec_tree_has_cpp(files@))
            <= u64::MAX,
    ensures
        keys_unique(r.entries@),
        sum_values(r.entries@) <= 10000,
        forall|k: int| 0 <= k < r.entries@.len() ==> r.entries@[k].1 <= 10000,
        total_bytes(files@, *cfg, spec_tree_has_c(files@), spec_tree_has_cpp(files@)) == 0
            ==> r.entries@.len() == 0,
        (!collapse && total_bytes(
            files@,
            *cfg,
            spec_tree_has_c(files@),
            spec_tree_has_cpp(files@),
        ) > 0) ==> sum_values(r.entries@) >= 10000 - r.entries@.len(),
        (!collapse && total_bytes(
            files@,
            *cfg,
            spec_tree_has_c(files@),
            spec_tree_has_cpp(files@),
        ) > 0) ==> forall|lang: Seq<char>|
            #[trigger] val_of(r.entries@, lang) == spec_pct(
                lang_bytes(files@, *cfg, spec_tree_has_c(files@), spec_tree_has_cpp(files@), lang),
                total_bytes(files@, *cfg, spec_tree_has_c(files@), spec_tree_has_cpp(files@)),
            ),
        (!collapse && total_bytes(
            files@,
            *cfg,
            spec_tree_has_c(files@),
            spec_tree_has_cpp(files@),
        ) > 0) ==> forall|lang: Seq<char>|
            #[trigger] has_key(r.entries@, lang) == lang_present(
                files@,
                *cfg,
                spec_tree_has_c(files@),
                spec_tree_has_cpp(files@),
                lang,
            ),
        collapse ==> forall|k: int|
            0 <= k < r.entries@.len() ==> r.entries@[k].1 >= cfg.threshold_cpct
                || r.entries@[k].0@ == "Other"@,
        (collapse && total_bytes(
            files@,
            *cfg,
            spec_tree_has_c(files@),
            spec_tree_has_cpp(files@),
        ) > 0) ==> exists|raw: Seq<(String, u64)>|
            #[trigger] is_collapse_of(r.entries@, raw, cfg.threshold_cpct) && keys_unique(raw)
                && 10000 - raw.len() <= sum_values(raw) <= 10000 && (forall|lang: Seq<char>|
                #[trigger] val_of(raw, lang) == spec_pct(
                    lang_bytes(
                        files@,
                        *cfg,
                        spec_tree_has_c(files@),
                        spec_tree_has_cpp(files@),
                        lang,
                    ),
                    total_bytes(files@, *cfg, spec_tree_has_c(files@), spec_tree_has_cpp(files@)),
                )) && (forall|lang: Seq<char>|
                #[trigger] has_key(raw, lang) == lang_present(
                    files@,
                    *cfg,
                    spec_tree_has_c(files@),
                    spec_tree_has_cpp(files@),
                    lang,
                )),
{
    let counts = aggregate_counts(files, cfg);
    let pcts = to_percentages(&counts);
    proof {
        if counts.total > 0 {
            lemma_percentages_sum_to_whole(counts.entries@, counts.total as int);
            assert(sum_values(pcts.entries@) <= 10000);
            lemma_val_of_mapped(counts.entries@, pcts.entries@, counts.total as int);
        } else {
            assert(sum_values(pcts.entries@) == 0);
        }
    }
    if !collapse {
        return pcts;
    }
    let r = collapse_small(&pcts, cfg.threshold_cpct);
    proof {
        assert forall|k: int| 0 <= k < r.entries@.len() implies r.entries@[k].1 <= 10000 by {
            lemma_sum_values_element(r.entries@, k);
        }
        if counts.total > 0 {
            let ghost raw = pcts.entries@;
            let ghost hc = spec_tree_has_c(files@);
            let ghost hcpp = spec_tree_has_cpp(files@);
            let ghost total = total_bytes(files@, *cfg, hc, hcpp);
            assert forall|lang: Seq<char>|
                #[trigger] val_of(raw, lang) == spec_pct(
                    lang_bytes(files@, *cfg, hc, hcpp, lang),
                    total,
                ) by {
                assert(val_of(raw, lang) == spec_pct(
                    val_of(counts.entries@, lang),
                    counts.total as int,
                ));
                assert(val_of(counts.entries@, lang) == lang_bytes(files@, *cfg, hc, hcpp, lang));
            }
            assert(is_collapse_of(r.entries@, raw, cfg.threshold_cpct) && keys_unique(raw)
                && 10000 - raw.len() <= sum_values(raw) <= 10000);
        }
    }
    r
}

} // verus!
