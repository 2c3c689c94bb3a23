//! Walk aggregation: classifies every visible file of a walked tree and
//! sums byte sizes per language.
//!
//! The walk itself is the caller's business; it hands over one [`FileEntry`]
//! per regular file, holding the path segments below the scanned root and
//! the file's byte size (zero when its metadata could not be read). A file
//! is counted unless a directory segment on its path is one of the
//! well-known vendor/build names, its depth exceeds the walk bound, it has
//! no classification, or its language is excluded.

use vstd::prelude::*;
use vstd::string::*;
use crate::config::LangConfig;
use crate::classify::{spec_ext, spec_classify, extension, classify};
use crate::strutil::{seq_contains_str, contains_string, str_eq};

verus! {

/// One regular file of the walked tree: its path segments below the
/// scanned root (the last segment is the file name) and its size in bytes.
#[derive(Clone)]
pub struct FileEntry {
    pub segments: Vec<String>,
    pub size: u64,
}

/// Per-language byte sums, plus the grand total of all counted bytes.
pub struct Counts {
    pub entries: Vec<(String, u64)>,
    pub total: u64,
}

/// Directory names whose subtrees are pruned from the walk.
pub open spec fn seg_skipped(seg: Seq<char>) -> bool {
    ||| seg == ".git"@
    ||| seg == "node_modules"@
    ||| seg == "target"@
    ||| seg == "build"@
    ||| seg == "dist"@
    ||| seg == ".idea"@
}

/// The walk bound: entries deeper than this below the root are not counted,
/// a guard against pathological or cyclic symlink trees.
pub open spec fn max_depth() -> int {
    15
}

/// A file is visible when it is within the depth bound and no directory
/// segment on its path is a pruned name.
pub open spec fn visible(f: FileEntry) -> bool {
    &&& 1 <= f.segments@.len() <= max_depth()
    &&& forall|k: int| 0 <= k < f.segments@.len() - 1 ==> !seg_skipped(f.segments@[k]@)
}

/// Whether the walked tree holds any C source file.
pub open spec fn spec_tree_has_c(files: Seq<FileEntry>) -> bool {
    exists|i: int|
        0 <= i < files.len() && files[i].segments@.len() >= 1 && spec_ext(
            files[i].segments@.last()@,
        ) == Some("c"@)
}

pub open spec fn is_cpp_ext(e: Seq<char>) -> bool {
    e == "cpp"@ || e == "cc"@ || e == "cxx"@ || e == "hpp"@
}

/// Whether the walked tree holds any C++ source or header file.
pub open spec fn spec_tree_has_cpp(files: Seq<FileEntry>) -> bool {
    exists|i: int|
        0 <= i < files.len() && files[i].segments@.len() >= 1 && (match spec_ext(
            files[i].segments@.last()@,
        ) {
            Some(e) => is_cpp_ext(e),
            None => false,
        })
}

/// The (language, size) sample a file contributes, or `None` when the file
/// is not counted: invisible, unclassifiable, or of an excluded language.
pub open spec fn entry_sample(f: FileEntry, cfg: LangConfig, hc: bool, hcpp: bool) -> Option<
    (Seq<char>, u64),
> {
    if !visible(f) {
        None
    } else {
        match spec_classify(f.segments@.last()@, cfg, hc, hcpp) {
            None => None,
            Some(l) => if seq_contains_str(cfg.exclude_langs@, l) {
                None
            } else {
                Some((l, f.size))
            },
        }
    }
}

pub open spec fn sample_is(f: FileEntry, cfg: LangConfig, hc: bool, hcpp: bool, lang: Seq<char>) -> bool {
    match entry_sample(f, cfg, hc, hcpp) {
        Some(p) => p.0 == lang,
        None => false,
    }
}

pub open spec fn sample_lang_contrib(
    f: FileEntry,
    cfg: LangConfig,
    hc: bool,
    hcpp: bool,
    lang: Seq<char>,
) -> int {
    match entry_sample(f, cfg, hc, hcpp) {
        Some(p) => if p.0 == lang {
            p.1 as int
        } else {
            0
        },
        None => 0,
    }
}

pub open spec fn sample_size(f: FileEntry, cfg: LangConfig, hc: bool, hcpp: bool) -> int {
    match entry_sample(f, cfg, hc, hcpp) {
        Some(p) => p.1 as int,
        None => 0,
    }
}

/// The bytes that one language gathers over a file list.
pub open spec fn lang_bytes(
    files: Seq<FileEntry>,
    cfg: LangConfig,
    hc: bool,
    hcpp: bool,
    lang: Seq<char>,
) -> int
    decreases files.len(),
{
    if files.len() == 0 {
        0
    } else {
        lang_bytes(files.drop_last(), cfg, hc, hcpp, lang) + sample_lang_contrib(
            files.last(),
            cfg,
            hc,
            hcpp,
            lang,
        )
    }
}

/// The bytes of all counted files.
pub open spec fn total_bytes(files: Seq<FileEntry>, cfg: LangConfig, hc: bool, hcpp: bool) -> int
    decreases files.len(),
{
    if files.len() == 0 {
        0
    } else {
        total_bytes(files.drop_last(), cfg, hc, hcpp) + sample_size(files.last(), cfg, hc, hcpp)
    }
}

/// Whether some counted file of the list is of this language.
pub open spec fn lang_present(
    files: Seq<FileEntry>,
    cfg: LangConfig,
    hc: bool,
    hcpp: bool,
    lang: Seq<char>,
) -> bool {
    exists|i: int| 0 <= i < files.len() && sample_is(files[i], cfg, hc, hcpp, lang)
}

/// The value stored under a key in an entry list (first match), 0 if absent.
pub open spec fn val_of(s: Seq<(String, u64)>, lang: Seq<char>) -> int
    decreases s.len(),
{
    if s.len() == 0 {
        0
    } else if s[0].0@ == lang {
        s[0].1 as int
    } else {
        val_of(s.drop_first(), lang)
    }
}

pub open spec fn has_key(s: Seq<(String, u64)>, lang: Seq<char>) -> bool {
    exists|i: int| 0 <= i < s.len() && s[i].0@ == lang
}

pub open spec fn keys_unique(s: Seq<(String, u64)>) -> bool {
    forall|i: int, j: int| 0 <= i < j < s.len() ==> s[i].0@ != s[j].0@
}

pub open spec fn sum_values(s: Seq<(String, u64)>) -> int
    decreases s.len(),
{
    if s.len() == 0 {
        0
    } else {
        sum_values(s.drop_last()) + s.last().1 as int
    }
}

pub proof fn lemma_sum_values_nonneg(s: Seq<(String, u64)>)
    ensures
        sum_values(s) >= 0,
    decreases s.len(),
{
    if s.len() > 0 {
        lemma_sum_values_nonneg(s.drop_last());
    }
}

pub proof fn lemma_sum_values_element(s: Seq<(String, u64)>, j: int)
    requires
        0 <= j < s.len(),
    ensures
        s[j].1 <= sum_values(s),
    decreases s.len(),
{
    if j == s.len() - 1 {
        lemma_sum_values_nonneg(s.drop_last());
    } else {
        lemma_sum_values_element(s.drop_last(), j);
        assert(s.drop_last()[j] == s[j]);
    }
}

pub proof fn lemma_sum_values_update(s: Seq<(String, u64)>, j: int, p: (String, u64))
    requires
        0 <= j < s.len(),
    ensures
        sum_values(s.update(j, p)) == sum_values(s) - s[j].1 + p.1,
    decreases s.len(),
{
    if j == s.len() - 1 {
        assert(s.update(j, p).drop_last() =~= s.drop_last());
        assert(s.update(j, p).last() == p);
    } else {
        assert(s.update(j, p).drop_last() =~= s.drop_last().update(j, p));
        lemma_sum_values_update(s.drop_last(), j, p);
        assert(s.update(j, p).last() == s.last());
    }
}

pub proof fn lemma_sum_values_push(s: Seq<(String, u64)>, p: (String, u64))
    ensures
        sum_values(s.push(p)) == sum_values(s) + p.1,
{
    assert(s.push(p).drop_last() =~= s);
    assert(s.push(p).last() == p);
}

pub(crate) proof fn lemma_val_of_found(s: Seq<(String, u64)>, j: int, lang: Seq<char>)
    requires
        keys_unique(s),
        0 <= j < s.len(),
        s[j].0@ == lang,
    ensures
        val_of(s, lang) == s[j].1,
    decreases s.len(),
{
    if j == 0 {
    } else {
        assert(s[0].0@ != lang);
        assert(s.drop_first()[j - 1] == s[j]);
        assert(keys_unique(s.drop_first())) by {
            assert(forall|a: int, b: int|
                0 <= a < b < s.drop_first().len() ==> s.drop_first()[a] == s[a + 1]
                    && s.drop_first()[b] == s[b + 1]);
        }
        lemma_val_of_found(s.drop_first(), j - 1, lang);
    }
}

pub(crate) proof fn lemma_val_of_absent(s: Seq<(String, u64)>, lang: Seq<char>)
    requires
        !has_key(s, lang),
    ensures
        val_of(s, lang) == 0,
    decreases s.len(),
{
    if s.len() > 0 {
        assert(s[0].0@ != lang);
        assert(!has_key(s.drop_first(), lang)) by {
            if has_key(s.drop_first(), lang) {
                let k = choose|k: int|
                    0 <= k < s.drop_first().len() && s.drop_first()[k].0@ == lang;
                assert(s[k + 1] == s.drop_first()[k]);
            }
        }
        lemma_val_of_absent(s.drop_first(), lang);
    }
}

proof fn lemma_val_of_nonneg(s: Seq<(String, u64)>, lang: Seq<char>)
    ensures
        val_of(s, lang) >= 0,
    decreases s.len(),
{
    if s.len() > 0 && s[0].0@ != lang {
        lemma_val_of_nonneg(s.drop_first(), lang);
    }
}

pub(crate) proof fn lemma_val_of_update(s: Seq<(String, u64)>, j: int, p: (String, u64))
    requires
        keys_unique(s),
        0 <= j < s.len(),
        s[j].0@ == p.0@,
    ensures
        val_of(s.update(j, p), p.0@) == p.1,
        forall|lang: Seq<char>|
            lang != p.0@ ==> #[trigger] val_of(s.update(j, p), lang) == val_of(s, lang),
        keys_unique(s.update(j, p)),
        forall|lang: Seq<char>| #[trigger] has_key(s.update(j, p), lang) == has_key(s, lang),
    decreases s.len(),
{
    let t = s.update(j, p);
    assert(forall|k: int| 0 <= k < s.len() ==> t[k].0@ == s[k].0@);
    assert(keys_unique(t));
    assert forall|lang: Seq<char>| #[trigger] has_key(t, lang) == has_key(s, lang) by {
        if has_key(t, lang) {
            let k = choose|k: int| 0 <= k < t.len() && t[k].0@ == lang;
            assert(s[k].0@ == lang);
        }
        if has_key(s, lang) {
            let k = choose|k: int| 0 <= k < s.len() && s[k].0@ == lang;
            assert(t[k].0@ == lang);
        }
    }
    lemma_val_of_found(t, j, p.0@);
    assert forall|lang: Seq<char>|
        lang != p.0@ implies #[trigger] val_of(t, lang) == val_of(s, lang) by {
        lemma_val_of_update_other(s, j, p, lang);
    }
}

pub(crate) proof fn lemma_val_of_update_other(s: Seq<(String, u64)>, j: int, p: (String, u64), lang: Seq<char>)
    requires
        0 <= j < s.len(),
        s[j].0@ == p.0@,
        lang != p.0@,
    ensures
        val_of(s.update(j, p), lang) == val_of(s, lang),
    decreases s.len(),
{
    let t = s.update(j, p);
    if j == 0 {
        assert(t[0] == p);
        assert(t.drop_first() =~= s.drop_first());
    } else {
        assert(t[0] == s[0]);
        if s[0].0@ == lang {
        } else {
            assert(t.drop_first() =~= s.drop_first().update(j - 1, p));
            assert(s.drop_first()[j - 1] == s[j]);
            lemma_val_of_update_other(s.drop_first(), j - 1, p, lang);
        }
    }
}

pub(crate) proof fn lemma_val_of_push(s: Seq<(String, u64)>, p: (String, u64))
    requires
        !has_key(s, p.0@),
    ensures
        val_of(s.push(p), p.0@) == p.1,
        forall|lang: Seq<char>|
            lang != p.0@ ==> #[trigger] val_of(s.push(p), lang) == val_of(s, lang),
        forall|lang: Seq<char>|
            #[trigger] has_key(s.push(p), lang) == (has_key(s, lang) || lang == p.0@),
    decreases s.len(),
{
    let t = s.push(p);
    assert forall|lang: Seq<char>|
        #[trigger] has_key(t, lang) == (has_key(s, lang) || lang == p.0@) by {
        if has_key(t, lang) {
            let k = choose|k: int| 0 <= k < t.len() && t[k].0@ == lang;
            if k < s.len() {
                assert(s[k].0@ == lang);
            }
        }
        if has_key(s, lang) {
            let k = choose|k: int| 0 <= k < s.len() && s[k].0@ == lang;
            assert(t[k].0@ == lang);
        }
        if lang == p.0@ {
            assert(t[s.len() as int].0@ == lang);
        }
    }
    if s.len() == 0 {
        assert(t[0] == p);
        assert(t.drop_first() =~= Seq::<(String, u64)>::empty());
        assert forall|lang: Seq<char>|
            lang != p.0@ implies #[trigger] val_of(t, lang) == val_of(s, lang) by {
            assert(val_of(t.drop_first(), lang) == 0);
        }
    } else {
        assert(t[0] == s[0]);
        assert(s[0].0@ != p.0@);
        assert(t.drop_first() =~= s.drop_first().push(p));
        assert(!has_key(s.drop_first(), p.0@)) by {
            if has_key(s.drop_first(), p.0@) {
                let k = choose|k: int|
                    0 <= k < s.drop_first().len() && s.drop_first()[k].0@ == p.0@;
                assert(s[k + 1] == s.drop_first()[k]);
            }
        }
        lemma_val_of_push(s.drop_first(), p);
        assert forall|lang: Seq<char>|
            lang != p.0@ implies #[trigger] val_of(t, lang) == val_of(s, lang) by {
            assert(val_of(s.drop_first().push(p), lang) == val_of(s.drop_first(), lang));
        }
    }
}

/// One step of the walk: extending the counted prefix by one file adds that
/// file's contribution, and nothing else.
proof fn lemma_take_step(files: Seq<FileEntry>, cfg: LangConfig, hc: bool, hcpp: bool, i: int)
    requires
        0 <= i < files.len(),
    ensures
        forall|lang: Seq<char>|
            #[trigger] lang_bytes(files.take(i + 1), cfg, hc, hcpp, lang) == lang_bytes(
                files.take(i),
                cfg,
                hc,
                hcpp,
                lang,
            ) + sample_lang_contrib(files[i], cfg, hc, hcpp, lang),
        total_bytes(files.take(i + 1), cfg, hc, hcpp) == total_bytes(files.take(i), cfg, hc, hcpp)
            + sample_size(files[i], cfg, hc, hcpp),
        forall|lang: Seq<char>|
            #[trigger] lang_present(files.take(i + 1), cfg, hc, hcpp, lang) == (lang_present(
                files.take(i),
                cfg,
                hc,
                hcpp,
                lang,
            ) || sample_is(files[i], cfg, hc, hcpp, lang)),
{
    let t1 = files.take(i + 1);
    let t0 = files.take(i);
    assert(t1.drop_last() =~= t0);
    assert(t1.last() == files[i]);
    assert forall|lang: Seq<char>|
        #[trigger] lang_present(t1, cfg, hc, hcpp, lang) == (lang_present(t0, cfg, hc, hcpp, lang)
            || sample_is(files[i], cfg, hc, hcpp, lang)) by {
        if lang_present(t1, cfg, hc, hcpp, lang) {
            let k = choose|k: int| 0 <= k < t1.len() && sample_is(t1[k], cfg, hc, hcpp, lang);
            if k < i {
                assert(t0[k] == t1[k]);
                assert(sample_is(t0[k], cfg, hc, hcpp, lang));
            } else {
                assert(t1[k] == files[i]);
            }
        }
        if lang_present(t0, cfg, hc, hcpp, lang) {
            let k = choose|k: int| 0 <= k < t0.len() && sample_is(t0[k], cfg, hc, hcpp, lang);
            assert(t1[k] == t0[k]);
            assert(sample_is(t1[k], cfg, hc, hcpp, lang));
        }
        if sample_is(files[i], cfg, hc, hcpp, lang) {
            assert(sample_is(t1[i], cfg, hc, hcpp, lang));
        }
    }
}

/// Counting a longer prefix never counts fewer bytes.
proof fn lemma_total_bytes_monotone(
    files: Seq<FileEntry>,
    cfg: LangConfig,
    hc: bool,
    hcpp: bool,
    i: int,
)
    requires
        0 <= i <= files.len(),
    ensures
        total_bytes(files.take(i), cfg, hc, hcpp) <= total_bytes(files, cfg, hc, hcpp),
    decreases files.len() - i,
{
    if i == files.len() {
        assert(files.take(i) =~= files);
    } else {
        lemma_take_step(files, cfg, hc, hcpp, i);
        lemma_total_bytes_monotone(files, cfg, hc, hcpp, i + 1);
    }
}

/// Splitting the file list anywhere and adding the parts' per-language byte
/// sums gives the whole list's sums: a parallel aggregation that splits the
/// list among workers and merges partial sums with pointwise addition
/// returns the same per-language byte sums as the sequential walk, whatever
/// the worker count or split.
pub proof fn lemma_counts_concat(
    l1: Seq<FileEntry>,
    l2: Seq<FileEntry>,
    cfg: LangConfig,
    hc: bool,
    hcpp: bool,
)
    ensures
        forall|lang: Seq<char>|
            #[trigger] lang_bytes(l1 + l2, cfg, hc, hcpp, lang) == lang_bytes(
                l1,
                cfg,
                hc,
                hcpp,
                lang,
            ) + lang_bytes(l2, cfg, hc, hcpp, lang),
        total_bytes(l1 + l2, cfg, hc, hcpp) == total_bytes(l1, cfg, hc, hcpp) + total_bytes(
            l2,
            cfg,
            hc,
            hcpp,
        ),
    decreases l2.len(),
{
    if l2.len() == 0 {
        assert(l1 + l2 =~= l1);
    } else {
        assert((l1 + l2).drop_last() =~= l1 + l2.drop_last());
        assert((l1 + l2).last() == l2.last());
        lemma_counts_concat(l1, l2.drop_last(), cfg, hc, hcpp);
        assert forall|lang: Seq<char>|
            #[trigger] lang_bytes(l1 + l2, cfg, hc, hcpp, lang) == lang_bytes(
                l1,
                cfg,
                hc,
                hcpp,
                lang,
            ) + lang_bytes(l2, cfg, hc, hcpp, lang) by {
            assert(lang_bytes(l1 + l2.drop_last(), cfg, hc, hcpp, lang) == lang_bytes(
                l1,
                cfg,
                hc,
                hcpp,
                lang,
            ) + lang_bytes(l2.drop_last(), cfg, hc, hcpp, lang));
        }
    }
}

/// Well-formed counts: distinct languages, and the grand total is the sum
/// of the per-language sums (the exact-percentage form of "percentages sum
/// to one hundred").
pub open spec fn counts_wf(c: Counts) -> bool {
    &&& keys_unique(c.entries@)
    &&& sum_values(c.entries@) == c.total
}

/// The counts are exactly the per-language byte sums of the file list.
pub open spec fn counts_of_files(c: Counts, files: Seq<FileEntry>, cfg: LangConfig) -> bool {
    let hc = spec_tree_has_c(files);
    let hcpp = spec_tree_has_cpp(files);
    &&& counts_wf(c)
    &&& c.total == total_bytes(files, cfg, hc, hcpp)
    &&& forall|lang: Seq<char>|
        #[trigger] val_of(c.entries@, lang) == lang_bytes(files, cfg, hc, hcpp, lang)
    &&& forall|lang: Seq<char>|
        #[trigger] has_key(c.entries@, lang) == lang_present(files, cfg, hc, hcpp, lang)
}

fn is_skipped_seg(s: &str) -> (b: bool)
    ensures
        b == seg_skipped(s@),
{
    str_eq(s, ".git") || str_eq(s, "node_modules") || str_eq(s, "target") || str_eq(s, "build")
        || str_eq(s, "dist") || str_eq(s, ".idea")
}

/// Whether a walked file is counted at all: within the depth bound and not
/// under a pruned directory.
pub fn visible_file(f: &FileEntry) -> (b: bool)
    ensures
        b == visible(*f),
{
    let n = f.segments.len();
    if n == 0 || n > 15 {
        return false;
    }
    let mut k: usize = 0;
    while k + 1 < n
        invariant
            n == f.segments@.len(),
            1 <= n <= 15,
            k < n,
            forall|m: int| 0 <= m < k ==> !seg_skipped(f.segments@[m]@),
        decreases n - k,
    {
        if is_skipped_seg(f.segments[k].as_str()) {
            return false;
        }
        k += 1;
    }
    true
}

/// Whether the walked tree holds any C source file.
pub fn tree_has_c(files: &Vec<FileEntry>) -> (b: bool)
    ensures
        b == spec_tree_has_c(files@),
{
    let mut i: usize = 0;
    while i < files.len()
        invariant
            i <= files@.len(),
            forall|k: int|
                0 <= k < i ==> !(files@[k].segments@.len() >= 1 && spec_ext(
                    files@[k].segments@.last()@,
                ) == Some("c"@)),
        decreases files@.len() - i,
    {
        let f = &files[i];
        if f.segments.len() >= 1 {
            let name = &f.segments[f.segments.len() - 1];
            proof {
                assert(f.segments@[f.segments@.len() - 1] == f.segments@.last());
            }
            match extension(name.as_str()) {
                Some(e) => {
                    if str_eq(e.as_str(), "c") {
                        proof {
                            assert(files@[i as int].segments@.len() >= 1 && spec_ext(
                                files@[i as int].segments@.last()@,
                            ) == Some("c"@));
                        }
                        return true;
                    }
                },
                None => {},
            }
        }
        i += 1;
    }
    proof {
        if spec_tree_has_c(files@) {
            let k = choose|k: int|
                0 <= k < files@.len() && files@[k].segments@.len() >= 1 && spec_ext(
                    files@[k].segments@.last()@,
                ) == Some("c"@);
        }
    }
    false
}

fn is_cpp_ext_exec(e: &str) -> (b: bool)
    ensures
        b == is_cpp_ext(e@),
{
    str_eq(e, "cpp") || str_eq(e, "cc") || str_eq(e, "cxx") || str_eq(e, "hpp")
}

/// Whether the walked tree holds any C++ source or header file.
pub fn tree_has_cpp(files: &Vec<FileEntry>) -> (b: bool)
    ensures
        b == spec_tree_has_cpp(files@),
{
    let mut i: usize = 0;
    while i < files.len()
        invariant
            i <= files@.len(),
            forall|k: int|
                0 <= k < i ==> !(files@[k].segments@.len() >= 1 && (match spec_ext(
                    files@[k].segments@.last()@,
                ) {
                    Some(e) => is_cpp_ext(e),
                    None => false,
                })),
        decreases files@.len() - i,
    {
        let f = &files[i];
        if f.segments.len() >= 1 {
            let name = &f.segments[f.segments.len() - 1];
            proof {
                assert(f.segments@[f.segments@.len() - 1] == f.segments@.last());
            }
            match extension(name.as_str()) {
                Some(e) => {
                    if is_cpp_ext_exec(e.as_str()) {
                        proof {
                            assert(files@[i as int].segments@.len() >= 1 && (match spec_ext(
                                files@[i as int].segments@.last()@,
                            ) {
                                Some(ex) => is_cpp_ext(ex),
                                None => false,
                            }));
                        }
                        return true;
                    }
                },
                None => {},
            }
        }
        i += 1;
    }
    proof {
        if spec_tree_has_cpp(files@) {
            let k = choose|k: int|
                0 <= k < files@.len() && files@[k].segments@.len() >= 1 && (match spec_ext(
                    files@[k].segments@.last()@,
                ) {
                    Some(e) => is_cpp_ext(e),
                    None => false,
                });
        }
    }
    false
}

/// The sample one file contributes: its language and byte size, or `None`
/// when the file is not counted. This is the per-file step that a parallel
/// run maps over the file list.
pub fn file_sample(f: &FileEntry, cfg: &LangConfig, has_c: bool, has_cpp: bool) -> (r: Option<
    (String, u64),
>)
    ensures
        (match r {
            Some(p) => entry_sample(*f, *cfg, has_c, has_cpp) == Some((p.0@, p.1)),
            None => entry_sample(*f, *cfg, has_c, has_cpp) is None,
        }),
{
    if !visible_file(f) {
        return None;
    }
    let name = &f.segments[f.segments.len() - 1];
    proof {
        assert(f.segments@[f.segments@.len() - 1] == f.segments@.last());
    }
    match classify(name.as_str(), cfg, has_c, has_cpp) {
        None => None,
        Some(l) => {
            if contains_string(&cfg.exclude_langs, l.as_str()) {
                None
            } else {
                Some((l, f.size))
            }
        },
    }
}

pub(crate) fn find_key(entries: &Vec<(String, u64)>, key: &str) -> (r: Option<usize>)
    ensures
        (match r {
            Some(j) => j < entries@.len() && entries@[j as int].0@ == key@,
            None => !has_key(entries@, key@),
        }),
{
    let mut i: usize = 0;
    while i < entries.len()
        invariant
            i <= entries@.len(),
            forall|k: int| 0 <= k < i ==> entries@[k].0@ != key@,
        decreases entries@.len() - i,
    {
        if str_eq(entries[i].0.as_str(), key) {
            return Some(i);
        }
        i += 1;
    }
    proof {
        if has_key(entries@, key@) {
            let k = choose|k: int| 0 <= k < entries@.len() && entries@[k].0@ == key@;
        }
    }
    None
}

/// Walks the file list once and sums byte sizes per language.
///
/// The grand total equals the sum of the per-language sums, so the exact
/// percentages `100 * sum / total` of the entries sum to exactly one
/// hundred whenever the total is nonzero; and a language appears if and
/// only if some counted file carries it, so a tree of only excluded or
/// unclassifiable files yields no entries at all.
pub fn aggregate_counts(files: &Vec<FileEntry>, cfg: &LangConfig) -> (r: Counts)
    requires
        total_bytes(files@, *cfg, spec_tree_has_c(files@), spec_tree_has_cpp(files@))
            <= u64::MAX,
    ensures
        counts_of_files(r, files@, *cfg),
{
    let has_c = tree_has_c(files);
    let has_cpp = tree_has_cpp(files);
    let mut entries: Vec<(String, u64)> = Vec::new();
    let mut total: u64 = 0;
    let mut i: usize = 0;
    proof {
        assert(files@.take(0) =~= Seq::<FileEntry>::empty());
    }
    while i < files.len()
        invariant
            i <= files@.len(),
            has_c == spec_tree_has_c(files@),
            has_cpp == spec_tree_has_cpp(files@),
            total_bytes(files@, *cfg, has_c, has_cpp) <= u64::MAX,
            keys_unique(entries@),
            sum_values(entries@) == total,
            total == total_bytes(files@.take(i as int), *cfg, has_c, has_cpp),
            forall|lang: Seq<char>|
                #[trigger] val_of(entries@, lang) == lang_bytes(
                    files@.take(i as int),
                    *cfg,
                    has_c,
                    has_cpp,
                    lang,
                ),
            forall|lang: Seq<char>|
                #[trigger] has_key(entries@, lang) == lang_present(
                    files@.take(i as int),
                    *cfg,
                    has_c,
                    has_cpp,
                    lang,
                ),
        decreases files@.len() - i,
    {
        let ghost gi = i as int;
        proof {
            lemma_take_step(files@, *cfg, has_c, has_cpp, gi);
            lemma_total_bytes_monotone(files@, *cfg, has_c, has_cpp, gi + 1);
        }
        let sample = file_sample(&files[i], cfg, has_c, has_cpp);
        match sample {
            None => {
                proof {
                    assert forall|lang: Seq<char>|
                        #[trigger] lang_bytes(files@.take(gi + 1), *cfg, has_c, has_cpp, lang)
                            == lang_bytes(files@.take(gi), *cfg, has_c, has_cpp, lang) by {
                        assert(sample_lang_contrib(files@[gi], *cfg, has_c, has_cpp, lang) == 0);
                    }
                    assert forall|lang: Seq<char>|
                        #[trigger] lang_present(files@.take(gi + 1), *cfg, has_c, has_cpp, lang)
                            == lang_present(files@.take(gi), *cfg, has_c, has_cpp, lang) by {
                        assert(!sample_is(files@[gi], *cfg, has_c, has_cpp, lang));
                    }
                    assert(sample_size(files@[gi], *cfg, has_c, has_cpp) == 0);
                }
            },
            Some((lang, size)) => {
                proof {
                    assert(entry_sample(files@[gi], *cfg, has_c, has_cpp) == Some((lang@, size)));
                    assert(sample_size(files@[gi], *cfg, has_c, has_cpp) == size);
                    assert(total_bytes(files@.take(gi + 1), *cfg, has_c, has_cpp) == total
                        + size);
                }
                total = total + size;
                let ghost e0 = entries@;
                match find_key(&entries, lang.as_str()) {
                    Some(j) => {
                        let key = entries[j].0.clone();
                        let v = entries[j].1;
                        proof {
                            lemma_val_of_found(e0, j as int, lang@);
                            lemma_sum_values_element(e0, j as int);
                        }
                        let nv = v + size;
                        entries.set(j, (key, nv));
                        proof {
                            assert(entries@ == e0.update(j as int, (key, nv)));
                            lemma_sum_values_update(e0, j as int, (key, nv));
                            lemma_val_of_update(e0, j as int, (key, nv));
                            assert(key@ == lang@);
                            assert forall|l: Seq<char>|
                                #[trigger] val_of(entries@, l) == lang_bytes(
                                    files@.take(gi + 1),
                                    *cfg,
                                    has_c,
                                    has_cpp,
                                    l,
                                ) by {
                                if l == lang@ {
                                    assert(val_of(entries@, l) == nv);
                                    assert(sample_lang_contrib(
                                        files@[gi],
                                        *cfg,
                                        has_c,
                                        has_cpp,
                                        l,
                                    ) == size);
                                } else {
                                    assert(val_of(entries@, l) == val_of(e0, l));
                                    assert(sample_lang_contrib(
                                        files@[gi],
                                        *cfg,
                                        has_c,
                                        has_cpp,
                                        l,
                                    ) == 0);
                                }
                            }
                            assert forall|l: Seq<char>|
                                #[trigger] has_key(entries@, l) == lang_present(
                                    files@.take(gi + 1),
                                    *cfg,
                                    has_c,
                                    has_cpp,
                                    l,
                                ) by {
                                assert(has_key(entries@, l) == has_key(e0, l));
                                if sample_is(files@[gi], *cfg, has_c, has_cpp, l) {
                                    assert(l == lang@);
                                    assert(has_key(e0, l));
                                }
                            }
                        }
                    },
                    None => {
                        proof {
                            lemma_val_of_absent(e0, lang@);
                            assert(lang_bytes(files@.take(gi), *cfg, has_c, has_cpp, lang@)
                                == 0);
                        }
                        entries.push((lang, size));
                        proof {
                            assert(entries@ == e0.push((entries@[e0.len() as int].0, size)));
                            let p = entries@[e0.len() as int];
                            assert(p.0@ == lang@ && p.1 == size);
                            assert(entries@ == e0.push(p));
                            lemma_sum_values_push(e0, p);
                            lemma_val_of_push(e0, p);
                            assert(keys_unique(entries@)) by {
                                assert(forall|a: int|
                                    0 <= a < e0.len() ==> entries@[a] == e0[a]);
                            }
                            assert forall|l: Seq<char>|
                                #[trigger] val_of(entries@, l) == lang_bytes(
                                    files@.take(gi + 1),
                                    *cfg,
                                    has_c,
                                    has_cpp,
                                    l,
                                ) by {
                                if l == lang@ {
                                    assert(val_of(entries@, l) == size);
                                    assert(sample_lang_contrib(
                                        files@[gi],
                                        *cfg,
                                        has_c,
                                        has_cpp,
                                        l,
                                    ) == size);
                                } else {
                                    assert(val_of(entries@, l) == val_of(e0, l));
                                    assert(sample_lang_contrib(
                                        files@[gi],
                                        *cfg,
                                        has_c,
                                        has_cpp,
                                        l,
                                    ) == 0);
                                }
                            }
                            assert forall|l: Seq<char>|
                                #[trigger] has_key(entries@, l) == lang_present(
                                    files@.take(gi + 1),
                                    *cfg,
                                    has_c,
                                    has_cpp,
                                    l,
                                ) by {
                                assert(has_key(entries@, l) == (has_key(e0, l) || l == lang@));
                                if sample_is(files@[gi], *cfg, has_c, has_cpp, l) {
                                    assert(l == lang@);
                                }
                                if l == lang@ {
                                    assert(sample_is(files@[gi], *cfg, has_c, has_cpp, l));
                                }
                            }
                        }
                    },
                }
            },
        }
        i += 1;
    }
    proof {
        assert(files@.take(files@.len() as int) =~= files@);
    }
    Counts { entries, total }
}

proof fn lemma_entries_congruent(s1: Seq<(String, u64)>, s2: Seq<(String, u64)>)
    requires
        s1.len() == s2.len(),
        forall|k: int| 0 <= k < s1.len() ==> s1[k].0@ == s2[k].0@ && s1[k].1 == s2[k].1,
    ensures
        forall|lang: Seq<char>| #[trigger] val_of(s1, lang) == val_of(s2, lang),
        forall|lang: Seq<char>| #[trigger] has_key(s1, lang) == has_key(s2, lang),
        keys_unique(s1) == keys_unique(s2),
    decreases s1.len(),
{
    assert forall|lang: Seq<char>| #[trigger] has_key(s1, lang) == has_key(s2, lang) by {
        if has_key(s1, lang) {
            let k = choose|k: int| 0 <= k < s1.len() && s1[k].0@ == lang;
            assert(s2[k].0@ == lang);
        }
        if has_key(s2, lang) {
            let k = choose|k: int| 0 <= k < s2.len() && s2[k].0@ == lang;
            assert(s1[k].0@ == lang);
        }
    }
    if s1.len() > 0 {
        assert(forall|k: int|
            0 <= k < s1.drop_first().len() ==> s1.drop_first()[k] == s1[k + 1]
                && s2.drop_first()[k] == s2[k + 1]);
        lemma_entries_congruent(s1.drop_first(), s2.drop_first());
        assert forall|lang: Seq<char>| #[trigger] val_of(s1, lang) == val_of(s2, lang) by {
            if s1[0].0@ != lang {
                assert(val_of(s1.drop_first(), lang) == val_of(s2.drop_first(), lang));
            }
        }
    }
}

proof fn lemma_sum_congruent(s1: Seq<(String, u64)>, s2: Seq<(String, u64)>)
    requires
        s1.len() == s2.len(),
        forall|k: int| 0 <= k < s1.len() ==> s1[k].1 == s2[k].1,
    ensures
        sum_values(s1) == sum_values(s2),
    decreases s1.len(),
{
    if s1.len() > 0 {
        lemma_sum_congruent(s1.drop_last(), s2.drop_last());
    }
}

pub(crate) proof fn lemma_sum_take_monotone(s: Seq<(String, u64)>, i: int)
    requires
        0 <= i <= s.len(),
    ensures
        sum_values(s.take(i)) <= sum_values(s),
    decreases s.len() - i,
{
    if i == s.len() {
        assert(s.take(i) =~= s);
    } else {
        assert(s.take(i + 1).drop_last() =~= s.take(i));
        assert(s.take(i + 1).last() == s[i]);
        lemma_sum_take_monotone(s, i + 1);
    }
}

/// Adds two partial counts pointwise: the order-independent, associative
/// merge with which a parallel run combines per-worker sums.
pub fn merge_counts(a: &Counts, b: &Counts) -> (r: Counts)
    requires
        counts_wf(*a),
        counts_wf(*b),
        a.total + b.total <= u64::MAX,
    ensures
        counts_wf(r),
        r.total == a.total + b.total,
        forall|lang: Seq<char>|
            #[trigger] val_of(r.entries@, lang) == val_of(a.entries@, lang) + val_of(
                b.entries@,
                lang,
            ),
        forall|lang: Seq<char>|
            #[trigger] has_key(r.entries@, lang) == (has_key(a.entries@, lang) || has_key(
                b.entries@,
                lang,
            )),
{
    let mut entries: Vec<(String, u64)> = Vec::new();
    let mut i: usize = 0;
    while i < a.entries.len()
        invariant
            i <= a.entries@.len(),
            entries@.len() == i,
            forall|k: int|
                0 <= k < i ==> entries@[k].0@ == a.entries@[k].0@ && entries@[k].1
                    == a.entries@[k].1,
        decreases a.entries@.len() - i,
    {
        let key = a.entries[i].0.clone();
        let v = a.entries[i].1;
        entries.push((key, v));
        i += 1;
    }
    proof {
        lemma_entries_congruent(entries@, a.entries@);
        lemma_sum_congruent(entries@, a.entries@);
        assert(b.entries@.take(0) =~= Seq::<(String, u64)>::empty());
    }
    let mut total: u64 = a.total;
    let mut j: usize = 0;
    while j < b.entries.len()
        invariant
            j <= b.entries@.len(),
            counts_wf(*a),
            counts_wf(*b),
            a.total + b.total <= u64::MAX,
            keys_unique(entries@),
            sum_values(entries@) == total,
            total == a.total + sum_values(b.entries@.take(j as int)),
            forall|lang: Seq<char>|
                #[trigger] val_of(entries@, lang) == val_of(a.entries@, lang) + val_of(
                    b.entries@.take(j as int),
                    lang,
                ),
            forall|lang: Seq<char>|
                #[trigger] has_key(entries@, lang) == (has_key(a.entries@, lang) || has_key(
                    b.entries@.take(j as int),
                    lang,
                )),
        decreases b.entries@.len() - j,
    {
        let ghost gj = j as int;
        let ghost bt0 = b.entries@.take(gj);
        let ghost bt1 = b.entries@.take(gj + 1);
        let ghost bp = b.entries@[gj];
        proof {
            assert(bt1 =~= bt0.push(bp));
            assert(!has_key(bt0, bp.0@)) by {
                if has_key(bt0, bp.0@) {
                    let k = choose|k: int| 0 <= k < bt0.len() && bt0[k].0@ == bp.0@;
                    assert(b.entries@[k].0@ == b.entries@[gj].0@);
                }
            }
            lemma_val_of_push(bt0, bp);
            lemma_sum_values_push(bt0, bp);
            lemma_sum_take_monotone(b.entries@, gj + 1);
            lemma_val_of_absent(bt0, bp.0@);
            lemma_val_of_nonneg(a.entries@, bp.0@);
            lemma_val_of_nonneg(bt0, bp.0@);
        }
        let key_b = b.entries[j].0.clone();
        let v_b = b.entries[j].1;
        total = total + v_b;
        let ghost e0 = entries@;
        match find_key(&entries, key_b.as_str()) {
            Some(k) => {
                let key = entries[k].0.clone();
                let v = entries[k].1;
                proof {
                    lemma_val_of_found(e0, k as int, bp.0@);
                    lemma_sum_values_element(e0, k as int);
                }
                let nv = v + v_b;
                entries.set(k, (key, nv));
                proof {
                    lemma_sum_values_update(e0, k as int, (key, nv));
                    lemma_val_of_update(e0, k as int, (key, nv));
                    assert forall|l: Seq<char>|
                        #[trigger] val_of(entries@, l) == val_of(a.entries@, l) + val_of(
                            bt1,
                            l,
                        ) by {
                        if l == bp.0@ {
                            assert(val_of(entries@, l) == nv);
                            assert(val_of(bt1, l) == bp.1);
                        } else {
                            assert(val_of(entries@, l) == val_of(e0, l));
                            assert(val_of(bt1, l) == val_of(bt0, l));
                        }
                    }
                    assert forall|l: Seq<char>|
                        #[trigger] has_key(entries@, l) == (has_key(a.entries@, l) || has_key(
                            bt1,
                            l,
                        )) by {
                        assert(has_key(entries@, l) == has_key(e0, l));
                        assert(has_key(bt1, l) == (has_key(bt0, l) || l == bp.0@));
                        if l == bp.0@ {
                            assert(has_key(e0, l));
                        }
                    }
                }
            },
            None => {
                entries.push((key_b, v_b));
                proof {
                    let p = entries@[e0.len() as int];
                    assert(p.0@ == bp.0@ && p.1 == bp.1);
                    assert(entries@ == e0.push(p));
                    lemma_sum_values_push(e0, p);
                    lemma_val_of_push(e0, p);
                    lemma_val_of_absent(e0, bp.0@);
                    assert(keys_unique(entries@)) by {
                        assert(forall|x: int| 0 <= x < e0.len() ==> entries@[x] == e0[x]);
                    }
                    assert forall|l: Seq<char>|
                        #[trigger] val_of(entries@, l) == val_of(a.entries@, l) + val_of(
                            bt1,
                            l,
                        ) by {
                        if l == bp.0@ {
                            assert(val_of(entries@, l) == p.1);
                            assert(val_of(bt1, l) == bp.1);
                            assert(val_of(a.entries@, l) + val_of(bt0, l) == val_of(e0, l));
                        } else {
                            assert(val_of(entries@, l) == val_of(e0, l));
                            assert(val_of(bt1, l) == val_of(bt0, l));
                        }
                    }
                    assert forall|l: Seq<char>|
                        #[trigger] has_key(entries@, l) == (has_key(a.entries@, l) || has_key(
                            bt1,
                            l,
                        )) by {
                        assert(has_key(entries@, l) == (has_key(e0, l) || l == p.0@));
                        assert(has_key(bt1, l) == (has_key(bt0, l) || l == bp.0@));
                    }
                }
            },
        }
        j += 1;
    }
    proof {
        assert(b.entries@.take(b.entries@.len() as int) =~= b.entries@);
    }
    Counts { entries, total }
}

} // verus!
