//! Maps a file's name to a language label, using the configuration tables.
//!
//! A file without an extension is looked up by its exact name,
//! ASCII-case-insensitively, in the file-name table (letters beyond
//! ASCII are compared as they are); no match means the file is
//! not counted. A file whose extension is excluded is not counted either.
//! The ambiguous header extensions `h` and `hpp` are resolved by whether
//! the scanned tree holds any C++ source (`cpp`, `cc`, `cxx`, `hpp`) or,
//! failing that, any C source (`c`); those two tree facts are computed once
//! per run and passed in. Every other extension is looked up in the
//! extension table and falls back to the literal label `"Other"`.

use vstd::prelude::*;
use vstd::string::*;
use crate::config::LangConfig;
use crate::strutil::{
    spec_lookup, spec_lookup_ci, seq_contains_str, lookup, lookup_ci, contains_string, str_eq,
};

verus! {

/// The extension of a file name: the part after the last dot, where that
/// dot is neither the first character nor absent. Mirrors how a path
/// library reads `name.ext`, `.hidden` (no extension) and `a.b.c` (`c`).
pub open spec fn spec_ext_from(name: Seq<char>, j: int) -> Option<Seq<char>>
    decreases j,
{
    if j <= 0 {
        None
    } else if name[j] == '.' {
        Some(name.subrange(j + 1, name.len() as int))
    } else {
        spec_ext_from(name, j - 1)
    }
}

pub open spec fn spec_ext(name: Seq<char>) -> Option<Seq<char>> {
    if name.len() == 0 {
        None
    } else {
        spec_ext_from(name, name.len() - 1)
    }
}

/// The extension of a file name, or `None` when it has none.
pub fn extension(name: &str) -> (r: Option<String>)
    ensures
        (match r {
            Some(e) => spec_ext(name@) == Some(e@),
            None => spec_ext(name@) is None,
        }),
{
    let len = name.unicode_len();
    if len == 0 {
        return None;
    }
    let mut j: usize = len - 1;
    while j > 0
        invariant
            len == name@.len(),
            0 < len,
            j < len,
            spec_ext(name@) == spec_ext_from(name@, j as int),
        decreases j,
    {
        let c = name.get_char(j);
        if c == '.' {
            let e = name.substring_char(j + 1, len);
            return Some(e.to_owned());
        }
        j -= 1;
    }
    None
}

/// What classification returns for a given file name, extension tables and
/// the two per-tree header facts.
pub open spec fn spec_classify(
    name: Seq<char>,
    cfg: LangConfig,
    has_c: bool,
    has_cpp: bool,
) -> Option<Seq<char>> {
    match spec_ext(name) {
        None => spec_lookup_ci(cfg.file_names@, name),
        Some(e) => if seq_contains_str(cfg.exclude_exts@, e) {
            None
        } else if (e == "h"@ || e == "hpp"@) && has_cpp {
            Some("C++"@)
        } else if (e == "h"@ || e == "hpp"@) && has_c {
            Some("C"@)
        } else {
            match spec_lookup(cfg.languages@, e) {
                Some(l) => Some(l),
                None => Some("Other"@),
            }
        },
    }
}

/// Classifies one file name. `has_c` and `has_cpp` say whether the scanned
/// tree holds any C or C++ source file; they disambiguate the header
/// extensions and are the same for every file of one run.
pub fn classify(name: &str, cfg: &LangConfig, has_c: bool, has_cpp: bool) -> (r: Option<String>)
    ensures
        (match r {
            Some(l) => spec_classify(name@, *cfg, has_c, has_cpp) == Some(l@),
            None => spec_classify(name@, *cfg, has_c, has_cpp) is None,
        }),
{
    match extension(name) {
        None => lookup_ci(&cfg.file_names, name),
        Some(e) => {
            if contains_string(&cfg.exclude_exts, e.as_str()) {
                None
            } else {
                let is_header = str_eq(e.as_str(), "h") || str_eq(e.as_str(), "hpp");
                if is_header && has_cpp {
                    Some("C++".to_owned())
                } else if is_header && has_c {
                    Some("C".to_owned())
                } else {
                    match lookup(&cfg.languages, e.as_str()) {
                        Some(l) => Some(l),
                        None => Some("Other".to_owned()),
                    }
                }
            }
        },
    }
}

} // verus!
