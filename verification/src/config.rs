//! Configuration values: the extension and file-name tables that drive
//! classification, the exclusion lists, the display threshold, and the
//! color table. The caller parses the optional JSON configuration files
//! and hands the tables over as plain values; when those files are missing
//! or malformed it falls back to [`default_lang_config`].

use vstd::prelude::*;
use vstd::string::*;
use crate::strutil::{spec_lookup, lookup};

verus! {

/// The language-classification configuration.
///
/// Percentage-like values are held in hundredths of a percent so that the
/// arithmetic on them stays exact: a display threshold of one percent is
/// `threshold_cpct == 100`.
///
/// `header_rules` is reserved configuration: it is carried but never
/// consulted by classification.
pub struct LangConfig {
    /// extension (no dot) -> language name
    pub languages: Vec<(String, String)>,
    /// exact file name (matched case-insensitively) -> language name
    pub file_names: Vec<(String, String)>,
    /// reserved: language name -> header extensions
    pub header_rules: Vec<(String, Vec<String>)>,
    /// extensions whose files are never counted
    pub exclude_exts: Vec<String>,
    /// languages whose files are never counted
    pub exclude_langs: Vec<String>,
    /// minimum displayed percentage, in hundredths of a percent
    pub threshold_cpct: u64,
}

/// The built-in configuration used when no configuration file can be read:
/// empty tables, the stock exclusion lists, and a one-percent threshold.
pub fn default_lang_config() -> (r: LangConfig)
    ensures
        r.languages@.len() == 0,
        r.file_names@.len() == 0,
        r.header_rules@.len() == 0,
        r.exclude_exts@.len() == 8,
        r.exclude_exts@[0]@ == "txt"@,
        r.exclude_exts@[1]@ == "json"@,
        r.exclude_exts@[2]@ == "toml"@,
        r.exclude_exts@[3]@ == "lock"@,
        r.exclude_exts@[4]@ == "yml"@,
        r.exclude_exts@[5]@ == "yaml"@,
        r.exclude_exts@[6]@ == "log"@,
        r.exclude_exts@[7]@ == "md"@,
        r.exclude_langs@.len() == 6,
        r.exclude_langs@[0]@ == "Markdown"@,
        r.exclude_langs@[1]@ == "HTML"@,
        r.exclude_langs@[2]@ == "JSON"@,
        r.exclude_langs@[3]@ == "TOML"@,
        r.exclude_langs@[4]@ == "XML"@,
        r.exclude_langs@[5]@ == "YAML"@,
        r.threshold_cpct == 100,
{
    let mut exclude_exts: Vec<String> = Vec::new();
    exclude_exts.push("txt".to_owned());
    exclude_exts.push("json".to_owned());
    exclude_exts.push("toml".to_owned());
    exclude_exts.push("lock".to_owned());
    exclude_exts.push("yml".to_owned());
    exclude_exts.push("yaml".to_owned());
    exclude_exts.push("log".to_owned());
    exclude_exts.push("md".to_owned());
    let mut exclude_langs: Vec<String> = Vec::new();
    exclude_langs.push("Markdown".to_owned());
    exclude_langs.push("HTML".to_owned());
    exclude_langs.push("JSON".to_owned());
    exclude_langs.push("TOML".to_owned());
    exclude_langs.push("XML".to_owned());
    exclude_langs.push("YAML".to_owned());
    LangConfig {
        languages: Vec::new(),
        file_names: Vec::new(),
        header_rules: Vec::new(),
        exclude_exts,
        exclude_langs,
        threshold_cpct: 100,
    }
}

/// The color that a missing color-table entry resolves to.
pub open spec fn spec_default_color() -> Seq<char> {
    "#cccccc"@
}

/// The display color of a language: its color-table entry, or the neutral
/// default when the table has none. Never an error.
pub fn get_color(colors: &Vec<(String, String)>, lang: &str) -> (r: String)
    ensures
        (match spec_lookup(colors@, lang@) {
            Some(c) => r@ == c,
            None => r@ == spec_default_color(),
        }),
{
    match lookup(colors, lang) {
        Some(c) => c,
        None => "#cccccc".to_owned(),
    }
}

} // verus!
