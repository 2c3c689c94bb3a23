//! The result cache's pure parts: the cache key for a scanned path, and
//! the codec for the cache file, a flat JSON object from language name to
//! percentage written with two decimals.
//!
//! Reading and writing the cache file is the caller's business; a missing,
//! unreadable or malformed file is a cache miss, never an error, so the
//! decoder returns `None` for everything it does not accept.

use vstd::prelude::*;
use vstd::string::*;
use crate::stats::Stats;
use crate::strutil::{spec_u64_digits, spec_digit_char, u64_to_string, digit_char_str};

verus! {

/// What `md5::compute` returns for a byte string, written in lowercase
/// hex. The digest depends on the bytes alone.
pub uninterp spec fn md5_hex(bytes: Seq<u8>) -> Seq<char>;

/// Relies on md5::compute: the digest of a byte string is a function of
/// those bytes alone, and its lowercase-hex form writes two hex digits
/// for each of the digest's 16 bytes, 32 characters in all.
#[verifier::external_body]
fn md5_hex_of(s: &str) -> (r: String)
    ensures
        r@ == md5_hex(s.spec_bytes()),
        r@.len() == 32,
{
    format!("{:x}", md5::compute(s.as_bytes()))
}

/// The cache file name for a scanned path: the hex digest of the path's
/// bytes, with the cache file suffix.
pub fn cache_file_name(path: &str) -> (r: String)
    ensures
        r@ == md5_hex(path.spec_bytes()) + ".json"@,
        r@.len() == 37,
{
    let mut h = md5_hex_of(path);
    h.append(".json");
    proof {
        reveal_strlit(".json");
    }
    h
}

/// A percentage in hundredths of a percent written with two decimals:
/// `7500` becomes `75.00`.
pub open spec fn spec_num_text(v: u64) -> Seq<char> {
    spec_u64_digits((v / 100) as int) + seq!['.'] + seq![
        spec_digit_char(((v / 10) % 10) as int),
    ] + seq![spec_digit_char((v % 10) as int)]
}

pub open spec fn spec_entry_text(e: (String, u64)) -> Seq<char> {
    seq!['"'] + e.0@ + seq!['"', ':'] + spec_num_text(e.1)
}

pub open spec fn spec_entries_text(s: Seq<(String, u64)>) -> Seq<char>
    decreases s.len(),
{
    if s.len() == 0 {
        Seq::empty()
    } else if s.len() == 1 {
        spec_entry_text(s[0])
    } else {
        spec_entries_text(s.drop_last()) + seq![','] + spec_entry_text(s.last())
    }
}

/// The cache file text for a percentage map.
pub open spec fn spec_encode(s: Seq<(String, u64)>) -> Seq<char> {
    seq!['{'] + spec_entries_text(s) + seq!['}']
}

/// Writes a percentage map as the cache file text, entry for entry in map
/// order, each value with two decimals. Names are written as they are,
/// without JSON escaping: a name holding a quote or a backslash produces
/// text that does not read back, which the cache treats as a miss; real
/// language names never do.
pub fn encode_stats(s: &Stats) -> (r: String)
    ensures
        r@ == spec_encode(s.entries@),
{
    let mut out = String::new();
    out.append("{");
    proof {
        reveal_strlit("{");
        assert(s.entries@.take(0) =~= Seq::<(String, u64)>::empty());
        assert(out@ =~= seq!['{'] + spec_entries_text(s.entries@.take(0)));
    }
    let n = s.entries.len();
    let mut i: usize = 0;
    while i < n
        invariant
            n == s.entries@.len(),
            i <= n,
            out@ == seq!['{'] + spec_entries_text(s.entries@.take(i as int)),
        decreases n - i,
    {
        if i > 0 {
            out.append(",");
        }
        out.append("\"");
        out.append(s.entries[i].0.as_str());
        out.append("\":");
        let v = s.entries[i].1;
        let ip = u64_to_string(v / 100);
        out.append(ip.as_str());
        out.append(".");
        let d1 = digit_char_str((v / 10) % 10);
        out.append(d1);
        let d0 = digit_char_str(v % 10);
        out.append(d0);
        proof {
            reveal_strlit(",");
            reveal_strlit("\"");
            reveal_strlit("\":");
            reveal_strlit(".");
            let t1 = s.entries@.take(i as int + 1);
            assert(t1.drop_last() =~= s.entries@.take(i as int));
            assert(t1.last() == s.entries@[i as int]);
            assert(out@ =~= seq!['{'] + spec_entries_text(t1));
        }
        i += 1;
    }
    out.append("}");
    proof {
        reveal_strlit("}");
        assert(s.entries@.take(n as int) =~= s.entries@);
        assert(out@ =~= spec_encode(s.entries@));
    }
    out
}

pub open spec fn spec_digit_val(c: char) -> Option<u64> {
    if c == '0' {
        Some(0u64)
    } else if c == '1' {
        Some(1u64)
    } else if c == '2' {
        Some(2u64)
    } else if c == '3' {
        Some(3u64)
    } else if c == '4' {
        Some(4u64)
    } else if c == '5' {
        Some(5u64)
    } else if c == '6' {
        Some(6u64)
    } else if c == '7' {
        Some(7u64)
    } else if c == '8' {
        Some(8u64)
    } else if c == '9' {
        Some(9u64)
    } else {
        None
    }
}

fn digit_val(c: char) -> (r: Option<u64>)
    ensures
        r == spec_digit_val(c),
{
    if c == '0' {
        Some(0u64)
    } else if c == '1' {
        Some(1u64)
    } else if c == '2' {
        Some(2u64)
    } else if c == '3' {
        Some(3u64)
    } else if c == '4' {
        Some(4u64)
    } else if c == '5' {
        Some(5u64)
    } else if c == '6' {
        Some(6u64)
    } else if c == '7' {
        Some(7u64)
    } else if c == '8' {
        Some(8u64)
    } else if c == '9' {
        Some(9u64)
    } else {
        None
    }
}

/// Reads a cache file text back into a percentage map.
///
/// Accepts the compact flat-object form that [`encode_stats`] writes (and
/// that the usual JSON writers produce for such a map, when no name needs
/// escaping): `{"name":num,...}` with `num` as digits, optionally followed
/// by a dot and more digits; the value is taken to hundredths of a
/// percent. Everything else, including numbers beyond one hundred
/// percent, yields `None`: a cache miss. What does come back is a
/// percentage map: every value is at most one hundred percent.
#[verifier::loop_isolation(false)]
pub fn decode_stats(s: &str) -> (r: Option<Stats>)
    ensures
        s@ == "{}"@ ==> (match r {
            Some(st) => st.entries@.len() == 0,
            None => false,
        }),
        (match r {
            Some(st) => forall|j: int| 0 <= j < st.entries@.len() ==> st.entries@[j].1 <= 10000,
            None => true,
        }),
        s@.len() < 2 ==> r is None,
        (s@.len() >= 2 && (s@[0] != '{' || s@[s@.len() - 1] != '}')) ==> r is None,
        r is Some ==> s@.len() >= 2 && s@[0] == '{' && s@[s@.len() - 1] == '}',
{
    let len = s.unicode_len();
    if len < 2 {
        proof {
            reveal_strlit("{}");
        }
        return None;
    }
    if s.get_char(0) != '{' {
        proof {
            reveal_strlit("{}");
            if s@ == "{}"@ {
                assert(s@[0] == '{');
            }
        }
        return None;
    }
    if s.get_char(len - 1) != '}' {
        proof {
            reveal_strlit("{}");
            if s@ == "{}"@ {
                assert(s@[1] == '}');
            }
        }
        return None;
    }
    let end = len - 1;
    if len == 2 {
        return Some(Stats { entries: Vec::new() });
    }
    proof {
        reveal_strlit("{}");
        assert(s@ != "{}"@);
    }
    let mut entries: Vec<(String, u64)> = Vec::new();
    let mut pos: usize = 1;
    loop
        invariant
            len == s@.len(),
            2 < len,
            end == len - 1,
            1 <= pos < len,
            forall|j: int| 0 <= j < entries@.len() ==> entries@[j].1 <= 10000,
        decreases len - pos,
    {
        if pos >= end || s.get_char(pos) != '"' {
            return None;
        }
        pos = pos + 1;
        let start = pos;
        while pos < end && s.get_char(pos) != '"'
            invariant
                len == s@.len(),
                end == len - 1,
                end < len,
                start <= pos <= end,
            decreases end - pos,
        {
            pos = pos + 1;
        }
        if pos >= end {
            return None;
        }
        let piece = s.substring_char(start, pos);
        let key = piece.to_owned();
        pos = pos + 1;
        if pos >= end || s.get_char(pos) != ':' {
            return None;
        }
        pos = pos + 1;
        let mut ip: u64 = 0;
        let mut got_digit = false;
        let ghost p0 = pos;
        while pos < end && digit_val(s.get_char(pos)).is_some()
            invariant
                len == s@.len(),
                end == len - 1,
                end < len,
                p0 <= pos <= end,
                ip <= 1000009,
            decreases end - pos,
        {
            let d = match digit_val(s.get_char(pos)) {
                Some(d) => d,
                None => {
                    return None;
                },
            };
            if ip > 100000 {
                return None;
            }
            ip = ip * 10 + d;
            got_digit = true;
            pos = pos + 1;
        }
        if !got_digit {
            return None;
        }
        if ip > 100000 {
            return None;
        }
        let mut v: u64 = ip * 100;
        if pos < end && s.get_char(pos) == '.' {
            pos = pos + 1;
            let mut frac_seen: u64 = 0;
            let ghost p1 = pos;
            while pos < end && digit_val(s.get_char(pos)).is_some()
                invariant
                    len == s@.len(),
                    end == len - 1,
                    end < len,
                    p1 <= pos <= end,
                    frac_seen <= 3,
                    frac_seen == 0 ==> v <= 10000000,
                    frac_seen == 1 ==> v <= 10000090,
                    v <= 10000099,
                decreases end - pos,
            {
                let d = match digit_val(s.get_char(pos)) {
                    Some(d) => d,
                    None => {
                        return None;
                    },
                };
                if frac_seen == 0 {
                    v = v + d * 10;
                } else if frac_seen == 1 {
                    v = v + d;
                }
                frac_seen = frac_seen + 1;
                if frac_seen >= 3 {
                    frac_seen = 3;
                }
                pos = pos + 1;
            }
            if frac_seen == 0 {
                return None;
            }
        }
        if v > 10000 {
            return None;
        }
        entries.push((key, v));
        if pos == end {
            return Some(Stats { entries });
        }
        if s.get_char(pos) != ',' {
            return None;
        }
        pos = pos + 1;
    }
}

} // verus!
