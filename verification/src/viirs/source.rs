//! FIRMS VIIRS source names and fire-confidence levels.
use vstd::prelude::*;
use crate::text::{
    ascii_lower, ascii_lower_chars, ascii_upper, chars_eq_str, is_ascii_digit, is_ascii_lower,
    is_ascii_upper, is_unicode_whitespace, owned, to_upper_char, trim_end, trim_start, trim_str,
    trimmed, upper_char,
};
use crate::viirs::request::ViirsError;

verus! {

/// The day range requested when a request names none.
pub const DEFAULT_DAY_RANGE: u8 = 1;

/// The FIRMS source used when a request names none.
pub fn default_source() -> (s: String)
    ensures
        s@ == "VIIRS_NOAA20_NRT"@,
{
    owned("VIIRS_NOAA20_NRT")
}

pub fn default_day_range() -> (d: u8)
    ensures
        d == 1,
{
    DEFAULT_DAY_RANGE
}

/// Requests write GeoJSON unless told otherwise.
pub fn default_true() -> (b: bool)
    ensures
        b,
{
    true
}

/// `s` with every `from` replaced by `to`, as `str::replace` does for one character.
pub open spec fn replace_char(s: Seq<char>, from: char, to: char) -> Seq<char> {
    s.map_values(|c: char| if c == from { to } else { c })
}

/// The lookup key of a source name: trimmed, upper-cased, with `-` and ` ` turned into `_`.
pub open spec fn source_key(s: Seq<char>) -> Seq<char> {
    replace_char(replace_char(ascii_upper(trimmed(s)), '-', '_'), ' ', '_')
}

/// The five FIRMS VIIRS sources, each with the aliases that name it.
pub open spec fn canonical_source(key: Seq<char>) -> Option<Seq<char>> {
    if key == "VIIRS_NOAA20_NRT"@ || key == "NOAA20_NRT"@ || key == "NOAA_20_NRT"@ || key
        == "N20_NRT"@ {
        Some("VIIRS_NOAA20_NRT"@)
    } else if key == "VIIRS_NOAA20_SP"@ || key == "NOAA20_SP"@ || key == "NOAA_20_SP"@ || key
        == "N20_SP"@ {
        Some("VIIRS_NOAA20_SP"@)
    } else if key == "VIIRS_NOAA21_NRT"@ || key == "NOAA21_NRT"@ || key == "NOAA_21_NRT"@ || key
        == "N21_NRT"@ {
        Some("VIIRS_NOAA21_NRT"@)
    } else if key == "VIIRS_SNPP_NRT"@ || key == "SNPP_NRT"@ || key == "S_NPP_NRT"@ || key
        == "SUOMI_NPP_NRT"@ {
        Some("VIIRS_SNPP_NRT"@)
    } else if key == "VIIRS_SNPP_SP"@ || key == "SNPP_SP"@ || key == "S_NPP_SP"@ || key
        == "SUOMI_NPP_SP"@ {
        Some("VIIRS_SNPP_SP"@)
    } else {
        None
    }
}

/// The sources the FIRMS Area API serves for VIIRS.
pub open spec fn supported_sources() -> Seq<Seq<char>> {
    seq![
        "VIIRS_NOAA20_NRT"@,
        "VIIRS_NOAA20_SP"@,
        "VIIRS_NOAA21_NRT"@,
        "VIIRS_SNPP_NRT"@,
        "VIIRS_SNPP_SP"@,
    ]
}

/// The source name a request gives, normalized: `Ok` with the canonical FIRMS
/// source where `source_key(s)` is one of its names, else `Err` naming `s`.
pub open spec fn spec_normalize_source(s: Seq<char>) -> Option<Seq<char>> {
    canonical_source(source_key(s))
}

fn source_key_chars(source: &str) -> (k: Vec<char>)
    ensures
        k@ == source_key(source@),
{
    let t = trim_str(source);
    let mut k: Vec<char> = Vec::new();
    let mut i: usize = 0;
    while i < t.len()
        invariant
            i <= t.len(),
            t@ == trimmed(source@),
            k@ == source_key(source@).subrange(0, i as int),
        decreases t.len() - i,
    {
        let mut c = to_upper_char(t[i]);
        if c == '-' {
            c = '_';
        }
        if c == ' ' {
            c = '_';
        }
        k.push(c);
        i = i + 1;
        assert(k@ =~= source_key(source@).subrange(0, i as int));
    }
    assert(source_key(source@).subrange(0, t.len() as int) =~= source_key(source@));
    k
}

/// Maps a user-supplied source name onto the FIRMS source it stands for.
pub fn normalize_source(source: &str) -> (res: Result<String, ViirsError>)
    ensures
        match spec_normalize_source(source@) {
            Some(c) => res matches Ok(s) && s@ == c,
            None => res matches Err(ViirsError::UnsupportedSource(s)) && s@ == source@,
        },
{
    let k = source_key_chars(source);
    if chars_eq_str(&k, "VIIRS_NOAA20_NRT") || chars_eq_str(&k, "NOAA20_NRT") || chars_eq_str(
        &k,
        "NOAA_20_NRT",
    ) || chars_eq_str(&k, "N20_NRT") {
        Ok(owned("VIIRS_NOAA20_NRT"))
    } else if chars_eq_str(&k, "VIIRS_NOAA20_SP") || chars_eq_str(&k, "NOAA20_SP")
        || chars_eq_str(&k, "NOAA_20_SP") || chars_eq_str(&k, "N20_SP") {
        Ok(owned("VIIRS_NOAA20_SP"))
    } else if chars_eq_str(&k, "VIIRS_NOAA21_NRT") || chars_eq_str(&k, "NOAA21_NRT")
        || chars_eq_str(&k, "NOAA_21_NRT") || chars_eq_str(&k, "N21_NRT") {
        Ok(owned("VIIRS_NOAA21_NRT"))
    } else if chars_eq_str(&k, "VIIRS_SNPP_NRT") || chars_eq_str(&k, "SNPP_NRT")
        || chars_eq_str(&k, "S_NPP_NRT") || chars_eq_str(&k, "SUOMI_NPP_NRT") {
        Ok(owned("VIIRS_SNPP_NRT"))
    } else if chars_eq_str(&k, "VIIRS_SNPP_SP") || chars_eq_str(&k, "SNPP_SP") || chars_eq_str(
        &k,
        "S_NPP_SP",
    ) || chars_eq_str(&k, "SUOMI_NPP_SP") {
        Ok(owned("VIIRS_SNPP_SP"))
    } else {
        Err(ViirsError::UnsupportedSource(owned(source)))
    }
}

/// Characters that the key of a canonical source name keeps as they are.
pub open spec fn is_key_char(c: char) -> bool {
    is_ascii_upper(c) || is_ascii_digit(c) || c == '_'
}

proof fn lemma_key_chars_are_fixed(s: Seq<char>)
    requires
        forall|i: int| 0 <= i < s.len() ==> is_key_char(#[trigger] s[i]),
    ensures
        source_key(s) == s,
{
    assert(trim_start(s) == s);
    assert(trim_end(s) == s);
    assert(ascii_upper(s) =~= s);
    assert(replace_char(s, '-', '_') =~= s);
    assert(replace_char(s, ' ', '_') =~= s);
}

/// Every supported source name is its own key and normalizes to itself.
pub proof fn lemma_supported_sources_normalize_to_themselves()
    ensures
        forall|i: int|
            0 <= i < supported_sources().len() ==> spec_normalize_source(
                #[trigger] supported_sources()[i],
            ) == Some(supported_sources()[i]),
{
    reveal_strlit("VIIRS_NOAA20_NRT");
    reveal_strlit("NOAA20_NRT");
    reveal_strlit("NOAA_20_NRT");
    reveal_strlit("N20_NRT");
    reveal_strlit("VIIRS_NOAA20_SP");
    reveal_strlit("NOAA20_SP");
    reveal_strlit("NOAA_20_SP");
    reveal_strlit("N20_SP");
    reveal_strlit("VIIRS_NOAA21_NRT");
    reveal_strlit("NOAA21_NRT");
    reveal_strlit("NOAA_21_NRT");
    reveal_strlit("N21_NRT");
    reveal_strlit("VIIRS_SNPP_NRT");
    reveal_strlit("SNPP_NRT");
    reveal_strlit("S_NPP_NRT");
    reveal_strlit("SUOMI_NPP_NRT");
    reveal_strlit("VIIRS_SNPP_SP");
    reveal_strlit("SNPP_SP");
    reveal_strlit("S_NPP_SP");
    reveal_strlit("SUOMI_NPP_SP");
    let a = "VIIRS_NOAA20_NRT"@;
    let b = "VIIRS_NOAA20_SP"@;
    let c = "VIIRS_NOAA21_NRT"@;
    let d = "VIIRS_SNPP_NRT"@;
    let e = "VIIRS_SNPP_SP"@;
    assert(forall|i: int| 0 <= i < a.len() ==> is_key_char(#[trigger] a[i]));
    assert(forall|i: int| 0 <= i < b.len() ==> is_key_char(#[trigger] b[i]));
    assert(forall|i: int| 0 <= i < c.len() ==> is_key_char(#[trigger] c[i]));
    assert(forall|i: int| 0 <= i < d.len() ==> is_key_char(#[trigger] d[i]));
    assert(forall|i: int| 0 <= i < e.len() ==> is_key_char(#[trigger] e[i]));
    lemma_key_chars_are_fixed(a);
    lemma_key_chars_are_fixed(b);
    lemma_key_chars_are_fixed(c);
    lemma_key_chars_are_fixed(d);
    lemma_key_chars_are_fixed(e);
    assert(b != a);
    assert(c[11] != a[11]);
    assert(c != a && c != b);
    assert(d != a && d != b && d != c);
    assert(e != a && e != b && e != c && e != d);
    assert(b != "NOAA20_NRT"@ && b != "NOAA_20_NRT"@ && b != "N20_NRT"@);
    assert(c != "NOAA20_NRT"@ && c != "NOAA_20_NRT"@ && c != "N20_NRT"@);
    assert(c != "NOAA20_SP"@ && c != "NOAA_20_SP"@ && c != "N20_SP"@);
    assert(d != "NOAA20_NRT"@ && d != "NOAA_20_NRT"@ && d != "N20_NRT"@);
    assert(d != "NOAA20_SP"@ && d != "NOAA_20_SP"@ && d != "N20_SP"@);
    assert(d != "NOAA21_NRT"@ && d != "NOAA_21_NRT"@ && d != "N21_NRT"@);
    assert(e != "NOAA20_NRT"@ && e != "NOAA_20_NRT"@ && e != "N20_NRT"@);
    assert(e != "NOAA20_SP"@ && e != "NOAA_20_SP"@ && e != "N20_SP"@);
    assert(e != "NOAA21_NRT"@ && e != "NOAA_21_NRT"@ && e != "N21_NRT"@);
    assert(e[0] != "SUOMI_NPP_NRT"@[0]);
    assert(e != "SNPP_NRT"@ && e != "S_NPP_NRT"@ && e != "SUOMI_NPP_NRT"@);
}

/// Normalizing a source name is idempotent: a normalized name is accepted and
/// normalizes to itself. Every normalized name is one of the supported sources.
pub proof fn lemma_normalize_source_idempotent(s: Seq<char>)
    ensures
        spec_normalize_source(s) matches Some(c) ==> {
            &&& supported_sources().contains(c)
            &&& spec_normalize_source(c) == Some(c)
        },
{
    lemma_supported_sources_normalize_to_themselves();
    if let Some(c) = spec_normalize_source(s) {
        let k = source_key(s);
        let idx: int = if k == "VIIRS_NOAA20_NRT"@ || k == "NOAA20_NRT"@ || k == "NOAA_20_NRT"@
            || k == "N20_NRT"@ {
            0
        } else if k == "VIIRS_NOAA20_SP"@ || k == "NOAA20_SP"@ || k == "NOAA_20_SP"@ || k
            == "N20_SP"@ {
            1
        } else if k == "VIIRS_NOAA21_NRT"@ || k == "NOAA21_NRT"@ || k == "NOAA_21_NRT"@ || k
            == "N21_NRT"@ {
            2
        } else if k == "VIIRS_SNPP_NRT"@ || k == "SNPP_NRT"@ || k == "S_NPP_NRT"@ || k
            == "SUOMI_NPP_NRT"@ {
            3
        } else {
            4
        };
        assert(supported_sources()[idx] == c);
    }
}

/// Every listed name of a FIRMS VIIRS source, written in any case, with `-` or a
/// space for `_` and with surrounding whitespace, normalizes to that source:
/// its full name, the name without `VIIRS_`, and the satellite's other spellings
/// (`NOAA_20`, `N20`; `NOAA_21`, `N21`; `S_NPP`, `SUOMI_NPP`).
pub proof fn lemma_source_aliases_normalize_to_their_source(raw: Seq<char>)
    ensures
        ({
            let k = source_key(raw);
            &&& (k == "VIIRS_NOAA20_NRT"@ || k == "NOAA20_NRT"@ || k == "NOAA_20_NRT"@ || k == "N20_NRT"@)
                ==> spec_normalize_source(raw) == Some("VIIRS_NOAA20_NRT"@)
            &&& (k == "VIIRS_NOAA20_SP"@ || k == "NOAA20_SP"@ || k == "NOAA_20_SP"@ || k == "N20_SP"@)
                ==> spec_normalize_source(raw) == Some("VIIRS_NOAA20_SP"@)
            &&& (k == "VIIRS_NOAA21_NRT"@ || k == "NOAA21_NRT"@ || k == "NOAA_21_NRT"@ || k == "N21_NRT"@)
                ==> spec_normalize_source(raw) == Some("VIIRS_NOAA21_NRT"@)
            &&& (k == "VIIRS_SNPP_NRT"@ || k == "SNPP_NRT"@ || k == "S_NPP_NRT"@ || k == "SUOMI_NPP_NRT"@)
                ==> spec_normalize_source(raw) == Some("VIIRS_SNPP_NRT"@)
            &&& (k == "VIIRS_SNPP_SP"@ || k == "SNPP_SP"@ || k == "S_NPP_SP"@ || k == "SUOMI_NPP_SP"@)
                ==> spec_normalize_source(raw) == Some("VIIRS_SNPP_SP"@)
        }),
{
    reveal_strlit("VIIRS_NOAA20_NRT");
    reveal_strlit("NOAA20_NRT");
    reveal_strlit("NOAA_20_NRT");
    reveal_strlit("N20_NRT");
    reveal_strlit("VIIRS_NOAA20_SP");
    reveal_strlit("NOAA20_SP");
    reveal_strlit("NOAA_20_SP");
    reveal_strlit("N20_SP");
    reveal_strlit("VIIRS_NOAA21_NRT");
    reveal_strlit("NOAA21_NRT");
    reveal_strlit("NOAA_21_NRT");
    reveal_strlit("N21_NRT");
    reveal_strlit("VIIRS_SNPP_NRT");
    reveal_strlit("SNPP_NRT");
    reveal_strlit("S_NPP_NRT");
    reveal_strlit("SUOMI_NPP_NRT");
    reveal_strlit("VIIRS_SNPP_SP");
    reveal_strlit("SNPP_SP");
    reveal_strlit("S_NPP_SP");
    reveal_strlit("SUOMI_NPP_SP");
    assert("VIIRS_NOAA20_NRT"@.len() == 16);
    assert("NOAA20_NRT"@.len() == 10);
    assert("NOAA_20_NRT"@.len() == 11);
    assert("N20_NRT"@.len() == 7);
    assert("VIIRS_NOAA20_SP"@.len() == 15);
    assert("NOAA20_SP"@.len() == 9);
    assert("NOAA_20_SP"@.len() == 10);
    assert("N20_SP"@.len() == 6);
    assert("VIIRS_NOAA21_NRT"@.len() == 16);
    assert("NOAA21_NRT"@.len() == 10);
    assert("NOAA_21_NRT"@.len() == 11);
    assert("N21_NRT"@.len() == 7);
    assert("VIIRS_SNPP_NRT"@.len() == 14);
    assert("SNPP_NRT"@.len() == 8);
    assert("S_NPP_NRT"@.len() == 9);
    assert("SUOMI_NPP_NRT"@.len() == 13);
    assert("VIIRS_SNPP_SP"@.len() == 13);
    assert("SNPP_SP"@.len() == 7);
    assert("S_NPP_SP"@.len() == 8);
    assert("SUOMI_NPP_SP"@.len() == 12);
    assert("NOAA_20_SP"@[4] != "NOAA20_NRT"@[4]);
    assert("VIIRS_NOAA21_NRT"@[11] != "VIIRS_NOAA20_NRT"@[11]);
    assert("NOAA21_NRT"@[5] != "NOAA20_NRT"@[5]);
    assert("NOAA21_NRT"@[4] != "NOAA_20_SP"@[4]);
    assert("NOAA_21_NRT"@[6] != "NOAA_20_NRT"@[6]);
    assert("N21_NRT"@[2] != "N20_NRT"@[2]);
    assert("S_NPP_NRT"@[0] != "NOAA20_SP"@[0]);
    assert("VIIRS_SNPP_SP"@[0] != "SUOMI_NPP_NRT"@[0]);
    assert("SNPP_SP"@[0] != "N20_NRT"@[0]);
    assert("SNPP_SP"@[0] != "N21_NRT"@[0]);
    assert("S_NPP_SP"@[1] != "SNPP_NRT"@[1]);
}

/// The lookup key of a confidence level: trimmed and lower-cased.
pub open spec fn confidence_key(s: Seq<char>) -> Seq<char> {
    ascii_lower(trimmed(s))
}

/// The rank of a FIRMS confidence level: low 0, nominal 1, high 2.
pub open spec fn spec_confidence_rank(s: Seq<char>) -> Option<u8> {
    let k = confidence_key(s);
    if k == "l"@ || k == "low"@ {
        Some(0)
    } else if k == "n"@ || k == "nominal"@ {
        Some(1)
    } else if k == "h"@ || k == "high"@ {
        Some(2)
    } else {
        None
    }
}

/// The rank of a confidence level, `None` for an unknown one.
pub fn confidence_rank(confidence: &str) -> (r: Option<u8>)
    ensures
        r == spec_confidence_rank(confidence@),
{
    let t = trim_str(confidence);
    let k = ascii_lower_chars(&t);
    if chars_eq_str(&k, "l") || chars_eq_str(&k, "low") {
        Some(0)
    } else if chars_eq_str(&k, "n") || chars_eq_str(&k, "nominal") {
        Some(1)
    } else if chars_eq_str(&k, "h") || chars_eq_str(&k, "high") {
        Some(2)
    } else {
        None
    }
}

/// The confidence levels are ordered low < nominal < high, with one-letter
/// abbreviations of the same rank.
pub proof fn lemma_confidence_levels_are_ordered()
    ensures
        spec_confidence_rank("low"@) == Some(0u8),
        spec_confidence_rank("nominal"@) == Some(1u8),
        spec_confidence_rank("high"@) == Some(2u8),
        spec_confidence_rank("l"@) == spec_confidence_rank("low"@),
        spec_confidence_rank("n"@) == spec_confidence_rank("nominal"@),
        spec_confidence_rank("h"@) == spec_confidence_rank("high"@),
{
    reveal_strlit("l");
    reveal_strlit("low");
    reveal_strlit("n");
    reveal_strlit("nominal");
    reveal_strlit("h");
    reveal_strlit("high");
    assert(confidence_key("low"@) =~= "low"@);
    assert(confidence_key("nominal"@) =~= "nominal"@);
    assert(confidence_key("high"@) =~= "high"@);
    assert(confidence_key("l"@) =~= "l"@);
    assert(confidence_key("n"@) =~= "n"@);
    assert(confidence_key("h"@) =~= "h"@);
}

} // verus!
