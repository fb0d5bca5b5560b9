//! The FIRMS Area API URL and the percent-encoding of its map key.
use vstd::prelude::*;
use vstd::string::*;
use vstd::utf8::*;
use crate::text::{
    chars_of, decimal_chars, decimal_text, push_chars, push_str_chars, string_from_chars,
    strip_trailing,
};

verus! {

/// The FIRMS Area API endpoint for CSV downloads.
pub const FIRMS_AREA_BASE_URL: &'static str = "https://firms.modaps.eosdis.nasa.gov/api/area/csv";

/// Bytes that stand for themselves in a URL path segment (RFC 3986 unreserved).
pub open spec fn is_unreserved(b: u8) -> bool {
    ||| 65 <= b <= 90
    ||| 97 <= b <= 122
    ||| 48 <= b <= 57
    ||| b == 45
    ||| b == 95
    ||| b == 46
    ||| b == 126
}

/// The upper-case hexadecimal digit of a value below sixteen.
pub open spec fn hex_digit(d: u8) -> char {
    if d < 10 {
        ((d + 48) as u8) as char
    } else {
        ((d + 55) as u8) as char
    }
}

/// One byte in a URL path segment: itself if unreserved, else `%` and two hex digits.
pub open spec fn encode_byte(b: u8) -> Seq<char> {
    if is_unreserved(b) {
        seq![b as char]
    } else {
        seq!['%', hex_digit(b / 16), hex_digit(b % 16)]
    }
}

/// The percent-encoding of a byte string, byte by byte.
pub open spec fn percent_encode(bs: Seq<u8>) -> Seq<char>
    decreases bs.len(),
{
    if bs.len() == 0 {
        Seq::empty()
    } else {
        encode_byte(bs[0]) + percent_encode(bs.drop_first())
    }
}

fn hex_digit_char(d: u8) -> (c: char)
    requires
        d < 16,
    ensures
        c == hex_digit(d),
{
    if d < 10 {
        (d + 48) as char
    } else {
        (d + 55) as char
    }
}

fn is_unreserved_byte(b: u8) -> (r: bool)
    ensures
        r == is_unreserved(b),
{
    (65 <= b && b <= 90) || (97 <= b && b <= 122) || (48 <= b && b <= 57) || b == 45 || b == 95
        || b == 46 || b == 126
}

/// Percent-encodes the UTF-8 bytes of `value` for use as one URL path segment.
pub fn url_path_encode(value: &str) -> (out: String)
    ensures
        out@ == percent_encode(value.spec_bytes()),
{
    let bytes = value.as_bytes();
    let n = bytes.len();
    let mut out: Vec<char> = Vec::new();
    let mut i: usize = 0;
    assert(bytes@.subrange(0, n as int) =~= bytes@);
    while i < n
        invariant
            i <= n,
            n == bytes@.len(),
            out@ + percent_encode(bytes@.subrange(i as int, n as int)) == percent_encode(bytes@),
        decreases n - i,
    {
        let b = bytes[i];
        let ghost rest = bytes@.subrange(i as int, n as int);
        assert(rest.drop_first() =~= bytes@.subrange(i + 1, n as int));
        let ghost before = out@;
        if is_unreserved_byte(b) {
            out.push(b as char);
        } else {
            out.push('%');
            out.push(hex_digit_char(b / 16));
            out.push(hex_digit_char(b % 16));
        }
        assert(out@ =~= before + encode_byte(b));
        assert(out@ + percent_encode(bytes@.subrange(i + 1, n as int)) =~= before + percent_encode(
            rest,
        ));
        i = i + 1;
    }
    assert(bytes@.subrange(n as int, n as int) =~= Seq::<u8>::empty());
    assert(out@ =~= percent_encode(bytes@));
    string_from_chars(&out)
}

/// The value of an upper-case hexadecimal digit.
pub open spec fn hex_value(c: char) -> int {
    if '0' <= c <= '9' {
        (c as u32) - 48
    } else {
        (c as u32) - 55
    }
}

/// Decoding of a percent-encoded path segment: `%` and two hex digits give one
/// byte, any other character gives its own code.
pub open spec fn percent_decode(s: Seq<char>) -> Seq<u8>
    decreases s.len(),
{
    if s.len() == 0 {
        Seq::empty()
    } else if s[0] == '%' && s.len() >= 3 {
        seq![(hex_value(s[1]) * 16 + hex_value(s[2])) as u8] + percent_decode(s.skip(3))
    } else {
        seq![s[0] as u8] + percent_decode(s.skip(1))
    }
}

/// Characters that may appear in an encoded segment.
pub open spec fn is_segment_char(c: char) -> bool {
    ||| is_unreserved(c as u8) && (c as u32) < 128
    ||| c == '%'
}

proof fn lemma_encode_byte(b: u8)
    ensures
        percent_decode(encode_byte(b)) == seq![b],
        forall|k: int| 0 <= k < encode_byte(b).len() ==> is_segment_char(#[trigger] encode_byte(b)[k]),
        encode_byte(b).len() >= 1,
        encode_byte(b)[0] == '%' <==> !is_unreserved(b),
        !is_unreserved(b) ==> encode_byte(b).len() == 3,
        is_unreserved(b) ==> encode_byte(b).len() == 1,
{
    let e = encode_byte(b);
    if is_unreserved(b) {
        assert((b as char) as u8 == b);
        assert(e.skip(1) =~= Seq::<char>::empty());
        assert(percent_decode(e.skip(1)) == Seq::<u8>::empty());
        assert(percent_decode(e) =~= seq![b]);
    } else {
        let hi = b / 16;
        let lo = b % 16;
        assert(hex_value(hex_digit(hi)) == hi as int);
        assert(hex_value(hex_digit(lo)) == lo as int);
        assert(e.skip(3) =~= Seq::<char>::empty());
        assert(percent_decode(e.skip(3)) == Seq::<u8>::empty());
        assert(hi * 16 + lo == b);
        assert(percent_decode(e) =~= seq![b]);
        assert(is_unreserved(hex_digit(hi) as u8) && (hex_digit(hi) as u32) < 128);
        assert(is_unreserved(hex_digit(lo) as u8) && (hex_digit(lo) as u32) < 128);
    }
}

proof fn lemma_decode_prefix(e: Seq<char>, rest: Seq<char>, b: u8)
    requires
        e == encode_byte(b),
    ensures
        percent_decode(e + rest) == seq![b] + percent_decode(rest),
{
    lemma_encode_byte(b);
    let s = e + rest;
    if is_unreserved(b) {
        assert(s.skip(1) =~= rest);
        assert((b as char) as u8 == b);
    } else {
        assert(s.skip(3) =~= rest);
        assert(s[1] == e[1] && s[2] == e[2]);
        assert(percent_decode(e) =~= seq![b]);
        assert(percent_decode(e.skip(3)) == Seq::<u8>::empty()) by {
            assert(e.skip(3) =~= Seq::<char>::empty());
        }
    }
}

/// Percent-encoding loses nothing: decoding an encoded segment gives back the
/// input bytes. The segment holds only unreserved ASCII characters and `%`
/// (every other byte became `%` and two upper-case hex digits), so it never
/// holds a `/` that would split the URL path.
pub proof fn lemma_percent_encoding_round_trips(bs: Seq<u8>)
    ensures
        percent_decode(percent_encode(bs)) == bs,
        forall|k: int|
            0 <= k < percent_encode(bs).len() ==> is_segment_char(#[trigger] percent_encode(bs)[k]),
    decreases bs.len(),
{
    if bs.len() > 0 {
        let e = encode_byte(bs[0]);
        let rest = percent_encode(bs.drop_first());
        lemma_percent_encoding_round_trips(bs.drop_first());
        lemma_decode_prefix(e, rest, bs[0]);
        lemma_encode_byte(bs[0]);
        assert(seq![bs[0]] + bs.drop_first() =~= bs);
        assert forall|k: int| 0 <= k < percent_encode(bs).len() implies is_segment_char(
            #[trigger] percent_encode(bs)[k],
        ) by {
            if k < e.len() {
                assert(percent_encode(bs)[k] == e[k]);
            } else {
                assert(percent_encode(bs)[k] == rest[k - e.len()]);
            }
        }
    }
}

/// Whether every byte stands for itself in a URL path segment.
pub open spec fn all_unreserved(bs: Seq<u8>) -> bool {
    forall|i: int| 0 <= i < bs.len() ==> is_unreserved(#[trigger] bs[i])
}

/// The number of bytes that stand for themselves.
pub open spec fn unreserved_count(bs: Seq<u8>) -> nat
    decreases bs.len(),
{
    if bs.len() == 0 {
        0
    } else {
        (if is_unreserved(bs[0]) {
            1nat
        } else {
            0nat
        }) + unreserved_count(bs.drop_first())
    }
}

/// The number of bytes that must be escaped.
pub open spec fn reserved_count(bs: Seq<u8>) -> nat
    decreases bs.len(),
{
    if bs.len() == 0 {
        0
    } else {
        (if is_unreserved(bs[0]) {
            0nat
        } else {
            1nat
        }) + reserved_count(bs.drop_first())
    }
}

/// An upper-case hexadecimal digit.
pub open spec fn is_upper_hex(c: char) -> bool {
    '0' <= c <= '9' || 'A' <= c <= 'F'
}

proof fn lemma_percent_encode_concat(a: Seq<u8>, b: Seq<u8>)
    ensures
        percent_encode(a + b) == percent_encode(a) + percent_encode(b),
    decreases a.len(),
{
    if a.len() == 0 {
        assert(a + b =~= b);
        assert(percent_encode(a) =~= Seq::<char>::empty());
        assert(percent_encode(a) + percent_encode(b) =~= percent_encode(b));
    } else {
        lemma_percent_encode_concat(a.drop_first(), b);
        assert((a + b).drop_first() =~= a.drop_first() + b);
        assert((a + b)[0] == a[0]);
        assert(percent_encode(a + b) =~= percent_encode(a) + percent_encode(b));
    }
}

/// Each unreserved byte is written as one character and every other byte as
/// three, so the encoding of `bs` is `unreserved + 3 * reserved` characters long.
pub proof fn lemma_percent_encoding_length(bs: Seq<u8>)
    ensures
        unreserved_count(bs) + reserved_count(bs) == bs.len(),
        percent_encode(bs).len() == unreserved_count(bs) + 3 * reserved_count(bs),
    decreases bs.len(),
{
    if bs.len() > 0 {
        lemma_percent_encoding_length(bs.drop_first());
    }
}

/// In an encoded segment, every `%` is followed by two upper-case hexadecimal digits.
pub proof fn lemma_percent_signs_escape_two_hex_digits(bs: Seq<u8>)
    ensures
        forall|k: int|
            0 <= k < percent_encode(bs).len() && #[trigger] percent_encode(bs)[k] == '%' ==> k + 2
                < percent_encode(bs).len() && is_upper_hex(percent_encode(bs)[k + 1])
                && is_upper_hex(percent_encode(bs)[k + 2]),
    decreases bs.len(),
{
    if bs.len() > 0 {
        let e = encode_byte(bs[0]);
        let r = percent_encode(bs.drop_first());
        let enc = percent_encode(bs);
        lemma_percent_signs_escape_two_hex_digits(bs.drop_first());
        assert(enc == e + r);
        assert forall|k: int| 0 <= k < enc.len() && #[trigger] enc[k] == '%' implies k + 2 < enc.len()
            && is_upper_hex(enc[k + 1]) && is_upper_hex(enc[k + 2]) by {
            if k < e.len() {
                if is_unreserved(bs[0]) {
                    assert(e[0] == bs[0] as char);
                    assert((bs[0] as char) as u8 == bs[0]);
                } else {
                    let hi = bs[0] / 16;
                    let lo = bs[0] % 16;
                    assert(e[1] == hex_digit(hi) && e[2] == hex_digit(lo));
                    assert(hex_digit(hi) != '%' && hex_digit(lo) != '%');
                    assert(k == 0);
                    assert(enc[1] == e[1] && enc[2] == e[2]);
                }
            } else {
                assert(enc[k] == r[k - e.len()]);
                assert(enc[k + 1] == r[k + 1 - e.len()]);
                assert(enc[k + 2] == r[k + 2 - e.len()]);
            }
        }
    }
}

proof fn lemma_utf8_at_least_one_byte_per_char(chars: Seq<char>)
    ensures
        encode_utf8(chars).len() >= chars.len(),
    decreases chars.len(),
{
    if chars.len() > 0 {
        lemma_utf8_at_least_one_byte_per_char(chars.drop_first());
    }
}

proof fn lemma_all_unreserved_split(a: Seq<u8>, b: Seq<u8>)
    requires
        all_unreserved(a + b),
    ensures
        all_unreserved(a),
        all_unreserved(b),
{
    assert forall|i: int| 0 <= i < a.len() implies is_unreserved(#[trigger] a[i]) by {
        assert((a + b)[i] == a[i]);
    }
    assert forall|i: int| 0 <= i < b.len() implies is_unreserved(#[trigger] b[i]) by {
        assert((a + b)[a.len() + i] == b[i]);
    }
}

proof fn lemma_unreserved_text_encodes_to_itself(chars: Seq<char>)
    requires
        all_unreserved(encode_utf8(chars)),
    ensures
        percent_encode(encode_utf8(chars)) == chars,
    decreases chars.len(),
{
    if chars.len() == 0 {
        assert(percent_encode(encode_utf8(chars)) =~= chars);
    } else {
        let c = chars[0];
        let v = c as u32;
        let head = encode_scalar(v);
        let tail = encode_utf8(chars.drop_first());
        assert(encode_utf8(chars) == head + tail);
        lemma_all_unreserved_split(head, tail);
        lemma_unreserved_text_encodes_to_itself(chars.drop_first());
        lemma_percent_encode_concat(head, tail);
        assert(is_unreserved(head[0]));
        char_is_scalar(c);
        if has_width_2_encoding(v) {
            assert(leading_byte_width_2(v) >= 0xC0) by (bit_vector);
        } else if has_width_3_encoding(v) {
            assert(leading_byte_width_3(v) >= 0xE0) by (bit_vector);
        } else if has_width_4_encoding(v) {
            assert(leading_byte_width_4(v) >= 0xF0) by (bit_vector);
        }
        assert(has_width_1_encoding(v));
        assert(leading_byte_width_1(v) == v) by (bit_vector)
            requires
                v <= 0x7F,
        ;
        let b = head[0];
        assert(head =~= seq![b]);
        assert(b as u32 == v);
        char_u32_cast(c, v);
        assert((v as char) == c);
        assert((b as char) == (v as char));
        assert((b as char) == c);
        assert(percent_encode(head) =~= seq![c]) by {
            assert(head.drop_first() =~= Seq::<u8>::empty());
            assert(percent_encode(head.drop_first()) =~= Seq::<char>::empty());
            assert(head[0] == b);
            assert(is_unreserved(b));
            assert(encode_byte(b) =~= seq![b as char]);
            assert(percent_encode(head) == encode_byte(head[0]) + percent_encode(head.drop_first()));
        }
        assert(seq![c] + chars.drop_first() =~= chars);
    }
}

/// `url_path_encode` leaves its value unchanged exactly when each of the value's
/// UTF-8 bytes (`value.spec_bytes()`, the `encode_utf8` of its characters) is an
/// unreserved character (`A`-`Z`, `a`-`z`, `0`-`9`, `-`, `_`, `.`, `~`).
pub proof fn lemma_encoding_is_identity_exactly_on_unreserved_text(chars: Seq<char>)
    ensures
        percent_encode(encode_utf8(chars)) == chars <==> all_unreserved(encode_utf8(chars)),
{
    let bs = encode_utf8(chars);
    if all_unreserved(bs) {
        lemma_unreserved_text_encodes_to_itself(chars);
    } else {
        lemma_percent_encoding_length(bs);
        lemma_utf8_at_least_one_byte_per_char(chars);
        if reserved_count(bs) == 0 {
            lemma_no_reserved_means_all_unreserved(bs);
        }
        assert(percent_encode(bs).len() > chars.len());
    }
}

proof fn lemma_no_reserved_means_all_unreserved(bs: Seq<u8>)
    requires
        reserved_count(bs) == 0,
    ensures
        all_unreserved(bs),
    decreases bs.len(),
{
    if bs.len() > 0 {
        lemma_no_reserved_means_all_unreserved(bs.drop_first());
        assert forall|i: int| 0 <= i < bs.len() implies is_unreserved(#[trigger] bs[i]) by {
            if i > 0 {
                assert(bs[i] == bs.drop_first()[i - 1]);
            }
        }
    }
}

/// The area part of the URL: `world`, or the box as `west,south,east,north`.
pub open spec fn area_text(
    world: bool,
    west: Seq<char>,
    east: Seq<char>,
    south: Seq<char>,
    north: Seq<char>,
) -> Seq<char> {
    if world {
        "world"@
    } else {
        west + seq![','] + south + seq![','] + east + seq![','] + north
    }
}

/// The FIRMS Area API URL:
/// `base/map_key/source/area/day_range[/date]`, with the base's trailing `/`s
/// removed and the map key percent-encoded.
pub open spec fn spec_firms_area_url(
    base_url: Seq<char>,
    map_key_bytes: Seq<u8>,
    source: Seq<char>,
    area: Seq<char>,
    day_range: u8,
    date: Option<Seq<char>>,
) -> Seq<char> {
    let head = strip_trailing(base_url, '/') + seq!['/'] + percent_encode(map_key_bytes) + seq![
        '/',
    ] + source + seq!['/'] + area + seq!['/'] + decimal_text(day_range);
    match date {
        Some(d) => head + seq!['/'] + d,
        None => head,
    }
}

fn strip_trailing_slashes(s: &str) -> (r: Vec<char>)
    ensures
        r@ == strip_trailing(s@, '/'),
{
    let cs = chars_of(s);
    let mut j: usize = cs.len();
    assert(cs@.subrange(0, j as int) =~= cs@);
    while j > 0 && cs[j - 1] == '/'
        invariant
            j <= cs.len(),
            strip_trailing(cs@, '/') == strip_trailing(cs@.subrange(0, j as int), '/'),
        decreases j,
    {
        assert(cs@.subrange(0, j as int).drop_last() =~= cs@.subrange(0, j - 1));
        j = j - 1;
    }
    let mut r: Vec<char> = Vec::new();
    let mut k: usize = 0;
    while k < j
        invariant
            k <= j <= cs.len(),
            r@ == cs@.subrange(0, k as int),
        decreases j - k,
    {
        r.push(cs[k]);
        k = k + 1;
        assert(r@ =~= cs@.subrange(0, k as int));
    }
    r
}

/// Builds the FIRMS Area API URL for a source, an area, a day range and an
/// optional date. `west`, `east`, `south` and `north` are the box's edges as
/// already rendered in decimal; they are used only when `world` is false.
pub fn firms_area_url(
    base_url: &str,
    map_key: &str,
    source: &str,
    world: bool,
    west: &str,
    east: &str,
    south: &str,
    north: &str,
    day_range: u8,
    date: Option<&str>,
) -> (url: String)
    ensures
        url@ == spec_firms_area_url(
            base_url@,
            map_key.spec_bytes(),
            source@,
            area_text(world, west@, east@, south@, north@),
            day_range,
            match date {
                Some(d) => Some(d@),
                None => None,
            },
        ),
{
    let mut out = strip_trailing_slashes(base_url);
    out.push('/');
    let key = url_path_encode(map_key);
    push_str_chars(&mut out, key.as_str());
    out.push('/');
    push_str_chars(&mut out, source);
    out.push('/');
    if world {
        push_str_chars(&mut out, "world");
    } else {
        push_str_chars(&mut out, west);
        out.push(',');
        push_str_chars(&mut out, south);
        out.push(',');
        push_str_chars(&mut out, east);
        out.push(',');
        push_str_chars(&mut out, north);
    }
    out.push('/');
    let days = decimal_chars(day_range);
    push_chars(&mut out, &days);
    match date {
        Some(d) => {
            out.push('/');
            push_str_chars(&mut out, d);
        },
        None => {},
    }
    let ghost area = area_text(world, west@, east@, south@, north@);
    assert(out@ =~= spec_firms_area_url(
        base_url@,
        map_key.spec_bytes(),
        source@,
        area,
        day_range,
        match date {
            Some(d) => Some(d@),
            None => None,
        },
    ));
    string_from_chars(&out)
}

} // verus!
