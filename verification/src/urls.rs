//! The addresses the app asks for: percent-encoding of query values and the
//! paths and query strings built from them.

use vstd::prelude::*;
use vstd::string::StringExecFns;
use vstd::utf8::encode_utf8;
use vstd::utf8::encode_scalar;
use vstd::utf8::decode_utf8;
use crate::model::TripType;
use crate::clock_text::{first_index_of, lemma_first_index_of};

verus! {

/// Whether a byte passes percent-encoding unchanged: ASCII letters, digits,
/// `-`, `.`, `_` and `~`.
pub open spec fn is_unreserved(b: u8) -> bool {
    ||| 0x30 <= b <= 0x39
    ||| 0x41 <= b <= 0x5a
    ||| 0x61 <= b <= 0x7a
    ||| b == 0x2d
    ||| b == 0x2e
    ||| b == 0x5f
    ||| b == 0x7e
}

/// The upper-case hexadecimal digit for `d`, which is below sixteen.
pub open spec fn hex_digit(d: nat) -> char {
    if d < 10 {
        (0x30 + d) as char
    } else {
        (0x41 + d - 10) as char
    }
}

/// One byte as it appears percent-encoded.
pub open spec fn percent_byte(b: u8) -> Seq<char> {
    if is_unreserved(b) {
        seq![b as char]
    } else {
        seq!['%', hex_digit((b / 16) as nat), hex_digit((b % 16) as nat)]
    }
}

/// Bytes percent-encoded one by one.
pub open spec fn percent_encode_bytes(bytes: Seq<u8>) -> Seq<char>
    decreases bytes.len(),
{
    if bytes.len() == 0 {
        Seq::empty()
    } else {
        percent_byte(bytes[0]) + percent_encode_bytes(bytes.drop_first())
    }
}

/// The text of `s` percent-encoded over its UTF-8 bytes.
pub open spec fn url_encoded(s: Seq<char>) -> Seq<char> {
    percent_encode_bytes(encode_utf8(s))
}

/// Calls `urlencoding::encode`: every UTF-8 byte of `s` other than ASCII
/// letters, digits, `-`, `.`, `_` and `~` becomes `%` and two upper-case
/// hexadecimal digits, as the crate's documentation and source give it.
#[verifier::external_body]
pub(crate) fn url_encode(s: &str) -> (r: String)
    ensures
        r@ == url_encoded(s@),
{
    urlencoding::encode(s).into_owned()
}

/// Whether `c` can stand in an encoded query value: an unreserved ASCII
/// character, `%`, or an upper-case hexadecimal digit.
pub open spec fn is_encoded_char(c: char) -> bool {
    ||| is_unreserved(c as u8) && (c as u32) < 0x80
    ||| c == '%'
}

/// Every character of an encoded value is unreserved or `%`, so none of
/// `&`, `=`, `?`, `/`, `#` or a space can appear in it and a query value
/// never runs into the next parameter.
pub proof fn lemma_encoded_values_are_url_safe(s: Seq<char>)
    ensures
        forall|i: int| 0 <= i < url_encoded(s).len() ==> is_encoded_char(#[trigger] url_encoded(s)[i]),
{
    lemma_percent_encode_bytes_safe(encode_utf8(s));
}

proof fn lemma_percent_encode_bytes_safe(bytes: Seq<u8>)
    ensures
        forall|i: int| 0 <= i < percent_encode_bytes(bytes).len()
            ==> is_encoded_char(#[trigger] percent_encode_bytes(bytes)[i]),
    decreases bytes.len(),
{
    if bytes.len() > 0 {
        lemma_percent_encode_bytes_safe(bytes.drop_first());
        let head = percent_byte(bytes[0]);
        let rest = percent_encode_bytes(bytes.drop_first());
        let all = percent_encode_bytes(bytes);
        assert(all == head + rest);
        assert forall|i: int| 0 <= i < all.len() implies is_encoded_char(#[trigger] all[i]) by {
            if i < head.len() {
                let b = bytes[0];
                if !is_unreserved(b) && i > 0 {
                    let d: nat = if i == 1 { (b / 16) as nat } else { (b % 16) as nat };
                    assert(d < 16);
                    assert(all[i] == hex_digit(d));
                    if d < 10 {
                        assert(hex_digit(d) as u32 == 0x30 + d);
                    } else {
                        assert(hex_digit(d) as u32 == 0x41 + d - 10);
                    }
                }
            } else {
                assert(all[i] == rest[i - head.len()]);
            }
        }
    }
}

/// Bytes that all pass unchanged come out as the same characters.
proof fn lemma_unreserved_bytes_unchanged(bytes: Seq<u8>)
    requires
        forall|i: int| 0 <= i < bytes.len() ==> is_unreserved(#[trigger] bytes[i]),
    ensures
        percent_encode_bytes(bytes) == Seq::new(bytes.len(), |i: int| bytes[i] as char),
    decreases bytes.len(),
{
    if bytes.len() > 0 {
        lemma_unreserved_bytes_unchanged(bytes.drop_first());
        assert(is_unreserved(bytes[0]));
        assert(percent_encode_bytes(bytes) =~= Seq::new(bytes.len(), |i: int| bytes[i] as char));
    }
}

/// Text made only of unreserved ASCII characters is left as it is.
pub proof fn lemma_unreserved_text_unchanged(s: Seq<char>)
    requires
        vstd::utf8::is_ascii_chars(s),
        forall|i: int| 0 <= i < s.len() ==> is_unreserved(#[trigger] s[i] as u8),
    ensures
        url_encoded(s) == s,
{
    vstd::utf8::is_ascii_chars_encode_utf8(s);
    let bytes = encode_utf8(s);
    assert forall|i: int| 0 <= i < bytes.len() implies is_unreserved(#[trigger] bytes[i]) by {
        assert(s[i] as u8 == bytes[i]);
    }
    lemma_unreserved_bytes_unchanged(bytes);
    assert forall|i: int| 0 <= i < s.len() implies (bytes[i] as char) == s[i] by {
        assert(s[i] as u8 == bytes[i]);
        assert('\0' <= s[i] <= '\u{7f}');
    }
    assert(url_encoded(s) =~= s);
}

/// The value of a hexadecimal digit, in either case.
pub open spec fn hex_value(c: char) -> Option<nat> {
    if '0' <= c && c <= '9' {
        Some((c as u32 - 0x30) as nat)
    } else if 'A' <= c && c <= 'F' {
        Some((c as u32 - 0x41 + 10) as nat)
    } else if 'a' <= c && c <= 'f' {
        Some((c as u32 - 0x61 + 10) as nat)
    } else {
        None
    }
}

/// The bytes a percent-encoded text stands for: `%` followed by two
/// hexadecimal digits is the byte they spell; any other character stands for
/// its own UTF-8 bytes.
pub open spec fn percent_decode_bytes(s: Seq<char>) -> Seq<u8>
    decreases s.len(),
{
    if s.len() == 0 {
        Seq::empty()
    } else if s[0] == '%' && s.len() >= 3 && hex_value(s[1]) is Some && hex_value(s[2]) is Some {
        seq![(hex_value(s[1])->0 * 16 + hex_value(s[2])->0) as u8] + percent_decode_bytes(s.skip(3))
    } else {
        encode_scalar(s[0] as u32) + percent_decode_bytes(s.drop_first())
    }
}

/// The text a percent-encoded query value stands for.
pub open spec fn percent_decoded(s: Seq<char>) -> Seq<char> {
    decode_utf8(percent_decode_bytes(s))
}

proof fn lemma_hex_digit_value(d: nat)
    requires
        d < 16,
    ensures
        hex_value(hex_digit(d)) == Some(d),
        hex_digit(d) != '%',
{
    if d < 10 {
        assert(hex_digit(d) as u32 == 0x30 + d);
    } else {
        assert(hex_digit(d) as u32 == 0x41 + d - 10);
    }
}

proof fn lemma_percent_bytes_round_trip(bytes: Seq<u8>)
    ensures
        percent_decode_bytes(percent_encode_bytes(bytes)) == bytes,
    decreases bytes.len(),
{
    if bytes.len() > 0 {
        let b = bytes[0];
        let rest = percent_encode_bytes(bytes.drop_first());
        let all = percent_encode_bytes(bytes);
        lemma_percent_bytes_round_trip(bytes.drop_first());
        assert(all == percent_byte(b) + rest);
        if is_unreserved(b) {
            assert(all[0] == b as char);
            assert(all.drop_first() =~= rest);
            assert((b as char) as u32 == b as u32);
            assert(b < 0x80);
            assert(b < 0x80 ==> ((b as u32) & 0x7F) as u8 == b) by (bit_vector);
            assert(encode_scalar(b as u32) == seq![b]);
            assert(percent_decode_bytes(all) == seq![b] + bytes.drop_first());
        } else {
            let hi = (b / 16) as nat;
            let lo = (b % 16) as nat;
            lemma_hex_digit_value(hi);
            lemma_hex_digit_value(lo);
            assert(all[0] == '%');
            assert(all[1] == hex_digit(hi));
            assert(all[2] == hex_digit(lo));
            assert(all.skip(3) =~= rest);
            assert((hi * 16 + lo) as u8 == b);
            assert(percent_decode_bytes(all) == seq![b] + bytes.drop_first());
        }
        assert(seq![b] + bytes.drop_first() =~= bytes);
    }
}

/// Decoding an encoded value gives back the text: a page opened at an
/// address built here reads the same ids and names that went into it.
pub proof fn lemma_encoded_values_decode_back(s: Seq<char>)
    ensures
        percent_decoded(url_encoded(s)) == s,
{
    lemma_percent_bytes_round_trip(encode_utf8(s));
    vstd::utf8::encode_utf8_decode_utf8(s);
}

/// The address of the EnTur stop search.
pub open spec fn geocoder_url() -> Seq<char> {
    "https://api.entur.io/geocoder/v1/autocomplete"@
}

/// The stop-search request for `query`, before any focus point is added:
/// ten venues, in Norwegian.
pub open spec fn geocoder_search_url_for(query: Seq<char>) -> Seq<char> {
    geocoder_url() + "?text="@ + url_encoded(query) + "&lang=no&size=10&layers=venue"@
}

/// The stop-search request to EnTur for `query`.
pub fn geocoder_search_url(query: &str) -> (r: String)
    ensures
        r@ == geocoder_search_url_for(query@),
{
    let mut url = String::from_str("https://api.entur.io/geocoder/v1/autocomplete");
    url.append("?text=");
    let q = url_encode(query);
    url.append(q.as_str());
    url.append("&lang=no&size=10&layers=venue");
    url
}

/// The app's own stop-search path for `query`.
pub open spec fn stop_search_path_for(query: Seq<char>) -> Seq<char> {
    "/api/stops/search?q="@ + url_encoded(query)
}

/// The app's own stop-search path for `query`.
pub fn stop_search_path(query: &str) -> (r: String)
    ensures
        r@ == stop_search_path_for(query@),
{
    let mut url = String::from_str("/api/stops/search?q=");
    let q = url_encode(query);
    url.append(q.as_str());
    url
}

/// The app's own real-time path for a service journey.
pub open spec fn service_journey_path_for(id: Seq<char>) -> Seq<char> {
    "/api/service-journey/"@ + url_encoded(id)
}

/// The app's own real-time path for a service journey.
pub fn service_journey_path(id: &str) -> (r: String)
    ensures
        r@ == service_journey_path_for(id@),
{
    let mut url = String::from_str("/api/service-journey/");
    let q = url_encode(id);
    url.append(q.as_str());
    url
}

/// The search page address that runs a saved trip type.
pub open spec fn trip_type_search_path_for(t: TripType) -> Seq<char> {
    "/search?from="@ + url_encoded(t.from_stop.id@) + "&to="@ + url_encoded(t.to_stop.id@)
        + "&from_name="@ + url_encoded(t.from_stop.name@) + "&to_name="@
        + url_encoded(t.to_stop.name@)
}

/// The search page address that runs a saved trip type.
pub fn trip_type_search_path(t: &TripType) -> (r: String)
    ensures
        r@ == trip_type_search_path_for(*t),
{
    let mut url = String::from_str("/search?from=");
    let a = url_encode(t.from_stop.id.as_str());
    url.append(a.as_str());
    url.append("&to=");
    let b = url_encode(t.to_stop.id.as_str());
    url.append(b.as_str());
    url.append("&from_name=");
    let c = url_encode(t.from_stop.name.as_str());
    url.append(c.as_str());
    url.append("&to_name=");
    let d = url_encode(t.to_stop.name.as_str());
    url.append(d.as_str());
    url
}

/// `s` split at its first `c`: what comes before, and what follows it when
/// there is one.
pub open spec fn split_at_char(s: Seq<char>, c: char) -> (Seq<char>, Option<Seq<char>>) {
    match first_index_of(s, c) {
        Some(i) => (s.take(i), Some(s.skip(i + 1))),
        None => (s, None),
    }
}

/// The first `c` of `s`, when there is one, lies within `s`.
pub proof fn lemma_first_index_in_bounds(s: Seq<char>, c: char)
    ensures
        first_index_of(s, c) matches Some(i) ==> 0 <= i < s.len(),
    decreases s.len(),
{
    if s.len() > 0 {
        lemma_first_index_in_bounds(s.drop_first(), c);
    }
}

/// Whether a query parameter reads `key=...`.
pub open spec fn names_key(param: Seq<char>, key: Seq<char>) -> bool {
    param.len() > key.len() && param.take(key.len() as int) == key && param[key.len() as int] == '='
}

/// The decoded value of the first `key=value` parameter of a query string,
/// whose parameters are separated by `&`.
pub open spec fn query_value(q: Seq<char>, key: Seq<char>) -> Option<Seq<char>>
    decreases q.len(),
{
    let (param, rest) = split_at_char(q, '&');
    if names_key(param, key) {
        Some(percent_decoded(param.skip(key.len() as int + 1)))
    } else {
        match rest {
            Some(r) => {
                proof {
                    lemma_first_index_in_bounds(q, '&');
                }
                query_value(r, key)
            },
            None => None,
        }
    }
}

/// The query string of an address: what follows its first `?`.
pub open spec fn query_of(url: Seq<char>) -> Seq<char> {
    match split_at_char(url, '?') {
        (_, Some(q)) => q,
        (_, None) => Seq::empty(),
    }
}

proof fn lemma_no_ampersand_in_encoded(s: Seq<char>)
    ensures
        forall|i: int| 0 <= i < url_encoded(s).len() ==> #[trigger] url_encoded(s)[i] != '&',
{
    lemma_encoded_values_are_url_safe(s);
    assert forall|i: int| 0 <= i < url_encoded(s).len() implies #[trigger] url_encoded(s)[i] != '&' by {
        assert(is_encoded_char(url_encoded(s)[i]));
    }
}

proof fn lemma_split_at_separator(p: Seq<char>, r: Seq<char>, c: char)
    requires
        forall|i: int| 0 <= i < p.len() ==> #[trigger] p[i] != c,
    ensures
        split_at_char(p + seq![c] + r, c) == (p, Some(r)),
        split_at_char(p, c) == (p, None::<Seq<char>>),
{
    let s = p + seq![c] + r;
    lemma_first_index_of(s, c, p.len() as int);
    assert(s.skip(p.len() as int)[0] == c);
    assert(s.take(p.len() as int) =~= p);
    assert(s.skip(p.len() as int + 1) =~= r);
    lemma_first_index_of(p, c, p.len() as int);
    assert(p.skip(p.len() as int).len() == 0);
}

/// A parameter `key=` followed by an encoded value, read as `key`, gives back
/// the value; read as another key that differs from it within its length, it
/// gives nothing.
proof fn lemma_param_value(key: Seq<char>, v: Seq<char>)
    requires
        forall|i: int| 0 <= i < key.len() ==> #[trigger] key[i] != '=',
    ensures
        names_key(key + seq!['='] + url_encoded(v), key),
        (key + seq!['='] + url_encoded(v)).skip(key.len() as int + 1) == url_encoded(v),
        percent_decoded(url_encoded(v)) == v,
{
    let p = key + seq!['='] + url_encoded(v);
    assert(p.take(key.len() as int) =~= key);
    assert(p[key.len() as int] == '=');
    assert(p.skip(key.len() as int + 1) =~= url_encoded(v));
    lemma_encoded_values_decode_back(v);
}

/// The address that runs a saved trip type reads back, through the query
/// decoding the search page applies, as the trip type's stop ids and names.
pub proof fn lemma_saved_trip_address_reads_back(t: TripType)
    ensures
        query_value(query_of(trip_type_search_path_for(t)), "from"@) == Some(t.from_stop.id@),
        query_value(query_of(trip_type_search_path_for(t)), "to"@) == Some(t.to_stop.id@),
        query_value(query_of(trip_type_search_path_for(t)), "from_name"@) == Some(t.from_stop.name@),
        query_value(query_of(trip_type_search_path_for(t)), "to_name"@) == Some(t.to_stop.name@),
{
    reveal_strlit("/search?from=");
    reveal_strlit("&to=");
    reveal_strlit("&from_name=");
    reveal_strlit("&to_name=");
    reveal_strlit("from");
    reveal_strlit("to");
    reveal_strlit("from_name");
    reveal_strlit("to_name");
    let (a, b, c, d) = (
        url_encoded(t.from_stop.id@),
        url_encoded(t.to_stop.id@),
        url_encoded(t.from_stop.name@),
        url_encoded(t.to_stop.name@),
    );
    let k_from = "from"@;
    let k_to = "to"@;
    let k_from_name = "from_name"@;
    let k_to_name = "to_name"@;
    let p1 = k_from + seq!['='] + a;
    let p2 = k_to + seq!['='] + b;
    let p3 = k_from_name + seq!['='] + c;
    let p4 = k_to_name + seq!['='] + d;
    let q4 = p4;
    let q3 = p3 + seq!['&'] + q4;
    let q2 = p2 + seq!['&'] + q3;
    let q1 = p1 + seq!['&'] + q2;
    let url = trip_type_search_path_for(t);
    let head = "/search"@;
    reveal_strlit("/search");
    assert(url =~= head + seq!['?'] + q1);
    assert forall|i: int| 0 <= i < head.len() implies #[trigger] head[i] != '?' by {}
    lemma_split_at_separator(head, q1, '?');
    assert(query_of(url) == q1);

    lemma_no_ampersand_in_encoded(t.from_stop.id@);
    lemma_no_ampersand_in_encoded(t.to_stop.id@);
    lemma_no_ampersand_in_encoded(t.from_stop.name@);
    lemma_no_ampersand_in_encoded(t.to_stop.name@);
    assert forall|i: int| 0 <= i < p1.len() implies #[trigger] p1[i] != '&' by {
        if i >= k_from.len() + 1 { assert(p1[i] == a[i - k_from.len() - 1]); }
    }
    assert forall|i: int| 0 <= i < p2.len() implies #[trigger] p2[i] != '&' by {
        if i >= k_to.len() + 1 { assert(p2[i] == b[i - k_to.len() - 1]); }
    }
    assert forall|i: int| 0 <= i < p3.len() implies #[trigger] p3[i] != '&' by {
        if i >= k_from_name.len() + 1 { assert(p3[i] == c[i - k_from_name.len() - 1]); }
    }
    assert forall|i: int| 0 <= i < p4.len() implies #[trigger] p4[i] != '&' by {
        if i >= k_to_name.len() + 1 { assert(p4[i] == d[i - k_to_name.len() - 1]); }
    }
    lemma_split_at_separator(p1, q2, '&');
    lemma_split_at_separator(p2, q3, '&');
    lemma_split_at_separator(p3, q4, '&');
    lemma_split_at_separator(p4, Seq::empty(), '&');

    lemma_param_value(k_from, t.from_stop.id@);
    lemma_param_value(k_to, t.to_stop.id@);
    lemma_param_value(k_from_name, t.from_stop.name@);
    lemma_param_value(k_to_name, t.to_stop.name@);

    // Where a parameter holds another key, the two differ within the key.
    assert(p1[0] != k_to[0]);
    assert(!names_key(p1, k_to));
    assert(p1[4] != k_from_name[4]);
    assert(!names_key(p1, k_from_name));
    assert(p2[2] != k_from_name[2] || p2[0] != k_from_name[0]);
    assert(!names_key(p2, k_from_name));
    assert(p1[0] != k_to_name[0]);
    assert(!names_key(p1, k_to_name));
    assert(p2[2] != k_to_name[2]);
    assert(!names_key(p2, k_to_name));
    assert(p3[0] != k_to_name[0]);
    assert(!names_key(p3, k_to_name));

    assert(query_value(q1, k_from) == Some(t.from_stop.id@));
    assert(query_value(q2, k_to) == Some(t.to_stop.id@));
    assert(query_value(q1, k_to) == query_value(q2, k_to));
    assert(query_value(q3, k_from_name) == Some(t.from_stop.name@));
    assert(query_value(q2, k_from_name) == query_value(q3, k_from_name));
    assert(query_value(q1, k_from_name) == query_value(q2, k_from_name));
    assert(query_value(q4, k_to_name) == Some(t.to_stop.name@));
    assert(query_value(q3, k_to_name) == query_value(q4, k_to_name));
    assert(query_value(q2, k_to_name) == query_value(q3, k_to_name));
    assert(query_value(q1, k_to_name) == query_value(q2, k_to_name));
}

} // verus!
