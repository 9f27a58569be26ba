//! Reading and writing the times the app shows: the clock part of an
//! ISO-8601 timestamp, "HH:MM" strings, and the local timestamp that a
//! chosen time of day stands for.

use vstd::prelude::*;
use vstd::string::StringExecFns;
use vstd::utf8::encode_utf8;
use vstd::utf8::encode_scalar;
use crate::model::TimePeriod;
use crate::text::{
    chars_of, char_utf8_width, copy_string, padded_decimal, push_char, push_chars,
    push_padded_decimal, seq_le, str_equal, str_le, string_from_chars, utf8_width,
};

verus! {

/// The index of the first `c` in `s`.
pub open spec fn first_index_of(s: Seq<char>, c: char) -> Option<int>
    decreases s.len(),
{
    if s.len() == 0 {
        None
    } else if s[0] == c {
        Some(0)
    } else {
        match first_index_of(s.drop_first(), c) {
            Some(i) => Some(i + 1),
            None => None,
        }
    }
}

/// The leading characters of `s` whose UTF-8 encoding takes exactly `n`
/// bytes, when a character boundary falls there.
pub open spec fn utf8_prefix(s: Seq<char>, n: int) -> Option<Seq<char>>
    decreases s.len(),
{
    if n == 0 {
        Some(Seq::empty())
    } else if s.len() == 0 || n < 0 {
        None
    } else if utf8_width(s[0]) > n {
        None
    } else {
        match utf8_prefix(s.drop_first(), n - utf8_width(s[0])) {
            Some(p) => Some(seq![s[0]] + p),
            None => None,
        }
    }
}

/// What follows the first `T` of an ISO-8601 timestamp, if there is one.
pub open spec fn after_time_separator(iso: Seq<char>) -> Option<Seq<char>> {
    match first_index_of(iso, 'T') {
        Some(t) => Some(iso.skip(t + 1)),
        None => None,
    }
}

/// Whether cutting the clock out of `iso` would split a character: the part
/// after `T` holds five or more bytes, but no character ends at the fifth.
pub open spec fn clock_cut_splits_char(iso: Seq<char>) -> bool {
    match after_time_separator(iso) {
        Some(rest) => encode_utf8(rest).len() >= 5 && utf8_prefix(rest, 5) is None,
        None => false,
    }
}

/// "HH:MM" out of an ISO-8601 timestamp: the first five bytes after the
/// first `T`; the input itself when there is no `T` or fewer bytes follow.
pub open spec fn clock_of(iso: Seq<char>) -> Seq<char> {
    match after_time_separator(iso) {
        Some(rest) => if encode_utf8(rest).len() >= 5 {
            utf8_prefix(rest, 5).unwrap()
        } else {
            iso
        },
        None => iso,
    }
}

/// The first `c` of `s`, when none of the first `i` characters is `c`, is
/// found by looking from `i` on.
pub proof fn lemma_first_index_of(s: Seq<char>, c: char, i: int)
    requires
        0 <= i <= s.len(),
        forall|j: int| 0 <= j < i ==> s[j] != c,
    ensures
        first_index_of(s, c) == (match first_index_of(s.skip(i), c) {
            Some(k) => Some(k + i),
            None => None::<int>,
        }),
    decreases i,
{
    if i > 0 {
        assert(s.drop_first().skip(i - 1) =~= s.skip(i));
        lemma_first_index_of(s.drop_first(), c, i - 1);
    } else {
        assert(s.skip(0) =~= s);
    }
}

/// The encoding of a text is its first character's bytes, then the rest's.
pub proof fn lemma_encode_utf8_len_first(s: Seq<char>)
    requires
        s.len() > 0,
    ensures
        encode_utf8(s).len() == utf8_width(s[0]) + encode_utf8(s.drop_first()).len(),
{
    assert(encode_utf8(s) == encode_scalar(s[0] as u32) + encode_utf8(s.drop_first()));
}

/// The index of the first `c` in `v`.
fn find_char(v: &Vec<char>, c: char) -> (r: Option<usize>)
    ensures
        r matches Some(i) ==> first_index_of(v@, c) == Some(i as int) && i < v@.len(),
        r is None ==> first_index_of(v@, c) is None,
{
    let mut i: usize = 0;
    while i < v.len()
        invariant
            i <= v@.len(),
            forall|j: int| 0 <= j < i ==> v@[j] != c,
        decreases v@.len() - i,
    {
        if v[i] == c {
            proof {
                lemma_first_index_of(v@, c, i as int);
            }
            return Some(i);
        }
        i = i + 1;
    }
    proof {
        lemma_first_index_of(v@, c, i as int);
        assert(v@.skip(i as int).len() == 0);
    }
    None
}

proof fn lemma_encode_utf8_len_at_least(s: Seq<char>)
    ensures
        encode_utf8(s).len() >= s.len(),
    decreases s.len(),
{
    if s.len() > 0 {
        lemma_encode_utf8_len_first(s);
        lemma_encode_utf8_len_at_least(s.drop_first());
    }
}

proof fn lemma_utf8_prefix_ascii(s: Seq<char>, n: int)
    requires
        0 <= n <= s.len(),
        forall|j: int| 0 <= j < n ==> (#[trigger] s[j] as u32) < 0x80,
    ensures
        utf8_prefix(s, n) == Some(s.take(n)),
    decreases n,
{
    if n > 0 {
        assert((s[0] as u32) < 0x80);
        assert(utf8_width(s[0]) == 1);
        assert forall|j: int| 0 <= j < n - 1 implies (#[trigger] s.drop_first()[j] as u32) < 0x80 by {
            assert(s.drop_first()[j] == s[j + 1]);
        }
        lemma_utf8_prefix_ascii(s.drop_first(), n - 1);
        assert(seq![s[0]] + s.drop_first().take(n - 1) =~= s.take(n));
    } else {
        assert(s.take(0) =~= Seq::<char>::empty());
    }
}

/// The clock shown for a timestamp is the five characters after its first
/// `T`, when they are plain ASCII as in "…T08:20:00+02:00".
pub proof fn lemma_clock_is_five_characters_after_t(iso: Seq<char>, t: int)
    requires
        0 <= t,
        t + 6 <= iso.len(),
        iso[t] == 'T',
        forall|j: int| 0 <= j < t ==> iso[j] != 'T',
        forall|j: int| t < j < t + 6 ==> (#[trigger] iso[j] as u32) < 0x80,
    ensures
        clock_of(iso) == iso.subrange(t + 1, t + 6),
        !clock_cut_splits_char(iso),
{
    lemma_first_index_of(iso, 'T', t);
    assert(iso.skip(t)[0] == 'T');
    let rest = iso.skip(t + 1);
    assert forall|j: int| 0 <= j < 5 implies (#[trigger] rest[j] as u32) < 0x80 by {
        assert(rest[j] == iso[t + 1 + j]);
    }
    lemma_utf8_prefix_ascii(rest, 5);
    lemma_encode_utf8_len_at_least(rest);
    assert(rest.take(5) =~= iso.subrange(t + 1, t + 6));
}

/// A timestamp without a `T` is shown as it is.
pub proof fn lemma_clock_without_t_is_whole_text(iso: Seq<char>)
    requires
        forall|j: int| 0 <= j < iso.len() ==> iso[j] != 'T',
    ensures
        clock_of(iso) == iso,
{
    lemma_first_index_of(iso, 'T', iso.len() as int);
    assert(iso.skip(iso.len() as int).len() == 0);
}

/// "HH:MM" out of an ISO-8601 timestamp, or the timestamp itself when it has
/// no clock part.
pub fn format_time(iso: &str) -> (r: String)
    requires
        !clock_cut_splits_char(iso@),
    ensures
        r@ == clock_of(iso@),
{
    let v = chars_of(iso);
    match find_char(&v, 'T') {
        None => iso.to_owned(),
        Some(t) => {
            let ghost rest = v@.skip(t + 1);
            assert(t < v.len());
            let start = t + 1;
            let mut k: usize = start;
            let mut acc: usize = 0;
            assert(v@.skip(start as int) =~= rest);
            assert(rest.take(0) =~= Seq::<char>::empty());
            while acc < 5 && k < v.len()
                invariant
                    start <= k <= v@.len(),
                    v@ == iso@,
                    start == t + 1,
                    after_time_separator(iso@) == Some(rest),
                    !clock_cut_splits_char(iso@),
                    rest == v@.skip(start as int),
                    acc <= 5,
                    encode_utf8(rest).len() == acc + encode_utf8(v@.skip(k as int)).len(),
                    utf8_prefix(rest, 5) == (match utf8_prefix(v@.skip(k as int), 5 - acc) {
                        Some(p) => Some(v@.subrange(start as int, k as int) + p),
                        None => None::<Seq<char>>,
                    }),
                decreases v@.len() - k,
            {
                let w = char_utf8_width(v[k]);
                let ghost tail = v@.skip(k as int);
                proof {
                    lemma_encode_utf8_len_first(tail);
                    assert(tail.drop_first() =~= v@.skip(k + 1));
                    assert(tail[0] == v@[k as int]);
                }
                if w > 5 - acc {
                    // The fifth byte falls inside this character.
                    assert(utf8_prefix(rest, 5) is None);
                    return iso.to_owned();
                }
                proof {
                    assert(v@.subrange(start as int, k + 1) =~= v@.subrange(start as int, k as int) + seq![v@[k as int]]);
                    let a = utf8_prefix(v@.skip(k + 1), 5 - acc - w);
                    if a is Some {
                        assert(v@.subrange(start as int, k as int) + (seq![v@[k as int]] + a.unwrap())
                            =~= v@.subrange(start as int, k + 1) + a.unwrap());
                    }
                }
                acc = acc + w;
                k = k + 1;
            }
            if acc == 5 {
                string_from_chars(&v, start, k)
            } else {
                assert(v@.skip(k as int).len() == 0);
                assert(encode_utf8(v@.skip(k as int)) == Seq::<u8>::empty());
                iso.to_owned()
            }
        },
    }
}

/// Whether a leg runs off schedule: there is an aimed time and it differs
/// from the expected one.
pub fn is_delayed(aimed: &Option<String>, expected: &str) -> (r: bool)
    ensures
        r == (match aimed {
            Some(a) => a@ != expected@,
            None => false,
        }),
{
    match aimed {
        Some(a) => !str_equal(a.as_str(), expected),
        None => false,
    }
}

/// "HH:MM" for a clock reading, each field padded to two digits.
pub open spec fn hhmm(hours: nat, minutes: nat) -> Seq<char> {
    padded_decimal(hours, 2) + seq![':'] + padded_decimal(minutes, 2)
}

/// "HH:MM" for a clock reading.
pub fn format_hhmm(hours: u32, minutes: u32) -> (r: String)
    ensures
        r@ == hhmm(hours as nat, minutes as nat),
{
    let mut s = String::new();
    push_padded_decimal(&mut s, hours as u64, 2);
    push_char(&mut s, ':');
    push_padded_decimal(&mut s, minutes as u64, 2);
    assert(s@ =~= hhmm(hours as nat, minutes as nat));
    s
}

/// Whether `c` is an ASCII digit.
pub open spec fn is_digit(c: char) -> bool {
    '0' <= c && c <= '9'
}

/// The number that the digits `s` spell.
pub open spec fn digits_value(s: Seq<char>) -> nat
    decreases s.len(),
{
    if s.len() == 0 {
        0
    } else {
        digits_value(s.drop_last()) * 10 + ((s.last() as u32) - ('0' as u32)) as nat
    }
}

/// `s` without one leading `+`.
pub open spec fn unsigned_digits(s: Seq<char>) -> Seq<char> {
    if s.len() > 0 && s[0] == '+' { s.drop_first() } else { s }
}

/// What `str::parse::<u32>` gives: an optional `+`, then one or more ASCII
/// digits whose value fits in 32 bits.
pub open spec fn parse_u32(s: Seq<char>) -> Option<u32> {
    let d = unsigned_digits(s);
    if d.len() == 0 {
        None
    } else if exists|i: int| 0 <= i < d.len() && !is_digit(#[trigger] d[i]) {
        None
    } else if digits_value(d) > u32::MAX {
        None
    } else {
        Some(digits_value(d) as u32)
    }
}

proof fn lemma_digits_value_grows(s: Seq<char>, k: int)
    requires
        0 <= k <= s.len(),
        forall|i: int| 0 <= i < s.len() ==> is_digit(#[trigger] s[i]),
    ensures
        digits_value(s.take(k)) <= digits_value(s),
    decreases s.len() - k,
{
    if k < s.len() {
        lemma_digits_value_grows(s, k + 1);
        assert(s.take(k + 1).drop_last() =~= s.take(k));
        assert(s.take(k + 1).last() == s[k]);
        assert(is_digit(s[k]));
        assert(digits_value(s.take(k + 1)) >= digits_value(s.take(k)) * 10);
    } else {
        assert(s.take(k) =~= s);
    }
}

/// Parses a decimal number as `str::parse::<u32>` does.
pub fn parse_u32_digits(s: &Vec<char>, from: usize, to: usize) -> (r: Option<u32>)
    requires
        from <= to <= s@.len(),
    ensures
        r == parse_u32(s@.subrange(from as int, to as int)),
{
    let ghost whole = s@.subrange(from as int, to as int);
    let mut i = from;
    if i < to && s[i] == '+' {
        i = i + 1;
    }
    let ghost d = s@.subrange(i as int, to as int);
    assert(d =~= unsigned_digits(whole));
    if i == to {
        return None;
    }
    let begin = i;
    let mut acc: u64 = 0;
    let mut overflow = false;
    while i < to
        invariant
            from <= begin <= i <= to <= s@.len(),
            begin < to,
            d == s@.subrange(begin as int, to as int),
            d == unsigned_digits(s@.subrange(from as int, to as int)),
            forall|j: int| begin <= j < i ==> is_digit(#[trigger] s@[j]),
            !overflow ==> acc == digits_value(s@.subrange(begin as int, i as int)),
            !overflow ==> acc <= u32::MAX,
            overflow ==> digits_value(s@.subrange(begin as int, i as int)) > u32::MAX,
        decreases to - i,
    {
        let c = s[i];
        if !('0' <= c && c <= '9') {
            assert(!is_digit(d[i - begin]));
            return None;
        }
        let ghost before = s@.subrange(begin as int, i as int);
        let ghost after = s@.subrange(begin as int, i + 1);
        assert(after.drop_last() =~= before);
        assert(after.last() == c);
        if !overflow {
            let dv = (c as u32 - '0' as u32) as u64;
            acc = acc * 10 + dv;
            if acc > 0xffff_ffff {
                overflow = true;
            }
        } else {
            assert(digits_value(after) >= digits_value(before) * 10);
        }
        i = i + 1;
    }
    assert(s@.subrange(begin as int, i as int) =~= d);
    assert forall|j: int| 0 <= j < d.len() implies is_digit(#[trigger] d[j]) by {
        assert(d[j] == s@[begin + j]);
    }
    if overflow {
        None
    } else {
        Some(acc as u32)
    }
}

/// The hour and minute of a "HH:MM" string as the time picker reads them:
/// the text before the first `:` and the text after it up to the next `:`,
/// each read as a number, zero where that fails; both zero without a `:`.
pub open spec fn hhmm_fields(s: Seq<char>) -> (nat, nat) {
    match first_index_of(s, ':') {
        Some(i) => {
            let after = s.skip(i + 1);
            let second = match first_index_of(after, ':') {
                Some(j) => after.take(j),
                None => after,
            };
            (
                match parse_u32(s.take(i)) { Some(h) => h as nat, None => 0 },
                match parse_u32(second) { Some(m) => m as nat, None => 0 },
            )
        },
        None => (0, 0),
    }
}

/// Hour and minute read from a "HH:MM" string.
pub fn read_hhmm(s: &str) -> (r: (u32, u32))
    ensures
        r.0 as nat == hhmm_fields(s@).0,
        r.1 as nat == hhmm_fields(s@).1,
{
    let v = chars_of(s);
    match find_char(&v, ':') {
        None => (0, 0),
        Some(i) => {
            let len = v.len();
            assert(i < len);
            let mut j = i + 1;
            while j < v.len() && v[j] != ':'
                invariant
                    i + 1 <= j <= v@.len(),
                    forall|k: int| i + 1 <= k < j ==> v@[k] != ':',
                decreases v@.len() - j,
            {
                j = j + 1;
            }
            proof {
                let after = v@.skip(i + 1);
                assert forall|k: int| 0 <= k < j - i - 1 implies after[k] != ':' by {
                    assert(after[k] == v@[i + 1 + k]);
                }
                lemma_first_index_of(after, ':', j - i - 1);
                if j < v@.len() {
                    assert(after.skip(j - i - 1)[0] == v@[j as int]);
                    assert(after.take(j - i - 1) =~= v@.subrange(i + 1, j as int));
                } else {
                    assert(after.skip(j - i - 1).len() == 0);
                    assert(after =~= v@.subrange(i + 1, j as int));
                }
                assert(v@.take(i as int) =~= v@.subrange(0, i as int));
            }
            let h = match parse_u32_digits(&v, 0, i) {
                Some(h) => h,
                None => 0,
            };
            let m = match parse_u32_digits(&v, i + 1, j) {
                Some(m) => m,
                None => 0,
            };
            (h, m)
        },
    }
}

proof fn lemma_digit_char_value(k: nat)
    requires
        k < 10,
    ensures
        (crate::text::digit_char(k) as u32) - ('0' as u32) == k,
        is_digit(crate::text::digit_char(k)),
{
}

proof fn lemma_decimal_digits(n: nat)
    ensures
        forall|i: int| 0 <= i < crate::text::decimal(n).len() ==> is_digit(#[trigger] crate::text::decimal(n)[i]),
        crate::text::decimal(n).len() >= 1,
        digits_value(crate::text::decimal(n)) == n,
    decreases n,
{
    let d = crate::text::decimal(n);
    if n >= 10 {
        lemma_decimal_digits(n / 10);
        let p = crate::text::decimal(n / 10);
        lemma_digit_char_value(n % 10);
        assert(d == p.push(crate::text::digit_char(n % 10)));
        assert(d.last() == crate::text::digit_char(n % 10));
        assert(digits_value(d) == digits_value(d.drop_last()) * 10 + (n % 10));
        assert(n == (n / 10) * 10 + n % 10);
        assert(d.drop_last() =~= p);
        assert forall|i: int| 0 <= i < d.len() implies is_digit(#[trigger] d[i]) by {
            if i < p.len() {
                assert(d[i] == p[i]);
            }
        }
    } else {
        lemma_digit_char_value(n);
        assert(d.drop_last() =~= Seq::<char>::empty());
        assert(d.last() == crate::text::digit_char(n));
        assert(digits_value(d.drop_last()) == 0);
        assert(digits_value(d) == digits_value(d.drop_last()) * 10 + n);
    }
}

proof fn lemma_zeros_then_digits(z: Seq<char>, t: Seq<char>)
    requires
        forall|i: int| 0 <= i < z.len() ==> #[trigger] z[i] == '0',
    ensures
        digits_value(z + t) == digits_value(t),
    decreases t.len(),
{
    if t.len() == 0 {
        assert(z + t =~= z);
        lemma_zeros_value(z);
    } else {
        assert((z + t).drop_last() =~= z + t.drop_last());
        lemma_zeros_then_digits(z, t.drop_last());
    }
}

proof fn lemma_zeros_value(z: Seq<char>)
    requires
        forall|i: int| 0 <= i < z.len() ==> #[trigger] z[i] == '0',
    ensures
        digits_value(z) == 0,
    decreases z.len(),
{
    if z.len() > 0 {
        lemma_zeros_value(z.drop_last());
        assert(z.last() == z[z.len() - 1]);
    }
}

/// A padded decimal is all digits and reads back as its number.
proof fn lemma_padded_decimal_reads_back(n: nat, width: nat)
    ensures
        crate::text::padded_decimal(n, width).len() >= 1,
        forall|i: int| 0 <= i < crate::text::padded_decimal(n, width).len()
            ==> is_digit(#[trigger] crate::text::padded_decimal(n, width)[i]),
        digits_value(crate::text::padded_decimal(n, width)) == n,
{
    let d = crate::text::decimal(n);
    lemma_decimal_digits(n);
    let p = crate::text::padded_decimal(n, width);
    if d.len() < width {
        let z = Seq::new((width - d.len()) as nat, |i: int| '0');
        assert(p == z + d);
        lemma_zeros_then_digits(z, d);
        assert forall|i: int| 0 <= i < p.len() implies is_digit(#[trigger] p[i]) by {
            if i >= z.len() {
                assert(p[i] == d[i - z.len()]);
            }
        }
    }
}

proof fn lemma_digits_parse(t: Seq<char>)
    requires
        t.len() >= 1,
        forall|i: int| 0 <= i < t.len() ==> is_digit(#[trigger] t[i]),
        digits_value(t) <= u32::MAX,
    ensures
        parse_u32(t) == Some(digits_value(t) as u32),
{
    assert(is_digit(t[0]));
    assert(unsigned_digits(t) == t);
}

proof fn lemma_no_colon(t: Seq<char>)
    requires
        forall|i: int| 0 <= i < t.len() ==> is_digit(#[trigger] t[i]),
    ensures
        first_index_of(t, ':') is None,
{
    assert forall|j: int| 0 <= j < t.len() implies t[j] != ':' by {
        assert(is_digit(t[j]));
    }
    lemma_first_index_of(t, ':', t.len() as int);
    assert(t.skip(t.len() as int).len() == 0);
}

/// Reading back the "HH:MM" that [`format_hhmm`] writes gives the hour and
/// minute it was written from: the time field shows what the picker reads.
pub proof fn lemma_hhmm_reads_back(hours: u32, minutes: u32)
    ensures
        hhmm_fields(hhmm(hours as nat, minutes as nat)) == (hours as nat, minutes as nat),
{
    let ph = crate::text::padded_decimal(hours as nat, 2);
    let pm = crate::text::padded_decimal(minutes as nat, 2);
    lemma_padded_decimal_reads_back(hours as nat, 2);
    lemma_padded_decimal_reads_back(minutes as nat, 2);
    let s = hhmm(hours as nat, minutes as nat);
    assert forall|j: int| 0 <= j < ph.len() implies s[j] != ':' by {
        assert(s[j] == ph[j]);
        assert(is_digit(ph[j]));
    }
    lemma_first_index_of(s, ':', ph.len() as int);
    assert(s.skip(ph.len() as int)[0] == ':');
    assert(first_index_of(s.skip(ph.len() as int), ':') == Some(0int));
    assert(s.take(ph.len() as int) =~= ph);
    assert(s.skip(ph.len() as int + 1) =~= pm);
    lemma_no_colon(pm);
    lemma_digits_parse(ph);
    lemma_digits_parse(pm);
}

/// Every text lies at or after itself in text order.
pub proof fn lemma_seq_le_reflexive(a: Seq<char>)
    ensures
        seq_le(a, a),
    decreases a.len(),
{
    if a.len() > 0 {
        lemma_seq_le_reflexive(a.drop_first());
    }
}

/// Picking a period whose start is not after its end, then typing its start
/// again, keeps the period highlighted.
pub proof fn lemma_period_start_lies_within(p: TimePeriod)
    requires
        seq_le(p.start@, p.end@),
    ensures
        within_period(p.start@, p),
{
    lemma_seq_le_reflexive(p.start@);
}

/// A period includes its end too: typing the end of the highlighted period
/// keeps it highlighted.
pub proof fn lemma_period_end_lies_within(p: TimePeriod)
    requires
        seq_le(p.start@, p.end@),
    ensures
        within_period(p.end@, p),
{
    lemma_seq_le_reflexive(p.end@);
}

/// Each of the default periods starts no later than it ends, so each one
/// holds its own start.
pub proof fn lemma_default_periods_are_ordered(v: Seq<TimePeriod>)
    requires
        crate::model::default_periods_are(v),
    ensures
        forall|i: int| 0 <= i < v.len() ==> seq_le(#[trigger] v[i].start@, v[i].end@),
{
    reveal_strlit("06:30");
    reveal_strlit("09:00");
    reveal_strlit("11:30");
    reveal_strlit("13:00");
    reveal_strlit("15:30");
    reveal_strlit("15:00");
    reveal_strlit("17:30");
    reveal_strlit("18:00");
    reveal_strlit("22:00");
    assert("06:30"@.drop_first()[0] == '6' && "09:00"@.drop_first()[0] == '9');
    assert(seq_le("06:30"@.drop_first(), "09:00"@.drop_first()));
    assert(seq_le("06:30"@, "09:00"@));
    assert(seq_le("09:00"@, "11:30"@));
    assert("11:30"@.drop_first()[0] == '1' && "13:00"@.drop_first()[0] == '3');
    assert(seq_le("11:30"@.drop_first(), "13:00"@.drop_first()));
    assert(seq_le("11:30"@, "13:00"@));
    assert("13:00"@.drop_first()[0] == '3' && "15:30"@.drop_first()[0] == '5');
    assert(seq_le("13:00"@.drop_first(), "15:30"@.drop_first()));
    assert(seq_le("13:00"@, "15:30"@));
    assert("15:00"@.drop_first()[0] == '5' && "17:30"@.drop_first()[0] == '7');
    assert(seq_le("15:00"@.drop_first(), "17:30"@.drop_first()));
    assert(seq_le("15:00"@, "17:30"@));
    assert(seq_le("18:00"@, "22:00"@));
    assert forall|i: int| 0 <= i < v.len() implies seq_le(#[trigger] v[i].start@, v[i].end@) by {
        if i == 0 {} else if i == 1 {} else if i == 2 {} else if i == 3 {} else if i == 4 {} else {}
    }
}

/// The local calendar and clock at the moment a time is chosen, with the
/// date of the following day.
#[derive(Debug, Clone, Copy)]
pub struct LocalClock {
    pub year: u32,
    /// 1 to 12
    pub month: u32,
    pub day: u32,
    pub hours: u32,
    pub minutes: u32,
    /// Minutes that local time lies behind UTC, as JavaScript reports it.
    pub timezone_offset_minutes: i32,
    pub tomorrow_year: u32,
    /// 1 to 12
    pub tomorrow_month: u32,
    pub tomorrow_day: u32,
}

/// The absolute value of an offset in minutes.
pub open spec fn abs_minutes(m: int) -> nat {
    if m < 0 { (-m) as nat } else { m as nat }
}

/// "YYYY-MM-DDTHH:MM:00±HH:MM" for the given local date, time and offset.
pub open spec fn local_timestamp(
    year: nat,
    month: nat,
    day: nat,
    hour: nat,
    minute: nat,
    offset_minutes: int,
) -> Seq<char> {
    padded_decimal(year, 4) + seq!['-'] + padded_decimal(month, 2) + seq!['-']
        + padded_decimal(day, 2) + seq!['T'] + padded_decimal(hour, 2) + seq![':']
        + padded_decimal(minute, 2) + ":00"@
        + (if offset_minutes <= 0 { seq!['+'] } else { seq!['-'] })
        + padded_decimal(abs_minutes(offset_minutes) / 60, 2) + seq![':']
        + padded_decimal(abs_minutes(offset_minutes) % 60, 2)
}

/// The timestamp a chosen "HH:MM" stands for: that time today, or tomorrow
/// when it has already passed today.
pub open spec fn chosen_timestamp(s: Seq<char>, clock: LocalClock) -> Seq<char> {
    let (h, m) = hhmm_fields(s);
    if h * 60 + m < clock.hours * 60 + clock.minutes {
        local_timestamp(clock.tomorrow_year as nat, clock.tomorrow_month as nat,
            clock.tomorrow_day as nat, h, m, clock.timezone_offset_minutes as int)
    } else {
        local_timestamp(clock.year as nat, clock.month as nat, clock.day as nat, h, m,
            clock.timezone_offset_minutes as int)
    }
}

/// A chosen time is taken for today exactly when its minute of the day is
/// not before the clock's current minute (hours and minutes both count);
/// a time earlier in the day than now is taken for tomorrow. So the
/// timestamp never names a minute that has already passed.
pub proof fn lemma_chosen_time_is_never_past(s: Seq<char>, clock: LocalClock)
    ensures
        hhmm_fields(s).0 * 60 + hhmm_fields(s).1 >= clock.hours * 60 + clock.minutes ==>
            chosen_timestamp(s, clock) == local_timestamp(clock.year as nat, clock.month as nat,
                clock.day as nat, hhmm_fields(s).0, hhmm_fields(s).1, clock.timezone_offset_minutes as int),
        hhmm_fields(s).0 * 60 + hhmm_fields(s).1 < clock.hours * 60 + clock.minutes ==>
            chosen_timestamp(s, clock) == local_timestamp(clock.tomorrow_year as nat, clock.tomorrow_month as nat,
                clock.tomorrow_day as nat, hhmm_fields(s).0, hhmm_fields(s).1, clock.timezone_offset_minutes as int),
{
}

/// Whether the minutes of the day that `s` and `clock` name fit in 32 bits,
/// as the comparison in [`hhmm_to_iso`] computes them.
pub open spec fn minutes_fit(s: Seq<char>, clock: LocalClock) -> bool {
    &&& hhmm_fields(s).0 * 60 + hhmm_fields(s).1 <= u32::MAX
    &&& clock.hours * 60 + clock.minutes <= u32::MAX
}

/// The local timestamp, with offset, that a "HH:MM" chosen in the time
/// picker stands for.
pub fn hhmm_to_iso(s: &str, clock: &LocalClock) -> (r: String)
    requires
        minutes_fit(s@, *clock),
    ensures
        r@ == chosen_timestamp(s@, *clock),
        hhmm_fields(s@).0 * 60 + hhmm_fields(s@).1 >= clock.hours * 60 + clock.minutes ==>
            r@ == local_timestamp(clock.year as nat, clock.month as nat, clock.day as nat,
                hhmm_fields(s@).0, hhmm_fields(s@).1, clock.timezone_offset_minutes as int),
        hhmm_fields(s@).0 * 60 + hhmm_fields(s@).1 < clock.hours * 60 + clock.minutes ==>
            r@ == local_timestamp(clock.tomorrow_year as nat, clock.tomorrow_month as nat, clock.tomorrow_day as nat,
                hhmm_fields(s@).0, hhmm_fields(s@).1, clock.timezone_offset_minutes as int),
{
    let (hour, min) = read_hhmm(s);
    let now_mins = clock.hours * 60 + clock.minutes;
    let chosen_mins = hour * 60 + min;
    let (y, m, d) = if chosen_mins < now_mins {
        (clock.tomorrow_year, clock.tomorrow_month, clock.tomorrow_day)
    } else {
        (clock.year, clock.month, clock.day)
    };
    let mut out = String::new();
    push_local_timestamp(&mut out, y, m, d, hour, min, clock.timezone_offset_minutes);
    assert(out@ =~= chosen_timestamp(s@, *clock));
    out
}

/// "YYYY-MM-DD" for a date.
pub open spec fn date_text(year: nat, month: nat, day: nat) -> Seq<char> {
    padded_decimal(year, 4) + seq!['-'] + padded_decimal(month, 2) + seq!['-'] + padded_decimal(day, 2)
}

/// "±HH:MM" for an offset of local time behind UTC.
pub open spec fn offset_text(offset_minutes: int) -> Seq<char> {
    (if offset_minutes <= 0 { seq!['+'] } else { seq!['-'] })
        + padded_decimal(abs_minutes(offset_minutes) / 60, 2) + seq![':']
        + padded_decimal(abs_minutes(offset_minutes) % 60, 2)
}

proof fn lemma_local_timestamp_parts(year: nat, month: nat, day: nat, hour: nat, minute: nat, offset_minutes: int)
    ensures
        local_timestamp(year, month, day, hour, minute, offset_minutes)
            == date_text(year, month, day) + seq!['T'] + hhmm(hour, minute) + ":00"@ + offset_text(offset_minutes),
{
    assert(local_timestamp(year, month, day, hour, minute, offset_minutes)
        =~= date_text(year, month, day) + seq!['T'] + hhmm(hour, minute) + ":00"@ + offset_text(offset_minutes));
}

fn push_date(out: &mut String, year: u32, month: u32, day: u32)
    ensures
        final(out)@ == old(out)@ + date_text(year as nat, month as nat, day as nat),
{
    push_padded_decimal(out, year as u64, 4);
    push_char(out, '-');
    push_padded_decimal(out, month as u64, 2);
    push_char(out, '-');
    push_padded_decimal(out, day as u64, 2);
    assert(out@ =~= old(out)@ + date_text(year as nat, month as nat, day as nat));
}

fn push_offset(out: &mut String, offset: i32)
    ensures
        final(out)@ == old(out)@ + offset_text(offset as int),
{
    let abs: u32 = if offset < 0 { ((-(offset + 1)) as u32) + 1 } else { offset as u32 };
    assert(abs == abs_minutes(offset as int));
    if offset <= 0 {
        push_char(out, '+');
    } else {
        push_char(out, '-');
    }
    push_padded_decimal(out, (abs / 60) as u64, 2);
    push_char(out, ':');
    push_padded_decimal(out, (abs % 60) as u64, 2);
    assert(out@ =~= old(out)@ + offset_text(offset as int));
}

fn push_local_timestamp(out: &mut String, year: u32, month: u32, day: u32, hour: u32, minute: u32, offset: i32)
    ensures
        final(out)@ == old(out)@ + local_timestamp(year as nat, month as nat, day as nat, hour as nat,
            minute as nat, offset as int),
{
    push_date(out, year, month, day);
    push_char(out, 'T');
    let clock = format_hhmm(hour, minute);
    out.append(clock.as_str());
    out.append(":00");
    push_offset(out, offset);
    proof {
        lemma_local_timestamp_parts(year as nat, month as nat, day as nat, hour as nat, minute as nat, offset as int);
    }
    assert(out@ =~= old(out)@ + local_timestamp(year as nat, month as nat, day as nat, hour as nat,
        minute as nat, offset as int));
}

/// Whether a "HH:MM" lies within a period, its ends included, comparing the
/// strings as text.
pub open spec fn within_period(s: Seq<char>, p: TimePeriod) -> bool {
    seq_le(p.start@, s) && seq_le(s, p.end@)
}

/// Whether a "HH:MM" lies within a period, its ends included.
pub fn time_in_period(s: &str, period: &TimePeriod) -> (r: bool)
    ensures
        r == within_period(s@, *period),
{
    str_le(period.start.as_str(), s) && str_le(s, period.end.as_str())
}

/// The index of the first period with the given id.
pub open spec fn period_index(periods: Seq<TimePeriod>, id: Seq<char>) -> Option<int>
    decreases periods.len(),
{
    if periods.len() == 0 {
        None
    } else if periods[0].id@ == id {
        Some(0)
    } else {
        match period_index(periods.drop_first(), id) {
            Some(i) => Some(i + 1),
            None => None,
        }
    }
}

proof fn lemma_period_index(periods: Seq<TimePeriod>, id: Seq<char>, i: int)
    requires
        0 <= i <= periods.len(),
        forall|j: int| 0 <= j < i ==> #[trigger] periods[j].id@ != id,
    ensures
        period_index(periods, id) == (match period_index(periods.skip(i), id) {
            Some(k) => Some(k + i),
            None => None::<int>,
        }),
    decreases i,
{
    if i > 0 {
        assert(periods.drop_first().skip(i - 1) =~= periods.skip(i));
        lemma_period_index(periods.drop_first(), id, i - 1);
    } else {
        assert(periods.skip(0) =~= periods);
    }
}

/// The period that stays highlighted after the time was typed in: the active
/// one, unless the typed time falls outside it.
pub open spec fn active_after_input(
    active: Option<String>,
    periods: Seq<TimePeriod>,
    typed: Seq<char>,
) -> Option<String> {
    match active {
        Some(pid) => match period_index(periods, pid@) {
            Some(i) => if within_period(typed, periods[i]) { active } else { None },
            None => active,
        },
        None => None,
    }
}

/// Clears the highlighted period when the typed time falls outside it.
pub fn keep_active_period(active: Option<String>, periods: &Vec<TimePeriod>, typed: &str) -> (r: Option<String>)
    ensures
        r == active_after_input(active, periods@, typed@),
{
    match active {
        None => None,
        Some(pid) => {
            let mut i: usize = 0;
            while i < periods.len()
                invariant
                    i <= periods@.len(),
                    active == Some(pid),
                    forall|j: int| 0 <= j < i ==> #[trigger] periods@[j].id@ != pid@,
                decreases periods@.len() - i,
            {
                if periods[i].id == pid {
                    proof {
                        lemma_period_index(periods@, pid@, i as int);
                        assert(periods@.skip(i as int)[0] == periods@[i as int]);
                        assert(period_index(periods@.skip(i as int), pid@) == Some(0int));
                        assert(period_index(periods@, pid@) == Some(i as int));
                    }
                    if time_in_period(typed, &periods[i]) {
                        return Some(pid);
                    } else {
                        return None;
                    }
                }
                i = i + 1;
            }
            proof {
                lemma_period_index(periods@, pid@, i as int);
                assert(periods@.skip(i as int).len() == 0);
            }
            Some(pid)
        },
    }
}

/// "start – end" for a period.
pub fn period_range_label(p: &TimePeriod) -> (r: String)
    ensures
        r@ == p.start@ + " – "@ + p.end@,
{
    let mut s = copy_string(&p.start);
    s.append(" – ");
    s.append(p.end.as_str());
    s
}

/// Whether `c` is Unicode white space, as `char::is_whitespace` reads it.
pub open spec fn is_white_space(c: char) -> bool {
    let u = c as u32;
    ||| 0x09 <= u <= 0x0d
    ||| u == 0x20
    ||| u == 0x85
    ||| u == 0xa0
    ||| u == 0x1680
    ||| 0x2000 <= u <= 0x200a
    ||| u == 0x2028
    ||| u == 0x2029
    ||| u == 0x202f
    ||| u == 0x205f
    ||| u == 0x3000
}

fn white_space(c: char) -> (r: bool)
    ensures
        r == is_white_space(c),
{
    let u = c as u32;
    (0x09 <= u && u <= 0x0d) || u == 0x20 || u == 0x85 || u == 0xa0 || u == 0x1680
        || (0x2000 <= u && u <= 0x200a) || u == 0x2028 || u == 0x2029 || u == 0x202f
        || u == 0x205f || u == 0x3000
}

/// `s` without leading white space.
pub open spec fn trim_start(s: Seq<char>) -> Seq<char>
    decreases s.len(),
{
    if s.len() > 0 && is_white_space(s[0]) {
        trim_start(s.drop_first())
    } else {
        s
    }
}

/// `s` without trailing white space.
pub open spec fn trim_end(s: Seq<char>) -> Seq<char>
    decreases s.len(),
{
    if s.len() > 0 && is_white_space(s.last()) {
        trim_end(s.drop_last())
    } else {
        s
    }
}

/// `s` without leading or trailing white space, as `str::trim` gives it.
pub open spec fn trim(s: Seq<char>) -> Seq<char> {
    trim_end(trim_start(s))
}

proof fn lemma_trim_start_from(s: Seq<char>, i: int)
    requires
        0 <= i <= s.len(),
        forall|j: int| 0 <= j < i ==> is_white_space(#[trigger] s[j]),
    ensures
        trim_start(s) == trim_start(s.skip(i)),
    decreases i,
{
    if i > 0 {
        assert(s.drop_first().skip(i - 1) =~= s.skip(i));
        lemma_trim_start_from(s.drop_first(), i - 1);
    } else {
        assert(s.skip(0) =~= s);
    }
}

proof fn lemma_trim_end_to(s: Seq<char>, k: int)
    requires
        0 <= k <= s.len(),
        forall|j: int| k <= j < s.len() ==> is_white_space(#[trigger] s[j]),
    ensures
        trim_end(s) == trim_end(s.take(k)),
    decreases s.len() - k,
{
    if k < s.len() {
        assert(s.drop_last().take(k) =~= s.take(k));
        lemma_trim_end_to(s.drop_last(), k);
    } else {
        assert(s.take(k) =~= s);
    }
}

/// `s` without leading or trailing white space.
pub fn trim_text(s: &str) -> (r: String)
    ensures
        r@ == trim(s@),
{
    let v = chars_of(s);
    let mut i: usize = 0;
    while i < v.len() && white_space(v[i])
        invariant
            i <= v@.len(),
            forall|j: int| 0 <= j < i ==> is_white_space(#[trigger] v@[j]),
        decreases v@.len() - i,
    {
        i = i + 1;
    }
    let mut k: usize = v.len();
    while k > i && white_space(v[k - 1])
        invariant
            i <= k <= v@.len(),
            forall|j: int| k <= j < v@.len() ==> is_white_space(#[trigger] v@[j]),
        decreases k,
    {
        k = k - 1;
    }
    proof {
        lemma_trim_start_from(v@, i as int);
        let t = v@.skip(i as int);
        if i < v@.len() {
            assert(t[0] == v@[i as int]);
        }
        assert(trim_start(t) == t);
        assert forall|j: int| k - i <= j < t.len() implies is_white_space(#[trigger] t[j]) by {
            assert(t[j] == v@[i + j]);
        }
        lemma_trim_end_to(t, k - i);
        let u = t.take(k - i);
        if k > i {
            assert(u.last() == v@[k - 1]);
        }
        assert(trim_end(u) == u);
        assert(u =~= v@.subrange(i as int, k as int));
    }
    string_from_chars(&v, i, k)
}

/// The layout tried first for a timestamp that RFC 3339 parsing rejects.
pub open spec fn plain_layout() -> Seq<char> {
    "%Y-%m-%dT%H:%M:%S%:z"@
}

/// The layout tried second, with fractional seconds.
pub open spec fn fractional_layout() -> Seq<char> {
    "%Y-%m-%dT%H:%M:%S%.f%:z"@
}

/// The epoch milliseconds that `chrono::DateTime::parse_from_rfc3339` reads
/// out of `s`, or `None` where it rejects `s`.
pub uninterp spec fn rfc3339_millis(s: Seq<char>) -> Option<i64>;

/// The epoch milliseconds that `chrono::DateTime::parse_from_str` reads out
/// of `s` under the layout `layout`, or `None` where it rejects `s`.
pub uninterp spec fn layout_millis(s: Seq<char>, layout: Seq<char>) -> Option<i64>;

/// Calls `chrono::DateTime::parse_from_rfc3339` and takes the milliseconds
/// since the epoch of what it parsed. The contract only names the result:
/// the same text always gives the same answer.
#[verifier::external_body]
fn parse_rfc3339_millis(s: &str) -> (r: Option<i64>)
    ensures
        r == rfc3339_millis(s@),
{
    match chrono::DateTime::parse_from_rfc3339(s) {
        Ok(dt) => Some(dt.timestamp_millis()),
        Err(_) => None,
    }
}

/// Calls `chrono::DateTime::parse_from_str` with a layout and takes the
/// milliseconds since the epoch of what it parsed. The contract only names
/// the result: the same text and layout always give the same answer.
#[verifier::external_body]
fn parse_layout_millis(s: &str, layout: &str) -> (r: Option<i64>)
    ensures
        r == layout_millis(s@, layout@),
{
    match chrono::DateTime::parse_from_str(s, layout) {
        Ok(dt) => Some(dt.timestamp_millis()),
        Err(_) => None,
    }
}

/// Which parse attempt decides the instant of a timestamp: RFC 3339 first;
/// then, for text with a `T`, the plain layout and the one with fractional
/// seconds on the trimmed text; zero when all fail.
pub open spec fn first_parsed(
    rfc3339: Option<i64>,
    has_separator: bool,
    plain: Option<i64>,
    fractional: Option<i64>,
) -> i64 {
    match rfc3339 {
        Some(ms) => ms,
        None => if has_separator {
            match plain {
                Some(ms) => ms,
                None => match fractional {
                    Some(ms) => ms,
                    None => 0,
                },
            }
        } else {
            0
        },
    }
}

/// The instant that the parse attempts agree on, by [`first_parsed`].
pub fn millis_from_attempts(
    rfc3339: Option<i64>,
    has_separator: bool,
    plain: Option<i64>,
    fractional: Option<i64>,
) -> (ms: i64)
    ensures
        ms == first_parsed(rfc3339, has_separator, plain, fractional),
{
    match rfc3339 {
        Some(ms) => ms,
        None => if has_separator {
            match plain {
                Some(ms) => ms,
                None => match fractional {
                    Some(ms) => ms,
                    None => 0,
                },
            }
        } else {
            0
        },
    }
}

/// The instant of an ISO-8601 timestamp in milliseconds since the epoch, or
/// zero when it cannot be read.
pub open spec fn iso_millis(s: Seq<char>) -> i64 {
    first_parsed(
        rfc3339_millis(s),
        first_index_of(s, 'T') is Some,
        layout_millis(trim(s), plain_layout()),
        layout_millis(trim(s), fractional_layout()),
    )
}

/// The instant of an ISO-8601 timestamp in milliseconds since the epoch, or
/// zero when it cannot be read.
pub fn parse_iso_ms(iso: &str) -> (ms: i64)
    ensures
        ms == iso_millis(iso@),
{
    let rfc = parse_rfc3339_millis(iso);
    let v = chars_of(iso);
    let has_separator = find_char(&v, 'T').is_some();
    let trimmed = trim_text(iso);
    let plain = parse_layout_millis(trimmed.as_str(), "%Y-%m-%dT%H:%M:%S%:z");
    let fractional = parse_layout_millis(trimmed.as_str(), "%Y-%m-%dT%H:%M:%S%.f%:z");
    millis_from_attempts(rfc, has_separator, plain, fractional)
}

/// Whether a stop's time has gone by: its instant is known and the clock is
/// past it.
pub open spec fn has_passed(time_ms: i64, now_ms: i64) -> bool {
    time_ms > 0 && now_ms > time_ms
}

/// Whether a stop's time has gone by at `now_ms`.
pub fn stop_has_passed(time_ms: i64, now_ms: i64) -> (r: bool)
    ensures
        r == has_passed(time_ms, now_ms),
{
    time_ms > 0 && now_ms > time_ms
}

} // verus!
