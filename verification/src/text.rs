//! Text conventions shared by the tag codecs: ASCII-case-insensitive key
//! comparison, decimal number fields, and UTF-8 string construction.
//!
//! Every contract here speaks of byte sequences; a `String` is only a
//! carrier whose UTF-8 encoding (`encode_utf8` of its characters) is the
//! sequence the specs talk about.

use vstd::prelude::*;
use vstd::utf8::{valid_utf8, decode_utf8, encode_utf8};

verus! {

/// The UTF-8 bytes a string value stands for.
pub open spec fn str_to_bytes(s: Seq<char>) -> Seq<u8> {
    encode_utf8(s)
}

/// ASCII lower-casing of one byte; other bytes are untouched.
pub open spec fn spec_lower(b: u8) -> u8 {
    if 0x41 <= b <= 0x5a {
        (b + 0x20) as u8
    } else {
        b
    }
}

/// Key identity of the APE format: equality up to ASCII case.
pub open spec fn ieq(a: Seq<u8>, b: Seq<u8>) -> bool {
    a.len() == b.len() && forall|i: int| 0 <= i < a.len() ==> spec_lower(a[i]) == spec_lower(b[i])
}

/// Plain byte-for-byte equality.
pub fn eq_bytes(a: &[u8], b: &[u8]) -> (r: bool)
    ensures
        r == (a@ == b@),
{
    if a.len() != b.len() {
        return false;
    }
    let mut i: usize = 0;
    while i < a.len()
        invariant
            0 <= i <= a@.len(),
            a@.len() == b@.len(),
            forall|j: int| 0 <= j < i ==> a@[j] == b@[j],
        decreases a@.len() - i,
    {
        if a[i] != b[i] {
            return false;
        }
        i += 1;
    }
    proof {
        assert(a@ =~= b@);
    }
    true
}

/// Compare two byte strings ignoring ASCII case.
pub fn eq_ignore_ascii_case(a: &[u8], b: &[u8]) -> (r: bool)
    ensures
        r == ieq(a@, b@),
{
    if a.len() != b.len() {
        return false;
    }
    let mut i: usize = 0;
    while i < a.len()
        invariant
            a@.len() == b@.len(),
            0 <= i <= a@.len(),
            forall|j: int| 0 <= j < i ==> spec_lower(a@[j]) == spec_lower(b@[j]),
        decreases a@.len() - i,
    {
        let x = a[i];
        let y = b[i];
        let lx = if 0x41 <= x && x <= 0x5a { x + 0x20 } else { x };
        let ly = if 0x41 <= y && y <= 0x5a { y + 0x20 } else { y };
        if lx != ly {
            return false;
        }
        i += 1;
    }
    true
}

/// Compare two strings ignoring ASCII case, over their UTF-8 bytes.
pub fn str_eq_ignore_case(a: &str, b: &str) -> (r: bool)
    ensures
        r == ieq(str_to_bytes(a@), str_to_bytes(b@)),
{
    eq_ignore_ascii_case(a.as_bytes(), b.as_bytes())
}

pub open spec fn is_digit(b: u8) -> bool {
    0x30 <= b <= 0x39
}

pub open spec fn all_digits(s: Seq<u8>) -> bool {
    forall|i: int| 0 <= i < s.len() ==> is_digit(s[i])
}

/// The number a digit string denotes, most significant digit first.
pub open spec fn digits_val(s: Seq<u8>) -> nat
    recommends
        all_digits(s),
    decreases s.len(),
{
    if s.len() == 0 {
        0
    } else {
        digits_val(s.drop_last()) * 10 + (s.last() - 0x30) as nat
    }
}

/// What `str::parse::<u32>` accepts: an optional leading `+`, then at
/// least one digit, denoting a value that fits in 32 bits.
pub open spec fn spec_parse_u32(s: Seq<u8>) -> Option<u32> {
    let d = if s.len() > 0 && s[0] == 0x2b {
        s.drop_first()
    } else {
        s
    };
    if d.len() > 0 && all_digits(d) && digits_val(d) <= u32::MAX {
        Some(digits_val(d) as u32)
    } else {
        None
    }
}

proof fn lemma_digits_val_take_succ(s: Seq<u8>, i: int)
    requires
        0 <= i < s.len(),
        is_digit(s[i]),
    ensures
        digits_val(s.take(i + 1)) == digits_val(s.take(i)) * 10 + (s[i] - 0x30),
{
    assert(s.take(i + 1).drop_last() =~= s.take(i));
    assert(s.take(i + 1).last() == s[i]);
    assert(digits_val(s.take(i + 1)) == digits_val(s.take(i)) * 10 + (s[i] - 0x30) as nat);
}

proof fn lemma_digits_val_take_monotone(s: Seq<u8>, i: int)
    requires
        all_digits(s),
        0 <= i <= s.len(),
    ensures
        digits_val(s.take(i)) <= digits_val(s),
    decreases s.len() - i,
{
    if i == s.len() {
        assert(s.take(i) =~= s);
    } else {
        lemma_digits_val_take_succ(s, i);
        assert(digits_val(s.take(i)) <= digits_val(s.take(i)) * 10) by (nonlinear_arith);
        lemma_digits_val_take_monotone(s, i + 1);
    }
}

/// Parse a decimal `u32` as `str::parse` would.
pub fn parse_u32(s: &[u8]) -> (r: Option<u32>)
    ensures
        r == spec_parse_u32(s@),
{
    let start: usize = if s.len() > 0 && s[0] == 0x2b { 1 } else { 0 };
    let ghost d = if s@.len() > 0 && s@[0] == 0x2b { s@.drop_first() } else { s@ };
    assert(d =~= s@.subrange(start as int, s@.len() as int));
    if s.len() == start {
        return None;
    }
    let mut val: u32 = 0;
    let mut i: usize = start;
    while i < s.len()
        invariant
            0 <= start <= i <= s@.len(),
            d == (if s@.len() > 0 && s@[0] == 0x2b {
                s@.drop_first()
            } else {
                s@
            }),
            d =~= s@.subrange(start as int, s@.len() as int),
            all_digits(d.take(i - start)),
            digits_val(d.take(i - start)) == val,
        decreases s@.len() - i,
    {
        let b = s[i];
        proof {
            assert(d[i - start] == s@[i as int]);
        }
        if b < 0x30 || b > 0x39 {
            proof {
                assert(!all_digits(d)) by {
                    assert(!is_digit(d[i - start]));
                }
            }
            return None;
        }
        let digit = (b - 0x30) as u32;
        if val > (u32::MAX - digit) / 10 {
            proof {
                lemma_digits_val_take_succ(d, i - start);
                assert(digits_val(d.take(i - start + 1)) > u32::MAX) by (nonlinear_arith)
                    requires
                        digits_val(d.take(i - start + 1)) == digits_val(d.take(i - start)) * 10
                            + digit,
                        digits_val(d.take(i - start)) == val,
                        val > (u32::MAX - digit) / 10,
                        digit <= 9,
                ;
                if all_digits(d) {
                    lemma_digits_val_take_monotone(d, i - start + 1);
                }
            }
            return None;
        }
        proof {
            lemma_digits_val_take_succ(d, i - start);
        }
        val = val * 10 + digit;
        i += 1;
    }
    proof {
        assert(d.take(i - start) =~= d);
    }
    Some(val)
}

/// The decimal digit string of a 32-bit value, without sign or padding.
pub open spec fn spec_u32_string(v: u32) -> Seq<u8>
    decreases v,
{
    if v < 10 {
        seq![(0x30 + v) as u8]
    } else {
        spec_u32_string(v / 10).push((0x30 + v % 10) as u8)
    }
}

pub proof fn lemma_u32_string_digits(v: u32)
    ensures
        all_digits(spec_u32_string(v)),
        spec_u32_string(v).len() >= 1,
        digits_val(spec_u32_string(v)) == v,
    decreases v,
{
    if v < 10 {
        let s = spec_u32_string(v);
        assert(s.drop_last() =~= Seq::<u8>::empty());
        assert(digits_val(Seq::<u8>::empty()) == 0);
        assert(digits_val(s) == 0 * 10 + ((0x30 + v) as u8 - 0x30) as nat);
    } else {
        lemma_u32_string_digits(v / 10);
        let s = spec_u32_string(v);
        assert(s.drop_last() =~= spec_u32_string(v / 10));
        assert(s.last() == (0x30 + v % 10) as u8);
        assert(digits_val(s) == digits_val(spec_u32_string(v / 10)) * 10 + ((0x30 + v % 10) as u8
            - 0x30) as nat);
        assert((v / 10) * 10 + v % 10 == v) by (nonlinear_arith);
    }
}

/// Formatting a number and parsing it back returns the number.
pub proof fn lemma_parse_u32_string(v: u32)
    ensures
        spec_parse_u32(spec_u32_string(v)) == Some(v),
{
    lemma_u32_string_digits(v);
    let s = spec_u32_string(v);
    assert(is_digit(s[0]));
}

/// The decimal digits of `v`, as ASCII bytes.
pub fn u32_digits(v: u32) -> (r: Vec<u8>)
    ensures
        r@ == spec_u32_string(v),
    decreases v,
{
    if v < 10 {
        let mut out: Vec<u8> = Vec::new();
        out.push(0x30 + v as u8);
        proof {
            assert(out@ =~= spec_u32_string(v));
        }
        out
    } else {
        let mut out = u32_digits(v / 10);
        out.push(0x30 + (v % 10) as u8);
        proof {
            assert(out@ =~= spec_u32_string(v));
        }
        out
    }
}

/// The decimal text of `v` as a string.
pub fn u32_to_string(v: u32) -> (r: String)
    ensures
        str_to_bytes(r@) == spec_u32_string(v),
{
    let d = u32_digits(v);
    proof {
        lemma_u32_string_digits(v);
        lemma_ascii_valid_utf8(d@);
    }
    bytes_to_string(d)
}

/// ASCII upper-casing of one byte; other bytes are untouched.
pub open spec fn spec_upper(b: u8) -> u8 {
    if 0x61 <= b <= 0x7a {
        (b - 0x20) as u8
    } else {
        b
    }
}

pub open spec fn upper_bytes(s: Seq<u8>) -> Seq<u8> {
    s.map_values(|b: u8| spec_upper(b))
}

pub open spec fn lower_bytes(s: Seq<u8>) -> Seq<u8> {
    s.map_values(|b: u8| spec_lower(b))
}

/// Folding a key to either case leaves it identical under `ieq`.
pub proof fn lemma_case_fold_ieq(s: Seq<u8>)
    ensures
        ieq(upper_bytes(s), s),
        ieq(lower_bytes(s), s),
{
}

/// The first position of `sep`, or -1 when it does not occur.
pub open spec fn find_byte(s: Seq<u8>, sep: u8) -> int
    decreases s.len(),
{
    if s.len() == 0 {
        -1
    } else if s[0] == sep {
        0
    } else {
        let r = find_byte(s.drop_first(), sep);
        if r < 0 {
            -1
        } else {
            r + 1
        }
    }
}

pub proof fn lemma_find_byte(s: Seq<u8>, sep: u8)
    ensures
        find_byte(s, sep) >= -1,
        find_byte(s, sep) == -1 ==> forall|i: int| 0 <= i < s.len() ==> s[i] != sep,
        find_byte(s, sep) >= 0 ==> 0 <= find_byte(s, sep) < s.len() && s[find_byte(s, sep)] == sep
            && forall|i: int| 0 <= i < find_byte(s, sep) ==> s[i] != sep,
    decreases s.len(),
{
    if s.len() > 0 && s[0] != sep {
        lemma_find_byte(s.drop_first(), sep);
        let t = s.drop_first();
        let r = find_byte(t, sep);
        if r == -1 {
            assert forall|i: int| 0 <= i < s.len() implies s[i] != sep by {
                if i > 0 {
                    assert(s[i] == t[i - 1]);
                }
            }
        } else {
            assert(s[r + 1] == t[r]);
            assert forall|i: int| 0 <= i < r + 1 implies s[i] != sep by {
                if i > 0 {
                    assert(s[i] == t[i - 1]);
                }
            }
        }
    }
}

/// Find the first occurrence of `sep`.
pub fn find_byte_in(s: &[u8], sep: u8) -> (r: Option<usize>)
    ensures
        r is None <==> find_byte(s@, sep) == -1,
        r is Some ==> r->0 == find_byte(s@, sep),
{
    proof {
        lemma_find_byte(s@, sep);
    }
    let mut k: usize = 0;
    while k < s.len()
        invariant
            0 <= k,
            forall|i: int| 0 <= i < k ==> s@[i] != sep,
        decreases s@.len() - k,
    {
        if s[k] == sep {
            proof {
                lemma_find_byte(s@, sep);
                let f = find_byte(s@, sep);
                if f == -1 {
                    assert(s@[k as int] != sep);
                } else if f < k {
                    assert(s@[f] != sep);
                } else if f > k {
                    assert(s@[k as int] != sep);
                }
            }
            return Some(k);
        }
        k += 1;
    }
    proof {
        lemma_find_byte(s@, sep);
        let f = find_byte(s@, sep);
        if f >= 0 {
            assert(s@[f] != sep);
        }
    }
    None
}

/// The segments of `s` between occurrences of `sep`; never empty.
pub open spec fn spec_split(s: Seq<u8>, sep: u8) -> Seq<Seq<u8>>
    decreases s.len(),
{
    let f = find_byte(s, sep);
    if f < 0 || f >= s.len() {
        seq![s]
    } else {
        seq![s.take(f)] + spec_split(s.skip(f + 1), sep)
    }
}

/// Splitting a separator-free string yields the string itself.
pub proof fn lemma_split_no_sep(s: Seq<u8>, sep: u8)
    requires
        forall|i: int| 0 <= i < s.len() ==> s[i] != sep,
    ensures
        spec_split(s, sep) =~= seq![s],
    decreases s.len(),
{
    lemma_find_byte(s, sep);
    if find_byte(s, sep) >= 0 {
        assert(s[find_byte(s, sep)] == sep);
    }
}

/// Splitting `a + sep + b` for separator-free `a` yields `a` before the
/// segments of `b`.
pub proof fn lemma_split_glue(a: Seq<u8>, b: Seq<u8>, sep: u8)
    requires
        forall|i: int| 0 <= i < a.len() ==> a[i] != sep,
    ensures
        spec_split(a + seq![sep] + b, sep) =~= seq![a] + spec_split(b, sep),
{
    let s = a + seq![sep] + b;
    lemma_find_byte(s, sep);
    assert(s[a.len() as int] == sep);
    let f = find_byte(s, sep);
    assert(f >= 0);
    if f < a.len() {
        assert(s[f] == a[f]);
        assert(false);
    }
    if f > a.len() {
        assert(s[a.len() as int] != sep);
        assert(false);
    }
    assert(s.take(f) =~= a);
    assert(s.skip(f + 1) =~= b);
}

/// The first segment that parses as a number, if any.
pub open spec fn first_num(segs: Seq<Seq<u8>>) -> Option<u32>
    decreases segs.len(),
{
    if segs.len() == 0 {
        Option::None
    } else {
        match spec_parse_u32(segs[0]) {
            Option::Some(n) => Option::Some(n),
            Option::None => first_num(segs.drop_first()),
        }
    }
}

/// The first two segments that parse as numbers, in order.
pub open spec fn first_two_nums(segs: Seq<Seq<u8>>) -> (Option<u32>, Option<u32>)
    decreases segs.len(),
{
    if segs.len() == 0 {
        (Option::None, Option::None)
    } else {
        match spec_parse_u32(segs[0]) {
            Option::Some(n) => (Option::Some(n), first_num(segs.drop_first())),
            Option::None => first_two_nums(segs.drop_first()),
        }
    }
}

/// Relies on `String::from_utf8`: it succeeds exactly on byte sequences
/// that are valid UTF-8, and yields the characters they decode to.
#[verifier::external_body]
pub fn utf8_decode(v: Vec<u8>) -> (r: Option<String>)
    ensures
        r is Some <==> valid_utf8(v@),
        r is Some ==> r->0@ == decode_utf8(v@),
{
    String::from_utf8(v).ok()
}

/// A decoded string re-encodes to the bytes it was decoded from.
pub proof fn lemma_decode_encode(bytes: Seq<u8>)
    requires
        valid_utf8(bytes),
    ensures
        str_to_bytes(decode_utf8(bytes)) == bytes,
{
    vstd::utf8::decode_utf8_encode_utf8(bytes);
}

/// The UTF-8 encoding of ASCII characters is one byte per character,
/// holding the character's code point.
pub proof fn lemma_ascii_encode(s: Seq<char>)
    requires
        forall|i: int| 0 <= i < s.len() ==> (s[i] as u32) < 0x80,
    ensures
        str_to_bytes(s).len() == s.len(),
        forall|i: int| 0 <= i < s.len() ==> (str_to_bytes(s)[i] as u32) == (s[i] as u32),
    decreases s.len(),
{
    if s.len() > 0 {
        let c = s[0] as u32;
        assert(vstd::utf8::has_width_1_encoding(c));
        assert((c & 0x7F) == c) by (bit_vector)
            requires
                c < 0x80,
        ;
        assert(vstd::utf8::encode_scalar(c) =~= seq![c as u8]);
        lemma_ascii_encode(s.drop_first());
        assert(str_to_bytes(s) =~= seq![c as u8] + str_to_bytes(s.drop_first()));
        assert forall|i: int| 0 <= i < s.len() implies (str_to_bytes(s)[i] as u32) == (
        s[i] as u32) by {
            if i > 0 {
                assert(str_to_bytes(s)[i] == str_to_bytes(s.drop_first())[i - 1]);
                assert(s[i] == s.drop_first()[i - 1]);
            }
        }
    }
}

/// A sequence of ASCII bytes is valid UTF-8.
pub proof fn lemma_ascii_valid_utf8(s: Seq<u8>)
    requires
        forall|i: int| 0 <= i < s.len() ==> s[i] < 0x80,
    ensures
        valid_utf8(s),
    decreases s.len(),
{
    if s.len() > 0 {
        assert(vstd::utf8::is_leading_byte_width_1(s[0]));
        assert(vstd::utf8::length_of_first_codepoint(s) == 1);
        assert(vstd::utf8::valid_first_scalar(s));
        assert(vstd::utf8::pop_first_scalar(s) =~= s.drop_first());
        lemma_ascii_valid_utf8(s.drop_first());
    }
}

/// Valid UTF-8 byte strings stay valid under concatenation.
pub proof fn lemma_valid_utf8_concat(a: Seq<u8>, b: Seq<u8>)
    requires
        valid_utf8(a),
        valid_utf8(b),
    ensures
        valid_utf8(a + b),
    decreases a.len(),
{
    if a.len() == 0 {
        assert(a + b =~= b);
    } else {
        let w = vstd::utf8::length_of_first_scalar(a);
        assert(vstd::utf8::valid_first_scalar(a));
        assert forall|i: int| 0 <= i < a.len() implies (a + b)[i] == a[i] by {}
        assert(vstd::utf8::valid_first_scalar(a + b));
        assert(vstd::utf8::length_of_first_scalar(a + b) == w);
        assert(vstd::utf8::decode_first_codepoint(a + b) == vstd::utf8::decode_first_codepoint(a));
        assert(vstd::utf8::pop_first_scalar(a + b) =~= vstd::utf8::pop_first_scalar(a) + b);
        lemma_valid_utf8_concat(vstd::utf8::pop_first_scalar(a), b);
    }
}

/// Turn known-valid UTF-8 bytes into a string carrying exactly them.
pub fn bytes_to_string(v: Vec<u8>) -> (r: String)
    requires
        valid_utf8(v@),
    ensures
        r@ == decode_utf8(v@),
        str_to_bytes(r@) == v@,
{
    proof {
        lemma_decode_encode(v@);
    }
    match utf8_decode(v) {
        Some(s) => s,
        None => {
            proof {
                assert(false);
            }
            String::new()
        },
    }
}

/// Split `s` at every occurrence of `sep`.
pub fn split_bytes(s: &[u8], sep: u8) -> (r: Vec<Vec<u8>>)
    ensures
        r@.len() == spec_split(s@, sep).len(),
        forall|j: int| 0 <= j < r@.len() ==> r@[j]@ == spec_split(s@, sep)[j],
{
    let mut out: Vec<Vec<u8>> = Vec::new();
    let mut seg: Vec<u8> = Vec::new();
    let ghost mut done: Seq<Seq<u8>> = seq![];
    let mut i: usize = 0;
    proof {
        assert(s@.skip(0) =~= s@);
        assert(done + spec_split(s@, sep) =~= spec_split(s@, sep));
    }
    while i < s.len()
        invariant
            0 <= i <= s@.len(),
            seg@.len() <= i,
            forall|j: int| 0 <= j < seg@.len() ==> seg@[j] != sep,
            seg@ =~= s@.subrange(i - seg@.len(), i as int),
            out@.len() == done.len(),
            forall|j: int| 0 <= j < done.len() ==> out@[j]@ == done[j],
            spec_split(s@, sep) =~= done + spec_split(s@.skip(i - seg@.len()), sep),
        decreases s@.len() - i,
    {
        let b = s[i];
        if b == sep {
            proof {
                let rest = s@.skip(i - seg@.len());
                let tail = s@.skip(i + 1);
                assert(rest =~= seg@ + seq![sep] + tail);
                lemma_split_glue(seg@, tail, sep);
                assert(done + (seq![seg@] + spec_split(tail, sep)) =~= done.push(seg@)
                    + spec_split(tail, sep));
                done = done.push(seg@);
            }
            out.push(seg);
            seg = Vec::new();
        } else {
            seg.push(b);
            proof {
                assert(seg@ =~= s@.subrange(i + 1 - seg@.len(), i + 1));
            }
        }
        i += 1;
    }
    proof {
        let rest = s@.skip(i - seg@.len());
        assert(rest =~= seg@);
        lemma_split_no_sep(seg@, sep);
        assert(done + seq![seg@] =~= done.push(seg@));
    }
    out.push(seg);
    out
}

} // verus!

verus! {

/// A scalar value cast to `char` keeps its code point.
pub proof fn lemma_scalar_char(u: u32)
    requires
        vstd::utf8::is_scalar(u),
    ensures
        (u as char) as u32 == u,
{
}

/// Appending one character appends its scalar's encoding.
pub proof fn lemma_encode_utf8_push(s: Seq<char>, c: char)
    ensures
        encode_utf8(s.push(c)) == encode_utf8(s) + vstd::utf8::encode_scalar(c as u32),
    decreases s.len(),
{
    let p = s.push(c);
    if s.len() == 0 {
        assert(p[0] == c);
        assert(p.drop_first() =~= Seq::<char>::empty());
        assert(encode_utf8(Seq::<char>::empty()) =~= Seq::<u8>::empty());
        assert(s =~= Seq::<char>::empty());
        assert(encode_utf8(p) =~= encode_utf8(s) + vstd::utf8::encode_scalar(c as u32));
    } else {
        assert(p.drop_first() =~= s.drop_first().push(c));
        lemma_encode_utf8_push(s.drop_first(), c);
        assert(encode_utf8(p) =~= encode_utf8(s) + vstd::utf8::encode_scalar(c as u32));
    }
}

/// Append the UTF-8 encoding of one scalar value.
pub fn emit_scalar_utf8(out: &mut Vec<u8>, v: u32)
    requires
        vstd::utf8::is_scalar(v),
    ensures
        final(out)@ == old(out)@ + vstd::utf8::encode_scalar(v),
{
    if v < 0x80 {
        proof {
            assert((v & 0x7F) == v) by (bit_vector)
                requires
                    v < 0x80,
            ;
        }
        out.push((v & 0x7F) as u8);
        proof {
            assert(out@ =~= old(out)@ + vstd::utf8::encode_scalar(v));
        }
    } else if v < 0x800 {
        out.push(0xC0 | ((v >> 6) & 0x1F) as u8);
        out.push(0x80 | (v & 0x3F) as u8);
        proof {
            assert(out@ =~= old(out)@ + vstd::utf8::encode_scalar(v));
        }
    } else if v < 0x10000 {
        out.push(0xE0 | ((v >> 12) & 0x0F) as u8);
        out.push(0x80 | ((v >> 6) & 0x3F) as u8);
        out.push(0x80 | (v & 0x3F) as u8);
        proof {
            assert(out@ =~= old(out)@ + vstd::utf8::encode_scalar(v));
        }
    } else {
        out.push(0xF0 | ((v >> 18) & 0x07) as u8);
        out.push(0x80 | ((v >> 12) & 0x3F) as u8);
        out.push(0x80 | ((v >> 6) & 0x3F) as u8);
        out.push(0x80 | (v & 0x3F) as u8);
        proof {
            assert(out@ =~= old(out)@ + vstd::utf8::encode_scalar(v));
        }
    }
}

} // verus!
