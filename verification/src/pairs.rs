//! Number pairs: a single text field that carries `current` or
//! `current/total`, shared by the formats' track, disc and movement
//! fields.

use vstd::prelude::*;
use crate::model::{ItemKey, TagItem, ValueView};
use crate::text::{
    all_digits, bytes_to_string, first_num, first_two_nums, lemma_ascii_valid_utf8,
    lemma_split_glue, lemma_split_no_sep, lemma_u32_string_digits, parse_u32, spec_parse_u32,
    spec_split, spec_u32_string, split_bytes, str_to_bytes, u32_digits,
};

verus! {

/// The number written for a missing `current` when only a total is set.
pub const DEFAULT_NUMBER_IN_PAIR: u32 = 0;

/// Whether a key names one side of a number pair.
pub open spec fn spec_is_number_pair_key(k: ItemKey) -> bool {
    match k {
        ItemKey::TrackNumber => true,
        ItemKey::TrackTotal => true,
        ItemKey::DiscNumber => true,
        ItemKey::DiscTotal => true,
        _ => false,
    }
}

pub fn is_number_pair_key(k: &ItemKey) -> (r: bool)
    ensures
        r == spec_is_number_pair_key(*k),
{
    match k {
        ItemKey::TrackNumber => true,
        ItemKey::TrackTotal => true,
        ItemKey::DiscNumber => true,
        ItemKey::DiscTotal => true,
        _ => false,
    }
}

/// The text a number pair is stored as: nothing when both sides are
/// absent, `current` alone when no total is set, and `current/total`
/// otherwise, a missing current defaulting to zero.
pub open spec fn spec_format_number_pair(number: Option<u32>, total: Option<u32>) -> Option<
    Seq<u8>,
> {
    match (number, total) {
        (Option::None, Option::None) => Option::None,
        (Option::Some(n), Option::None) => Option::Some(spec_u32_string(n)),
        (n, Option::Some(t)) => Option::Some(
            spec_u32_string(
                match n {
                    Option::Some(v) => v,
                    Option::None => DEFAULT_NUMBER_IN_PAIR,
                },
            ) + seq![0x2fu8] + spec_u32_string(t),
        ),
    }
}

/// Format a number pair into its text form.
pub fn format_number_pair(number: Option<u32>, total: Option<u32>) -> (r: Option<String>)
    ensures
        r is Some <==> spec_format_number_pair(number, total) is Some,
        r is Some ==> str_to_bytes(r->0@) == spec_format_number_pair(number, total)->0,
{
    match (number, total) {
        (None, None) => None,
        (Some(n), None) => {
            let d = u32_digits(n);
            proof {
                lemma_u32_string_digits(n);
                lemma_ascii_valid_utf8(d@);
            }
            Some(bytes_to_string(d))
        },
        (n, Some(t)) => {
            let cur: u32 = match n {
                Some(v) => v,
                None => DEFAULT_NUMBER_IN_PAIR,
            };
            let mut d = u32_digits(cur);
            d.push(0x2f);
            let mut dt = u32_digits(t);
            d.append(&mut dt);
            proof {
                lemma_u32_string_digits(cur);
                lemma_u32_string_digits(t);
                assert(d@ =~= spec_u32_string(cur) + seq![0x2fu8] + spec_u32_string(t));
                lemma_ascii_valid_utf8(d@);
            }
            Some(bytes_to_string(d))
        },
    }
}

/// The two numbers a pair text denotes: the first two segments between
/// `/` separators that parse as numbers, in order.
pub open spec fn spec_parse_num_pair(text: Seq<u8>) -> (Option<u32>, Option<u32>) {
    first_two_nums(spec_split(text, 0x2f))
}

/// Read the two sides of a number pair out of its text form.
pub fn parse_num_pair(text: &[u8]) -> (r: (Option<u32>, Option<u32>))
    ensures
        r == spec_parse_num_pair(text@),
{
    let segs = split_bytes(text, 0x2f);
    let ghost segsv = spec_split(text@, 0x2f);
    let mut first: Option<u32> = None;
    let mut second: Option<u32> = None;
    let mut i: usize = 0;
    proof {
        assert(segsv.skip(0) =~= segsv);
    }
    while i < segs.len() && second.is_none()
        invariant
            0 <= i <= segs@.len(),
            segs@.len() == segsv.len(),
            forall|j: int| 0 <= j < segsv.len() ==> segs@[j]@ == segsv[j],
            first is None ==> second is None && first_two_nums(segsv) == first_two_nums(
                segsv.skip(i as int),
            ),
            first is Some && second is None ==> first_two_nums(segsv) == (
                first,
                first_num(segsv.skip(i as int)),
            ),
            first is Some && second is Some ==> first_two_nums(segsv) == (first, second),
        decreases segs@.len() - i,
    {
        let n = parse_u32(segs[i].as_slice());
        proof {
            assert(segsv.skip(i as int)[0] == segsv[i as int]);
            assert(segsv.skip(i as int).drop_first() =~= segsv.skip(i + 1));
        }
        match n {
            Some(v) => {
                if first.is_none() {
                    first = Some(v);
                } else {
                    second = Some(v);
                }
            },
            None => {},
        }
        i += 1;
    }
    proof {
        if i == segs@.len() && second is None {
            assert(segsv.skip(i as int) =~= Seq::<Seq<u8>>::empty());
        }
    }
    (first, second)
}

/// Parsing a formatted pair returns the numbers that were formatted,
/// the current side defaulting to zero when only a total was set.
pub proof fn lemma_num_pair_round_trip(number: Option<u32>, total: Option<u32>)
    requires
        number is Some || total is Some,
    ensures
        spec_parse_num_pair(spec_format_number_pair(number, total)->0) == (
            (if number is Some || total is Some {
                Option::Some(
                    match number {
                        Option::Some(v) => v,
                        Option::None => DEFAULT_NUMBER_IN_PAIR,
                    },
                )
            } else {
                Option::None
            }),
            total,
        ),
{
    match (number, total) {
        (Option::None, Option::None) => {},
        (Option::Some(n), Option::None) => {
            let d = spec_u32_string(n);
            lemma_u32_string_digits(n);
            assert(forall|i: int| 0 <= i < d.len() ==> d[i] != 0x2f);
            lemma_split_no_sep(d, 0x2f);
            crate::text::lemma_parse_u32_string(n);
            let segs = spec_split(d, 0x2f);
            assert(segs =~= seq![d]);
            assert(segs.drop_first() =~= Seq::<Seq<u8>>::empty());
            assert(first_num(segs.drop_first()) is None);
        },
        (n, Option::Some(t)) => {
            let cur = match n {
                Option::Some(v) => v,
                Option::None => DEFAULT_NUMBER_IN_PAIR,
            };
            let a = spec_u32_string(cur);
            let b = spec_u32_string(t);
            lemma_u32_string_digits(cur);
            lemma_u32_string_digits(t);
            assert(forall|i: int| 0 <= i < a.len() ==> a[i] != 0x2f);
            assert(forall|i: int| 0 <= i < b.len() ==> b[i] != 0x2f);
            lemma_split_glue(a, b, 0x2f);
            lemma_split_no_sep(b, 0x2f);
            crate::text::lemma_parse_u32_string(cur);
            crate::text::lemma_parse_u32_string(t);
            let segs = spec_split(a + seq![0x2fu8] + b, 0x2f);
            assert(segs =~= seq![a, b]);
            assert(segs.drop_first() =~= seq![b]);
            assert(seq![b].drop_first() =~= Seq::<Seq<u8>>::empty());
        },
    }
}

/// The pair text formed from already-textual sides: nothing when both
/// are absent, the current side alone when no total is given, and
/// `current/total` with a zero default otherwise.
pub open spec fn spec_format_pair_text(number: Option<Seq<u8>>, total: Option<Seq<u8>>) -> Option<
    Seq<u8>,
> {
    match (number, total) {
        (Option::None, Option::None) => Option::None,
        (Option::Some(n), Option::None) => Option::Some(n),
        (n, Option::Some(t)) => Option::Some(
            (match n {
                Option::Some(v) => v,
                Option::None => seq![0x30u8],
            }) + seq![0x2fu8] + t,
        ),
    }
}

/// Join two textual pair sides into one pair text.
pub fn format_pair_text(number: Option<&String>, total: Option<&String>) -> (r: Option<String>)
    ensures
        ({
            let s = spec_format_pair_text(
                match number {
                    Option::Some(n) => Option::Some(str_to_bytes(n@)),
                    Option::None => Option::None,
                },
                match total {
                    Option::Some(t) => Option::Some(str_to_bytes(t@)),
                    Option::None => Option::None,
                },
            );
            &&& r is Some <==> s is Some
            &&& r is Some ==> str_to_bytes(r->0@) == s->0
        }),
{
    match (number, total) {
        (None, None) => None,
        (Some(n), None) => Some(n.clone()),
        (n, Some(t)) => {
            let mut out: Vec<u8> = Vec::new();
            match n {
                Some(v) => {
                    crate::bytes::extend_bytes(&mut out, v.as_str().as_bytes());
                },
                None => {
                    out.push(0x30);
                },
            }
            let ghost na = out@;
            out.push(0x2f);
            crate::bytes::extend_bytes(&mut out, t.as_str().as_bytes());
            proof {
                match n {
                    Option::Some(v) => {
                        vstd::utf8::encode_utf8_valid_utf8(v@);
                    },
                    Option::None => {
                        assert(na =~= seq![0x30u8]);
                        lemma_ascii_valid_utf8(na);
                    },
                }
                lemma_ascii_valid_utf8(seq![0x2fu8]);
                vstd::utf8::encode_utf8_valid_utf8(t@);
                crate::text::lemma_valid_utf8_concat(na, seq![0x2fu8]);
                crate::text::lemma_valid_utf8_concat(na + seq![0x2fu8], str_to_bytes(t@));
                assert(out@ =~= na + seq![0x2fu8] + str_to_bytes(t@));
            }
            Some(bytes_to_string(out))
        },
    }
}

/// The number a unified item carries, when its value is text that
/// parses as a decimal number.
pub fn item_number(item: &TagItem) -> (r: Option<u32>)
    ensures
        r == (match item@.value {
            ValueView::Text(b) => spec_parse_u32(b),
            _ => Option::<u32>::None,
        }),
{
    match item.value() {
        crate::model::ItemValue::Text(s) => parse_u32(s.as_str().as_bytes()),
        _ => None,
    }
}

/// The year named by a text field: the value of its first four bytes
/// read as a decimal number.
pub open spec fn spec_parse_year(b: Seq<u8>) -> Option<u32> {
    if b.len() >= 4 {
        spec_parse_u32(b.take(4))
    } else {
        Option::None
    }
}

pub fn try_parse_year(input: &str) -> (r: Option<u32>)
    ensures
        r == spec_parse_year(str_to_bytes(input@)),
{
    let b = input.as_bytes();
    if b.len() >= 4 {
        let head = vstd::slice::slice_subrange(b, 0, 4);
        proof {
            assert(head@ =~= str_to_bytes(input@).take(4));
        }
        parse_u32(head)
    } else {
        None
    }
}

} // verus!
