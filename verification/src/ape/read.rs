//! The APE binary envelope, read side: a functional model of the
//! parser and the executable parser proved equal to it.

use vstd::prelude::*;
use vstd::utf8::valid_utf8;
use crate::TagError;
use crate::ape::item::{is_invalid_key, ApeItem, ApeItemView};
use crate::ape::tag::{spec_insert, ApeTag};
use crate::ape::write::spec_preamble;
use crate::bytes::{find_nul, lemma_find_nul, read_u32_le, spec_find_nul, spec_u32_le};
use crate::model::{ItemValue, ValueView};
use crate::text::{lemma_decode_encode, utf8_decode};

verus! {

/// The fixed header fields the parser acts on: the declared tag size
/// in bytes and the declared number of item records.
#[derive(Clone, Copy, Debug, PartialEq, Eq, Structural)]
pub struct ApeHeader {
    pub size: u32,
    pub item_count: u32,
}

/// The bytes a tag whose header opens the stream spans: the 32-byte
/// header plus the declared size, which covers the items and footer.
pub fn tag_span(header: ApeHeader) -> (r: u64)
    ensures
        r == 32 + header.size,
{
    32u64 + header.size as u64
}

/// What one pass of the item loop leaves behind: the items read so
/// far, with each new record inserted over its key, and the position
/// after the last record.
///
/// The loop walks the declared item count, stopping early when the
/// declared remaining size drops below the smallest possible record.
/// Only the four bytes of each record's size field are charged against
/// the remaining size; keys and values are not.
pub open spec fn spec_read_items(
    data: Seq<u8>,
    pos: int,
    remaining: u32,
    count: nat,
    acc: Seq<ApeItemView>,
) -> Result<(Seq<ApeItemView>, int), TagError>
    decreases count,
{
    if count == 0 {
        Result::Ok((acc, pos))
    } else if remaining < 11 {
        Result::Ok((acc, pos))
    } else if pos + 4 > data.len() {
        Result::Err(TagError::Truncated)
    } else {
        let vsize = spec_u32_le(data.subrange(pos, pos + 4));
        if vsize > remaining {
            Result::Err(TagError::SizeMismatch)
        } else if pos + 8 > data.len() {
            Result::Err(TagError::Truncated)
        } else {
            let rem2 = (remaining - 4) as u32;
            let flags = spec_u32_le(data.subrange(pos + 4, pos + 8));
            let kend = spec_find_nul(data, pos + 8);
            if kend < 0 {
                Result::Err(TagError::Truncated)
            } else {
                let key = data.subrange(pos + 8, kend);
                if !valid_utf8(key) {
                    Result::Err(TagError::Decode)
                } else {
                    let read_only = flags & 1 == 1;
                    let ty = (flags >> 1) & 3;
                    if is_invalid_key(key) || vsize == 0 || key.len() < 2 || key.len() > 255 {
                        spec_read_items(data, kend + 1, rem2, (count - 1) as nat, acc)
                    } else if kend + 1 + vsize > data.len() {
                        Result::Err(TagError::Truncated)
                    } else {
                        let vb = data.subrange(kend + 1, kend + 1 + vsize);
                        let value = if ty == 0 {
                            if valid_utf8(vb) {
                                Result::Ok(ValueView::Text(vb))
                            } else {
                                Result::Err(TagError::Decode)
                            }
                        } else if ty == 1 {
                            Result::Ok(ValueView::Binary(vb))
                        } else if ty == 2 {
                            if valid_utf8(vb) {
                                Result::Ok(ValueView::Locator(vb))
                            } else {
                                Result::Err(TagError::Decode)
                            }
                        } else {
                            Result::Err(TagError::Decode)
                        };
                        match value {
                            Result::Ok(v) => spec_read_items(
                                data,
                                kend + 1 + vsize,
                                rem2,
                                (count - 1) as nat,
                                spec_insert(acc, ApeItemView { read_only, key, value: v }),
                            ),
                            Result::Err(e) => Result::Err(e),
                        }
                    }
                }
            }
        }
    }
}

/// Read the item records declared by `header`, starting at `pos`.
///
/// Records with a reserved key, an unusable key length or an empty
/// value are warnings that skip the item, with its value bytes left in
/// place, rather than hard failures: one malformed item should not
/// abort the whole tag.  A non-UTF-8 key or text value or an unknown
/// item type stops the parse, as does a record whose declared value
/// size exceeds the declared remaining tag size.
pub fn read_ape_tag_with_header(data: &[u8], pos: usize, header: ApeHeader) -> (r: Result<
    ApeTag,
    TagError,
>)
    ensures
        ({
            let s = spec_read_items(
                data@,
                pos as int,
                header.size,
                header.item_count as nat,
                Seq::empty(),
            );
            match r {
                Result::Ok(tag) => s is Ok && tag@.items == s->Ok_0.0 && tag@.read_only == false,
                Result::Err(e) => s == Result::<(Seq<ApeItemView>, int), TagError>::Err(e),
            }
        }),
{
    let mut tag = ApeTag::new();
    let mut p = pos;
    let mut remaining: u32 = header.size;
    let mut done: u32 = 0;
    proof {
        assert(tag@.items =~= Seq::<ApeItemView>::empty());
    }
    while done < header.item_count && remaining >= 11
        invariant
            done <= header.item_count,
            pos <= p,
            tag@.read_only == false,
            spec_read_items(
                data@,
                pos as int,
                header.size,
                header.item_count as nat,
                Seq::empty(),
            ) == spec_read_items(
                data@,
                p as int,
                remaining,
                (header.item_count - done) as nat,
                tag@.items,
            ),
        decreases header.item_count - done,
    {
        let ghost count_left = (header.item_count - done) as nat;
        let ghost acc = tag@.items;
        let vsize = match read_u32_le(data, p) {
            Some(v) => v,
            None => {
                return Err(TagError::Truncated);
            },
        };
        if vsize > remaining {
            return Err(TagError::SizeMismatch);
        }
        if data.len() - p < 8 {
            return Err(TagError::Truncated);
        }
        remaining = remaining - 4;
        let flags = match read_u32_le(data, p + 4) {
            Some(v) => v,
            None => {
                return Err(TagError::Truncated);
            },
        };
        let kstart = p + 8;
        let kend = match find_nul(data, kstart) {
            Some(k) => k,
            None => {
                return Err(TagError::Truncated);
            },
        };
        proof {
            lemma_find_nul(data@, kstart as int);
        }
        let key_slice = vstd::slice::slice_subrange(data, kstart, kend);
        let key_vec = vstd::slice::slice_to_vec(key_slice);
        let key = match utf8_decode(key_vec) {
            Some(s) => s,
            None => {
                return Err(TagError::Decode);
            },
        };
        proof {
            lemma_decode_encode(data@.subrange(kstart as int, kend as int));
        }
        let read_only = flags & 1 == 1;
        let item_type = (flags >> 1) & 3;
        let klen = kend - kstart;
        if crate::ape::item::key_is_invalid(key.as_str().as_bytes()) || vsize == 0 || klen < 2
            || klen > 255 {
            p = kend + 1;
            done = done + 1;
            continue;
        }
        if data.len() - (kend + 1) < vsize as usize {
            return Err(TagError::Truncated);
        }
        let vstart = kend + 1;
        let vend = vstart + vsize as usize;
        let value_slice = vstd::slice::slice_subrange(data, vstart, vend);
        let value_vec = vstd::slice::slice_to_vec(value_slice);
        let value: ItemValue = if item_type == 0 {
            match utf8_decode(value_vec) {
                Some(s) => {
                    proof {
                        lemma_decode_encode(data@.subrange(vstart as int, vend as int));
                    }
                    ItemValue::Text(s)
                },
                None => {
                    return Err(TagError::Decode);
                },
            }
        } else if item_type == 1 {
            ItemValue::Binary(value_vec)
        } else if item_type == 2 {
            match utf8_decode(value_vec) {
                Some(s) => {
                    proof {
                        lemma_decode_encode(data@.subrange(vstart as int, vend as int));
                    }
                    ItemValue::Locator(s)
                },
                None => {
                    return Err(TagError::Decode);
                },
            }
        } else {
            return Err(TagError::Decode);
        };
        let mut item = match ApeItem::new(key, value) {
            Ok(it) => it,
            Err(_) => {
                proof {
                    assert(false);
                }
                return Err(TagError::Decode);
            },
        };
        item.set_read_only(read_only);
        tag.insert(item);
        proof {
            assert(tag@.items == spec_insert(
                acc,
                ApeItemView {
                    read_only,
                    key: data@.subrange(kstart as int, kend as int),
                    value: spec_read_item_value_at(data@, item_type, vstart as int, vend as int),
                },
            ));
        }
        p = vend;
        done = done + 1;
    }
    Ok(tag)
}

/// The value view the parser builds for a record, by type code.
pub open spec fn spec_read_item_value_at(data: Seq<u8>, ty: u32, vstart: int, vend: int) -> ValueView {
    let vb = data.subrange(vstart, vend);
    if ty == 0 {
        ValueView::Text(vb)
    } else if ty == 1 {
        ValueView::Binary(vb)
    } else {
        ValueView::Locator(vb)
    }
}

/// The header fields read after a preamble at `pos`: version, size,
/// item count, flags, and eight reserved bytes.
pub fn read_ape_header(data: &[u8], pos: usize) -> (r: Result<ApeHeader, TagError>)
    ensures
        r is Ok <==> pos + 24 <= data@.len(),
        r is Ok ==> r->Ok_0 == (ApeHeader {
            size: spec_u32_le(data@.subrange(pos + 4, pos + 8)),
            item_count: spec_u32_le(data@.subrange(pos + 8, pos + 12)),
        }),
        r is Err ==> r->Err_0 == TagError::Truncated,
{
    if data.len() < 24 || data.len() - 24 < pos {
        return Err(TagError::Truncated);
    }
    let size = match read_u32_le(data, pos + 4) {
        Some(v) => v,
        None => {
            return Err(TagError::Truncated);
        },
    };
    let item_count = match read_u32_le(data, pos + 8) {
        Some(v) => v,
        None => {
            return Err(TagError::Truncated);
        },
    };
    Ok(ApeHeader { size, item_count })
}

/// What reading a tag at `pos` yields: nothing when no preamble is
/// there, the parsed items and header when there is one.
pub open spec fn spec_read_ape_tag(data: Seq<u8>, pos: int, footer: bool) -> Result<
    Option<(Seq<ApeItemView>, u32, u32)>,
    TagError,
> {
    if pos + 8 > data.len() {
        Result::Err(TagError::Truncated)
    } else if data.subrange(pos, pos + 8) != spec_preamble() {
        Result::Ok(Option::None)
    } else if pos + 32 > data.len() {
        Result::Err(TagError::Truncated)
    } else {
        let size = spec_u32_le(data.subrange(pos + 12, pos + 16));
        let count = spec_u32_le(data.subrange(pos + 16, pos + 20));
        let start = if footer {
            pos + 32 - size
        } else {
            pos + 32
        };
        if start < 0 {
            Result::Err(TagError::SizeMismatch)
        } else {
            match spec_read_items(data, start, size, count as nat, Seq::empty()) {
                Result::Ok((items, _)) => Result::Ok(Option::Some((items, size, count))),
                Result::Err(e) => Result::Err(e),
            }
        }
    }
}

/// Read an APE tag whose preamble is expected at `pos`; when `footer`
/// is set the preamble belongs to a trailing footer and the items lie
/// in the `size` bytes that end with it.  A missing preamble means
/// "no tag here" and is not an error.
pub fn read_ape_tag(data: &[u8], pos: usize, footer: bool) -> (r: Result<
    Option<(ApeTag, ApeHeader)>,
    TagError,
>)
    ensures
        ({
            let s = spec_read_ape_tag(data@, pos as int, footer);
            match r {
                Result::Ok(Option::None) => s == Result::<
                    Option<(Seq<ApeItemView>, u32, u32)>,
                    TagError,
                >::Ok(Option::None),
                Result::Ok(Option::Some((tag, header))) => s is Ok && s->Ok_0 is Some && ({
                    let got = s->Ok_0->0;
                    &&& tag@.items == got.0
                    &&& tag@.read_only == false
                    &&& header.size == got.1
                    &&& header.item_count == got.2
                }),
                Result::Err(e) => s == Result::<
                    Option<(Seq<ApeItemView>, u32, u32)>,
                    TagError,
                >::Err(e),
            }
        }),
{
    if data.len() < 8 || data.len() - 8 < pos {
        return Err(TagError::Truncated);
    }
    let preamble: Vec<u8> = vec![0x41u8, 0x50, 0x45, 0x54, 0x41, 0x47, 0x45, 0x58];
    proof {
        assert(preamble@ =~= spec_preamble());
    }
    let here = vstd::slice::slice_subrange(data, pos, pos + 8);
    if !crate::text::eq_bytes(here, preamble.as_slice()) {
        return Ok(None);
    }
    if data.len() < 32 || data.len() - 32 < pos {
        return Err(TagError::Truncated);
    }
    let header = match read_ape_header(data, pos + 8) {
        Ok(h) => h,
        Err(e) => {
            proof {
                assert(false);
            }
            return Err(e);
        },
    };
    let start: usize = if footer {
        if (pos + 32) < header.size as usize {
            return Err(TagError::SizeMismatch);
        }
        pos + 32 - header.size as usize
    } else {
        pos + 32
    };
    match read_ape_tag_with_header(data, start, header) {
        Ok(tag) => Ok(Some((tag, header))),
        Err(e) => Err(e),
    }
}

} // verus!
