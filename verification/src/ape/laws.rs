//! Round-trip law of the APE codec: serializing a well-formed tag and
//! parsing the bytes back yields the same items.

use vstd::prelude::*;
use vstd::utf8::valid_utf8;
use crate::TagError;
use crate::ape::item::ApeItemView;
use crate::ape::read::{spec_read_ape_tag, spec_read_items};
use crate::bytes::{lemma_find_nul, spec_find_nul};
use crate::ape::tag::{ape_removed, lemma_ape_removed_props, spec_insert, ApeTagView};
use crate::ape::write::{
    lemma_items_bytes_len_lower, spec_envelope_block, spec_item_bytes, spec_item_flags,
    spec_items_bytes, spec_preamble, spec_tag_bytes, spec_type_code,
};
use crate::bytes::{lemma_u32_le_round_trip, spec_u32_le, spec_u32_le_bytes};
use crate::text::ieq;

verus! {

/// An item the binary layout can carry faithfully: a usable UTF-8 key
/// without NUL bytes, and a non-empty value whose size fits the record
/// and whose text, if it is text, is valid UTF-8.
pub open spec fn item_codec_ready(it: ApeItemView) -> bool {
    &&& it.wf()
    &&& valid_utf8(it.key)
    &&& forall|j: int| 0 <= j < it.key.len() ==> it.key[j] != 0
    &&& 1 <= it.value.bytes().len() <= u32::MAX
    &&& match it.value {
        crate::model::ValueView::Text(b) => valid_utf8(b),
        crate::model::ValueView::Locator(b) => valid_utf8(b),
        crate::model::ValueView::Binary(_) => true,
    }
}

/// No two items share a key, up to ASCII case.
pub open spec fn unique_keys(items: Seq<ApeItemView>) -> bool {
    forall|i: int, j: int|
        #![trigger items[i].key, items[j].key]
        0 <= i < j < items.len() ==> !ieq(items[i].key, items[j].key)
}

/// A tag the codec can carry through serialization and back: every
/// item is ready, keys are unique, and everything fits the envelope's
/// size field.
pub open spec fn tag_codec_ready(items: Seq<ApeItemView>) -> bool {
    &&& forall|i: int| 0 <= i < items.len() ==> item_codec_ready(#[trigger] items[i])
    &&& unique_keys(items)
    &&& spec_items_bytes(items).len() + 32 <= u32::MAX
}

/// Inserting the items of `rest` one after the other.
pub open spec fn fold_insert(acc: Seq<ApeItemView>, rest: Seq<ApeItemView>) -> Seq<ApeItemView>
    decreases rest.len(),
{
    if rest.len() == 0 {
        acc
    } else {
        fold_insert(spec_insert(acc, rest[0]), rest.drop_first())
    }
}

/// Removing a key nothing is stored under changes nothing.
pub proof fn lemma_ape_removed_noop(items: Seq<ApeItemView>, key: Seq<u8>)
    requires
        forall|i: int| 0 <= i < items.len() ==> !ieq((#[trigger] items[i]).key, key),
    ensures
        ape_removed(items, key) == items,
    decreases items.len(),
{
    if items.len() > 0 {
        let t = items.drop_first();
        assert forall|i: int| 0 <= i < t.len() implies !ieq((#[trigger] t[i]).key, key) by {
            assert(t[i] == items[i + 1]);
        }
        lemma_ape_removed_noop(t, key);
        assert(ape_removed(items, key) =~= items);
    }
}

/// Inserting items with pairwise fresh keys appends them in order.
pub proof fn lemma_fold_insert_unique(acc: Seq<ApeItemView>, rest: Seq<ApeItemView>)
    requires
        unique_keys(acc + rest),
    ensures
        fold_insert(acc, rest) == acc + rest,
    decreases rest.len(),
{
    let whole = acc + rest;
    if rest.len() == 0 {
        assert(acc + rest =~= acc);
    } else {
        let it = rest[0];
        assert(it == whole[acc.len() as int]);
        assert forall|i: int| 0 <= i < acc.len() implies !ieq((#[trigger] acc[i]).key, it.key) by {
            assert(acc[i].key == whole[i].key);
            assert(whole[acc.len() as int].key == it.key);
        }
        lemma_ape_removed_noop(acc, it.key);
        assert(spec_insert(acc, it) == acc.push(it));
        assert(acc.push(it) + rest.drop_first() =~= acc + rest);
        lemma_fold_insert_unique(acc.push(it), rest.drop_first());
        assert(fold_insert(acc, rest) == fold_insert(acc.push(it), rest.drop_first()));
    }
}

/// Parsing the serialized records of `rest`, starting from `acc`,
/// parses each record back to the item it came from.
proof fn lemma_read_serialized_items(
    data: Seq<u8>,
    pos: int,
    remaining: u32,
    rest: Seq<ApeItemView>,
    acc: Seq<ApeItemView>,
)
    requires
        0 <= pos,
        pos + spec_items_bytes(rest).len() <= data.len(),
        data.subrange(pos, pos + spec_items_bytes(rest).len() as int) == spec_items_bytes(rest),
        spec_items_bytes(rest).len() + 11 <= remaining,
        forall|i: int| 0 <= i < rest.len() ==> item_codec_ready(#[trigger] rest[i]),
    ensures
        spec_read_items(data, pos, remaining, rest.len(), acc) == Result::<
            (Seq<ApeItemView>, int),
            TagError,
        >::Ok((fold_insert(acc, rest), pos + spec_items_bytes(rest).len())),
    decreases rest.len(),
{
    if rest.len() == 0 {
        assert(spec_items_bytes(rest).len() == 0);
    } else {
        let it = rest[0];
        let rest2 = rest.drop_first();
        let ib = spec_item_bytes(it);
        let tail = spec_items_bytes(rest2);
        let restb = spec_items_bytes(rest);
        assert(restb == ib + tail);
        let klen = it.key.len() as int;
        let vb = it.value.bytes();
        let vlen = vb.len() as int;
        assert(ib.len() == 9 + klen + vlen);
        assert forall|j: int| 0 <= j < restb.len() implies data[pos + j] == restb[j] by {
            assert(data.subrange(pos, pos + restb.len() as int)[j] == restb[j]);
        }
        // the value-size field
        let vlen32 = vb.len() as u32;
        assert(data.subrange(pos, pos + 4) =~= spec_u32_le_bytes(vlen32)) by {
            assert forall|j: int| 0 <= j < 4 implies data[pos + j] == spec_u32_le_bytes(vlen32)[j]
            by {
                assert(restb[j] == ib[j]);
                assert(ib[j] == spec_u32_le_bytes(vlen32)[j]);
            }
        }
        lemma_u32_le_round_trip(vlen32);
        let vsize = spec_u32_le(data.subrange(pos, pos + 4));
        assert(vsize == vlen32);
        assert(vsize <= remaining);
        // the flag word
        let flags = spec_item_flags(it);
        assert(data.subrange(pos + 4, pos + 8) =~= spec_u32_le_bytes(flags)) by {
            assert forall|j: int| 0 <= j < 4 implies data[pos + 4 + j] == spec_u32_le_bytes(
                flags,
            )[j] by {
                assert(restb[4 + j] == ib[4 + j]);
                assert(ib[4 + j] == spec_u32_le_bytes(flags)[4 + j - 4]);
            }
        }
        lemma_u32_le_round_trip(flags);
        let rflags = spec_u32_le(data.subrange(pos + 4, pos + 8));
        assert(rflags == flags);
        let code = spec_type_code(it.value);
        let ro: u32 = if it.read_only {
            1
        } else {
            0
        };
        assert(flags == (2 * code + ro) as u32);
        assert((((2 * code + ro) as u32) & 1 == 1) == (ro == 1) && (((2 * code + ro) as u32) >> 1)
            & 3 == code) by (bit_vector)
            requires
                code <= 2,
                ro <= 1,
        ;
        // the key and its terminator
        assert forall|j: int| 0 <= j < klen implies data[pos + 8 + j] == it.key[j] && it.key[j]
            != 0 by {
            assert(restb[8 + j] == ib[8 + j]);
            assert(ib[8 + j] == it.key[j]);
        }
        assert(restb[8 + klen] == ib[8 + klen]);
        assert(ib[8 + klen] == 0);
        assert(data[pos + 8 + klen] == 0);
        lemma_find_nul(data, pos + 8);
        let f = spec_find_nul(data, pos + 8);
        if f == -1 {
            assert(data[pos + 8 + klen] != 0);
            assert(false);
        } else if f < pos + 8 + klen {
            assert(data[f] == it.key[f - pos - 8]);
            assert(data[f] == 0);
            assert(false);
        } else if f > pos + 8 + klen {
            assert(data[pos + 8 + klen] != 0);
            assert(false);
        }
        assert(f == pos + 8 + klen);
        let key = data.subrange(pos + 8, f);
        assert(key =~= it.key);
        // the value bytes
        assert forall|j: int| 0 <= j < vlen implies data[pos + 9 + klen + j] == vb[j] by {
            assert(restb[9 + klen + j] == ib[9 + klen + j]);
            assert(ib[9 + klen + j] == vb[j]);
        }
        let vstart = f + 1;
        assert(vstart + vsize <= data.len());
        let rvb = data.subrange(vstart, vstart + vsize);
        assert(rvb =~= vb);
        // the reconstructed item
        let ritem = ApeItemView {
            read_only: (rflags & 1 == 1),
            key,
            value: match it.value {
                crate::model::ValueView::Text(_) => crate::model::ValueView::Text(rvb),
                crate::model::ValueView::Binary(_) => crate::model::ValueView::Binary(rvb),
                crate::model::ValueView::Locator(_) => crate::model::ValueView::Locator(rvb),
            },
        };
        assert(ritem == it);
        // step to the rest of the records
        let pos2 = vstart + vsize;
        assert(pos2 == pos + ib.len());
        let rem2 = (remaining - 4) as u32;
        assert(data.subrange(pos2, pos2 + tail.len() as int) =~= tail) by {
            assert forall|j: int| 0 <= j < tail.len() implies data.subrange(
                pos2,
                pos2 + tail.len() as int,
            )[j] == tail[j] by {
                assert(data.subrange(pos2, pos2 + tail.len() as int)[j] == data[pos2 + j]);
                assert(data[pos2 + j] == restb[ib.len() + j]);
                assert(restb[ib.len() + j] == tail[j]);
            }
        }
        assert forall|i: int| 0 <= i < rest2.len() implies item_codec_ready(
            #[trigger] rest2[i],
        ) by {
            assert(rest2[i] == rest[i + 1]);
        }
        lemma_read_serialized_items(data, pos2, rem2, rest2, spec_insert(acc, it));
    }
}

/// Serializing a well-formed tag and parsing the bytes back yields a
/// tag holding exactly the same items; together with the matching
/// contracts of the reader and writer, a tag parsed from valid bytes
/// survives a write/re-read cycle unchanged.
pub proof fn lemma_ape_round_trip(t: ApeTagView)
    requires
        tag_codec_ready(t.items),
    ensures
        spec_read_ape_tag(spec_tag_bytes(t), 0, false) == Result::<
            Option<(Seq<ApeItemView>, u32, u32)>,
            TagError,
        >::Ok(
            Option::Some(
                (
                    t.items,
                    (spec_items_bytes(t.items).len() + 32) as u32,
                    t.items.len() as u32,
                ),
            ),
        ),
{
    let items = t.items;
    let l = spec_items_bytes(items);
    let size32 = (l.len() + 32) as u32;
    let n = items.len();
    lemma_items_bytes_len_lower(items);
    let count32 = n as u32;
    let ro: u32 = if t.read_only {
        1
    } else {
        0
    };
    let hblock = spec_envelope_block(size32, count32, (crate::ape::write::APE_HEADER_FLAGS + ro) as u32);
    let fblock = spec_envelope_block(size32, count32, (crate::ape::write::APE_FOOTER_FLAGS + ro) as u32);
    let data = spec_tag_bytes(t);
    assert(data == hblock + l + fblock);
    assert(hblock.len() == 32);
    assert(fblock.len() == 32);
    assert forall|j: int| 0 <= j < 32 implies data[j] == hblock[j] by {}
    assert(data.subrange(0, 8) =~= spec_preamble()) by {
        assert forall|j: int| 0 <= j < 8 implies data[j] == spec_preamble()[j] by {
            assert(hblock[j] == spec_preamble()[j]);
        }
    }
    assert(data.subrange(12, 16) =~= spec_u32_le_bytes(size32)) by {
        assert forall|j: int| 0 <= j < 4 implies data[12 + j] == spec_u32_le_bytes(size32)[j] by {
            assert(hblock[12 + j] == spec_u32_le_bytes(size32)[j]);
        }
    }
    assert(data.subrange(16, 20) =~= spec_u32_le_bytes(count32)) by {
        assert forall|j: int| 0 <= j < 4 implies data[16 + j] == spec_u32_le_bytes(count32)[j] by {
            assert(hblock[16 + j] == spec_u32_le_bytes(count32)[j]);
        }
    }
    lemma_u32_le_round_trip(size32);
    lemma_u32_le_round_trip(count32);
    assert(data.subrange(32, 32 + l.len() as int) =~= l) by {
        assert forall|j: int| 0 <= j < l.len() implies data.subrange(32, 32 + l.len() as int)[j]
            == l[j] by {
            assert(data.subrange(32, 32 + l.len() as int)[j] == data[32 + j]);
            assert(data[32 + j] == (l + fblock)[j]);
        }
    }
    lemma_read_serialized_items(data, 32, size32, items, Seq::empty());
    assert(Seq::<ApeItemView>::empty() + items =~= items);
    lemma_fold_insert_unique(Seq::empty(), items);
}


/// Removal keeps items ready and keys pairwise distinct.
proof fn lemma_ape_removed_ready(items: Seq<ApeItemView>, key: Seq<u8>)
    requires
        forall|i: int| 0 <= i < items.len() ==> item_codec_ready(#[trigger] items[i]),
        unique_keys(items),
    ensures
        forall|i: int|
            0 <= i < ape_removed(items, key).len() ==> item_codec_ready(
                #[trigger] ape_removed(items, key)[i],
            ),
        unique_keys(ape_removed(items, key)),
    decreases items.len(),
{
    if items.len() > 0 {
        let t = items.drop_first();
        assert forall|i: int| 0 <= i < t.len() implies item_codec_ready(#[trigger] t[i]) by {
            assert(t[i] == items[i + 1]);
        }
        assert forall|i: int, j: int|
            #![trigger t[i].key, t[j].key]
            0 <= i < j < t.len() implies !ieq(t[i].key, t[j].key) by {
            assert(t[i] == items[i + 1]);
            assert(t[j] == items[j + 1]);
        }
        lemma_ape_removed_ready(t, key);
        let rt = ape_removed(t, key);
        if !ieq(items[0].key, key) {
            let r = ape_removed(items, key);
            assert forall|i: int| 0 <= i < r.len() implies item_codec_ready(
                #[trigger] r[i],
            ) by {
                if i > 0 {
                    assert(r[i] == rt[i - 1]);
                }
            }
            assert forall|i: int, j: int|
                #![trigger r[i].key, r[j].key]
                0 <= i < j < r.len() implies !ieq(r[i].key, r[j].key) by {
                if i == 0 {
                    assert(r[j] == rt[j - 1]);
                    lemma_removed_key_witness(t, key, j - 1);
                    let w = choose|w: int|
                        0 <= w < t.len() && #[trigger] t[w] == ape_removed(t, key)[j - 1];
                    assert(t[w] == items[w + 1]);
                    assert(!ieq(items[0].key, items[w + 1].key));
                } else {
                    assert(r[i] == rt[i - 1]);
                    assert(r[j] == rt[j - 1]);
                }
            }
        }
    }
}

/// Every item of the removal's result is an item of the original
/// list.
proof fn lemma_removed_key_witness(items: Seq<ApeItemView>, key: Seq<u8>, i: int)
    requires
        0 <= i < ape_removed(items, key).len(),
    ensures
        exists|w: int| 0 <= w < items.len() && #[trigger] items[w] == ape_removed(items, key)[i],
    decreases items.len(),
{
    let r = ape_removed(items, key);
    let t = items.drop_first();
    let rt = ape_removed(t, key);
    if ieq(items[0].key, key) {
        lemma_removed_key_witness(t, key, i);
        let w = choose|w: int| 0 <= w < t.len() && #[trigger] t[w] == rt[i];
        assert(items[w + 1] == t[w]);
    } else {
        if i == 0 {
            assert(items[0] == r[0]);
        } else {
            assert(r[i] == rt[i - 1]);
            lemma_removed_key_witness(t, key, i - 1);
            let w = choose|w: int| 0 <= w < t.len() && #[trigger] t[w] == rt[i - 1];
            assert(items[w + 1] == t[w]);
        }
    }
}

/// Insertion keeps items ready and keys pairwise distinct.
pub proof fn lemma_insert_preserves_ready(items: Seq<ApeItemView>, it: ApeItemView)
    requires
        forall|i: int| 0 <= i < items.len() ==> item_codec_ready(#[trigger] items[i]),
        unique_keys(items),
        item_codec_ready(it),
    ensures
        forall|i: int|
            0 <= i < spec_insert(items, it).len() ==> item_codec_ready(
                #[trigger] spec_insert(items, it)[i],
            ),
        unique_keys(spec_insert(items, it)),
{
    lemma_ape_removed_ready(items, it.key);
    lemma_ape_removed_props(items, it.key);
    let removed = ape_removed(items, it.key);
    let after = spec_insert(items, it);
    assert forall|i: int| 0 <= i < after.len() implies item_codec_ready(
        #[trigger] after[i],
    ) by {
        if i < after.len() - 1 {
            assert(after[i] == removed[i]);
        }
    }
    assert forall|i: int, j: int|
        #![trigger after[i].key, after[j].key]
        0 <= i < j < after.len() implies !ieq(after[i].key, after[j].key) by {
        if j == after.len() - 1 {
            assert(after[i] == removed[i]);
            assert(after[j] == it);
            assert(!ieq(removed[i].key, it.key));
        } else {
            assert(after[i] == removed[i]);
            assert(after[j] == removed[j]);
        }
    }
}

/// Whatever the item loop accepts is ready for the writer: usable
/// NUL-free UTF-8 keys, pairwise distinct, and non-empty values that
/// fit a record.
proof fn lemma_read_items_ready(
    data: Seq<u8>,
    pos: int,
    remaining: u32,
    count: nat,
    acc: Seq<ApeItemView>,
)
    requires
        0 <= pos,
        forall|i: int| 0 <= i < acc.len() ==> item_codec_ready(#[trigger] acc[i]),
        unique_keys(acc),
    ensures
        ({
            let s = spec_read_items(data, pos, remaining, count, acc);
            s is Ok ==> {
                let items = s->Ok_0.0;
                &&& forall|i: int| 0 <= i < items.len() ==> item_codec_ready(#[trigger] items[i])
                &&& unique_keys(items)
            }
        }),
    decreases count,
{
    if count == 0 || remaining < 11 || pos + 4 > data.len() {
    } else {
        let vsize = crate::bytes::spec_u32_le(data.subrange(pos, pos + 4));
        if vsize > remaining || pos + 8 > data.len() {
        } else {
            let rem2 = (remaining - 4) as u32;
            let flags = crate::bytes::spec_u32_le(data.subrange(pos + 4, pos + 8));
            let kend = spec_find_nul(data, pos + 8);
            lemma_find_nul(data, pos + 8);
            if kend < 0 {
            } else {
                let key = data.subrange(pos + 8, kend);
                if !valid_utf8(key) {
                } else {
                    let read_only = flags & 1 == 1;
                    let ty = (flags >> 1) & 3;
                    if crate::ape::item::is_invalid_key(key) || vsize == 0 || key.len() < 2
                        || key.len() > 255 {
                        lemma_read_items_ready(data, kend + 1, rem2, (count - 1) as nat, acc);
                    } else if kend + 1 + vsize > data.len() {
                    } else {
                        let vb = data.subrange(kend + 1, kend + 1 + vsize);
                        assert forall|j: int| 0 <= j < key.len() implies key[j] != 0 by {
                            assert(key[j] == data[pos + 8 + j]);
                        }
                        if ty == 0 {
                            if valid_utf8(vb) {
                                let it = ApeItemView {
                                    read_only,
                                    key,
                                    value: crate::model::ValueView::Text(vb),
                                };
                                assert(item_codec_ready(it));
                                lemma_insert_preserves_ready(acc, it);
                                lemma_read_items_ready(
                                    data,
                                    kend + 1 + vsize,
                                    rem2,
                                    (count - 1) as nat,
                                    spec_insert(acc, it),
                                );
                            }
                        } else if ty == 1 {
                            let it = ApeItemView {
                                read_only,
                                key,
                                value: crate::model::ValueView::Binary(vb),
                            };
                            assert(item_codec_ready(it));
                            lemma_insert_preserves_ready(acc, it);
                            lemma_read_items_ready(
                                data,
                                kend + 1 + vsize,
                                rem2,
                                (count - 1) as nat,
                                spec_insert(acc, it),
                            );
                        } else if ty == 2 {
                            if valid_utf8(vb) {
                                let it = ApeItemView {
                                    read_only,
                                    key,
                                    value: crate::model::ValueView::Locator(vb),
                                };
                                assert(item_codec_ready(it));
                                lemma_insert_preserves_ready(acc, it);
                                lemma_read_items_ready(
                                    data,
                                    kend + 1 + vsize,
                                    rem2,
                                    (count - 1) as nat,
                                    spec_insert(acc, it),
                                );
                            }
                        }
                    }
                }
            }
        }
    }
}

/// A tag parsed from valid bytes is ready for the writer whenever its
/// serialized items fit the envelope's size field, so writing it out
/// and reading it back returns it unchanged.
pub proof fn lemma_parsed_tag_ready(data: Seq<u8>, pos: int, footer: bool)
    requires
        spec_read_ape_tag(data, pos, footer) is Ok,
        spec_read_ape_tag(data, pos, footer)->Ok_0 is Some,
    ensures
        ({
            let parsed = spec_read_ape_tag(data, pos, footer)->Ok_0->0;
            let items = parsed.0;
            spec_items_bytes(items).len() + 32 <= u32::MAX ==> tag_codec_ready(items)
        }),
{
    let size = crate::bytes::spec_u32_le(data.subrange(pos + 12, pos + 16));
    let count = crate::bytes::spec_u32_le(data.subrange(pos + 16, pos + 20));
    let start = if footer {
        pos + 32 - size
    } else {
        pos + 32
    };
    lemma_read_items_ready(data, start, size, count as nat, Seq::empty());
}

} // verus!
