//! The APE binary envelope, write side: per-item records between a
//! 32-byte header and a 32-byte footer that share one layout.

use vstd::prelude::*;
use crate::TagError;
use crate::ape::item::{ApeItem, ApeItemView};
use crate::ape::tag::{ApeTag, ApeTagView};
use crate::bytes::{extend_bytes, push_u32_le, spec_u32_le_bytes};
use crate::model::{ItemValue, ValueView};

verus! {

/// The eight preamble bytes, the ASCII spelling `APETAGEX`.
pub open spec fn spec_preamble() -> Seq<u8> {
    seq![0x41u8, 0x50, 0x45, 0x54, 0x41, 0x47, 0x45, 0x58]
}

/// The version word written in the envelope.
pub const APE_VERSION: u32 = 2000;

/// Header flag word: a header is present and this block is the header.
pub const APE_HEADER_FLAGS: u32 = 0xA000_0000;

/// Footer flag word: a header is present.
pub const APE_FOOTER_FLAGS: u32 = 0x8000_0000;

/// The item type code stored in bits 1-2 of an item's flag word.
pub open spec fn spec_type_code(v: ValueView) -> u32 {
    match v {
        ValueView::Text(_) => 0,
        ValueView::Binary(_) => 1,
        ValueView::Locator(_) => 2,
    }
}

/// An item's flag word: bit 0 read-only, bits 1-2 the type code.
pub open spec fn spec_item_flags(it: ApeItemView) -> u32 {
    (2 * spec_type_code(it.value) + (if it.read_only {
        1u32
    } else {
        0u32
    })) as u32
}

/// One item record: value size, flag word, NUL-terminated key, value.
pub open spec fn spec_item_bytes(it: ApeItemView) -> Seq<u8> {
    spec_u32_le_bytes(it.value.bytes().len() as u32) + spec_u32_le_bytes(spec_item_flags(it))
        + it.key + seq![0u8] + it.value.bytes()
}

/// The item records in storage order.
pub open spec fn spec_items_bytes(items: Seq<ApeItemView>) -> Seq<u8>
    decreases items.len(),
{
    if items.len() == 0 {
        Seq::empty()
    } else {
        spec_item_bytes(items[0]) + spec_items_bytes(items.drop_first())
    }
}

/// Every item record takes at least its nine fixed bytes.
pub proof fn lemma_items_bytes_len_lower(items: Seq<ApeItemView>)
    ensures
        spec_items_bytes(items).len() >= 9 * items.len(),
    decreases items.len(),
{
    if items.len() > 0 {
        lemma_items_bytes_len_lower(items.drop_first());
    }
}

pub proof fn lemma_items_bytes_push(items: Seq<ApeItemView>, it: ApeItemView)
    ensures
        spec_items_bytes(items.push(it)) == spec_items_bytes(items) + spec_item_bytes(it),
    decreases items.len(),
{
    let p = items.push(it);
    if items.len() == 0 {
        assert(p.drop_first() =~= Seq::<ApeItemView>::empty());
        assert(spec_items_bytes(Seq::<ApeItemView>::empty()) =~= Seq::<u8>::empty());
        assert(spec_items_bytes(p) =~= spec_items_bytes(items) + spec_item_bytes(it));
    } else {
        assert(p.drop_first() =~= items.drop_first().push(it));
        lemma_items_bytes_push(items.drop_first(), it);
        assert(spec_items_bytes(p) =~= spec_items_bytes(items) + spec_item_bytes(it));
    }
}

/// One header or footer block: preamble, version, tag size, item
/// count, flag word, and eight reserved zero bytes.
pub open spec fn spec_envelope_block(size: u32, count: u32, flags: u32) -> Seq<u8> {
    spec_preamble() + spec_u32_le_bytes(APE_VERSION) + spec_u32_le_bytes(size)
        + spec_u32_le_bytes(count) + spec_u32_le_bytes(flags) + seq![
        0u8,
        0u8,
        0u8,
        0u8,
        0u8,
        0u8,
        0u8,
        0u8,
    ]
}

/// Whether a tag fits the envelope's 32-bit size and count fields.
pub open spec fn spec_sizes_ok(items: Seq<ApeItemView>) -> bool {
    &&& forall|i: int| 0 <= i < items.len() ==> (#[trigger] items[i]).value.bytes().len()
        <= u32::MAX
    &&& spec_items_bytes(items).len() + 32 <= u32::MAX
}

/// The complete byte image of a tag: header, item records, footer.
/// The declared tag size spans the items and the footer, as the
/// format prescribes; only the flag words differ between the two
/// envelope blocks, and bit 0 carries the tag's read-only mark.
pub open spec fn spec_tag_bytes(t: ApeTagView) -> Seq<u8> {
    let l = spec_items_bytes(t.items);
    let size = (l.len() + 32) as u32;
    let count = t.items.len() as u32;
    let ro = if t.read_only {
        1u32
    } else {
        0u32
    };
    spec_envelope_block(size, count, (APE_HEADER_FLAGS + ro) as u32) + l + spec_envelope_block(
        size,
        count,
        (APE_FOOTER_FLAGS + ro) as u32,
    )
}

/// Append the record of one item.
fn write_item(out: &mut Vec<u8>, item: &ApeItem) -> (r: Result<(), TagError>)
    ensures
        r is Ok <==> item@.value.bytes().len() <= u32::MAX,
        r is Ok ==> final(out)@ == old(out)@ + spec_item_bytes(item@),
        r is Err ==> final(out)@ == old(out)@,
    {
    let vb: &[u8] = match item.value() {
        ItemValue::Text(s) => s.as_str().as_bytes(),
        ItemValue::Locator(s) => s.as_str().as_bytes(),
        ItemValue::Binary(b) => b.as_slice(),
    };
    if vb.len() > u32::MAX as usize {
        return Err(TagError::SizeMismatch);
    }
    let code: u32 = match item.value() {
        ItemValue::Text(_) => 0,
        ItemValue::Binary(_) => 1,
        ItemValue::Locator(_) => 2,
    };
    let flags: u32 = 2 * code + (if item.is_read_only() {
        1
    } else {
        0
    });
    proof {
        assert(vb@ == item@.value.bytes());
        assert(code == spec_type_code(item@.value));
        assert(flags == spec_item_flags(item@));
    }
    push_u32_le(out, vb.len() as u32);
    push_u32_le(out, flags);
    extend_bytes(out, item.key().as_bytes());
    out.push(0u8);
    extend_bytes(out, vb);
    proof {
        assert(out@ =~= old(out)@ + spec_item_bytes(item@));
    }
    Ok(())
}

/// Append one header or footer block.
fn write_envelope_block(out: &mut Vec<u8>, size: u32, count: u32, flags: u32)
    ensures
        final(out)@ == old(out)@ + spec_envelope_block(size, count, flags),
{
    let preamble: Vec<u8> = vec![0x41u8, 0x50, 0x45, 0x54, 0x41, 0x47, 0x45, 0x58];
    proof {
        assert(preamble@ =~= spec_preamble());
    }
    extend_bytes(out, preamble.as_slice());
    push_u32_le(out, APE_VERSION);
    push_u32_le(out, size);
    push_u32_le(out, count);
    push_u32_le(out, flags);
    let zeros: Vec<u8> = vec![0u8, 0, 0, 0, 0, 0, 0, 0];
    proof {
        assert(zeros@ =~= seq![0u8, 0u8, 0u8, 0u8, 0u8, 0u8, 0u8, 0u8]);
    }
    extend_bytes(out, zeros.as_slice());
    proof {
        assert(out@ =~= old(out)@ + spec_envelope_block(size, count, flags));
    }
}

/// Serialize a tag into its complete byte image; a tag whose items do
/// not fit the 32-bit size fields is refused.
pub fn create_ape_tag(read_only: bool, items: &[ApeItem]) -> (r: Result<Vec<u8>, TagError>)
    ensures
        ({
            let v = ApeTagView {
                read_only,
                items: Seq::new(items@.len(), |i: int| items@[i]@),
            };
            &&& r is Ok <==> spec_sizes_ok(v.items)
            &&& r is Ok ==> r->Ok_0@ == spec_tag_bytes(v)
        }),
{
    let ghost itemsv = Seq::new(items@.len(), |i: int| items@[i]@);
    let mut body: Vec<u8> = Vec::new();
    let mut k: usize = 0;
    proof {
        assert(itemsv.take(0) =~= Seq::<ApeItemView>::empty());
    }
    while k < items.len()
        invariant
            0 <= k <= items@.len(),
            itemsv.len() == items@.len(),
            forall|i: int| 0 <= i < items@.len() ==> itemsv[i] == items@[i]@,
            body@ == spec_items_bytes(itemsv.take(k as int)),
            forall|i: int| 0 <= i < k ==> (#[trigger] itemsv[i]).value.bytes().len() <= u32::MAX,
        decreases items@.len() - k,
    {
        proof {
            lemma_items_bytes_push(itemsv.take(k as int), itemsv[k as int]);
            assert(itemsv.take(k as int).push(itemsv[k as int]) =~= itemsv.take(k + 1));
        }
        match write_item(&mut body, &items[k]) {
            Ok(_) => {},
            Err(e) => {
                proof {
                    assert(itemsv[k as int].value.bytes().len() > u32::MAX);
                    assert(!spec_sizes_ok(itemsv));
                    assert(Seq::new(items@.len(), |i: int| items@[i]@) =~= itemsv);
                }
                return Err(e);
            },
        }
        k += 1;
    }
    proof {
        assert(itemsv.take(itemsv.len() as int) =~= itemsv);
        assert(Seq::new(items@.len(), |i: int| items@[i]@) =~= itemsv);
    }
    if body.len() > (u32::MAX - 32) as usize {
        return Err(TagError::SizeMismatch);
    }
    proof {
        lemma_items_bytes_len_lower(itemsv);
    }
    let size: u32 = body.len() as u32 + 32;
    let count: u32 = items.len() as u32;
    let ro: u32 = if read_only {
        1
    } else {
        0
    };
    let mut out: Vec<u8> = Vec::new();
    write_envelope_block(&mut out, size, count, APE_HEADER_FLAGS + ro);
    extend_bytes(&mut out, body.as_slice());
    write_envelope_block(&mut out, size, count, APE_FOOTER_FLAGS + ro);
    proof {
        let v = ApeTagView { read_only, items: itemsv };
        assert(out@ =~= spec_tag_bytes(v));
    }
    Ok(out)
}

/// A borrowed tag image handed to the writer.
pub struct ApeTagRef<'a> {
    pub read_only: bool,
    pub items: &'a [ApeItem],
}

impl<'a> ApeTagRef<'a> {
    pub open spec fn view_items(self) -> Seq<ApeItemView> {
        Seq::new(self.items@.len(), |i: int| self.items@[i]@)
    }

    /// Serialize the tag and append its bytes to `writer`.
    pub fn dump_to(&self, writer: &mut Vec<u8>) -> (r: Result<(), TagError>)
        ensures
            r is Ok <==> spec_sizes_ok(self.view_items()),
            r is Ok ==> final(writer)@ == old(writer)@ + spec_tag_bytes(
                ApeTagView { read_only: self.read_only, items: self.view_items() },
            ),
            r is Err ==> final(writer)@ == old(writer)@,
    {
        match create_ape_tag(self.read_only, self.items) {
            Ok(bytes) => {
                extend_bytes(writer, bytes.as_slice());
                Ok(())
            },
            Err(e) => Err(e),
        }
    }
}

} // verus!
