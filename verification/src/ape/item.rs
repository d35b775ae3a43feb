//! One item of an APE tag: a validated key, a value, and a read-only
//! flag.

use vstd::prelude::*;
use crate::TagError;
use crate::model::{ItemValue, ValueView};
use crate::text::{eq_ignore_ascii_case, ieq, str_to_bytes};

verus! {

/// The reserved key spellings no item may use, compared ignoring ASCII
/// case: `ID3`, `TAG`, `OggS` and `MP+`.
pub open spec fn is_invalid_key(k: Seq<u8>) -> bool {
    ||| ieq(k, seq![0x49u8, 0x44, 0x33])
    ||| ieq(k, seq![0x54u8, 0x41, 0x47])
    ||| ieq(k, seq![0x4fu8, 0x67, 0x67, 0x53])
    ||| ieq(k, seq![0x4du8, 0x50, 0x2b])
}

/// A usable item key: 2 to 255 bytes and not a reserved spelling.
pub open spec fn item_key_ok(k: Seq<u8>) -> bool {
    2 <= k.len() <= 255 && !is_invalid_key(k)
}

/// Whether `key` is one of the reserved spellings.
pub fn key_is_invalid(key: &[u8]) -> (r: bool)
    ensures
        r == is_invalid_key(key@),
{
    let id3: Vec<u8> = vec![0x49u8, 0x44, 0x33];
    let tag: Vec<u8> = vec![0x54u8, 0x41, 0x47];
    let oggs: Vec<u8> = vec![0x4fu8, 0x67, 0x67, 0x53];
    let mpp: Vec<u8> = vec![0x4du8, 0x50, 0x2b];
    proof {
        assert(id3@ =~= seq![0x49u8, 0x44, 0x33]);
        assert(tag@ =~= seq![0x54u8, 0x41, 0x47]);
        assert(oggs@ =~= seq![0x4fu8, 0x67, 0x67, 0x53]);
        assert(mpp@ =~= seq![0x4du8, 0x50, 0x2b]);
    }
    eq_ignore_ascii_case(key, id3.as_slice()) || eq_ignore_ascii_case(key, tag.as_slice())
        || eq_ignore_ascii_case(key, oggs.as_slice()) || eq_ignore_ascii_case(
        key,
        mpp.as_slice(),
    )
}

/// A key of fewer than 2 bytes or of more than 255 bytes is never
/// usable, whatever it holds: such items are refused at creation and
/// skipped by the binary reader.
pub proof fn lemma_key_length_rejected(k: Seq<u8>)
    ensures
        k.len() < 2 || k.len() > 255 ==> !item_key_ok(k),
{
}

/// One key/value record of an APE tag.
#[derive(Clone, Debug, PartialEq, Eq)]
pub struct ApeItem {
    /// Whether the item is marked read-only in its flag word.
    pub read_only: bool,
    pub(crate) key: String,
    pub(crate) value: ItemValue,
}

pub struct ApeItemView {
    pub read_only: bool,
    pub key: Seq<u8>,
    pub value: ValueView,
}

impl View for ApeItem {
    type V = ApeItemView;

    closed spec fn view(&self) -> ApeItemView {
        ApeItemView {
            read_only: self.read_only,
            key: str_to_bytes(self.key@),
            value: self.value@,
        }
    }
}

impl ApeItemView {
    /// Every item of a well-formed tag has a usable key.
    pub open spec fn wf(self) -> bool {
        item_key_ok(self.key)
    }
}

impl ApeItem {
    /// Create an item, rejecting unusable keys.
    pub fn new(key: String, value: ItemValue) -> (r: Result<ApeItem, TagError>)
        ensures
            r is Ok <==> item_key_ok(str_to_bytes(key@)),
            r is Ok ==> r->Ok_0@.read_only == false && r->Ok_0@.key == str_to_bytes(key@)
                && r->Ok_0@.value == value@,
    {
        let kb = key.as_str().as_bytes();
        if kb.len() < 2 || kb.len() > 255 || key_is_invalid(kb) {
            Err(TagError::Decode)
        } else {
            Ok(ApeItem { read_only: false, key, value })
        }
    }

    /// Create a text item under a key already known to be usable.
    pub fn text(key: &str, value: String) -> (r: ApeItem)
        requires
            item_key_ok(str_to_bytes(key@)),
        ensures
            r@.read_only == false,
            r@.key == str_to_bytes(key@),
            r@.value == ValueView::Text(str_to_bytes(value@)),
    {
        ApeItem { read_only: false, key: key.to_owned(), value: ItemValue::Text(value) }
    }

    /// Assemble an item from already-validated parts.
    pub(crate) fn assemble(read_only: bool, key: String, value: ItemValue) -> (r: ApeItem)
        ensures
            r@.read_only == read_only,
            r@.key == str_to_bytes(key@),
            r@.value == value@,
    {
        ApeItem { read_only, key, value }
    }

    pub fn is_read_only(&self) -> (r: bool)
        ensures
            r == self@.read_only,
    {
        self.read_only
    }

    /// Set or clear the read-only mark, leaving key and value alone.
    pub fn set_read_only(&mut self, read_only: bool)
        ensures
            final(self)@.read_only == read_only,
            final(self)@.key == old(self)@.key,
            final(self)@.value == old(self)@.value,
    {
        self.read_only = read_only;
    }

    pub fn key(&self) -> (r: &str)
        ensures
            str_to_bytes(r@) == self@.key,
    {
        self.key.as_str()
    }

    pub fn value(&self) -> (r: &ItemValue)
        ensures
            r@ == self@.value,
    {
        &self.value
    }

    /// Take the item apart into its key and value.
    pub fn into_parts(self) -> (r: (bool, String, ItemValue))
        ensures
            r.0 == self@.read_only,
            str_to_bytes(r.1@) == self@.key,
            r.2@ == self@.value,
    {
        (self.read_only, self.key, self.value)
    }
}

} // verus!
