//! The format-agnostic tag model every codec converts to and from:
//! well-known item keys, tagged item values, and the `Tag` container.
//!
//! Views are byte-level: a text value is seen as its UTF-8 encoding, so
//! the same sequences appear in the binary layouts and in the contracts.

use vstd::prelude::*;
use crate::text::str_to_bytes;

verus! {

/// The tag formats the adapters translate between.
#[derive(Clone, Copy, Debug, PartialEq, Eq, Structural)]
pub enum TagType {
    Ape,
    Id3v2,
    VorbisComments,
}

/// A well-known field, or an escape keyed by the raw native key.
#[derive(Clone, Debug, PartialEq, Eq)]
pub enum ItemKey {
    AlbumTitle,
    Comment,
    Genre,
    TrackArtist,
    TrackNumber,
    TrackTitle,
    TrackTotal,
    DiscNumber,
    DiscTotal,
    MovementNumber,
    MovementTotal,
    Year,
    Unknown(String),
}

/// The spec-level image of an [`ItemKey`]; the raw key of the escape
/// variant is seen as its UTF-8 bytes.
pub enum KeyView {
    AlbumTitle,
    Comment,
    Genre,
    TrackArtist,
    TrackNumber,
    TrackTitle,
    TrackTotal,
    DiscNumber,
    DiscTotal,
    MovementNumber,
    MovementTotal,
    Year,
    Unknown(Seq<u8>),
}

impl View for ItemKey {
    type V = KeyView;

    open spec fn view(&self) -> KeyView {
        match self {
            ItemKey::AlbumTitle => KeyView::AlbumTitle,
            ItemKey::Comment => KeyView::Comment,
            ItemKey::Genre => KeyView::Genre,
            ItemKey::TrackArtist => KeyView::TrackArtist,
            ItemKey::TrackNumber => KeyView::TrackNumber,
            ItemKey::TrackTitle => KeyView::TrackTitle,
            ItemKey::TrackTotal => KeyView::TrackTotal,
            ItemKey::DiscNumber => KeyView::DiscNumber,
            ItemKey::DiscTotal => KeyView::DiscTotal,
            ItemKey::MovementNumber => KeyView::MovementNumber,
            ItemKey::MovementTotal => KeyView::MovementTotal,
            ItemKey::Year => KeyView::Year,
            ItemKey::Unknown(s) => KeyView::Unknown(str_to_bytes(s@)),
        }
    }
}

/// A tagged value: exactly one representation is active.
#[derive(Clone, Debug, PartialEq, Eq)]
pub enum ItemValue {
    /// Human-readable text.
    Text(String),
    /// A URL or other locator, kept as text.
    Locator(String),
    /// Raw bytes with no text interpretation.
    Binary(Vec<u8>),
}

/// The spec-level image of an [`ItemValue`]; text is seen as its UTF-8
/// bytes.
pub enum ValueView {
    Text(Seq<u8>),
    Locator(Seq<u8>),
    Binary(Seq<u8>),
}

impl View for ItemValue {
    type V = ValueView;

    open spec fn view(&self) -> ValueView {
        match self {
            ItemValue::Text(s) => ValueView::Text(str_to_bytes(s@)),
            ItemValue::Locator(s) => ValueView::Locator(str_to_bytes(s@)),
            ItemValue::Binary(b) => ValueView::Binary(b@),
        }
    }
}

impl ItemValue {
    /// A copy of the value carrying the same bytes.
    pub fn duplicate(&self) -> (r: ItemValue)
        ensures
            r@ == self@,
    {
        match self {
            ItemValue::Text(s) => ItemValue::Text(s.clone()),
            ItemValue::Locator(s) => ItemValue::Locator(s.clone()),
            ItemValue::Binary(b) => ItemValue::Binary(
                vstd::slice::slice_to_vec(b.as_slice()),
            ),
        }
    }
}

impl ValueView {
    /// The bytes carried by the value, whatever its representation.
    pub open spec fn bytes(self) -> Seq<u8> {
        match self {
            ValueView::Text(b) => b,
            ValueView::Locator(b) => b,
            ValueView::Binary(b) => b,
        }
    }
}

/// One key/value pair of the unified model.
#[derive(Clone, Debug, PartialEq, Eq)]
pub struct TagItem {
    pub item_key: ItemKey,
    pub item_value: ItemValue,
}

pub struct TagItemView {
    pub key: KeyView,
    pub value: ValueView,
}

impl View for TagItem {
    type V = TagItemView;

    open spec fn view(&self) -> TagItemView {
        TagItemView { key: self.item_key@, value: self.item_value@ }
    }
}

impl TagItem {
    pub fn new(item_key: ItemKey, item_value: ItemValue) -> (r: TagItem)
        ensures
            r@.key == item_key@,
            r@.value == item_value@,
    {
        TagItem { item_key, item_value }
    }

    pub fn key(&self) -> (r: &ItemKey)
        ensures
            r@ == self@.key,
    {
        &self.item_key
    }

    pub fn value(&self) -> (r: &ItemValue)
        ensures
            r@ == self@.value,
    {
        &self.item_value
    }
}

/// The kind of image a picture item represents.
#[derive(Clone, Copy, Debug, PartialEq, Eq, Structural)]
pub enum PictureType {
    Other,
    Icon,
    CoverFront,
    CoverBack,
    Undefined,
}

impl PictureType {
    /// The native APE item key for this picture kind; kinds with no
    /// native equivalent have none and such pictures are discarded on
    /// merge.
    pub open spec fn spec_as_ape_key(self) -> Option<&'static str> {
        match self {
            PictureType::CoverFront => Some("Cover Art (Front)"),
            PictureType::CoverBack => Some("Cover Art (Back)"),
            _ => None,
        }
    }

    pub fn as_ape_key(&self) -> (r: Option<&'static str>)
        ensures
            r == self.spec_as_ape_key(),
    {
        match self {
            PictureType::CoverFront => Some("Cover Art (Front)"),
            PictureType::CoverBack => Some("Cover Art (Back)"),
            _ => None,
        }
    }
}

/// The envelope of an embedded image; the image bytes themselves are
/// never interpreted here.
#[derive(Clone, Debug, PartialEq, Eq)]
pub struct Picture {
    pub pic_type: PictureType,
    pub description: String,
    pub data: Vec<u8>,
}

pub struct PictureView {
    pub pic_type: PictureType,
    pub description: Seq<u8>,
    pub data: Seq<u8>,
}

impl View for Picture {
    type V = PictureView;

    open spec fn view(&self) -> PictureView {
        PictureView {
            pic_type: self.pic_type,
            description: str_to_bytes(self.description@),
            data: self.data@,
        }
    }
}

impl Picture {
    /// The APE binary form of the envelope: the description, a NUL, then
    /// the image bytes.
    pub open spec fn spec_as_ape_bytes(self) -> Seq<u8> {
        self@.description + seq![0u8] + self@.data
    }

    pub fn as_ape_bytes(&self) -> (r: Vec<u8>)
        ensures
            r@ == self.spec_as_ape_bytes(),
    {
        let mut out: Vec<u8> = Vec::new();
        crate::bytes::extend_bytes(&mut out, self.description.as_str().as_bytes());
        out.push(0u8);
        crate::bytes::extend_bytes(&mut out, self.data.as_slice());
        proof {
            assert(out@ =~= self.spec_as_ape_bytes());
        }
        out
    }
}

/// The unified tag: an ordered item list plus a separate picture list.
#[derive(Clone, Debug, PartialEq, Eq)]
pub struct Tag {
    pub tag_type: TagType,
    pub items: Vec<TagItem>,
    pub pictures: Vec<Picture>,
}

pub struct TagView {
    pub tag_type: TagType,
    pub items: Seq<TagItemView>,
    pub pictures: Seq<PictureView>,
}

impl View for Tag {
    type V = TagView;

    open spec fn view(&self) -> TagView {
        TagView {
            tag_type: self.tag_type,
            items: Seq::new(self.items@.len(), |i: int| self.items@[i]@),
            pictures: Seq::new(self.pictures@.len(), |i: int| self.pictures@[i]@),
        }
    }
}

impl Tag {
    /// Create an empty tag of the given format.
    pub fn new(tag_type: TagType) -> (r: Tag)
        ensures
            r@.tag_type == tag_type,
            r@.items.len() == 0,
            r@.pictures.len() == 0,
    {
        Tag { tag_type, items: Vec::new(), pictures: Vec::new() }
    }

    /// Append an item, keeping the order of insertion.
    pub fn push(&mut self, item: TagItem)
        ensures
            final(self)@.tag_type == old(self)@.tag_type,
            final(self)@.items =~= old(self)@.items.push(item@),
            final(self)@.pictures =~= old(self)@.pictures,
    {
        self.items.push(item);
    }

    pub fn len(&self) -> (r: usize)
        ensures
            r == self@.items.len(),
    {
        self.items.len()
    }

    /// The text of the first item under `key`, if that item holds text.
    pub fn get_string(&self, key: &ItemKey) -> (r: Option<&String>)
        ensures
            ({
                let f = find_key(self@.items, key@);
                &&& f < 0 ==> r is None
                &&& f >= 0 ==> {
                    &&& (r is Some <==> self@.items[f].value is Text)
                    &&& r is Some ==> str_to_bytes(r->0@) == self@.items[f].value.bytes()
                }
            }),
    {
        let mut i: usize = 0;
        while i < self.items.len()
            invariant
                0 <= i <= self@.items.len(),
                forall|j: int| 0 <= j < i ==> self@.items[j].key != key@,
            decreases self@.items.len() - i,
        {
            if key_eq(&self.items[i].item_key, key) {
                proof {
                    lemma_find_key(self@.items, key@);
                    let f = find_key(self@.items, key@);
                    assert(self@.items[i as int].key == key@);
                    if f == -1 {
                        assert(self@.items[i as int].key != key@);
                    } else if f < i {
                        assert(self@.items[f].key != key@);
                        assert(self@.items[f].key == key@);
                    } else if f > i {
                        assert(self@.items[i as int].key != key@);
                    }
                    assert(f == i);
                }
                match &self.items[i].item_value {
                    ItemValue::Text(s) => {
                        return Some(s);
                    },
                    _ => {
                        return None;
                    },
                }
            }
            i += 1;
        }
        proof {
            lemma_find_key(self@.items, key@);
        }
        None
    }
}

/// The position of the first item under key `k`, or -1 when none is.
pub open spec fn find_key(items: Seq<TagItemView>, k: KeyView) -> int
    decreases items.len(),
{
    if items.len() == 0 {
        -1
    } else if items[0].key == k {
        0
    } else {
        let r = find_key(items.drop_first(), k);
        if r < 0 {
            -1
        } else {
            r + 1
        }
    }
}

pub proof fn lemma_find_key(items: Seq<TagItemView>, k: KeyView)
    ensures
        find_key(items, k) == -1 ==> forall|i: int| 0 <= i < items.len() ==> items[i].key != k,
        find_key(items, k) >= 0 ==> 0 <= find_key(items, k) < items.len() && items[find_key(
            items,
            k,
        )].key == k && forall|i: int| 0 <= i < find_key(items, k) ==> items[i].key != k,
    decreases items.len(),
{
    if items.len() > 0 && items[0].key != k {
        lemma_find_key(items.drop_first(), k);
        let t = items.drop_first();
        let r = find_key(t, k);
        if r == -1 {
            assert forall|i: int| 0 <= i < items.len() implies items[i].key != k by {
                if i > 0 {
                    assert(items[i] == t[i - 1]);
                }
            }
        } else {
            assert(items[r + 1] == t[r]);
            assert forall|i: int| 0 <= i < r + 1 implies items[i].key != k by {
                if i > 0 {
                    assert(items[i] == t[i - 1]);
                }
            }
        }
    }
}

/// Whether two keys are the same logical field; raw escape keys compare
/// by their exact bytes.
pub fn key_eq(a: &ItemKey, b: &ItemKey) -> (r: bool)
    ensures
        r == (a@ == b@),
{
    match (a, b) {
        (ItemKey::AlbumTitle, ItemKey::AlbumTitle) => true,
        (ItemKey::Comment, ItemKey::Comment) => true,
        (ItemKey::Genre, ItemKey::Genre) => true,
        (ItemKey::TrackArtist, ItemKey::TrackArtist) => true,
        (ItemKey::TrackNumber, ItemKey::TrackNumber) => true,
        (ItemKey::TrackTitle, ItemKey::TrackTitle) => true,
        (ItemKey::TrackTotal, ItemKey::TrackTotal) => true,
        (ItemKey::DiscNumber, ItemKey::DiscNumber) => true,
        (ItemKey::DiscTotal, ItemKey::DiscTotal) => true,
        (ItemKey::MovementNumber, ItemKey::MovementNumber) => true,
        (ItemKey::MovementTotal, ItemKey::MovementTotal) => true,
        (ItemKey::Year, ItemKey::Year) => true,
        (ItemKey::Unknown(x), ItemKey::Unknown(y)) => {
            crate::text::eq_bytes(x.as_str().as_bytes(), y.as_str().as_bytes())
        },
        _ => false,
    }
}

} // verus!
