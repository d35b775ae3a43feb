//! The split/merge adapters between APE tags and the unified model:
//! native keys map to well-known fields, number-pair texts explode
//! into their two sides and re-join on the way back.

use vstd::prelude::*;
use vstd::utf8::valid_utf8;
use crate::ape::item::{item_key_ok, ApeItem, ApeItemView};
use crate::ape::tag::{spec_insert, spec_set_number, spec_set_total, ApeTag, ApeTagView};
use crate::model::{
    ItemKey, ItemValue, KeyView, Tag, TagItem, TagItemView, TagType, TagView, ValueView,
};
use crate::pairs::{
    is_number_pair_key, item_number, spec_format_pair_text, spec_is_number_pair_key,
};
use crate::text::spec_parse_u32;
use crate::text::{
    find_byte, ieq, lemma_decode_encode, lemma_find_byte, str_eq_ignore_case, str_to_bytes,
    utf8_decode,
};

verus! {

/// The well-known field an APE key names, compared ignoring ASCII
/// case; any other key passes through as a raw key.
pub open spec fn spec_from_key_ape(k: Seq<u8>) -> KeyView {
    if ieq(k, str_to_bytes("Title"@)) {
        KeyView::TrackTitle
    } else if ieq(k, str_to_bytes("Artist"@)) {
        KeyView::TrackArtist
    } else if ieq(k, str_to_bytes("Album"@)) {
        KeyView::AlbumTitle
    } else if ieq(k, str_to_bytes("Comment"@)) {
        KeyView::Comment
    } else if ieq(k, str_to_bytes("Genre"@)) {
        KeyView::Genre
    } else if ieq(k, str_to_bytes("Year"@)) {
        KeyView::Year
    } else if ieq(k, str_to_bytes("Track"@)) {
        KeyView::TrackNumber
    } else if ieq(k, str_to_bytes("Disc"@)) {
        KeyView::DiscNumber
    } else if ieq(k, str_to_bytes("Movement"@)) {
        KeyView::MovementNumber
    } else {
        KeyView::Unknown(k)
    }
}

/// Map a native APE key to its well-known field.
pub fn from_key_ape(key: &str) -> (r: ItemKey)
    ensures
        r@ == spec_from_key_ape(str_to_bytes(key@)),
{
    if str_eq_ignore_case(key, "Title") {
        ItemKey::TrackTitle
    } else if str_eq_ignore_case(key, "Artist") {
        ItemKey::TrackArtist
    } else if str_eq_ignore_case(key, "Album") {
        ItemKey::AlbumTitle
    } else if str_eq_ignore_case(key, "Comment") {
        ItemKey::Comment
    } else if str_eq_ignore_case(key, "Genre") {
        ItemKey::Genre
    } else if str_eq_ignore_case(key, "Year") {
        ItemKey::Year
    } else if str_eq_ignore_case(key, "Track") {
        ItemKey::TrackNumber
    } else if str_eq_ignore_case(key, "Disc") {
        ItemKey::DiscNumber
    } else if str_eq_ignore_case(key, "Movement") {
        ItemKey::MovementNumber
    } else {
        ItemKey::Unknown(key.to_owned())
    }
}

/// The native APE key a well-known field is written under; the totals
/// of pairs share their pair's key, and a field with no native
/// equivalent has none.
pub open spec fn spec_map_key_ape(k: KeyView) -> Option<Seq<u8>> {
    match k {
        KeyView::TrackTitle => Option::Some(str_to_bytes("Title"@)),
        KeyView::TrackArtist => Option::Some(str_to_bytes("Artist"@)),
        KeyView::AlbumTitle => Option::Some(str_to_bytes("Album"@)),
        KeyView::Comment => Option::Some(str_to_bytes("Comment"@)),
        KeyView::Genre => Option::Some(str_to_bytes("Genre"@)),
        KeyView::Year => Option::Some(str_to_bytes("Year"@)),
        KeyView::TrackNumber => Option::Some(str_to_bytes("Track"@)),
        KeyView::TrackTotal => Option::Some(str_to_bytes("Track"@)),
        KeyView::DiscNumber => Option::Some(str_to_bytes("Disc"@)),
        KeyView::DiscTotal => Option::Some(str_to_bytes("Disc"@)),
        KeyView::MovementNumber => Option::Some(str_to_bytes("Movement"@)),
        KeyView::MovementTotal => Option::None,
        KeyView::Unknown(s) => Option::Some(s),
    }
}

/// Map a well-known field to its native APE key.
pub fn map_key_ape(k: &ItemKey) -> (r: Option<String>)
    ensures
        r is Some <==> spec_map_key_ape(k@) is Some,
        r is Some ==> str_to_bytes(r->0@) == spec_map_key_ape(k@)->0,
{
    match k {
        ItemKey::TrackTitle => Some("Title".to_owned()),
        ItemKey::TrackArtist => Some("Artist".to_owned()),
        ItemKey::AlbumTitle => Some("Album".to_owned()),
        ItemKey::Comment => Some("Comment".to_owned()),
        ItemKey::Genre => Some("Genre".to_owned()),
        ItemKey::Year => Some("Year".to_owned()),
        ItemKey::TrackNumber => Some("Track".to_owned()),
        ItemKey::TrackTotal => Some("Track".to_owned()),
        ItemKey::DiscNumber => Some("Disc".to_owned()),
        ItemKey::DiscTotal => Some("Disc".to_owned()),
        ItemKey::MovementNumber => Some("Movement".to_owned()),
        ItemKey::MovementTotal => None,
        ItemKey::Unknown(s) => Some(s.clone()),
    }
}

/// The unified items one APE item becomes: a pair text under a pair
/// key splits at its first `/` into current and total, everything
/// else passes through under its mapped key.
pub open spec fn spec_split_one(it: ApeItemView) -> Seq<TagItemView> {
    let k = spec_from_key_ape(it.key);
    match (k, it.value) {
        (KeyView::TrackNumber, ValueView::Text(b)) => spec_split_pair(
            b,
            KeyView::TrackNumber,
            KeyView::TrackTotal,
            k,
        ),
        (KeyView::DiscNumber, ValueView::Text(b)) => spec_split_pair(
            b,
            KeyView::DiscNumber,
            KeyView::DiscTotal,
            k,
        ),
        (KeyView::MovementNumber, ValueView::Text(b)) => spec_split_pair(
            b,
            KeyView::MovementNumber,
            KeyView::MovementTotal,
            k,
        ),
        _ => seq![TagItemView { key: k, value: it.value }],
    }
}

/// Splitting one pair text: everything before the first `/` is the
/// current side, the rest is the total; text without a separator is
/// the current side alone.
pub open spec fn spec_split_pair(b: Seq<u8>, ck: KeyView, tk: KeyView, orig: KeyView) -> Seq<
    TagItemView,
> {
    let f = find_byte(b, 0x2f);
    if f < 0 {
        seq![TagItemView { key: ck, value: ValueView::Text(b) }]
    } else if valid_utf8(b.take(f)) && valid_utf8(b.skip(f + 1)) {
        seq![
            TagItemView { key: ck, value: ValueView::Text(b.take(f)) },
            TagItemView { key: tk, value: ValueView::Text(b.skip(f + 1)) },
        ]
    } else {
        seq![TagItemView { key: orig, value: ValueView::Text(b) }]
    }
}

/// The unified items a whole APE item list becomes, in order.
pub open spec fn spec_split_tag(items: Seq<ApeItemView>) -> Seq<TagItemView>
    decreases items.len(),
{
    if items.len() == 0 {
        Seq::empty()
    } else {
        spec_split_one(items[0]) + spec_split_tag(items.drop_first())
    }
}

proof fn lemma_split_tag_push(items: Seq<ApeItemView>, it: ApeItemView)
    ensures
        spec_split_tag(items.push(it)) == spec_split_tag(items) + spec_split_one(it),
    decreases items.len(),
{
    let p = items.push(it);
    if items.len() == 0 {
        assert(p.drop_first() =~= Seq::<ApeItemView>::empty());
        assert(spec_split_tag(Seq::<ApeItemView>::empty()) =~= Seq::<TagItemView>::empty());
        assert(p[0] == it);
        assert(spec_split_tag(p) =~= spec_split_tag(items) + spec_split_one(it));
    } else {
        assert(p.drop_first() =~= items.drop_first().push(it));
        lemma_split_tag_push(items.drop_first(), it);
        assert(spec_split_tag(p) =~= spec_split_tag(items) + spec_split_one(it));
    }
}

/// What is left of an APE tag once it is split: the envelope with no
/// items.
pub struct SplitTagRemainder(pub(crate) ApeTag);

impl View for SplitTagRemainder {
    type V = ApeTagView;

    closed spec fn view(&self) -> ApeTagView {
        self.0@
    }
}

impl SplitTagRemainder {
    /// The empty remainder.
    pub fn new() -> (r: SplitTagRemainder)
        ensures
            r@.read_only == false,
            r@.items.len() == 0,
    {
        SplitTagRemainder(ApeTag::new())
    }

    /// The remaining native tag.
    pub fn tag(&self) -> (r: &ApeTag)
        ensures
            r@ == self@,
    {
        &self.0
    }

    /// Merge a unified tag back into the remainder: every item is
    /// re-inserted under the format's rules, then every picture with
    /// a native key is stored as a binary item.
    pub fn merge_tag(self, tag: Tag) -> (r: ApeTag)
        ensures
            r@.read_only == self@.read_only,
            r@.items == spec_merge_items(
                spec_merge_pictures(self@.items, tag@.pictures),
                tag@.items,
            ),
    {
        let SplitTagRemainder(mut merged) = self;
        let Tag { tag_type: _, items, pictures } = tag;
        let ghost picsv = Seq::new(pictures@.len(), |i: int| pictures@[i]@);
        let ghost base = merged@.items;
        let mut pics = pictures;
        let mut rest_pics = pics.split_off(0);
        proof {
            assert(picsv.take(0) =~= Seq::<crate::model::PictureView>::empty());
            assert(spec_merge_pictures(base, picsv.take(0)) =~= base);
        }
        let ghost np = picsv.len();
        while rest_pics.len() > 0
            invariant
                rest_pics@.len() <= np,
                picsv.len() == np,
                forall|i: int|
                    0 <= i < rest_pics@.len() ==> #[trigger] rest_pics@[i]@ == picsv[np
                        - rest_pics@.len() + i],
                merged@.read_only == self.0@.read_only,
                merged@.items =~= spec_merge_pictures(base, picsv.take(np - rest_pics@.len())),
            decreases rest_pics@.len(),
        {
            let ghost j = np - rest_pics@.len();
            let pic = rest_pics.remove(0);
            proof {
                assert(pic@ == picsv[j]);
                lemma_merge_pictures_push(base, picsv.take(j), picsv[j]);
                assert(picsv.take(j).push(picsv[j]) =~= picsv.take(j + 1));
            }
            match pic.pic_type.as_ape_key() {
                Some(key) => {
                    match ApeItem::new(key.to_owned(), ItemValue::Binary(pic.as_ape_bytes())) {
                        Ok(item) => {
                            merged.insert(item);
                        },
                        Err(_) => {},
                    }
                },
                None => {},
            }
        }
        proof {
            assert(picsv.take(np as int) =~= picsv);
        }
        let ghost base2 = merged@.items;
        let mut rest = items;
        let ghost itemsv = Seq::new(rest@.len(), |i: int| rest@[i]@);
        let ghost n = itemsv.len();
        proof {
            assert(itemsv.take(0) =~= Seq::<TagItemView>::empty());
            assert(spec_merge_items(base2, itemsv.take(0)) =~= base2);
        }
        while rest.len() > 0
            invariant
                rest@.len() <= n,
                itemsv.len() == n,
                forall|i: int|
                    0 <= i < rest@.len() ==> #[trigger] rest@[i]@ == itemsv[n - rest@.len() + i],
                merged@.read_only == self.0@.read_only,
                merged@.items =~= spec_merge_items(base2, itemsv.take(n - rest@.len())),
            decreases rest@.len(),
        {
            let ghost j = n - rest@.len();
            let item = rest.remove(0);
            proof {
                assert(item@ == itemsv[j]);
                lemma_merge_items_push(base2, itemsv.take(j), itemsv[j]);
                assert(itemsv.take(j).push(itemsv[j]) =~= itemsv.take(j + 1));
            }
            merged.insert_item(item);
        }
        proof {
            assert(itemsv.take(n as int) =~= itemsv);
            assert(tag@.items =~= itemsv);
            assert(tag@.pictures =~= picsv);
        }
        merged
    }
}

/// Inserting the unified items one after the other.
pub open spec fn spec_merge_items(items: Seq<ApeItemView>, rest: Seq<TagItemView>) -> Seq<
    ApeItemView,
>
    decreases rest.len(),
{
    if rest.len() == 0 {
        items
    } else {
        spec_merge_items(spec_insert_item(items, rest[0]), rest.drop_first())
    }
}

proof fn lemma_merge_items_push(items: Seq<ApeItemView>, rest: Seq<TagItemView>, it: TagItemView)
    ensures
        spec_merge_items(items, rest.push(it)) == spec_insert_item(
            spec_merge_items(items, rest),
            it,
        ),
    decreases rest.len(),
{
    let p = rest.push(it);
    if rest.len() == 0 {
        assert(p.drop_first() =~= Seq::<TagItemView>::empty());
        assert(p[0] == it);
        assert(spec_merge_items(spec_insert_item(items, it), Seq::<TagItemView>::empty())
            == spec_insert_item(items, it));
        assert(spec_merge_items(items, Seq::<TagItemView>::empty()) == items);
        assert(rest =~= Seq::<TagItemView>::empty());
    } else {
        assert(p.drop_first() =~= rest.drop_first().push(it));
        lemma_merge_items_push(spec_insert_item(items, rest[0]), rest.drop_first(), it);
        assert(p[0] == rest[0]);
    }
}

/// Storing the pictures one after the other, skipping kinds with no
/// native key.
pub open spec fn spec_merge_pictures(
    items: Seq<ApeItemView>,
    pics: Seq<crate::model::PictureView>,
) -> Seq<ApeItemView>
    decreases pics.len(),
{
    if pics.len() == 0 {
        items
    } else {
        spec_merge_pictures(spec_insert_picture(items, pics[0]), pics.drop_first())
    }
}

/// One picture, stored as a binary item when its kind has a native
/// key that is usable.
pub open spec fn spec_insert_picture(
    items: Seq<ApeItemView>,
    pic: crate::model::PictureView,
) -> Seq<ApeItemView> {
    match pic.pic_type.spec_as_ape_key() {
        Option::Some(key) => {
            if item_key_ok(str_to_bytes(key@)) {
                spec_insert(
                    items,
                    ApeItemView {
                        read_only: false,
                        key: str_to_bytes(key@),
                        value: ValueView::Binary(pic.description + seq![0u8] + pic.data),
                    },
                )
            } else {
                items
            }
        },
        Option::None => items,
    }
}

proof fn lemma_merge_pictures_push(
    items: Seq<ApeItemView>,
    pics: Seq<crate::model::PictureView>,
    pic: crate::model::PictureView,
)
    ensures
        spec_merge_pictures(items, pics.push(pic)) == spec_insert_picture(
            spec_merge_pictures(items, pics),
            pic,
        ),
    decreases pics.len(),
{
    let p = pics.push(pic);
    if pics.len() == 0 {
        assert(p.drop_first() =~= Seq::<crate::model::PictureView>::empty());
        assert(p[0] == pic);
        assert(spec_merge_pictures(
            spec_insert_picture(items, pic),
            Seq::<crate::model::PictureView>::empty(),
        ) == spec_insert_picture(items, pic));
        assert(spec_merge_pictures(items, Seq::<crate::model::PictureView>::empty()) == items);
        assert(pics =~= Seq::<crate::model::PictureView>::empty());
    } else {
        assert(p.drop_first() =~= pics.drop_first().push(pic));
        lemma_merge_pictures_push(spec_insert_picture(items, pics[0]), pics.drop_first(), pic);
        assert(p[0] == pics[0]);
    }
}

/// What inserting one unified item does: the sides of number pairs go
/// through the pair accessors, and everything else is stored under
/// its mapped native key when that key is usable.
pub open spec fn spec_insert_item(items: Seq<ApeItemView>, it: TagItemView) -> Seq<ApeItemView> {
    match it.key {
        KeyView::TrackNumber => match spec_item_num(it.value) {
            Option::Some(n) => spec_set_number(items, str_to_bytes("Track"@), n),
            Option::None => items,
        },
        KeyView::TrackTotal => match spec_item_num(it.value) {
            Option::Some(t) => spec_set_total(items, str_to_bytes("Track"@), t),
            Option::None => items,
        },
        KeyView::DiscNumber => match spec_item_num(it.value) {
            Option::Some(n) => spec_set_number(items, str_to_bytes("Disc"@), n),
            Option::None => items,
        },
        KeyView::DiscTotal => match spec_item_num(it.value) {
            Option::Some(t) => spec_set_total(items, str_to_bytes("Disc"@), t),
            Option::None => items,
        },
        _ => match spec_map_key_ape(it.key) {
            Option::Some(kb) => {
                if item_key_ok(kb) {
                    spec_insert(
                        items,
                        ApeItemView { read_only: false, key: kb, value: it.value },
                    )
                } else {
                    items
                }
            },
            Option::None => items,
        },
    }
}

/// The number a unified value carries, when it is text that parses.
pub open spec fn spec_item_num(v: ValueView) -> Option<u32> {
    match v {
        ValueView::Text(b) => spec_parse_u32(b),
        _ => Option::None,
    }
}

impl ApeTag {
    /// Insert one unified item under the format's rules.
    pub fn insert_item(&mut self, item: TagItem)
        ensures
            final(self)@.read_only == old(self)@.read_only,
            final(self)@.items == spec_insert_item(old(self)@.items, item@),
    {
        let number = item_number(&item);
        let TagItem { item_key, item_value } = item;
        match item_key {
            ItemKey::TrackNumber => {
                if let Some(n) = number {
                    self.set_track(n);
                }
            },
            ItemKey::TrackTotal => {
                if let Some(t) = number {
                    self.set_track_total(t);
                }
            },
            ItemKey::DiscNumber => {
                if let Some(n) = number {
                    self.set_disk(n);
                }
            },
            ItemKey::DiscTotal => {
                if let Some(t) = number {
                    self.set_disk_total(t);
                }
            },
            other => {
                match map_key_ape(&other) {
                    Some(key) => {
                        match ApeItem::new(key, item_value) {
                            Ok(ape_item) => {
                                self.insert(ape_item);
                            },
                            Err(_) => {},
                        }
                    },
                    None => {},
                }
            },
        }
    }

    /// Split this tag into its remainder and a unified tag: every
    /// item is consumed, pair texts exploding into their two sides.
    pub fn split_tag(self) -> (r: (SplitTagRemainder, Tag))
        ensures
            r.0@.read_only == self@.read_only,
            r.0@.items.len() == 0,
            r.1@.tag_type == TagType::Ape,
            r.1@.pictures.len() == 0,
            r.1@.items == spec_split_tag(self@.items),
    {
        let (read_only, items) = self.into_parts();
        let mut tag = Tag::new(TagType::Ape);
        let ghost itemsv = self@.items;
        proof {
            assert(itemsv =~= Seq::new(items@.len(), |i: int| items@[i]@));
        }
        let ghost n = itemsv.len();
        let mut rest = items;
        proof {
            assert(itemsv.take(0) =~= Seq::<ApeItemView>::empty());
            assert(spec_split_tag(Seq::<ApeItemView>::empty()) =~= Seq::<TagItemView>::empty());
            assert(tag@.items =~= spec_split_tag(itemsv.take(0)));
        }
        while rest.len() > 0
            invariant
                rest@.len() <= n,
                itemsv.len() == n,
                forall|i: int|
                    0 <= i < rest@.len() ==> #[trigger] rest@[i]@ == itemsv[n - rest@.len() + i],
                tag@.tag_type == TagType::Ape,
                tag@.pictures.len() == 0,
                tag@.items =~= spec_split_tag(itemsv.take(n - rest@.len())),
            decreases rest@.len(),
        {
            let ghost j = n - rest@.len();
            let item = rest.remove(0);
            proof {
                assert(item@ == itemsv[j]);
                lemma_split_tag_push(itemsv.take(j), itemsv[j]);
                assert(itemsv.take(j).push(itemsv[j]) =~= itemsv.take(j + 1));
            }
            split_one_into(item, &mut tag);
        }
        proof {
            assert(itemsv.take(n as int) =~= itemsv);
        }
        (SplitTagRemainder(ApeTag::empty_with_read_only(read_only)), tag)
    }
}

/// Push the unified items one APE item becomes onto `tag`.
fn split_one_into(item: ApeItem, tag: &mut Tag)
    ensures
        final(tag)@.tag_type == old(tag)@.tag_type,
        final(tag)@.pictures == old(tag)@.pictures,
        final(tag)@.items == old(tag)@.items + spec_split_one(item@),
{
    let (_read_only, key, value) = item.into_parts();
    let item_key = from_key_ape(key.as_str());
    let pair: Option<(ItemKey, ItemKey)> = match &item_key {
        ItemKey::TrackNumber => Some((ItemKey::TrackNumber, ItemKey::TrackTotal)),
        ItemKey::DiscNumber => Some((ItemKey::DiscNumber, ItemKey::DiscTotal)),
        ItemKey::MovementNumber => Some((ItemKey::MovementNumber, ItemKey::MovementTotal)),
        _ => None,
    };
    match (pair, value) {
        (Some((ck, tk)), ItemValue::Text(text)) => {
            let b = text.as_str().as_bytes();
            let ghost bv = str_to_bytes(text@);
            proof {
                lemma_find_byte(bv, 0x2f);
            }
            match crate::text::find_byte_in(b, 0x2f) {
                None => {
                    tag.push(TagItem::new(ck, ItemValue::Text(text)));
                    proof {
                        assert(old(tag)@.items.push(
                            TagItemView {
                                key: spec_split_one(item@)[0].key,
                                value: spec_split_one(item@)[0].value,
                            },
                        ) =~= old(tag)@.items + spec_split_one(item@));
                    }
                },
                Some(f) => {
                    proof {
                        assert(b@ == bv);
                        assert(f == find_byte(bv, 0x2f));
                        assert(f < b@.len());
                    }
                    let blen = b.len();
                    let rest_start = f + 1;
                    let cur = vstd::slice::slice_to_vec(
                        vstd::slice::slice_subrange(b, 0, f),
                    );
                    let tot = vstd::slice::slice_to_vec(
                        vstd::slice::slice_subrange(b, rest_start, blen),
                    );
                    proof {
                        assert(cur@ =~= bv.take(f as int));
                        assert(tot@ =~= bv.skip(f + 1));
                    }
                    let cur_s = utf8_decode(cur);
                    let tot_s = utf8_decode(tot);
                    match (cur_s, tot_s) {
                        (Some(cs), Some(ts)) => {
                            proof {
                                lemma_decode_encode(bv.take(f as int));
                                lemma_decode_encode(bv.skip(f + 1));
                            }
                            tag.push(TagItem::new(ck, ItemValue::Text(cs)));
                            tag.push(TagItem::new(tk, ItemValue::Text(ts)));
                            proof {
                                assert(old(tag)@.items.push(spec_split_one(item@)[0]).push(
                                    spec_split_one(item@)[1],
                                ) =~= old(tag)@.items + spec_split_one(item@));
                            }
                        },
                        _ => {
                            tag.push(TagItem::new(item_key, ItemValue::Text(text)));
                            proof {
                                assert(old(tag)@.items.push(spec_split_one(item@)[0]) =~= old(
                                    tag,
                                )@.items + spec_split_one(item@));
                            }
                        },
                    }
                },
            }
        },
        (_, value) => {
            tag.push(TagItem::new(item_key, value));
            proof {
                assert(old(tag)@.items.push(spec_split_one(item@)[0]) =~= old(tag)@.items
                    + spec_split_one(item@));
            }
        },
    }
}

/// The APE items a unified tag's item list is written as on the write
/// path: pair fields are held back and re-joined into the pair texts
/// appended at the end, under the write-side keys `Track` and `Disk`.
pub open spec fn spec_tagitems_into_ape(t: TagView) -> Seq<ApeItemView> {
    spec_plain_items(t.items) + spec_pair_item(t, KeyView::TrackNumber, KeyView::TrackTotal,
        str_to_bytes("Track"@)) + spec_pair_item(t, KeyView::DiscNumber, KeyView::DiscTotal,
        str_to_bytes("Disk"@))
}

/// The non-pair items, mapped to their native keys in order.
pub open spec fn spec_plain_items(items: Seq<TagItemView>) -> Seq<ApeItemView>
    decreases items.len(),
{
    if items.len() == 0 {
        Seq::empty()
    } else {
        let head = items[0];
        let tail = spec_plain_items(items.drop_first());
        if spec_is_pair_keyview(head.key) {
            tail
        } else {
            match spec_map_key_ape(head.key) {
                Option::Some(kb) => seq![
                    ApeItemView { read_only: false, key: kb, value: head.value },
                ] + tail,
                Option::None => tail,
            }
        }
    }
}

pub open spec fn spec_is_pair_keyview(k: KeyView) -> bool {
    match k {
        KeyView::TrackNumber => true,
        KeyView::TrackTotal => true,
        KeyView::DiscNumber => true,
        KeyView::DiscTotal => true,
        _ => false,
    }
}

/// The one joined pair item for the given keys, if either side is a
/// text item of the tag.
pub open spec fn spec_pair_item(t: TagView, ck: KeyView, tk: KeyView, key: Seq<u8>) -> Seq<
    ApeItemView,
> {
    let cur = spec_first_text(t.items, ck);
    let tot = spec_first_text(t.items, tk);
    match spec_format_pair_text(cur, tot) {
        Option::Some(text) => seq![
            ApeItemView { read_only: false, key, value: ValueView::Text(text) },
        ],
        Option::None => Seq::empty(),
    }
}

proof fn lemma_plain_items_push(items: Seq<TagItemView>, it: TagItemView)
    ensures
        spec_plain_items(items.push(it)) == spec_plain_items(items) + (if spec_is_pair_keyview(
            it.key,
        ) {
            Seq::<ApeItemView>::empty()
        } else {
            match spec_map_key_ape(it.key) {
                Option::Some(kb) => seq![
                    ApeItemView { read_only: false, key: kb, value: it.value },
                ],
                Option::None => Seq::<ApeItemView>::empty(),
            }
        }),
    decreases items.len(),
{
    let p = items.push(it);
    if items.len() == 0 {
        assert(p.drop_first() =~= Seq::<TagItemView>::empty());
        assert(spec_plain_items(Seq::<TagItemView>::empty()) =~= Seq::<ApeItemView>::empty());
        assert(p[0] == it);
        if spec_is_pair_keyview(it.key) {
            assert(spec_plain_items(p) =~= spec_plain_items(items));
        } else {
            match spec_map_key_ape(it.key) {
                Option::Some(kb) => {
                    assert(spec_plain_items(p) =~= spec_plain_items(items) + seq![
                        ApeItemView { read_only: false, key: kb, value: it.value },
                    ]);
                },
                Option::None => {
                    assert(spec_plain_items(p) =~= spec_plain_items(items));
                },
            }
        }
    } else {
        assert(p.drop_first() =~= items.drop_first().push(it));
        lemma_plain_items_push(items.drop_first(), it);
        assert(p[0] == items[0]);
        if spec_is_pair_keyview(it.key) {
            assert(spec_plain_items(p) =~= spec_plain_items(items));
        } else {
            match spec_map_key_ape(it.key) {
                Option::Some(kb) => {
                    assert(spec_plain_items(p) =~= spec_plain_items(items) + seq![
                        ApeItemView { read_only: false, key: kb, value: it.value },
                    ]);
                },
                Option::None => {
                    assert(spec_plain_items(p) =~= spec_plain_items(items));
                },
            }
        }
    }
}

/// Build the APE items a unified tag is written as: the non-pair
/// items in order, then the re-joined `Track` and `Disk` pair texts.
pub fn tagitems_into_ape(tag: &Tag) -> (r: Vec<ApeItem>)
    ensures
        ({
            let s = spec_tagitems_into_ape(tag@);
            r@.len() == s.len() && forall|i: int| 0 <= i < r@.len() ==> #[trigger] r@[i]@ == s[i]
        }),
{
    let mut out: Vec<ApeItem> = Vec::new();
    let ghost outv = Seq::<ApeItemView>::empty();
    let ghost itemsv = tag@.items;
    let ghost n = itemsv.len();
    let mut i: usize = 0;
    proof {
        assert(itemsv.take(0) =~= Seq::<TagItemView>::empty());
        assert(spec_plain_items(Seq::<TagItemView>::empty()) =~= Seq::<ApeItemView>::empty());
    }
    let items_ref = &tag.items;
    while i < items_ref.len()
        invariant
            0 <= i <= n,
            itemsv == tag@.items,
            itemsv.len() == n,
            items_ref@.len() == n,
            forall|j: int| 0 <= j < n ==> #[trigger] items_ref@[j]@ == itemsv[j],
            out@.len() == spec_plain_items(itemsv.take(i as int)).len(),
            forall|j: int|
                0 <= j < out@.len() ==> #[trigger] out@[j]@ == spec_plain_items(
                    itemsv.take(i as int),
                )[j],
        decreases n - i,
    {
        let item = &items_ref[i];
        proof {
            lemma_plain_items_push(itemsv.take(i as int), itemsv[i as int]);
            assert(itemsv.take(i as int).push(itemsv[i as int]) =~= itemsv.take(i + 1));
        }
        if !is_number_pair_key(item.key()) {
            match map_key_ape(item.key()) {
                Some(key) => {
                    out.push(ApeItem::assemble(false, key, item.value().duplicate()));
                },
                None => {},
            }
        }
        proof {
            assert(spec_is_number_pair_key(item.item_key) == spec_is_pair_keyview(
                itemsv[i as int].key,
            ));
        }
        i += 1;
    }
    proof {
        assert(itemsv.take(n as int) =~= itemsv);
    }
    let track_text = crate::pairs::format_pair_text(
        tag.get_string(&ItemKey::TrackNumber),
        tag.get_string(&ItemKey::TrackTotal),
    );
    let ghost before_track = Seq::new(out@.len(), |j: int| out@[j]@);
    match track_text {
        Some(text) => {
            out.push(ApeItem::assemble(false, "Track".to_owned(), ItemValue::Text(text)));
        },
        None => {},
    }
    let disk_text = crate::pairs::format_pair_text(
        tag.get_string(&ItemKey::DiscNumber),
        tag.get_string(&ItemKey::DiscTotal),
    );
    match disk_text {
        Some(text) => {
            out.push(ApeItem::assemble(false, "Disk".to_owned(), ItemValue::Text(text)));
        },
        None => {},
    }
    proof {
        let s = spec_tagitems_into_ape(tag@);
        assert forall|j: int| 0 <= j < out@.len() implies #[trigger] out@[j]@ == s[j] by {}
        assert(out@.len() == s.len());
    }
    out
}

/// The text of the first item under `k`, when that item holds text.
pub open spec fn spec_first_text(items: Seq<TagItemView>, k: KeyView) -> Option<Seq<u8>> {
    let f = crate::model::find_key(items, k);
    if f >= 0 {
        match items[f].value {
            ValueView::Text(b) => Option::Some(b),
            _ => Option::None,
        }
    } else {
        Option::None
    }
}

} // verus!
