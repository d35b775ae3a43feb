//! The APE tag container: an ordered item list whose keys are unique
//! under case-insensitive comparison.

use vstd::prelude::*;
use crate::ape::item::{item_key_ok, ApeItem, ApeItemView};
use crate::model::{ItemValue, ValueView};
use crate::pairs::{spec_format_number_pair, spec_parse_num_pair, spec_parse_year};
use crate::text::{
    eq_ignore_ascii_case, ieq, lemma_ascii_encode, spec_u32_string, str_to_bytes, u32_to_string,
};

verus! {

/// The position of the first item whose key equals `key` up to ASCII
/// case, or -1 when none does.
pub open spec fn ape_find(items: Seq<ApeItemView>, key: Seq<u8>) -> int
    decreases items.len(),
{
    if items.len() == 0 {
        -1
    } else if ieq(items[0].key, key) {
        0
    } else {
        let r = ape_find(items.drop_first(), key);
        if r < 0 {
            -1
        } else {
            r + 1
        }
    }
}

pub proof fn lemma_ape_find(items: Seq<ApeItemView>, key: Seq<u8>)
    ensures
        ape_find(items, key) == -1 ==> forall|i: int|
            0 <= i < items.len() ==> !ieq(items[i].key, key),
        ape_find(items, key) >= 0 ==> 0 <= ape_find(items, key) < items.len() && ieq(
            items[ape_find(items, key)].key,
            key,
        ) && forall|i: int| 0 <= i < ape_find(items, key) ==> !ieq(items[i].key, key),
    decreases items.len(),
{
    if items.len() > 0 && !ieq(items[0].key, key) {
        lemma_ape_find(items.drop_first(), key);
        let t = items.drop_first();
        let r = ape_find(t, key);
        if r == -1 {
            assert forall|i: int| 0 <= i < items.len() implies !ieq(items[i].key, key) by {
                if i > 0 {
                    assert(items[i] == t[i - 1]);
                }
            }
        } else {
            assert(items[r + 1] == t[r]);
            assert forall|i: int| 0 <= i < r + 1 implies !ieq(items[i].key, key) by {
                if i > 0 {
                    assert(items[i] == t[i - 1]);
                }
            }
        }
    }
}

/// The items left when every item keyed `key` (up to ASCII case) is
/// taken out, in their original order.
pub open spec fn ape_removed(items: Seq<ApeItemView>, key: Seq<u8>) -> Seq<ApeItemView>
    decreases items.len(),
{
    if items.len() == 0 {
        Seq::empty()
    } else if ieq(items[0].key, key) {
        ape_removed(items.drop_first(), key)
    } else {
        seq![items[0]] + ape_removed(items.drop_first(), key)
    }
}

/// How removal acts on an item appended at the end.
pub proof fn lemma_ape_removed_push(items: Seq<ApeItemView>, key: Seq<u8>, it: ApeItemView)
    ensures
        ape_removed(items.push(it), key) == (if ieq(it.key, key) {
            ape_removed(items, key)
        } else {
            ape_removed(items, key).push(it)
        }),
    decreases items.len(),
{
    let p = items.push(it);
    if items.len() == 0 {
        assert(p[0] == it);
        assert(p.drop_first() =~= Seq::<ApeItemView>::empty());
        assert(ape_removed(Seq::<ApeItemView>::empty(), key) =~= Seq::<ApeItemView>::empty());
        assert(items =~= Seq::<ApeItemView>::empty());
        if ieq(it.key, key) {
            assert(ape_removed(p, key) =~= ape_removed(items, key));
        } else {
            assert(ape_removed(p, key) =~= seq![it] + Seq::<ApeItemView>::empty());
            assert(ape_removed(p, key) =~= ape_removed(items, key).push(it));
        }
    } else {
        assert(p.drop_first() =~= items.drop_first().push(it));
        lemma_ape_removed_push(items.drop_first(), key, it);
        if ieq(it.key, key) {
            assert(ape_removed(p, key) =~= ape_removed(items, key));
        } else {
            if ieq(items[0].key, key) {
                assert(ape_removed(p, key) =~= ape_removed(items, key).push(it));
            } else {
                assert(seq![items[0]] + ape_removed(items.drop_first(), key).push(it) =~= (
                seq![items[0]] + ape_removed(items.drop_first(), key)).push(it));
                assert(ape_removed(p, key) =~= ape_removed(items, key).push(it));
            }
        }
    }
}

/// Nothing keyed `key` survives removal.
pub proof fn lemma_ape_removed_props(items: Seq<ApeItemView>, key: Seq<u8>)
    ensures
        forall|i: int|
            0 <= i < ape_removed(items, key).len() ==> !ieq(
                #[trigger] ape_removed(items, key)[i].key,
                key,
            ),
        ape_removed(items, key).len() <= items.len(),
    decreases items.len(),
{
    if items.len() > 0 {
        lemma_ape_removed_props(items.drop_first(), key);
        let t = items.drop_first();
        let rt = ape_removed(t, key);
        if !ieq(items[0].key, key) {
            let r = ape_removed(items, key);
            assert forall|i: int| 0 <= i < r.len() implies !ieq(r[i].key, key) by {
                if i > 0 {
                    assert(r[i] == rt[i - 1]);
                }
            }
        }
    }
}

/// Inserting replaces anything under the item's key and appends.
pub open spec fn spec_insert(items: Seq<ApeItemView>, it: ApeItemView) -> Seq<ApeItemView> {
    ape_removed(items, it.key).push(it)
}

/// An APE tag: a read-only mark and the items, in insertion order.
#[derive(Clone, Debug, PartialEq, Eq)]
pub struct ApeTag {
    /// Whether the whole tag is marked read only when written.
    pub read_only: bool,
    pub(crate) items: Vec<ApeItem>,
}

pub struct ApeTagView {
    pub read_only: bool,
    pub items: Seq<ApeItemView>,
}

impl View for ApeTag {
    type V = ApeTagView;

    closed spec fn view(&self) -> ApeTagView {
        ApeTagView {
            read_only: self.read_only,
            items: Seq::new(self.items@.len(), |i: int| self.items@[i]@),
        }
    }
}

impl ApeTagView {
    /// A well-formed tag holds only items with usable keys.
    pub open spec fn wf(self) -> bool {
        forall|i: int| 0 <= i < self.items.len() ==> (#[trigger] self.items[i]).wf()
    }
}

impl ApeTag {
    /// Create a new empty tag.
    pub fn new() -> (r: ApeTag)
        ensures
            r@.read_only == false,
            r@.items.len() == 0,
    {
        ApeTag { read_only: false, items: Vec::new() }
    }

    /// Get an item by key; the search ignores ASCII case, since the
    /// format's case-sensitivity rule is rarely followed in the wild.
    pub fn get(&self, key: &str) -> (r: Option<&ApeItem>)
        ensures
            ({
                let f = ape_find(self@.items, str_to_bytes(key@));
                &&& f < 0 <==> r is None
                &&& f >= 0 ==> r is Some && r->0@ == self@.items[f]
            }),
    {
        let kb = key.as_bytes();
        let mut i: usize = 0;
        while i < self.items.len()
            invariant
                0 <= i <= self@.items.len(),
                kb@ == str_to_bytes(key@),
                forall|j: int| 0 <= j < i ==> !ieq(self@.items[j].key, kb@),
            decreases self@.items.len() - i,
        {
            let it = &self.items[i];
            if eq_ignore_ascii_case(it.key().as_bytes(), kb) {
                proof {
                    lemma_ape_find(self@.items, kb@);
                    let f = ape_find(self@.items, kb@);
                    assert(ieq(self@.items[i as int].key, kb@));
                    if f == -1 {
                        assert(!ieq(self@.items[i as int].key, kb@));
                    } else if f < i {
                        assert(!ieq(self@.items[f].key, kb@));
                        assert(ieq(self@.items[f].key, kb@));
                    } else if f > i {
                        assert(!ieq(self@.items[i as int].key, kb@));
                    }
                }
                return Some(it);
            }
            i += 1;
        }
        proof {
            lemma_ape_find(self@.items, kb@);
        }
        None
    }

    /// Whether some item is stored under `key`, ignoring ASCII case.
    pub fn contains(&self, key: &str) -> (r: bool)
        ensures
            r == (ape_find(self@.items, str_to_bytes(key@)) >= 0),
    {
        self.get(key).is_some()
    }

    /// Remove every item under `key`, ignoring ASCII case.
    pub fn remove(&mut self, key: &str)
        ensures
            final(self)@.read_only == old(self)@.read_only,
            final(self)@.items == ape_removed(old(self)@.items, str_to_bytes(key@)),
    {
        let kb = key.as_bytes();
        let ghost orig = self@.items;
        let mut rest = self.items.split_off(0);
        let ghost n = orig.len();
        proof {
            assert(orig.take(0) =~= Seq::<ApeItemView>::empty());
            assert(self@.items =~= Seq::<ApeItemView>::empty());
        }
        while rest.len() > 0
            invariant
                rest@.len() <= n,
                kb@ == str_to_bytes(key@),
                orig.len() == n,
                forall|i: int|
                    0 <= i < rest@.len() ==> #[trigger] rest@[i]@ == orig[n - rest@.len() + i],
                self.read_only == old(self).read_only,
                self@.items =~= ape_removed(orig.take(n - rest@.len()), kb@),
            decreases rest@.len(),
        {
            let ghost k = n - rest@.len();
            let it = rest.remove(0);
            proof {
                assert(it@ == orig[k]);
                lemma_ape_removed_push(orig.take(k), kb@, orig[k]);
                assert(orig.take(k).push(orig[k]) =~= orig.take(k + 1));
            }
            if !eq_ignore_ascii_case(it.key().as_bytes(), kb) {
                self.items.push(it);
            }
            proof {
                assert(self@.items =~= ape_removed(orig.take(k + 1), kb@));
            }
        }
        proof {
            assert(orig.take(n as int) =~= orig);
        }
    }

    /// Insert an item, first removing whatever shares its key up to
    /// ASCII case.
    pub fn insert(&mut self, value: ApeItem)
        ensures
            final(self)@.read_only == old(self)@.read_only,
            final(self)@.items == spec_insert(old(self)@.items, value@),
    {
        let removed_key = value.key();
        let ghost kb = str_to_bytes(removed_key@);
        let kcopy = removed_key.to_owned();
        self.remove(kcopy.as_str());
        self.items.push(value);
        proof {
            assert(self@.items =~= ape_removed(old(self)@.items, value@.key).push(value@));
        }
    }

    /// The number of items in the tag.
    pub fn len(&self) -> (r: usize)
        ensures
            r == self@.items.len(),
    {
        self.items.len()
    }

    pub fn is_empty(&self) -> (r: bool)
        ensures
            r == (self@.items.len() == 0),
    {
        self.items.len() == 0
    }

    /// Drop every item, keeping the read-only mark.
    pub fn clear(&mut self)
        ensures
            final(self)@.read_only == old(self)@.read_only,
            final(self)@.items.len() == 0,
    {
        self.items.clear();
    }

    /// The items in storage order; the tag's contents for callers that
    /// walk it.
    pub fn items(&self) -> (r: &Vec<ApeItem>)
        ensures
            r@.len() == self@.items.len(),
            forall|i: int| 0 <= i < r@.len() ==> r@[i]@ == self@.items[i],
    {
        &self.items
    }
}

/// A fresh text item as the pair accessors create it.
pub open spec fn text_item(key: Seq<u8>, value: Seq<u8>) -> ApeItemView {
    ApeItemView { read_only: false, key, value: ValueView::Text(value) }
}

/// The `current` and `total` numbers stored in the pair text under
/// `key`; both absent when no text item is stored there.
pub open spec fn spec_num_pair(items: Seq<ApeItemView>, key: Seq<u8>) -> (Option<u32>, Option<
    u32,
>) {
    let f = ape_find(items, key);
    if f >= 0 {
        match items[f].value {
            ValueView::Text(b) => spec_parse_num_pair(b),
            _ => (Option::None, Option::None),
        }
    } else {
        (Option::None, Option::None)
    }
}

/// Setting the `current` side formats it with the total already stored.
pub open spec fn spec_set_number(items: Seq<ApeItemView>, key: Seq<u8>, n: u32) -> Seq<
    ApeItemView,
> {
    spec_insert(
        items,
        text_item(
            key,
            spec_format_number_pair(Option::Some(n), spec_num_pair(items, key).1)->0,
        ),
    )
}

/// Setting the `total` side formats it with the current already stored.
pub open spec fn spec_set_total(items: Seq<ApeItemView>, key: Seq<u8>, t: u32) -> Seq<
    ApeItemView,
> {
    spec_insert(
        items,
        text_item(
            key,
            spec_format_number_pair(spec_num_pair(items, key).0, Option::Some(t))->0,
        ),
    )
}

/// The year stored under `key`, read from the first four bytes of its
/// text.
pub open spec fn spec_year(items: Seq<ApeItemView>, key: Seq<u8>) -> Option<u32> {
    let f = ape_find(items, key);
    if f >= 0 {
        match items[f].value {
            ValueView::Text(b) => spec_parse_year(b),
            _ => Option::None,
        }
    } else {
        Option::None
    }
}

/// The keys the pair and year accessors use are usable item keys.
pub proof fn lemma_accessor_keys_ok()
    ensures
        item_key_ok(str_to_bytes("Track"@)),
        item_key_ok(str_to_bytes("Disc"@)),
        item_key_ok(str_to_bytes("Disk"@)),
        item_key_ok(str_to_bytes("Year"@)),
{
    reveal_strlit("Track");
    reveal_strlit("Disc");
    reveal_strlit("Disk");
    reveal_strlit("Year");
    lemma_ascii_encode("Track"@);
    lemma_ascii_encode("Disc"@);
    lemma_ascii_encode("Disk"@);
    lemma_ascii_encode("Year"@);
    assert(str_to_bytes("Disc"@)[0] as u32 == 'D' as u32);
    assert(str_to_bytes("Disk"@)[0] as u32 == 'D' as u32);
    assert(str_to_bytes("Year"@)[0] as u32 == 'Y' as u32);
}

impl ApeTag {
    /// The two numbers of the pair text stored under `key`.
    pub fn split_num_pair(&self, key: &str) -> (r: (Option<u32>, Option<u32>))
        ensures
            r == spec_num_pair(self@.items, str_to_bytes(key@)),
    {
        match self.get(key) {
            Some(item) => match item.value() {
                ItemValue::Text(s) => crate::pairs::parse_num_pair(s.as_str().as_bytes()),
                _ => (None, None),
            },
            None => (None, None),
        }
    }

    /// Store a number pair under `key`, replacing what was there; when
    /// both sides are absent nothing is stored and the tag is left
    /// unchanged.
    pub fn insert_number_pair(&mut self, key: &str, number: Option<u32>, total: Option<u32>)
        requires
            item_key_ok(str_to_bytes(key@)),
        ensures
            final(self)@.read_only == old(self)@.read_only,
            final(self)@.items == (match spec_format_number_pair(number, total) {
                Option::Some(text) => spec_insert(
                    old(self)@.items,
                    text_item(str_to_bytes(key@), text),
                ),
                Option::None => old(self)@.items,
            }),
    {
        match crate::pairs::format_number_pair(number, total) {
            Some(value) => {
                self.insert(ApeItem::text(key, value));
            },
            None => {},
        }
    }

    pub fn track(&self) -> (r: Option<u32>)
        ensures
            r == spec_num_pair(self@.items, str_to_bytes("Track"@)).0,
    {
        self.split_num_pair("Track").0
    }

    pub fn track_total(&self) -> (r: Option<u32>)
        ensures
            r == spec_num_pair(self@.items, str_to_bytes("Track"@)).1,
    {
        self.split_num_pair("Track").1
    }

    pub fn set_track(&mut self, value: u32)
        ensures
            final(self)@.read_only == old(self)@.read_only,
            final(self)@.items == spec_set_number(
                old(self)@.items,
                str_to_bytes("Track"@),
                value,
            ),
    {
        proof {
            lemma_accessor_keys_ok();
        }
        let total = self.track_total();
        self.insert_number_pair("Track", Some(value), total);
    }

    pub fn set_track_total(&mut self, value: u32)
        ensures
            final(self)@.read_only == old(self)@.read_only,
            final(self)@.items == spec_set_total(old(self)@.items, str_to_bytes("Track"@), value),
    {
        proof {
            lemma_accessor_keys_ok();
        }
        let number = self.track();
        self.insert_number_pair("Track", number, Some(value));
    }

    pub fn remove_track(&mut self)
        ensures
            final(self)@.read_only == old(self)@.read_only,
            final(self)@.items == ape_removed(old(self)@.items, str_to_bytes("Track"@)),
    {
        self.remove("Track");
    }

    /// Drop the total while keeping a previously set track number.
    pub fn remove_track_total(&mut self)
        ensures
            final(self)@.read_only == old(self)@.read_only,
            final(self)@.items == (match spec_num_pair(
                old(self)@.items,
                str_to_bytes("Track"@),
            ).0 {
                Option::Some(n) => spec_insert(
                    ape_removed(old(self)@.items, str_to_bytes("Track"@)),
                    text_item(str_to_bytes("Track"@), spec_u32_string(n)),
                ),
                Option::None => ape_removed(old(self)@.items, str_to_bytes("Track"@)),
            }),
    {
        let existing = self.track();
        self.remove("Track");
        if let Some(track) = existing {
            proof {
                lemma_accessor_keys_ok();
            }
            self.insert(ApeItem::text("Track", u32_to_string(track)));
        }
    }

    pub fn disk(&self) -> (r: Option<u32>)
        ensures
            r == spec_num_pair(self@.items, str_to_bytes("Disc"@)).0,
    {
        self.split_num_pair("Disc").0
    }

    pub fn disk_total(&self) -> (r: Option<u32>)
        ensures
            r == spec_num_pair(self@.items, str_to_bytes("Disc"@)).1,
    {
        self.split_num_pair("Disc").1
    }

    pub fn set_disk(&mut self, value: u32)
        ensures
            final(self)@.read_only == old(self)@.read_only,
            final(self)@.items == spec_set_number(old(self)@.items, str_to_bytes("Disc"@), value),
    {
        proof {
            lemma_accessor_keys_ok();
        }
        let total = self.disk_total();
        self.insert_number_pair("Disc", Some(value), total);
    }

    pub fn set_disk_total(&mut self, value: u32)
        ensures
            final(self)@.read_only == old(self)@.read_only,
            final(self)@.items == spec_set_total(old(self)@.items, str_to_bytes("Disc"@), value),
    {
        proof {
            lemma_accessor_keys_ok();
        }
        let number = self.disk();
        self.insert_number_pair("Disc", number, Some(value));
    }

    pub fn remove_disk(&mut self)
        ensures
            final(self)@.read_only == old(self)@.read_only,
            final(self)@.items == ape_removed(old(self)@.items, str_to_bytes("Disc"@)),
    {
        self.remove("Disc");
    }

    /// Drop the disc total while keeping a previously set disc number.
    pub fn remove_disk_total(&mut self)
        ensures
            final(self)@.read_only == old(self)@.read_only,
            final(self)@.items == (match spec_num_pair(old(self)@.items, str_to_bytes("Disc"@)).0 {
                Option::Some(n) => spec_insert(
                    ape_removed(old(self)@.items, str_to_bytes("Disc"@)),
                    text_item(str_to_bytes("Disc"@), spec_u32_string(n)),
                ),
                Option::None => ape_removed(old(self)@.items, str_to_bytes("Disc"@)),
            }),
    {
        let existing = self.disk();
        self.remove("Disc");
        if let Some(disk) = existing {
            proof {
                lemma_accessor_keys_ok();
            }
            self.insert(ApeItem::text("Disc", u32_to_string(disk)));
        }
    }

    pub fn year(&self) -> (r: Option<u32>)
        ensures
            r == spec_year(self@.items, str_to_bytes("Year"@)),
    {
        match self.get("Year") {
            Some(item) => match item.value() {
                ItemValue::Text(s) => crate::pairs::try_parse_year(s.as_str()),
                _ => None,
            },
            None => None,
        }
    }

    pub fn set_year(&mut self, value: u32)
        ensures
            final(self)@.read_only == old(self)@.read_only,
            final(self)@.items == spec_insert(
                old(self)@.items,
                text_item(str_to_bytes("Year"@), spec_u32_string(value)),
            ),
    {
        proof {
            lemma_accessor_keys_ok();
        }
        self.insert(ApeItem::text("Year", u32_to_string(value)));
    }

    pub fn remove_year(&mut self)
        ensures
            final(self)@.read_only == old(self)@.read_only,
            final(self)@.items == ape_removed(old(self)@.items, str_to_bytes("Year"@)),
    {
        self.remove("Year");
    }
}

pub proof fn lemma_ieq_sym(a: Seq<u8>, b: Seq<u8>)
    requires
        ieq(a, b),
    ensures
        ieq(b, a),
{
}

pub proof fn lemma_ieq_trans(a: Seq<u8>, b: Seq<u8>, c: Seq<u8>)
    requires
        ieq(a, b),
        ieq(b, c),
    ensures
        ieq(a, c),
{
}

/// Keys are identical up to ASCII case: after an item is inserted, a
/// lookup under any ASCII casing of its key finds exactly the inserted
/// item, and no other item under that key remains in the tag.
pub proof fn lemma_case_insensitive_key_identity(
    items: Seq<ApeItemView>,
    it: ApeItemView,
    probe: Seq<u8>,
)
    requires
        ieq(probe, it.key),
    ensures
        ({
            let after = spec_insert(items, it);
            &&& after.len() >= 1
            &&& ape_find(after, probe) == after.len() - 1
            &&& after[after.len() - 1] == it
            &&& forall|j: int| 0 <= j < after.len() - 1 ==> !ieq(#[trigger] after[j].key, probe)
        }),
{
    let removed = ape_removed(items, it.key);
    lemma_ape_removed_props(items, it.key);
    let after = spec_insert(items, it);
    assert forall|j: int| 0 <= j < after.len() - 1 implies !ieq(#[trigger] after[j].key, probe) by {
        assert(after[j] == removed[j]);
        assert(!ieq(removed[j].key, it.key));
        if ieq(after[j].key, probe) {
            lemma_ieq_trans(after[j].key, probe, it.key);
        }
    }
    lemma_ieq_sym(probe, it.key);
    lemma_ieq_sym(it.key, probe);
    assert(after[after.len() - 1] == it);
    lemma_ape_find(after, probe);
    let f = ape_find(after, probe);
    if f == -1 {
        assert(!ieq(after[after.len() - 1].key, probe));
        assert(false);
    } else if f < after.len() - 1 {
        assert(!ieq(after[f].key, probe));
        assert(false);
    }
}

/// Setting the current number stores it and keeps the total already
/// stored under the key.
pub proof fn lemma_pair_set_number(items: Seq<ApeItemView>, key: Seq<u8>, n: u32)
    ensures
        spec_num_pair(spec_set_number(items, key, n), key) == (
            Option::Some(n),
            spec_num_pair(items, key).1,
        ),
{
    let total = spec_num_pair(items, key).1;
    let text = spec_format_number_pair(Option::Some(n), total)->0;
    let it = text_item(key, text);
    lemma_case_insensitive_key_identity(items, it, key);
    let after = spec_set_number(items, key, n);
    lemma_ape_find(after, key);
    crate::pairs::lemma_num_pair_round_trip(Option::Some(n), total);
}

/// Setting the total stores it and keeps the current number already
/// stored, a missing one defaulting to zero.
pub proof fn lemma_pair_set_total(items: Seq<ApeItemView>, key: Seq<u8>, t: u32)
    ensures
        spec_num_pair(spec_set_total(items, key, t), key) == (
            Option::Some(
                match spec_num_pair(items, key).0 {
                    Option::Some(v) => v,
                    Option::None => crate::pairs::DEFAULT_NUMBER_IN_PAIR,
                },
            ),
            Option::Some(t),
        ),
{
    let number = spec_num_pair(items, key).0;
    let text = spec_format_number_pair(number, Option::Some(t))->0;
    let it = text_item(key, text);
    lemma_case_insensitive_key_identity(items, it, key);
    let after = spec_set_total(items, key, t);
    lemma_ape_find(after, key);
    crate::pairs::lemma_num_pair_round_trip(number, Option::Some(t));
}

/// Dropping the total keeps a previously set current number readable
/// and leaves no total behind.
pub proof fn lemma_pair_remove_total(items: Seq<ApeItemView>, key: Seq<u8>)
    ensures
        ({
            let cur = spec_num_pair(items, key).0;
            let after = match cur {
                Option::Some(n) => spec_insert(
                    ape_removed(items, key),
                    text_item(key, spec_u32_string(n)),
                ),
                Option::None => ape_removed(items, key),
            };
            spec_num_pair(after, key) == (cur, Option::<u32>::None)
        }),
{
    let cur = spec_num_pair(items, key).0;
    let removed = ape_removed(items, key);
    lemma_ape_removed_props(items, key);
    match cur {
        Option::Some(n) => {
            let it = text_item(key, spec_u32_string(n));
            lemma_case_insensitive_key_identity(removed, it, key);
            let after = spec_insert(removed, it);
            lemma_ape_find(after, key);
            crate::pairs::lemma_num_pair_round_trip(Option::Some(n), Option::None);
        },
        Option::None => {
            lemma_ape_find(removed, key);
            let f = ape_find(removed, key);
            if f >= 0 {
                assert(!ieq(removed[f].key, key));
            }
        },
    }
}

impl ApeTag {
    /// Serialize this tag and append its complete byte image to
    /// `writer`; a tag whose items overflow the envelope's 32-bit size
    /// fields is refused and `writer` is left unchanged.
    pub fn dump_to(&self, writer: &mut Vec<u8>) -> (r: Result<(), crate::TagError>)
        ensures
            r is Ok <==> crate::ape::write::spec_sizes_ok(self@.items),
            r is Ok ==> final(writer)@ == old(writer)@ + crate::ape::write::spec_tag_bytes(self@),
            r is Err ==> final(writer)@ == old(writer)@,
    {
        let r = crate::ape::write::ApeTagRef {
            read_only: self.read_only,
            items: self.items.as_slice(),
        };
        proof {
            assert(r.view_items() =~= self@.items);
            assert(ApeTagView { read_only: self.read_only, items: r.view_items() } == self@);
        }
        r.dump_to(writer)
    }
}

impl ApeTag {
    /// Take the tag apart into its read-only mark and its items.
    pub(crate) fn into_parts(self) -> (r: (bool, Vec<ApeItem>))
        ensures
            r.0 == self@.read_only,
            r.1@.len() == self@.items.len(),
            forall|i: int| 0 <= i < r.1@.len() ==> r.1@[i]@ == self@.items[i],
    {
        (self.read_only, self.items)
    }

    /// An empty tag carrying the given read-only mark.
    pub(crate) fn empty_with_read_only(read_only: bool) -> (r: ApeTag)
        ensures
            r@.read_only == read_only,
            r@.items.len() == 0,
    {
        ApeTag { read_only, items: Vec::new() }
    }
}

impl Default for ApeTag {
    /// An empty tag, not marked read only.
    fn default() -> (r: ApeTag)
        ensures
            r@.read_only == false,
            r@.items.len() == 0,
    {
        ApeTag::new()
    }
}

} // verus!
