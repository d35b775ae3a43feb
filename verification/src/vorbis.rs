//! The Vorbis Comment tag: a vendor string and a list of length-
//! prefixed `KEY=value` entries, as embedded in a FLAC metadata
//! block.

use vstd::prelude::*;
use vstd::utf8::valid_utf8;
use crate::{ParsingMode, TagError};
use crate::bytes::{extend_bytes, push_u32_le, read_u32_le, spec_u32_le, spec_u32_le_bytes};
use crate::text::{lemma_decode_encode, str_to_bytes, utf8_decode};

verus! {

/// A parsed Vorbis Comment tag.  Unlike the other formats, duplicate
/// keys are legal here, so entries are kept exactly in order.
#[derive(Clone, Debug, PartialEq, Eq)]
pub struct VorbisComments {
    pub(crate) vendor: String,
    pub(crate) items: Vec<(String, String)>,
}

pub struct VorbisCommentsView {
    pub vendor: Seq<u8>,
    pub items: Seq<(Seq<u8>, Seq<u8>)>,
}

impl View for VorbisComments {
    type V = VorbisCommentsView;

    closed spec fn view(&self) -> VorbisCommentsView {
        VorbisCommentsView {
            vendor: str_to_bytes(self.vendor@),
            items: Seq::new(
                self.items@.len(),
                |i: int| (str_to_bytes(self.items@[i].0@), str_to_bytes(self.items@[i].1@)),
            ),
        }
    }
}

/// The position of the first `=` in `s`, or -1.
pub open spec fn spec_find_eq(s: Seq<u8>, from: int) -> int
    decreases s.len() - from,
{
    if from < 0 || from >= s.len() {
        -1
    } else if s[from] == 0x3d {
        from
    } else {
        spec_find_eq(s, from + 1)
    }
}

pub proof fn lemma_find_eq(s: Seq<u8>, from: int)
    requires
        0 <= from,
    ensures
        spec_find_eq(s, from) >= -1,
        spec_find_eq(s, from) == -1 ==> forall|i: int| from <= i < s.len() ==> s[i] != 0x3d,
        spec_find_eq(s, from) >= 0 ==> from <= spec_find_eq(s, from) < s.len() && s[spec_find_eq(
            s,
            from,
        )] == 0x3d && forall|i: int| from <= i < spec_find_eq(s, from) ==> s[i] != 0x3d,
    decreases s.len() - from,
{
    if from < s.len() && s[from] != 0x3d {
        lemma_find_eq(s, from + 1);
    }
}

fn find_eq(s: &[u8]) -> (r: Option<usize>)
    ensures
        r is None <==> spec_find_eq(s@, 0) == -1,
        r is Some ==> r->0 == spec_find_eq(s@, 0),
{
    let mut k: usize = 0;
    proof {
        lemma_find_eq(s@, 0);
    }
    while k < s.len()
        invariant
            0 <= k,
            forall|i: int| 0 <= i < k ==> s@[i] != 0x3d,
        decreases s@.len() - k,
    {
        if s[k] == 0x3d {
            proof {
                lemma_find_eq(s@, 0);
                let f = spec_find_eq(s@, 0);
                if f == -1 {
                    assert(s@[k as int] != 0x3d);
                } else if f < k {
                    assert(s@[f] != 0x3d);
                } else if f > k {
                    assert(s@[k as int] != 0x3d);
                }
            }
            return Some(k);
        }
        k += 1;
    }
    proof {
        lemma_find_eq(s@, 0);
        let f = spec_find_eq(s@, 0);
        if f >= 0 {
            assert(s@[f] != 0x3d);
        }
    }
    None
}

/// One pass of the entry loop: each well-formed `KEY=value` entry is
/// appended; a malformed one stops a strict parse and is skipped by a
/// relaxed one.
pub open spec fn spec_read_entries(
    d: Seq<u8>,
    pos: int,
    count: nat,
    mode: ParsingMode,
    acc: Seq<(Seq<u8>, Seq<u8>)>,
) -> Result<Seq<(Seq<u8>, Seq<u8>)>, TagError>
    decreases count,
{
    if count == 0 {
        Result::Ok(acc)
    } else if pos + 4 > d.len() {
        Result::Err(TagError::Truncated)
    } else {
        let el = spec_u32_le(d.subrange(pos, pos + 4));
        if pos + 4 + el > d.len() {
            Result::Err(TagError::Truncated)
        } else {
            let entry = d.subrange(pos + 4, pos + 4 + el);
            let next = pos + 4 + el;
            let f = spec_find_eq(entry, 0);
            if f < 0 {
                if mode == ParsingMode::Strict {
                    Result::Err(TagError::Decode)
                } else {
                    spec_read_entries(d, next, (count - 1) as nat, mode, acc)
                }
            } else {
                let key = entry.take(f);
                let value = entry.skip(f + 1);
                if !valid_utf8(key) || !valid_utf8(value) {
                    if mode == ParsingMode::Strict {
                        Result::Err(TagError::Decode)
                    } else {
                        spec_read_entries(d, next, (count - 1) as nat, mode, acc)
                    }
                } else {
                    spec_read_entries(d, next, (count - 1) as nat, mode, acc.push((key, value)))
                }
            }
        }
    }
}

/// What parsing a Vorbis Comment block yields: the vendor string,
/// then the declared number of entries.
pub open spec fn spec_read_comments(d: Seq<u8>, mode: ParsingMode) -> Result<
    VorbisCommentsView,
    TagError,
> {
    if 4 > d.len() {
        Result::Err(TagError::Truncated)
    } else {
        let vl = spec_u32_le(d.subrange(0, 4));
        if 4 + vl > d.len() {
            Result::Err(TagError::Truncated)
        } else {
            let vendor = d.subrange(4, 4 + vl);
            if !valid_utf8(vendor) {
                Result::Err(TagError::Decode)
            } else if 4 + vl + 4 > d.len() {
                Result::Err(TagError::Truncated)
            } else {
                let count = spec_u32_le(d.subrange(4 + vl, 4 + vl + 4));
                match spec_read_entries(d, 4 + vl + 4, count as nat, mode, Seq::empty()) {
                    Result::Ok(items) => Result::Ok(VorbisCommentsView { vendor, items }),
                    Result::Err(e) => Result::Err(e),
                }
            }
        }
    }
}

/// Parse the payload of a Vorbis Comment block.
pub fn read_comments(data: &[u8], parse_mode: ParsingMode) -> (r: Result<
    VorbisComments,
    TagError,
>)
    ensures
        ({
            let s = spec_read_comments(data@, parse_mode);
            match r {
                Result::Ok(c) => s is Ok && c@.vendor == s->Ok_0.vendor && c@.items
                    == s->Ok_0.items,
                Result::Err(e) => s == Result::<VorbisCommentsView, TagError>::Err(e),
            }
        }),
{
    let vl = match read_u32_le(data, 0) {
        Some(v) => v,
        None => {
            return Err(TagError::Truncated);
        },
    };
    if (data.len() - 4) < vl as usize {
        return Err(TagError::Truncated);
    }
    let vendor_slice = vstd::slice::slice_subrange(data, 4, 4 + vl as usize);
    let vendor = match utf8_decode(vstd::slice::slice_to_vec(vendor_slice)) {
        Some(s) => s,
        None => {
            return Err(TagError::Decode);
        },
    };
    proof {
        lemma_decode_encode(data@.subrange(4, 4 + vl as int));
    }
    let cpos = 4 + vl as usize;
    let count = match read_u32_le(data, cpos) {
        Some(v) => v,
        None => {
            return Err(TagError::Truncated);
        },
    };
    let mut items: Vec<(String, String)> = Vec::new();
    let mut p: usize = cpos + 4;
    let mut done: u32 = 0;
    let ghost itemsv = Seq::<(Seq<u8>, Seq<u8>)>::empty();
    proof {
        assert(Seq::new(items@.len(), |i: int| (str_to_bytes(items@[i].0@), str_to_bytes(
            items@[i].1@))) =~= Seq::<(Seq<u8>, Seq<u8>)>::empty());
    }
    proof {
        assert(str_to_bytes(vendor@) == data@.subrange(4, 4 + vl as int));
    }
    while done < count
        invariant
            done <= count,
            items@.len() == itemsv.len(),
            forall|i: int|
                0 <= i < itemsv.len() ==> #[trigger] itemsv[i] == (str_to_bytes(items@[i].0@),
                str_to_bytes(items@[i].1@)),
            spec_read_comments(data@, parse_mode) == (match spec_read_entries(
                data@,
                p as int,
                (count - done) as nat,
                parse_mode,
                itemsv,
            ) {
                Result::Ok(its) => Result::<VorbisCommentsView, TagError>::Ok(
                    VorbisCommentsView { vendor: str_to_bytes(vendor@), items: its },
                ),
                Result::Err(e) => Result::<VorbisCommentsView, TagError>::Err(e),
            }),
        decreases count - done,
    {
        let el = match read_u32_le(data, p) {
            Some(v) => v,
            None => {
                return Err(TagError::Truncated);
            },
        };
        if (data.len() - (p + 4)) < el as usize {
            return Err(TagError::Truncated);
        }
        let estart = p + 4;
        let eend = estart + el as usize;
        let entry = vstd::slice::slice_subrange(data, estart, eend);
        let next = eend;
        match find_eq(entry) {
            None => {
                if matches!(parse_mode, ParsingMode::Strict) {
                    return Err(TagError::Decode);
                }
            },
            Some(f) => {
                proof {
                    lemma_find_eq(entry@, 0);
                }
                let key_slice = vstd::slice::slice_subrange(entry, 0, f);
                let val_slice = vstd::slice::slice_subrange(entry, f + 1, entry.len());
                proof {
                    assert(key_slice@ =~= entry@.take(f as int));
                    assert(val_slice@ =~= entry@.skip(f + 1));
                }
                let key = utf8_decode(vstd::slice::slice_to_vec(key_slice));
                let value = utf8_decode(vstd::slice::slice_to_vec(val_slice));
                match (key, value) {
                    (Some(k), Some(v)) => {
                        proof {
                            lemma_decode_encode(entry@.take(f as int));
                            lemma_decode_encode(entry@.skip(f + 1));
                            itemsv = itemsv.push((entry@.take(f as int), entry@.skip(f + 1)));
                        }
                        items.push((k, v));
                    },
                    _ => {
                        if matches!(parse_mode, ParsingMode::Strict) {
                            return Err(TagError::Decode);
                        }
                    },
                }
            },
        }
        p = next;
        done = done + 1;
    }
    let c = VorbisComments { vendor, items };
    proof {
        assert(c@.items =~= itemsv);
    }
    Ok(c)
}

impl VorbisComments {
    /// An empty tag with the given vendor string.
    pub fn new(vendor: String) -> (r: VorbisComments)
        ensures
            r@.vendor == str_to_bytes(vendor@),
            r@.items.len() == 0,
    {
        let r = VorbisComments { vendor, items: Vec::new() };
        proof {
            assert(r@.items =~= Seq::<(Seq<u8>, Seq<u8>)>::empty());
        }
        r
    }

    pub fn vendor(&self) -> (r: &str)
        ensures
            str_to_bytes(r@) == self@.vendor,
    {
        self.vendor.as_str()
    }

    /// The entries, in storage order.
    pub fn items(&self) -> (r: &Vec<(String, String)>)
        ensures
            r@.len() == self@.items.len(),
            forall|i: int|
                0 <= i < r@.len() ==> #[trigger] self@.items[i] == (str_to_bytes(r@[i].0@),
                str_to_bytes(r@[i].1@)),
    {
        &self.items
    }

    /// Append an entry; duplicate keys are legal and kept.
    pub fn push_item(&mut self, key: String, value: String)
        ensures
            final(self)@.vendor == old(self)@.vendor,
            final(self)@.items =~= old(self)@.items.push(
                (str_to_bytes(key@), str_to_bytes(value@)),
            ),
    {
        self.items.push((key, value));
        proof {
            assert(self@.items =~= old(self)@.items.push(
                (str_to_bytes(self.items@[self.items@.len() - 1].0@), str_to_bytes(
                    self.items@[self.items@.len() - 1].1@)),
            ));
        }
    }

    /// The number of entries.
    pub fn len(&self) -> (r: usize)
        ensures
            r == self@.items.len(),
    {
        self.items.len()
    }
}

/// The byte image of one entry list.
pub open spec fn spec_entries_bytes(items: Seq<(Seq<u8>, Seq<u8>)>) -> Seq<u8>
    decreases items.len(),
{
    if items.len() == 0 {
        Seq::empty()
    } else {
        let e = items[0].0 + seq![0x3du8] + items[0].1;
        spec_u32_le_bytes(e.len() as u32) + e + spec_entries_bytes(items.drop_first())
    }
}

/// The complete byte image of a Vorbis Comment tag.
pub open spec fn spec_comments_bytes(c: VorbisCommentsView) -> Seq<u8> {
    spec_u32_le_bytes(c.vendor.len() as u32) + c.vendor + spec_u32_le_bytes(c.items.len() as u32)
        + spec_entries_bytes(c.items)
}

/// Whether the tag fits its 32-bit length fields.
pub open spec fn spec_comments_sizes_ok(c: VorbisCommentsView) -> bool {
    &&& c.vendor.len() <= u32::MAX
    &&& c.items.len() <= u32::MAX
    &&& forall|i: int|
        0 <= i < c.items.len() ==> (#[trigger] c.items[i]).0.len() + c.items[i].1.len() + 1
            <= u32::MAX
}

proof fn lemma_entries_bytes_push(items: Seq<(Seq<u8>, Seq<u8>)>, it: (Seq<u8>, Seq<u8>))
    ensures
        spec_entries_bytes(items.push(it)) == spec_entries_bytes(items) + (spec_u32_le_bytes(
            (it.0 + seq![0x3du8] + it.1).len() as u32,
        ) + (it.0 + seq![0x3du8] + it.1)),
    decreases items.len(),
{
    let p = items.push(it);
    if items.len() == 0 {
        assert(p.drop_first() =~= Seq::<(Seq<u8>, Seq<u8>)>::empty());
        assert(spec_entries_bytes(Seq::<(Seq<u8>, Seq<u8>)>::empty()) =~= Seq::<u8>::empty());
        assert(p[0] == it);
        assert(spec_entries_bytes(p) =~= spec_entries_bytes(items) + (spec_u32_le_bytes(
            (it.0 + seq![0x3du8] + it.1).len() as u32,
        ) + (it.0 + seq![0x3du8] + it.1)));
    } else {
        assert(p.drop_first() =~= items.drop_first().push(it));
        lemma_entries_bytes_push(items.drop_first(), it);
        assert(spec_entries_bytes(p) =~= spec_entries_bytes(items) + (spec_u32_le_bytes(
            (it.0 + seq![0x3du8] + it.1).len() as u32,
        ) + (it.0 + seq![0x3du8] + it.1)));
    }
}

impl VorbisComments {
    /// Serialize the tag into the payload of a Vorbis Comment block;
    /// a tag that overflows the 32-bit length fields is refused.
    pub fn as_bytes(&self) -> (r: Result<Vec<u8>, TagError>)
        ensures
            r is Ok <==> spec_comments_sizes_ok(self@),
            r is Ok ==> r->Ok_0@ == spec_comments_bytes(self@),
    {
        let vb = self.vendor.as_str().as_bytes();
        if vb.len() > u32::MAX as usize || self.items.len() > u32::MAX as usize {
            return Err(TagError::SizeMismatch);
        }
        let mut out: Vec<u8> = Vec::new();
        push_u32_le(&mut out, vb.len() as u32);
        extend_bytes(&mut out, vb);
        push_u32_le(&mut out, self.items.len() as u32);
        let ghost itemsv = self@.items;
        let ghost prefix = out@;
        let mut i: usize = 0;
        proof {
            assert(itemsv.take(0) =~= Seq::<(Seq<u8>, Seq<u8>)>::empty());
            assert(spec_entries_bytes(Seq::<(Seq<u8>, Seq<u8>)>::empty()) =~= Seq::<u8>::empty());
            assert(out@ =~= prefix + spec_entries_bytes(itemsv.take(0)));
        }
        while i < self.items.len()
            invariant
                0 <= i <= self.items@.len(),
                itemsv.len() == self.items@.len(),
                forall|j: int|
                    0 <= j < itemsv.len() ==> #[trigger] itemsv[j] == (str_to_bytes(
                        self.items@[j].0@,
                    ), str_to_bytes(self.items@[j].1@)),
                out@ == prefix + spec_entries_bytes(itemsv.take(i as int)),
                forall|j: int|
                    0 <= j < i ==> (#[trigger] itemsv[j]).0.len() + itemsv[j].1.len() + 1
                        <= u32::MAX,
            decreases self.items@.len() - i,
        {
            let kb = self.items[i].0.as_str().as_bytes();
            let vb2 = self.items[i].1.as_str().as_bytes();
            if kb.len() > u32::MAX as usize - 1 || (u32::MAX as usize - 1) - kb.len()
                < vb2.len() {
                proof {
                    assert(kb@.len() == itemsv[i as int].0.len());
                    assert(vb2@.len() == itemsv[i as int].1.len());
                    assert(itemsv[i as int].0.len() + itemsv[i as int].1.len() + 1 > u32::MAX);
                    assert(self@.items[i as int] == itemsv[i as int]);
                    assert(!spec_comments_sizes_ok(self@));
                }
                return Err(TagError::SizeMismatch);
            }
            let el = kb.len() + 1 + vb2.len();
            proof {
                lemma_entries_bytes_push(itemsv.take(i as int), itemsv[i as int]);
                assert(itemsv.take(i as int).push(itemsv[i as int]) =~= itemsv.take(i + 1));
            }
            push_u32_le(&mut out, el as u32);
            extend_bytes(&mut out, kb);
            out.push(0x3d);
            extend_bytes(&mut out, vb2);
            proof {
                let e = itemsv[i as int].0 + seq![0x3du8] + itemsv[i as int].1;
                assert(e.len() == el);
                assert(out@ =~= prefix + spec_entries_bytes(itemsv.take(i + 1)));
            }
            i += 1;
        }
        proof {
            assert(itemsv.take(itemsv.len() as int) =~= itemsv);
            assert(out@ =~= spec_comments_bytes(self@));
        }
        Ok(out)
    }
}


/// An entry the byte layout can carry faithfully: a key without `=`
/// and both sides valid UTF-8.
pub open spec fn entry_codec_ready(e: (Seq<u8>, Seq<u8>)) -> bool {
    &&& forall|j: int| 0 <= j < e.0.len() ==> e.0[j] != 0x3d
    &&& valid_utf8(e.0)
    &&& valid_utf8(e.1)
}

/// A tag the codec can carry through serialization and back.
pub open spec fn comments_codec_ready(c: VorbisCommentsView) -> bool {
    &&& spec_comments_sizes_ok(c)
    &&& valid_utf8(c.vendor)
    &&& forall|i: int| 0 <= i < c.items.len() ==> entry_codec_ready(#[trigger] c.items[i])
}

/// Parsing the serialized entries of `rest`, starting from `acc`,
/// appends each entry back as it was.
proof fn lemma_read_serialized_entries(
    d: Seq<u8>,
    pos: int,
    rest: Seq<(Seq<u8>, Seq<u8>)>,
    mode: ParsingMode,
    acc: Seq<(Seq<u8>, Seq<u8>)>,
)
    requires
        0 <= pos,
        pos + spec_entries_bytes(rest).len() <= d.len(),
        d.subrange(pos, pos + spec_entries_bytes(rest).len() as int) == spec_entries_bytes(rest),
        forall|i: int| 0 <= i < rest.len() ==> entry_codec_ready(#[trigger] rest[i]),
        forall|i: int|
            0 <= i < rest.len() ==> (#[trigger] rest[i]).0.len() + rest[i].1.len() + 1
                <= u32::MAX,
    ensures
        spec_read_entries(d, pos, rest.len(), mode, acc) == Result::<
            Seq<(Seq<u8>, Seq<u8>)>,
            TagError,
        >::Ok(acc + rest),
    decreases rest.len(),
{
    if rest.len() == 0 {
        assert(acc + rest =~= acc);
    } else {
        let it = rest[0];
        let rest2 = rest.drop_first();
        let e = it.0 + seq![0x3du8] + it.1;
        let eb = spec_u32_le_bytes(e.len() as u32) + e;
        let restb = spec_entries_bytes(rest);
        let tail = spec_entries_bytes(rest2);
        assert(restb == eb + tail);
        assert forall|j: int| 0 <= j < restb.len() implies d[pos + j] == restb[j] by {
            assert(d.subrange(pos, pos + restb.len() as int)[j] == restb[j]);
        }
        let el32 = e.len() as u32;
        assert(d.subrange(pos, pos + 4) =~= spec_u32_le_bytes(el32)) by {
            assert forall|j: int| 0 <= j < 4 implies d[pos + j] == spec_u32_le_bytes(el32)[j] by {
                assert(restb[j] == eb[j]);
            }
        }
        crate::bytes::lemma_u32_le_round_trip(el32);
        let el = spec_u32_le(d.subrange(pos, pos + 4));
        assert(el == el32);
        let entry = d.subrange(pos + 4, pos + 4 + el);
        assert(entry =~= e) by {
            assert forall|j: int| 0 <= j < e.len() implies d[pos + 4 + j] == e[j] by {
                assert(restb[4 + j] == eb[4 + j]);
                assert(eb[4 + j] == e[j]);
            }
        }
        let klen = it.0.len() as int;
        assert(e[klen] == 0x3d);
        lemma_find_eq(entry, 0);
        let f = spec_find_eq(entry, 0);
        if f == -1 {
            assert(entry[klen] != 0x3d);
            assert(false);
        } else if f < klen {
            assert(entry[f] == it.0[f]);
            assert(false);
        } else if f > klen {
            assert(entry[klen] != 0x3d);
            assert(false);
        }
        assert(f == klen);
        assert(entry.take(f) =~= it.0);
        assert(entry.skip(f + 1) =~= it.1);
        let pos2 = pos + 4 + el;
        assert(pos2 == pos + eb.len());
        assert(d.subrange(pos2, pos2 + tail.len() as int) =~= tail) by {
            assert forall|j: int| 0 <= j < tail.len() implies d.subrange(
                pos2,
                pos2 + tail.len() as int,
            )[j] == tail[j] by {
                assert(d.subrange(pos2, pos2 + tail.len() as int)[j] == d[pos2 + j]);
                assert(d[pos2 + j] == restb[eb.len() + j]);
                assert(restb[eb.len() + j] == tail[j]);
            }
        }
        assert forall|i: int| 0 <= i < rest2.len() implies entry_codec_ready(
            #[trigger] rest2[i],
        ) && rest2[i].0.len() + rest2[i].1.len() + 1 <= u32::MAX by {
            assert(rest2[i] == rest[i + 1]);
        }
        lemma_read_serialized_entries(d, pos2, rest2, mode, acc.push(it));
        assert(acc.push(it) + rest2 =~= acc + rest);
    }
}

/// Serializing a well-formed Vorbis Comment tag and parsing the bytes
/// back yields the same vendor and the same entries, in either mode.
pub proof fn lemma_vorbis_round_trip(c: VorbisCommentsView, mode: ParsingMode)
    requires
        comments_codec_ready(c),
    ensures
        spec_read_comments(spec_comments_bytes(c), mode) == Result::<
            VorbisCommentsView,
            TagError,
        >::Ok(c),
{
    let d = spec_comments_bytes(c);
    let vl32 = c.vendor.len() as u32;
    let n32 = c.items.len() as u32;
    let eb = spec_entries_bytes(c.items);
    assert(d == spec_u32_le_bytes(vl32) + c.vendor + spec_u32_le_bytes(n32) + eb);
    assert(d.len() == 8 + c.vendor.len() + eb.len());
    assert(d.subrange(0, 4) =~= spec_u32_le_bytes(vl32));
    crate::bytes::lemma_u32_le_round_trip(vl32);
    let vl = spec_u32_le(d.subrange(0, 4));
    assert(vl == vl32);
    assert(d.subrange(4, 4 + vl) =~= c.vendor);
    assert(d.subrange(4 + vl, 4 + vl + 4) =~= spec_u32_le_bytes(n32));
    crate::bytes::lemma_u32_le_round_trip(n32);
    let epos = 4 + vl + 4;
    assert(d.subrange(epos, epos + eb.len() as int) =~= eb);
    lemma_read_serialized_entries(d, epos, c.items, mode, Seq::empty());
    assert(Seq::<(Seq<u8>, Seq<u8>)>::empty() + c.items =~= c.items);
    assert(VorbisCommentsView { vendor: d.subrange(4, 4 + vl), items: c.items } == c);
}

} // verus!
