//! The ID3v2 tag: an ordered frame collection in which each frame is
//! unique under its own identity rule.

use vstd::prelude::*;
use crate::id3v2::frame::{Frame, FrameKey, FrameView, TextFrameView};
use crate::id3v2::header::Id3v2Version;
use crate::text::str_to_bytes;

verus! {

/// The frames left when every frame sharing key `k` is taken out.
pub open spec fn frames_removed(frames: Seq<FrameView>, k: FrameKey) -> Seq<FrameView>
    decreases frames.len(),
{
    if frames.len() == 0 {
        Seq::empty()
    } else if frames[0].key() == k {
        frames_removed(frames.drop_first(), k)
    } else {
        seq![frames[0]] + frames_removed(frames.drop_first(), k)
    }
}

/// How removal acts on a frame appended at the end.
pub proof fn lemma_frames_removed_push(frames: Seq<FrameView>, k: FrameKey, f: FrameView)
    ensures
        frames_removed(frames.push(f), k) == (if f.key() == k {
            frames_removed(frames, k)
        } else {
            frames_removed(frames, k).push(f)
        }),
    decreases frames.len(),
{
    let p = frames.push(f);
    if frames.len() == 0 {
        assert(p[0] == f);
        assert(p.drop_first() =~= Seq::<FrameView>::empty());
        assert(frames_removed(Seq::<FrameView>::empty(), k) =~= Seq::<FrameView>::empty());
        assert(frames =~= Seq::<FrameView>::empty());
        if f.key() == k {
            assert(frames_removed(p, k) =~= frames_removed(frames, k));
        } else {
            assert(frames_removed(p, k) =~= seq![f] + Seq::<FrameView>::empty());
            assert(frames_removed(p, k) =~= frames_removed(frames, k).push(f));
        }
    } else {
        assert(p.drop_first() =~= frames.drop_first().push(f));
        lemma_frames_removed_push(frames.drop_first(), k, f);
        if f.key() == k {
            assert(frames_removed(p, k) =~= frames_removed(frames, k));
        } else {
            assert(frames_removed(p, k) =~= frames_removed(frames, k).push(f));
        }
    }
}

/// Nothing keyed `k` survives removal.
pub proof fn lemma_frames_removed_props(frames: Seq<FrameView>, k: FrameKey)
    ensures
        forall|i: int|
            0 <= i < frames_removed(frames, k).len() ==> (#[trigger] frames_removed(frames, k)[i]).key()
                != k,
        frames_removed(frames, k).len() <= frames.len(),
    decreases frames.len(),
{
    if frames.len() > 0 {
        lemma_frames_removed_props(frames.drop_first(), k);
        let t = frames.drop_first();
        let rt = frames_removed(t, k);
        if frames[0].key() != k {
            let r = frames_removed(frames, k);
            assert forall|i: int| 0 <= i < r.len() implies r[i].key() != k by {
                if i > 0 {
                    assert(r[i] == rt[i - 1]);
                }
            }
        }
    }
}

/// Inserting replaces whatever shares the frame's identity and
/// appends the frame.
pub open spec fn spec_insert_frame(frames: Seq<FrameView>, f: FrameView) -> Seq<FrameView> {
    frames_removed(frames, f.key()).push(f)
}

/// After an insertion the inserted frame is the only one in the tag
/// under its identity.
pub proof fn lemma_insert_frame_replaces(frames: Seq<FrameView>, f: FrameView)
    ensures
        ({
            let after = spec_insert_frame(frames, f);
            &&& after.len() >= 1
            &&& after[after.len() - 1] == f
            &&& forall|j: int| 0 <= j < after.len() - 1 ==> (#[trigger] after[j]).key() != f.key()
        }),
{
    lemma_frames_removed_props(frames, f.key());
    let after = spec_insert_frame(frames, f);
    assert forall|j: int| 0 <= j < after.len() - 1 implies (#[trigger] after[j]).key()
        != f.key() by {
        assert(after[j] == frames_removed(frames, f.key())[j]);
    }
}

/// An ID3v2 tag: its declared version, whether its body was
/// unsynchronized, and the frames in order of appearance.
#[derive(Clone, Debug, PartialEq, Eq)]
pub struct Id3v2Tag {
    pub original_version: Id3v2Version,
    pub unsynchronisation: bool,
    pub(crate) frames: Vec<Frame>,
}

pub struct Id3v2TagView {
    pub version: Id3v2Version,
    pub unsynchronisation: bool,
    pub frames: Seq<FrameView>,
}

impl View for Id3v2Tag {
    type V = Id3v2TagView;

    closed spec fn view(&self) -> Id3v2TagView {
        Id3v2TagView {
            version: self.original_version,
            unsynchronisation: self.unsynchronisation,
            frames: Seq::new(self.frames@.len(), |i: int| self.frames@[i]@),
        }
    }
}

impl Id3v2Tag {
    /// An empty tag of the given version.
    pub fn new(version: Id3v2Version, unsynchronisation: bool) -> (r: Id3v2Tag)
        ensures
            r@.version == version,
            r@.unsynchronisation == unsynchronisation,
            r@.frames.len() == 0,
    {
        Id3v2Tag { original_version: version, unsynchronisation, frames: Vec::new() }
    }

    pub fn len(&self) -> (r: usize)
        ensures
            r == self@.frames.len(),
    {
        self.frames.len()
    }

    pub fn is_empty(&self) -> (r: bool)
        ensures
            r == (self@.frames.len() == 0),
    {
        self.frames.len() == 0
    }

    /// Insert a frame, removing whatever shares its identity first.
    pub fn insert(&mut self, frame: Frame)
        ensures
            final(self)@.version == old(self)@.version,
            final(self)@.unsynchronisation == old(self)@.unsynchronisation,
            final(self)@.frames == spec_insert_frame(old(self)@.frames, frame@),
    {
        let ghost orig = self@.frames;
        let ghost k = frame@.key();
        let mut rest = self.frames.split_off(0);
        let ghost n = orig.len();
        proof {
            assert(orig.take(0) =~= Seq::<FrameView>::empty());
            assert(self@.frames =~= Seq::<FrameView>::empty());
        }
        while rest.len() > 0
            invariant
                rest@.len() <= n,
                orig.len() == n,
                k == frame@.key(),
                forall|i: int|
                    0 <= i < rest@.len() ==> #[trigger] rest@[i]@ == orig[n - rest@.len() + i],
                self.original_version == old(self).original_version,
                self.unsynchronisation == old(self).unsynchronisation,
                self@.frames =~= frames_removed(orig.take(n - rest@.len()), k),
            decreases rest@.len(),
        {
            let ghost j = n - rest@.len();
            let it = rest.remove(0);
            proof {
                assert(it@ == orig[j]);
                lemma_frames_removed_push(orig.take(j), k, orig[j]);
                assert(orig.take(j).push(orig[j]) =~= orig.take(j + 1));
            }
            if !crate::id3v2::frame::frame_same_key(&it, &frame) {
                self.frames.push(it);
            }
            proof {
                assert(self@.frames =~= frames_removed(orig.take(j + 1), k));
            }
        }
        proof {
            assert(orig.take(n as int) =~= orig);
        }
        self.frames.push(frame);
        proof {
            assert(self@.frames =~= frames_removed(orig, k).push(frame@));
        }
    }

    /// The frames in storage order.
    pub fn frames(&self) -> (r: &Vec<Frame>)
        ensures
            r@.len() == self@.frames.len(),
            forall|i: int| 0 <= i < r@.len() ==> r@[i]@ == self@.frames[i],
    {
        &self.frames
    }

    /// The text of the first plain text frame under `id`.
    pub fn get_text(&self, id: &str) -> (r: Option<&String>)
        ensures
            ({
                let ft = spec_find_text(self@.frames, str_to_bytes(id@));
                &&& ft is Some <==> r is Some
                &&& ft is Some ==> r is Some && r->0@ == ft->0.value
            }),
    {
        let idb = id.as_bytes();
        let mut i: usize = 0;
        proof {
            lemma_find_text(self@.frames, idb@);
        }
        while i < self.frames.len()
            invariant
                0 <= i <= self@.frames.len(),
                idb@ == str_to_bytes(id@),
                forall|j: int|
                    0 <= j < i ==> !((#[trigger] self@.frames[j]) matches FrameView::Text(t)
                        && t.id == idb@),
            decreases self@.frames.len() - i,
        {
            match &self.frames[i] {
                Frame::Text(t) => {
                    if crate::text::eq_bytes(t.id.as_str().as_bytes(), idb) {
                        proof {
                            lemma_find_text(self@.frames, idb@);
                            let frames = self@.frames;
                            assert(frames[i as int] matches FrameView::Text(tf) && tf.id == idb@);
                            if spec_find_text(frames, idb@) is Some {
                                let i0 = choose|i0: int|
                                    0 <= i0 < frames.len() && ((#[trigger] frames[i0]) matches
                                        FrameView::Text(tf) && tf.id == idb@ && spec_find_text(
                                        frames,
                                        idb@,
                                    )->0 == frames[i0]->Text_0) && (forall|j: int|
                                        0 <= j < i0 ==> !((#[trigger] frames[j]) matches
                                            FrameView::Text(t2) && t2.id == idb@));
                                if i0 < i {
                                    assert(!(frames[i0] matches FrameView::Text(t2) && t2.id
                                        == idb@));
                                } else if i0 > i {
                                    assert(!(frames[i as int] matches FrameView::Text(t2) && t2.id
                                        == idb@));
                                }
                                assert(i0 == i);
                            }
                        }
                        return Some(&t.value);
                    }
                },
                _ => {},
            }
            i += 1;
        }
        proof {
            lemma_find_text(self@.frames, idb@);
        }
        None
    }
}

/// The first plain text frame under `id`, if any.
pub open spec fn spec_find_text(frames: Seq<FrameView>, id: Seq<u8>) -> Option<TextFrameView>
    decreases frames.len(),
{
    if frames.len() == 0 {
        Option::None
    } else if frames[0] matches FrameView::Text(t) && t.id == id {
        Option::Some(frames[0]->Text_0)
    } else {
        spec_find_text(frames.drop_first(), id)
    }
}

pub proof fn lemma_find_text(frames: Seq<FrameView>, id: Seq<u8>)
    ensures
        spec_find_text(frames, id) is None ==> forall|i: int|
            0 <= i < frames.len() ==> !((#[trigger] frames[i]) matches FrameView::Text(t) && t.id
                == id),
        spec_find_text(frames, id) is Some ==> exists|i: int|
            0 <= i < frames.len() && ((#[trigger] frames[i]) matches FrameView::Text(t) && t.id
                == id && spec_find_text(frames, id)->0 == frames[i]->Text_0) && (forall|j: int|
                0 <= j < i ==> !((#[trigger] frames[j]) matches FrameView::Text(t2) && t2.id
                    == id)),
    decreases frames.len(),
{
    if frames.len() > 0 {
        let t = frames.drop_first();
        if !(frames[0] matches FrameView::Text(tf) && tf.id == id) {
            lemma_find_text(t, id);
            if spec_find_text(t, id) is Some {
                let i = choose|i: int|
                    0 <= i < t.len() && ((#[trigger] t[i]) matches FrameView::Text(tf) && tf.id
                        == id && spec_find_text(t, id)->0 == t[i]->Text_0) && (forall|j: int|
                        0 <= j < i ==> !((#[trigger] t[j]) matches FrameView::Text(t2) && t2.id
                            == id));
                assert(frames[i + 1] == t[i]);
                assert forall|j: int|
                    0 <= j < i + 1 implies !((#[trigger] frames[j]) matches FrameView::Text(t2)
                    && t2.id == id) by {
                    if j > 0 {
                        assert(frames[j] == t[j - 1]);
                    }
                }
            } else {
                assert forall|i: int|
                    0 <= i < frames.len() implies !((#[trigger] frames[i]) matches FrameView::Text(
                    tf,
                ) && tf.id == id) by {
                    if i > 0 {
                        assert(frames[i] == t[i - 1]);
                    }
                }
            }
        }
    }
}

} // verus!
