//! A plain LRU replacer: frames become candidates when unpinned, stop being
//! candidates when pinned, and the candidate unpinned longest ago is the
//! victim.
use vstd::prelude::*;

verus! {

pub struct LRUReplacer {
    capacity: u32,
    /// Candidate frames, least recently unpinned first.
    lru_list: Vec<u32>,
}

impl View for LRUReplacer {
    type V = Seq<u32>;

    closed spec fn view(&self) -> Seq<u32> {
        self.lru_list@
    }
}

impl LRUReplacer {
    pub closed spec fn spec_capacity(&self) -> nat {
        self.capacity as nat
    }

    pub open spec fn wf(&self) -> bool {
        &&& self@.no_duplicates()
        &&& self@.len() <= self.spec_capacity()
    }

    /// Makes an empty replacer that holds at most `cap` frames.
    pub fn new(cap: u32) -> (r: Self)
        ensures
            r.wf(),
            r@ == Seq::<u32>::empty(),
            r.spec_capacity() == cap,
    {
        LRUReplacer { capacity: cap, lru_list: Vec::new() }
    }

    /// Takes the frame unpinned longest ago out of the replacer and stores it
    /// in `frame_id`. Returns false, changing nothing, when there is none.
    pub fn victim(&mut self, frame_id: &mut u32) -> (r: bool)
        requires
            old(self).wf(),
        ensures
            final(self).wf(),
            final(self).spec_capacity() == old(self).spec_capacity(),
            r == (old(self)@.len() > 0),
            r ==> *final(frame_id) == old(self)@[0] && final(self)@ == old(self)@.drop_first(),
            !r ==> *final(frame_id) == *old(frame_id) && final(self)@ == old(self)@,
    {
        if self.lru_list.len() == 0 {
            return false;
        }
        *frame_id = self.lru_list.remove(0);
        proof {
            assert(self@ =~= old(self)@.drop_first());
            assert forall|i: int, j: int|
                0 <= i < self@.len() && 0 <= j < self@.len() && i != j implies self@[i] != self@[j] by {
                assert(self@[i] == old(self)@[i + 1]);
                assert(self@[j] == old(self)@[j + 1]);
            }
        }
        true
    }

    /// The frame is in use: it stops being a candidate.
    pub fn pin(&mut self, frame_id: u32)
        requires
            old(self).wf(),
        ensures
            final(self).wf(),
            final(self).spec_capacity() == old(self).spec_capacity(),
            final(self)@ == old(self)@.filter(|f: u32| f != frame_id),
    {
        let mut i: usize = 0;
        while i < self.lru_list.len()
            invariant
                old(self).wf(),
                self@ == old(self)@,
                self.capacity == old(self).capacity,
                i <= self@.len(),
                forall|j: int| 0 <= j < i ==> self@[j] != frame_id,
            decreases self@.len() - i,
        {
            if self.lru_list[i] == frame_id {
                self.lru_list.remove(i);
                proof {
                    let s = old(self)@;
                    assert(self@ =~= s.remove(i as int));
                    lemma_filter_without(s, i as int, frame_id);
                    assert forall|a: int, b: int|
                        0 <= a < self@.len() && 0 <= b < self@.len() && a != b implies self@[a]
                        != self@[b] by {
                        let a0 = if a < i { a } else { a + 1 };
                        let b0 = if b < i { b } else { b + 1 };
                        assert(self@[a] == s[a0]);
                        assert(self@[b] == s[b0]);
                    }
                }
                return;
            }
            i = i + 1;
        }
        proof {
            lemma_filter_absent(old(self)@, frame_id);
        }
    }

    /// The frame is no longer in use: it becomes the most recent candidate,
    /// unless it is one already or the replacer is full.
    pub fn unpin(&mut self, frame_id: u32)
        requires
            old(self).wf(),
        ensures
            final(self).wf(),
            final(self).spec_capacity() == old(self).spec_capacity(),
            final(self)@ == (if old(self)@.contains(frame_id) || old(self)@.len()
                >= old(self).spec_capacity() {
                old(self)@
            } else {
                old(self)@.push(frame_id)
            }),
    {
        let mut i: usize = 0;
        while i < self.lru_list.len()
            invariant
                old(self).wf(),
                self@ == old(self)@,
                self.capacity == old(self).capacity,
                i <= self@.len(),
                forall|j: int| 0 <= j < i ==> self@[j] != frame_id,
            decreases self@.len() - i,
        {
            if self.lru_list[i] == frame_id {
                return;
            }
            i = i + 1;
        }
        if self.lru_list.len() >= self.capacity as usize {
            return;
        }
        self.lru_list.push(frame_id);
        proof {
            assert forall|a: int, b: int|
                0 <= a < self@.len() && 0 <= b < self@.len() && a != b implies self@[a] != self@[b] by {
            }
        }
    }

    /// Number of candidate frames.
    pub fn size(&self) -> (r: u32)
        requires
            self.wf(),
        ensures
            r == self@.len(),
    {
        self.lru_list.len() as u32
    }
}

proof fn lemma_filter_absent(s: Seq<u32>, x: u32)
    requires
        forall|j: int| 0 <= j < s.len() ==> s[j] != x,
    ensures
        s.filter(|f: u32| f != x) == s,
    decreases s.len(),
{
    let p = |f: u32| f != x;
    if s.len() > 0 {
        lemma_filter_absent(s.drop_last(), x);
        assert(s.drop_last().push(s.last()) =~= s);
        reveal(Seq::filter);
    } else {
        assert(s.filter(p) =~= s);
    }
}

proof fn lemma_filter_without(s: Seq<u32>, i: int, x: u32)
    requires
        0 <= i < s.len(),
        s[i] == x,
        s.no_duplicates(),
    ensures
        s.filter(|f: u32| f != x) == s.remove(i),
    decreases s.len(),
{
    let p = |f: u32| f != x;
    let t = s.drop_last();
    assert(t.push(s.last()) =~= s);
    reveal(Seq::filter);
    assert(t =~= s.drop_last());
    assert(t.no_duplicates());
    if i == s.len() - 1 {
        assert forall|j: int| 0 <= j < t.len() implies t[j] != x by {
            assert(s[j] == t[j]);
        }
        lemma_filter_absent(t, x);
        assert(s.remove(i) =~= t);
    } else {
        assert(s.last() != x);
        lemma_filter_without(t, i, x);
        assert(s.remove(i) =~= t.remove(i).push(s.last()));
    }
}

} // verus!
