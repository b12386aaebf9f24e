//! LRU-K replacement policy over the frames of a buffer pool.
//!
//! Every frame that has been accessed since it was last removed keeps the
//! timestamps of its most recent `k` accesses. Among the frames marked
//! evictable, the one with the largest backward k-distance is evicted: frames
//! with fewer than `k` recorded accesses have an infinite distance and go
//! first, and within each group the frame whose oldest kept access is the
//! earliest goes first. Remaining ties go to the lower frame id.
use vstd::prelude::*;

use crate::buffer::FrameId;

verus! {

/// Number of `true` entries of a sequence.
pub open spec fn count_true(s: Seq<bool>) -> nat
    decreases s.len(),
{
    if s.len() == 0 {
        0
    } else {
        count_true(s.drop_last()) + if s.last() { 1nat } else { 0nat }
    }
}

pub proof fn lemma_count_true_update(s: Seq<bool>, i: int, b: bool)
    requires
        0 <= i < s.len(),
    ensures
        count_true(s.update(i, b)) + (if s[i] { 1int } else { 0int }) == count_true(s) + (if b {
            1int
        } else {
            0int
        }),
    decreases s.len(),
{
    let t = s.update(i, b);
    if i == s.len() - 1 {
        assert(t.drop_last() =~= s.drop_last());
    } else {
        assert(t.drop_last() =~= s.drop_last().update(i, b));
        lemma_count_true_update(s.drop_last(), i, b);
    }
}

pub proof fn lemma_count_true_bounds(s: Seq<bool>)
    ensures
        count_true(s) <= s.len(),
        count_true(s) == 0 <==> (forall|i: int| 0 <= i < s.len() ==> !s[i]),
    decreases s.len(),
{
    if s.len() > 0 {
        lemma_count_true_bounds(s.drop_last());
        if count_true(s) == 0 {
            assert forall|i: int| 0 <= i < s.len() implies !s[i] by {
                if i < s.len() - 1 {
                    assert(s.drop_last()[i] == s[i]);
                }
            }
        }
        if forall|i: int| 0 <= i < s.len() ==> !s[i] {
            assert forall|i: int| 0 <= i < s.drop_last().len() implies !s.drop_last()[i] by {
                assert(s.drop_last()[i] == s[i]);
            }
        }
    }
}

pub proof fn lemma_count_true_all_false(n: nat)
    ensures
        count_true(Seq::new(n, |i: int| false)) == 0,
{
    lemma_count_true_bounds(Seq::new(n, |i: int| false));
}

/// Appends `t` to an access history and keeps only its `k` most recent entries.
pub open spec fn push_bounded(h: Seq<u64>, t: u64, k: nat) -> Seq<u64> {
    if h.len() + 1 > k {
        h.push(t).drop_first()
    } else {
        h.push(t)
    }
}

/// The abstract state of an LRU-K replacer.
pub struct ReplacerModel {
    /// How many accesses are kept per frame.
    pub k: nat,
    /// The timestamp that the next access gets.
    pub now: u64,
    /// For each frame, its most recent accesses, oldest first; empty when the
    /// frame is not tracked.
    pub histories: Seq<Seq<u64>>,
    /// For each frame, whether it may be evicted.
    pub evictable: Seq<bool>,
}

impl ReplacerModel {
    /// A replacer of `n` frames, none tracked, keeping `k` accesses per frame.
    pub open spec fn fresh(n: nat, k: nat) -> Self {
        ReplacerModel {
            k,
            now: 0,
            histories: Seq::new(n, |i: int| Seq::<u64>::empty()),
            evictable: Seq::new(n, |i: int| false),
        }
    }

    pub open spec fn wf(self) -> bool {
        &&& self.k >= 1
        &&& self.evictable.len() == self.histories.len()
        &&& self.histories.len() <= u32::MAX + 1
        &&& forall|f: int| 0 <= f < self.histories.len() ==> #[trigger] self.histories[f].len() <= self.k
        &&& forall|f: int|
            0 <= f < self.histories.len() && #[trigger] self.evictable[f] ==> self.histories[f].len()
                > 0
    }

    /// Number of frames the replacer manages.
    pub open spec fn capacity(self) -> nat {
        self.histories.len()
    }

    /// Whether frame `f` has been accessed since it was last removed.
    pub open spec fn is_tracked(self, f: int) -> bool {
        0 <= f < self.histories.len() && self.histories[f].len() > 0
    }

    pub open spec fn is_evictable(self, f: int) -> bool {
        0 <= f < self.histories.len() && self.evictable[f]
    }

    /// Number of evictable frames.
    pub open spec fn size(self) -> nat {
        count_true(self.evictable)
    }

    /// Whether the frame's history holds fewer than `k` accesses, which gives
    /// it an infinite backward k-distance.
    pub open spec fn has_infinite_distance(self, f: int) -> bool {
        self.histories[f].len() < self.k
    }

    /// Frame `f` is evicted before frame `g` when both are candidates.
    pub open spec fn ranks_before(self, f: int, g: int) -> bool {
        let inf_f = self.has_infinite_distance(f);
        let inf_g = self.has_infinite_distance(g);
        let oldest_f = self.histories[f][0];
        let oldest_g = self.histories[g][0];
        ||| inf_f && !inf_g
        ||| inf_f == inf_g && oldest_f < oldest_g
        ||| inf_f == inf_g && oldest_f == oldest_g && f < g
    }

    /// Frame `f` is the one that eviction picks.
    pub open spec fn is_victim(self, f: int) -> bool {
        &&& self.is_evictable(f)
        &&& forall|g: int| #[trigger]
            self.is_evictable(g) && g != f ==> self.ranks_before(f, g)
    }

    pub open spec fn victim(self) -> Option<FrameId> {
        if exists|f: FrameId| self.is_victim(f as int) {
            Some(choose|f: FrameId| self.is_victim(f as int))
        } else {
            None
        }
    }

    pub open spec fn record_access(self, f: int) -> Self {
        ReplacerModel {
            histories: self.histories.update(
                f,
                push_bounded(self.histories[f], self.now, self.k),
            ),
            now: (self.now + 1) as u64,
            ..self
        }
    }

    pub open spec fn set_evictable(self, f: int, b: bool) -> Self {
        if self.is_tracked(f) {
            ReplacerModel { evictable: self.evictable.update(f, b), ..self }
        } else {
            self
        }
    }

    pub open spec fn remove(self, f: int) -> Self {
        if self.is_tracked(f) {
            ReplacerModel {
                histories: self.histories.update(f, Seq::empty()),
                evictable: self.evictable.update(f, false),
                ..self
            }
        } else {
            self
        }
    }

    pub open spec fn evict(self) -> Self {
        match self.victim() {
            Some(f) => self.remove(f as int),
            None => self,
        }
    }
}

/// `ranks_before` is a strict order: of two distinct candidates exactly one
/// ranks first, so at most one frame is the victim.
pub proof fn lemma_victim_unique(m: ReplacerModel, f: int, g: int)
    requires
        m.is_victim(f),
        m.is_victim(g),
    ensures
        f == g,
{
    if f != g {
        assert(m.ranks_before(f, g));
        assert(m.ranks_before(g, f));
    }
}

/// The victim is the frame that `is_victim` describes, and one exists exactly
/// when some frame is evictable.
pub proof fn lemma_victim_spec(m: ReplacerModel, f: int)
    requires
        m.wf(),
        m.is_victim(f),
    ensures
        m.victim() == Some(f as FrameId),
        0 <= f < m.capacity(),
{
    assert(m.is_victim((f as FrameId) as int));
    let c = choose|c: FrameId| m.is_victim(c as int);
    lemma_victim_unique(m, c as int, f);
}

pub proof fn lemma_no_victim(m: ReplacerModel)
    requires
        m.wf(),
        forall|f: int| 0 <= f < m.capacity() ==> !m.evictable[f],
    ensures
        m.victim() is None,
        m.size() == 0,
{
    lemma_count_true_bounds(m.evictable);
}

/// The victim is chosen by backward k-distance. A frame with fewer than `k`
/// recorded accesses goes before any frame with `k`; among frames with fewer,
/// the one first accessed earliest goes; among frames with `k`, the one whose
/// `k`-th most recent access is the earliest goes, whatever their later
/// accesses.
pub proof fn law_victim_by_backward_k_distance(m: ReplacerModel, v: int, g: int)
    requires
        m.wf(),
        m.victim() == Some(v as FrameId),
        0 <= v < m.capacity(),
        m.is_evictable(g),
        g != v,
    ensures
        m.is_evictable(v),
        m.histories[g].len() < m.k ==> m.histories[v].len() < m.k,
        m.histories[g].len() < m.k && m.histories[v].len() < m.k ==> m.histories[v][0]
            <= m.histories[g][0],
        m.histories[g].len() == m.k && m.histories[v].len() == m.k ==> m.histories[v][m.histories[v].len()
            - m.k] <= m.histories[g][m.histories[g].len() - m.k],
{
    assert(m.is_victim((m.victim().unwrap()) as int));
    assert((v as FrameId) as int == v);
    assert(m.ranks_before(v, g));
}

/// An access is recorded as the frame's most recent one, and the frame keeps
/// its `k` most recent accesses, oldest first: the earlier ones as they were,
/// the oldest dropped once there are more than `k`.
pub proof fn law_record_access_keeps_recent(m: ReplacerModel, f: int)
    requires
        m.wf(),
        0 <= f < m.capacity(),
        m.now < u64::MAX,
    ensures
        ({
            let h = m.histories[f];
            let h2 = m.record_access(f).histories[f];
            &&& h2.len() == if h.len() < m.k { h.len() + 1 } else { m.k }
            &&& h2[h2.len() - 1] == m.now
            &&& forall|j: int| 1 <= j < h2.len() ==> #[trigger] h2[h2.len() - 1 - j] == h[h.len() - j]
            &&& m.record_access(f).now == m.now + 1
            &&& forall|g: int| 0 <= g < m.capacity() && g != f ==> #[trigger] m.record_access(f).histories[g] == m.histories[g]
        }),
{
    let h = m.histories[f];
    let h2 = m.record_access(f).histories[f];
    assert(h.len() <= m.k);
    assert(h2 == push_bounded(h, m.now, m.k));
    let p = h.push(m.now);
    if h.len() + 1 > m.k {
        assert(h2 == p.drop_first());
        assert(h.len() == m.k);
        assert(h2.len() == m.k);
        assert(h2[h2.len() - 1] == p[p.len() - 1]);
        assert forall|j: int| 1 <= j < h2.len() implies #[trigger] h2[h2.len() - 1 - j] == h[h.len() - j] by {
            assert(h2[h2.len() - 1 - j] == p[h2.len() - j]);
        }
    } else {
        assert(h2 == p);
        assert forall|j: int| 1 <= j < h2.len() implies #[trigger] h2[h2.len() - 1 - j] == h[h.len() - j] by {
            assert(h2[h2.len() - 1 - j] == p[h.len() - j]);
        }
    }
}

/// The frame among `0..n` that ranks first of the evictable ones, if any.
proof fn lemma_best_upto(m: ReplacerModel, n: int) -> (r: Option<int>)
    requires
        m.wf(),
        0 <= n <= m.capacity(),
    ensures
        match r {
            Some(b) => {
                &&& 0 <= b < n
                &&& m.is_evictable(b)
                &&& forall|g: int|
                    0 <= g < n && #[trigger] m.is_evictable(g) && g != b ==> m.ranks_before(b, g)
            },
            None => forall|g: int| 0 <= g < n ==> !(#[trigger] m.is_evictable(g)),
        },
    decreases n,
{
    if n == 0 {
        None
    } else {
        let prev = lemma_best_upto(m, n - 1);
        let i = n - 1;
        if !m.is_evictable(i) {
            prev
        } else {
            match prev {
                None => Some(i),
                Some(b) => {
                    if m.ranks_before(i, b) {
                        Some(i)
                    } else {
                        Some(b)
                    }
                },
            }
        }
    }
}

/// Some frame is the victim whenever some frame is evictable.
pub proof fn lemma_victim_exists(m: ReplacerModel)
    requires
        m.wf(),
        m.size() > 0,
    ensures
        m.victim() is Some,
{
    lemma_count_true_bounds(m.evictable);
    let i = choose|i: int| 0 <= i < m.evictable.len() && m.evictable[i];
    assert(m.is_evictable(i));
    let b = lemma_best_upto(m, m.capacity() as int);
    match b {
        Some(b) => {
            assert forall|g: int| #[trigger] m.is_evictable(g) && g != b implies m.ranks_before(b, g) by {}
            lemma_victim_spec(m, b);
        },
        None => {},
    }
}

pub struct LRUKReplacer {
    k: usize,
    current_timestamp: u64,
    current_size: usize,
    histories: Vec<Vec<u64>>,
    evictable: Vec<bool>,
}

impl View for LRUKReplacer {
    type V = ReplacerModel;

    closed spec fn view(&self) -> ReplacerModel {
        ReplacerModel {
            k: self.k as nat,
            now: self.current_timestamp,
            histories: Seq::new(self.histories@.len(), |i: int| self.histories@[i]@),
            evictable: self.evictable@,
        }
    }
}

impl LRUKReplacer {
    pub closed spec fn wf(&self) -> bool {
        &&& self@.wf()
        &&& self.current_size == self@.size()
    }

    /// Makes a replacer for `num_frames` frames that keeps `k` accesses per
    /// frame. `k` must be at least 1: frames are ranked by their `k`-th most
    /// recent access, and with none kept there is nothing to rank by.
    pub fn new(num_frames: usize, k: usize) -> (r: Self)
        requires
            k >= 1,
            num_frames <= u32::MAX + 1,
        ensures
            r.wf(),
            r@.wf(),
            r@.size() == 0,
            r@ == ReplacerModel::fresh(num_frames as nat, k as nat),
    {
        let mut histories: Vec<Vec<u64>> = Vec::new();
        let mut evictable: Vec<bool> = Vec::new();
        let mut i: usize = 0;
        while i < num_frames
            invariant
                i <= num_frames,
                histories.len() == i,
                evictable.len() == i,
                forall|j: int| 0 <= j < i ==> (#[trigger] histories@[j])@.len() == 0,
                forall|j: int| 0 <= j < i ==> !(#[trigger] evictable@[j]),
            decreases num_frames - i,
        {
            histories.push(Vec::new());
            evictable.push(false);
            i = i + 1;
        }
        let r = LRUKReplacer { k, current_timestamp: 0, current_size: 0, histories, evictable };
        proof {
            assert forall|j: int| 0 <= j < num_frames implies r@.histories[j] =~= Seq::<u64>::empty() by {
                assert(histories@[j]@.len() == 0);
            }
            assert(r@.histories =~= ReplacerModel::fresh(num_frames as nat, k as nat).histories);
            assert(r@.evictable =~= Seq::new(num_frames as nat, |i: int| false));
            lemma_count_true_all_false(num_frames as nat);
        }
        r
    }

    /// Number of evictable frames.
    pub fn size(&self) -> (r: usize)
        requires
            self.wf(),
        ensures
            r == self@.size(),
            self@.wf(),
    {
        self.current_size
    }

    /// Number of frames the replacer manages.
    pub fn capacity(&self) -> (r: usize)
        requires
            self.wf(),
        ensures
            r == self@.capacity(),
    {
        self.histories.len()
    }

    /// Whether one more access can be timestamped.
    pub fn can_record(&self) -> (r: bool)
        ensures
            r == (self@.now < u64::MAX),
    {
        self.current_timestamp < u64::MAX
    }

    /// Records an access to `frame_id` at the current timestamp.
    pub fn record_access(&mut self, frame_id: FrameId)
        requires
            old(self).wf(),
            frame_id < old(self)@.capacity(),
            old(self)@.now < u64::MAX,
        ensures
            final(self).wf(),
            final(self)@.wf(),
            final(self)@ == old(self)@.record_access(frame_id as int),
    {
        let f = frame_id as usize;
        let now = self.current_timestamp;
        let ghost h0 = self.histories@[f as int]@;
        self.histories[f].push(now);
        if self.histories[f].len() > self.k {
            self.histories[f].remove(0);
        }
        self.current_timestamp = now + 1;
        proof {
            let m = old(self)@.record_access(frame_id as int);
            assert(self.histories@[f as int]@ =~= push_bounded(h0, now, self.k as nat));
            assert(self@.histories =~= m.histories);
            assert(self@ == m);
        }
    }

    /// Marks a tracked frame as evictable or not; an untracked frame is left alone.
    pub fn set_evictable(&mut self, frame_id: FrameId, set_evictable: bool)
        requires
            old(self).wf(),
        ensures
            final(self).wf(),
            final(self)@.wf(),
            final(self)@ == old(self)@.set_evictable(frame_id as int, set_evictable),
    {
        let f = frame_id as usize;
        if f < self.histories.len() && self.histories[f].len() > 0 {
            let was = self.evictable[f];
            proof {
                lemma_count_true_update(self.evictable@, f as int, set_evictable);
                lemma_count_true_bounds(self.evictable@);
                lemma_count_true_bounds(self.evictable@.update(f as int, set_evictable));
            }
            if set_evictable && !was {
                self.current_size = self.current_size + 1;
            } else if !set_evictable && was {
                self.current_size = self.current_size - 1;
            }
            self.evictable.set(f, set_evictable);
            proof {
                assert(self@.histories =~= old(self)@.histories);
            }
        }
    }

    /// Stops tracking a frame. A tracked frame must be evictable.
    pub fn remove(&mut self, frame_id: FrameId)
        requires
            old(self).wf(),
            old(self)@.is_tracked(frame_id as int) ==> old(self)@.evictable[frame_id as int],
        ensures
            final(self).wf(),
            final(self)@.wf(),
            final(self)@ == old(self)@.remove(frame_id as int),
    {
        let f = frame_id as usize;
        if f < self.histories.len() && self.histories[f].len() > 0 {
            proof {
                lemma_count_true_update(self.evictable@, f as int, false);
            }
            self.histories.set(f, Vec::new());
            self.evictable.set(f, false);
            self.current_size = self.current_size - 1;
            proof {
                let m = old(self)@.remove(frame_id as int);
                assert(self@.histories =~= m.histories);
            }
        }
    }

    /// Evicts the frame that ranks first among the evictable frames and
    /// returns it, or returns `None` when no frame is evictable.
    pub fn evict(&mut self) -> (r: Option<FrameId>)
        requires
            old(self).wf(),
        ensures
            final(self).wf(),
            final(self)@.wf(),
            r == old(self)@.victim(),
            final(self)@ == old(self)@.evict(),
    {
        let n = self.histories.len();
        let mut best: Option<usize> = None;
        let mut i: usize = 0;
        while i < n
            invariant
                self.wf(),
                n == self@.capacity(),
                i <= n,
                match best {
                    Some(b) => {
                        &&& b < i
                        &&& self@.is_evictable(b as int)
                        &&& forall|g: int|
                            0 <= g < i && #[trigger] self@.is_evictable(g) && g != b
                                ==> self@.ranks_before(b as int, g)
                    },
                    None => forall|g: int| 0 <= g < i ==> !(#[trigger] self@.is_evictable(g)),
                },
            decreases n - i,
        {
            if self.evictable[i] {
                let better = match best {
                    None => true,
                    Some(b) => {
                        let inf_i = self.histories[i].len() < self.k;
                        let inf_b = self.histories[b].len() < self.k;
                        let oldest_i = self.histories[i][0];
                        let oldest_b = self.histories[b][0];
                        (inf_i && !inf_b) || (inf_i == inf_b && oldest_i < oldest_b)
                    },
                };
                if better {
                    best = Some(i);
                }
            }
            i = i + 1;
        }
        match best {
            Some(b) => {
                let f = b as FrameId;
                proof {
                    assert forall|g: int| #[trigger]
                        self@.is_evictable(g) && g != b implies self@.ranks_before(b as int, g) by {}
                    lemma_victim_spec(self@, b as int);
                }
                self.remove(f);
                Some(f)
            },
            None => {
                proof {
                    assert forall|f: int| 0 <= f < self@.capacity() implies !self@.evictable[f] by {
                        assert(!self@.is_evictable(f));
                    }
                    lemma_no_victim(self@);
                }
                None
            },
        }
    }
}

} // verus!
