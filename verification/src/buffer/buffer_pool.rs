//! The buffer pool: a fixed number of frames that cache disk pages.
//!
//! The pool decides which frame a page goes to, which page is evicted and what
//! has to be written back. It does no I/O itself: an operation that needs the
//! disk takes what was read as an argument, and hands back, as values, the
//! pages that must be written.
use vstd::prelude::*;

use std::collections::HashMap;
use std::collections::VecDeque;

use crate::buffer::page::{zeroed_data, Page, PageData, BUSTUBX_PAGE_SIZE};
use crate::buffer::replacer::{
    lemma_victim_exists, LRUKReplacer, ReplacerModel,
};
use crate::buffer::{FrameId, PageId};

verus! {

broadcast use vstd::std_specs::hash::group_hash_axioms;

/// Number of frames of the pool that backs table heaps.
pub const TABLE_HEAP_BUFFER_POOL_SIZE: usize = 100;

/// A page whose contents must be written to disk.
#[derive(Clone, Copy)]
pub struct WriteBack {
    pub page_id: PageId,
    pub data: PageData,
}

/// A page that an operation placed or found in the pool, pinned for the caller.
#[derive(Clone, Copy)]
pub struct PinnedPage {
    pub frame_id: FrameId,
    pub page_id: PageId,
    /// The page that was evicted to make room, when it had unwritten changes.
    pub write_back: Option<WriteBack>,
}

/// The abstract state of a buffer pool.
pub struct BufferPoolModel {
    /// The page held by each frame.
    pub frames: Seq<Page>,
    /// The frame of each resident page.
    pub page_table: Map<PageId, FrameId>,
    /// Frames that hold no page, in the order they are handed out.
    pub free_list: Seq<FrameId>,
    pub replacer: ReplacerModel,
}

impl BufferPoolModel {
    /// Frame `f` holds the page that the page table maps to it.
    pub open spec fn maps(self, f: int) -> bool {
        &&& 0 <= f < self.frames.len()
        &&& self.page_table.contains_key(self.frames[f].page_id)
        &&& self.page_table[self.frames[f].page_id] == f
    }

    pub open spec fn is_resident(self, page_id: PageId) -> bool {
        self.page_table.contains_key(page_id)
    }

    pub open spec fn frame_of(self, page_id: PageId) -> FrameId {
        self.page_table[page_id]
    }

    pub open spec fn page_of(self, page_id: PageId) -> Page {
        self.frames[self.page_table[page_id] as int]
    }

    /// The invariant of the pool, where `detached` names a frame that is
    /// momentarily neither free nor holding a resident page.
    pub open spec fn inv(self, detached: Option<FrameId>) -> bool {
        &&& self.replacer.wf()
        &&& self.replacer.capacity() == self.frames.len()
        &&& self.frames.len() <= u32::MAX + 1
        &&& self.free_list.no_duplicates()
        &&& forall|i: int|
            0 <= i < self.free_list.len() ==> (#[trigger] self.free_list[i] as int)
                < self.frames.len()
        &&& forall|p: PageId| #[trigger]
            self.page_table.contains_key(p) ==> {
                &&& (self.page_table[p] as int) < self.frames.len()
                &&& self.frames[self.page_table[p] as int].page_id == p
                &&& !self.free_list.contains(self.page_table[p])
            }
        &&& forall|f: int|
            #![trigger self.frames[f]]
            0 <= f < self.frames.len() ==> {
                ||| self.free_list.contains(f as FrameId)
                ||| self.maps(f)
                ||| detached == Some(f as FrameId)
            }
        &&& forall|f: int|
            #![trigger self.frames[f]]
            0 <= f < self.frames.len() ==> (self.replacer.is_tracked(f) <==> self.maps(f))
        &&& forall|f: int|
            #![trigger self.frames[f]]
            self.maps(f) ==> (self.replacer.evictable[f] <==> self.frames[f].pin_count == 0)
        &&& match detached {
            Some(d) => {
                &&& (d as int) < self.frames.len()
                &&& !self.free_list.contains(d)
                &&& !self.maps(d as int)
            },
            None => true,
        }
    }

    pub open spec fn wf(self) -> bool {
        self.inv(None)
    }

    /// A frame can be given to a page: one is free, or one can be evicted.
    pub open spec fn can_allocate(self) -> bool {
        self.free_list.len() > 0 || self.replacer.size() > 0
    }

    /// The frame that the next page to come in gets: the first free frame,
    /// else the replacer's victim.
    pub open spec fn target_frame(self) -> FrameId {
        if self.free_list.len() > 0 {
            self.free_list[0]
        } else {
            self.replacer.victim().unwrap()
        }
    }

    /// What must be written to disk before the target frame is reused: its
    /// page, when the frame is taken from a page with unwritten changes.
    pub open spec fn target_write_back(self) -> Option<WriteBack> {
        let page = self.frames[self.target_frame() as int];
        if self.free_list.len() == 0 && page.is_dirty {
            Some(WriteBack { page_id: page.page_id, data: page.data })
        } else {
            None
        }
    }

    /// Takes the target frame out of the free list, or evicts its page.
    pub open spec fn release_target(self) -> Self {
        if self.free_list.len() > 0 {
            BufferPoolModel { free_list: self.free_list.drop_first(), ..self }
        } else {
            let f = self.target_frame();
            BufferPoolModel {
                page_table: self.page_table.remove(self.frames[f as int].page_id),
                replacer: self.replacer.evict(),
                ..self
            }
        }
    }

    /// Puts `page` into frame `f`, maps it and records a pinning access.
    pub open spec fn install(self, f: FrameId, page: Page) -> Self {
        BufferPoolModel {
            frames: self.frames.update(f as int, page),
            page_table: self.page_table.insert(page.page_id, f),
            replacer: self.replacer.record_access(f as int).set_evictable(f as int, false),
            ..self
        }
    }

    /// Brings `page` into the pool when a frame can be had.
    pub open spec fn load(self, page: Page) -> (Self, Option<PinnedPage>) {
        if self.can_allocate() {
            let f = self.target_frame();
            (
                self.release_target().install(f, page),
                Some(
                    PinnedPage {
                        frame_id: f,
                        page_id: page.page_id,
                        write_back: self.target_write_back(),
                    },
                ),
            )
        } else {
            (self, None)
        }
    }

    pub open spec fn new_page(self, page_id: PageId) -> (Self, Option<PinnedPage>) {
        self.load(Page { page_id, data: zeroed_data(), is_dirty: false, pin_count: 1 })
    }

    /// Pins a resident page, or loads it from `loaded`, what the disk holds of it.
    pub open spec fn fetch_page(self, page_id: PageId, loaded: Option<PageData>) -> (
        Self,
        Option<PinnedPage>,
    ) {
        if self.is_resident(page_id) {
            let f = self.frame_of(page_id);
            let page = self.frames[f as int];
            (
                BufferPoolModel {
                    frames: self.frames.update(
                        f as int,
                        Page { pin_count: (page.pin_count + 1) as u32, ..page },
                    ),
                    replacer: self.replacer.set_evictable(f as int, false),
                    ..self
                },
                Some(PinnedPage { frame_id: f, page_id, write_back: None }),
            )
        } else {
            self.load(Page { page_id, data: loaded.unwrap(), is_dirty: false, pin_count: 1 })
        }
    }

    pub open spec fn write_page(self, page_id: PageId, data: PageData) -> Self {
        if self.is_resident(page_id) {
            let f = self.frame_of(page_id) as int;
            BufferPoolModel {
                frames: self.frames.update(f, Page { data, is_dirty: true, ..self.frames[f] }),
                ..self
            }
        } else {
            self
        }
    }

    pub open spec fn unpin_page(self, page_id: PageId, is_dirty: bool) -> (Self, bool) {
        if self.is_resident(page_id) && self.page_of(page_id).pin_count > 0 {
            let f = self.frame_of(page_id) as int;
            let page = self.frames[f];
            let pin_count = (page.pin_count - 1) as u32;
            let replacer = if pin_count == 0 {
                self.replacer.set_evictable(f, true)
            } else {
                self.replacer
            };
            (
                BufferPoolModel {
                    frames: self.frames.update(
                        f,
                        Page { pin_count, is_dirty: page.is_dirty || is_dirty, ..page },
                    ),
                    replacer,
                    ..self
                },
                true,
            )
        } else {
            (self, false)
        }
    }

    pub open spec fn flush_page(self, page_id: PageId) -> (Self, Option<WriteBack>) {
        if self.is_resident(page_id) {
            let f = self.frame_of(page_id) as int;
            let page = self.frames[f];
            (
                BufferPoolModel {
                    frames: self.frames.update(f, Page { is_dirty: false, ..page }),
                    ..self
                },
                Some(WriteBack { page_id, data: page.data }),
            )
        } else {
            (self, None)
        }
    }

    /// The pages of frames `0..n` that are resident, in frame order.
    pub open spec fn resident_write_backs(self, n: int) -> Seq<WriteBack>
        decreases n,
    {
        if n <= 0 {
            Seq::empty()
        } else if self.maps(n - 1) {
            self.resident_write_backs(n - 1).push(
                WriteBack { page_id: self.frames[n - 1].page_id, data: self.frames[n - 1].data },
            )
        } else {
            self.resident_write_backs(n - 1)
        }
    }

    pub open spec fn flush_all_pages(self) -> (Self, Seq<WriteBack>) {
        (
            BufferPoolModel {
                frames: Seq::new(
                    self.frames.len(),
                    |f: int|
                        if self.maps(f) {
                            Page { is_dirty: false, ..self.frames[f] }
                        } else {
                            self.frames[f]
                        },
                ),
                ..self
            },
            self.resident_write_backs(self.frames.len() as int),
        )
    }

    pub open spec fn delete_page(self, page_id: PageId) -> (Self, bool) {
        if !self.is_resident(page_id) {
            (self, true)
        } else if self.page_of(page_id).pin_count > 0 {
            (self, false)
        } else {
            let f = self.frame_of(page_id);
            (
                BufferPoolModel {
                    frames: self.frames.update(f as int, Page::blank(0)),
                    page_table: self.page_table.remove(page_id),
                    free_list: self.free_list.push(f),
                    replacer: self.replacer.remove(f as int),
                },
                true,
            )
        }
    }
}

/// Caches disk pages in a fixed number of frames, pins them for their users
/// and evicts unpinned pages with an LRU-K replacer when frames run out.
pub struct BufferPoolManager {
    pool: Vec<Page>,
    replacer: LRUKReplacer,
    page_table: HashMap<PageId, FrameId>,
    free_list: VecDeque<FrameId>,
    num_pages: usize,
}

impl View for BufferPoolManager {
    type V = BufferPoolModel;

    closed spec fn view(&self) -> BufferPoolModel {
        BufferPoolModel {
            frames: self.pool@,
            page_table: self.page_table@,
            free_list: self.free_list@,
            replacer: self.replacer@,
        }
    }
}

impl BufferPoolManager {
    closed spec fn inv(&self, detached: Option<FrameId>) -> bool {
        &&& self@.inv(detached)
        &&& self.replacer.wf()
        &&& self.num_pages == self.pool.len()
    }

    pub closed spec fn wf(&self) -> bool {
        self.inv(None)
    }

    pub proof fn lemma_wf(&self)
        requires
            self.wf(),
        ensures
            self@.wf(),
    {
    }

    /// Makes a pool of `num_pages` free frames whose replacer keeps `replacer_k`
    /// accesses per frame. An LRU-K replacer needs `k` to be at least 1: it
    /// ranks frames by their `k`-th most recent access.
    pub fn new(num_pages: usize, replacer_k: usize) -> (r: Self)
        requires
            num_pages <= u32::MAX + 1,
            replacer_k >= 1,
        ensures
            r.wf(),
            r@.frames == Seq::new(num_pages as nat, |i: int| Page::blank(0)),
            r@.page_table == Map::<PageId, FrameId>::empty(),
            r@.free_list == Seq::new(num_pages as nat, |i: int| i as FrameId),
            r@.replacer == ReplacerModel::fresh(num_pages as nat, replacer_k as nat),
    {
        let mut free_list: VecDeque<FrameId> = VecDeque::with_capacity(num_pages);
        let mut pool: Vec<Page> = Vec::new();
        let mut i: usize = 0;
        while i < num_pages
            invariant
                i <= num_pages <= u32::MAX + 1,
                free_list@ == Seq::new(i as nat, |j: int| j as FrameId),
                pool@ == Seq::new(i as nat, |j: int| Page::blank(0)),
            decreases num_pages - i,
        {
            free_list.push_back(i as FrameId);
            pool.push(Page::new(0));
            i = i + 1;
            assert(free_list@ =~= Seq::new(i as nat, |j: int| j as FrameId));
            assert(pool@ =~= Seq::new(i as nat, |j: int| Page::blank(0)));
        }
        let replacer = LRUKReplacer::new(num_pages, replacer_k);
        let r = BufferPoolManager {
            pool,
            replacer,
            page_table: HashMap::new(),
            free_list,
            num_pages,
        };
        proof {
            let m = r@;
            assert forall|a: int, b: int|
                0 <= a < m.free_list.len() && 0 <= b < m.free_list.len() && a != b implies m.free_list[a]
                != m.free_list[b] by {}
            assert forall|f: int| 0 <= f < m.frames.len() implies #[trigger] m.free_list.contains(
                f as FrameId,
            ) by {
                assert(m.free_list[f] == f as FrameId);
            }
        }
        r
    }

    /// Number of frames.
    pub fn num_pages(&self) -> (r: usize)
        requires
            self.wf(),
        ensures
            r == self@.frames.len(),
    {
        self.num_pages
    }

    /// Number of free frames.
    pub fn free_frame_count(&self) -> (r: usize)
        requires
            self.wf(),
        ensures
            r == self@.free_list.len(),
    {
        self.free_list.len()
    }

    /// Number of resident pages.
    pub fn resident_page_count(&self) -> (r: usize)
        requires
            self.wf(),
        ensures
            r == self@.page_table.len(),
    {
        self.page_table.len()
    }

    pub fn replacer(&self) -> (r: &LRUKReplacer)
        requires
            self.wf(),
        ensures
            r@ == self@.replacer,
            r.wf(),
    {
        &self.replacer
    }

    /// The page held by frame `frame_id`.
    pub fn page(&self, frame_id: FrameId) -> (r: &Page)
        requires
            self.wf(),
            frame_id < self@.frames.len(),
        ensures
            *r == self@.frames[frame_id as int],
    {
        &self.pool[frame_id as usize]
    }

    /// The frame of a resident page.
    pub fn frame_of(&self, page_id: PageId) -> (r: Option<FrameId>)
        requires
            self.wf(),
        ensures
            r == (if self@.is_resident(page_id) {
                Some(self@.frame_of(page_id))
            } else {
                None
            }),
    {
        match self.page_table.get(&page_id) {
            Some(f) => Some(*f),
            None => None,
        }
    }

    pub fn is_resident(&self, page_id: PageId) -> (r: bool)
        requires
            self.wf(),
        ensures
            r == self@.is_resident(page_id),
    {
        self.page_table.contains_key(&page_id)
    }

    /// Whether a frame can be had for a page to come in.
    pub fn can_allocate(&self) -> (r: bool)
        requires
            self.wf(),
        ensures
            r == self@.can_allocate(),
    {
        self.free_list.len() > 0 || self.replacer.size() > 0
    }

    /// Whether fetching `page_id` has to read it from disk: it is not
    /// resident and a frame can be had for it.
    pub fn needs_disk_read(&self, page_id: PageId) -> (r: bool)
        requires
            self.wf(),
        ensures
            r == (!self@.is_resident(page_id) && self@.can_allocate()),
    {
        !self.page_table.contains_key(&page_id) && (self.free_list.len() > 0
            || self.replacer.size() > 0)
    }

    /// Takes a frame for a page to come in: the first free frame, else the
    /// replacer's victim, whose page leaves the page table.
    fn acquire_frame(&mut self) -> (r: Option<(FrameId, Option<WriteBack>)>)
        requires
            old(self).wf(),
        ensures
            match r {
                Some((f, wb)) => {
                    &&& old(self)@.can_allocate()
                    &&& f == old(self)@.target_frame()
                    &&& wb == old(self)@.target_write_back()
                    &&& final(self)@ == old(self)@.release_target()
                    &&& final(self).inv(Some(f))
                },
                None => {
                    &&& !old(self)@.can_allocate()
                    &&& final(self)@ == old(self)@
                    &&& final(self).wf()
                },
            },
    {
        if self.free_list.len() == 0 && self.replacer.size() == 0 {
            return None;
        }
        if self.free_list.len() > 0 {
            let ghost m = self@;
            let f = self.free_list.pop_front().unwrap();
            proof {
                assert(self@.free_list =~= m.free_list.drop_first());
                self.lemma_release_free_frame(m, f);
            }
            Some((f, None))
        } else {
            let ghost m = self@;
            match self.replacer.evict() {
                Some(f) => {
                    proof {
                        lemma_victim_facts(m.replacer);
                    }
                    let evicted = self.pool[f as usize];
                    let write_back = if evicted.is_dirty {
                        Some(WriteBack { page_id: evicted.page_id, data: evicted.data })
                    } else {
                        None
                    };
                    self.page_table.remove(&evicted.page_id);
                    proof {
                        self.lemma_release_evicted_frame(m, f);
                    }
                    Some((f, write_back))
                },
                None => {
                    proof {
                        lemma_victim_exists(m.replacer);
                    }
                    None
                },
            }
        }
    }

    proof fn lemma_release_free_frame(&self, m: BufferPoolModel, f: FrameId)
        requires
            m.wf(),
            m.free_list.len() > 0,
            f == m.free_list[0],
            self@ == m.release_target(),
            self.replacer.wf(),
            self.num_pages == self.pool.len(),
        ensures
            self.inv(Some(f)),
    {
        let n = self@;
        assert forall|i: int, j: int|
            0 <= i < n.free_list.len() && 0 <= j < n.free_list.len() && i != j implies n.free_list[i]
            != n.free_list[j] by {
            assert(n.free_list[i] == m.free_list[i + 1]);
            assert(n.free_list[j] == m.free_list[j + 1]);
        }
        assert forall|x: FrameId| n.free_list.contains(x) implies m.free_list.contains(x) && x != f by {
            let i = choose|i: int| 0 <= i < n.free_list.len() && n.free_list[i] == x;
            assert(m.free_list[i + 1] == x);
        }
        assert forall|x: FrameId| m.free_list.contains(x) && x != f implies n.free_list.contains(x) by {
            let i = choose|i: int| 0 <= i < m.free_list.len() && m.free_list[i] == x;
            assert(i != 0);
            assert(n.free_list[i - 1] == x);
        }
        assert(m.free_list.contains(f));
        assert forall|i: int| 0 <= i < n.free_list.len() implies (#[trigger] n.free_list[i] as int)
            < n.frames.len() by {
            assert(n.free_list[i] == m.free_list[i + 1]);
        }
        assert(!m.maps(f as int));
    }

    proof fn lemma_release_evicted_frame(&self, m: BufferPoolModel, f: FrameId)
        requires
            m.wf(),
            m.free_list.len() == 0,
            m.replacer.is_victim(f as int),
            m.replacer.victim() == Some(f),
            self@ == m.release_target(),
            self.replacer.wf(),
            self.num_pages == self.pool.len(),
        ensures
            self.inv(Some(f)),
    {
        let n = self@;
        let old_page = m.frames[f as int].page_id;
        assert(m.replacer.is_tracked(f as int));
        assert(m.frames[f as int] == m.frames[f as int]);
        assert(m.maps(f as int));
        assert forall|g: int| 0 <= g < n.frames.len() && g != f implies n.maps(g) == m.maps(g) by {
            assert(m.frames[g] == n.frames[g]);
            if m.maps(g) {
                assert(m.frames[g].page_id != old_page);
            }
        }
        assert forall|g: int|
            #![trigger n.frames[g]]
            0 <= g < n.frames.len() implies (n.replacer.is_tracked(g) <==> n.maps(g)) by {
            assert(m.frames[g] == n.frames[g]);
        }
        assert forall|g: int|
            #![trigger n.frames[g]]
            0 <= g < n.frames.len() implies (n.free_list.contains(g as FrameId) || n.maps(g) || Some(
                f,
            ) == Some(g as FrameId)) by {
            assert(m.frames[g] == n.frames[g]);
        }
        assert forall|p: PageId| #[trigger] n.page_table.contains_key(p) implies {
            &&& (n.page_table[p] as int) < n.frames.len()
            &&& n.frames[n.page_table[p] as int].page_id == p
            &&& !n.free_list.contains(n.page_table[p])
        } by {
            assert(m.page_table.contains_key(p));
        }
    }

    /// Puts `page` into the detached frame `f` and pins it there.
    fn install(&mut self, f: FrameId, page: Page)
        requires
            old(self).inv(Some(f)),
            !old(self)@.is_resident(page.page_id),
            page.pin_count > 0,
            old(self)@.replacer.now < u64::MAX,
        ensures
            final(self).wf(),
            final(self)@ == old(self)@.install(f, page),
    {
        let ghost m = self@;
        self.pool.set(f as usize, page);
        self.page_table.insert(page.page_id, f);
        self.replacer.record_access(f);
        self.replacer.set_evictable(f, false);
        proof {
            let n = self@;
            assert(n.frames =~= m.frames.update(f as int, page));
            assert(n == m.install(f, page));
            assert(n.maps(f as int));
            assert forall|g: int| 0 <= g < n.frames.len() && g != f implies n.maps(g) == m.maps(g) by {
                assert(m.frames[g] == n.frames[g]);
                if m.maps(g) {
                    assert(m.page_table.contains_key(m.frames[g].page_id));
                }
            }
            assert forall|g: int|
                #![trigger n.frames[g]]
                0 <= g < n.frames.len() implies (n.replacer.is_tracked(g) <==> n.maps(g)) by {
                if g != f {
                    assert(m.frames[g] == n.frames[g]);
                }
            }
            assert forall|g: int|
                #![trigger n.frames[g]]
                n.maps(g) implies (n.replacer.evictable[g] <==> n.frames[g].pin_count == 0) by {
                if g != f {
                    assert(m.frames[g] == n.frames[g]);
                }
            }
            assert forall|g: int|
                #![trigger n.frames[g]]
                0 <= g < n.frames.len() implies (n.free_list.contains(g as FrameId) || n.maps(g)
                    || None::<FrameId> == Some(g as FrameId)) by {
                if g != f {
                    assert(m.frames[g] == n.frames[g]);
                }
            }
            assert forall|p: PageId| #[trigger] n.page_table.contains_key(p) implies {
                &&& (n.page_table[p] as int) < n.frames.len()
                &&& n.frames[n.page_table[p] as int].page_id == p
                &&& !n.free_list.contains(n.page_table[p])
            } by {
                if p != page.page_id {
                    assert(m.page_table.contains_key(p));
                    assert(m.page_table[p] != f);
                }
            }
        }
    }

    /// Brings `page` into a frame, evicting another page when no frame is free.
    fn load(&mut self, page: Page) -> (r: Option<PinnedPage>)
        requires
            old(self).wf(),
            !old(self)@.is_resident(page.page_id),
            page.pin_count > 0,
            old(self)@.can_allocate() ==> old(self)@.replacer.now < u64::MAX,
        ensures
            final(self).wf(),
            (final(self)@, r) == old(self)@.load(page),
    {
        match self.acquire_frame() {
            Some((frame_id, write_back)) => {
                self.install(frame_id, page);
                Some(PinnedPage { frame_id, page_id: page.page_id, write_back })
            },
            None => None,
        }
    }

    /// Places a new page, of id `page_id` as the disk allocated it, in a frame
    /// and pins it. Returns `None`, changing nothing, when every frame holds a
    /// pinned page.
    pub fn new_page(&mut self, page_id: PageId) -> (r: Option<PinnedPage>)
        requires
            old(self).wf(),
            !old(self)@.is_resident(page_id),
            old(self)@.can_allocate() ==> old(self)@.replacer.now < u64::MAX,
        ensures
            final(self).wf(),
            (final(self)@, r) == old(self)@.new_page(page_id),
    {
        self.load(Page { page_id, data: [0u8; BUSTUBX_PAGE_SIZE], is_dirty: false, pin_count: 1 })
    }

    /// Pins page `page_id`. A resident page is found in its frame; another is
    /// loaded from `loaded`, what the disk holds of it, into a frame taken as
    /// `new_page` takes one.
    pub fn fetch_page(&mut self, page_id: PageId, loaded: Option<PageData>) -> (r: Option<
        PinnedPage,
    >)
        requires
            old(self).wf(),
            old(self)@.is_resident(page_id) ==> old(self)@.page_of(page_id).pin_count < u32::MAX,
            !old(self)@.is_resident(page_id) && old(self)@.can_allocate() ==> loaded is Some
                && old(self)@.replacer.now < u64::MAX,
        ensures
            final(self).wf(),
            (final(self)@, r) == old(self)@.fetch_page(page_id, loaded),
    {
        match self.page_table.get(&page_id) {
            Some(f) => {
                let frame_id = *f;
                let ghost m = self@;
                proof {
                    assert(m.page_table.contains_key(page_id));
                }
                let mut page = self.pool[frame_id as usize];
                page.pin_count = page.pin_count + 1;
                self.pool.set(frame_id as usize, page);
                self.replacer.set_evictable(frame_id, false);
                proof {
                    let n = self@;
                    assert(n == m.fetch_page(page_id, loaded).0);
                    assert forall|g: int|
                        #![trigger n.frames[g]]
                        0 <= g < n.frames.len() implies n.maps(g) == m.maps(g) && (
                        n.replacer.is_tracked(g) <==> n.maps(g)) && (n.maps(g) ==> (
                        n.replacer.evictable[g] <==> n.frames[g].pin_count == 0)) && (
                        n.free_list.contains(g as FrameId) || n.maps(g) || None::<FrameId> == Some(
                            g as FrameId,
                        )) by {
                        assert(m.frames[g].page_id == n.frames[g].page_id);
                        if g != frame_id {
                            assert(m.frames[g] == n.frames[g]);
                        }
                    }
                }
                Some(PinnedPage { frame_id, page_id, write_back: None })
            },
            None => {
                if self.free_list.len() == 0 && self.replacer.size() == 0 {
                    return None;
                }
                let data = loaded.unwrap();
                self.load(Page { page_id, data, is_dirty: false, pin_count: 1 })
            },
        }
    }

    /// As `fetch_page`: the page is pinned for a caller that changes it. Both
    /// have the same contract, so from equal states they give equal results
    /// and leave equal states.
    pub fn fetch_page_mut(&mut self, page_id: PageId, loaded: Option<PageData>) -> (r: Option<
        PinnedPage,
    >)
        requires
            old(self).wf(),
            old(self)@.is_resident(page_id) ==> old(self)@.page_of(page_id).pin_count < u32::MAX,
            !old(self)@.is_resident(page_id) && old(self)@.can_allocate() ==> loaded is Some
                && old(self)@.replacer.now < u64::MAX,
        ensures
            final(self).wf(),
            (final(self)@, r) == old(self)@.fetch_page(page_id, loaded),
    {
        self.fetch_page(page_id, loaded)
    }

    /// Replaces the contents of a resident page and marks it dirty; does
    /// nothing for a page that is not resident.
    pub fn write_page(&mut self, page_id: PageId, data: PageData)
        requires
            old(self).wf(),
        ensures
            final(self).wf(),
            final(self)@ == old(self)@.write_page(page_id, data),
    {
        match self.page_table.get(&page_id) {
            Some(f) => {
                let frame_id = *f;
                let ghost m = self@;
                proof {
                    assert(m.page_table.contains_key(page_id));
                }
                let mut page = self.pool[frame_id as usize];
                page.data = data;
                page.is_dirty = true;
                self.pool.set(frame_id as usize, page);
                proof {
                    let n = self@;
                    assert(n == m.write_page(page_id, data));
                    assert forall|g: int|
                        #![trigger n.frames[g]]
                        0 <= g < n.frames.len() implies n.maps(g) == m.maps(g) && (n.maps(g) ==> (
                        n.frames[g].pin_count == m.frames[g].pin_count)) by {
                        assert(m.frames[g].page_id == n.frames[g].page_id);
                    }
                }
            },
            None => {},
        }
    }

    /// Releases one pin of a resident page and marks it dirty when `is_dirty`.
    /// Returns false, changing nothing, when the page is not resident or not
    /// pinned. The page becomes evictable when its last pin goes.
    pub fn unpin_page(&mut self, page_id: PageId, is_dirty: bool) -> (r: bool)
        requires
            old(self).wf(),
        ensures
            final(self).wf(),
            (final(self)@, r) == old(self)@.unpin_page(page_id, is_dirty),
    {
        match self.page_table.get(&page_id) {
            Some(f) => {
                let frame_id = *f;
                let ghost m = self@;
                proof {
                    assert(m.page_table.contains_key(page_id));
                }
                let mut page = self.pool[frame_id as usize];
                if page.pin_count == 0 {
                    return false;
                }
                page.pin_count = page.pin_count - 1;
                page.is_dirty = page.is_dirty || is_dirty;
                self.pool.set(frame_id as usize, page);
                if page.pin_count == 0 {
                    self.replacer.set_evictable(frame_id, true);
                }
                proof {
                    let n = self@;
                    assert(n == m.unpin_page(page_id, is_dirty).0);
                    assert forall|g: int|
                        #![trigger n.frames[g]]
                        0 <= g < n.frames.len() implies n.maps(g) == m.maps(g) && (
                        n.replacer.is_tracked(g) <==> n.maps(g)) && (n.maps(g) ==> (
                        n.replacer.evictable[g] <==> n.frames[g].pin_count == 0)) by {
                        assert(m.frames[g].page_id == n.frames[g].page_id);
                        if g != frame_id {
                            assert(m.frames[g] == n.frames[g]);
                        }
                    }
                }
                true
            },
            None => false,
        }
    }

    /// Marks a resident page clean and returns it for writing to disk;
    /// returns `None` for a page that is not resident.
    pub fn flush_page(&mut self, page_id: PageId) -> (r: Option<WriteBack>)
        requires
            old(self).wf(),
        ensures
            final(self).wf(),
            (final(self)@, r) == old(self)@.flush_page(page_id),
    {
        match self.page_table.get(&page_id) {
            Some(f) => {
                let frame_id = *f;
                let ghost m = self@;
                proof {
                    assert(m.page_table.contains_key(page_id));
                }
                let mut page = self.pool[frame_id as usize];
                page.is_dirty = false;
                self.pool.set(frame_id as usize, page);
                proof {
                    let n = self@;
                    assert(n == m.flush_page(page_id).0);
                    assert forall|g: int|
                        #![trigger n.frames[g]]
                        0 <= g < n.frames.len() implies n.maps(g) == m.maps(g) && (n.maps(g) ==> (
                        n.frames[g].pin_count == m.frames[g].pin_count)) by {
                        assert(m.frames[g].page_id == n.frames[g].page_id);
                    }
                }
                Some(WriteBack { page_id, data: page.data })
            },
            None => None,
        }
    }

    /// Marks every resident page clean and returns them all for writing to
    /// disk, in frame order.
    pub fn flush_all_pages(&mut self) -> (r: Vec<WriteBack>)
        requires
            old(self).wf(),
        ensures
            final(self).wf(),
            (final(self)@, r@) == old(self)@.flush_all_pages(),
    {
        let ghost m = self@;
        let mut out: Vec<WriteBack> = Vec::new();
        let mut f: usize = 0;
        while f < self.num_pages
            invariant
                self.wf(),
                self.num_pages == m.frames.len(),
                m.wf(),
                f <= m.frames.len(),
                self@.page_table == m.page_table,
                self@.free_list == m.free_list,
                self@.replacer == m.replacer,
                self@.frames.len() == m.frames.len(),
                forall|g: int|
                    #![trigger self@.frames[g]]
                    0 <= g < m.frames.len() ==> self@.frames[g] == (if g < f && m.maps(g) {
                        Page { is_dirty: false, ..m.frames[g] }
                    } else {
                        m.frames[g]
                    }),
                out@ == m.resident_write_backs(f as int),
            decreases m.frames.len() - f,
        {
            let page = self.pool[f];
            let resident = match self.page_table.get(&page.page_id) {
                Some(g) => *g as usize == f,
                None => false,
            };
            proof {
                assert(self@.frames[f as int] == m.frames[f as int]);
                assert(resident == m.maps(f as int));
            }
            if resident {
                let ghost s = self@;
                out.push(WriteBack { page_id: page.page_id, data: page.data });
                self.pool.set(f, Page { is_dirty: false, ..page });
                proof {
                    let n = self@;
                    assert forall|g: int|
                        #![trigger n.frames[g]]
                        0 <= g < n.frames.len() implies n.maps(g) == s.maps(g) && (n.maps(g) ==> (
                        n.frames[g].pin_count == s.frames[g].pin_count)) by {
                        assert(s.frames[g].page_id == n.frames[g].page_id);
                    }
                }
            }
            f = f + 1;
        }
        proof {
            assert(self@.frames =~= m.flush_all_pages().0.frames);
        }
        out
    }

    /// Removes a page that is not pinned from the pool and frees its frame.
    /// Returns true when the page is not resident, and false, changing
    /// nothing, when it is pinned.
    pub fn delete_page(&mut self, page_id: PageId) -> (r: bool)
        requires
            old(self).wf(),
        ensures
            final(self).wf(),
            (final(self)@, r) == old(self)@.delete_page(page_id),
    {
        if !self.page_table.contains_key(&page_id) {
            return true;
        }
        let frame_id = *self.page_table.get(&page_id).unwrap();
        proof {
            assert(self@.page_table.contains_key(page_id));
        }
        if self.pool[frame_id as usize].pin_count > 0 {
            return false;
        }
        let ghost m = self@;
        let mut page = self.pool[frame_id as usize];
        page.destroy();
        self.pool.set(frame_id as usize, page);
        self.page_table.remove(&page_id);
        self.free_list.push_back(frame_id);
        proof {
            assert(m.maps(frame_id as int));
        }
        self.replacer.remove(frame_id);
        proof {
            let n = self@;
            assert(n.frames =~= m.delete_page(page_id).0.frames);
            assert(n == m.delete_page(page_id).0);
            assert forall|x: FrameId| n.free_list.contains(x) <==> (m.free_list.contains(x)
                || x == frame_id) by {
                if m.free_list.contains(x) {
                    let i = choose|i: int| 0 <= i < m.free_list.len() && m.free_list[i] == x;
                    assert(n.free_list[i] == x);
                }
                if x == frame_id {
                    assert(n.free_list[m.free_list.len() as int] == x);
                }
            }
            assert(!m.free_list.contains(frame_id));
            assert forall|i: int, j: int|
                0 <= i < n.free_list.len() && 0 <= j < n.free_list.len() && i != j implies n.free_list[i]
                != n.free_list[j] by {
                if i < m.free_list.len() as int && j < m.free_list.len() as int {
                } else if i < m.free_list.len() as int {
                    assert(m.free_list.contains(n.free_list[i]));
                } else if j < m.free_list.len() as int {
                    assert(m.free_list.contains(n.free_list[j]));
                }
            }
            assert forall|g: int|
                #![trigger n.frames[g]]
                0 <= g < n.frames.len() && g != frame_id implies n.maps(g) == m.maps(g) by {
                assert(m.frames[g] == n.frames[g]);
                if m.maps(g) {
                    assert(m.frames[g].page_id != page_id);
                }
            }
            assert(!n.maps(frame_id as int));
            assert forall|g: int|
                #![trigger n.frames[g]]
                0 <= g < n.frames.len() implies (n.replacer.is_tracked(g) <==> n.maps(g)) && (
                n.free_list.contains(g as FrameId) || n.maps(g) || None::<FrameId> == Some(
                    g as FrameId,
                )) && (n.maps(g) ==> (n.replacer.evictable[g] <==> n.frames[g].pin_count == 0)) by {
                if g != frame_id {
                    assert(m.frames[g] == n.frames[g]);
                }
            }
            assert forall|p: PageId| #[trigger] n.page_table.contains_key(p) implies {
                &&& (n.page_table[p] as int) < n.frames.len()
                &&& n.frames[n.page_table[p] as int].page_id == p
                &&& !n.free_list.contains(n.page_table[p])
            } by {
                assert(m.page_table.contains_key(p));
                assert(m.page_table[p] != frame_id);
            }
            assert forall|i: int| 0 <= i < n.free_list.len() implies (#[trigger] n.free_list[i] as int)
                < n.frames.len() by {
                if i < m.free_list.len() {
                    assert(n.free_list[i] == m.free_list[i]);
                }
            }
        }
        true
    }
}

/// What the replacer promises of its victim, restated for the pool.
proof fn lemma_victim_facts(r: ReplacerModel)
    requires
        r.wf(),
        r.victim() is Some,
    ensures
        r.is_victim(r.victim().unwrap() as int),
{
}

} // verus!
