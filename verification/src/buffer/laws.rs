//! Properties of the buffer pool that span several operations.
use vstd::prelude::*;

use crate::buffer::buffer_pool::{BufferPoolModel, PinnedPage, WriteBack};
use crate::buffer::page::{zeroed_data, Page, PageData};
use crate::buffer::{FrameId, PageId};
use vstd::set_lib::{lemma_int_range, lemma_map_size, lemma_set_disjoint_lens, lemma_set_subset_finite, set_int_range};
use vstd::relations::injective_on;
use crate::buffer::replacer::{count_true, lemma_count_true_bounds, lemma_victim_exists, lemma_victim_spec};

verus! {

/// Pinning a resident page and releasing that pin without dirtying it leaves
/// the pool as it was.
pub proof fn law_fetch_then_unpin_restores(m: BufferPoolModel, page_id: PageId, loaded: Option<PageData>)
    requires
        m.wf(),
        m.is_resident(page_id),
        m.page_of(page_id).pin_count < u32::MAX,
    ensures
        m.fetch_page(page_id, loaded).0.unpin_page(page_id, false) == (m, true),
{
    let f = m.frame_of(page_id) as int;
    let m1 = m.fetch_page(page_id, loaded).0;
    let m2 = m1.unpin_page(page_id, false).0;
    assert(m.maps(f));
    assert(m2.frames =~= m.frames);
    if m.frames[f].pin_count == 0 {
        assert(m2.replacer.evictable =~= m.replacer.evictable);
    } else {
        assert(m2.replacer.evictable =~= m.replacer.evictable);
    }
    assert(m2.replacer == m.replacer);
}

/// A fetch of a resident page gives back what the last write to it wrote.
pub proof fn law_fetch_reads_written_data(
    m: BufferPoolModel,
    page_id: PageId,
    data: PageData,
    loaded: Option<PageData>,
)
    requires
        m.wf(),
        m.is_resident(page_id),
    ensures
        ({
            let (m2, r) = m.write_page(page_id, data).fetch_page(page_id, loaded);
            &&& r == Some(
                crate::buffer::buffer_pool::PinnedPage {
                    frame_id: m.frame_of(page_id),
                    page_id,
                    write_back: None,
                },
            )
            &&& m2.is_resident(page_id)
            &&& m2.page_of(page_id).data == data
            &&& m2.page_of(page_id).is_dirty
        }),
{
}

/// Bringing a page in never removes a pinned page: every page that was
/// pinned stays in its frame, unchanged.
pub proof fn law_load_keeps_pinned_pages(m: BufferPoolModel, page: Page, q: PageId)
    requires
        m.wf(),
        !m.is_resident(page.page_id),
        m.is_resident(q),
        m.page_of(q).pin_count > 0,
    ensures
        m.load(page).0.is_resident(q),
        m.load(page).0.frame_of(q) == m.frame_of(q),
        m.load(page).0.page_of(q) == m.page_of(q),
{
    let f = m.frame_of(q) as int;
    assert(m.maps(f));
    if m.can_allocate() && m.free_list.len() == 0 {
        crate::buffer::replacer::lemma_victim_exists(m.replacer);
        let v = m.replacer.victim().unwrap() as int;
        assert(m.replacer.is_victim(v));
        assert(v != f);
    }
    if m.can_allocate() && m.free_list.len() > 0 {
        assert(m.free_list.contains(m.free_list[0]));
        assert(m.free_list[0] != f);
    }
}

/// A new page comes in pinned once, clean and zeroed, unless no frame can be had.
pub proof fn law_new_page_is_pinned_and_blank(m: BufferPoolModel, page_id: PageId)
    requires
        m.wf(),
        !m.is_resident(page_id),
    ensures
        m.new_page(page_id).1 is Some <==> m.can_allocate(),
        m.new_page(page_id).1 is None ==> m.new_page(page_id).0 == m,
        m.new_page(page_id).1 is Some ==> {
            let m2 = m.new_page(page_id).0;
            &&& m2.is_resident(page_id)
            &&& m2.page_of(page_id) == Page {
                page_id,
                data: zeroed_data(),
                is_dirty: false,
                pin_count: 1,
            }
        },
{
    if m.can_allocate() {
        if m.free_list.len() == 0 {
            crate::buffer::replacer::lemma_victim_exists(m.replacer);
            let v = m.replacer.victim().unwrap() as int;
            crate::buffer::replacer::lemma_victim_spec(m.replacer, v);
        }
    }
}

/// An unpin that releases the last pin makes the page's frame evictable.
pub proof fn law_last_unpin_makes_evictable(m: BufferPoolModel, page_id: PageId, is_dirty: bool)
    requires
        m.wf(),
        m.is_resident(page_id),
        m.page_of(page_id).pin_count == 1,
    ensures
        m.unpin_page(page_id, is_dirty).1,
        m.unpin_page(page_id, is_dirty).0.replacer.is_evictable(m.frame_of(page_id) as int),
{
    assert(m.maps(m.frame_of(page_id) as int));
}

/// Deleting fails exactly for a pinned resident page; after a successful
/// delete the page is not resident.
pub proof fn law_delete_page(m: BufferPoolModel, page_id: PageId)
    requires
        m.wf(),
    ensures
        !m.delete_page(page_id).1 <==> (m.is_resident(page_id) && m.page_of(page_id).pin_count
            > 0),
        m.delete_page(page_id).1 ==> !m.delete_page(page_id).0.is_resident(page_id),
{
}

/// A flushed page is clean, and the flush hands back exactly its contents.
pub proof fn law_flush_page(m: BufferPoolModel, page_id: PageId)
    requires
        m.wf(),
        m.is_resident(page_id),
    ensures
        m.flush_page(page_id).1 == Some(
            crate::buffer::buffer_pool::WriteBack { page_id, data: m.page_of(page_id).data },
        ),
        !m.flush_page(page_id).0.page_of(page_id).is_dirty,
        m.flush_page(page_id).0.page_of(page_id).data == m.page_of(page_id).data,
{
}

/// Every frame is either free or holds a resident page: the resident pages
/// and the free frames together number the frames of the pool.
pub proof fn law_frames_free_or_resident(m: BufferPoolModel)
    requires
        m.wf(),
    ensures
        m.page_table.dom().finite(),
        m.page_table.len() + m.free_list.len() == m.frames.len(),
{
    let n = m.frames.len() as int;
    let all = set_int_range(0, n);
    lemma_int_range(0, n);
    let resident = all.filter(|f: int| m.maps(f));
    let to_int = |x: FrameId| x as int;
    let free_set = m.free_list.to_set();
    let free_ints = free_set.map(to_int);
    m.free_list.unique_seq_to_set();
    assert(injective_on(to_int, free_set)) by {
        assert forall|a: FrameId, b: FrameId|
            free_set.contains(a) && free_set.contains(b) && to_int(a) == to_int(b) implies a == b by {}
    }
    lemma_map_size(free_set, free_ints, to_int);
    assert(resident.subset_of(all));
    lemma_set_subset_finite(all, resident);
    assert forall|f: int| #[trigger] all.contains(f) implies (resident + free_ints).contains(f) by {
        assert(m.frames[f] == m.frames[f]);
        if !m.maps(f) {
            assert(m.free_list.contains(f as FrameId));
            assert(free_set.contains(f as FrameId));
            assert(to_int(f as FrameId) == f);
        }
    }
    assert forall|f: int| #[trigger] (resident + free_ints).contains(f) implies all.contains(f) by {
        if free_ints.contains(f) {
            let x = choose|x: FrameId| free_set.contains(x) && to_int(x) == f;
            let i = choose|i: int| 0 <= i < m.free_list.len() && m.free_list[i] == x;
            assert((m.free_list[i] as int) < n);
        }
    }
    assert(resident + free_ints =~= all);
    assert(resident.disjoint(free_ints)) by {
        assert forall|f: int| resident.contains(f) implies !free_ints.contains(f) by {
            if free_ints.contains(f) {
                let x = choose|x: FrameId| free_set.contains(x) && to_int(x) == f;
                assert(m.page_table.contains_key(m.frames[f].page_id));
                assert(x == m.page_table[m.frames[f].page_id]);
            }
        }
    }
    lemma_set_disjoint_lens(resident, free_ints);
    let page_of_frame = |f: int| m.frames[f].page_id;
    assert(injective_on(page_of_frame, resident)) by {
        assert forall|a: int, b: int|
            resident.contains(a) && resident.contains(b) && page_of_frame(a) == page_of_frame(
                b,
            ) implies a == b by {}
    }
    assert(resident.map(page_of_frame) =~= m.page_table.dom()) by {
        assert forall|p: PageId| #[trigger] m.page_table.dom().contains(p) implies resident.map(
            page_of_frame,
        ).contains(p) by {
            let f = m.page_table[p] as int;
            assert(m.frames[f] == m.frames[f]);
            assert(resident.contains(f));
            assert(page_of_frame(f) == p);
        }
    }
    lemma_map_size(resident, m.page_table.dom(), page_of_frame);
}

/// The replacer may evict exactly the frames of resident pages that nobody
/// pins.
pub proof fn law_evictable_iff_unpinned(m: BufferPoolModel, page_id: PageId)
    requires
        m.wf(),
        m.is_resident(page_id),
    ensures
        m.replacer.is_evictable(m.frame_of(page_id) as int) <==> m.page_of(page_id).pin_count == 0,
{
    assert(m.maps(m.frame_of(page_id) as int));
}

/// No frame can be had for a new page exactly when every frame holds a
/// resident page that is pinned.
pub proof fn law_full_iff_all_pinned(m: BufferPoolModel)
    requires
        m.wf(),
    ensures
        !m.can_allocate() <==> forall|f: int|
            0 <= f < m.frames.len() ==> m.maps(f) && (#[trigger] m.frames[f]).pin_count > 0,
{
    lemma_count_true_bounds(m.replacer.evictable);
    if !m.can_allocate() {
        assert forall|f: int| 0 <= f < m.frames.len() implies m.maps(f) && (
        #[trigger] m.frames[f]).pin_count > 0 by {
            if !m.maps(f) {
                assert(m.free_list.contains(f as FrameId));
            }
            assert(!m.replacer.evictable[f]);
        }
    }
    if forall|f: int| 0 <= f < m.frames.len() ==> m.maps(f) && (#[trigger] m.frames[f]).pin_count
        > 0 {
        if m.free_list.len() > 0 {
            let f = m.free_list[0] as int;
            assert(m.free_list.contains(m.free_list[0]));
            assert(m.maps(f) && m.frames[f].pin_count > 0);
            assert(m.page_table.contains_key(m.frames[f].page_id));
        }
        assert forall|f: int| 0 <= f < m.replacer.evictable.len() implies !m.replacer.evictable[f] by {
            assert(m.maps(f) && m.frames[f].pin_count > 0);
        }
    }
}

/// The disk after a write-back, if any, is performed.
pub open spec fn apply_write_back(disk: Map<PageId, PageData>, wb: Option<WriteBack>) -> Map<
    PageId,
    PageData,
> {
    match wb {
        Some(w) => disk.insert(w.page_id, w.data),
        None => disk,
    }
}

/// Every clean resident page holds what the disk holds for it.
pub open spec fn coherent(m: BufferPoolModel, disk: Map<PageId, PageData>) -> bool {
    forall|p: PageId|
        #![trigger m.page_table[p]]
        m.is_resident(p) && !m.page_of(p).is_dirty ==> disk.contains_key(p) && disk[p]
            == m.page_of(p).data
}

/// What a reader of page `p` gets: its frame when resident, else the disk.
pub open spec fn content(m: BufferPoolModel, disk: Map<PageId, PageData>, p: PageId) -> PageData {
    if m.is_resident(p) {
        m.page_of(p).data
    } else {
        disk[p]
    }
}

/// What a fetch of `p` reads from disk: nothing for a resident page.
pub open spec fn disk_read(m: BufferPoolModel, disk: Map<PageId, PageData>, p: PageId) -> Option<
    PageData,
> {
    if m.is_resident(p) {
        None
    } else {
        Some(disk[p])
    }
}

/// The write-back that a result hands to the disk.
pub open spec fn result_write_back(r: Option<PinnedPage>) -> Option<WriteBack> {
    match r {
        Some(pinned) => pinned.write_back,
        None => None,
    }
}

/// Bringing a page in from disk keeps what every page reads as, provided the
/// evicted page's write-back is performed.
proof fn lemma_load_keeps_content(m: BufferPoolModel, disk: Map<PageId, PageData>, page: Page)
    requires
        m.wf(),
        coherent(m, disk),
        !m.is_resident(page.page_id),
        !page.is_dirty,
        disk.contains_key(page.page_id),
        disk[page.page_id] == page.data,
    ensures
        ({
            let (m2, r) = m.load(page);
            let disk2 = apply_write_back(disk, result_write_back(r));
            &&& coherent(m2, disk2)
            &&& forall|q: PageId| #[trigger] content(m2, disk2, q) == content(m, disk, q)
        }),
{
    let (m2, r) = m.load(page);
    let disk2 = apply_write_back(disk, result_write_back(r));
    if m.can_allocate() {
        let f = m.target_frame();
        if m.free_list.len() > 0 {
            assert(m.free_list.contains(m.free_list[0]));
            assert(!m.maps(f as int));
            assert forall|q: PageId| q != page.page_id && m.is_resident(q) implies m2.is_resident(q)
                && m2.page_of(q) == m.page_of(q) by {
                assert(m.page_table[q] != f);
            }
        } else {
            lemma_victim_exists(m.replacer);
            lemma_victim_spec(m.replacer, f as int);
            assert(m.replacer.is_tracked(f as int));
            assert(m.frames[f as int] == m.frames[f as int]);
            assert(m.maps(f as int));
            let evicted = m.frames[f as int].page_id;
            assert(evicted != page.page_id);
            assert forall|q: PageId|
                q != page.page_id && q != evicted && m.is_resident(q) implies m2.is_resident(q)
                && m2.page_of(q) == m.page_of(q) by {
                assert(m.page_table[q] != f);
            }
            assert(content(m2, disk2, evicted) == content(m, disk, evicted)) by {
                if !m.frames[f as int].is_dirty {
                    assert(m.page_table[evicted] == f);
                }
            }
        }
        assert forall|q: PageId| #[trigger] content(m2, disk2, q) == content(m, disk, q) by {
            if m.free_list.len() == 0 {
                let evicted = m.frames[f as int].page_id;
                if q != evicted && q != page.page_id && m.is_resident(q) {
                    assert(m2.is_resident(q));
                }
            } else if q != page.page_id && m.is_resident(q) {
                assert(m2.is_resident(q));
            }
        }
        assert forall|q: PageId| #![trigger m2.page_table[q]]
            m2.is_resident(q) && !m2.page_of(q).is_dirty implies disk2.contains_key(q) && disk2[q]
            == m2.page_of(q).data by {
            if q != page.page_id {
                assert(m.is_resident(q));
                assert(m.page_table[q] == m2.page_table[q]);
            }
        }
    }
}

/// The pool caches the disk faithfully: when the caller performs every
/// write-back it hands out and supplies what the disk holds for a page it
/// must read, every page reads as before a fetch.
pub proof fn law_fetch_keeps_content(
    m: BufferPoolModel,
    disk: Map<PageId, PageData>,
    page_id: PageId,
)
    requires
        m.wf(),
        coherent(m, disk),
        m.is_resident(page_id) ==> m.page_of(page_id).pin_count < u32::MAX,
        !m.is_resident(page_id) ==> disk.contains_key(page_id),
    ensures
        ({
            let (m2, r) = m.fetch_page(page_id, disk_read(m, disk, page_id));
            let disk2 = apply_write_back(disk, result_write_back(r));
            &&& coherent(m2, disk2)
            &&& forall|q: PageId| #[trigger] content(m2, disk2, q) == content(m, disk, q)
        }),
{
    if m.is_resident(page_id) {
        let f = m.frame_of(page_id);
        let (m2, r) = m.fetch_page(page_id, None);
        assert forall|q: PageId| #[trigger] content(m2, disk, q) == content(m, disk, q) by {
            if m.is_resident(q) && q != page_id {
                assert(m.page_table[q] != f);
            }
        }
        assert forall|q: PageId| #![trigger m2.page_table[q]]
            m2.is_resident(q) && !m2.page_of(q).is_dirty implies disk.contains_key(q) && disk[q]
            == m2.page_of(q).data by {
            if q != page_id {
                assert(m.page_table[q] != f);
            }
        }
    } else {
        lemma_load_keeps_content(
            m,
            disk,
            Page { page_id, data: disk[page_id], is_dirty: false, pin_count: 1 },
        );
    }
}

/// A new page reads as the zeroed page that the disk allocated for it, and
/// every other page reads as before.
pub proof fn law_new_page_keeps_content(
    m: BufferPoolModel,
    disk: Map<PageId, PageData>,
    page_id: PageId,
)
    requires
        m.wf(),
        coherent(m, disk),
        !m.is_resident(page_id),
        disk.contains_key(page_id),
        disk[page_id] == zeroed_data(),
    ensures
        ({
            let (m2, r) = m.new_page(page_id);
            let disk2 = apply_write_back(disk, result_write_back(r));
            &&& coherent(m2, disk2)
            &&& forall|q: PageId| #[trigger] content(m2, disk2, q) == content(m, disk, q)
        }),
{
    lemma_load_keeps_content(
        m,
        disk,
        Page { page_id, data: zeroed_data(), is_dirty: false, pin_count: 1 },
    );
}

/// A write changes what its page reads as, and nothing else.
pub proof fn law_write_page_content(
    m: BufferPoolModel,
    disk: Map<PageId, PageData>,
    page_id: PageId,
    data: PageData,
)
    requires
        m.wf(),
        coherent(m, disk),
    ensures
        coherent(m.write_page(page_id, data), disk),
        forall|q: PageId|
            q != page_id ==> #[trigger] content(m.write_page(page_id, data), disk, q) == content(
                m,
                disk,
                q,
            ),
        m.is_resident(page_id) ==> content(m.write_page(page_id, data), disk, page_id) == data,
{
    let m2 = m.write_page(page_id, data);
    if m.is_resident(page_id) {
        let f = m.frame_of(page_id);
        assert forall|q: PageId| q != page_id && m.is_resident(q) implies m2.page_of(q) == m.page_of(
            q,
        ) by {
            assert(m.page_table[q] != f);
        }
        assert forall|q: PageId| #![trigger m2.page_table[q]]
            m2.is_resident(q) && !m2.page_of(q).is_dirty implies disk.contains_key(q) && disk[q]
            == m2.page_of(q).data by {
            if q != page_id {
                assert(m.page_table[q] != f);
            }
        }
    }
}

/// Unpinning, flushing (with its write-back performed) and deleting a page
/// that is not pinned keep what every other page reads as.
pub proof fn law_unpin_flush_delete_keep_content(
    m: BufferPoolModel,
    disk: Map<PageId, PageData>,
    page_id: PageId,
    is_dirty: bool,
)
    requires
        m.wf(),
        coherent(m, disk),
    ensures
        coherent(m.unpin_page(page_id, is_dirty).0, disk),
        forall|q: PageId| #[trigger]
            content(m.unpin_page(page_id, is_dirty).0, disk, q) == content(m, disk, q),
        coherent(m.flush_page(page_id).0, apply_write_back(disk, m.flush_page(page_id).1)),
        forall|q: PageId| #[trigger]
            content(m.flush_page(page_id).0, apply_write_back(disk, m.flush_page(page_id).1), q)
                == content(m, disk, q),
        coherent(m.delete_page(page_id).0, disk),
        forall|q: PageId|
            q != page_id ==> #[trigger] content(m.delete_page(page_id).0, disk, q) == content(
                m,
                disk,
                q,
            ),
{
    if m.is_resident(page_id) {
        let f = m.frame_of(page_id);
        let mu = m.unpin_page(page_id, is_dirty).0;
        let mf = m.flush_page(page_id).0;
        let md = m.delete_page(page_id).0;
        let df = apply_write_back(disk, m.flush_page(page_id).1);
        assert forall|q: PageId| q != page_id && m.is_resident(q) implies m.page_table[q] != f by {}
        assert forall|q: PageId| #[trigger] content(mu, disk, q) == content(m, disk, q) by {
            if m.is_resident(q) && q != page_id {
                assert(m.page_table[q] != f);
            }
        }
        assert forall|q: PageId| #![trigger mu.page_table[q]]
            mu.is_resident(q) && !mu.page_of(q).is_dirty implies disk.contains_key(q) && disk[q]
            == mu.page_of(q).data by {
            if q != page_id {
                assert(m.page_table[q] != f);
            }
        }
        assert forall|q: PageId| #[trigger] content(mf, df, q) == content(m, disk, q) by {
            if m.is_resident(q) && q != page_id {
                assert(m.page_table[q] != f);
            }
        }
        assert forall|q: PageId| #![trigger mf.page_table[q]]
            mf.is_resident(q) && !mf.page_of(q).is_dirty implies df.contains_key(q) && df[q]
            == mf.page_of(q).data by {
            if q != page_id {
                assert(m.page_table[q] != f);
            }
        }
        assert forall|q: PageId| q != page_id implies #[trigger] content(md, disk, q) == content(
            m,
            disk,
            q,
        ) by {
            if m.is_resident(q) {
                assert(m.page_table[q] != f);
            }
        }
        assert forall|q: PageId| #![trigger md.page_table[q]]
            md.is_resident(q) && !md.page_of(q).is_dirty implies disk.contains_key(q) && disk[q]
            == md.page_of(q).data by {
            if m.page_of(page_id).pin_count == 0 {
                assert(q != page_id);
                assert(m.is_resident(q));
                assert(m.page_table[q] != f);
            }
        }
    }
}

/// The disk after the write-backs are performed in order.
pub open spec fn apply_write_backs(disk: Map<PageId, PageData>, wbs: Seq<WriteBack>) -> Map<
    PageId,
    PageData,
>
    decreases wbs.len(),
{
    if wbs.len() == 0 {
        disk
    } else {
        apply_write_backs(disk, wbs.drop_last()).insert(wbs.last().page_id, wbs.last().data)
    }
}

proof fn lemma_apply_resident_write_backs(m: BufferPoolModel, disk: Map<PageId, PageData>, n: int)
    requires
        m.wf(),
        0 <= n <= m.frames.len(),
    ensures
        forall|q: PageId|
            #![trigger apply_write_backs(disk, m.resident_write_backs(n))[q]]
            #![trigger apply_write_backs(disk, m.resident_write_backs(n)).contains_key(q)]
            if m.is_resident(q) && m.frame_of(q) < n {
                &&& apply_write_backs(disk, m.resident_write_backs(n)).contains_key(q)
                &&& apply_write_backs(disk, m.resident_write_backs(n))[q] == m.page_of(q).data
            } else {
                &&& apply_write_backs(disk, m.resident_write_backs(n)).contains_key(q)
                    == disk.contains_key(q)
                &&& apply_write_backs(disk, m.resident_write_backs(n))[q] == disk[q]
            },
    decreases n,
{
    if n > 0 {
        lemma_apply_resident_write_backs(m, disk, n - 1);
        let prev = m.resident_write_backs(n - 1);
        let d0 = apply_write_backs(disk, prev);
        let d = apply_write_backs(disk, m.resident_write_backs(n));
        let pn = m.frames[n - 1].page_id;
        if m.maps(n - 1) {
            assert(m.resident_write_backs(n).drop_last() =~= prev);
            assert(d == d0.insert(pn, m.frames[n - 1].data));
        } else {
            assert(d == d0);
        }
        assert forall|q: PageId| #![trigger d[q]] #![trigger d.contains_key(q)]
            if m.is_resident(q) && m.frame_of(q) < n {
                d.contains_key(q) && d[q] == m.page_of(q).data
            } else {
                d.contains_key(q) == disk.contains_key(q) && d[q] == disk[q]
            } by {
            assert(d0.contains_key(q) == d0.contains_key(q));
            assert(d0[q] == d0[q]);
            if m.is_resident(q) && m.frame_of(q) == n - 1 {
                assert(m.frames[n - 1] == m.frames[n - 1]);
                assert(m.maps(n - 1));
            }
        }
    }
}

/// Flushing every page, with its write-backs performed, leaves every resident
/// page clean and every page reading as before.
pub proof fn law_flush_all_keeps_content(m: BufferPoolModel, disk: Map<PageId, PageData>)
    requires
        m.wf(),
    ensures
        ({
            let (m2, wbs) = m.flush_all_pages();
            let disk2 = apply_write_backs(disk, wbs);
            &&& coherent(m2, disk2)
            &&& forall|q: PageId| m2.is_resident(q) ==> !(#[trigger] m2.page_of(q)).is_dirty
            &&& forall|q: PageId| #[trigger] content(m2, disk2, q) == content(m, disk, q)
        }),
{
    let (m2, wbs) = m.flush_all_pages();
    let n = m.frames.len() as int;
    lemma_apply_resident_write_backs(m, disk, n);
    let disk2 = apply_write_backs(disk, wbs);
    assert forall|q: PageId| m.is_resident(q) implies m2.page_of(q) == (Page {
        is_dirty: false,
        ..m.page_of(q)
    }) by {
        let f = m.frame_of(q) as int;
        assert(m.frames[f] == m.frames[f]);
        assert(m.maps(f));
    }
    assert forall|q: PageId| #[trigger] content(m2, disk2, q) == content(m, disk, q) by {
        assert(disk2.contains_key(q) == disk2.contains_key(q));
        assert(disk2[q] == disk2[q]);
    }
    assert forall|q: PageId| #![trigger m2.page_table[q]]
        m2.is_resident(q) && !m2.page_of(q).is_dirty implies disk2.contains_key(q) && disk2[q]
        == m2.page_of(q).data by {
        assert(disk2.contains_key(q) == disk2.contains_key(q));
        assert(disk2[q] == disk2[q]);
    }
}

/// The positions of `true` entries of a sequence number `count_true` of it.
proof fn lemma_count_true_is_set_len(s: Seq<bool>)
    ensures
        set_int_range(0, s.len() as int).filter(|i: int| s[i]).finite(),
        set_int_range(0, s.len() as int).filter(|i: int| s[i]).len() == count_true(s),
    decreases s.len(),
{
    let all = set_int_range(0, s.len() as int);
    lemma_int_range(0, s.len() as int);
    let trues = all.filter(|i: int| s[i]);
    lemma_set_subset_finite(all, trues);
    if s.len() > 0 {
        let t = s.drop_last();
        lemma_count_true_is_set_len(t);
        let prev = set_int_range(0, t.len() as int).filter(|i: int| t[i]);
        let last = s.len() - 1;
        if s.last() {
            assert(trues =~= prev.insert(last));
        } else {
            assert(trues =~= prev);
        }
    } else {
        assert(trues =~= Set::empty());
    }
}

/// The replacer may evict as many frames as there are resident pages that
/// nobody pins.
pub proof fn law_replacer_size_counts_unpinned_pages(m: BufferPoolModel)
    requires
        m.wf(),
    ensures
        m.page_table.dom().filter(|p: PageId| m.page_of(p).pin_count == 0).finite(),
        m.replacer.size() == m.page_table.dom().filter(|p: PageId| m.page_of(p).pin_count == 0).len(),
{
    let n = m.frames.len() as int;
    let ev = m.replacer.evictable;
    lemma_count_true_is_set_len(ev);
    let frames_set = set_int_range(0, n).filter(|f: int| ev[f]);
    let unpinned = m.page_table.dom().filter(|p: PageId| m.page_of(p).pin_count == 0);
    let page_of_frame = |f: int| m.frames[f].page_id;
    assert(injective_on(page_of_frame, frames_set)) by {
        assert forall|a: int, b: int|
            frames_set.contains(a) && frames_set.contains(b) && page_of_frame(a) == page_of_frame(
                b,
            ) implies a == b by {
            assert(m.frames[a] == m.frames[a]);
            assert(m.frames[b] == m.frames[b]);
            assert(m.replacer.is_tracked(a) && m.replacer.is_tracked(b));
        }
    }
    assert(frames_set.map(page_of_frame) =~= unpinned) by {
        assert forall|p: PageId| #[trigger] unpinned.contains(p) implies frames_set.map(
            page_of_frame,
        ).contains(p) by {
            let f = m.page_table[p] as int;
            assert(m.frames[f] == m.frames[f]);
            assert(m.maps(f));
            assert(frames_set.contains(f));
            assert(page_of_frame(f) == p);
        }
        assert forall|p: PageId| #[trigger] frames_set.map(page_of_frame).contains(p) implies unpinned.contains(p) by {
            let f = choose|f: int| frames_set.contains(f) && page_of_frame(f) == p;
            assert(m.frames[f] == m.frames[f]);
            assert(m.replacer.is_tracked(f));
            assert(m.maps(f));
        }
    }
    lemma_map_size(frames_set, unpinned, page_of_frame);
}

/// A call of the pool, as a caller makes it.
pub enum PoolCall {
    /// `new_page` of a page that the disk has just allocated, zeroed.
    NewPage(PageId),
    /// `fetch_page` (or `fetch_page_mut`), with the disk read when one is due.
    FetchPage(PageId),
    WritePage(PageId, PageData),
    UnpinPage(PageId, bool),
    FlushPage(PageId),
    FlushAllPages,
    DeletePage(PageId),
}

/// The pool and the disk after `call`, with every write-back performed.
pub open spec fn step(m: BufferPoolModel, disk: Map<PageId, PageData>, call: PoolCall) -> (
    BufferPoolModel,
    Map<PageId, PageData>,
) {
    match call {
        PoolCall::NewPage(p) => {
            let allocated = disk.insert(p, zeroed_data());
            let (m2, r) = m.new_page(p);
            (m2, apply_write_back(allocated, result_write_back(r)))
        },
        PoolCall::FetchPage(p) => {
            let (m2, r) = m.fetch_page(p, disk_read(m, disk, p));
            (m2, apply_write_back(disk, result_write_back(r)))
        },
        PoolCall::WritePage(p, d) => (m.write_page(p, d), disk),
        PoolCall::UnpinPage(p, dirty) => (m.unpin_page(p, dirty).0, disk),
        PoolCall::FlushPage(p) => (m.flush_page(p).0, apply_write_back(disk, m.flush_page(p).1)),
        PoolCall::FlushAllPages => (
            m.flush_all_pages().0,
            apply_write_backs(disk, m.flush_all_pages().1),
        ),
        PoolCall::DeletePage(p) => (m.delete_page(p).0, disk),
    }
}

/// The call may be made: the pool is valid and the call's own conditions hold.
pub open spec fn call_allowed(m: BufferPoolModel, disk: Map<PageId, PageData>, call: PoolCall) -> bool {
    &&& m.wf()
    &&& match call {
        PoolCall::NewPage(p) => !m.is_resident(p),
        PoolCall::FetchPage(p) => {
            &&& m.is_resident(p) ==> m.page_of(p).pin_count < u32::MAX
            &&& !m.is_resident(p) ==> disk.contains_key(p)
        },
        _ => true,
    }
}

/// The pool and the disk after the calls, in order.
pub open spec fn run(m: BufferPoolModel, disk: Map<PageId, PageData>, calls: Seq<PoolCall>) -> (
    BufferPoolModel,
    Map<PageId, PageData>,
)
    decreases calls.len(),
{
    if calls.len() == 0 {
        (m, disk)
    } else {
        let (m1, d1) = step(m, disk, calls[0]);
        run(m1, d1, calls.drop_first())
    }
}

/// Each call may be made in the state the previous ones leave, and the pool
/// stays valid.
pub open spec fn run_allowed(m: BufferPoolModel, disk: Map<PageId, PageData>, calls: Seq<PoolCall>) -> bool
    decreases calls.len(),
{
    if calls.len() == 0 {
        m.wf()
    } else {
        let (m1, d1) = step(m, disk, calls[0]);
        call_allowed(m, disk, calls[0]) && run_allowed(m1, d1, calls.drop_first())
    }
}

/// The call neither writes page `p`, nor allocates it anew, nor deletes it.
pub open spec fn leaves_page(call: PoolCall, p: PageId) -> bool {
    match call {
        PoolCall::NewPage(q) => q != p,
        PoolCall::WritePage(q, _) => q != p,
        PoolCall::DeletePage(q) => q != p,
        _ => true,
    }
}

proof fn lemma_step_keeps_content(
    m: BufferPoolModel,
    disk: Map<PageId, PageData>,
    call: PoolCall,
    p: PageId,
)
    requires
        call_allowed(m, disk, call),
        coherent(m, disk),
        leaves_page(call, p),
    ensures
        coherent(step(m, disk, call).0, step(m, disk, call).1),
        content(step(m, disk, call).0, step(m, disk, call).1, p) == content(m, disk, p),
{
    match call {
        PoolCall::NewPage(q) => {
            let allocated = disk.insert(q, zeroed_data());
            assert(coherent(m, allocated)) by {
                assert forall|x: PageId| #![trigger m.page_table[x]]
                    m.is_resident(x) && !m.page_of(x).is_dirty implies allocated.contains_key(x)
                    && allocated[x] == m.page_of(x).data by {
                    assert(x != q);
                }
            }
            law_new_page_keeps_content(m, allocated, q);
            assert(content(m, allocated, p) == content(m, disk, p));
        },
        PoolCall::FetchPage(q) => {
            law_fetch_keeps_content(m, disk, q);
        },
        PoolCall::WritePage(q, d) => {
            law_write_page_content(m, disk, q, d);
        },
        PoolCall::UnpinPage(q, dirty) => {
            law_unpin_flush_delete_keep_content(m, disk, q, dirty);
        },
        PoolCall::FlushPage(q) => {
            law_unpin_flush_delete_keep_content(m, disk, q, false);
        },
        PoolCall::FlushAllPages => {
            law_flush_all_keeps_content(m, disk);
        },
        PoolCall::DeletePage(q) => {
            law_unpin_flush_delete_keep_content(m, disk, q, false);
        },
    }
}

/// What page `p` reads as survives any calls that do not write, reallocate
/// or delete it, evictions and reloads included, when the caller performs
/// the write-backs and reads the disk as the calls ask.
pub proof fn law_run_keeps_content(
    m: BufferPoolModel,
    disk: Map<PageId, PageData>,
    calls: Seq<PoolCall>,
    p: PageId,
)
    requires
        coherent(m, disk),
        run_allowed(m, disk, calls),
        forall|i: int| 0 <= i < calls.len() ==> leaves_page(#[trigger] calls[i], p),
    ensures
        run(m, disk, calls).0.wf(),
        coherent(run(m, disk, calls).0, run(m, disk, calls).1),
        content(run(m, disk, calls).0, run(m, disk, calls).1, p) == content(m, disk, p),
    decreases calls.len(),
{
    if calls.len() > 0 {
        let (m1, d1) = step(m, disk, calls[0]);
        assert(leaves_page(calls[0], p));
        lemma_step_keeps_content(m, disk, calls[0], p);
        assert forall|i: int| 0 <= i < calls.drop_first().len() implies leaves_page(
            #[trigger] calls.drop_first()[i],
            p,
        ) by {
            assert(calls.drop_first()[i] == calls[i + 1]);
        }
        law_run_keeps_content(m1, d1, calls.drop_first(), p);
    }
}

/// Data written into a buffered page survives its eviction: after
/// `write_page(p, data)` and any calls that do not write, reallocate or
/// delete `p`, a fetch of `p` that gets a frame finds `data` in it.
pub proof fn law_write_survives_eviction(
    m: BufferPoolModel,
    disk: Map<PageId, PageData>,
    p: PageId,
    data: PageData,
    calls: Seq<PoolCall>,
)
    requires
        m.wf(),
        coherent(m, disk),
        m.is_resident(p),
        run_allowed(m.write_page(p, data), disk, calls.push(PoolCall::FetchPage(p))),
        forall|i: int| 0 <= i < calls.len() ==> leaves_page(#[trigger] calls[i], p),
    ensures
        ({
            let (f, fd) = run(m.write_page(p, data), disk, calls);
            let (f2, r) = f.fetch_page(p, disk_read(f, fd, p));
            r matches Some(pinned) ==> f2.frames[pinned.frame_id as int].data == data
        }),
{
    let m1 = m.write_page(p, data);
    law_write_page_content(m, disk, p, data);
    lemma_run_allowed_prefix(m1, disk, calls, PoolCall::FetchPage(p));
    law_run_keeps_content(m1, disk, calls, p);
    let (f, fd) = run(m1, disk, calls);
    lemma_run_allowed_last(m1, disk, calls, PoolCall::FetchPage(p));
    law_fetch_keeps_content(f, fd, p);
    let (f2, r) = f.fetch_page(p, disk_read(f, fd, p));
    if r is Some {
        let pinned = r.unwrap();
        lemma_fetch_places_page(f, p, disk_read(f, fd, p));
        let fd2 = apply_write_back(fd, result_write_back(r));
        assert(content(f2, fd2, p) == content(f, fd, p));
    }
}

/// A fetch that succeeds leaves the page resident in the frame it reports.
pub proof fn lemma_fetch_places_page(m: BufferPoolModel, p: PageId, loaded: Option<PageData>)
    requires
        m.wf(),
        m.fetch_page(p, loaded).1 is Some,
    ensures
        m.fetch_page(p, loaded).0.is_resident(p),
        m.fetch_page(p, loaded).0.frame_of(p) == m.fetch_page(p, loaded).1.unwrap().frame_id,
{
}

proof fn lemma_run_allowed_prefix(
    m: BufferPoolModel,
    disk: Map<PageId, PageData>,
    calls: Seq<PoolCall>,
    last: PoolCall,
)
    requires
        run_allowed(m, disk, calls.push(last)),
    ensures
        run_allowed(m, disk, calls),
    decreases calls.len(),
{
    if calls.len() > 0 {
        let (m1, d1) = step(m, disk, calls[0]);
        assert(calls.push(last).drop_first() =~= calls.drop_first().push(last));
        assert(calls.push(last)[0] == calls[0]);
        lemma_run_allowed_prefix(m1, d1, calls.drop_first(), last);
    } else {
        let (m1, d1) = step(m, disk, last);
        assert(calls.push(last)[0] == last);
    }
}

proof fn lemma_run_allowed_last(
    m: BufferPoolModel,
    disk: Map<PageId, PageData>,
    calls: Seq<PoolCall>,
    last: PoolCall,
)
    requires
        run_allowed(m, disk, calls.push(last)),
    ensures
        call_allowed(run(m, disk, calls).0, run(m, disk, calls).1, last),
    decreases calls.len(),
{
    if calls.len() > 0 {
        let (m1, d1) = step(m, disk, calls[0]);
        assert(calls.push(last).drop_first() =~= calls.drop_first().push(last));
        assert(calls.push(last)[0] == calls[0]);
        lemma_run_allowed_last(m1, d1, calls.drop_first(), last);
    } else {
        assert(calls.push(last)[0] == last);
    }
}

/// An unpin succeeds exactly for a resident page with a pin. It then
/// releases one pin, marks the page dirty when asked, whatever pins remain,
/// and leaves its data and every other page alone. A failed unpin changes
/// nothing.
pub proof fn law_unpin_page(m: BufferPoolModel, page_id: PageId, is_dirty: bool)
    requires
        m.wf(),
    ensures
        ({
            let (m2, ok) = m.unpin_page(page_id, is_dirty);
            &&& ok == (m.is_resident(page_id) && m.page_of(page_id).pin_count > 0)
            &&& !ok ==> m2 == m
            &&& ok ==> {
                &&& m2.is_resident(page_id)
                &&& m2.frame_of(page_id) == m.frame_of(page_id)
                &&& m2.page_of(page_id).is_dirty == (m.page_of(page_id).is_dirty || is_dirty)
                &&& m2.page_of(page_id).pin_count == m.page_of(page_id).pin_count - 1
                &&& m2.page_of(page_id).data == m.page_of(page_id).data
                &&& m2.page_of(page_id).page_id == page_id
                &&& m2.page_table == m.page_table
                &&& forall|q: PageId|
                    q != page_id && m.is_resident(q) ==> #[trigger] m2.page_of(q) == m.page_of(q)
            }
        }),
{
    if m.is_resident(page_id) && m.page_of(page_id).pin_count > 0 {
        let f = m.frame_of(page_id);
        assert forall|q: PageId| q != page_id && m.is_resident(q) implies #[trigger] m.unpin_page(
            page_id,
            is_dirty,
        ).0.page_of(q) == m.page_of(q) by {
            assert(m.page_table[q] != f);
        }
    }
}

/// Where a page that comes in goes. With a free frame, it takes the first
/// free frame, evicts nothing and hands back nothing to write. Otherwise it
/// takes the frame of an unpinned resident page, the replacer's victim, which
/// leaves the pool; that page is handed back for writing exactly when it has
/// unwritten changes. Every other resident page stays where it was.
pub proof fn law_load_frame_choice(m: BufferPoolModel, page: Page)
    requires
        m.wf(),
        !m.is_resident(page.page_id),
        m.can_allocate(),
    ensures
        ({
            let (m2, r) = m.load(page);
            let pinned = r.unwrap();
            let f = pinned.frame_id;
            &&& r is Some
            &&& m2.is_resident(page.page_id)
            &&& m2.frame_of(page.page_id) == f
            &&& m2.page_of(page.page_id) == page
            &&& m.free_list.len() > 0 ==> {
                &&& f == m.free_list[0]
                &&& pinned.write_back is None
                &&& forall|q: PageId| #[trigger] m.is_resident(q) ==> m2.is_resident(q)
                    && m2.page_of(q) == m.page_of(q)
            }
            &&& m.free_list.len() == 0 ==> {
                let old_page = m.frames[f as int];
                &&& m.replacer.victim() == Some(f)
                &&& m.is_resident(old_page.page_id)
                &&& m.frame_of(old_page.page_id) == f
                &&& old_page.pin_count == 0
                &&& !m2.is_resident(old_page.page_id)
                &&& (pinned.write_back is Some <==> old_page.is_dirty)
                &&& pinned.write_back is Some ==> pinned.write_back.unwrap() == (WriteBack {
                    page_id: old_page.page_id,
                    data: old_page.data,
                })
                &&& forall|q: PageId|
                    q != old_page.page_id && #[trigger] m.is_resident(q) ==> m2.is_resident(q)
                        && m2.page_of(q) == m.page_of(q)
            }
        }),
{
    let (m2, r) = m.load(page);
    let f = m.target_frame();
    if m.free_list.len() > 0 {
        assert(m.free_list.contains(m.free_list[0]));
        assert(!m.maps(f as int));
        assert forall|q: PageId| #[trigger] m.is_resident(q) implies m2.is_resident(q) && m2.page_of(q)
            == m.page_of(q) by {
            assert(m.page_table[q] != f);
        }
    } else {
        lemma_victim_exists(m.replacer);
        lemma_victim_spec(m.replacer, f as int);
        assert(m.replacer.is_tracked(f as int));
        assert(m.frames[f as int] == m.frames[f as int]);
        assert(m.maps(f as int));
        let old_page = m.frames[f as int];
        assert forall|q: PageId| q != old_page.page_id && #[trigger] m.is_resident(q) implies m2.is_resident(
            q,
        ) && m2.page_of(q) == m.page_of(q) by {
            assert(m.page_table[q] != f);
        }
    }
}

/// Fetching a resident page adds one pin to it in its frame, makes the frame
/// not evictable, hands back nothing to write and leaves every other page
/// alone.
pub proof fn law_fetch_resident_page(m: BufferPoolModel, page_id: PageId, loaded: Option<PageData>)
    requires
        m.wf(),
        m.is_resident(page_id),
        m.page_of(page_id).pin_count < u32::MAX,
    ensures
        ({
            let (m2, r) = m.fetch_page(page_id, loaded);
            &&& r == Some(PinnedPage { frame_id: m.frame_of(page_id), page_id, write_back: None })
            &&& m2.page_table == m.page_table
            &&& m2.page_of(page_id) == (Page {
                pin_count: (m.page_of(page_id).pin_count + 1) as u32,
                ..m.page_of(page_id)
            })
            &&& !m2.replacer.is_evictable(m.frame_of(page_id) as int)
            &&& forall|q: PageId|
                q != page_id && m.is_resident(q) ==> #[trigger] m2.page_of(q) == m.page_of(q)
        }),
{
    let f = m.frame_of(page_id);
    assert(m.maps(f as int));
    assert forall|q: PageId| q != page_id && m.is_resident(q) implies #[trigger] m.fetch_page(
        page_id,
        loaded,
    ).0.page_of(q) == m.page_of(q) by {
        assert(m.page_table[q] != f);
    }
}

} // verus!
