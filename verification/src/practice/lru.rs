//! A small least-recently-used cache from `i32` keys to `i32` values.
use vstd::prelude::*;

verus! {

pub struct SimpleCache {
    /// Entries, least recently used first.
    queue: Vec<(i32, i32)>,
    /// The most entries the cache holds.
    size: i32,
}

impl View for SimpleCache {
    type V = Seq<(i32, i32)>;

    closed spec fn view(&self) -> Seq<(i32, i32)> {
        self.queue@
    }
}

/// No key occurs twice.
pub open spec fn keys_distinct(s: Seq<(i32, i32)>) -> bool {
    forall|i: int, j: int| 0 <= i < s.len() && 0 <= j < s.len() && i != j ==> s[i].0 != s[j].0
}

pub open spec fn has_key(s: Seq<(i32, i32)>, key: i32) -> bool {
    exists|i: int| 0 <= i < s.len() && s[i].0 == key
}

/// Where `key` stands, when it occurs.
pub open spec fn key_index(s: Seq<(i32, i32)>, key: i32) -> int {
    choose|i: int| 0 <= i < s.len() && s[i].0 == key
}

/// The entries after `key` is stored with `value`.
pub open spec fn put_spec(s: Seq<(i32, i32)>, capacity: int, key: i32, value: i32) -> Seq<(i32, i32)> {
    if has_key(s, key) {
        s.remove(key_index(s, key)).push((key, value))
    } else if s.len() < capacity {
        s.push((key, value))
    } else if s.len() > 0 {
        s.drop_first().push((key, value))
    } else {
        s
    }
}

impl SimpleCache {
    pub closed spec fn capacity(&self) -> int {
        self.size as int
    }

    pub open spec fn wf(&self) -> bool {
        &&& keys_distinct(self@)
        &&& self@.len() <= if self.capacity() > 0 { self.capacity() } else { 0 }
    }

    /// An empty cache that holds at most `size` entries (none when `size` is
    /// not positive).
    pub fn new(size: i32) -> (r: Self)
        ensures
            r.wf(),
            r@ == Seq::<(i32, i32)>::empty(),
            r.capacity() == size,
    {
        SimpleCache { queue: Vec::new(), size }
    }

    /// Position of `key`, if present.
    fn find(&self, key: i32) -> (r: Option<usize>)
        requires
            self.wf(),
        ensures
            r is Some <==> has_key(self@, key),
            r matches Some(i) ==> i == key_index(self@, key) && i < self@.len(),
    {
        let mut i: usize = 0;
        while i < self.queue.len()
            invariant
                self.wf(),
                i <= self@.len(),
                forall|j: int| 0 <= j < i ==> self@[j].0 != key,
            decreases self@.len() - i,
        {
            if self.queue[i].0 == key {
                proof {
                    let c = key_index(self@, key);
                    assert(self@[i as int].0 == key);
                    assert(self@[c].0 == key);
                }
                return Some(i);
            }
            i = i + 1;
        }
        None
    }

    /// The value stored for `key`, which becomes the most recently used
    /// entry; -1 when the key is absent.
    pub fn get(&mut self, key: i32) -> (r: i32)
        requires
            old(self).wf(),
        ensures
            final(self).wf(),
            final(self).capacity() == old(self).capacity(),
            has_key(old(self)@, key) ==> {
                let i = key_index(old(self)@, key);
                &&& r == old(self)@[i].1
                &&& final(self)@ == old(self)@.remove(i).push(old(self)@[i])
            },
            !has_key(old(self)@, key) ==> r == -1 && final(self)@ == old(self)@,
    {
        match self.find(key) {
            Some(i) => {
                let entry = self.queue.remove(i);
                self.queue.push(entry);
                proof {
                    lemma_move_to_back_distinct(old(self)@, i as int, entry);
                }
                entry.1
            },
            None => -1,
        }
    }

    /// Stores `value` for `key` as the most recently used entry; when the
    /// key is new and the cache is full, the least recently used entry goes.
    pub fn put(&mut self, key: i32, value: i32)
        requires
            old(self).wf(),
        ensures
            final(self).wf(),
            final(self).capacity() == old(self).capacity(),
            final(self)@ == put_spec(old(self)@, old(self).capacity(), key, value),
    {
        match self.find(key) {
            Some(i) => {
                self.queue.remove(i);
                self.queue.push((key, value));
                proof {
                    lemma_move_to_back_distinct(old(self)@, i as int, (key, value));
                }
            },
            None => {
                if (self.queue.len() as i64) < (self.size as i64) {
                    self.queue.push((key, value));
                } else if self.queue.len() > 0 {
                    self.queue.remove(0);
                    self.queue.push((key, value));
                    proof {
                        let s = old(self)@;
                        assert forall|a: int, b: int|
                            0 <= a < self@.len() && 0 <= b < self@.len() && a != b implies self@[a].0
                            != self@[b].0 by {
                            if a < self@.len() - 1 && b < self@.len() - 1 {
                                assert(self@[a] == s[a + 1]);
                                assert(self@[b] == s[b + 1]);
                            } else if a < self@.len() - 1 {
                                assert(self@[a] == s[a + 1]);
                            } else if b < self@.len() - 1 {
                                assert(self@[b] == s[b + 1]);
                            }
                        }
                    }
                }
            },
        }
    }
}

proof fn lemma_move_to_back_distinct(s: Seq<(i32, i32)>, i: int, e: (i32, i32))
    requires
        keys_distinct(s),
        0 <= i < s.len(),
        e.0 == s[i].0,
    ensures
        keys_distinct(s.remove(i).push(e)),
{
    let t = s.remove(i).push(e);
    assert forall|a: int, b: int| 0 <= a < t.len() && 0 <= b < t.len() && a != b implies t[a].0 != t[b].0 by {
        let a0 = if a == t.len() - 1 { i } else if a < i { a } else { a + 1 };
        let b0 = if b == t.len() - 1 { i } else if b < i { b } else { b + 1 };
        assert(t[a].0 == s[a0].0);
        assert(t[b].0 == s[b0].0);
    }
}

/// Storing a value for a key keeps the keys distinct and leaves that key as
/// the most recently used entry.
pub proof fn lemma_put_spec(s: Seq<(i32, i32)>, capacity: int, key: i32, value: i32)
    requires
        keys_distinct(s),
        capacity >= 1,
    ensures
        keys_distinct(put_spec(s, capacity, key, value)),
        put_spec(s, capacity, key, value).len() > 0,
        put_spec(s, capacity, key, value).last() == (key, value),
{
    let t = put_spec(s, capacity, key, value);
    if has_key(s, key) {
        lemma_move_to_back_distinct(s, key_index(s, key), (key, value));
    } else {
        assert forall|a: int, b: int| 0 <= a < t.len() && 0 <= b < t.len() && a != b implies t[a].0
            != t[b].0 by {
            let shift: int = if s.len() < capacity { 0 } else { 1 };
            if a < t.len() - 1 {
                assert(t[a] == s[a + shift]);
            }
            if b < t.len() - 1 {
                assert(t[b] == s[b + shift]);
            }
        }
    }
}

/// A read gives back the last write: after `put(key, value)` on a cache that
/// holds at least one entry, `get(key)` yields `value`.
pub proof fn law_get_after_put(s: Seq<(i32, i32)>, capacity: int, key: i32, value: i32)
    requires
        keys_distinct(s),
        capacity >= 1,
    ensures
        has_key(put_spec(s, capacity, key, value), key),
        put_spec(s, capacity, key, value)[key_index(put_spec(s, capacity, key, value), key)].1
            == value,
{
    let t = put_spec(s, capacity, key, value);
    lemma_put_spec(s, capacity, key, value);
    assert(t[t.len() - 1].0 == key);
    let i = key_index(t, key);
    if i != t.len() - 1 {
        assert(t[i].0 == t[t.len() - 1].0);
    }
}

/// Storing a value for a key already present changes only that key's entry:
/// it becomes the most recently used with the new value, every other entry
/// stays with its value, and the number of entries is unchanged.
pub proof fn law_put_existing_key(s: Seq<(i32, i32)>, capacity: int, key: i32, value: i32)
    requires
        keys_distinct(s),
        capacity >= 1,
        has_key(s, key),
    ensures
        put_spec(s, capacity, key, value).len() == s.len(),
        put_spec(s, capacity, key, value).last() == (key, value),
        forall|i: int|
            0 <= i < s.len() && s[i].0 != key ==> put_spec(s, capacity, key, value).contains(
                #[trigger] s[i],
            ),
{
    let t = put_spec(s, capacity, key, value);
    let k = key_index(s, key);
    assert(t == s.remove(k).push((key, value)));
    assert forall|i: int| 0 <= i < s.len() && s[i].0 != key implies t.contains(#[trigger] s[i]) by {
        assert(i != k);
        if i < k {
            assert(t[i] == s[i]);
        } else {
            assert(t[i - 1] == s[i]);
        }
    }
}

/// Storing a value for a new key adds it as the most recently used entry.
/// Every entry stays while there is room; when the cache is full, exactly
/// the least recently used entry goes.
pub proof fn law_put_new_key(s: Seq<(i32, i32)>, capacity: int, key: i32, value: i32)
    requires
        keys_distinct(s),
        capacity >= 1,
        s.len() <= capacity,
        !has_key(s, key),
    ensures
        put_spec(s, capacity, key, value).last() == (key, value),
        s.len() < capacity ==> put_spec(s, capacity, key, value).len() == s.len() + 1,
        s.len() < capacity ==> forall|i: int|
            0 <= i < s.len() ==> put_spec(s, capacity, key, value).contains(#[trigger] s[i]),
        s.len() == capacity ==> put_spec(s, capacity, key, value).len() == s.len(),
        s.len() == capacity ==> !put_spec(s, capacity, key, value).contains(s[0]),
        s.len() == capacity ==> forall|i: int|
            1 <= i < s.len() ==> put_spec(s, capacity, key, value).contains(#[trigger] s[i]),
{
    let t = put_spec(s, capacity, key, value);
    if s.len() < capacity {
        assert forall|i: int| 0 <= i < s.len() implies t.contains(#[trigger] s[i]) by {
            assert(t[i] == s[i]);
        }
    } else {
        assert forall|i: int| 1 <= i < s.len() implies t.contains(#[trigger] s[i]) by {
            assert(t[i - 1] == s[i]);
        }
        if t.contains(s[0]) {
            let j = choose|j: int| 0 <= j < t.len() && t[j] == s[0];
            if j < t.len() - 1 {
                assert(t[j] == s[j + 1]);
            } else {
                assert(s[0].0 == key);
            }
        }
    }
}

/// Sets the capacity of a cache taken by value; the caller's cache is not
/// affected.
pub fn init(sz: i32, sc: SimpleCache) {
    let mut sc = sc;
    sc.size = sz;
}

/// Records `a` in a fresh access list and returns the entry it holds.
pub fn access(a: i32) -> (r: i32)
    ensures
        r == a,
{
    let mut vv: Vec<i32> = Vec::new();
    vv.push(a);
    vv[0]
}

/// The frame this placeholder policy always evicts.
pub fn evict() -> (r: i32)
    ensures
        r == 1,
{
    1
}

} // verus!
