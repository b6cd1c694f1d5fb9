//! The bounded LRU index behind each named disk cache.  The ordered map
//! itself comes from the linked-hash-map crate; what it holds is named
//! by `lru_entries`, least-recently-used first, and every method the
//! logic calls is bound to that name.  Size accounting, eviction order
//! and the sidecar format are verified on top.

use vstd::prelude::*;
use linked_hash_map::LinkedHashMap;
use crate::error::FilterError;
use crate::text::{le_bytes, le_val, pow256, push_le, read_le, lemma_le_bytes_len, lemma_le_roundtrip, lemma_pow256_8};

verus! {

#[verifier::external_type_specification]
#[verifier::external_body]
#[verifier::reject_recursive_types(K)]
#[verifier::reject_recursive_types(V)]
#[verifier::reject_recursive_types(S)]
pub struct ExLinkedHashMap<K, V, S>(LinkedHashMap<K, V, S>);

/// What the ordered map holds: key and value pairs, least recently
/// used first.
pub uninterp spec fn lru_entries(m: LinkedHashMap<Vec<u8>, usize>) -> Seq<(Seq<u8>, usize)>;

/// Index of the first entry with the given key, or -1.
pub open spec fn find_key(es: Seq<(Seq<u8>, usize)>, k: Seq<u8>) -> int
    decreases es.len(),
{
    if es.len() == 0 {
        -1
    } else if es[0].0 == k {
        0
    } else {
        let r = find_key(es.drop_first(), k);
        if r < 0 {
            -1
        } else {
            r + 1
        }
    }
}

/// The found index is in range and carries the key; a negative answer
/// means the key is nowhere.
pub proof fn lemma_find_key(es: Seq<(Seq<u8>, usize)>, k: Seq<u8>)
    ensures
        find_key(es, k) >= 0 ==> find_key(es, k) < es.len() && es[find_key(es, k)].0 == k,
        find_key(es, k) < 0 ==> forall|j: int| 0 <= j < es.len() ==> es[j].0 != k,
    decreases es.len(),
{
    if es.len() > 0 {
        lemma_find_key(es.drop_first(), k);
        if find_key(es, k) < 0 {
            assert forall|j: int| 0 <= j < es.len() implies es[j].0 != k by {
                if j > 0 {
                    assert(es.drop_first()[j - 1] == es[j]);
                }
            }
        }
    }
}

/// Relies on linked_hash_map::LinkedHashMap::new: a fresh map is empty.
#[verifier::external_body]
fn lhm_new() -> (m: LinkedHashMap<Vec<u8>, usize>)
    ensures
        lru_entries(m) == Seq::<(Seq<u8>, usize)>::empty(),
{
    LinkedHashMap::new()
}

/// Relies on linked_hash_map::LinkedHashMap::len: the number of entries.
#[verifier::external_body]
fn lhm_len(m: &LinkedHashMap<Vec<u8>, usize>) -> (r: usize)
    ensures
        r == lru_entries(*m).len(),
{
    m.len()
}

/// Relies on linked_hash_map::LinkedHashMap::get_refresh: a hit moves
/// the entry to the most-recent end, unchanged; a miss changes nothing.
#[verifier::external_body]
fn lhm_get_refresh(m: &mut LinkedHashMap<Vec<u8>, usize>, k: &Vec<u8>) -> (r: Option<usize>)
    ensures
        ({
            let es = lru_entries(*old(m));
            let i = find_key(es, k@);
            if i >= 0 {
                r == Some(es[i].1) && lru_entries(*final(m)) == es.remove(i).push(es[i])
            } else {
                r is None && lru_entries(*final(m)) == es
            }
        }),
{
    m.get_refresh(k).map(|v| *v)
}

/// Relies on linked_hash_map::LinkedHashMap::remove: the entry with the
/// key leaves, other entries keep their order.
#[verifier::external_body]
fn lhm_remove(m: &mut LinkedHashMap<Vec<u8>, usize>, k: &Vec<u8>) -> (r: Option<usize>)
    ensures
        ({
            let es = lru_entries(*old(m));
            let i = find_key(es, k@);
            if i >= 0 {
                r == Some(es[i].1) && lru_entries(*final(m)) == es.remove(i)
            } else {
                r is None && lru_entries(*final(m)) == es
            }
        }),
{
    m.remove(k)
}

/// Relies on linked_hash_map::LinkedHashMap::insert: a new key joins at
/// the most-recent end; an existing key is re-valued and moved there,
/// returning its old value.
#[verifier::external_body]
fn lhm_insert(m: &mut LinkedHashMap<Vec<u8>, usize>, k: Vec<u8>, v: usize) -> (r: Option<usize>)
    ensures
        ({
            let es = lru_entries(*old(m));
            let i = find_key(es, k@);
            if i >= 0 {
                r == Some(es[i].1) && lru_entries(*final(m)) == es.remove(i).push((k@, v))
            } else {
                r is None && lru_entries(*final(m)) == es.push((k@, v))
            }
        }),
{
    m.insert(k, v)
}

/// Relies on linked_hash_map::LinkedHashMap::pop_front: the
/// least-recently-used entry leaves first.
#[verifier::external_body]
fn lhm_pop_front(m: &mut LinkedHashMap<Vec<u8>, usize>) -> (r: Option<(Vec<u8>, usize)>)
    ensures
        ({
            let es = lru_entries(*old(m));
            if es.len() == 0 {
                r is None && lru_entries(*final(m)) == es
            } else {
                match r {
                    Some(kv) => kv.0@ == es[0].0 && kv.1 == es[0].1 && lru_entries(*final(m))
                        == es.drop_first(),
                    None => false,
                }
            }
        }),
{
    m.pop_front()
}

/// Relies on linked_hash_map::LinkedHashMap::iter: the entries in order,
/// least recently used first, copied out as plain pairs.
#[verifier::external_body]
fn lhm_entries_vec(m: &LinkedHashMap<Vec<u8>, usize>) -> (r: Vec<(Vec<u8>, usize)>)
    ensures
        r@.len() == lru_entries(*m).len(),
        forall|j: int|
            0 <= j < r@.len() ==> r@[j].0@ == lru_entries(*m)[j].0 && r@[j].1 == lru_entries(
                *m,
            )[j].1,
{
    let mut out: Vec<(Vec<u8>, usize)> = Vec::with_capacity(m.len());
    for (k, v) in m.iter() {
        out.push((k.clone(), *v));
    }
    out
}

/// Total byte size of the entries.
pub open spec fn sum_sizes(es: Seq<(Seq<u8>, usize)>) -> int
    decreases es.len(),
{
    if es.len() == 0 {
        0
    } else {
        es[0].1 + sum_sizes(es.drop_first())
    }
}

pub open spec fn unique_keys(es: Seq<(Seq<u8>, usize)>) -> bool {
    forall|i: int, j: int| 0 <= i < j < es.len() ==> es[i].0 != es[j].0
}

pub proof fn lemma_sum_drop_first(es: Seq<(Seq<u8>, usize)>)
    requires
        es.len() > 0,
    ensures
        sum_sizes(es.drop_first()) == sum_sizes(es) - es[0].1,
{
}

pub proof fn lemma_sum_push(es: Seq<(Seq<u8>, usize)>, e: (Seq<u8>, usize))
    ensures
        sum_sizes(es.push(e)) == sum_sizes(es) + e.1,
    decreases es.len(),
{
    if es.len() == 0 {
        assert(es.push(e).drop_first() =~= es);
    } else {
        assert(es.push(e).drop_first() =~= es.drop_first().push(e));
        lemma_sum_push(es.drop_first(), e);
    }
}

pub proof fn lemma_sum_remove(es: Seq<(Seq<u8>, usize)>, i: int)
    requires
        0 <= i < es.len(),
    ensures
        sum_sizes(es.remove(i)) == sum_sizes(es) - es[i].1,
    decreases es.len(),
{
    if i == 0 {
        assert(es.remove(0) =~= es.drop_first());
    } else {
        assert(es.remove(i).drop_first() =~= es.drop_first().remove(i - 1));
        lemma_sum_remove(es.drop_first(), i - 1);
    }
}

/// Every entry's size is at most the total.
pub proof fn lemma_sum_nonneg(es: Seq<(Seq<u8>, usize)>)
    ensures
        sum_sizes(es) >= 0,
    decreases es.len(),
{
    if es.len() > 0 {
        lemma_sum_nonneg(es.drop_first());
    }
}

/// Removing an entry keeps the remaining keys unique and present.
pub proof fn lemma_unique_remove(es: Seq<(Seq<u8>, usize)>, i: int)
    requires
        unique_keys(es),
        0 <= i < es.len(),
    ensures
        unique_keys(es.remove(i)),
{
    assert forall|a: int, b: int| 0 <= a < b < es.remove(i).len() implies es.remove(i)[a].0
        != es.remove(i)[b].0 by {
        let a0 = if a < i {
            a
        } else {
            a + 1
        };
        let b0 = if b < i {
            b
        } else {
            b + 1
        };
        assert(es.remove(i)[a] == es[a0]);
        assert(es.remove(i)[b] == es[b0]);
    }
}

pub proof fn lemma_unique_drop_first(es: Seq<(Seq<u8>, usize)>)
    requires
        unique_keys(es),
        es.len() > 0,
    ensures
        unique_keys(es.drop_first()),
{
    assert forall|a: int, b: int| 0 <= a < b < es.drop_first().len() implies es.drop_first()[a].0
        != es.drop_first()[b].0 by {
        assert(es.drop_first()[a] == es[a + 1]);
        assert(es.drop_first()[b] == es[b + 1]);
    }
}

/// The in-memory index of one named cache: where its files live, how
/// many bytes they hold together, the bound, and the ordered entries.
pub struct LruCache {
    root: Vec<u8>,
    size: usize,
    capacity: usize,
    items: LinkedHashMap<Vec<u8>, usize>,
}

/// Mathematical model of a cache index.
#[verifier::ext_equal]
pub struct LruView {
    pub root: Seq<u8>,
    pub size: usize,
    pub capacity: usize,
    pub entries: Seq<(Seq<u8>, usize)>,
}

impl View for LruCache {
    type V = LruView;

    closed spec fn view(&self) -> LruView {
        LruView {
            root: self.root@,
            size: self.size,
            capacity: self.capacity,
            entries: lru_entries(self.items),
        }
    }
}

impl LruCache {
    /// Keys are unique and the recorded size is exactly the sum of the
    /// entry sizes.
    pub open spec fn wf(&self) -> bool {
        &&& unique_keys(self@.entries)
        &&& self@.size == sum_sizes(self@.entries)
    }

    /// An empty cache over the directory `root`.
    pub fn new(root: Vec<u8>, capacity: usize) -> (c: LruCache)
        ensures
            c.wf(),
            c@.entries == Seq::<(Seq<u8>, usize)>::empty(),
            c@.size == 0,
            c@.capacity == capacity,
            c@.root == root@,
    {
        LruCache { root, size: 0, capacity, items: lhm_new() }
    }

    pub fn size(&self) -> (r: usize)
        ensures
            r == self@.size,
    {
        self.size
    }

    pub fn capacity(&self) -> (r: usize)
        ensures
            r == self@.capacity,
    {
        self.capacity
    }

    pub fn len(&self) -> (r: usize)
        ensures
            r == self@.entries.len(),
    {
        lhm_len(&self.items)
    }

    pub fn root(&self) -> (r: &Vec<u8>)
        ensures
            r@ == self@.root,
    {
        &self.root
    }

    /// The entries in order, least recently used first.
    pub fn entries(&self) -> (r: Vec<(Vec<u8>, usize)>)
        ensures
            r@.len() == self@.entries.len(),
            forall|j: int|
                0 <= j < r@.len() ==> r@[j].0@ == self@.entries[j].0 && r@[j].1
                    == self@.entries[j].1,
    {
        lhm_entries_vec(&self.items)
    }

    /// The keys in order, least recently used first.
    pub fn keys(&self) -> (r: Vec<Vec<u8>>)
        ensures
            r@.len() == self@.entries.len(),
            forall|j: int| 0 <= j < r@.len() ==> r@[j]@ == self@.entries[j].0,
    {
        let all = self.entries();
        let mut out: Vec<Vec<u8>> = Vec::new();
        let mut i: usize = 0;
        while i < all.len()
            invariant
                i <= all@.len(),
                out@.len() == i,
                all@.len() == self@.entries.len(),
                forall|j: int|
                    0 <= j < all@.len() ==> all@[j].0@ == self@.entries[j].0 && all@[j].1
                        == self@.entries[j].1,
                forall|j: int| 0 <= j < i ==> out@[j]@ == self@.entries[j].0,
            decreases all@.len() - i,
        {
            let k = crate::text::copy_bytes(all[i].0.as_slice());
            out.push(k);
            i += 1;
        }
        out
    }

    /// The entry sizes in order, least recently used first.
    pub fn values(&self) -> (r: Vec<usize>)
        ensures
            r@.len() == self@.entries.len(),
            forall|j: int| 0 <= j < r@.len() ==> r@[j] == self@.entries[j].1,
    {
        let all = self.entries();
        let mut out: Vec<usize> = Vec::new();
        let mut i: usize = 0;
        while i < all.len()
            invariant
                i <= all@.len(),
                out@.len() == i,
                all@.len() == self@.entries.len(),
                forall|j: int|
                    0 <= j < all@.len() ==> all@[j].0@ == self@.entries[j].0 && all@[j].1
                        == self@.entries[j].1,
                forall|j: int| 0 <= j < i ==> out@[j] == self@.entries[j].1,
            decreases all@.len() - i,
        {
            out.push(all[i].1);
            i += 1;
        }
        out
    }

    /// Looks a key up.  A hit returns its byte size and moves the entry
    /// to the most-recent end; a miss leaves the cache as it was.
    pub fn get(&mut self, name: &Vec<u8>) -> (r: Result<usize, FilterError>)
        requires
            old(self).wf(),
        ensures
            final(self).wf(),
            final(self)@.root == old(self)@.root,
            final(self)@.size == old(self)@.size,
            final(self)@.capacity == old(self)@.capacity,
            ({
                let es = old(self)@.entries;
                let i = find_key(es, name@);
                if i >= 0 {
                    r == Ok::<usize, FilterError>(es[i].1) && final(self)@.entries == es.remove(
                        i,
                    ).push(es[i])
                } else {
                    r == Err::<usize, FilterError>(FilterError::NotInCache) && final(self)@.entries
                        == es
                }
            }),
    {
        proof {
            lemma_find_key(old(self)@.entries, name@);
        }
        match lhm_get_refresh(&mut self.items, name) {
            Some(sz) => {
                proof {
                    let es = old(self)@.entries;
                    let i = find_key(es, name@);
                    lemma_unique_remove(es, i);
                    lemma_sum_remove(es, i);
                    lemma_sum_push(es.remove(i), es[i]);
                    assert(unique_keys(es.remove(i).push(es[i]))) by {
                        let es2 = es.remove(i).push(es[i]);
                        assert forall|a: int, b: int| 0 <= a < b < es2.len() implies es2[a].0
                            != es2[b].0 by {
                            if b + 1 < es2.len() {
                                assert(es2[a] == es.remove(i)[a]);
                                assert(es2[b] == es.remove(i)[b]);
                            } else {
                                assert(es2[b] == es[i]);
                                assert(es2[a] == es.remove(i)[a]);
                                let a0 = if a < i {
                                    a
                                } else {
                                    a + 1
                                };
                                assert(es.remove(i)[a] == es[a0]);
                            }
                        }
                    }
                }
                Ok(sz)
            }
            None => Err(FilterError::NotInCache),
        }
    }

    /// Whether a key is present, without touching the order.
    pub fn contains(&self, name: &Vec<u8>) -> (r: bool)
        ensures
            r == (find_key(self@.entries, name@) >= 0),
    {
        let all = self.entries();
        let mut i: usize = 0;
        proof {
            lemma_find_key(self@.entries, name@);
        }
        while i < all.len()
            invariant
                i <= all@.len(),
                all@.len() == self@.entries.len(),
                forall|j: int|
                    0 <= j < all@.len() ==> all@[j].0@ == self@.entries[j].0 && all@[j].1
                        == self@.entries[j].1,
                forall|j: int| 0 <= j < i ==> self@.entries[j].0 != name@,
            decreases all@.len() - i,
        {
            if crate::text::bytes_eq(all[i].0.as_slice(), name.as_slice()) {
                proof {
                    lemma_find_key_present(self@.entries, name@, i as int);
                }
                return true;
            }
            i += 1;
        }
        false
    }
}

/// Front-eviction until an addition of `add` bytes fits under `cap`:
/// yields the remaining entries, the evicted keys in eviction order, and
/// the remaining size.
pub open spec fn spec_evict(es: Seq<(Seq<u8>, usize)>, size: int, add: int, cap: int) -> (
    Seq<(Seq<u8>, usize)>,
    Seq<Seq<u8>>,
    int,
)
    decreases es.len(),
{
    if size + add <= cap || es.len() == 0 {
        (es, Seq::empty(), size)
    } else {
        let r = spec_evict(es.drop_first(), size - es[0].1, add, cap);
        (r.0, seq![es[0].0] + r.1, r.2)
    }
}

/// Eviction takes the least-recently-used entries first, in order: the
/// evicted keys are an initial run of the entries and the rest survive
/// unmoved.
pub proof fn lemma_evict_order(es: Seq<(Seq<u8>, usize)>, size: int, add: int, cap: int)
    ensures
        ({
            let r = spec_evict(es, size, add, cap);
            &&& r.1.len() <= es.len()
            &&& r.0 == es.skip(r.1.len() as int)
            &&& forall|j: int| 0 <= j < r.1.len() ==> r.1[j] == es[j].0
        }),
    decreases es.len(),
{
    let r = spec_evict(es, size, add, cap);
    if size + add <= cap || es.len() == 0 {
        assert(es.skip(0) =~= es);
    } else {
        lemma_evict_order(es.drop_first(), size - es[0].1, add, cap);
        let rr = spec_evict(es.drop_first(), size - es[0].1, add, cap);
        assert(es.drop_first().skip(rr.1.len() as int) =~= es.skip(rr.1.len() as int + 1));
        assert forall|j: int| 0 <= j < r.1.len() implies r.1[j] == es[j].0 by {
            if j > 0 {
                assert(r.1[j] == rr.1[j - 1]);
                assert(es.drop_first()[j - 1] == es[j]);
            }
        }
    }
}

/// Refreshing the least-recent entry moves it to the most-recent end:
/// the next-oldest entry steps to the front, so a later eviction takes
/// that one first.
pub proof fn lemma_refresh_prefers_next(es: Seq<(Seq<u8>, usize)>)
    requires
        es.len() >= 2,
    ensures
        es.remove(0).push(es[0])[0] == es[1],
        es.remove(0).push(es[0]).last() == es[0],
{
    assert(es.remove(0) =~= es.drop_first());
}

/// Once a key is gone from the unique entries, no entry carries it.
pub proof fn lemma_remove_gone(es: Seq<(Seq<u8>, usize)>, k: Seq<u8>)
    requires
        unique_keys(es),
        find_key(es, k) >= 0,
    ensures
        forall|j: int|
            0 <= j < es.remove(find_key(es, k)).len() ==> es.remove(find_key(es, k))[j].0 != k,
{
    let i = find_key(es, k);
    lemma_find_key(es, k);
    assert forall|j: int| 0 <= j < es.remove(i).len() implies es.remove(i)[j].0 != k by {
        let j0 = if j < i {
            j
        } else {
            j + 1
        };
        assert(es.remove(i)[j] == es[j0]);
    }
}

/// A key carried by no entry is not found.
pub proof fn lemma_find_absent(es: Seq<(Seq<u8>, usize)>, k: Seq<u8>)
    requires
        forall|j: int| 0 <= j < es.len() ==> es[j].0 != k,
    ensures
        find_key(es, k) < 0,
    decreases es.len(),
{
    if es.len() > 0 {
        assert forall|j: int| 0 <= j < es.drop_first().len() implies es.drop_first()[j].0
            != k by {
            assert(es.drop_first()[j] == es[j + 1]);
        }
        lemma_find_absent(es.drop_first(), k);
    }
}

/// What an insertion does: a value past the whole capacity is refused
/// untouched; otherwise any previous entry under the name leaves, the
/// least-recent entries are evicted until the value fits, and the name
/// joins at the most-recent end with the evicted keys reported in
/// eviction order.
pub open spec fn spec_insert_outcome(
    pre: LruView,
    post: LruView,
    name: Seq<u8>,
    len: nat,
    r: Result<Vec<Vec<u8>>, FilterError>,
) -> bool {
    let es0 = pre.entries;
    let cap = pre.capacity;
    let i = find_key(es0, name);
    let es1 = if i >= 0 {
        es0.remove(i)
    } else {
        es0
    };
    let sz1 = if i >= 0 {
        pre.size - es0[i].1
    } else {
        pre.size as int
    };
    let ev = spec_evict(es1, sz1, len as int, cap as int);
    match r {
        Ok(evicted) => {
            &&& len <= cap
            &&& post.entries == ev.0.push((name, len as usize))
            &&& post.size == ev.2 + len
            &&& post.size <= cap
            &&& evicted@.map_values(|kk: Vec<u8>| kk@) == ev.1
        },
        Err(e) => {
            &&& len > cap
            &&& e == FilterError::DataTooBig(len as usize, cap)
            &&& post.entries == es0
            &&& post.size == pre.size
        },
    }
}

impl LruCache {
    /// Records `value` under `name`.  A value larger than the whole
    /// cache is refused and nothing changes.  Otherwise any previous
    /// entry under the name is dropped, least-recent entries are
    /// evicted until the value fits, and the name joins at the
    /// most-recent end.  Returns the evicted keys, oldest first, whose
    /// files the caller removes; the recorded size never exceeds the
    /// capacity afterwards.
    pub fn insert_bytes(&mut self, name: Vec<u8>, value: &[u8]) -> (r: Result<
        Vec<Vec<u8>>,
        FilterError,
    >)
        requires
            old(self).wf(),
        ensures
            final(self).wf(),
            final(self)@.root == old(self)@.root,
            final(self)@.capacity == old(self)@.capacity,
            spec_insert_outcome(old(self)@, final(self)@, name@, value@.len(), r),
    {
        if value.len() > self.capacity {
            return Err(FilterError::DataTooBig(value.len(), self.capacity));
        }
        proof {
            lemma_find_key(old(self)@.entries, name@);
        }
        let removed = lhm_remove(&mut self.items, &name);
        match removed {
            Some(old_len) => {
                proof {
                    let es0 = old(self)@.entries;
                    let i = find_key(es0, name@);
                    lemma_sum_remove(es0, i);
                    lemma_sum_nonneg(es0.remove(i));
                    lemma_unique_remove(es0, i);
                    lemma_remove_gone(es0, name@);
                }
                self.size = self.size - old_len;
            }
            None => {}
        }
        let ghost es1 = lru_entries(self.items);
        let ghost sz1 = self.size as int;
        let ghost target = spec_evict(es1, sz1, value@.len() as int, self.capacity as int);
        let mut evicted: Vec<Vec<u8>> = Vec::new();
        while (self.size as u128) + (value.len() as u128) > (self.capacity as u128)
            invariant
                unique_keys(lru_entries(self.items)),
                self.size == sum_sizes(lru_entries(self.items)),
                forall|j: int|
                    0 <= j < lru_entries(self.items).len() ==> lru_entries(self.items)[j].0
                        != name@,
                value@.len() <= self.capacity,
                target == spec_evict(es1, sz1, value@.len() as int, self.capacity as int),
                target.0 == spec_evict(
                    lru_entries(self.items),
                    self.size as int,
                    value@.len() as int,
                    self.capacity as int,
                ).0,
                target.2 == spec_evict(
                    lru_entries(self.items),
                    self.size as int,
                    value@.len() as int,
                    self.capacity as int,
                ).2,
                target.1 == evicted@.map_values(|kk: Vec<u8>| kk@) + spec_evict(
                    lru_entries(self.items),
                    self.size as int,
                    value@.len() as int,
                    self.capacity as int,
                ).1,
                self.capacity == old(self)@.capacity,
                self.root@ == old(self)@.root,
            decreases lru_entries(self.items).len(),
        {
            let ghost cur = lru_entries(self.items);
            let ghost cursize = self.size as int;
            let ghost prevmap = evicted@.map_values(|kk: Vec<u8>| kk@);
            proof {
                if cur.len() == 0 {
                    assert(self.size == 0);
                    assert(false);
                }
                lemma_unique_drop_first(cur);
                lemma_sum_drop_first(cur);
                lemma_sum_nonneg(cur.drop_first());
                assert forall|j: int| 0 <= j < cur.drop_first().len() implies cur.drop_first()[j].0
                    != name@ by {
                    assert(cur.drop_first()[j] == cur[j + 1]);
                }
            }
            match lhm_pop_front(&mut self.items) {
                Some(kv) => {
                    let (k, sz) = kv;
                    self.size = self.size - sz;
                    evicted.push(k);
                    proof {
                        let add = value@.len() as int;
                        let cap = self.capacity as int;
                        let restev = spec_evict(
                            lru_entries(self.items),
                            self.size as int,
                            add,
                            cap,
                        );
                        assert(spec_evict(cur, cursize, add, cap).1 == seq![cur[0].0]
                            + restev.1);
                        assert(evicted@.map_values(|kk: Vec<u8>| kk@) =~= prevmap.push(
                            evicted@.last()@,
                        ));
                        assert(prevmap + (seq![cur[0].0] + restev.1) =~= prevmap.push(cur[0].0)
                            + restev.1);
                    }
                }
                None => {
                    proof {
                        assert(false);
                    }
                    return Err(FilterError::IoFailure);
                }
            }
        }
        proof {
            lemma_find_absent(lru_entries(self.items), name@);
        }
        let added = value.len();
        let _ = lhm_insert(&mut self.items, name, added);
        self.size = self.size + added;
        proof {
            let es2 = target.0;
            lemma_sum_push(es2, (name@, added));
            assert(unique_keys(es2.push((name@, added)))) by {
                let esp = es2.push((name@, added));
                assert forall|a: int, b: int| 0 <= a < b < esp.len() implies esp[a].0
                    != esp[b].0 by {
                    if b + 1 < esp.len() {
                        assert(esp[a] == es2[a]);
                        assert(esp[b] == es2[b]);
                    } else {
                        assert(esp[a] == es2[a]);
                    }
                }
            }
        }
        Ok(evicted)
    }
}

impl LruCache {
    /// Registers a file found by a crash-recovery directory walk: no
    /// eviction and no capacity check, exactly as rebuilding from disk
    /// behaves; a key seen twice keeps its latest size.
    pub fn record(&mut self, name: Vec<u8>, len: usize) -> (r: bool)
        requires
            old(self).wf(),
            old(self)@.size + len <= usize::MAX,
        ensures
            final(self).wf(),
            final(self)@.root == old(self)@.root,
            final(self)@.capacity == old(self)@.capacity,
            ({
                let es0 = old(self)@.entries;
                let i = find_key(es0, name@);
                let es1 = if i >= 0 {
                    es0.remove(i)
                } else {
                    es0
                };
                let sz1 = if i >= 0 {
                    old(self)@.size - es0[i].1
                } else {
                    old(self)@.size as int
                };
                final(self)@.entries == es1.push((name@, len)) && final(self)@.size == sz1
                    + len && r
            }),
    {
        proof {
            lemma_find_key(old(self)@.entries, name@);
        }
        match lhm_remove(&mut self.items, &name) {
            Some(old_len) => {
                proof {
                    let es0 = old(self)@.entries;
                    let i = find_key(es0, name@);
                    lemma_sum_remove(es0, i);
                    lemma_sum_nonneg(es0.remove(i));
                    lemma_unique_remove(es0, i);
                    lemma_remove_gone(es0, name@);
                }
                self.size = self.size - old_len;
            }
            None => {}
        }
        let ghost es1 = lru_entries(self.items);
        proof {
            lemma_find_absent(es1, name@);
            lemma_sum_nonneg(es1);
        }
        let ghost nm = name@;
        let _ = lhm_insert(&mut self.items, name, len);
        self.size = self.size + len;
        proof {
            lemma_sum_push(es1, (nm, len));
            assert(unique_keys(es1.push((nm, len)))) by {
                let esp = es1.push((nm, len));
                assert forall|a: int, b: int| 0 <= a < b < esp.len() implies esp[a].0
                    != esp[b].0 by {
                    if b + 1 < esp.len() {
                        assert(esp[a] == es1[a]);
                        assert(esp[b] == es1[b]);
                    } else {
                        assert(esp[a] == es1[a]);
                    }
                }
            }
        }
        true
    }
}

/// If some entry carries the key, `find_key` answers non-negatively.
pub proof fn lemma_find_key_present(es: Seq<(Seq<u8>, usize)>, k: Seq<u8>, i: int)
    requires
        0 <= i < es.len(),
        es[i].0 == k,
    ensures
        find_key(es, k) >= 0,
    decreases es.len(),
{
    if i > 0 && es[0].0 != k {
        lemma_find_key_present(es.drop_first(), k, i - 1);
    }
}

/// One sidecar record per entry: key length, key bytes, byte size.
pub open spec fn spec_export_entries(es: Seq<(Seq<u8>, usize)>) -> Seq<u8>
    decreases es.len(),
{
    if es.len() == 0 {
        Seq::empty()
    } else {
        le_bytes(es[0].0.len(), 8) + es[0].0 + le_bytes(es[0].1 as nat, 8) + spec_export_entries(
            es.drop_first(),
        )
    }
}

/// The sidecar bytes: root path, capacity, total size, entry count,
/// then the entries in least-recently-used-first order.
pub open spec fn spec_export(v: LruView) -> Seq<u8> {
    le_bytes(v.root.len(), 8) + v.root + le_bytes(v.capacity as nat, 8) + le_bytes(
        v.size as nat,
        8,
    ) + le_bytes(v.entries.len(), 8) + spec_export_entries(v.entries)
}

/// Reads `n` sidecar records at `pos`.
pub open spec fn spec_read_entries(s: Seq<u8>, pos: int, n: nat) -> Option<
    (Seq<(Seq<u8>, usize)>, int),
>
    decreases n,
{
    if n == 0 {
        Some((Seq::empty(), pos))
    } else if !(0 <= pos && pos + 8 <= s.len()) {
        None
    } else {
        let klen = le_val(s, pos, 8) as int;
        let p1 = pos + 8;
        if p1 + klen > s.len() {
            None
        } else {
            let key = s.subrange(p1, p1 + klen);
            let p2 = p1 + klen;
            if p2 + 8 > s.len() {
                None
            } else {
                let sz = le_val(s, p2, 8);
                if sz > usize::MAX {
                    None
                } else {
                    match spec_read_entries(s, p2 + 8, (n - 1) as nat) {
                        Some(rp) => Some((seq![(key, sz as usize)] + rp.0, rp.1)),
                        None => None,
                    }
                }
            }
        }
    }
}

/// What reopening a sidecar yields: the recorded state, validated
/// (unique keys, size equal to the sum, nothing left over), with the
/// capacity optionally overridden.
pub open spec fn spec_import(s: Seq<u8>, capacity: Option<usize>) -> Option<LruView> {
    if s.len() < 8 {
        None
    } else {
        let rootlen = le_val(s, 0, 8) as int;
        if 8 + rootlen > s.len() {
            None
        } else {
            let root = s.subrange(8, 8 + rootlen);
            let p = 8 + rootlen;
            if p + 24 > s.len() {
                None
            } else {
                let cap0 = le_val(s, p, 8);
                let size0 = le_val(s, p + 8, 8);
                let count = le_val(s, p + 16, 8);
                if cap0 > usize::MAX || size0 > usize::MAX {
                    None
                } else {
                    match spec_read_entries(s, p + 24, count) {
                        Some(rp) => {
                            if rp.1 == s.len() && unique_keys(rp.0) && sum_sizes(rp.0)
                                == size0 {
                                Some(
                                    LruView {
                                        root,
                                        size: size0 as usize,
                                        capacity: match capacity {
                                            Some(c) => c,
                                            None => cap0 as usize,
                                        },
                                        entries: rp.0,
                                    },
                                )
                            } else {
                                None
                            }
                        }
                        None => None,
                    }
                }
            }
        }
    }
}

impl LruCache {
    /// Serialises the index for the sidecar file.
    pub fn export(&self) -> (r: Vec<u8>)
        ensures
            r@ == spec_export(self@),
    {
        let mut out: Vec<u8> = Vec::new();
        push_le(&mut out, self.root.len() as u64, 8);
        crate::text::push_bytes(&mut out, self.root.as_slice());
        push_le(&mut out, self.capacity as u64, 8);
        push_le(&mut out, self.size as u64, 8);
        let all = self.entries();
        push_le(&mut out, all.len() as u64, 8);
        let ghost hdr = out@;
        let ghost es = self@.entries;
        proof {
            assert(es.skip(0) =~= es);
        }
        let mut i: usize = 0;
        while i < all.len()
            invariant
                i <= all@.len(),
                all@.len() == es.len(),
                forall|j: int|
                    0 <= j < all@.len() ==> all@[j].0@ == es[j].0 && all@[j].1 == es[j].1,
                hdr + spec_export_entries(es) == out@ + spec_export_entries(es.skip(i as int)),
            decreases all@.len() - i,
        {
            proof {
                assert(es.skip(i as int)[0] == es[i as int]);
                assert(es.skip(i as int).drop_first() =~= es.skip(i as int + 1));
            }
            push_le(&mut out, all[i].0.len() as u64, 8);
            crate::text::push_bytes(&mut out, all[i].0.as_slice());
            push_le(&mut out, all[i].1 as u64, 8);
            i += 1;
        }
        proof {
            assert(es.skip(es.len() as int) =~= Seq::<(Seq<u8>, usize)>::empty());
            assert(out@ =~= spec_export(self@));
        }
        out
    }

    /// Reopens a serialised index, optionally overriding the capacity;
    /// a corrupt sidecar yields nothing.
    pub fn import_bytes(bytes: &[u8], capacity: Option<usize>) -> (r: Option<LruCache>)
        ensures
            match (r, spec_import(bytes@, capacity)) {
                (Some(c), Some(v)) => c@ == v && c.wf(),
                (None, None) => true,
                _ => false,
            },
    {
        let n = bytes.len();
        let (rootlen, p0) = match read_le(bytes, 0, 8) {
            Some(x) => x,
            None => {
                return None;
            },
        };
        if rootlen > (n - p0) as u64 {
            return None;
        }
        let rl = rootlen as usize;
        let root = crate::text::copy_range(bytes, p0, p0 + rl);
        proof {
            assert(root@ =~= bytes@.subrange(8, 8 + le_val(bytes@, 0, 8) as int));
        }
        let p1 = p0 + rl;
        let (cap0, p2) = match read_le(bytes, p1, 8) {
            Some(x) => x,
            None => {
                return None;
            },
        };
        let (size0, p3) = match read_le(bytes, p2, 8) {
            Some(x) => x,
            None => {
                return None;
            },
        };
        let (count, p4) = match read_le(bytes, p3, 8) {
            Some(x) => x,
            None => {
                return None;
            },
        };
        if cap0 > usize::MAX as u64 || size0 > usize::MAX as u64 {
            return None;
        }
        let mut items = lhm_new();
        let mut sum: u128 = 0;
        let mut pos: usize = p4;
        let mut i: u64 = 0;
        while i < count
            invariant
                i <= count,
                pos <= bytes@.len(),
                n == bytes@.len(),
                rootlen as nat == le_val(bytes@, 0, 8),
                8 + (rootlen as int) <= bytes@.len(),
                rl == rootlen as usize,
                root@ == bytes@.subrange(8, 8 + (rootlen as int)),
                cap0 as nat == le_val(bytes@, 8 + (rootlen as int), 8),
                size0 as nat == le_val(bytes@, 8 + (rootlen as int) + 8, 8),
                count as nat == le_val(bytes@, 8 + (rootlen as int) + 16, 8),
                p4 as int == 8 + (rootlen as int) + 24,
                p4 <= bytes@.len(),
                cap0 <= usize::MAX as u64,
                size0 <= usize::MAX as u64,
                unique_keys(lru_entries(items)),
                sum == sum_sizes(lru_entries(items)),
                sum <= (i as u128) * 0xffff_ffff_ffff_ffffu128,
                ({
                    let full = spec_read_entries(bytes@, p4 as int, count as nat);
                    match spec_read_entries(bytes@, pos as int, (count - i) as nat) {
                        Some(rp) => full == Some((lru_entries(items) + rp.0, rp.1)),
                        None => full is None,
                    }
                }),
            decreases count - i,
        {
            let ghost built = lru_entries(items);
            let (klen, q0) = match read_le(bytes, pos, 8) {
                Some(x) => x,
                None => {
                    return None;
                },
            };
            if klen > (n - q0) as u64 {
                return None;
            }
            let kl = klen as usize;
            let key = crate::text::copy_range(bytes, q0, q0 + kl);
            let q1 = q0 + kl;
            let (sz, q2) = match read_le(bytes, q1, 8) {
                Some(x) => x,
                None => {
                    return None;
                },
            };
            if sz > usize::MAX as u64 {
                return None;
            }
            proof {
                lemma_find_key(built, key@);
                assert(key@ =~= bytes@.subrange(q0 as int, q0 + klen as int));
            }
            match lhm_insert(&mut items, key, sz as usize) {
                Some(_) => {
                    // a duplicate key: the sidecar's entries are not a
                    // valid index
                    proof {
                        let kb = bytes@.subrange(q0 as int, q0 + klen as int);
                        let k = find_key(built, kb);
                        lemma_find_key(built, kb);
                        match spec_read_entries(bytes@, pos as int, (count - i) as nat) {
                            Some(rpv) => {
                                let fullseq = built + rpv.0;
                                assert(rpv.0[0] == (kb, sz as usize));
                                assert(fullseq[k] == built[k]);
                                assert(fullseq[built.len() as int] == rpv.0[0]);
                                assert(fullseq[k].0 == fullseq[built.len() as int].0);
                                assert(!unique_keys(fullseq));
                            }
                            None => {}
                        }
                    }
                    return None;
                }
                None => {}
            }
            sum = sum + (sz as u128);
            proof {
                let e = (bytes@.subrange(q0 as int, q0 + klen as int), sz as usize);
                lemma_sum_push(built, e);
                assert(unique_keys(built.push(e))) by {
                    let esp = built.push(e);
                    assert forall|a: int, b: int| 0 <= a < b < esp.len() implies esp[a].0
                        != esp[b].0 by {
                        if b + 1 < esp.len() {
                            assert(esp[a] == built[a]);
                            assert(esp[b] == built[b]);
                        } else {
                            assert(esp[a] == built[a]);
                        }
                    }
                }
                let rp2 = spec_read_entries(bytes@, q2 as int, (count - i - 1) as nat);
                match rp2 {
                    Some(rp2v) => {
                        assert(spec_read_entries(bytes@, pos as int, (count - i) as nat)
                            == Some((seq![e] + rp2v.0, rp2v.1)));
                        assert(built.push(e) + rp2v.0 =~= built + (seq![e] + rp2v.0));
                    }
                    None => {
                        assert(spec_read_entries(bytes@, pos as int, (count - i) as nat)
                            is None);
                    }
                }
            }
            pos = q2;
            i += 1;
        }
        proof {
            assert(lru_entries(items) + Seq::<(Seq<u8>, usize)>::empty() =~= lru_entries(items));
        }
        if pos != n {
            return None;
        }
        if sum != size0 as u128 {
            return None;
        }
        let cap = match capacity {
            Some(c) => c,
            None => cap0 as usize,
        };
        let c = LruCache { root, size: size0 as usize, capacity: cap, items };
        proof {
            assert(spec_read_entries(bytes@, pos as int, 0) == Some(
                (Seq::<(Seq<u8>, usize)>::empty(), pos as int),
            ));
            assert(lru_entries(c.items) + Seq::<(Seq<u8>, usize)>::empty() =~= lru_entries(
                c.items,
            ));
            assert(c@ =~= spec_import(bytes@, capacity)->Some_0);
        }
        Some(c)
    }
}

/// Lengths that fit the sidecar's eight-byte fields; every index this
/// library builds satisfies them.
pub open spec fn exportable(v: LruView) -> bool {
    &&& v.root.len() < pow256(8)
    &&& v.entries.len() < pow256(8)
    &&& forall|j: int| 0 <= j < v.entries.len() ==> v.entries[j].0.len() < pow256(8)
}

proof fn lemma_export_entries_len(es: Seq<(Seq<u8>, usize)>)
    ensures
        spec_export_entries(es).len() >= 0,
        es.len() > 0 ==> spec_export_entries(es).len() == 16 + es[0].0.len()
            + spec_export_entries(es.drop_first()).len(),
{
    if es.len() > 0 {
        lemma_le_bytes_len(es[0].0.len(), 8);
        lemma_le_bytes_len(es[0].1 as nat, 8);
    }
}

/// Reading the records written for `es` yields `es` back.
proof fn lemma_read_entries_of_export(s: Seq<u8>, pos: int, es: Seq<(Seq<u8>, usize)>)
    requires
        0 <= pos,
        pos + spec_export_entries(es).len() <= s.len(),
        s.subrange(pos, pos + spec_export_entries(es).len()) == spec_export_entries(es),
        forall|j: int| 0 <= j < es.len() ==> es[j].0.len() < pow256(8),
    ensures
        spec_read_entries(s, pos, es.len()) == Some(
            (es, pos + spec_export_entries(es).len()),
        ),
    decreases es.len(),
{
    if es.len() == 0 {
        assert(spec_read_entries(s, pos, 0) == Some((Seq::<(Seq<u8>, usize)>::empty(), pos)));
        assert(es =~= Seq::<(Seq<u8>, usize)>::empty());
    } else {
        let key = es[0].0;
        let klen = key.len() as int;
        let sz = es[0].1;
        let rest = es.drop_first();
        let a = le_bytes(klen as nat, 8);
        let b = le_bytes(sz as nat, 8);
        let w = spec_export_entries(es);
        let wr = spec_export_entries(rest);
        lemma_le_bytes_len(klen as nat, 8);
        lemma_le_bytes_len(sz as nat, 8);
        lemma_export_entries_len(es);
        assert(w == a + key + b + wr);
        assert(s.subrange(pos, pos + 8) =~= a) by {
            assert forall|t: int| 0 <= t < 8 implies s.subrange(pos, pos + 8)[t] == a[t] by {
                assert(s[pos + t] == w[t]);
            }
        }
        lemma_le_roundtrip(s, pos, klen as nat, 8);
        assert(s.subrange(pos + 8, pos + 8 + klen) =~= key) by {
            assert forall|t: int| 0 <= t < klen implies s.subrange(pos + 8, pos + 8 + klen)[t]
                == key[t] by {
                assert(s[pos + 8 + t] == w[8 + t]);
                assert(w[8 + t] == key[t]);
            }
        }
        assert(s.subrange(pos + 8 + klen, pos + 16 + klen) =~= b) by {
            assert forall|t: int| 0 <= t < 8 implies s.subrange(
                pos + 8 + klen,
                pos + 16 + klen,
            )[t] == b[t] by {
                assert(s[pos + 8 + klen + t] == w[8 + klen + t]);
                assert(w[8 + klen + t] == b[t]);
            }
        }
        assert((sz as nat) < pow256(8)) by {
            lemma_pow256_8();
        }
        lemma_le_roundtrip(s, pos + 8 + klen, sz as nat, 8);
        assert(s.subrange(pos + 16 + klen, pos + 16 + klen + wr.len()) =~= wr) by {
            assert forall|t: int| 0 <= t < wr.len() implies s.subrange(
                pos + 16 + klen,
                pos + 16 + klen + wr.len(),
            )[t] == wr[t] by {
                assert(s[pos + 16 + klen + t] == w[16 + klen + t]);
                assert(w[16 + klen + t] == wr[t]);
            }
        }
        assert forall|j: int| 0 <= j < rest.len() implies rest[j].0.len() < pow256(8) by {
            assert(rest[j] == es[j + 1]);
        }
        lemma_read_entries_of_export(s, pos + 16 + klen, rest);
        assert(seq![(key, sz)] + rest =~= es);
    }
}

/// Exporting an index and reopening the bytes restores it: every key,
/// every size, and the order all survive; only the capacity may be
/// overridden on the way back in.
pub proof fn lemma_export_import(v: LruView, capacity: Option<usize>)
    requires
        unique_keys(v.entries),
        v.size == sum_sizes(v.entries),
        exportable(v),
    ensures
        spec_import(spec_export(v), capacity) == Some(
            LruView {
                root: v.root,
                size: v.size,
                capacity: match capacity {
                    Some(c) => c,
                    None => v.capacity,
                },
                entries: v.entries,
            },
        ),
{
    let s = spec_export(v);
    let rl = v.root.len() as int;
    let a = le_bytes(v.root.len(), 8);
    let b = le_bytes(v.capacity as nat, 8);
    let c = le_bytes(v.size as nat, 8);
    let d = le_bytes(v.entries.len(), 8);
    let w = spec_export_entries(v.entries);
    lemma_le_bytes_len(v.root.len(), 8);
    lemma_le_bytes_len(v.capacity as nat, 8);
    lemma_le_bytes_len(v.size as nat, 8);
    lemma_le_bytes_len(v.entries.len(), 8);
    lemma_pow256_8();
    assert(s == a + v.root + b + c + d + w);
    assert(s.subrange(0, 8) =~= a) by {
        assert forall|t: int| 0 <= t < 8 implies s.subrange(0, 8)[t] == a[t] by {
            assert(s[t] == a[t]);
        }
    }
    lemma_le_roundtrip(s, 0, v.root.len(), 8);
    assert(s.subrange(8, 8 + rl) =~= v.root) by {
        assert forall|t: int| 0 <= t < rl implies s.subrange(8, 8 + rl)[t] == v.root[t] by {
            assert(s[8 + t] == v.root[t]);
        }
    }
    assert(s.subrange(8 + rl, 16 + rl) =~= b) by {
        assert forall|t: int| 0 <= t < 8 implies s.subrange(8 + rl, 16 + rl)[t] == b[t] by {
            assert(s[8 + rl + t] == b[t]);
        }
    }
    lemma_le_roundtrip(s, 8 + rl, v.capacity as nat, 8);
    assert(s.subrange(16 + rl, 24 + rl) =~= c) by {
        assert forall|t: int| 0 <= t < 8 implies s.subrange(16 + rl, 24 + rl)[t] == c[t] by {
            assert(s[16 + rl + t] == c[t]);
        }
    }
    lemma_le_roundtrip(s, 16 + rl, v.size as nat, 8);
    assert(s.subrange(24 + rl, 32 + rl) =~= d) by {
        assert forall|t: int| 0 <= t < 8 implies s.subrange(24 + rl, 32 + rl)[t] == d[t] by {
            assert(s[24 + rl + t] == d[t]);
        }
    }
    lemma_le_roundtrip(s, 24 + rl, v.entries.len(), 8);
    assert(s.subrange(32 + rl, 32 + rl + w.len()) =~= w) by {
        assert forall|t: int| 0 <= t < w.len() implies s.subrange(32 + rl, 32 + rl + w.len())[t]
            == w[t] by {
            assert(s[32 + rl + t] == w[t]);
        }
    }
    lemma_read_entries_of_export(s, 32 + rl, v.entries);
}

} // verus!
