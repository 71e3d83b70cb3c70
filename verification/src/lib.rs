pub mod atomicvec;
pub mod key;
pub mod keyvalue;
pub mod hashkey;
pub mod kvtable;

use vstd::prelude::*;

use crate::hashkey::{MapKey, MapValue};
use crate::key::{KeyHolder, ValueHolder};
use crate::kvtable::{KVs, LookupStep, MAX_SIZE, REPROBE_LIMIT};

verus! {

/// Smallest table length.
pub const MIN_SIZE: usize = 8;

/// Capacity hints beyond this are clamped before sizing the first table.
pub const MAX_SIZE_HINT: usize = 1048576;

/// How a `put_if_match` decides whether to overwrite the current value.
#[derive(PartialEq, Eq, Structural)]
pub enum MatchingTypes {
    /// Overwrite whatever is there.
    MatchAll,
    /// Overwrite only a live value.
    MatchAllNotEmpty,
    /// Overwrite only if the current value equals the expected one,
    /// where an empty cell matches an expected tombstone.
    MatchValue,
    /// Internal copy mode: install only into a slot that carries no
    /// live value yet, so a newer writer in the successor wins.
    FromCopySlot,
}

/// Reads the wall clock for the resize heuristic.
///
/// Relies on std::time::SystemTime::now; nothing is assumed about the
/// value returned, and the sizing policy is verified for every value.
#[verifier::external_body]
fn now_millis() -> u64 {
    match std::time::SystemTime::now().duration_since(std::time::SystemTime::UNIX_EPOCH) {
        Ok(d) => d.as_millis() as u64,
        Err(_) => 0,
    }
}

// ---Hash Map -----------------------------------------------------------

/// The map: a pointer to the current table generation, and the instant
/// of the last promotion, which feeds the resize heuristic.
pub struct NonBlockingHashMap<K, V> {
    _kvs: Box<KVs<K, V>>,
    _last_resize: u64,
}

impl<K: MapKey, V: MapValue> NonBlockingHashMap<K, V> {
    pub closed spec fn wf(&self) -> bool {
        self._kvs.wf()
    }

    /// The current table generation.
    pub closed spec fn root(&self) -> KVs<K, V> {
        *self._kvs
    }

    /// What the map associates with an abstract key value.
    pub closed spec fn lookup(&self, kv: K::V) -> Option<V::V> {
        self._kvs.chain_lookup(kv)
    }

    pub fn new() -> (r: NonBlockingHashMap<K, V>)
        ensures
            r.wf(),
            r.root().settled(),
            r.root().spec_len() >= 32,
            r.root().spec_len() < 64,
            r.root()._chm._size == 0,
            r.root().spec_len() >= 8,
            r.root().spec_len() <= 4194304,
            forall|i: int| 0 <= i < r.root().spec_len() ==> (#[trigger] r.root().kcell(i)) is None,
            forall|i: int| 0 <= i < r.root().spec_len() ==> (#[trigger] r.root().vcell(i)) is None,
            forall|i: int| 0 <= i < r.root().spec_len() ==> (#[trigger] r.root()._hashes@[i]) == 0,
            r.root()._chm._slots == 0,
            r.root()._chm._copy_done == 0,
            r.root()._chm._copy_idx == 0,
            r.root()._chm._resizer == 0,
            forall|kv: K::V| r.lookup(kv) is None,
    {
        NonBlockingHashMap::with_capacity(MIN_SIZE)
    }

    pub fn with_capacity(initial_sz: usize) -> (r: NonBlockingHashMap<K, V>)
        ensures
            r.wf(),
            r.root().settled(),
            r.root()._chm._size == 0,
            kvtable::is_pow2(r.root().spec_len()),
            r.root().spec_len() >= 4 * min_hint(initial_sz as int),
            r.root().spec_len() == 8 || r.root().spec_len() / 2 < 4 * min_hint(initial_sz as int),
            r.root().spec_len() >= 8,
            r.root().spec_len() <= 4194304,
            forall|i: int| 0 <= i < r.root().spec_len() ==> (#[trigger] r.root().kcell(i)) is None,
            forall|i: int| 0 <= i < r.root().spec_len() ==> (#[trigger] r.root().vcell(i)) is None,
            forall|i: int| 0 <= i < r.root().spec_len() ==> (#[trigger] r.root()._hashes@[i]) == 0,
            r.root()._chm._slots == 0,
            r.root()._chm._copy_done == 0,
            r.root()._chm._copy_idx == 0,
            r.root()._chm._resizer == 0,
            forall|kv: K::V| r.lookup(kv) is None,
    {
        let mut initial_sz = initial_sz;
        if initial_sz > MAX_SIZE_HINT {
            initial_sz = MAX_SIZE_HINT;
        }
        let lo: usize = initial_sz * 4;
        let mut cap: usize = MIN_SIZE;
        proof {
            reveal_with_fuel(kvtable::is_pow2, 5);
        }
        while cap < lo
            invariant
                kvtable::is_pow2(cap as int),
                8 <= cap <= 8388608,
                lo <= 4194304,
                cap == 8 || cap / 2 < lo,
            decreases (if cap < lo { lo - cap } else { 0int }),
        {
            proof {
                assert(kvtable::is_pow2(2 * cap as int)) by {
                    reveal_with_fuel(kvtable::is_pow2, 2);
                }
            }
            cap = cap * 2;
        }
        proof {
            assert(kvtable::is_pow2(4194304int)) by {
                reveal_with_fuel(kvtable::is_pow2, 24);
            }
            if cap > 4194304 {
                kvtable::lemma_pow2_double(4194304int, cap as int);
                assert(false);
            }
        }
        let table = KVs::<K, V>::new(cap);
        proof {
            lemma_empty_table_wf(&table);
        }
        NonBlockingHashMap { _kvs: Box::new(table), _last_resize: now_millis() }
    }

    /// The current table, for diagnostics and tests.
    pub fn get_table_nonatomic(&self) -> (t: &KVs<K, V>)
        ensures
            *t == self.root(),
    {
        &self._kvs
    }

    /// The table `level` generations down the chain, if the chain is
    /// that long.
    pub fn get_kvs_level(&self, level: u32) -> (r: Option<&KVs<K, V>>)
        ensures
            (r is Some) == (self.root().table_at(level as nat) is Some),
            r matches Some(t) ==> self.root().table_at(level as nat) == Some(*t),
    {
        NonBlockingHashMap::get_kvs_level_impl(&self._kvs, level)
    }

    fn get_kvs_level_impl(kvs: &KVs<K, V>, level: u32) -> (r: Option<&KVs<K, V>>)
        ensures
            (r is Some) == (kvs.table_at(level as nat) is Some),
            r matches Some(t) ==> kvs.table_at(level as nat) == Some(*t),
        decreases level,
    {
        if level == 0 {
            Some(kvs)
        } else {
            match kvs._chm.get_newkvs_nonatomic() {
                Some(nt) => NonBlockingHashMap::get_kvs_level_impl(nt, level - 1),
                None => None,
            }
        }
    }

    /// Length of the current table.
    pub fn capacity(&self) -> (n: usize)
        ensures
            n == self.root().spec_len(),
    {
        self._kvs.len()
    }

    /// Look the key up, walking the generation chain read-only.
    pub fn get(&self, key: K) -> (r: Option<V>)
        requires
            self.wf(),
        ensures
            (r is None) == (self.lookup(key@) is None),
            r matches Some(v) ==> self.lookup(key@) == Some(v@),
    {
        let fullhash = key.full_hash();
        NonBlockingHashMap::get_impl_supply_hash(&self._kvs, &key, fullhash)
    }

    /// Probe one table for the key; descend into the successor where
    /// the table hands the lookup on.
    fn get_impl_supply_hash(kvs: &KVs<K, V>, key: &K, fullhash: u64) -> (r: Option<V>)
        requires
            kvs.wf(),
            fullhash == K::hash_of(key@),
        ensures
            (r is None) == (kvs.chain_lookup(key@) is None),
            r matches Some(v) ==> kvs.chain_lookup(key@) == Some(v@),
        decreases *kvs,
    {
        let len = kvs.len();
        let mask: u64 = (len as u64) - 1;
        let home64: u64 = fullhash & mask;
        proof {
            assert(home64 <= mask) by (bit_vector)
                requires
                    home64 == fullhash & mask,
            ;
        }
        let mut idx: usize = home64 as usize;
        let ghost home = kvs.home_slot(fullhash);
        proof {
            assert(idx == home);
        }
        let limit = kvs.reprobe_limit();
        let mut fuel: usize = limit;
        loop
            invariant
                kvs.wf(),
                len == kvs.spec_len(),
                0 <= idx < len,
                1 <= fuel <= limit,
                limit == kvs.spec_reprobe_limit(),
                fullhash == K::hash_of(key@),
                home == kvs.home_slot(fullhash),
                kvs.get_probe(key@, home, limit as nat) == kvs.get_probe(
                    key@,
                    idx as int,
                    fuel as nat,
                ),
            decreases fuel,
        {
            match kvs.get_key_nonatomic_at(idx) {
                None => {
                    return None;
                },
                Some(kh) => {
                    let key_matches = match kh {
                        KeyHolder::Key(k) => key.key_eq(k),
                        KeyHolder::Tombstone => false,
                    };
                    if key_matches {
                        match kvs.get_value_nonatomic_at(idx) {
                            Some(ValueHolder::Value(v)) => {
                                return Some(v.dup_val());
                            },
                            Some(ValueHolder::Prime(_)) => {
                                match kvs._chm.get_newkvs_nonatomic() {
                                    Some(nt) => {
                                        return NonBlockingHashMap::get_impl_supply_hash(
                                            nt,
                                            key,
                                            fullhash,
                                        );
                                    },
                                    None => {
                                        proof {
                                            assert(kvs.val_primed(idx as int));
                                            assert(false);
                                        }
                                        return vstd::pervasive::unreached();
                                    },
                                }
                            },
                            _ => {
                                return None;
                            },
                        }
                    } else {
                        let is_tomb = match kh {
                            KeyHolder::Tombstone => true,
                            KeyHolder::Key(_) => false,
                        };
                        if fuel <= 1 || is_tomb {
                            match kvs._chm.get_newkvs_nonatomic() {
                                Some(nt) => {
                                    return NonBlockingHashMap::get_impl_supply_hash(
                                        nt,
                                        key,
                                        fullhash,
                                    );
                                },
                                None => {
                                    return None;
                                },
                            }
                        }
                        fuel = fuel - 1;
                        idx = if idx + 1 == len {
                            0
                        } else {
                            idx + 1
                        };
                    }
                },
            }
        }
    }
}

impl<K: MapKey, V: MapValue> NonBlockingHashMap<K, V> {
    /// Install this key and value, and return the prior value, or the
    /// tombstone sentinel where no entry existed.
    pub fn put(&mut self, key: K, newval: V) -> (r: ValueHolder<V>)
        requires
            old(self).wf(),
        ensures
            final(self).wf(),
            final(self).root().spec_len() >= old(self).root().spec_len(),
            !(r is Prime),
            (old(self).root().settled() && !(old(self).root().put_locate(key@)
                is Exhausted)) ==> kvtable::put_exact(
                old(self).root(),
                final(self).root(),
                key@,
                ValueHolder::Value(newval),
                r,
            ),
            // Whatever the probe found, the insert acts on the old
            // root exactly as specified, and the promotions that may
            // follow change no lookup.
            old(self).root().settled() ==> exists|mid: KVs<K, V>|
                #[trigger] kvtable::put_exact(
                    old(self).root(),
                    mid,
                    key@,
                    ValueHolder::Value(newval),
                    r,
                ) && forall|kv: K::V| final(self).lookup(kv) == mid.chain_lookup(kv),
    {
        let fullhash = key.full_hash();
        let last = self._last_resize;
        let r = NonBlockingHashMap::put_if_match_rec(
            &mut self._kvs,
            key,
            ValueHolder::Value(newval),
            MatchingTypes::MatchAll,
            None,
            fullhash,
            last,
            PUT_GAS,
        );
        let ghost mid_root = *self._kvs;
        self.copy_check_and_promote();
        proof {
            if old(self).root().settled() {
                assert(kvtable::put_exact(
                    old(self).root(),
                    mid_root,
                    key@,
                    ValueHolder::Value(newval),
                    r,
                ) && forall|kv: K::V| final(self).lookup(kv) == mid_root.chain_lookup(kv));
            }
        }
        r
    }

    /// Logically delete this key by installing a tombstone; returns the
    /// prior value, or a tombstone where no entry existed.
    pub fn delete(&mut self, key: K) -> (r: ValueHolder<V>)
        requires
            old(self).wf(),
        ensures
            final(self).wf(),
            final(self).root().spec_len() >= old(self).root().spec_len(),
            !(r is Prime),
            (old(self).root().settled() && !(old(self).root().put_locate(key@)
                is Exhausted)) ==> kvtable::put_exact(
                old(self).root(),
                final(self).root(),
                key@,
                ValueHolder::Tombstone,
                r,
            ),
            old(self).root().settled() ==> exists|mid: KVs<K, V>|
                #[trigger] kvtable::put_exact(
                    old(self).root(),
                    mid,
                    key@,
                    ValueHolder::Tombstone,
                    r,
                ) && forall|kv: K::V| final(self).lookup(kv) == mid.chain_lookup(kv),
    {
        let fullhash = key.full_hash();
        let last = self._last_resize;
        let r = NonBlockingHashMap::put_if_match_rec(
            &mut self._kvs,
            key,
            ValueHolder::Tombstone,
            MatchingTypes::MatchAll,
            None,
            fullhash,
            last,
            PUT_GAS,
        );
        let ghost mid_root = *self._kvs;
        self.copy_check_and_promote();
        proof {
            if old(self).root().settled() {
                assert(kvtable::put_exact(
                    old(self).root(),
                    mid_root,
                    key@,
                    ValueHolder::Tombstone,
                    r,
                ) && forall|kv: K::V| final(self).lookup(kv) == mid_root.chain_lookup(kv));
            }
        }
        r
    }

    /// Promote fully copied generations: while the current table has
    /// every slot migrated and a successor, move the map to the
    /// successor.
    fn copy_check_and_promote(&mut self)
        requires
            old(self).wf(),
        ensures
            final(self).wf(),
            final(self).root().spec_len() >= old(self).root().spec_len(),
            old(self).root().settled() ==> final(self).root() == old(self).root(),
            forall|kv: K::V| final(self).lookup(kv) == old(self).lookup(kv),
            // Promotion runs to completion: the map never rests on a
            // fully copied table that still has a successor.
            !(final(self).root()._chm._copy_done == final(self).root().spec_len()
                && final(self).root()._chm._newkvs is Some),
    {
        loop
            invariant
                self.wf(),
                self.root().spec_len() >= old(self).root().spec_len(),
                old(self).root().settled() ==> self.root() == old(self).root(),
                forall|kv: K::V| self.lookup(kv) == old(self).lookup(kv),
            decreases self._kvs.chain_depth(),
        {
            let done = self._kvs._chm._copy_done == self._kvs.len();
            if !done {
                return ;
            }
            let has_succ = match self._kvs._chm.get_newkvs_nonatomic() {
                Some(_) => true,
                None => false,
            };
            if !has_succ {
                return ;
            }
            proof {
                assert forall|kv: K::V|
                    self._kvs._chm._newkvs->0.chain_lookup(kv) == self.lookup(kv) by {
                    kvtable::lemma_promotion_preserves_lookup(&self._kvs, kv);
                }
            }
            match self._kvs._chm._newkvs.take() {
                Some(nt) => {
                    self._kvs = nt;
                    self._last_resize = now_millis();
                },
                None => {
                    proof {
                        assert(false);
                    }
                    return ;
                },
            }
        }
    }

    /// Begin a resize of this table if none is under way: pick the
    /// successor length from the live count, the used-slot count, and
    /// the time since the last resize, then install a fresh successor.
    fn resize(kvs: &mut KVs<K, V>, last_resize: u64)
        requires
            old(kvs).wf(),
        ensures
            final(kvs).wf(),
            final(kvs).spec_len() == old(kvs).spec_len(),
            final(kvs)._ks@ == old(kvs)._ks@,
            final(kvs)._vs@ == old(kvs)._vs@,
            final(kvs)._hashes@ == old(kvs)._hashes@,
            final(kvs)._chm._size == old(kvs)._chm._size,
            final(kvs)._chm._slots == old(kvs)._chm._slots,
            final(kvs)._chm._copy_done == old(kvs)._chm._copy_done,
            final(kvs)._chm._copy_idx == old(kvs)._chm._copy_idx,
            final(kvs)._chm._newkvs is Some,
            old(kvs)._chm._newkvs is Some ==> *final(kvs) == *old(kvs),
            old(kvs)._chm._newkvs is None ==> (final(kvs)._chm._newkvs matches Some(nt) && {
                &&& nt.settled()
                &&& nt.spec_len() >= old(kvs).spec_len()
                &&& exists|recent: bool|
                    nt.spec_len() == next_table_len(
                        old(kvs).spec_len(),
                        old(kvs)._chm._size as int,
                        old(kvs)._chm._slots as int,
                        recent,
                    )
            }),
    {
        match kvs._chm.get_newkvs_nonatomic() {
            Some(_) => {
                return ;
            },
            None => {},
        }
        let ghost pre = *kvs;
        let oldlen = kvs.len();
        let sz = kvs._chm._size;
        let slots_count = kvs._chm._slots;
        let mut newsz: usize = sz;
        if sz >= oldlen / 4 {
            newsz = oldlen * 2;
            if sz >= oldlen / 2 {
                newsz = oldlen * 4;
            }
        }
        let now = now_millis();
        let recent = now.saturating_sub(last_resize) <= 1000;
        if newsz <= oldlen && recent && slots_count >= 2 * sz {
            newsz = oldlen * 2;
        }
        if newsz < oldlen {
            newsz = oldlen;
        }
        let ghost target = grow_target(
            oldlen as int,
            sz as int,
            slots_count as int,
            recent,
        );
        proof {
            assert(newsz == target);
        }
        let mut cur: usize = MIN_SIZE;
        proof {
            reveal_with_fuel(kvtable::is_pow2, 28);
            assert(kvtable::is_pow2(MAX_SIZE as int));
        }
        while cur < newsz && cur * 2 <= MAX_SIZE
            invariant
                8 <= cur <= MAX_SIZE,
                newsz == target,
                newsz <= 4 * MAX_SIZE,
                kvtable::is_pow2(cur as int),
                pow2_fit(MIN_SIZE as int, target) == pow2_fit(cur as int, target),
            decreases (if cur < newsz {
                newsz - cur
            } else {
                0int
            }),
        {
            proof {
                reveal_with_fuel(kvtable::is_pow2, 2);
                assert(kvtable::is_pow2(2 * cur as int));
            }
            cur = cur * 2;
        }
        proof {
            reveal_with_fuel(kvtable::is_pow2, 28);
            if cur * 2 > MAX_SIZE && cur < MAX_SIZE {
                kvtable::lemma_pow2_double(cur as int, MAX_SIZE as int);
            }
            assert(pow2_fit(cur as int, target) == cur);
            assert(cur == next_table_len(oldlen as int, sz as int, slots_count as int, recent));
            assert(cur >= oldlen);
        }
        let newkvs_alloc = KVs::<K, V>::new(cur);
        proof {
            lemma_empty_table_wf(&newkvs_alloc);
        }
        kvs._chm._resizer = kvs._chm._resizer + 1;
        kvs._chm._newkvs = Some(Box::new(newkvs_alloc));
        proof {
            kvtable::lemma_wf_local_chm_change(&pre, kvs);
        }
    }

    /// Copy one chunk of slots from this table to its successor and
    /// record the work in the copy counter.
    #[verifier::loop_isolation(false)]
    fn help_copy_impl(kvs: &mut KVs<K, V>, last_resize: u64, gas: u64)
        requires
            old(kvs).wf(),
            old(kvs)._chm._newkvs is Some,
        ensures
            final(kvs).wf(),
            final(kvs).spec_len() == old(kvs).spec_len(),
            final(kvs)._chm._newkvs is Some,
            final(kvs)._chm._slots == old(kvs)._chm._slots,
            final(kvs)._hashes@ == old(kvs)._hashes@,
            forall|x: int|
                0 <= x < old(kvs).spec_len() && !old(kvs).key_absent(x)
                    ==> #[trigger] final(kvs).kcell(x) == old(kvs).kcell(x),
            forall|x: int|
                0 <= x < old(kvs).spec_len() && old(kvs).retired(x)
                    ==> #[trigger] final(kvs).retired(x),
            forall|x: int|
                0 <= x < old(kvs).spec_len() && old(kvs).val_primed(x)
                    ==> #[trigger] final(kvs).val_primed(x),
            forall|x: int|
                0 <= x < old(kvs).spec_len() && final(kvs).vcell(x) != old(kvs).vcell(x)
                    ==> #[trigger] final(kvs).val_primed(x),
            // One chunk of copy work is claimed and carried out: the
            // cursor advances by the chunk, and with copy budget in
            // hand every slot of the claimed chunk ends retired.
            // In panic mode the whole table is swept, leaving the copy
            // complete.
            (old(kvs)._chm._copy_done < old(kvs).spec_len() && old(kvs)._chm._copy_idx >= 2 * old(
                kvs,
            ).spec_len() && gas > 0) ==> final(kvs)._chm._copy_done == final(kvs).spec_len(),
            (old(kvs)._chm._copy_done < old(kvs).spec_len() && old(kvs)._chm._copy_idx < 2 * old(
                kvs,
            ).spec_len()) ==> ({
                let chunk = if old(kvs).spec_len() < 1024 {
                    old(kvs).spec_len()
                } else {
                    1024int
                };
                &&& final(kvs)._chm._copy_idx == old(kvs)._chm._copy_idx + chunk
                &&& (gas > 0 ==> forall|i: int|
                    0 <= i < chunk ==> #[trigger] final(kvs).retired(
                        (old(kvs)._chm._copy_idx + i) % old(kvs).spec_len(),
                    ))
            }),
        decreases gas, 2int,
    {
        let len = kvs.len();
        if kvs._chm._copy_done >= len {
            return ;
        }
        let chunk: usize = if len < 1024 {
            len
        } else {
            1024
        };
        let claimed = kvs._chm._copy_idx;
        if claimed >= 2 * len {
            // Panic-mode sweep: the claim cursor is spent, so stop
            // claiming and copy every slot outright.
            let mut work: usize = 0;
            let mut i: usize = 0;
            while i < len
                invariant
                    kvs.wf_mid(),
                    kvs._chm._newkvs is Some,
                    len == kvs.spec_len(),
                    work <= i <= len,
                    kvs._chm._copy_idx == old(kvs)._chm._copy_idx,
                    kvs._chm._slots == old(kvs)._chm._slots,
                    kvs._chm._size == old(kvs)._chm._size,
                    kvs._hashes@ == old(kvs)._hashes@,
                    kvs._chm._copy_done + work == kvs.count_retired(len as int),
                    old(kvs).count_lives(len as int) + old(kvs).count_retired(len as int)
                        <= kvs.count_lives(len as int) + kvs.count_retired(len as int),
                    forall|x: int|
                        0 <= x < len && !old(kvs).key_absent(x) ==> #[trigger] kvs.kcell(x) == old(
                            kvs,
                        ).kcell(x),
                    forall|x: int|
                        0 <= x < len && old(kvs).retired(x) ==> #[trigger] kvs.retired(x),
                    forall|x: int|
                        0 <= x < len && old(kvs).val_primed(x) ==> #[trigger] kvs.val_primed(x),
                    forall|x: int|
                        0 <= x < len && kvs.vcell(x) != old(kvs).vcell(x) ==> #[trigger] kvs.val_primed(
                            x,
                        ),
                    gas > 0 ==> forall|j: int| 0 <= j < i ==> #[trigger] kvs.retired(j),
                decreases len - i,
            {
                let ghost before = *kvs;
                if NonBlockingHashMap::copy_slot(kvs, i, last_resize, gas) {
                    work = work + 1;
                }
                proof {
                    assert forall|x: int|
                        0 <= x < len && !old(kvs).key_absent(x) implies #[trigger] kvs.kcell(x)
                        == old(kvs).kcell(x) by {
                        assert(before.kcell(x) == old(kvs).kcell(x));
                        assert(!before.key_absent(x));
                    }
                    assert forall|x: int|
                        0 <= x < len && old(kvs).retired(x) implies #[trigger] kvs.retired(x) by {
                        assert(before.retired(x));
                    }
                    assert forall|x: int|
                        0 <= x < len && old(kvs).val_primed(x) implies #[trigger] kvs.val_primed(
                        x,
                    ) by {
                        assert(before.val_primed(x));
                    }
                    assert forall|x: int|
                        0 <= x < len && kvs.vcell(x) != old(kvs).vcell(x)
                            implies #[trigger] kvs.val_primed(x) by {
                        if kvs.vcell(x) != before.vcell(x) {
                        } else {
                            assert(before.val_primed(x));
                        }
                    }
                    if gas > 0 {
                        assert forall|j: int| 0 <= j < i + 1 implies #[trigger] kvs.retired(j) by {
                            if j < i {
                                assert(before.retired(j));
                            } else {
                                assert(kvs.retired(i as int));
                            }
                        }
                    }
                }
                i = i + 1;
            }
            proof {
                if gas > 0 {
                    kvtable::lemma_count_all_retired(kvs, len as int);
                }
            }
            if work > 0 {
                proof {
                    kvtable::lemma_counts_bounded(kvs, len as int);
                }
                let ghost before_bump = *kvs;
                kvs._chm._copy_done = kvs._chm._copy_done + work;
                proof {
                    kvtable::lemma_wf_local_chm_change(&before_bump, kvs);
                    kvtable::lemma_cells_unchanged(&before_bump, kvs);
                }
            }
            return ;
        }
        let ghost pre = *kvs;
        kvs._chm._copy_idx = claimed + chunk;
        proof {
            kvtable::lemma_wf_local_chm_change(&pre, kvs);
        }
        let mut work: usize = 0;
        let mut i: usize = 0;
        while i < chunk
            invariant
                kvs.wf_mid(),
                kvs._chm._newkvs is Some,
                len == kvs.spec_len(),
                chunk <= len,
                work <= i <= chunk,
                claimed + chunk <= 3 * len,
                kvs._chm._copy_idx == claimed + chunk,
                kvs._chm._slots == old(kvs)._chm._slots,
                kvs._chm._size == old(kvs)._chm._size,
                kvs._hashes@ == old(kvs)._hashes@,
                kvs._chm._copy_done + work == kvs.count_retired(len as int),
                old(kvs).count_lives(len as int) + old(kvs).count_retired(len as int)
                    <= kvs.count_lives(len as int) + kvs.count_retired(len as int),
                forall|x: int|
                    0 <= x < len && !old(kvs).key_absent(x) ==> #[trigger] kvs.kcell(x) == old(
                        kvs,
                    ).kcell(x),
                forall|x: int|
                    0 <= x < len && old(kvs).retired(x) ==> #[trigger] kvs.retired(x),
                forall|x: int|
                    0 <= x < len && old(kvs).val_primed(x) ==> #[trigger] kvs.val_primed(x),
                forall|x: int|
                    0 <= x < len && kvs.vcell(x) != old(kvs).vcell(x) ==> #[trigger] kvs.val_primed(
                        x,
                    ),
                gas > 0 ==> forall|j: int|
                    0 <= j < i ==> #[trigger] kvs.retired((claimed + j) % (len as int)),
            decreases chunk - i,
        {
            let idx = (claimed + i) % len;
            let ghost before = *kvs;
            if NonBlockingHashMap::copy_slot(kvs, idx, last_resize, gas) {
                work = work + 1;
            }
            proof {
                assert forall|x: int|
                    0 <= x < len && !old(kvs).key_absent(x) implies #[trigger] kvs.kcell(x) == old(
                    kvs,
                ).kcell(x) by {
                    assert(before.kcell(x) == old(kvs).kcell(x));
                    assert(!before.key_absent(x));
                }
                assert forall|x: int|
                    0 <= x < len && old(kvs).retired(x) implies #[trigger] kvs.retired(x) by {
                    assert(before.retired(x));
                }
                assert forall|x: int|
                    0 <= x < len && old(kvs).val_primed(x) implies #[trigger] kvs.val_primed(
                    x,
                ) by {
                    assert(before.val_primed(x));
                }
                assert forall|x: int|
                    0 <= x < len && kvs.vcell(x) != old(kvs).vcell(x) implies #[trigger] kvs.val_primed(
                    x,
                ) by {
                    if kvs.vcell(x) != before.vcell(x) {
                    } else {
                        assert(before.val_primed(x));
                    }
                }
                if gas > 0 {
                    assert forall|j: int|
                        0 <= j < i + 1 implies #[trigger] kvs.retired(
                        (claimed + j) % (len as int),
                    ) by {
                        if j < i {
                            assert(before.retired((claimed + j) % (len as int)));
                        } else {
                            assert(kvs.retired(idx as int));
                        }
                    }
                }
            }
            i = i + 1;
        }
        if work > 0 {
            proof {
                kvtable::lemma_counts_bounded(kvs, len as int);
            }
            let ghost before_bump = *kvs;
            kvs._chm._copy_done = kvs._chm._copy_done + work;
            proof {
                kvtable::lemma_wf_local_chm_change(&before_bump, kvs);
                kvtable::lemma_cells_unchanged(&before_bump, kvs);
            }
        }
    }

    /// Migrate one slot and account for it; optionally help with a
    /// whole chunk afterwards.
    fn copy_slot_and_check(
        kvs: &mut KVs<K, V>,
        idx: usize,
        should_help: bool,
        last_resize: u64,
        gas: u64,
    )
        requires
            old(kvs).wf(),
            old(kvs)._chm._newkvs is Some,
            idx < old(kvs).spec_len(),
        ensures
            final(kvs).wf(),
            final(kvs).spec_len() == old(kvs).spec_len(),
            final(kvs)._chm._newkvs is Some,
            final(kvs)._chm._slots == old(kvs)._chm._slots,
            final(kvs)._hashes@ == old(kvs)._hashes@,
            forall|x: int|
                0 <= x < old(kvs).spec_len() && !old(kvs).key_absent(x)
                    ==> #[trigger] final(kvs).kcell(x) == old(kvs).kcell(x),
            forall|x: int|
                0 <= x < old(kvs).spec_len() && old(kvs).retired(x)
                    ==> #[trigger] final(kvs).retired(x),
            forall|x: int|
                0 <= x < old(kvs).spec_len() && final(kvs).vcell(x) != old(kvs).vcell(x)
                    ==> #[trigger] final(kvs).val_primed(x),
            gas > 0 ==> final(kvs).retired(idx as int),
            (old(kvs).kcell(idx as int) matches Some(KeyHolder::Key(_))) ==> final(kvs).val_primed(
                idx as int,
            ),
        decreases gas, 3int,
    {
        let ghost entry = *old(kvs);
        if NonBlockingHashMap::copy_slot(kvs, idx, last_resize, gas) {
            proof {
                kvtable::lemma_counts_bounded(kvs, kvs.spec_len());
            }
            let ghost before_bump = *kvs;
            kvs._chm._copy_done = kvs._chm._copy_done + 1;
            proof {
                kvtable::lemma_wf_local_chm_change(&before_bump, kvs);
                kvtable::lemma_cells_unchanged(&before_bump, kvs);
            }
        }
        let ghost copied = *kvs;
        if should_help {
            NonBlockingHashMap::help_copy_impl(kvs, last_resize, gas);
            proof {
                assert forall|x: int|
                    0 <= x < entry.spec_len() && !entry.key_absent(x) implies #[trigger] kvs.kcell(
                    x,
                ) == entry.kcell(x) by {
                    assert(copied.kcell(x) == entry.kcell(x));
                    assert(!copied.key_absent(x));
                }
                assert forall|x: int|
                    0 <= x < entry.spec_len() && entry.retired(x) implies #[trigger] kvs.retired(
                    x,
                ) by {
                    assert(copied.retired(x));
                }
                assert forall|x: int|
                    0 <= x < entry.spec_len() && entry.val_primed(x) implies #[trigger] kvs.val_primed(
                    x,
                ) by {
                    assert(copied.val_primed(x));
                }
                assert forall|x: int|
                    0 <= x < entry.spec_len() && kvs.vcell(x) != entry.vcell(x)
                        implies #[trigger] kvs.val_primed(x) by {
                    if kvs.vcell(x) != copied.vcell(x) {
                    } else {
                        assert(copied.val_primed(x));
                    }
                }
                if gas > 0 {
                    assert(copied.retired(idx as int));
                }
            }
        }
    }

    /// Migrate the slot `idx` from this table into its successor,
    /// following the per-slot state machine: close an empty slot with
    /// a key tombstone, freeze the value into its primed form, carry a
    /// live value into the successor, and retire the slot with the
    /// primed tombstone. Returns true for the call that completes the
    /// migration.
    fn copy_slot(kvs: &mut KVs<K, V>, idx: usize, last_resize: u64, gas: u64) -> (r: bool)
        requires
            old(kvs).wf_mid(),
            old(kvs)._chm._newkvs is Some,
            idx < old(kvs).spec_len(),
        ensures
            final(kvs).wf_mid(),
            final(kvs).spec_len() == old(kvs).spec_len(),
            final(kvs)._chm._newkvs is Some,
            final(kvs)._chm._copy_done == old(kvs)._chm._copy_done,
            final(kvs)._chm._copy_idx == old(kvs)._chm._copy_idx,
            final(kvs)._chm._slots == old(kvs)._chm._slots,
            final(kvs)._chm._size == old(kvs)._chm._size,
            old(kvs).count_lives(old(kvs).spec_len()) + old(kvs).count_retired(old(kvs).spec_len())
                <= final(kvs).count_lives(final(kvs).spec_len()) + final(kvs).count_retired(
                final(kvs).spec_len(),
            ),
            final(kvs).count_retired(final(kvs).spec_len()) == old(kvs).count_retired(
                old(kvs).spec_len(),
            ) + if r {
                1int
            } else {
                0int
            },
            // Cells other than the migrated slot are untouched.
            forall|x: int|
                0 <= x < old(kvs).spec_len() && x != idx ==> #[trigger] final(kvs).kcell(x)
                    == old(kvs).kcell(x) && final(kvs).vcell(x) == old(kvs).vcell(x),
            // A key cell, once filled, never changes.
            forall|x: int|
                0 <= x < old(kvs).spec_len() && !old(kvs).key_absent(x)
                    ==> #[trigger] final(kvs).kcell(x) == old(kvs).kcell(x),
            // Retirement is permanent.
            forall|x: int|
                0 <= x < old(kvs).spec_len() && old(kvs).retired(x)
                    ==> #[trigger] final(kvs).retired(x),
            // Priming is permanent.
            forall|x: int|
                0 <= x < old(kvs).spec_len() && old(kvs).val_primed(x)
                    ==> #[trigger] final(kvs).val_primed(x),
            // And a primed cell moves only forward, to the primed
            // tombstone, never to another value.
            forall|x: int|
                0 <= x < old(kvs).spec_len() && old(kvs).val_primed(x)
                    ==> #[trigger] final(kvs).vcell(x) == old(kvs).vcell(x) || (final(kvs).vcell(x)
                    matches Some(ValueHolder::Prime(inner)) && (*inner) is Tombstone),
            // Every value cell this writes is primed: the copy never
            // installs live data in the old generation.
            forall|x: int|
                0 <= x < old(kvs).spec_len() && final(kvs).vcell(x) != old(kvs).vcell(x)
                    ==> #[trigger] final(kvs).val_primed(x),
            final(kvs)._hashes@ == old(kvs)._hashes@,
            // With copy budget in hand, this call leaves the slot
            // retired, and reports true exactly when it was the one to
            // retire it.
            gas > 0 ==> final(kvs).retired(idx as int) && r == !old(kvs).retired(idx as int),
            // The migration touches the successor only to carry a live
            // payload forward: every payload-free path, and the
            // out-of-budget bail, leave the successor untouched.
            (kvtable::carried_payload(old(kvs).vcell(idx as int)) is None || old(kvs).key_absent(
                idx as int,
            ) || old(kvs).key_tomb(idx as int) || gas == 0) ==> final(kvs)._chm._newkvs == old(
                kvs,
            )._chm._newkvs,
            // A migrated key's value cell ends primed, one way along
            // the state machine.
            (old(kvs).kcell(idx as int) matches Some(KeyHolder::Key(_))) ==> final(kvs).val_primed(
                idx as int,
            ),
            // Resize preservation, per slot: a live payload offered to
            // a settled successor lands exactly as the copy-install
            // mode says — claimed fresh or filling a value-free slot
            // it becomes the successor's answer for the key; a newer
            // value already in place wins and the successor stays
            // untouched; only an exhausted successor probe passes the
            // payload deeper.
            ({
                &&& old(kvs).kcell(idx as int) matches Some(KeyHolder::Key(_))
                &&& kvtable::carried_payload(old(kvs).vcell(idx as int)) is Some
                &&& old(kvs)._chm._newkvs is Some
                &&& old(kvs)._chm._newkvs->0.settled()
                &&& gas > 0
            }) ==> ({
                let kk = (old(kvs).kcell(idx as int)->0->Key_0)@;
                let vv = kvtable::carried_payload(old(kvs).vcell(idx as int))->0;
                &&& final(kvs)._chm._newkvs is Some
                &&& kvtable::copy_install_exact(
                    *old(kvs)._chm._newkvs->0,
                    *final(kvs)._chm._newkvs->0,
                    kk,
                    vv,
                )
            }),
        decreases gas, 1int,
    {
        let len = kvs.len();
        let ghost pre = *kvs;
        // State transition: {Empty, Empty} -> {KeyTombStone, Empty}
        let key_state: usize = match kvs.get_key_nonatomic_at(idx) {
            None => 0,
            Some(KeyHolder::Tombstone) => 1,
            Some(KeyHolder::Key(_)) => 2,
        };
        if key_state == 0 {
            let _ = kvs._ks.exchange(idx, Some(KeyHolder::Tombstone));
            proof {
                kvtable::lemma_wf_local_key_write(&pre, kvs, idx as int);
            }
            return true;
        }
        if key_state == 1 {
            proof {
                kvtable::lemma_counts_update(&pre, kvs, -1, len as int);
            }
            return false;
        }
        // Freeze the value into its primed form.
        let cur = kvs._vs.exchange(idx, None);
        let payload: V = match cur {
            None => {
                let _ = kvs._vs.exchange(
                    idx,
                    Some(ValueHolder::Prime(Box::new(ValueHolder::Tombstone))),
                );
                proof {
                    kvtable::lemma_wf_local_value_write(&pre, kvs, idx as int);
                }
                return true;
            },
            Some(ValueHolder::Tombstone) => {
                let _ = kvs._vs.exchange(
                    idx,
                    Some(ValueHolder::Prime(Box::new(ValueHolder::Tombstone))),
                );
                proof {
                    kvtable::lemma_wf_local_value_write(&pre, kvs, idx as int);
                }
                return true;
            },
            Some(ValueHolder::Value(v)) => {
                let vdup = v.dup_val();
                let _ = kvs._vs.exchange(idx, Some(ValueHolder::Prime(Box::new(ValueHolder::Value(v)))));
                proof {
                    kvtable::lemma_wf_local_value_write(&pre, kvs, idx as int);
                }
                vdup
            },
            Some(ValueHolder::Prime(inner)) => {
                match *inner {
                    ValueHolder::Tombstone => {
                        let _ = kvs._vs.exchange(
                            idx,
                            Some(ValueHolder::Prime(Box::new(ValueHolder::Tombstone))),
                        );
                        proof {
                            kvtable::lemma_wf_local_value_write(&pre, kvs, idx as int);
                        }
                        return false;
                    },
                    ValueHolder::Value(v) => {
                        let vdup = v.dup_val();
                        let _ = kvs._vs.exchange(
                            idx,
                            Some(ValueHolder::Prime(Box::new(ValueHolder::Value(v)))),
                        );
                        proof {
                            kvtable::lemma_wf_local_value_write(&pre, kvs, idx as int);
                        }
                        vdup
                    },
                    ValueHolder::Prime(_) => {
                        proof {
                            assert(pre.vcell(idx as int) matches Some(h) && !h.holder_wf());
                            assert(false);
                        }
                        vstd::pervasive::unreached()
                    },
                }
            },
        };
        // Transfer the live value into the successor, then retire the
        // old slot with the primed tombstone.
        let ghost mid = *kvs;
        let kdup: K = match kvs.get_key_nonatomic_at(idx) {
            Some(KeyHolder::Key(k)) => k.dup_key(),
            _ => vstd::pervasive::unreached(),
        };
        if gas == 0 {
            // Out of copy budget: leave the slot frozen; a later helper
            // finishes the migration.
            return false;
        }
        let h = kdup.full_hash();
        match &mut kvs._chm._newkvs {
            Some(nt) => {
                let _ = NonBlockingHashMap::put_if_match_rec(
                    nt,
                    kdup,
                    ValueHolder::Value(payload),
                    MatchingTypes::FromCopySlot,
                    None,
                    h,
                    last_resize,
                    gas - 1,
                );
            },
            None => {
                vstd::pervasive::unreached()
            },
        }
        proof {
            kvtable::lemma_wf_local_chm_change(&mid, kvs);
        }
        let ghost mid2 = *kvs;
        let _ = kvs._vs.exchange(idx, Some(ValueHolder::Prime(Box::new(ValueHolder::Tombstone))));
        proof {
            kvtable::lemma_wf_local_value_write(&mid2, kvs, idx as int);
        }
        true
    }

    /// The probe-and-write core shared by every insert mode, acting on
    /// one table of the chain.
    #[verifier::loop_isolation(false)]
    fn put_if_match_rec(
        kvs: &mut KVs<K, V>,
        key: K,
        putval: ValueHolder<V>,
        matchingtype: MatchingTypes,
        expval: Option<ValueHolder<V>>,
        fullhash: u64,
        last_resize: u64,
        gas: u64,
    ) -> (r: ValueHolder<V>)
        requires
            old(kvs).wf(),
            fullhash == K::hash_of(key@),
            !(putval is Prime),
            matchingtype is MatchValue ==> expval is Some,
            expval matches Some(e) ==> !(e is Prime),
        ensures
            final(kvs).wf(),
            final(kvs).spec_len() == old(kvs).spec_len(),
            !(r is Prime),
            (old(kvs).settled() && matchingtype is MatchAll) ==> kvtable::put_exact(
                *old(kvs),
                *final(kvs),
                key@,
                putval,
                r,
            ),
            (old(kvs).settled() && matchingtype is FromCopySlot) ==> (putval matches
                ValueHolder::Value(pv) ==> kvtable::copy_install_exact(
                *old(kvs),
                *final(kvs),
                key@,
                pv@,
            )),
            // The equals-match mode declines on mismatch and leaves the
            // table untouched, reporting the current value.
            (old(kvs).settled() && matchingtype is MatchValue && old(kvs).put_locate(key@)
                is FoundAt && !kvtable::spec_allows(
                MatchingTypes::MatchValue,
                expval,
                old(kvs).vcell(old(kvs).put_locate(key@)->FoundAt_0),
            )) ==> (*final(kvs) == *old(kvs) && kvtable::holder_reports(
                r,
                old(kvs).vcell(old(kvs).put_locate(key@)->FoundAt_0),
            )),
            // Whatever the state of the copy, a plain insert leaves
            // this table answering the key with the new contents or
            // handing it to the successor — never with a stale value.
            matchingtype is MatchAll ==> kvtable::answers_or_defers(*final(kvs), key@, putval),
            // A key cell, once filled, never changes.
            forall|x: int|
                0 <= x < old(kvs).spec_len() && !old(kvs).key_absent(x)
                    ==> #[trigger] final(kvs).kcell(x) == old(kvs).kcell(x),
            // The used-slot counter never decreases.
            final(kvs)._chm._slots >= old(kvs)._chm._slots,
            // No stale write: an unprimed value lands only in a table
            // that still has no successor.
            forall|x: int|
                0 <= x < old(kvs).spec_len() && final(kvs).vcell(x) != old(kvs).vcell(x)
                    && !(#[trigger] final(kvs).val_primed(x)) ==> final(kvs).settled(),
        decreases gas, 5int,
    {
        let ghost pre = *kvs;
        let len = kvs.len();
        let mask: u64 = (len as u64) - 1;
        let home64: u64 = fullhash & mask;
        proof {
            assert(home64 <= mask) by (bit_vector)
                requires
                    home64 == fullhash & mask,
            ;
        }
        let mut idx: usize = home64 as usize;
        let ghost home = pre.home_slot(fullhash);
        let limit = kvs.reprobe_limit();
        let mut fuel: usize = limit;
        loop
            invariant
                *kvs == pre,
                pre.wf(),
                len == pre.spec_len(),
                0 <= idx < len,
                1 <= fuel <= limit,
                limit == pre.spec_reprobe_limit(),
                home == pre.home_slot(fullhash),
                fullhash == K::hash_of(key@),
                !(putval is Prime),
                matchingtype is MatchValue ==> expval is Some,
                expval matches Some(e) ==> !(e is Prime),
                pre.put_probe(key@, home, pre.spec_reprobe_limit()) == pre.put_probe(
                    key@,
                    idx as int,
                    fuel as nat,
                ),
            decreases fuel,
        {
            let key_state: usize = match kvs.get_key_nonatomic_at(idx) {
                None => 0,
                Some(KeyHolder::Tombstone) => 1,
                Some(KeyHolder::Key(k)) => {
                    if key.key_eq(k) {
                        2
                    } else {
                        1
                    }
                },
            };
            if key_state == 0 {
                // A free slot: deleting an absent key is a no-op.
                let put_is_tomb = match &putval {
                    ValueHolder::Tombstone => true,
                    _ => false,
                };
                if put_is_tomb {
                    proof {
                        assert(pre.put_locate(key@) == kvtable::PutSlot::ClaimAt(idx as int));
                        kvtable::lemma_home_in_range(&pre, fullhash);
                        kvtable::lemma_claim_path_not_found(
                            &pre,
                            &pre,
                            key@,
                            idx as int,
                            home,
                            pre.spec_reprobe_limit(),
                            pre.spec_reprobe_limit(),
                        );
                    }
                    return putval;
                }
                // Claim the slot for the key.
                let _ = kvs._ks.exchange(idx, Some(KeyHolder::Key(key.dup_key())));
                kvs._hashes.set(idx, fullhash);
                proof {
                    kvtable::lemma_counts_bounded(&pre, len as int);
                }
                kvs._chm._slots = kvs._chm._slots + 1;
                proof {
                    assert(pre.vcell(idx as int) is None);
                    kvtable::lemma_counts_update(&pre, kvs, idx as int, len as int);
                    kvtable::lemma_put_probe_reachable(
                        &pre,
                        key@,
                        home,
                        pre.spec_reprobe_limit(),
                        idx as int,
                    );
                    kvtable::lemma_reachable_mono(
                        &pre,
                        kvs,
                        home,
                        idx as int,
                        kvtable::reach_fuel(len as int),
                    );
                    kvtable::lemma_wf_local_key_write(&pre, kvs, idx as int);
                    assert(pre.put_locate(key@) == kvtable::PutSlot::ClaimAt(idx as int));
                }
                let ghost claimed_state = *kvs;
                let r = NonBlockingHashMap::write_at(
                    kvs,
                    key,
                    putval,
                    matchingtype,
                    expval,
                    fullhash,
                    last_resize,
                    gas,
                    idx,
                    fuel,
                    Ghost(pre),
                    Ghost(true),
                );
                proof {
                    assert forall|x: int|
                        0 <= x < len && !pre.key_absent(x) implies #[trigger] kvs.kcell(x)
                        == pre.kcell(x) by {
                        assert(claimed_state.kcell(x) == pre.kcell(x));
                        assert(!claimed_state.key_absent(x));
                        assert(kvs.kcell(x) == claimed_state.kcell(x));
                    }
                    assert forall|x: int|
                        0 <= x < len && kvs.vcell(x) != pre.vcell(x) && !(
                        #[trigger] kvs.val_primed(x)) implies kvs.settled() by {
                        assert(claimed_state.vcell(x) == pre.vcell(x));
                        assert(kvs.vcell(x) != claimed_state.vcell(x));
                    }
                }
                return r;
            }
            if key_state == 2 {
                proof {
                    assert(pre.put_locate(key@) == kvtable::PutSlot::FoundAt(idx as int));
                }
                return NonBlockingHashMap::write_at(
                    kvs,
                    key,
                    putval,
                    matchingtype,
                    expval,
                    fullhash,
                    last_resize,
                    gas,
                    idx,
                    fuel,
                    Ghost(pre),
                    Ghost(false),
                );
            }
            // Reprobe.
            if fuel <= 1 {
                proof {
                    assert(pre.put_probe(key@, home, pre.spec_reprobe_limit())
                        == kvtable::PutSlot::Exhausted);
                }
                // The probe budget is spent: move to the successor.
                NonBlockingHashMap::resize(kvs, last_resize);
                let ghost after_resize = *kvs;
                proof {
                    kvtable::lemma_cells_unchanged(&pre, &after_resize);
                }
                let from_copy = match &matchingtype {
                    MatchingTypes::FromCopySlot => true,
                    _ => false,
                };
                if !from_copy {
                    NonBlockingHashMap::help_copy_impl(kvs, last_resize, gas);
                }
                let ghost after_help = *kvs;
                proof {
                    assert forall|x: int|
                        0 <= x < len && !pre.key_absent(x) implies #[trigger] after_help.kcell(x)
                        == pre.kcell(x) by {
                        assert(after_resize.kcell(x) == pre.kcell(x));
                        assert(!after_resize.key_absent(x));
                        assert(after_help.kcell(x) == after_resize.kcell(x));
                    }
                }
                if gas == 0 {
                    proof {
                        lemma_defer_to_successor(&pre, kvs, key@, fullhash, home);
                        assert forall|x: int|
                            0 <= x < len && kvs.vcell(x) != pre.vcell(x) implies #[trigger] kvs.val_primed(
                            x,
                        ) by {
                            assert(after_resize.vcell(x) == pre.vcell(x));
                        }
                    }
                    return putval;
                }
                let ghost before_rec = *kvs;
                let r = match &mut kvs._chm._newkvs {
                    Some(nt) => NonBlockingHashMap::put_if_match_rec(
                        nt,
                        key,
                        putval,
                        matchingtype,
                        expval,
                        fullhash,
                        last_resize,
                        gas - 1,
                    ),
                    None => vstd::pervasive::unreached(),
                };
                proof {
                    kvtable::lemma_wf_local_chm_change(&before_rec, kvs);
                    kvtable::lemma_cells_unchanged(&before_rec, kvs);
                    assert forall|x: int|
                        0 <= x < len && !pre.key_absent(x) implies #[trigger] kvs.kcell(x)
                        == pre.kcell(x) by {
                        assert(before_rec.kcell(x) == pre.kcell(x));
                        assert(kvs.kcell(x) == before_rec.kcell(x));
                    }
                    assert forall|x: int|
                        0 <= x < len && kvs.vcell(x) != pre.vcell(x) implies #[trigger] kvs.val_primed(
                        x,
                    ) by {
                        assert(after_resize.vcell(x) == pre.vcell(x));
                        assert(kvs.vcell(x) == before_rec.vcell(x));
                        if before_rec.vcell(x) != after_resize.vcell(x) {
                            assert(before_rec.val_primed(x));
                        }
                    }
                    lemma_defer_to_successor(&pre, kvs, key@, fullhash, home);
                }
                return r;
            }
            fuel = fuel - 1;
            idx = if idx + 1 == len {
                0
            } else {
                idx + 1
            };
        }
    }

    /// The write phase of an insert: the key sits at `idx`; decide
    /// against the current value and the match mode, write, and hand
    /// back the prior value.
    fn write_at(
        kvs: &mut KVs<K, V>,
        key: K,
        putval: ValueHolder<V>,
        matchingtype: MatchingTypes,
        expval: Option<ValueHolder<V>>,
        fullhash: u64,
        last_resize: u64,
        gas: u64,
        idx: usize,
        fuel: usize,
        Ghost(pre0): Ghost<KVs<K, V>>,
        Ghost(was_claim): Ghost<bool>,
    ) -> (r: ValueHolder<V>)
        requires
            old(kvs).wf(),
            idx < old(kvs).spec_len(),
            fullhash == K::hash_of(key@),
            old(kvs).key_is(idx as int, key@),
            fuel <= old(kvs).spec_reprobe_limit(),
            !(putval is Prime),
            matchingtype is MatchValue ==> expval is Some,
            expval matches Some(e) ==> !(e is Prime),
            pre0.settled() ==> old(kvs).settled(),
            pre0.wf_local(),
            pre0.spec_len() == old(kvs).spec_len(),
            pre0._chm._newkvs == old(kvs)._chm._newkvs,
            if was_claim {
                &&& pre0.put_locate(key@) == kvtable::PutSlot::ClaimAt(idx as int)
                &&& pre0.kcell(idx as int) is None
                &&& old(kvs)._chm._slots == pre0._chm._slots + 1
                &&& old(kvs)._chm._size == pre0._chm._size
                &&& old(kvs)._hashes@ == pre0._hashes@.update(idx as int, K::hash_of(key@))
                &&& putval is Value
                &&& forall|x: int|
                    0 <= x < pre0.spec_len() && x != idx ==> #[trigger] old(kvs).kcell(x)
                        == pre0.kcell(x) && old(kvs).vcell(x) == pre0.vcell(x)
                &&& old(kvs).vcell(idx as int) is None
            } else {
                &&& *old(kvs) == pre0
                &&& pre0.put_locate(key@) == kvtable::PutSlot::FoundAt(idx as int)
            },
        ensures
            final(kvs).wf(),
            final(kvs).spec_len() == old(kvs).spec_len(),
            !(r is Prime),
            (pre0.settled() && matchingtype is MatchAll) ==> kvtable::put_exact(
                pre0,
                *final(kvs),
                key@,
                putval,
                r,
            ),
            (pre0.settled() && matchingtype is FromCopySlot) ==> (putval matches
                ValueHolder::Value(pv) ==> kvtable::copy_install_exact(
                pre0,
                *final(kvs),
                key@,
                pv@,
            )),
            final(kvs)._hashes@ == old(kvs)._hashes@,
            // The equals-match mode declines on mismatch and leaves the
            // table untouched, reporting the current value.
            (old(kvs).settled() && matchingtype is MatchValue && !kvtable::spec_allows(
                MatchingTypes::MatchValue,
                expval,
                old(kvs).vcell(idx as int),
            )) ==> (*final(kvs) == *old(kvs) && kvtable::holder_reports(
                r,
                old(kvs).vcell(idx as int),
            )),
            forall|x: int|
                0 <= x < old(kvs).spec_len() && !old(kvs).key_absent(x)
                    ==> #[trigger] final(kvs).kcell(x) == old(kvs).kcell(x),
            final(kvs)._chm._slots >= old(kvs)._chm._slots,
            forall|x: int|
                0 <= x < old(kvs).spec_len() && final(kvs).vcell(x) != old(kvs).vcell(x)
                    && !(#[trigger] final(kvs).val_primed(x)) ==> final(kvs).settled(),
            // Whatever the state of the copy, a plain insert leaves
            // this table answering the key with the new contents or
            // handing it to the successor — never with a stale value.
            matchingtype is MatchAll ==> kvtable::answers_or_defers(*final(kvs), key@, putval),
        decreases gas, 4int,
    {
        let ghost entry = *kvs;
        let len = kvs.len();
        // Idempotent no-op: the cell already holds this value.
        let same = NonBlockingHashMap::<K, V>::cell_matches(&putval, kvs.get_value_nonatomic_at(idx));
        if same {
            let r = NonBlockingHashMap::<K, V>::report_cell(kvs.get_value_nonatomic_at(idx));
            proof {
                if pre0.settled() && (matchingtype is MatchAll || matchingtype is FromCopySlot) {
                    assert(!was_claim);
                    assert(*kvs == pre0);
                    lemma_settled_no_tombs(kvs);
                    kvtable::lemma_probe_finds(
                        &pre0,
                        kvs,
                        key@,
                        idx as int,
                        pre0.home_slot(fullhash),
                        pre0.spec_reprobe_limit(),
                        kvs.spec_reprobe_limit(),
                    );
                    assert(kvs.get_probe(key@, kvs.home_slot(fullhash), kvs.spec_reprobe_limit())
                        == kvtable::slot_outcome(kvs, idx as int));
                }
                if matchingtype is MatchAll && !pre0.settled() {
                    assert(!was_claim);
                    assert(*kvs == pre0);
                    kvtable::lemma_located_probe(
                        &pre0,
                        kvs,
                        key@,
                        idx as int,
                        pre0.home_slot(fullhash),
                        pre0.spec_reprobe_limit(),
                        kvs.spec_reprobe_limit(),
                    );
                    assert(kvtable::answers_or_defers(*kvs, key@, putval));
                }
            }
            return r;
        }
        let has_succ = match kvs._chm.get_newkvs_nonatomic() {
            Some(_) => true,
            None => false,
        };
        if has_succ {
            // This table is being replaced: trigger the resize checks,
            // migrate this slot, and retry in the successor.
            let val_is_dead = match kvs.get_value_nonatomic_at(idx) {
                None => true,
                Some(ValueHolder::Tombstone) => true,
                _ => false,
            };
            let val_is_primed = match kvs.get_value_nonatomic_at(idx) {
                Some(ValueHolder::Prime(_)) => true,
                _ => false,
            };
            let reprobe_cnt = kvs.reprobe_limit() - fuel;
            if (val_is_dead && kvs.table_full(reprobe_cnt)) || val_is_primed {
                NonBlockingHashMap::resize(kvs, last_resize);
            }
            let from_copy = match &matchingtype {
                MatchingTypes::FromCopySlot => true,
                _ => false,
            };
            let ghost before_copy = *kvs;
            NonBlockingHashMap::copy_slot_and_check(kvs, idx, !from_copy, last_resize, gas);
            proof {
                lemma_compose_stability(&entry, &before_copy, kvs);
                if matchingtype is MatchAll {
                    lemma_slot_deferred(&pre0, &entry, kvs, key@, fullhash, idx as int, was_claim);
                }
            }
            if gas == 0 {
                return putval;
            }
            let ghost before_rec = *kvs;
            let r = match &mut kvs._chm._newkvs {
                Some(nt) => NonBlockingHashMap::put_if_match_rec(
                    nt,
                    key,
                    putval,
                    matchingtype,
                    expval,
                    fullhash,
                    last_resize,
                    gas - 1,
                ),
                None => vstd::pervasive::unreached(),
            };
            proof {
                kvtable::lemma_wf_local_chm_change(&before_rec, kvs);
                kvtable::lemma_cells_unchanged(&before_rec, kvs);
                lemma_compose_stability(&entry, &before_rec, kvs);
                if matchingtype is MatchAll {
                    assert(kvs.val_primed(idx as int)) by {
                        assert(before_rec.val_primed(idx as int));
                    }
                    lemma_slot_deferred(&pre0, &entry, kvs, key@, fullhash, idx as int, was_claim);
                }
            }
            return r;
        }
        // This table is current: apply the match policy.
        let allowed = NonBlockingHashMap::<K, V>::match_allows(
            &matchingtype,
            &expval,
            kvs.get_value_nonatomic_at(idx),
        );
        proof {
            assert(!kvs.val_primed(idx as int));
        }
        if !allowed {
            let r = NonBlockingHashMap::<K, V>::report_cell(kvs.get_value_nonatomic_at(idx));
            return r;
        }
        // Install the value.
        let put_is_val = match &putval {
            ValueHolder::Value(_) => true,
            _ => false,
        };
        let from_copy = match &matchingtype {
            MatchingTypes::FromCopySlot => true,
            _ => false,
        };
        let prior = kvs._vs.exchange(idx, Some(putval));
        proof {
            kvtable::lemma_wf_local_value_write(&entry, kvs, idx as int);
        }
        let ghost after_write = *kvs;
        let prior_dead = match &prior {
            None => true,
            Some(ValueHolder::Tombstone) => true,
            _ => false,
        };
        let prior_live = match &prior {
            Some(ValueHolder::Value(_)) => true,
            _ => false,
        };
        if !from_copy {
            if prior_dead && put_is_val {
                kvs._chm._size = kvs._chm._size.saturating_add(1);
            }
            if prior_live && !put_is_val {
                kvs._chm._size = kvs._chm._size.saturating_sub(1);
            }
            proof {
                kvtable::lemma_wf_local_chm_change(&after_write, kvs);
                kvtable::lemma_cells_unchanged(&after_write, kvs);
            }
        }
        proof {
            if prior_live {
                kvtable::lemma_count_lives_at_least(&entry, idx as int, len as int);
            }
        }
        proof {
            if pre0.settled() && (matchingtype is MatchAll || matchingtype is FromCopySlot) {
                lemma_settled_no_tombs(kvs);
                assert forall|x: int|
                    0 <= x < pre0.spec_len() && x != idx as int implies kvs.kcell(x) == pre0.kcell(
                    x) && kvs.vcell(x) == pre0.vcell(x) by {
                    assert(entry.kcell(x) == pre0.kcell(x) && entry.vcell(x) == pre0.vcell(x));
                }
                kvtable::lemma_probe_finds(
                    &pre0,
                    kvs,
                    key@,
                    idx as int,
                    pre0.home_slot(fullhash),
                    pre0.spec_reprobe_limit(),
                    kvs.spec_reprobe_limit(),
                );
                assert(kvs.get_probe(key@, kvs.home_slot(fullhash), kvs.spec_reprobe_limit())
                    == kvtable::slot_outcome(kvs, idx as int));
                if was_claim {
                    assert forall|kv2: K::V| kv2 != key@ implies kvs.chain_lookup(kv2)
                        == pre0.chain_lookup(kv2) by {
                        lemma_settled_no_tombs(&pre0);
                        kvtable::lemma_claim_frame(&pre0, kvs, key@, kv2, idx as int);
                    }
                } else {
                    assert forall|kv2: K::V| kv2 != key@ implies kvs.chain_lookup(kv2)
                        == pre0.chain_lookup(kv2) by {
                        kvtable::lemma_probe_value_frame(
                            &pre0,
                            kvs,
                            key@,
                            kv2,
                            idx as int,
                            pre0.home_slot(K::hash_of(kv2)),
                            pre0.spec_reprobe_limit(),
                        );
                        assert(kvs.get_probe(kv2, pre0.home_slot(K::hash_of(kv2)),
                            pre0.spec_reprobe_limit()) == pre0.get_probe(kv2,
                            pre0.home_slot(K::hash_of(kv2)), pre0.spec_reprobe_limit()));
                    }
                }
            }
        }
        match prior {
            None => ValueHolder::Tombstone,
            Some(h) => h,
        }
    }

    /// Whether the cell already holds exactly the value being put.
    fn cell_matches(putval: &ValueHolder<V>, cell: &Option<ValueHolder<V>>) -> (r: bool)
        requires
            !(*putval is Prime),
        ensures
            r == kvtable::holder_same(*putval, *cell),
    {
        match putval {
            ValueHolder::Value(x) => match cell {
                Some(ValueHolder::Value(y)) => x.val_eq(y),
                _ => false,
            },
            ValueHolder::Tombstone => match cell {
                Some(ValueHolder::Tombstone) => true,
                _ => false,
            },
            ValueHolder::Prime(_) => vstd::pervasive::unreached(),
        }
    }

    /// Whether the match policy lets this write proceed against the
    /// current cell.
    fn match_allows(
        matchingtype: &MatchingTypes,
        expval: &Option<ValueHolder<V>>,
        cell: &Option<ValueHolder<V>>,
    ) -> (r: bool)
        requires
            *matchingtype is MatchValue ==> *expval is Some,
            *expval matches Some(e) ==> !(e is Prime),
        ensures
            r == kvtable::spec_allows(*matchingtype, *expval, *cell),
    {
        match matchingtype {
            MatchingTypes::MatchAll => true,
            MatchingTypes::MatchAllNotEmpty => match cell {
                Some(ValueHolder::Value(_)) => true,
                _ => false,
            },
            MatchingTypes::MatchValue => match expval {
                Some(ev) => {
                    let absent_match = match (ev, cell) {
                        (ValueHolder::Tombstone, None) => true,
                        _ => false,
                    };
                    if absent_match {
                        true
                    } else {
                        NonBlockingHashMap::<K, V>::cell_matches(ev, cell)
                    }
                },
                None => vstd::pervasive::unreached(),
            },
            MatchingTypes::FromCopySlot => match cell {
                None => true,
                Some(_) => false,
            },
        }
    }

    /// A copy of what the cell holds, with the tombstone sentinel for
    /// an empty cell.
    fn report_cell(cell: &Option<ValueHolder<V>>) -> (r: ValueHolder<V>)
        requires
            cell matches Some(h) ==> !(h is Prime),
        ensures
            kvtable::holder_reports(r, *cell),
            !(r is Prime),
    {
        match cell {
            None => ValueHolder::Tombstone,
            Some(ValueHolder::Value(v)) => ValueHolder::Value(v.dup_val()),
            Some(ValueHolder::Tombstone) => ValueHolder::Tombstone,
            Some(ValueHolder::Prime(_)) => vstd::pervasive::unreached(),
        }
    }
}

/// A shareable handle around the map.
///
/// In a lock-free deployment this handle would expose interior
/// mutability so many threads can drive one map; this sequential
/// model lets the handle own the map, and a caller that shares it
/// across threads brings its own synchronisation.
pub struct ConcurrentMap<K, V> {
    inner: NonBlockingHashMap<K, V>,
}

impl<K: MapKey, V: MapValue> ConcurrentMap<K, V> {
    /// The wrapped map.
    pub closed spec fn map_view(&self) -> NonBlockingHashMap<K, V> {
        self.inner
    }

    pub fn new() -> (r: ConcurrentMap<K, V>)
        ensures
            r.map_view().wf(),
            r.map_view().root().settled(),
            r.map_view().root().spec_len() >= 32,
            r.map_view().root().spec_len() < 64,
            r.map_view().root()._chm._size == 0,
            r.map_view().root()._chm._slots == 0,
            forall|i: int|
                0 <= i < r.map_view().root().spec_len() ==> (#[trigger] r.map_view().root().kcell(
                    i,
                )) is None,
            forall|i: int|
                0 <= i < r.map_view().root().spec_len() ==> (#[trigger] r.map_view().root().vcell(
                    i,
                )) is None,
            forall|kv: K::V| r.map_view().lookup(kv) is None,
    {
        ConcurrentMap { inner: NonBlockingHashMap::new() }
    }

    pub fn with_capacity(initial_sz: usize) -> (r: ConcurrentMap<K, V>)
        ensures
            r.map_view().wf(),
            r.map_view().root().settled(),
            kvtable::is_pow2(r.map_view().root().spec_len()),
            r.map_view().root().spec_len() >= 8,
            r.map_view().root().spec_len() >= 4 * min_hint(initial_sz as int),
            r.map_view().root().spec_len() == 8 || r.map_view().root().spec_len() / 2 < 4
                * min_hint(initial_sz as int),
            r.map_view().root()._chm._size == 0,
            r.map_view().root()._chm._slots == 0,
            forall|i: int|
                0 <= i < r.map_view().root().spec_len() ==> (#[trigger] r.map_view().root().kcell(
                    i,
                )) is None,
            forall|i: int|
                0 <= i < r.map_view().root().spec_len() ==> (#[trigger] r.map_view().root().vcell(
                    i,
                )) is None,
            forall|kv: K::V| r.map_view().lookup(kv) is None,
    {
        ConcurrentMap { inner: NonBlockingHashMap::with_capacity(initial_sz) }
    }

    /// Borrow the map itself.
    pub fn as_mut(&mut self) -> (r: &mut NonBlockingHashMap<K, V>)
        ensures
            *r == old(self).map_view(),
            final(self).map_view() == *final(r),
    {
        &mut self.inner
    }
}

impl<K: MapKey, V: MapValue> Default for ConcurrentMap<K, V> {
    fn default() -> (r: Self)
        ensures
            r.map_view().wf(),
            r.map_view().root().settled(),
            r.map_view().root().spec_len() >= 32,
            r.map_view().root().spec_len() < 64,
            r.map_view().root()._chm._size == 0,
            r.map_view().root()._chm._slots == 0,
            forall|kv: K::V| r.map_view().lookup(kv) is None,
    {
        ConcurrentMap::new()
    }
}

impl<K: MapKey, V: MapValue> Default for NonBlockingHashMap<K, V> {
    fn default() -> (r: Self)
        ensures
            r.wf(),
            r.root().settled(),
            r.root().spec_len() >= 32,
            r.root().spec_len() < 64,
            r.root()._chm._size == 0,
            r.root()._chm._slots == 0,
            forall|i: int| 0 <= i < r.root().spec_len() ==> (#[trigger] r.root().kcell(i)) is None,
            forall|i: int| 0 <= i < r.root().spec_len() ==> (#[trigger] r.root().vcell(i)) is None,
            forall|kv: K::V| r.lookup(kv) is None,
    {
        NonBlockingHashMap::new()
    }
}

/// Read-your-write with no intervening delete: an insert of a value
/// under `kv` into a settled map, whose probe found room or found the
/// key, leaves the map associating `kv` with exactly that value, so a
/// following lookup returns it.
pub proof fn lemma_read_your_write<K: MapKey, V: MapValue>(
    pre: NonBlockingHashMap<K, V>,
    post: NonBlockingHashMap<K, V>,
    kv: K::V,
    putval: ValueHolder<V>,
    r: ValueHolder<V>,
)
    requires
        pre.root().settled(),
        kvtable::put_exact(pre.root(), post.root(), kv, putval, r),
        putval matches ValueHolder::Value(_),
        !(pre.root().put_locate(kv) is Exhausted),
    ensures
        post.lookup(kv) == Some((putval->Value_0)@),
{
}

/// A key whose insert probe would claim a free slot is not in the
/// map: looking it up yields nothing. With the fact that a fresh map
/// maps no key at all, this is what makes a lookup of a never-inserted
/// key return nothing.
pub proof fn lemma_unclaimed_key_absent<K: MapKey, V: MapValue>(m: NonBlockingHashMap<K, V>, kv: K::V)
    requires
        m.wf(),
        m.root().settled(),
        m.root().put_locate(kv) is ClaimAt,
    ensures
        m.lookup(kv) is None,
{
    let t = m.root();
    let j = t.put_locate(kv)->ClaimAt_0;
    lemma_settled_no_tombs(&t);
    kvtable::lemma_probe_misses(
        &t,
        kv,
        j,
        t.home_slot(K::hash_of(kv)),
        t.spec_reprobe_limit(),
        t.spec_reprobe_limit(),
    );
}

/// Overwrite: a key the map already holds is found in place — its
/// probe cannot run out of budget — so a second insert under the same
/// key always leaves the map reading back the newer value.
pub proof fn lemma_overwrite<K: MapKey, V: MapValue>(
    pre: NonBlockingHashMap<K, V>,
    post: NonBlockingHashMap<K, V>,
    kv: K::V,
    putval: ValueHolder<V>,
    r: ValueHolder<V>,
)
    requires
        pre.wf(),
        pre.root().settled(),
        pre.lookup(kv) is Some,
        kvtable::put_exact(pre.root(), post.root(), kv, putval, r),
        putval matches ValueHolder::Value(_),
    ensures
        post.lookup(kv) == Some((putval->Value_0)@),
{
    let t = pre.root();
    kvtable::lemma_present_key_found(&t, kv);
}

/// Logical delete: installing a tombstone under `kv` in a settled map
/// leaves `kv` unmapped, whether or not an entry existed.
pub proof fn lemma_delete_then_get<K: MapKey, V: MapValue>(
    pre: NonBlockingHashMap<K, V>,
    post: NonBlockingHashMap<K, V>,
    kv: K::V,
    r: ValueHolder<V>,
)
    requires
        pre.wf(),
        pre.root().settled(),
        kvtable::put_exact(pre.root(), post.root(), kv, ValueHolder::Tombstone, r),
        !(pre.root().put_locate(kv) is Exhausted),
    ensures
        post.lookup(kv) is None,
{
    match pre.root().put_locate(kv) {
        kvtable::PutSlot::ClaimAt(j) => {
            lemma_unclaimed_key_absent(pre, kv);
        },
        kvtable::PutSlot::FoundAt(j) => {},
        kvtable::PutSlot::Exhausted => {},
    }
}

/// No value fabrication, at the public surface: every value the map
/// reads back sits in a slot of some generation whose key cell
/// carries exactly the key looked up.
pub proof fn lemma_map_no_fabrication<K: MapKey, V: MapValue>(m: NonBlockingHashMap<K, V>, kv: K::V)
    requires
        m.lookup(kv) is Some,
    ensures
        kvtable::chain_has_entry(&m.root(), kv, m.lookup(kv)->0),
{
    let t = m.root();
    kvtable::lemma_no_fabrication(&t, kv);
}

/// Idempotent put: inserting the very value a key already carries
/// leaves the map — its tables, counters and live-entry count — in
/// exactly the state it was in.
pub proof fn lemma_idempotent_put<K: MapKey, V: MapValue>(
    pre: NonBlockingHashMap<K, V>,
    post: NonBlockingHashMap<K, V>,
    kv: K::V,
    putval: ValueHolder<V>,
    r: ValueHolder<V>,
)
    requires
        pre.wf(),
        pre.root().settled(),
        kvtable::put_exact(pre.root(), post.root(), kv, putval, r),
        putval matches ValueHolder::Value(_),
        pre.lookup(kv) == Some((putval->Value_0)@),
    ensures
        post.root() == pre.root(),
{
    let t = pre.root();
    kvtable::lemma_present_key_found(&t, kv);
    let j = t.put_locate(kv)->FoundAt_0;
    lemma_settled_no_tombs(&t);
    kvtable::lemma_put_probe_reachable(
        &t,
        kv,
        t.home_slot(K::hash_of(kv)),
        t.spec_reprobe_limit(),
        j,
    );
    kvtable::lemma_probe_finds(
        &t,
        &t,
        kv,
        j,
        t.home_slot(K::hash_of(kv)),
        t.spec_reprobe_limit(),
        t.spec_reprobe_limit(),
    );
    assert(kvtable::holder_same(putval, t.vcell(j)));
}

/// Logical delete of a present key: the key is found in place and the
/// tombstone lands on it, so the map stops reading the key back while
/// the key cell itself stays claimed for its generation.
pub proof fn lemma_delete_present_key<K: MapKey, V: MapValue>(
    pre: NonBlockingHashMap<K, V>,
    post: NonBlockingHashMap<K, V>,
    kv: K::V,
    r: ValueHolder<V>,
)
    requires
        pre.wf(),
        pre.root().settled(),
        pre.lookup(kv) is Some,
        kvtable::put_exact(pre.root(), post.root(), kv, ValueHolder::Tombstone, r),
    ensures
        post.lookup(kv) is None,
{
    let t = pre.root();
    kvtable::lemma_present_key_found(&t, kv);
}

/// Budget for descending the generation chain inside one operation; a
/// chain deeper than this cannot arise from bounded tables.
const PUT_GAS: u64 = 1048576;

/// After an insert's probe of a table exhausted its budget and a
/// successor exists, the table defers that key's lookup to the
/// successor: the lookup walks the same filled slots the insert did
/// and hands the key on.
proof fn lemma_defer_to_successor<K: MapKey, V: MapValue>(
    pre: &KVs<K, V>,
    post: &KVs<K, V>,
    kv: K::V,
    fullhash: u64,
    home: int,
)
    requires
        pre.wf(),
        post.spec_len() == pre.spec_len(),
        fullhash == K::hash_of(kv),
        home == pre.home_slot(fullhash),
        forall|x: int|
            0 <= x < pre.spec_len() && !pre.key_absent(x) ==> #[trigger] post.kcell(x)
                == pre.kcell(x),
        pre.put_probe(kv, home, pre.spec_reprobe_limit()) == kvtable::PutSlot::Exhausted,
        post._chm._newkvs is Some,
    ensures
        post.chain_lookup(kv) == post._chm._newkvs->0.chain_lookup(kv),
{
    kvtable::lemma_home_in_range(pre, fullhash);
    kvtable::lemma_exhausted_probe_next(
        pre,
        post,
        kv,
        home,
        pre.spec_reprobe_limit(),
        post.spec_reprobe_limit(),
    );
    assert(post.home_slot(K::hash_of(kv)) == home);
    assert(post.get_probe(kv, home, post.spec_reprobe_limit()) == LookupStep::<V::V>::NextTable);
}

/// Once the slot an insert located has been frozen for migration, the
/// table hands the key to its successor: the lookup walks the same
/// path the insert did and meets only mismatches, tombstones, or the
/// primed slot itself.
proof fn lemma_slot_deferred<K: MapKey, V: MapValue>(
    pre0: &KVs<K, V>,
    entry: &KVs<K, V>,
    post: &KVs<K, V>,
    kv: K::V,
    fullhash: u64,
    j: int,
    was_claim: bool,
)
    requires
        fullhash == K::hash_of(kv),
        pre0.spec_len() == entry.spec_len(),
        post.spec_len() == entry.spec_len(),
        pre0.wf_local(),
        entry.key_is(j, kv),
        0 <= j < entry.spec_len(),
        if was_claim {
            &&& pre0.put_locate(kv) == kvtable::PutSlot::ClaimAt(j)
            &&& pre0.kcell(j) is None
            &&& forall|x: int|
                0 <= x < pre0.spec_len() && x != j ==> #[trigger] entry.kcell(x) == pre0.kcell(x)
                    && entry.vcell(x) == pre0.vcell(x)
        } else {
            *entry == *pre0 && pre0.put_locate(kv) == kvtable::PutSlot::FoundAt(j)
        },
        forall|x: int|
            0 <= x < entry.spec_len() && !entry.key_absent(x) ==> #[trigger] post.kcell(x)
                == entry.kcell(x),
        post.val_primed(j),
        post._chm._newkvs is Some,
    ensures
        post.chain_lookup(kv) == post._chm._newkvs->0.chain_lookup(kv),
{
    kvtable::lemma_home_in_range(pre0, fullhash);
    let home = pre0.home_slot(fullhash);
    assert forall|x: int|
        0 <= x < pre0.spec_len() && !pre0.key_absent(x) implies #[trigger] post.kcell(x)
        == pre0.kcell(x) by {
        if x != j {
            assert(entry.kcell(x) == pre0.kcell(x));
            assert(!entry.key_absent(x));
        } else {
            assert(!entry.key_absent(j));
            assert(post.kcell(j) == entry.kcell(j));
        }
    }
    assert(post.key_is(j, kv)) by {
        assert(!entry.key_absent(j));
        assert(post.kcell(j) == entry.kcell(j));
    }
    kvtable::lemma_located_probe(
        pre0,
        post,
        kv,
        j,
        home,
        pre0.spec_reprobe_limit(),
        post.spec_reprobe_limit(),
    );
    assert(post.home_slot(K::hash_of(kv)) == home);
    assert(kvtable::slot_outcome(post, j) == LookupStep::<V::V>::NextTable);
}

/// Stability composes: if two successive steps each leave filled key
/// cells alone and prime every value cell they change, so does their
/// composition.
proof fn lemma_compose_stability<K: MapKey, V: MapValue>(a: &KVs<K, V>, b: &KVs<K, V>, c: &KVs<K, V>)
    requires
        b.spec_len() == a.spec_len(),
        c.spec_len() == b.spec_len(),
        forall|x: int|
            0 <= x < a.spec_len() && !a.key_absent(x) ==> #[trigger] b.kcell(x) == a.kcell(x),
        forall|x: int|
            0 <= x < b.spec_len() && !b.key_absent(x) ==> #[trigger] c.kcell(x) == b.kcell(x),
        forall|x: int|
            0 <= x < a.spec_len() && b.vcell(x) != a.vcell(x) ==> #[trigger] b.val_primed(x),
        forall|x: int|
            0 <= x < b.spec_len() && c.vcell(x) != b.vcell(x) ==> #[trigger] c.val_primed(x),
    ensures
        forall|x: int|
            0 <= x < a.spec_len() && !a.key_absent(x) ==> #[trigger] c.kcell(x) == a.kcell(x),
        forall|x: int|
            0 <= x < a.spec_len() && c.vcell(x) != a.vcell(x) ==> #[trigger] c.val_primed(x),
{
    assert forall|x: int|
        0 <= x < a.spec_len() && !a.key_absent(x) implies #[trigger] c.kcell(x) == a.kcell(x) by {
        assert(b.kcell(x) == a.kcell(x));
        assert(!b.key_absent(x));
    }
    assert forall|x: int|
        0 <= x < a.spec_len() && c.vcell(x) != a.vcell(x) implies #[trigger] c.val_primed(x) by {
        if c.vcell(x) != b.vcell(x) {
        } else {
            assert(b.val_primed(x));
        }
    }
}

/// A settled, healthy table has no tombstoned keys.
proof fn lemma_settled_no_tombs<K: MapKey, V: MapValue>(t: &KVs<K, V>)
    requires
        t.wf_local(),
        t.settled(),
    ensures
        forall|x: int| 0 <= x < t.spec_len() ==> !(#[trigger] t.key_tomb(x)),
{
    assert forall|x: int| 0 <= x < t.spec_len() implies !(#[trigger] t.key_tomb(x)) by {
        assert(!t.val_primed(x));
        assert(!t.key_tomb(x));
    }
}

/// The successor length the sizing policy picks before rounding.
pub open spec fn grow_target(oldlen: int, sz: int, slots: int, recent: bool) -> int {
    let doubled = if sz >= oldlen / 4 {
        if sz >= oldlen / 2 {
            oldlen * 4
        } else {
            oldlen * 2
        }
    } else {
        sz
    };
    let bumped = if doubled <= oldlen && recent && slots >= 2 * sz {
        oldlen * 2
    } else {
        doubled
    };
    if bumped < oldlen {
        oldlen
    } else {
        bumped
    }
}

/// The smallest power of two at least `target`, grown from `cur` and
/// capped at the largest table size.
pub open spec fn pow2_fit(cur: int, target: int) -> int
    decreases (if target > cur {
        (target - cur) as nat
    } else {
        0nat
    }),
{
    if cur < 1 {
        1
    } else if cur >= target || 2 * cur > MAX_SIZE {
        cur
    } else {
        pow2_fit(2 * cur, target)
    }
}

/// The length of the successor table, as a function of the old length,
/// the live count, the used-slot count, and the resize-recency flag.
pub open spec fn next_table_len(oldlen: int, sz: int, slots: int, recent: bool) -> int {
    pow2_fit(MIN_SIZE as int, grow_target(oldlen, sz, slots, recent))
}

/// The clamped capacity hint used by table sizing.
pub open spec fn min_hint(hint: int) -> int {
    if hint > MAX_SIZE_HINT {
        MAX_SIZE_HINT as int
    } else {
        hint
    }
}

/// A fresh, empty table is healthy and maps nothing.
proof fn lemma_empty_table_wf<K: MapKey, V: MapValue>(t: &KVs<K, V>)
    requires
        8 <= t.spec_len() <= MAX_SIZE,
        kvtable::is_pow2(t.spec_len()),
        t._hashes@.len() == t.spec_len(),
        t._vs@.len() == t.spec_len(),
        forall|i: int| 0 <= i < t.spec_len() ==> t.kcell(i) is None,
        forall|i: int| 0 <= i < t.spec_len() ==> t.vcell(i) is None,
        t._chm._newkvs is None,
        t._chm._size == 0,
        t._chm._slots == 0,
        t._chm._copy_done == 0,
        t._chm._copy_idx == 0,
        t._chm._resizer == 0,
    ensures
        t.wf(),
        t.settled(),
        forall|kv: K::V| t.chain_lookup(kv) is None,
{
    assert(t.count_keyed(t.spec_len()) == 0) by {
        lemma_count_empty(t, t.spec_len());
    }
    assert(t.count_retired(t.spec_len()) == 0) by {
        lemma_count_empty(t, t.spec_len());
    }
    assert(t.count_lives(t.spec_len()) == 0) by {
        lemma_count_empty(t, t.spec_len());
    }
    assert forall|kv: K::V| t.chain_lookup(kv) is None by {
        let home = t.home_slot(K::hash_of(kv));
        let mask = (t.spec_len() - 1) as u64;
        let hv = K::hash_of(kv);
        assert(hv & mask <= mask) by (bit_vector);
        assert(0 <= home < t.spec_len());
        assert(t.get_probe(kv, home, t.spec_reprobe_limit()) == LookupStep::<V::V>::Missing);
    }
}

/// In a table with no keyed or retired cells, the counters count zero.
proof fn lemma_count_empty<K: MapKey, V: MapValue>(t: &KVs<K, V>, n: int)
    requires
        forall|i: int| 0 <= i < n ==> t.kcell(i) is None,
        forall|i: int| 0 <= i < n ==> t.vcell(i) is None,
    ensures
        t.count_keyed(n) == 0,
        t.count_retired(n) == 0,
        t.count_lives(n) == 0,
    decreases n,
{
    if n > 0 {
        lemma_count_empty(t, n - 1);
    }
}

} // verus!
