use vstd::prelude::*;

use crate::atomicvec::AtomicVec;
use crate::hashkey::{MapKey, MapValue};
use crate::key::{KeyHolder, ValueHolder};

verus! {

/// Probes per lookup or insert before the table is declared too crowded.
pub const REPROBE_LIMIT: usize = 10;

/// Tables never outgrow `2^MAX_SIZE_LOG` slots, so that every size
/// computation stays far away from overflow.
pub const MAX_SIZE_LOG: usize = 26;

/// `2^MAX_SIZE_LOG`, as a plain number.
pub const MAX_SIZE: usize = 67108864;

/// The probe steps an insert into a table of length `len` can take
/// before it gives up: a claimed or found slot is never further than
/// this from its home slot.
pub open spec fn reach_fuel(len: int) -> nat {
    (REPROBE_LIMIT - 1 + len / 4) as nat
}

/// A power of two, characterised by repeated halving.
pub open spec fn is_pow2(n: int) -> bool
    decreases n,
{
    if n <= 0 {
        false
    } else if n == 1 {
        true
    } else {
        n % 2 == 0 && is_pow2(n / 2)
    }
}

/// The slot that follows `i` in the circular probe order of a table of
/// length `len`.
pub open spec fn next_slot(i: int, len: int) -> int {
    if i + 1 == len {
        0
    } else {
        i + 1
    }
}

/// Outcome of probing one table for a key.
pub enum LookupStep<T> {
    /// A live mapping was found.
    Found(T),
    /// The key is certainly not mapped in this table.
    Missing,
    /// This table hands the lookup on to its successor.
    NextTable,
}

/// Where an insert will act in one table.
pub enum PutSlot {
    /// The probe found a free slot to claim for the key.
    ClaimAt(int),
    /// The probe found the key already installed at this slot.
    FoundAt(int),
    /// The probe ran out of budget before finding the key or a free slot.
    Exhausted,
}

// ---Hash Table Layer Node ----------------------------------------------

/// One generation of the map: parallel slot arrays for keys and values,
/// the cached hashes, and the resize control block.
pub struct KVs<K, V> {
    pub _ks: AtomicVec<KeyHolder<K>>,
    pub _vs: AtomicVec<ValueHolder<V>>,
    pub _chm: CHM<K, V>,
    pub _hashes: Vec<u64>,
}

// ---Structure for resizing ---------------------------------------------

/// Per-table resize control: live-entry and used-slot counters, the copy
/// cursor and progress counter, the resizer election counter, and the
/// successor table.
pub struct CHM<K, V> {
    pub _newkvs: Option<Box<KVs<K, V>>>,
    pub _size: usize,
    pub _slots: usize,
    pub _copy_done: usize,
    pub _copy_idx: usize,
    pub _resizer: usize,
}

impl<K: MapKey, V: MapValue> KVs<K, V> {
    pub open spec fn spec_len(&self) -> int {
        self._ks@.len() as int
    }

    pub open spec fn kcell(&self, i: int) -> Option<KeyHolder<K>> {
        self._ks@[i]
    }

    pub open spec fn vcell(&self, i: int) -> Option<ValueHolder<V>> {
        self._vs@[i]
    }

    /// The slot holds this key.
    pub open spec fn key_is(&self, i: int, kv: K::V) -> bool {
        self.kcell(i) matches Some(KeyHolder::Key(k)) && k@ == kv
    }

    pub open spec fn key_absent(&self, i: int) -> bool {
        self.kcell(i) is None
    }

    pub open spec fn key_tomb(&self, i: int) -> bool {
        self.kcell(i) matches Some(KeyHolder::Tombstone)
    }

    pub open spec fn val_primed(&self, i: int) -> bool {
        self.vcell(i) matches Some(ValueHolder::Prime(_))
    }

    /// The slot is retired for this generation: its key was tombstoned
    /// while still empty, or its value reached the primed tombstone.
    pub open spec fn retired(&self, i: int) -> bool {
        ||| self.key_tomb(i)
        ||| (self.vcell(i) matches Some(ValueHolder::Prime(inner)) && (*inner) is Tombstone)
    }

    /// Number of slots among the first `n` whose key cell carries a key.
    pub open spec fn count_keyed(&self, n: int) -> int
        decreases n,
    {
        if n <= 0 {
            0
        } else {
            self.count_keyed(n - 1) + if self.kcell(n - 1) matches Some(KeyHolder::Key(_)) {
                1int
            } else {
                0int
            }
        }
    }

    /// Number of retired slots among the first `n`.
    pub open spec fn count_retired(&self, n: int) -> int
        decreases n,
    {
        if n <= 0 {
            0
        } else {
            self.count_retired(n - 1) + if self.retired(n - 1) {
                1int
            } else {
                0int
            }
        }
    }

    /// Number of slots among the first `n` that carry a value, live
    /// or frozen mid-copy.
    pub open spec fn count_lives(&self, n: int) -> int
        decreases n,
    {
        if n <= 0 {
            0
        } else {
            self.count_lives(n - 1) + if carries_value(self.vcell(n - 1)) {
                1int
            } else {
                0int
            }
        }
    }

    /// Home slot of a hash in this table.
    pub open spec fn home_slot(&self, h: u64) -> int {
        (h & ((self.spec_len() - 1) as u64)) as int
    }

    /// Every slot that holds a key is reachable from the key's home slot
    /// by at most `fuel` probe steps over slots whose key cells are all
    /// non-empty; this is what lets a lookup walk to the key before it
    /// meets an empty slot.
    pub open spec fn reachable_clear(&self, i: int, j: int, fuel: nat) -> bool
        decreases fuel,
    {
        if i == j {
            true
        } else if fuel == 0 {
            false
        } else {
            !self.key_absent(i) && self.reachable_clear(next_slot(i, self.spec_len()), j, (fuel
                - 1) as nat)
        }
    }

    /// The per-table lookup interpreter: what probing finds for `kv`
    /// starting at slot `i` with `fuel` probes of budget left.
    pub open spec fn get_probe(&self, kv: K::V, i: int, fuel: nat) -> LookupStep<V::V>
        decreases fuel,
    {
        if !(0 <= i < self.spec_len()) {
            LookupStep::Missing
        } else if self.key_absent(i) {
            LookupStep::Missing
        } else if self.key_is(i, kv) {
            match self.vcell(i) {
                Some(ValueHolder::Value(v)) => LookupStep::Found(v@),
                Some(ValueHolder::Prime(_)) => LookupStep::NextTable,
                _ => LookupStep::Missing,
            }
        } else if fuel <= 1 || self.key_tomb(i) {
            if self._chm._newkvs is Some {
                LookupStep::NextTable
            } else {
                LookupStep::Missing
            }
        } else {
            self.get_probe(kv, next_slot(i, self.spec_len()), (fuel - 1) as nat)
        }
    }

    /// The probe budget of a lookup in this table.
    pub open spec fn spec_reprobe_limit(&self) -> nat {
        (REPROBE_LIMIT + self.spec_len() / 4) as nat
    }

    /// The per-table insert interpreter: which slot an insert of `kv`
    /// will act on, starting at slot `i` with `fuel` probes left.
    pub open spec fn put_probe(&self, kv: K::V, i: int, fuel: nat) -> PutSlot
        decreases fuel,
    {
        if !(0 <= i < self.spec_len()) {
            PutSlot::Exhausted
        } else if self.key_absent(i) {
            PutSlot::ClaimAt(i)
        } else if self.key_is(i, kv) {
            PutSlot::FoundAt(i)
        } else if fuel <= 1 {
            PutSlot::Exhausted
        } else {
            self.put_probe(kv, next_slot(i, self.spec_len()), (fuel - 1) as nat)
        }
    }

    /// Where an insert of `kv` acts in this table. Insert probes share
    /// the lookup's budget, so an insert gives up only where a lookup
    /// would also have moved on.
    pub open spec fn put_locate(&self, kv: K::V) -> PutSlot {
        self.put_probe(kv, self.home_slot(K::hash_of(kv)), self.spec_reprobe_limit())
    }

    /// How many successors hang off this table.
    pub open spec fn chain_depth(&self) -> nat
        decreases self,
    {
        match self._chm._newkvs {
            Some(nt) => 1 + nt.chain_depth(),
            None => 0,
        }
    }

    /// The table `level` generations down the chain, if any.
    pub open spec fn table_at(&self, level: nat) -> Option<KVs<K, V>>
        decreases level,
    {
        if level == 0 {
            Some(*self)
        } else {
            match self._chm._newkvs {
                Some(nt) => nt.table_at((level - 1) as nat),
                None => None,
            }
        }
    }

    /// What a lookup of `kv` yields from this table and its successors.
    pub open spec fn chain_lookup(&self, kv: K::V) -> Option<V::V>
        decreases self,
    {
        match self.get_probe(kv, self.home_slot(K::hash_of(kv)), self.spec_reprobe_limit()) {
            LookupStep::Found(v) => Some(v),
            LookupStep::Missing => None,
            LookupStep::NextTable => match self._chm._newkvs {
                Some(nt) => nt.chain_lookup(kv),
                None => None,
            },
        }
    }

    /// Structural health of this one table: array lengths agree, the
    /// length is a bounded power of two, the used-slot counter counts
    /// the keyed cells, every holder is well formed, values pair only
    /// with keys, keys sit close to their home slot, and a table with
    /// no successor has no tombstoned keys and no primed values.
    pub open spec fn wf_local(&self) -> bool {
        &&& self._vs@.len() == self.spec_len()
        &&& self._hashes@.len() == self.spec_len()
        &&& 8 <= self.spec_len() <= MAX_SIZE
        &&& is_pow2(self.spec_len())
        &&& self._chm._slots == self.count_keyed(self.spec_len())
        &&& self._chm._copy_idx <= 3 * self.spec_len()
        &&& self._chm._copy_done <= self.spec_len()
        &&& self._chm._resizer <= 1
        &&& (self._chm._newkvs is Some) == (self._chm._resizer == 1)
        &&& forall|i: int|
            0 <= i < self.spec_len() ==> ((#[trigger] self.vcell(i)) matches Some(h)
                ==> h.holder_wf())
        &&& forall|i: int|
            0 <= i < self.spec_len() && !(#[trigger] self.kcell(i) matches Some(KeyHolder::Key(_)))
                ==> self.vcell(i) is None
        &&& forall|i: int|
            0 <= i < self.spec_len() ==> ((#[trigger] self.kcell(i)) matches Some(KeyHolder::Key(k))
                ==> self.reachable_clear(self.home_slot(K::hash_of(k@)), i, reach_fuel(
                self.spec_len())))
        &&& (self._chm._newkvs is None ==> forall|i: int|
            0 <= i < self.spec_len() ==> !(#[trigger] self.val_primed(i)) && !self.key_tomb(i))
    }

    /// The copy-progress counter counts the retired slots.
    pub open spec fn wf_done(&self) -> bool {
        self._chm._copy_done == self.count_retired(self.spec_len())
    }

    /// Health of this table and of every successor, without the
    /// copy-progress accounting of this table; the helper loop restores
    /// that accounting after it has copied a whole chunk.
    pub open spec fn wf_mid(&self) -> bool
        decreases self, 0int,
    {
        &&& self.wf_local()
        &&& match self._chm._newkvs {
            Some(nt) => nt.wf() && nt.spec_len() >= self.spec_len(),
            None => true,
        }
    }

    /// The live-entry counter never exceeds the slots that can account
    /// for it: the carried values plus the retired slots whose values
    /// moved on. On a table no copy ever touched this makes the
    /// counter a lower bound kept by exactly the accounted
    /// transitions; copy installs leave it behind, so it only
    /// undercounts.
    pub open spec fn wf_size(&self) -> bool {
        self._chm._size <= self.count_lives(self.spec_len()) + self.count_retired(self.spec_len())
    }

    /// Full health of this table and of every successor.
    pub open spec fn wf(&self) -> bool
        decreases self, 1int,
    {
        self.wf_mid() && self.wf_done() && self.wf_size()
    }

    /// A settled table: no resize is in progress and none ever started.
    pub open spec fn settled(&self) -> bool {
        self._chm._newkvs is None
    }
}

impl<K: MapKey, V: MapValue> KVs<K, V> {
    /// A fresh, empty table of `table_size` slots.
    pub fn new(table_size: usize) -> (r: KVs<K, V>)
        ensures
            r.spec_len() == table_size,
            r._vs@.len() == table_size,
            r._hashes@.len() == table_size,
            forall|i: int| 0 <= i < table_size ==> r.kcell(i) is None,
            forall|i: int| 0 <= i < table_size ==> r.vcell(i) is None,
            forall|i: int| 0 <= i < table_size ==> r._hashes@[i] == 0,
            r._chm._newkvs is None,
            r._chm._size == 0,
            r._chm._slots == 0,
            r._chm._copy_done == 0,
            r._chm._copy_idx == 0,
            r._chm._resizer == 0,
    {
        let mut hashes: Vec<u64> = Vec::new();
        let mut n: usize = 0;
        while n < table_size
            invariant
                n <= table_size,
                hashes@.len() == n,
                forall|i: int| 0 <= i < n ==> hashes@[i] == 0,
            decreases table_size - n,
        {
            hashes.push(0);
            n = n + 1;
        }
        KVs {
            _ks: AtomicVec::with_capacity(table_size),
            _vs: AtomicVec::with_capacity(table_size),
            _chm: CHM::<K, V>::new(),
            _hashes: hashes,
        }
    }

    pub fn get_key_nonatomic_at(&self, idx: usize) -> (c: &Option<KeyHolder<K>>)
        requires
            idx < self.spec_len(),
        ensures
            *c == self.kcell(idx as int),
    {
        self._ks.load(idx)
    }

    pub fn get_value_nonatomic_at(&self, idx: usize) -> (c: &Option<ValueHolder<V>>)
        requires
            idx < self._vs@.len(),
        ensures
            *c == self.vcell(idx as int),
    {
        self._vs.load(idx)
    }

    /// The table is too crowded to keep probing: the probe count hit the
    /// base limit while the used-slot counter says the table is full.
    pub fn table_full(&self, reprobe_cnt: usize) -> (r: bool)
        ensures
            r == (reprobe_cnt >= REPROBE_LIMIT && self._chm._slots >= self.spec_len()),
    {
        reprobe_cnt >= REPROBE_LIMIT && self._chm._slots >= self._ks.len()
    }

    /// The probe budget of a lookup in this table.
    pub fn reprobe_limit(&self) -> (r: usize)
        requires
            self.spec_len() <= MAX_SIZE,
        ensures
            r == self.spec_reprobe_limit(),
    {
        REPROBE_LIMIT + self._ks.len() / 4
    }

    pub fn len(&self) -> (n: usize)
        ensures
            n == self.spec_len(),
    {
        self._ks.len()
    }
}

/// Whether a value cell carries a value, live or frozen.
pub open spec fn carries_value<V: MapValue>(c: Option<ValueHolder<V>>) -> bool {
    match c {
        Some(ValueHolder::Value(_)) => true,
        Some(ValueHolder::Prime(inner)) => (*inner) matches ValueHolder::Value(_),
        _ => false,
    }
}

/// Whether the value cell at `n` counts as carrying a value.
pub open spec fn lives_at<K: MapKey, V: MapValue>(t: &KVs<K, V>, n: int) -> int {
    if carries_value(t.vcell(n)) {
        1
    } else {
        0
    }
}

/// Whether the key cell at `n` counts as keyed.
pub open spec fn keyed_at<K: MapKey, V: MapValue>(t: &KVs<K, V>, n: int) -> int {
    if t.kcell(n) matches Some(KeyHolder::Key(_)) {
        1
    } else {
        0
    }
}

/// Whether the slot at `n` counts as retired.
pub open spec fn retired_at<K: MapKey, V: MapValue>(t: &KVs<K, V>, n: int) -> int {
    if t.retired(n) {
        1
    } else {
        0
    }
}

/// The counters stay between zero and the number of slots counted.
pub proof fn lemma_counts_bounded<K: MapKey, V: MapValue>(t: &KVs<K, V>, n: int)
    ensures
        0 <= t.count_keyed(n) <= if n >= 0 {
            n
        } else {
            0
        },
        0 <= t.count_retired(n) <= if n >= 0 {
            n
        } else {
            0
        },
        0 <= t.count_lives(n) <= if n >= 0 {
            n
        } else {
            0
        },
    decreases n,
{
    if n > 0 {
        lemma_counts_bounded(t, n - 1);
    }
}

/// How the counters move when the cells of two tables agree everywhere
/// except possibly at slot `j`.
pub proof fn lemma_counts_update<K: MapKey, V: MapValue>(
    pre: &KVs<K, V>,
    post: &KVs<K, V>,
    j: int,
    n: int,
)
    requires
        forall|i: int|
            0 <= i < n && i != j ==> #[trigger] post.kcell(i) == pre.kcell(i)
                && post.vcell(i) == pre.vcell(i),
    ensures
        post.count_keyed(n) == pre.count_keyed(n) + if 0 <= j < n {
            keyed_at(post, j) - keyed_at(pre, j)
        } else {
            0
        },
        post.count_retired(n) == pre.count_retired(n) + if 0 <= j < n {
            retired_at(post, j) - retired_at(pre, j)
        } else {
            0
        },
        post.count_lives(n) == pre.count_lives(n) + if 0 <= j < n {
            lives_at(post, j) - lives_at(pre, j)
        } else {
            0
        },
    decreases n,
{
    if n > 0 {
        lemma_counts_update(pre, post, j, n - 1);
    }
}

/// Filling key cells never breaks reachability: if every slot that is
/// empty afterwards was empty before, a clear path stays clear.
pub proof fn lemma_reachable_mono<K: MapKey, V: MapValue>(
    pre: &KVs<K, V>,
    post: &KVs<K, V>,
    i: int,
    j: int,
    fuel: nat,
)
    requires
        post.spec_len() == pre.spec_len(),
        forall|x: int|
            0 <= x < pre.spec_len() ==> (#[trigger] post.key_absent(x) ==> pre.key_absent(x)),
        pre.reachable_clear(i, j, fuel),
        0 <= i < pre.spec_len() || i == j,
    ensures
        post.reachable_clear(i, j, fuel),
    decreases fuel,
{
    if i != j && fuel > 0 {
        lemma_reachable_mono(pre, post, next_slot(i, pre.spec_len()), j, (fuel - 1) as nat);
    }
}

/// The slot an insert probe settles on is reachable from where the
/// probe started, over non-empty key cells.
pub proof fn lemma_put_probe_reachable<K: MapKey, V: MapValue>(
    t: &KVs<K, V>,
    kv: K::V,
    i: int,
    fuel: nat,
    j: int,
)
    requires
        t.put_probe(kv, i, fuel) == PutSlot::ClaimAt(j) || t.put_probe(kv, i, fuel)
            == PutSlot::FoundAt(j),
    ensures
        t.reachable_clear(i, j, (fuel - 1) as nat),
        0 <= j < t.spec_len(),
        t.put_probe(kv, i, fuel) == PutSlot::ClaimAt(j) ==> t.key_absent(j),
        t.put_probe(kv, i, fuel) == PutSlot::FoundAt(j) ==> t.key_is(j, kv),
    decreases fuel,
{
    if !(0 <= i < t.spec_len()) {
    } else if t.key_absent(i) {
    } else if t.key_is(i, kv) {
    } else if fuel <= 1 {
    } else {
        lemma_put_probe_reachable(t, kv, next_slot(i, t.spec_len()), (fuel - 1) as nat, j);
    }
}

/// What a lookup probe sees at the slot an insert probe settled on.
pub open spec fn slot_outcome<K: MapKey, V: MapValue>(t: &KVs<K, V>, j: int) -> LookupStep<V::V> {
    match t.vcell(j) {
        Some(ValueHolder::Value(v)) => LookupStep::Found(v@),
        Some(ValueHolder::Prime(_)) => LookupStep::NextTable,
        _ => LookupStep::Missing,
    }
}

/// After a put has acted on the slot its probe settled on, a lookup
/// probe with at least as much budget reaches the same slot and
/// reports what it holds, provided the table is settled.
pub proof fn lemma_probe_finds<K: MapKey, V: MapValue>(
    pre: &KVs<K, V>,
    post: &KVs<K, V>,
    kv: K::V,
    j: int,
    i: int,
    fuel_p: nat,
    fuel_g: nat,
)
    requires
        post.spec_len() == pre.spec_len(),
        pre.settled(),
        post.settled(),
        forall|x: int|
            0 <= x < pre.spec_len() && x != j ==> #[trigger] post.kcell(x) == pre.kcell(x)
                && post.vcell(x) == pre.vcell(x),
        forall|x: int| 0 <= x < post.spec_len() ==> !(#[trigger] post.key_tomb(x)),
        pre.put_probe(kv, i, fuel_p) == PutSlot::ClaimAt(j) || pre.put_probe(kv, i, fuel_p)
            == PutSlot::FoundAt(j),
        post.key_is(j, kv),
        fuel_g >= fuel_p,
    ensures
        post.get_probe(kv, i, fuel_g) == slot_outcome(post, j),
    decreases fuel_p,
{
    if !(0 <= i < pre.spec_len()) {
    } else if i == j {
    } else if pre.key_absent(i) {
    } else if pre.key_is(i, kv) {
    } else {
        lemma_probe_finds(pre, post, kv, j, next_slot(i, pre.spec_len()), (fuel_p - 1) as nat, (
        fuel_g - 1) as nat);
    }
}

/// A lookup for a different key does not see a value-only change: if
/// the two tables agree on every key cell and on every value cell but
/// the one under `kv`'s slot, lookups for other keys agree.
pub proof fn lemma_probe_value_frame<K: MapKey, V: MapValue>(
    pre: &KVs<K, V>,
    post: &KVs<K, V>,
    kv: K::V,
    kv2: K::V,
    j: int,
    i: int,
    fuel: nat,
)
    requires
        post.spec_len() == pre.spec_len(),
        post._chm._newkvs == pre._chm._newkvs,
        forall|x: int| 0 <= x < pre.spec_len() ==> #[trigger] post.kcell(x) == pre.kcell(x),
        forall|x: int|
            0 <= x < pre.spec_len() && x != j ==> #[trigger] post.vcell(x) == pre.vcell(x),
        pre.key_is(j, kv),
        kv2 != kv,
    ensures
        post.get_probe(kv2, i, fuel) == pre.get_probe(kv2, i, fuel),
    decreases fuel,
{
    if !(0 <= i < pre.spec_len()) {
    } else if pre.key_absent(i) {
    } else if pre.key_is(i, kv2) {
        assert(i != j);
    } else if fuel <= 1 || pre.key_tomb(i) {
    } else {
        lemma_probe_value_frame(pre, post, kv, kv2, j, next_slot(i, pre.spec_len()), (fuel
            - 1) as nat);
    }
}

/// A write that replaces only the value cell at `j` of a slot that
/// carries a key keeps the table structurally healthy, as long as the
/// new holder is well formed and is unprimed whenever the table has no
/// successor.
pub proof fn lemma_wf_local_value_write<K: MapKey, V: MapValue>(
    pre: &KVs<K, V>,
    post: &KVs<K, V>,
    j: int,
)
    requires
        pre.wf_local(),
        post.spec_len() == pre.spec_len(),
        post._vs@.len() == pre._vs@.len(),
        post._hashes@.len() == pre._hashes@.len(),
        post._ks@ == pre._ks@,
        forall|x: int|
            0 <= x < pre.spec_len() && x != j ==> #[trigger] post.vcell(x) == pre.vcell(x),
        0 <= j < pre.spec_len(),
        pre.kcell(j) matches Some(KeyHolder::Key(_)),
        post.vcell(j) matches Some(h) ==> h.holder_wf(),
        post._chm._slots == pre._chm._slots,
        post._chm._copy_idx == pre._chm._copy_idx,
        post._chm._copy_done == pre._chm._copy_done,
        post._chm._resizer == pre._chm._resizer,
        (post._chm._newkvs is Some) == (pre._chm._newkvs is Some),
        post._chm._newkvs is None ==> !(post.vcell(j) matches Some(ValueHolder::Prime(_))),
    ensures
        post.wf_local(),
        post.count_retired(post.spec_len()) == pre.count_retired(pre.spec_len()) + retired_at(
            post,
            j,
        ) - retired_at(pre, j),
        post.count_lives(post.spec_len()) == pre.count_lives(pre.spec_len()) + lives_at(post, j)
            - lives_at(pre, j),
{
    let n = pre.spec_len();
    lemma_counts_update(pre, post, j, n);
    assert forall|i: int|
        0 <= i < n implies ((#[trigger] post.kcell(i)) matches Some(KeyHolder::Key(k))
            ==> post.reachable_clear(post.home_slot(K::hash_of(k@)), i, reach_fuel(
            post.spec_len()))) by {
        if post.kcell(i) matches Some(KeyHolder::Key(_)) {
            let k = post.kcell(i)->0->Key_0;
            assert(pre.kcell(i) == post.kcell(i));
            lemma_home_in_range(pre, K::hash_of(k@));
            lemma_reachable_mono(pre, post, pre.home_slot(K::hash_of(k@)), i, reach_fuel(
                pre.spec_len()));
        }
    }
    assert forall|i: int|
        0 <= i < n implies ((#[trigger] post.vcell(i)) matches Some(h) ==> h.holder_wf()) by {
        if i != j {
            assert(post.vcell(i) == pre.vcell(i));
        }
    }
    assert forall|i: int|
        0 <= i < n && !(#[trigger] post.kcell(i) matches Some(KeyHolder::Key(_))) implies post.vcell(
        i) is None by {
        assert(post.kcell(i) == pre.kcell(i));
        assert(!(pre.kcell(i) matches Some(KeyHolder::Key(_))) ==> pre.vcell(i) is None);
        assert(i != j);
        assert(post.vcell(i) == pre.vcell(i));
    }
    if post._chm._newkvs is None {
        assert forall|i: int|
            0 <= i < n implies !(#[trigger] post.val_primed(i)) && !post.key_tomb(i) by {
            assert(post.kcell(i) == pre.kcell(i));
            assert(!pre.val_primed(i));
            assert(!pre.key_tomb(i));
            if i != j {
                assert(post.vcell(i) == pre.vcell(i));
            }
        }
    }
}

/// A write that fills the empty key cell at `j` — claiming it for a
/// key that sits on a clear path from its home slot, or closing it
/// with a tombstone during a copy — keeps the table structurally
/// healthy.
pub proof fn lemma_wf_local_key_write<K: MapKey, V: MapValue>(
    pre: &KVs<K, V>,
    post: &KVs<K, V>,
    j: int,
)
    requires
        pre.wf_local(),
        post.spec_len() == pre.spec_len(),
        post._vs@ == pre._vs@,
        post._hashes@.len() == pre._hashes@.len(),
        forall|x: int|
            0 <= x < pre.spec_len() && x != j ==> #[trigger] post.kcell(x) == pre.kcell(x),
        0 <= j < pre.spec_len(),
        pre.kcell(j) is None,
        post._chm._copy_idx == pre._chm._copy_idx,
        post._chm._copy_done == pre._chm._copy_done,
        post._chm._resizer == pre._chm._resizer,
        post._chm._newkvs == pre._chm._newkvs,
        post._chm._slots == pre._chm._slots + keyed_at(post, j),
        post.kcell(j) matches Some(KeyHolder::Key(k)) ==> post.reachable_clear(
            post.home_slot(K::hash_of(k@)),
            j,
            reach_fuel(post.spec_len()),
        ),
        post.kcell(j) matches Some(KeyHolder::Tombstone) ==> pre._chm._newkvs is Some,
        !(post.kcell(j) is None),
    ensures
        post.wf_local(),
        post.count_retired(post.spec_len()) == pre.count_retired(pre.spec_len()) + retired_at(
            post,
            j,
        ) - retired_at(pre, j),
        post.count_lives(post.spec_len()) == pre.count_lives(pre.spec_len()),
{
    let n = pre.spec_len();
    lemma_counts_update(pre, post, j, n);
    lemma_counts_bounded(post, n);
    assert(pre.vcell(j) is None);
    assert forall|i: int|
        0 <= i < n implies ((#[trigger] post.kcell(i)) matches Some(KeyHolder::Key(k))
            ==> post.reachable_clear(post.home_slot(K::hash_of(k@)), i, reach_fuel(
            post.spec_len()))) by {
        if post.kcell(i) matches Some(KeyHolder::Key(_)) {
            let k = post.kcell(i)->0->Key_0;
            if i != j {
                assert(pre.kcell(i) == post.kcell(i));
                lemma_home_in_range(pre, K::hash_of(k@));
                lemma_reachable_mono(
                    pre,
                    post,
                    pre.home_slot(K::hash_of(k@)),
                    i,
                    reach_fuel(pre.spec_len()),
                );
            }
        }
    }
    assert forall|i: int|
        0 <= i < n implies ((#[trigger] post.vcell(i)) matches Some(h) ==> h.holder_wf()) by {
        assert(post.vcell(i) == pre.vcell(i));
    }
    assert forall|i: int|
        0 <= i < n && !(#[trigger] post.kcell(i) matches Some(KeyHolder::Key(_))) implies post.vcell(
        i) is None by {
        assert(post.vcell(i) == pre.vcell(i));
        if i != j {
            assert(post.kcell(i) == pre.kcell(i));
        }
    }
    if post._chm._newkvs is None {
        assert forall|i: int|
            0 <= i < n implies !(#[trigger] post.val_primed(i)) && !post.key_tomb(i) by {
            assert(post.vcell(i) == pre.vcell(i));
            if i != j {
                assert(post.kcell(i) == pre.kcell(i));
            }
            assert(!pre.val_primed(i));
            assert(!pre.key_tomb(i));
        }
    }
}

/// The live-entry counter's saturating step up.
pub open spec fn sat_inc(n: usize) -> usize {
    if n < usize::MAX {
        (n + 1) as usize
    } else {
        n
    }
}

/// The live-entry counter's saturating step down.
pub open spec fn sat_dec(n: usize) -> usize {
    if n > 0 {
        (n - 1) as usize
    } else {
        n
    }
}

/// The live payload a slot migration must carry forward: the value of
/// a live cell, primed or not.
pub open spec fn carried_payload<V: MapValue>(c: Option<ValueHolder<V>>) -> Option<V::V> {
    match c {
        Some(ValueHolder::Value(v)) => Some(v@),
        Some(ValueHolder::Prime(inner)) => match *inner {
            ValueHolder::Value(v) => Some(v@),
            _ => None,
        },
        _ => None,
    }
}

/// Content equality between an unprimed holder and a cell.
pub open spec fn holder_same<V: MapValue>(a: ValueHolder<V>, c: Option<ValueHolder<V>>) -> bool {
    match a {
        ValueHolder::Value(x) => c matches Some(ValueHolder::Value(y)) && x@ == y@,
        ValueHolder::Tombstone => c matches Some(ValueHolder::Tombstone),
        ValueHolder::Prime(_) => false,
    }
}

/// The prior value an insert reports: the cell's content, with the
/// tombstone sentinel standing in for an empty cell.
pub open spec fn holder_reports<V: MapValue>(r: ValueHolder<V>, c: Option<ValueHolder<V>>) -> bool {
    match c {
        None => r is Tombstone,
        Some(h) => match h {
            ValueHolder::Value(y) => r matches ValueHolder::Value(x) && x@ == y@,
            ValueHolder::Tombstone => r is Tombstone,
            ValueHolder::Prime(_) => false,
        },
    }
}

/// Whether a match policy lets a write proceed against a cell.
pub open spec fn spec_allows<V: MapValue>(
    m: crate::MatchingTypes,
    e: Option<ValueHolder<V>>,
    c: Option<ValueHolder<V>>,
) -> bool {
    match m {
        crate::MatchingTypes::MatchAll => true,
        crate::MatchingTypes::MatchAllNotEmpty => c matches Some(ValueHolder::Value(_)),
        crate::MatchingTypes::MatchValue => match e {
            Some(ev) => (c is None && ev is Tombstone) || holder_same(ev, c),
            None => false,
        },
        crate::MatchingTypes::FromCopySlot => c is None,
    }
}

/// What a plain insert does to a settled table: where the probe
/// settles, what the map then associates with the key, and what prior
/// value the insert reports.
pub open spec fn put_exact<K: MapKey, V: MapValue>(
    pre: KVs<K, V>,
    post: KVs<K, V>,
    kv: K::V,
    putval: ValueHolder<V>,
    r: ValueHolder<V>,
) -> bool {
    match pre.put_locate(kv) {
        PutSlot::ClaimAt(j) => {
            if putval is Tombstone {
                post == pre && r is Tombstone
            } else {
                &&& post.settled()
                &&& post.spec_len() == pre.spec_len()
                &&& post.chain_lookup(kv) == Some((putval->Value_0)@)
                &&& (forall|kv2: K::V| kv2 != kv ==> post.chain_lookup(kv2) == pre.chain_lookup(kv2))
                &&& (forall|x: int|
                    0 <= x < pre.spec_len() && x != j ==> #[trigger] post.kcell(x) == pre.kcell(x)
                        && post.vcell(x) == pre.vcell(x))
                &&& post.key_is(j, kv)
                &&& post.vcell(j) == Some(putval)
                &&& post._hashes@ == pre._hashes@.update(j, K::hash_of(kv))
                &&& post._chm._slots == pre._chm._slots + 1
                &&& post._chm._size == sat_inc(pre._chm._size)
                &&& r is Tombstone
            }
        },
        PutSlot::FoundAt(j) => {
            &&& post.settled()
            &&& post.spec_len() == pre.spec_len()
            &&& (putval matches ValueHolder::Value(v) ==> post.chain_lookup(kv) == Some(v@))
            &&& (putval is Tombstone ==> post.chain_lookup(kv) is None)
            &&& (forall|kv2: K::V| kv2 != kv ==> post.chain_lookup(kv2) == pre.chain_lookup(kv2))
            &&& (forall|x: int|
                0 <= x < pre.spec_len() && x != j ==> #[trigger] post.kcell(x) == pre.kcell(x)
                    && post.vcell(x) == pre.vcell(x))
            &&& post.kcell(j) == pre.kcell(j)
            &&& (!holder_same(putval, pre.vcell(j)) ==> post.vcell(j) == Some(putval))
            &&& post._hashes@ == pre._hashes@
            &&& post._chm._slots == pre._chm._slots
            &&& post._chm._size == (if !(pre.vcell(j) matches Some(ValueHolder::Value(_)))
                && putval is Value {
                sat_inc(pre._chm._size)
            } else if (pre.vcell(j) matches Some(ValueHolder::Value(_))) && putval is Tombstone {
                sat_dec(pre._chm._size)
            } else {
                pre._chm._size
            })
            &&& (holder_same(putval, pre.vcell(j)) ==> post == pre)
            &&& holder_reports(r, pre.vcell(j))
        },
        PutSlot::Exhausted => {
            // The insert moves to a successor generation, and the old
            // table defers this key's lookup to that successor.
            &&& post._chm._newkvs is Some
            &&& post.chain_lookup(kv) == post._chm._newkvs->0.chain_lookup(kv)
        },
    }
}

/// The home slot of any hash lies inside the table.
pub proof fn lemma_home_in_range<K: MapKey, V: MapValue>(t: &KVs<K, V>, h: u64)
    requires
        1 <= t.spec_len() <= MAX_SIZE,
    ensures
        0 <= t.home_slot(h) < t.spec_len(),
{
    let mask = (t.spec_len() - 1) as u64;
    assert(h & mask <= mask) by (bit_vector);
}

/// How many slots a lookup probe visits in one table.
pub open spec fn probe_steps<K: MapKey, V: MapValue>(
    t: &KVs<K, V>,
    kv: K::V,
    i: int,
    fuel: nat,
) -> nat
    decreases fuel,
{
    if !(0 <= i < t.spec_len()) {
        1
    } else if t.key_absent(i) {
        1
    } else if t.key_is(i, kv) {
        1
    } else if fuel <= 1 || t.key_tomb(i) {
        1
    } else {
        1 + probe_steps(t, kv, next_slot(i, t.spec_len()), (fuel - 1) as nat)
    }
}

/// Reprobe bound: a lookup never visits more than its fuel's worth of
/// slots in one table, so a probe that starts with the table's reprobe
/// limit reads at most that many consecutive slots before it returns
/// or moves on to the successor.
pub proof fn lemma_reprobe_bound<K: MapKey, V: MapValue>(t: &KVs<K, V>, kv: K::V, i: int, fuel: nat)
    requires
        fuel >= 1,
    ensures
        probe_steps(t, kv, i, fuel) <= fuel,
    decreases fuel,
{
    if 0 <= i < t.spec_len() && !t.key_absent(i) && !t.key_is(i, kv) && !(fuel <= 1 || t.key_tomb(
        i,
    )) {
        lemma_reprobe_bound(t, kv, next_slot(i, t.spec_len()), (fuel - 1) as nat);
    }
}

/// Some generation of the chain pairs this key with this value, live
/// or frozen mid-copy.
pub open spec fn chain_has_entry<K: MapKey, V: MapValue>(t: &KVs<K, V>, kv: K::V, vv: V::V) -> bool
    decreases t,
{
    ||| exists|i: int|
        0 <= i < t.spec_len() && #[trigger] t.key_is(i, kv) && (match t.vcell(i) {
            Some(ValueHolder::Value(v)) => v@ == vv,
            Some(ValueHolder::Prime(inner)) => (*inner) matches ValueHolder::Value(v) && v@ == vv,
            _ => false,
        })
    ||| (match t._chm._newkvs {
        Some(nt) => chain_has_entry(&*nt, kv, vv),
        None => false,
    })
}

/// A probe only reports a value out of a slot that carries the key
/// probed for.
proof fn lemma_probe_found_slot<K: MapKey, V: MapValue>(t: &KVs<K, V>, kv: K::V, i: int, fuel: nat)
    requires
        t.get_probe(kv, i, fuel) matches LookupStep::Found(vv),
    ensures
        chain_has_entry(t, kv, t.get_probe(kv, i, fuel)->Found_0),
    decreases fuel,
{
    if !(0 <= i < t.spec_len()) {
    } else if t.key_absent(i) {
    } else if t.key_is(i, kv) {
    } else if fuel <= 1 || t.key_tomb(i) {
    } else {
        lemma_probe_found_slot(t, kv, next_slot(i, t.spec_len()), (fuel - 1) as nat);
    }
}

/// No value fabrication, and key-value pairing: every value a lookup
/// returns was read out of a slot, in some generation, whose key cell
/// carries exactly the key looked up.
pub proof fn lemma_no_fabrication<K: MapKey, V: MapValue>(t: &KVs<K, V>, kv: K::V)
    requires
        t.chain_lookup(kv) matches Some(vv),
    ensures
        chain_has_entry(t, kv, t.chain_lookup(kv)->0),
    decreases t,
{
    let step = t.get_probe(kv, t.home_slot(K::hash_of(kv)), t.spec_reprobe_limit());
    match step {
        LookupStep::Found(vv) => {
            lemma_probe_found_slot(t, kv, t.home_slot(K::hash_of(kv)), t.spec_reprobe_limit());
        },
        LookupStep::Missing => {},
        LookupStep::NextTable => {
            match t._chm._newkvs {
                Some(nt) => {
                    lemma_no_fabrication(&*nt, kv);
                },
                None => {},
            }
        },
    }
}

/// Monotone generation: along the chain, each successor table is at
/// least as long as its predecessor, so the current-table pointer only
/// ever moves to tables that are no shorter.
pub proof fn lemma_monotone_generations<K: MapKey, V: MapValue>(t: &KVs<K, V>, level: nat)
    requires
        t.wf(),
        t.table_at(level) matches Some(a),
        t.table_at(level + 1) matches Some(b),
    ensures
        t.table_at(level + 1)->0.spec_len() >= t.table_at(level)->0.spec_len(),
    decreases level,
{
    match t._chm._newkvs {
        Some(nt) => {
            if level == 0 {
                assert(t.table_at(1) == nt.table_at(0));
                assert(nt.table_at(0) == Some(*nt));
            } else {
                lemma_monotone_generations(&*nt, (level - 1) as nat);
            }
        },
        None => {},
    }
}

/// An insert that exhausted its probe budget walked over filled,
/// mismatching slots only; key cells are write-once, so a later
/// lookup with no more budget walks the same filled slots and hands
/// the key on to the successor.
pub proof fn lemma_exhausted_probe_next<K: MapKey, V: MapValue>(
    pre: &KVs<K, V>,
    post: &KVs<K, V>,
    kv: K::V,
    i: int,
    fuel_p: nat,
    fuel_g: nat,
)
    requires
        post.spec_len() == pre.spec_len(),
        forall|x: int|
            0 <= x < pre.spec_len() && !pre.key_absent(x) ==> #[trigger] post.kcell(x)
                == pre.kcell(x),
        pre.put_probe(kv, i, fuel_p) == PutSlot::Exhausted,
        post._chm._newkvs is Some,
        fuel_g <= fuel_p,
        0 <= i < pre.spec_len(),
    ensures
        post.get_probe(kv, i, fuel_g) == LookupStep::<V::V>::NextTable,
    decreases fuel_p,
{
    assert(!pre.key_absent(i));
    assert(!pre.key_is(i, kv));
    assert(post.kcell(i) == pre.kcell(i));
    if fuel_g <= 1 || post.key_tomb(i) {
    } else {
        lemma_exhausted_probe_next(pre, post, kv, next_slot(i, pre.spec_len()), (fuel_p - 1) as nat, (
        fuel_g - 1) as nat);
    }
}

/// A probe that would claim a free slot walks over mismatching keys
/// only, so a lookup with at least as much budget in a settled table
/// walks the same way and reports the key missing.
pub proof fn lemma_probe_misses<K: MapKey, V: MapValue>(
    t: &KVs<K, V>,
    kv: K::V,
    j: int,
    i: int,
    fuel_p: nat,
    fuel_g: nat,
)
    requires
        t.settled(),
        forall|x: int| 0 <= x < t.spec_len() ==> !(#[trigger] t.key_tomb(x)),
        t.put_probe(kv, i, fuel_p) == PutSlot::ClaimAt(j),
        fuel_g >= fuel_p,
    ensures
        t.get_probe(kv, i, fuel_g) == LookupStep::<V::V>::Missing,
    decreases fuel_p,
{
    if !(0 <= i < t.spec_len()) {
    } else if t.key_absent(i) {
    } else if t.key_is(i, kv) {
    } else if fuel_p <= 1 {
    } else {
        lemma_probe_misses(t, kv, j, next_slot(i, t.spec_len()), (fuel_p - 1) as nat, (fuel_g
            - 1) as nat);
    }
}

/// What the copy path's install does to a settled successor: it
/// claims a fresh slot, fills a slot whose key is present but whose
/// value cell is still empty, or declines because a newer writer
/// already supplied a value there.
pub open spec fn copy_install_exact<K: MapKey, V: MapValue>(
    pre: KVs<K, V>,
    post: KVs<K, V>,
    kv: K::V,
    vv: V::V,
) -> bool {
    match pre.put_locate(kv) {
        PutSlot::ClaimAt(j) => {
            &&& post.settled()
            &&& post.spec_len() == pre.spec_len()
            &&& post.chain_lookup(kv) == Some(vv)
            &&& (forall|kv2: K::V| kv2 != kv ==> post.chain_lookup(kv2) == pre.chain_lookup(kv2))
            &&& post._chm._slots == pre._chm._slots + 1
            &&& post._chm._size == pre._chm._size
        },
        PutSlot::FoundAt(j) => {
            if pre.vcell(j) is None {
                &&& post.settled()
                &&& post.spec_len() == pre.spec_len()
                &&& post.chain_lookup(kv) == Some(vv)
                &&& (forall|kv2: K::V|
                    kv2 != kv ==> post.chain_lookup(kv2) == pre.chain_lookup(kv2))
                &&& post._chm._slots == pre._chm._slots
                &&& post._chm._size == pre._chm._size
            } else {
                post == pre
            }
        },
        PutSlot::Exhausted => {
            &&& post._chm._newkvs is Some
            &&& post.chain_lookup(kv) == post._chm._newkvs->0.chain_lookup(kv)
        },
    }
}

/// In a settled table that holds no cell for this key, a probe
/// reports the key missing from anywhere.
proof fn lemma_no_key_probe_misses<K: MapKey, V: MapValue>(
    t: &KVs<K, V>,
    kv2: K::V,
    s: int,
    f: nat,
)
    requires
        t.settled(),
        forall|x: int| 0 <= x < t.spec_len() ==> !(#[trigger] t.key_tomb(x)),
        forall|x: int| 0 <= x < t.spec_len() ==> !(#[trigger] t.key_is(x, kv2)),
    ensures
        t.get_probe(kv2, s, f) == LookupStep::<V::V>::Missing,
    decreases f,
{
    if 0 <= s < t.spec_len() && !t.key_absent(s) && !t.key_is(s, kv2) && !(f <= 1 || t.key_tomb(
        s,
    )) {
        lemma_no_key_probe_misses(t, kv2, next_slot(s, t.spec_len()), (f - 1) as nat);
    }
}

/// Claiming a fresh slot for one key does not change what a lookup
/// sees for any other key: every slot holding the other key lies on a
/// clear path that cannot pass through the slot just claimed, so the
/// two walks agree.
proof fn lemma_claim_frame_probe<K: MapKey, V: MapValue>(
    pre: &KVs<K, V>,
    post: &KVs<K, V>,
    kv: K::V,
    kv2: K::V,
    j: int,
    i: int,
    f: nat,
    b: nat,
)
    requires
        post.spec_len() == pre.spec_len(),
        pre.settled(),
        post.settled(),
        forall|x: int| 0 <= x < pre.spec_len() ==> !(#[trigger] pre.key_tomb(x)),
        forall|x: int|
            0 <= x < pre.spec_len() && x != j ==> #[trigger] post.kcell(x) == pre.kcell(x)
                && post.vcell(x) == pre.vcell(x),
        pre.kcell(j) is None,
        0 <= j < pre.spec_len(),
        post.kcell(j) matches Some(KeyHolder::Key(k)) && k@ == kv,
        kv2 != kv,
        forall|x: int|
            0 <= x < pre.spec_len() && #[trigger] pre.key_is(x, kv2) ==> pre.reachable_clear(
                i,
                x,
                b,
            ),
        f >= b + 1,
    ensures
        post.get_probe(kv2, i, f) == pre.get_probe(kv2, i, f),
    decreases f,
{
    let len = pre.spec_len();
    assert forall|x: int| 0 <= x < len implies !(#[trigger] post.key_tomb(x)) by {
        if x != j {
            assert(post.kcell(x) == pre.kcell(x));
            assert(!pre.key_tomb(x));
            assert(!post.key_tomb(x));
        } else {
            assert(post.kcell(x) matches Some(KeyHolder::Key(_)));
            assert(!post.key_tomb(x));
        }
    }
    if !(0 <= i < len) {
        return ;
    }
    if i == j {
        // The walk reached the freshly claimed slot: before the claim
        // it met an empty cell here, so no slot for `kv2` is reachable
        // at all, and the continued walk after the claim finds none.
        assert forall|x: int| 0 <= x < len implies !(#[trigger] pre.key_is(x, kv2)) by {
            if pre.key_is(x, kv2) {
                assert(pre.reachable_clear(i, x, b));
                assert(x != j);
                assert(false);
            }
        }
        assert forall|x: int| 0 <= x < len implies !(#[trigger] post.key_is(x, kv2)) by {
            if x != j {
                assert(post.kcell(x) == pre.kcell(x));
                assert(!pre.key_is(x, kv2));
                assert(!post.key_is(x, kv2));
            } else {
                assert(post.kcell(x)->0->Key_0@ == kv);
                assert(!post.key_is(x, kv2));
            }
        }
        lemma_no_key_probe_misses(pre, kv2, i, f);
        lemma_no_key_probe_misses(post, kv2, next_slot(i, len), (f - 1) as nat);
        return ;
    }
    if pre.key_absent(i) || pre.key_is(i, kv2) || pre.key_tomb(i) {
        return ;
    }
    // A mismatching key cell, away from the claimed slot: both walks
    // step on together.
    if b == 0 {
        assert forall|x: int| 0 <= x < len implies !(#[trigger] pre.key_is(x, kv2)) by {
            if pre.key_is(x, kv2) {
                assert(pre.reachable_clear(i, x, 0nat));
                assert(false);
            }
        }
        assert forall|x: int| 0 <= x < len implies !(#[trigger] post.key_is(x, kv2)) by {
            if x != j {
                assert(post.kcell(x) == pre.kcell(x));
                assert(!pre.key_is(x, kv2));
                assert(!post.key_is(x, kv2));
            } else {
                assert(post.kcell(x)->0->Key_0@ == kv);
                assert(!post.key_is(x, kv2));
            }
        }
        lemma_no_key_probe_misses(pre, kv2, i, f);
        lemma_no_key_probe_misses(post, kv2, i, f);
        return ;
    }
    assert forall|x: int|
        0 <= x < len && #[trigger] pre.key_is(x, kv2) implies pre.reachable_clear(
        next_slot(i, len),
        x,
        (b - 1) as nat,
    ) by {
        assert(pre.reachable_clear(i, x, b));
        assert(x != i);
    }
    lemma_claim_frame_probe(pre, post, kv, kv2, j, next_slot(i, len), (f - 1) as nat, (b
        - 1) as nat);
}

/// The whole-table form: after a fresh slot is claimed for `kv` and a
/// live value installed there, every other key's lookup is unchanged.
pub proof fn lemma_claim_frame<K: MapKey, V: MapValue>(
    pre: &KVs<K, V>,
    post: &KVs<K, V>,
    kv: K::V,
    kv2: K::V,
    j: int,
)
    requires
        pre.wf_local(),
        post.spec_len() == pre.spec_len(),
        pre.settled(),
        post.settled(),
        forall|x: int| 0 <= x < pre.spec_len() ==> !(#[trigger] pre.key_tomb(x)),
        forall|x: int|
            0 <= x < pre.spec_len() && x != j ==> #[trigger] post.kcell(x) == pre.kcell(x)
                && post.vcell(x) == pre.vcell(x),
        pre.kcell(j) is None,
        0 <= j < pre.spec_len(),
        post.kcell(j) matches Some(KeyHolder::Key(k)) && k@ == kv,
        kv2 != kv,
    ensures
        post.chain_lookup(kv2) == pre.chain_lookup(kv2),
{
    let home2 = pre.home_slot(K::hash_of(kv2));
    assert forall|x: int|
        0 <= x < pre.spec_len() && #[trigger] pre.key_is(x, kv2) implies pre.reachable_clear(
        home2,
        x,
        reach_fuel(pre.spec_len()),
    ) by {
        let k2 = pre.kcell(x)->0->Key_0;
        assert(pre.kcell(x) matches Some(KeyHolder::Key(k)) && k@ == kv2);
        assert(pre.reachable_clear(pre.home_slot(K::hash_of(k2@)), x, reach_fuel(pre.spec_len())));
    }
    lemma_claim_frame_probe(
        pre,
        post,
        kv,
        kv2,
        j,
        home2,
        pre.spec_reprobe_limit(),
        reach_fuel(pre.spec_len()),
    );
}

/// When the copy counter has reached the table length, every slot
/// really is retired.
proof fn lemma_count_full<K: MapKey, V: MapValue>(t: &KVs<K, V>, n: int)
    requires
        t.count_retired(n) == n,
        n >= 0,
    ensures
        forall|i: int| 0 <= i < n ==> t.retired(i),
    decreases n,
{
    if n > 0 {
        lemma_counts_bounded(t, n - 1);
        lemma_count_full(t, n - 1);
    }
}

/// A slot that carries a value makes the live count positive.
pub proof fn lemma_count_lives_at_least<K: MapKey, V: MapValue>(t: &KVs<K, V>, j: int, n: int)
    requires
        0 <= j < n,
        carries_value(t.vcell(j)),
    ensures
        t.count_lives(n) >= 1,
    decreases n,
{
    lemma_counts_bounded(t, n - 1);
    if j < n - 1 {
        lemma_count_lives_at_least(t, j, n - 1);
    }
}

/// When every slot is retired, the retired count is full.
pub proof fn lemma_count_all_retired<K: MapKey, V: MapValue>(t: &KVs<K, V>, n: int)
    requires
        forall|i: int| 0 <= i < n ==> #[trigger] t.retired(i),
    ensures
        t.count_retired(n) == if n >= 0 {
            n
        } else {
            0
        },
    decreases n,
{
    if n > 0 {
        lemma_count_all_retired(t, n - 1);
    }
}

/// In a fully retired table every probe hands the lookup on to the
/// successor: no slot can answer for a key any more.
proof fn lemma_retired_probe_next<K: MapKey, V: MapValue>(
    t: &KVs<K, V>,
    kv: K::V,
    i: int,
    fuel: nat,
)
    requires
        t.wf_local(),
        t._chm._newkvs is Some,
        forall|x: int| 0 <= x < t.spec_len() ==> t.retired(x),
        0 <= i < t.spec_len(),
    ensures
        t.get_probe(kv, i, fuel) == LookupStep::<V::V>::NextTable,
    decreases fuel,
{
    assert(t.retired(i));
    if t.key_absent(i) {
        assert(t.vcell(i) is None);
        assert(false);
    } else if t.key_is(i, kv) {
        assert(!t.key_tomb(i));
    } else if fuel <= 1 || t.key_tomb(i) {
    } else {
        lemma_retired_probe_next(t, kv, next_slot(i, t.spec_len()), (fuel - 1) as nat);
    }
}

/// Promotion preserves every lookup: once every slot of a table is
/// migrated, the table reads exactly as its successor does, so moving
/// the current-table pointer forward changes no answer.
pub proof fn lemma_promotion_preserves_lookup<K: MapKey, V: MapValue>(t: &KVs<K, V>, kv: K::V)
    requires
        t.wf(),
        t._chm._newkvs is Some,
        t._chm._copy_done == t.spec_len(),
    ensures
        t.chain_lookup(kv) == t._chm._newkvs->0.chain_lookup(kv),
{
    lemma_count_full(t, t.spec_len());
    lemma_home_in_range(t, K::hash_of(kv));
    lemma_retired_probe_next(t, kv, t.home_slot(K::hash_of(kv)), t.spec_reprobe_limit());
}

/// An insert probe walking a clear path to a slot that holds its key
/// finds that key, or one equal to it, before its budget runs out.
proof fn lemma_walk_finds<K: MapKey, V: MapValue>(
    t: &KVs<K, V>,
    kv: K::V,
    x: int,
    i: int,
    b: nat,
    fuel: nat,
)
    requires
        t.reachable_clear(i, x, b),
        t.key_is(x, kv),
        0 <= x < t.spec_len(),
        0 <= i < t.spec_len(),
        fuel >= b + 1,
    ensures
        t.put_probe(kv, i, fuel) is FoundAt,
    decreases b,
{
    if i == x {
    } else if t.key_is(i, kv) {
    } else {
        lemma_walk_finds(t, kv, x, next_slot(i, t.spec_len()), (b - 1) as nat, (fuel - 1) as nat);
    }
}

/// A key the table already maps is always found again: its insert
/// probe settles on a slot holding the key and never runs out of
/// budget. Overwriting or deleting a present key therefore always
/// acts in place.
pub proof fn lemma_present_key_found<K: MapKey, V: MapValue>(t: &KVs<K, V>, kv: K::V)
    requires
        t.wf_local(),
        t.settled(),
        t.chain_lookup(kv) is Some,
    ensures
        t.put_locate(kv) is FoundAt,
{
    lemma_no_fabrication(t, kv);
    let vv = t.chain_lookup(kv)->0;
    let x = choose|i: int|
        0 <= i < t.spec_len() && #[trigger] t.key_is(i, kv) && (match t.vcell(i) {
            Some(ValueHolder::Value(v)) => v@ == vv,
            Some(ValueHolder::Prime(inner)) => (*inner) matches ValueHolder::Value(v) && v@ == vv,
            _ => false,
        });
    let k2 = t.kcell(x)->0->Key_0;
    assert(t.reachable_clear(t.home_slot(K::hash_of(k2@)), x, reach_fuel(t.spec_len())));
    lemma_home_in_range(t, K::hash_of(kv));
    lemma_walk_finds(
        t,
        kv,
        x,
        t.home_slot(K::hash_of(kv)),
        reach_fuel(t.spec_len()),
        t.spec_reprobe_limit(),
    );
}

/// Two table states with the same slot arrays agree on every
/// cell-level predicate; a change confined to the control block
/// changes no cell.
pub proof fn lemma_cells_unchanged<K: MapKey, V: MapValue>(a: &KVs<K, V>, b: &KVs<K, V>)
    requires
        b._ks@ == a._ks@,
        b._vs@ == a._vs@,
    ensures
        forall|x: int| #[trigger] b.kcell(x) == a.kcell(x),
        forall|x: int| #[trigger] b.vcell(x) == a.vcell(x),
        forall|x: int| #[trigger] b.retired(x) == a.retired(x),
        forall|x: int| #[trigger] b.val_primed(x) == a.val_primed(x),
        forall|x: int| #[trigger] b.key_absent(x) == a.key_absent(x),
{
}

/// After a plain insert, a table answers the key itself — with the
/// new value, or with nothing after a delete — or hands the key to
/// its successor; it never keeps answering with a stale value.
pub open spec fn answers_or_defers<K: MapKey, V: MapValue>(
    post: KVs<K, V>,
    kv: K::V,
    putval: ValueHolder<V>,
) -> bool {
    ||| (putval matches ValueHolder::Value(v) && post.chain_lookup(kv) == Some(v@))
    ||| (putval is Tombstone && post.chain_lookup(kv) is None)
    ||| (post._chm._newkvs is Some && post.chain_lookup(kv) == post._chm._newkvs->0.chain_lookup(
        kv,
    ))
}

/// A lookup that follows an insert probe's path to the key's own slot
/// either reads that slot or hands the key on to the successor; the
/// mismatching prefix cannot answer.
pub proof fn lemma_located_probe<K: MapKey, V: MapValue>(
    pre: &KVs<K, V>,
    post: &KVs<K, V>,
    kv: K::V,
    j: int,
    i: int,
    fuel_p: nat,
    fuel_g: nat,
)
    requires
        post.spec_len() == pre.spec_len(),
        forall|x: int|
            0 <= x < pre.spec_len() && !pre.key_absent(x) ==> #[trigger] post.kcell(x)
                == pre.kcell(x),
        pre.put_probe(kv, i, fuel_p) == PutSlot::ClaimAt(j) || pre.put_probe(kv, i, fuel_p)
            == PutSlot::FoundAt(j),
        post.key_is(j, kv),
        post._chm._newkvs is Some,
    ensures
        post.get_probe(kv, i, fuel_g) == slot_outcome(post, j) || post.get_probe(kv, i, fuel_g)
            == LookupStep::<V::V>::NextTable,
    decreases fuel_p,
{
    if !(0 <= i < pre.spec_len()) {
    } else if i == j {
    } else if pre.key_absent(i) {
    } else if pre.key_is(i, kv) {
    } else if fuel_g <= 1 || post.key_tomb(i) {
    } else {
        lemma_located_probe(pre, post, kv, j, next_slot(i, pre.spec_len()), (fuel_p - 1) as nat, (
        fuel_g - 1) as nat);
    }
}

/// A lookup that follows an insert probe's path to a slot that stayed
/// free never finds the key: it reports the key missing or hands it
/// on.
pub proof fn lemma_claim_path_not_found<K: MapKey, V: MapValue>(
    pre: &KVs<K, V>,
    post: &KVs<K, V>,
    kv: K::V,
    j: int,
    i: int,
    fuel_p: nat,
    fuel_g: nat,
)
    requires
        post.spec_len() == pre.spec_len(),
        forall|x: int|
            0 <= x < pre.spec_len() && !pre.key_absent(x) ==> #[trigger] post.kcell(x)
                == pre.kcell(x),
        pre.put_probe(kv, i, fuel_p) == PutSlot::ClaimAt(j),
        post.kcell(j) == pre.kcell(j),
    ensures
        post.get_probe(kv, i, fuel_g) == LookupStep::<V::V>::Missing || post.get_probe(
            kv,
            i,
            fuel_g,
        ) == LookupStep::<V::V>::NextTable,
    decreases fuel_p,
{
    if !(0 <= i < pre.spec_len()) {
    } else if pre.key_absent(i) {
        // the probe claims here, so j == i and the slot is still free
    } else if pre.key_is(i, kv) {
        // the probe would have found the key: contradicts ClaimAt
    } else if fuel_g <= 1 || post.key_tomb(i) {
    } else {
        lemma_claim_path_not_found(pre, post, kv, j, next_slot(i, pre.spec_len()), (fuel_p
            - 1) as nat, (fuel_g - 1) as nat);
    }
}

/// Distinct powers of two are at least a factor of two apart.
pub proof fn lemma_pow2_double(a: int, b: int)
    requires
        is_pow2(a),
        is_pow2(b),
        a < b,
    ensures
        2 * a <= b,
    decreases b,
{
    if a > 1 {
        lemma_pow2_double(a / 2, b / 2);
    }
}

/// A change confined to the control block — a new successor, a moved
/// copy cursor, or a bumped copy counter — keeps the table
/// structurally healthy, as long as the changed fields stay in their
/// lanes.
pub proof fn lemma_wf_local_chm_change<K: MapKey, V: MapValue>(pre: &KVs<K, V>, post: &KVs<K, V>)
    requires
        pre.wf_local(),
        post.spec_len() == pre.spec_len(),
        post._vs@ == pre._vs@,
        post._ks@ == pre._ks@,
        post._hashes@.len() == pre._hashes@.len(),
        post._chm._slots == pre._chm._slots,
        post._chm._copy_idx <= 3 * post.spec_len(),
        post._chm._copy_done <= post.spec_len(),
        post._chm._resizer <= 1,
        (post._chm._newkvs is Some) == (post._chm._resizer == 1),
        post._chm._newkvs is None ==> pre._chm._newkvs is None,
    ensures
        post.wf_local(),
        post.count_keyed(post.spec_len()) == pre.count_keyed(pre.spec_len()),
        post.count_retired(post.spec_len()) == pre.count_retired(pre.spec_len()),
        post.count_lives(post.spec_len()) == pre.count_lives(pre.spec_len()),
{
    let n = pre.spec_len();
    lemma_counts_update(pre, post, -1, n);
    assert forall|i: int|
        0 <= i < n implies ((#[trigger] post.kcell(i)) matches Some(KeyHolder::Key(k))
            ==> post.reachable_clear(post.home_slot(K::hash_of(k@)), i, reach_fuel(
            post.spec_len()))) by {
        if post.kcell(i) matches Some(KeyHolder::Key(_)) {
            let k = post.kcell(i)->0->Key_0;
            assert(pre.kcell(i) == post.kcell(i));
            lemma_home_in_range(pre, K::hash_of(k@));
            lemma_reachable_mono(pre, post, pre.home_slot(K::hash_of(k@)), i, reach_fuel(
                pre.spec_len()));
        }
    }
    assert forall|i: int|
        0 <= i < n implies ((#[trigger] post.vcell(i)) matches Some(h) ==> h.holder_wf()) by {
        assert(post.vcell(i) == pre.vcell(i));
    }
    assert forall|i: int|
        0 <= i < n && !(#[trigger] post.kcell(i) matches Some(KeyHolder::Key(_))) implies post.vcell(
        i) is None by {
        assert(post.kcell(i) == pre.kcell(i));
        assert(!(pre.kcell(i) matches Some(KeyHolder::Key(_))) ==> pre.vcell(i) is None);
        assert(post.vcell(i) == pre.vcell(i));
    }
    if post._chm._newkvs is None {
        assert forall|i: int|
            0 <= i < n implies !(#[trigger] post.val_primed(i)) && !post.key_tomb(i) by {
            assert(post.kcell(i) == pre.kcell(i));
            assert(post.vcell(i) == pre.vcell(i));
            assert(!pre.val_primed(i));
            assert(!pre.key_tomb(i));
        }
    }
}

impl<K, V> CHM<K, V> {
    /// A fresh control block: no successor, all counters zero.
    pub fn new() -> (r: CHM<K, V>)
        ensures
            r._newkvs is None,
            r._size == 0,
            r._slots == 0,
            r._copy_done == 0,
            r._copy_idx == 0,
            r._resizer == 0,
    {
        CHM {
            _newkvs: None,
            _size: 0,
            _slots: 0,
            _copy_done: 0,
            _copy_idx: 0,
            _resizer: 0,
        }
    }

    pub fn get_newkvs_nonatomic(&self) -> (r: &Option<Box<KVs<K, V>>>)
        ensures
            *r == self._newkvs,
    {
        &self._newkvs
    }
}

} // verus!
