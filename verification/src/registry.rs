//! The target registry: the one shared structure of the service. It maps a
//! target's path to its configuration and live scheduling state — the
//! in-flight flag that enforces single-flight commits, and the handle of
//! the running per-target task. The embedding service serializes access;
//! this module supplies the state transitions and their guarantees.

use vstd::prelude::*;

use crate::config::{TargetConfig, TargetConfigView};

verus! {

/// The mathematical value of a [`TargetState`].
pub struct TargetStateView {
    pub config: TargetConfigView,
    pub in_flight: bool,
    pub task_handle: Option<u64>,
}

/// The live state of one registered target.
pub struct TargetState {
    /// The target's current configuration.
    pub config: TargetConfig,
    /// True while a commit cycle is executing for this target.
    pub in_flight: bool,
    /// The identifier of the running per-target task, when one is running.
    pub task_handle: Option<u64>,
}

impl View for TargetState {
    type V = TargetStateView;

    open spec fn view(&self) -> TargetStateView {
        TargetStateView {
            config: self.config@,
            in_flight: self.in_flight,
            task_handle: self.task_handle,
        }
    }
}

struct RegistryEntry {
    key: String,
    state: TargetState,
}

/// No two entries share a key.
spec fn wf_entries(es: Seq<RegistryEntry>) -> bool {
    forall|i: int, j: int|
        0 <= i < j < es.len() ==> (#[trigger] es[i]).key@ != (#[trigger] es[j]).key@
}

/// The unique index of the entry with the given key.
spec fn entry_index(es: Seq<RegistryEntry>, k: Seq<char>) -> int {
    choose|i: int| 0 <= i < es.len() && (#[trigger] es[i]).key@ == k
}

/// The map from keys to target states that a sequence of entries holds.
spec fn map_of(es: Seq<RegistryEntry>) -> Map<Seq<char>, TargetStateView> {
    Map::new(
        |k: Seq<char>| exists|i: int| 0 <= i < es.len() && (#[trigger] es[i]).key@ == k,
        |k: Seq<char>| es[entry_index(es, k)].state@,
    )
}

proof fn lemma_entry_index(es: Seq<RegistryEntry>, i: int)
    requires
        wf_entries(es),
        0 <= i < es.len(),
    ensures
        entry_index(es, es[i].key@) == i,
        map_of(es).dom().contains(es[i].key@),
        map_of(es)[es[i].key@] == es[i].state@,
{
    let k = es[i].key@;
    assert(0 <= i < es.len() && es[i].key@ == k);
    let j = entry_index(es, k);
    if j != i {
        if j < i {
            assert(es[j].key@ != es[i].key@);
        } else {
            assert(es[i].key@ != es[j].key@);
        }
    }
}

proof fn lemma_no_key(es: Seq<RegistryEntry>, k: Seq<char>)
    requires
        forall|i: int| 0 <= i < es.len() ==> (#[trigger] es[i]).key@ != k,
    ensures
        !map_of(es).dom().contains(k),
{
}

proof fn lemma_view_update(es: Seq<RegistryEntry>, es2: Seq<RegistryEntry>, i: int)
    requires
        wf_entries(es),
        0 <= i < es.len(),
        es2.len() == es.len(),
        forall|j: int| 0 <= j < es.len() && j != i ==> es2[j] == es[j],
        es2[i].key@ == es[i].key@,
    ensures
        wf_entries(es2),
        map_of(es2) =~= map_of(es).insert(es[i].key@, es2[i].state@),
{
    let k0 = es[i].key@;
    assert forall|a: int, b: int| 0 <= a < b < es2.len() implies (#[trigger] es2[a]).key@ != (
    #[trigger] es2[b]).key@ by {
        assert(es2[a].key@ == es[a].key@ && es2[b].key@ == es[b].key@);
    }
    assert forall|k: Seq<char>|
        map_of(es2).dom().contains(k) == map_of(es).insert(k0, es2[i].state@).dom().contains(
            k,
        ) by {
        if exists|a: int| 0 <= a < es2.len() && (#[trigger] es2[a]).key@ == k {
            let a = choose|a: int| 0 <= a < es2.len() && (#[trigger] es2[a]).key@ == k;
            assert(es[a].key@ == k);
        }
        if exists|a: int| 0 <= a < es.len() && (#[trigger] es[a]).key@ == k {
            let a = choose|a: int| 0 <= a < es.len() && (#[trigger] es[a]).key@ == k;
            assert(es2[a].key@ == k);
        }
    }
    assert forall|k: Seq<char>| map_of(es2).dom().contains(k) implies map_of(es2)[k] == map_of(
        es,
    ).insert(k0, es2[i].state@)[k] by {
        let a = choose|a: int| 0 <= a < es2.len() && (#[trigger] es2[a]).key@ == k;
        lemma_entry_index(es2, a);
        if k == k0 {
            if a != i {
                assert(es2[a].key@ == es[a].key@);
                lemma_entry_index(es, a);
                assert(false);
            }
            assert(map_of(es2)[k] == es2[i].state@);
        } else {
            assert(a != i);
            assert(es[a].key@ == k);
            lemma_entry_index(es, a);
            assert(map_of(es2)[k] == es2[a].state@);
            assert(map_of(es)[k] == es[a].state@);
        }
    }
}

proof fn lemma_view_push(es: Seq<RegistryEntry>, e: RegistryEntry)
    requires
        wf_entries(es),
        forall|i: int| 0 <= i < es.len() ==> (#[trigger] es[i]).key@ != e.key@,
    ensures
        wf_entries(es.push(e)),
        map_of(es.push(e)) =~= map_of(es).insert(e.key@, e.state@),
{
    let es2 = es.push(e);
    assert forall|a: int, b: int| 0 <= a < b < es2.len() implies (#[trigger] es2[a]).key@ != (
    #[trigger] es2[b]).key@ by {
        if b < es.len() {
            assert(es2[a] == es[a] && es2[b] == es[b]);
        } else {
            assert(es2[b] == e);
            assert(es2[a] == es[a]);
        }
    }
    assert forall|k: Seq<char>|
        map_of(es2).dom().contains(k) == map_of(es).insert(e.key@, e.state@).dom().contains(
            k,
        ) by {
        if exists|a: int| 0 <= a < es2.len() && (#[trigger] es2[a]).key@ == k {
            let a = choose|a: int| 0 <= a < es2.len() && (#[trigger] es2[a]).key@ == k;
            if a < es.len() {
                assert(es[a].key@ == k);
            }
        }
        if exists|a: int| 0 <= a < es.len() && (#[trigger] es[a]).key@ == k {
            let a = choose|a: int| 0 <= a < es.len() && (#[trigger] es[a]).key@ == k;
            assert(es2[a].key@ == k);
        }
        if k == e.key@ {
            assert(es2[es.len() as int].key@ == k);
        }
    }
    assert forall|k: Seq<char>| map_of(es2).dom().contains(k) implies map_of(es2)[k] == map_of(
        es,
    ).insert(e.key@, e.state@)[k] by {
        let a = choose|a: int| 0 <= a < es2.len() && (#[trigger] es2[a]).key@ == k;
        lemma_entry_index(es2, a);
        if k == e.key@ {
            if a < es.len() {
                assert(es[a].key@ == k);
                assert(false);
            }
            assert(map_of(es2)[k] == e.state@);
        } else {
            assert(a < es.len());
            lemma_entry_index(es, a);
            assert(map_of(es2)[k] == es2[a].state@);
            assert(es2[a] == es[a]);
            assert(map_of(es)[k] == es[a].state@);
        }
    }
}

proof fn lemma_view_remove(es: Seq<RegistryEntry>, i: int)
    requires
        wf_entries(es),
        0 <= i < es.len(),
    ensures
        wf_entries(es.remove(i)),
        map_of(es.remove(i)) =~= map_of(es).remove(es[i].key@),
{
    let k0 = es[i].key@;
    let es2 = es.remove(i);
    assert forall|a: int, b: int| 0 <= a < b < es2.len() implies (#[trigger] es2[a]).key@ != (
    #[trigger] es2[b]).key@ by {
        let a0 = if a < i {
            a
        } else {
            a + 1
        };
        let b0 = if b < i {
            b
        } else {
            b + 1
        };
        assert(es2[a] == es[a0] && es2[b] == es[b0]);
    }
    assert forall|k: Seq<char>|
        map_of(es2).dom().contains(k) == map_of(es).remove(k0).dom().contains(k) by {
        if exists|a: int| 0 <= a < es2.len() && (#[trigger] es2[a]).key@ == k {
            let a = choose|a: int| 0 <= a < es2.len() && (#[trigger] es2[a]).key@ == k;
            let a0 = if a < i {
                a
            } else {
                a + 1
            };
            assert(es[a0].key@ == k);
            if k == k0 {
                lemma_entry_index(es, i);
                lemma_entry_index(es, a0);
                assert(false);
            }
        }
        if k != k0 && (exists|a: int| 0 <= a < es.len() && (#[trigger] es[a]).key@ == k) {
            let a = choose|a: int| 0 <= a < es.len() && (#[trigger] es[a]).key@ == k;
            assert(a != i);
            let a2 = if a < i {
                a
            } else {
                a - 1
            };
            assert(es2[a2].key@ == k);
        }
    }
    assert forall|k: Seq<char>| map_of(es2).dom().contains(k) implies map_of(es2)[k] == map_of(
        es,
    ).remove(k0)[k] by {
        let a = choose|a: int| 0 <= a < es2.len() && (#[trigger] es2[a]).key@ == k;
        lemma_entry_index(es2, a);
        let a0 = if a < i {
            a
        } else {
            a + 1
        };
        assert(es2[a] == es[a0]);
        lemma_entry_index(es, a0);
        assert(map_of(es2)[k] == es2[a].state@);
        assert(map_of(es)[k] == es[a0].state@);
    }
}

/// The registry itself: a set of targets keyed by path. Its value is the
/// map from each registered key to that target's state.
pub struct Registry {
    entries: Vec<RegistryEntry>,
}

impl View for Registry {
    type V = Map<Seq<char>, TargetStateView>;

    closed spec fn view(&self) -> Map<Seq<char>, TargetStateView> {
        map_of(self.entries@)
    }
}

impl Registry {
    /// The registry's internal well-formedness: one entry per key.
    pub closed spec fn wf(&self) -> bool {
        wf_entries(self.entries@)
    }

    /// An empty registry.
    pub fn new() -> (r: Registry)
        ensures
            r.wf(),
            r@ =~= Map::<Seq<char>, TargetStateView>::empty(),
    {
        let r = Registry { entries: Vec::new() };
        proof {
            assert(r.entries@.len() == 0);
            assert forall|k: Seq<char>| !r@.dom().contains(k) by {
                lemma_no_key(r.entries@, k);
            }
        }
        r
    }

    /// Finds the position of a key, scanning the entries.
    fn position_of(&self, key: &String) -> (r: Option<usize>)
        ensures
            match r {
                Option::Some(i) => i < self.entries@.len() && self.entries@[i as int].key@ == key@,
                Option::None => forall|i: int|
                    0 <= i < self.entries@.len() ==> (#[trigger] self.entries@[i]).key@ != key@,
            },
    {
        let mut i: usize = 0;
        while i < self.entries.len()
            invariant
                i <= self.entries.len(),
                forall|j: int| 0 <= j < i ==> (#[trigger] self.entries@[j]).key@ != key@,
            decreases self.entries.len() - i,
        {
            if self.entries[i].key.eq(key) {
                return Some(i);
            }
            i = i + 1;
        }
        None
    }

    /// Whether a target with this key is registered.
    pub fn contains_key(&self, key: &String) -> (r: bool)
        ensures
            r == self@.dom().contains(key@),
    {
        match self.position_of(key) {
            Some(i) => {
                proof {
                    assert(self.entries@[i as int].key@ == key@);
                }
                true
            },
            None => {
                proof {
                    lemma_no_key(self.entries@, key@);
                }
                false
            },
        }
    }

    /// The registered interval of a target, when it is registered.
    pub fn interval_of(&self, key: &String) -> (r: Option<u64>)
        requires
            self.wf(),
        ensures
            match r {
                Option::Some(iv) => {
                    &&& self@.dom().contains(key@)
                    &&& iv == self@[key@].config.interval_seconds
                },
                Option::None => !self@.dom().contains(key@),
            },
    {
        match self.position_of(key) {
            Some(i) => {
                proof {
                    lemma_entry_index(self.entries@, i as int);
                }
                Some(self.entries[i].state.config.interval_seconds)
            },
            None => {
                proof {
                    lemma_no_key(self.entries@, key@);
                }
                None
            },
        }
    }

    /// Atomically tests and sets the in-flight flag: returns true — and
    /// marks the target in flight — only when the target is registered and
    /// no commit is in flight for it. This is the single-flight guard: of
    /// two attempts for one key, at most one can be granted until `end`
    /// clears the flag.
    pub fn try_begin(&mut self, key: &String) -> (r: bool)
        requires
            old(self).wf(),
        ensures
            final(self).wf(),
            r == begin_granted(old(self)@, key@),
            r ==> final(self)@ =~= after_begin(old(self)@, key@),
            !r ==> final(self)@ =~= old(self)@,
    {
        let ghost es = self.entries@;
        match self.position_of(key) {
            Some(i) => {
                proof {
                    lemma_entry_index(es, i as int);
                }
                if self.entries[i].state.in_flight {
                    false
                } else {
                    self.entries[i].state.in_flight = true;
                    proof {
                        lemma_view_update(es, self.entries@, i as int);
                    }
                    true
                }
            },
            None => {
                proof {
                    lemma_no_key(es, key@);
                }
                false
            },
        }
    }

    /// Clears the in-flight flag for a target; a no-op when the key is
    /// absent. The scheduler calls this after every commit cycle, whatever
    /// its outcome, so the flag never outlives the cycle it covers.
    pub fn end(&mut self, key: &String)
        requires
            old(self).wf(),
        ensures
            final(self).wf(),
            old(self)@.dom().contains(key@) ==> final(self)@ =~= after_end(old(self)@, key@),
            !old(self)@.dom().contains(key@) ==> final(self)@ =~= old(self)@,
    {
        let ghost es = self.entries@;
        match self.position_of(key) {
            Some(i) => {
                proof {
                    lemma_entry_index(es, i as int);
                }
                self.entries[i].state.in_flight = false;
                proof {
                    lemma_view_update(es, self.entries@, i as int);
                }
            },
            None => {
                proof {
                    lemma_no_key(es, key@);
                }
            },
        }
    }

    /// Registers a target under a key, replacing any previous entry for
    /// it. The new entry starts with a clear in-flight flag.
    pub fn insert(&mut self, key: String, config: TargetConfig, task_handle: Option<u64>)
        requires
            old(self).wf(),
        ensures
            final(self).wf(),
            final(self)@ =~= old(self)@.insert(
                key@,
                (TargetStateView { config: config@, in_flight: false, task_handle }),
            ),
    {
        let ghost es = self.entries@;
        let state = TargetState { config, in_flight: false, task_handle };
        match self.position_of(&key) {
            Some(i) => {
                proof {
                    lemma_entry_index(es, i as int);
                }
                self.entries[i] = RegistryEntry { key, state };
                proof {
                    lemma_view_update(es, self.entries@, i as int);
                }
            },
            None => {
                let e = RegistryEntry { key, state };
                self.entries.push(e);
                proof {
                    lemma_view_push(es, self.entries@.last());
                    assert(es.push(self.entries@.last()) =~= self.entries@);
                }
            },
        }
    }

    /// Unregisters a target and hands back the handle of its task, for the
    /// caller to cancel; a no-op returning nothing when the key is absent.
    /// The handle is surrendered before the key disappears, so no task is
    /// orphaned by a removal.
    pub fn remove(&mut self, key: &String) -> (r: Option<u64>)
        requires
            old(self).wf(),
        ensures
            final(self).wf(),
            final(self)@ =~= old(self)@.remove(key@),
            r == if old(self)@.dom().contains(key@) {
                old(self)@[key@].task_handle
            } else {
                Option::<u64>::None
            },
    {
        let ghost es = self.entries@;
        match self.position_of(key) {
            Some(i) => {
                proof {
                    lemma_entry_index(es, i as int);
                }
                let e = self.entries.remove(i);
                proof {
                    lemma_view_remove(es, i as int);
                }
                e.state.task_handle
            },
            None => {
                proof {
                    lemma_no_key(es, key@);
                    assert(old(self)@.remove(key@) =~= old(self)@);
                }
                None
            },
        }
    }

    /// Records the handle of the task now running for a target; a no-op
    /// when the key is absent.
    pub fn set_task_handle(&mut self, key: &String, handle: u64)
        requires
            old(self).wf(),
        ensures
            final(self).wf(),
            old(self)@.dom().contains(key@) ==> final(self)@ =~= old(self)@.insert(
                key@,
                (TargetStateView { task_handle: Some(handle), ..old(self)@[key@] }),
            ),
            !old(self)@.dom().contains(key@) ==> final(self)@ =~= old(self)@,
    {
        let ghost es = self.entries@;
        match self.position_of(key) {
            Some(i) => {
                proof {
                    lemma_entry_index(es, i as int);
                }
                self.entries[i].state.task_handle = Some(handle);
                proof {
                    lemma_view_update(es, self.entries@, i as int);
                }
            },
            None => {
                proof {
                    lemma_no_key(es, key@);
                }
            },
        }
    }



    /// The current configuration of a target, when it is registered.
    pub fn config_of(&self, key: &String) -> (r: Option<TargetConfig>)
        requires
            self.wf(),
        ensures
            match r {
                Option::Some(c) => self@.dom().contains(key@) && c@ == self@[key@].config,
                Option::None => !self@.dom().contains(key@),
            },
    {
        match self.position_of(key) {
            Some(i) => {
                proof {
                    lemma_entry_index(self.entries@, i as int);
                }
                Some(self.entries[i].state.config.clone())
            },
            None => {
                proof {
                    lemma_no_key(self.entries@, key@);
                }
                None
            },
        }
    }

    /// The recorded task handle of a target, when it is registered.
    pub fn task_handle_of(&self, key: &String) -> (r: Option<Option<u64>>)
        requires
            self.wf(),
        ensures
            match r {
                Option::Some(h) => self@.dom().contains(key@) && h == self@[key@].task_handle,
                Option::None => !self@.dom().contains(key@),
            },
    {
        match self.position_of(key) {
            Some(i) => {
                proof {
                    lemma_entry_index(self.entries@, i as int);
                }
                Some(self.entries[i].state.task_handle)
            },
            None => {
                proof {
                    lemma_no_key(self.entries@, key@);
                }
                None
            },
        }
    }

    /// The in-flight flag of a target, when it is registered.
    pub fn in_flight_of(&self, key: &String) -> (r: Option<bool>)
        requires
            self.wf(),
        ensures
            match r {
                Option::Some(b) => self@.dom().contains(key@) && b == self@[key@].in_flight,
                Option::None => !self@.dom().contains(key@),
            },
    {
        match self.position_of(key) {
            Some(i) => {
                proof {
                    lemma_entry_index(self.entries@, i as int);
                }
                Some(self.entries[i].state.in_flight)
            },
            None => {
                proof {
                    lemma_no_key(self.entries@, key@);
                }
                None
            },
        }
    }

    /// The registered keys, each exactly once.
    pub fn keys(&self) -> (r: Vec<String>)
        requires
            self.wf(),
        ensures
            forall|i: int| 0 <= i < r.deep_view().len() ==> self@.dom().contains(
                #[trigger] r.deep_view()[i],
            ),
            forall|k: Seq<char>| self@.dom().contains(k) ==> r.deep_view().contains(k),
            forall|i: int, j: int|
                0 <= i < j < r.deep_view().len() ==> r.deep_view()[i] != r.deep_view()[j],
    {
        let mut r: Vec<String> = Vec::new();
        let mut i: usize = 0;
        while i < self.entries.len()
            invariant
                self.wf(),
                i <= self.entries.len(),
                r.deep_view().len() == i,
                forall|j: int| 0 <= j < i ==> #[trigger] r.deep_view()[j] == self.entries@[j].key@,
            decreases self.entries.len() - i,
        {
            let ghost before = r.deep_view();
            r.push(self.entries[i].key.clone());
            proof {
                assert(r.deep_view() =~= before.push(self.entries@[i as int].key@));
            }
            i = i + 1;
        }
        proof {
            assert forall|k: Seq<char>| self@.dom().contains(k) implies r.deep_view().contains(
                k,
            ) by {
                let a = choose|a: int|
                    0 <= a < self.entries@.len() && (#[trigger] self.entries@[a]).key@ == k;
                assert(r.deep_view()[a] == k);
            }
            assert forall|a: int| 0 <= a < r.deep_view().len() implies self@.dom().contains(
                #[trigger] r.deep_view()[a],
            ) by {
                lemma_entry_index(self.entries@, a);
            }
        }
        r
    }

    /// Takes every recorded task handle out of the registry and returns
    /// them all: afterwards no entry holds a handle, and every handle that
    /// was held is in the result, for the caller to cancel. Specs and
    /// in-flight flags are untouched.
    pub fn take_all_handles(&mut self) -> (r: Vec<u64>)
        requires
            old(self).wf(),
        ensures
            final(self).wf(),
            final(self)@.dom() =~= old(self)@.dom(),
            forall|k: Seq<char>| #![trigger final(self)@[k]]
                old(self)@.dom().contains(k) ==> final(self)@[k] == (TargetStateView {
                    task_handle: Option::<u64>::None,
                    ..old(self)@[k]
                }),
            forall|k: Seq<char>| #![trigger old(self)@[k].task_handle]
                old(self)@.dom().contains(k) ==> match old(self)@[k].task_handle {
                    Option::Some(h) => r@.contains(h),
                    Option::None => true,
                },
    {
        let ghost es0 = self.entries@;
        let mut r: Vec<u64> = Vec::new();
        let mut i: usize = 0;
        while i < self.entries.len()
            invariant
                wf_entries(self.entries@),
                i <= self.entries.len(),
                self.entries@.len() == es0.len(),
                forall|j: int| 0 <= j < es0.len() ==> (#[trigger] self.entries@[j]).key@
                    == es0[j].key@,
                forall|j: int| i <= j < es0.len() ==> #[trigger] self.entries@[j] == es0[j],
                forall|j: int| 0 <= j < i ==> (#[trigger] self.entries@[j]).state@
                    == (TargetStateView {
                    task_handle: Option::<u64>::None,
                    ..es0[j].state@
                }),
                forall|j: int| 0 <= j < i ==> match (#[trigger] es0[j].state@).task_handle {
                    Option::Some(h) => r@.contains(h),
                    Option::None => true,
                },
            decreases self.entries.len() - i,
        {
            let ghost rv = r@;
            match self.entries[i].state.task_handle {
                Some(h) => {
                    r.push(h);
                    proof {
                        assert(r@ =~= rv.push(h));
                        assert forall|j: int|
                            0 <= j < i implies match (#[trigger] es0[j].state@).task_handle {
                            Option::Some(h2) => r@.contains(h2),
                            Option::None => true,
                        } by {
                            match es0[j].state@.task_handle {
                                Option::Some(h2) => {
                                    let w = choose|w: int| 0 <= w < rv.len() && rv[w] == h2;
                                    assert(r@[w] == h2);
                                },
                                Option::None => {},
                            }
                        }
                        assert(r@[r@.len() - 1] == h);
                    }
                },
                None => {},
            }
            let ghost esb = self.entries@;
            self.entries[i].state.task_handle = None;
            proof {
                assert forall|a: int, b: int|
                    0 <= a < b < self.entries@.len() implies (#[trigger] self.entries@[a]).key@
                    != (#[trigger] self.entries@[b]).key@ by {
                    assert(self.entries@[a].key@ == esb[a].key@);
                    assert(self.entries@[b].key@ == esb[b].key@);
                }
            }
            i = i + 1;
        }
        proof {
            let es1 = self.entries@;
            assert forall|k: Seq<char>|
                map_of(es1).dom().contains(k) == map_of(es0).dom().contains(k) by {
                if exists|a: int| 0 <= a < es1.len() && (#[trigger] es1[a]).key@ == k {
                    let a = choose|a: int| 0 <= a < es1.len() && (#[trigger] es1[a]).key@ == k;
                    assert(es0[a].key@ == k);
                }
                if exists|a: int| 0 <= a < es0.len() && (#[trigger] es0[a]).key@ == k {
                    let a = choose|a: int| 0 <= a < es0.len() && (#[trigger] es0[a]).key@ == k;
                    assert(es1[a].key@ == k);
                }
            }
            assert(map_of(es1).dom() =~= map_of(es0).dom());
            assert(wf_entries(es0)) by {
                assert forall|x: int, y: int|
                    0 <= x < y < es0.len() implies (#[trigger] es0[x]).key@ != (
                #[trigger] es0[y]).key@ by {
                    assert(es1[x].key@ == es0[x].key@ && es1[y].key@ == es0[y].key@);
                }
            }
            assert forall|k: Seq<char>| #![trigger map_of(es1)[k]]
                map_of(es0).dom().contains(k) implies map_of(es1)[k] == (TargetStateView {
                task_handle: Option::<u64>::None,
                ..map_of(es0)[k]
            }) by {
                let a = choose|a: int| 0 <= a < es0.len() && (#[trigger] es0[a]).key@ == k;
                lemma_entry_index(es0, a);
                assert(es1[a].key@ == k);
                lemma_entry_index(es1, a);
            }
            assert forall|k: Seq<char>| #![trigger map_of(es0)[k].task_handle]
                map_of(es0).dom().contains(k) implies match map_of(es0)[k].task_handle {
                Option::Some(h) => r@.contains(h),
                Option::None => true,
            } by {
                let a = choose|a: int| 0 <= a < es0.len() && (#[trigger] es0[a]).key@ == k;
                lemma_entry_index(es0, a);
            }
        }
        r
    }
}

/// Whether a commit attempt would be granted for this key: the target is
/// registered and nothing is in flight for it.
pub open spec fn begin_granted(m: Map<Seq<char>, TargetStateView>, k: Seq<char>) -> bool {
    m.dom().contains(k) && !m[k].in_flight
}

/// The registry after a granted begin: the key's in-flight flag is set.
pub open spec fn after_begin(m: Map<Seq<char>, TargetStateView>, k: Seq<char>) -> Map<
    Seq<char>,
    TargetStateView,
> {
    m.insert(k, (TargetStateView { in_flight: true, ..m[k] }))
}

/// The registry after a cycle ends: the key's in-flight flag is cleared.
pub open spec fn after_end(m: Map<Seq<char>, TargetStateView>, k: Seq<char>) -> Map<
    Seq<char>,
    TargetStateView,
> {
    m.insert(k, (TargetStateView { in_flight: false, ..m[k] }))
}

/// Single-flight per target: once a begin has been granted for a key, no
/// second begin for the same key can be granted until `end` clears the
/// flag — a tick that fires while the previous attempt still runs is
/// skipped, not queued. After the cycle ends, the next tick's begin is
/// granted again.
pub proof fn lemma_single_flight(m: Map<Seq<char>, TargetStateView>, k: Seq<char>)
    requires
        begin_granted(m, k),
    ensures
        !begin_granted(after_begin(m, k), k),
        begin_granted(after_end(after_begin(m, k), k), k),
{
}

/// Begins for different keys are independent: a granted begin for one key
/// neither grants nor revokes a begin for another.
pub proof fn lemma_single_flight_independent(
    m: Map<Seq<char>, TargetStateView>,
    k1: Seq<char>,
    k2: Seq<char>,
)
    requires
        begin_granted(m, k1),
        k1 != k2,
    ensures
        begin_granted(after_begin(m, k1), k2) == begin_granted(m, k2),
{
}

} // verus!
