//! The reconciliation engine: diffs a freshly loaded configuration against
//! the live registry and computes the convergence plan — which targets to
//! stop, which to restart because their interval changed, and which to
//! initialize afresh. Targets unchanged in membership and interval are
//! left entirely untouched, so their tasks and in-flight state survive a
//! reload.

use vstd::prelude::*;

use crate::config::{TargetConfig, TargetConfigView};
use crate::registry::{Registry, TargetStateView};
use crate::text::lemma_filter_one;

verus! {

/// Whether the new configuration has an enabled target with this path.
pub open spec fn enabled_path(targets: Seq<TargetConfigView>, k: Seq<char>) -> bool {
    exists|i: int|
        0 <= i < targets.len() && (#[trigger] targets[i]).enabled && targets[i].path == k
}

/// A target that must be restarted: enabled, registered, and rescheduled
/// with a different interval.
pub open spec fn needs_restart(
    m: Map<Seq<char>, TargetStateView>,
    t: TargetConfigView,
) -> bool {
    t.enabled && m.dom().contains(t.path) && m[t.path].config.interval_seconds
        != t.interval_seconds
}

/// A target that must be freshly initialized: enabled and not registered.
pub open spec fn needs_add(m: Map<Seq<char>, TargetStateView>, t: TargetConfigView) -> bool {
    t.enabled && !m.dom().contains(t.path)
}

/// The convergence plan of one reload: keys to stop and remove, targets
/// to restart from a clean state, and targets to initialize and start.
pub struct ReconcilePlan {
    /// Registered keys no longer enabled: cancel their tasks and remove
    /// them.
    pub remove: Vec<String>,
    /// Enabled targets whose interval changed: cancel, then re-add, so the
    /// new interval takes effect from a clean idle state.
    pub restart: Vec<TargetConfig>,
    /// Enabled targets not yet registered: run the full initialization
    /// protocol and start a task on success.
    pub add: Vec<TargetConfig>,
}

/// Whether an enabled target with this path exists in the list.
fn enabled_in(targets: &Vec<TargetConfig>, key: &String) -> (r: bool)
    ensures
        r == enabled_path(targets.deep_view(), key@),
{
    let ghost dv = targets.deep_view();
    let mut i: usize = 0;
    while i < targets.len()
        invariant
            dv == targets.deep_view(),
            dv.len() == targets.len(),
            i <= targets.len(),
            forall|j: int| 0 <= j < i ==> !((#[trigger] dv[j]).enabled && dv[j].path == key@),
        decreases targets.len() - i,
    {
        if targets[i].enabled && targets[i].path.eq(key) {
            proof {
                assert(dv[i as int].enabled && dv[i as int].path == key@);
            }
            return true;
        }
        i = i + 1;
    }
    proof {
        if enabled_path(dv, key@) {
            let w = choose|w: int|
                0 <= w < dv.len() && (#[trigger] dv[w]).enabled && dv[w].path == key@;
        }
    }
    false
}

/// Computes the convergence plan for a fresh configuration against the
/// live registry: every registered key without an enabled target in the
/// new configuration is removed; every enabled target is restarted when
/// its interval changed, added when it is not registered, and otherwise
/// left untouched.
pub fn reconcile_plan(reg: &Registry, new_targets: &Vec<TargetConfig>) -> (r: ReconcilePlan)
    requires
        reg.wf(),
    ensures
        forall|k: Seq<char>|
            #![trigger r.remove.deep_view().contains(k)]
            r.remove.deep_view().contains(k) <==> (reg@.dom().contains(k) && !enabled_path(
                new_targets.deep_view(),
                k,
            )),
        forall|i: int, j: int|
            0 <= i < j < r.remove.deep_view().len() ==> r.remove.deep_view()[i]
                != r.remove.deep_view()[j],
        r.restart.deep_view() == new_targets.deep_view().filter(
            |t: TargetConfigView| needs_restart(reg@, t),
        ),
        r.add.deep_view() == new_targets.deep_view().filter(
            |t: TargetConfigView| needs_add(reg@, t),
        ),
{
    broadcast use vstd::prelude::Seq::filter_distributes_over_add;

    let ghost ntdv = new_targets.deep_view();
    let keys = reg.keys();
    let ghost kdv = keys.deep_view();
    let mut remove: Vec<String> = Vec::new();
    let mut i: usize = 0;
    while i < keys.len()
        invariant
            reg.wf(),
            ntdv == new_targets.deep_view(),
            kdv == keys.deep_view(),
            kdv.len() == keys.len(),
            i <= keys.len(),
            forall|a: int| 0 <= a < kdv.len() ==> reg@.dom().contains(#[trigger] kdv[a]),
            forall|k: Seq<char>| reg@.dom().contains(k) ==> kdv.contains(k),
            forall|a: int, b: int| 0 <= a < b < kdv.len() ==> kdv[a] != kdv[b],
            forall|m: int|
                0 <= m < remove.deep_view().len() ==> exists|j: int|
                    0 <= j < i && kdv[j] == #[trigger] remove.deep_view()[m],
            forall|m: int| 0 <= m < remove.deep_view().len() ==> !enabled_path(
                ntdv,
                #[trigger] remove.deep_view()[m],
            ),
            forall|j: int| 0 <= j < i && !enabled_path(ntdv, #[trigger] kdv[j])
                ==> remove.deep_view().contains(kdv[j]),
            forall|a: int, b: int|
                0 <= a < b < remove.deep_view().len() ==> remove.deep_view()[a]
                    != remove.deep_view()[b],
        decreases keys.len() - i,
    {
        let ghost prev = remove.deep_view();
        proof {
            assert(kdv[i as int] == keys@[i as int]@);
        }
        if !enabled_in(new_targets, &keys[i]) {
            remove.push(keys[i].clone());
            proof {
                assert(remove.deep_view() =~= prev.push(kdv[i as int]));
            }
        }
        proof {
            assert forall|m: int| 0 <= m < remove.deep_view().len() implies (exists|j: int|
                0 <= j < i + 1 && kdv[j] == #[trigger] remove.deep_view()[m]) && !enabled_path(
                ntdv,
                remove.deep_view()[m],
            ) by {
                if m < prev.len() {
                    assert(remove.deep_view()[m] == prev[m]);
                    let j0 = choose|j: int| 0 <= j < i && kdv[j] == prev[m];
                    assert(kdv[j0] == remove.deep_view()[m]);
                } else {
                    assert(remove.deep_view()[m] == kdv[i as int]);
                }
            }
            assert forall|j: int|
                0 <= j < i + 1 && !enabled_path(ntdv, #[trigger] kdv[j]) implies remove.deep_view()
                .contains(kdv[j]) by {
                if j < i {
                    let w = choose|w: int| 0 <= w < prev.len() && prev[w] == kdv[j];
                    assert(remove.deep_view()[w] == kdv[j]);
                } else {
                    assert(remove.deep_view()[remove.deep_view().len() - 1] == kdv[i as int]);
                }
            }
            assert forall|a: int, b: int|
                0 <= a < b < remove.deep_view().len() implies remove.deep_view()[a]
                != remove.deep_view()[b] by {
                if b >= prev.len() {
                    assert(remove.deep_view()[a] == prev[a]);
                    let j0 = choose|j: int| 0 <= j < i && kdv[j] == prev[a];
                    assert(kdv[j0] != kdv[i as int]);
                    assert(remove.deep_view()[b] == kdv[i as int]);
                } else {
                    assert(remove.deep_view()[a] == prev[a] && remove.deep_view()[b] == prev[b]);
                }
            }
        }
        i = i + 1;
    }
    let mut restart: Vec<TargetConfig> = Vec::new();
    let mut add: Vec<TargetConfig> = Vec::new();
    let mut t: usize = 0;
    proof {
        assert(ntdv.take(0) =~= Seq::<TargetConfigView>::empty());
        assert(Seq::<TargetConfigView>::empty().filter(|t: TargetConfigView| needs_restart(reg@, t))
            =~= Seq::<TargetConfigView>::empty());
        assert(Seq::<TargetConfigView>::empty().filter(|t: TargetConfigView| needs_add(reg@, t))
            =~= Seq::<TargetConfigView>::empty());
        assert(restart.deep_view() =~= Seq::<TargetConfigView>::empty());
        assert(add.deep_view() =~= Seq::<TargetConfigView>::empty());
    }
    while t < new_targets.len()
        invariant
            reg.wf(),
            ntdv == new_targets.deep_view(),
            ntdv.len() == new_targets.len(),
            t <= new_targets.len(),
            restart.deep_view() =~= ntdv.take(t as int).filter(
                |t: TargetConfigView| needs_restart(reg@, t),
            ),
            add.deep_view() =~= ntdv.take(t as int).filter(
                |t: TargetConfigView| needs_add(reg@, t),
            ),
        decreases new_targets.len() - t,
    {
        let tc = &new_targets[t];
        let ghost tv = ntdv[t as int];
        let ghost rb = restart.deep_view();
        let ghost ab = add.deep_view();
        if tc.enabled {
            match reg.interval_of(&tc.path) {
                Some(iv) => {
                    if iv != tc.interval_seconds {
                        restart.push(tc.clone());
                        proof {
                            assert(restart.deep_view() =~= rb.push(tv));
                            assert(needs_restart(reg@, tv));
                        }
                    } else {
                        proof {
                            assert(!needs_restart(reg@, tv));
                        }
                    }
                    proof {
                        assert(!needs_add(reg@, tv));
                    }
                },
                None => {
                    add.push(tc.clone());
                    proof {
                        assert(add.deep_view() =~= ab.push(tv));
                        assert(needs_add(reg@, tv));
                        assert(!needs_restart(reg@, tv));
                    }
                },
            }
        } else {
            proof {
                assert(!needs_restart(reg@, tv));
                assert(!needs_add(reg@, tv));
            }
        }
        proof {
            assert(ntdv.take(t + 1) =~= ntdv.take(t as int).push(tv));
            lemma_filter_one(tv, |t: TargetConfigView| needs_restart(reg@, t));
            lemma_filter_one(tv, |t: TargetConfigView| needs_add(reg@, t));
            assert(ntdv.take(t as int).push(tv) =~= ntdv.take(t as int) + seq![tv]);
        }
        t = t + 1;
    }
    proof {
        assert(ntdv.take(new_targets.len() as int) =~= ntdv);
        assert forall|k: Seq<char>|
            #![trigger remove.deep_view().contains(k)]
            remove.deep_view().contains(k) <==> (reg@.dom().contains(k) && !enabled_path(ntdv, k))
            by {
            if remove.deep_view().contains(k) {
                let m = choose|m: int|
                    0 <= m < remove.deep_view().len() && #[trigger] remove.deep_view()[m] == k;
                let j = choose|j: int| 0 <= j < kdv.len() && kdv[j] == k;
            }
            if reg@.dom().contains(k) && !enabled_path(ntdv, k) {
                assert(kdv.contains(k));
                let j = choose|j: int| 0 <= j < kdv.len() && #[trigger] kdv[j] == k;
            }
        }
    }
    ReconcilePlan { remove, restart, add }
}

/// Whether some target in the list has this path, enabled or not.
pub open spec fn path_present(ts: Seq<TargetConfigView>, k: Seq<char>) -> bool {
    exists|i: int| 0 <= i < ts.len() && (#[trigger] ts[i]).path == k
}

/// The registry after removing a list of keys, in order.
pub open spec fn remove_all(
    m: Map<Seq<char>, TargetStateView>,
    ks: Seq<Seq<char>>,
) -> Map<Seq<char>, TargetStateView>
    decreases ks.len(),
{
    if ks.len() == 0 {
        m
    } else {
        remove_all(m.remove(ks[0]), ks.drop_first())
    }
}

/// The fresh idle entry a target gets when it is initialized or
/// re-initialized: its new configuration, no commit in flight, and the
/// handle of its newly started task.
pub open spec fn fresh_entry(t: TargetConfigView, h: Option<u64>) -> TargetStateView {
    TargetStateView { config: t, in_flight: false, task_handle: h }
}

/// The registry after registering each target, in order, with its handle.
pub open spec fn insert_all(
    m: Map<Seq<char>, TargetStateView>,
    ts: Seq<TargetConfigView>,
    hs: Seq<Option<u64>>,
) -> Map<Seq<char>, TargetStateView>
    decreases ts.len(),
{
    if ts.len() == 0 {
        m
    } else {
        insert_all(m.insert(ts[0].path, fresh_entry(ts[0], hs[0])), ts.drop_first(), hs.drop_first())
    }
}

proof fn lemma_remove_all(m: Map<Seq<char>, TargetStateView>, ks: Seq<Seq<char>>)
    ensures
        forall|k: Seq<char>|
            #![trigger remove_all(m, ks).dom().contains(k)]
            remove_all(m, ks).dom().contains(k) <==> (m.dom().contains(k) && !ks.contains(k)),
        forall|k: Seq<char>|
            #![trigger remove_all(m, ks)[k]]
            m.dom().contains(k) && !ks.contains(k) ==> remove_all(m, ks)[k] == m[k],
    decreases ks.len(),
{
    if ks.len() > 0 {
        lemma_remove_all(m.remove(ks[0]), ks.drop_first());
        let mr = m.remove(ks[0]);
        let kr = ks.drop_first();
        assert forall|k: Seq<char>|
            #![trigger ks.contains(k)]
            ks.contains(k) <==> (k == ks[0] || kr.contains(k)) by {
            if ks.contains(k) {
                let w = choose|w: int| 0 <= w < ks.len() && ks[w] == k;
                if w > 0 {
                    assert(kr[w - 1] == k);
                }
            }
            if kr.contains(k) {
                let w = choose|w: int| 0 <= w < kr.len() && kr[w] == k;
                assert(ks[w + 1] == k);
            }
        }
        assert(remove_all(m, ks) == remove_all(mr, kr));
        assert forall|k: Seq<char>|
            #![trigger remove_all(m, ks).dom().contains(k)]
            remove_all(m, ks).dom().contains(k) <==> (m.dom().contains(k) && !ks.contains(k)) by {
            assert(remove_all(mr, kr).dom().contains(k) == (mr.dom().contains(k) && !kr.contains(
                k,
            )));
            assert(ks.contains(k) <==> (k == ks[0] || kr.contains(k)));
        }
        assert forall|k: Seq<char>|
            #![trigger remove_all(m, ks)[k]]
            m.dom().contains(k) && !ks.contains(k) implies remove_all(m, ks)[k] == m[k] by {
            assert(ks.contains(k) <==> (k == ks[0] || kr.contains(k)));
            assert(mr.dom().contains(k) && !kr.contains(k) ==> remove_all(mr, kr)[k] == mr[k]);
        }
    }
}

#[verifier::rlimit(60)]
proof fn lemma_insert_all(
    m: Map<Seq<char>, TargetStateView>,
    ts: Seq<TargetConfigView>,
    hs: Seq<Option<u64>>,
)
    requires
        hs.len() == ts.len(),
    ensures
        forall|k: Seq<char>|
            #![trigger insert_all(m, ts, hs).dom().contains(k)]
            insert_all(m, ts, hs).dom().contains(k) <==> (m.dom().contains(k) || path_present(
                ts,
                k,
            )),
        forall|k: Seq<char>|
            #![trigger insert_all(m, ts, hs)[k]]
            m.dom().contains(k) && !path_present(ts, k) ==> insert_all(m, ts, hs)[k] == m[k],
        forall|i: int|
            #![trigger ts[i]]
            0 <= i < ts.len() && (forall|j: int| i < j < ts.len() ==> (#[trigger] ts[j]).path
                != ts[i].path) ==> insert_all(m, ts, hs)[ts[i].path] == fresh_entry(ts[i], hs[i]),
    decreases ts.len(),
{
    if ts.len() > 0 {
        let m1 = m.insert(ts[0].path, fresh_entry(ts[0], hs[0]));
        lemma_insert_all(m1, ts.drop_first(), hs.drop_first());
        assert forall|k: Seq<char>|
            #![trigger path_present(ts, k)]
            path_present(ts, k) <==> (k == ts[0].path || path_present(ts.drop_first(), k)) by {
            if path_present(ts, k) {
                let w = choose|w: int| 0 <= w < ts.len() && (#[trigger] ts[w]).path == k;
                if w > 0 {
                    assert(ts.drop_first()[w - 1].path == k);
                }
            }
            if path_present(ts.drop_first(), k) {
                let w = choose|w: int|
                    0 <= w < ts.drop_first().len() && (#[trigger] ts.drop_first()[w]).path == k;
                assert(ts[w + 1].path == k);
            }
        }
        assert forall|i: int|
            #![trigger ts[i]]
            0 <= i < ts.len() && (forall|j: int| i < j < ts.len() ==> (#[trigger] ts[j]).path
                != ts[i].path) implies insert_all(m, ts, hs)[ts[i].path] == fresh_entry(
            ts[i],
            hs[i],
        ) by {
            if i == 0 {
                assert(!path_present(ts.drop_first(), ts[0].path)) by {
                    if path_present(ts.drop_first(), ts[0].path) {
                        let w = choose|w: int|
                            0 <= w < ts.drop_first().len() && (#[trigger] ts.drop_first()[w]).path
                                == ts[0].path;
                        assert(ts[w + 1].path == ts[0].path);
                    }
                }
                assert(m1.dom().contains(ts[0].path));
                let tailmap = insert_all(m1, ts.drop_first(), hs.drop_first());
                assert(tailmap[ts[0].path] == m1[ts[0].path]);
            } else {
                let d = ts.drop_first();
                assert(d[i - 1] == ts[i]);
                assert forall|j: int| i - 1 < j < d.len() implies (#[trigger] d[j]).path != d[i
                    - 1].path by {
                    assert(d[j] == ts[j + 1]);
                }
                assert(insert_all(m1, d, hs.drop_first())[d[i - 1].path] == fresh_entry(
                    d[i - 1],
                    hs.drop_first()[i - 1],
                ));
            }
        }
    }
}

proof fn lemma_filter_path_distinct(
    ts: Seq<TargetConfigView>,
    pred: spec_fn(TargetConfigView) -> bool,
)
    requires
        forall|i: int, j: int|
            0 <= i < j < ts.len() ==> (#[trigger] ts[i]).path != (#[trigger] ts[j]).path,
    ensures
        forall|i: int, j: int|
            0 <= i < j < ts.filter(pred).len() ==> (#[trigger] ts.filter(pred)[i]).path != (
            #[trigger] ts.filter(pred)[j]).path,
    decreases ts.len(),
{
    reveal(Seq::filter);
    broadcast use vstd::prelude::Seq::lemma_filter_contains_rev;

    if ts.len() > 0 {
        let d = ts.drop_last();
        assert forall|i: int, j: int| 0 <= i < j < d.len() implies (#[trigger] d[i]).path != (
        #[trigger] d[j]).path by {
            assert(d[i] == ts[i] && d[j] == ts[j]);
        }
        lemma_filter_path_distinct(d, pred);
        let f = ts.filter(pred);
        let fd = d.filter(pred);
        assert forall|i: int, j: int| 0 <= i < j < f.len() implies (#[trigger] f[i]).path != (
        #[trigger] f[j]).path by {
            if pred(ts.last()) {
                assert(f == fd.push(ts.last()));
                if j < fd.len() {
                    assert(f[i] == fd[i] && f[j] == fd[j]);
                } else {
                    assert(f[j] == ts.last());
                    assert(f[i] == fd[i]);
                    assert(fd.contains(fd[i]));
                    assert(d.contains(fd[i]));
                    let w = choose|w: int| 0 <= w < d.len() && d[w] == fd[i];
                    assert(ts[w] == fd[i]);
                    assert(ts[w].path != ts[ts.len() - 1].path);
                }
            } else {
                assert(f == fd);
            }
        }
    }
}

/// Reconciliation converges: applying a correct plan to the registry —
/// removing every no-longer-enabled key, then registering every restarted
/// and every newly added target with a fresh idle entry — leaves the
/// registry keyed by exactly the enabled targets of the new
/// configuration. A target unchanged in membership and interval keeps its
/// entry untouched, task handle included; a restarted or added target
/// holds its new configuration, no commit in flight, and its new task
/// handle.
pub proof fn lemma_reconcile_convergence(
    m: Map<Seq<char>, TargetStateView>,
    targets: Seq<TargetConfigView>,
    remove: Seq<Seq<char>>,
    hs_restart: Seq<Option<u64>>,
    hs_add: Seq<Option<u64>>,
)
    requires
        forall|k: Seq<char>|
            #![trigger remove.contains(k)]
            remove.contains(k) <==> (m.dom().contains(k) && !enabled_path(targets, k)),
        forall|i: int, j: int|
            0 <= i < j < targets.len() ==> (#[trigger] targets[i]).path != (
            #[trigger] targets[j]).path,
        hs_restart.len() == targets.filter(|t: TargetConfigView| needs_restart(m, t)).len(),
        hs_add.len() == targets.filter(|t: TargetConfigView| needs_add(m, t)).len(),
    ensures
        ({
            let restart = targets.filter(|t: TargetConfigView| needs_restart(m, t));
            let add = targets.filter(|t: TargetConfigView| needs_add(m, t));
            let converged = insert_all(
                insert_all(remove_all(m, remove), restart, hs_restart),
                add,
                hs_add,
            );
            &&& forall|k: Seq<char>|
                #![trigger converged.dom().contains(k)]
                converged.dom().contains(k) <==> enabled_path(targets, k)
            &&& forall|i: int|
                #![trigger targets[i]]
                0 <= i < targets.len() && targets[i].enabled && m.dom().contains(targets[i].path)
                    && m[targets[i].path].config.interval_seconds == targets[i].interval_seconds
                    ==> converged[targets[i].path] == m[targets[i].path]
            &&& forall|i: int|
                #![trigger restart[i]]
                0 <= i < restart.len() ==> converged[restart[i].path] == fresh_entry(
                    restart[i],
                    hs_restart[i],
                )
            &&& forall|i: int|
                #![trigger add[i]]
                0 <= i < add.len() ==> converged[add[i].path] == fresh_entry(add[i], hs_add[i])
        }),
{
    broadcast use vstd::prelude::Seq::lemma_filter_contains_rev;
    broadcast use vstd::prelude::Seq::lemma_filter_pred;
    broadcast use vstd::prelude::Seq::lemma_filter_contains;

    let rpred = |t: TargetConfigView| needs_restart(m, t);
    let apred = |t: TargetConfigView| needs_add(m, t);
    let restart = targets.filter(rpred);
    let add = targets.filter(apred);
    let m1 = remove_all(m, remove);
    let m2 = insert_all(m1, restart, hs_restart);
    let converged = insert_all(m2, add, hs_add);
    lemma_remove_all(m, remove);
    lemma_insert_all(m1, restart, hs_restart);
    lemma_insert_all(m2, add, hs_add);
    lemma_filter_path_distinct(targets, rpred);
    lemma_filter_path_distinct(targets, apred);

    // An element of a filtered list comes from some index of `targets`.
    assert forall|k: Seq<char>| #![trigger path_present(restart, k)]
        path_present(restart, k) implies exists|i: int|
        0 <= i < targets.len() && (#[trigger] targets[i]).path == k && rpred(targets[i]) by {
        let w = choose|w: int| 0 <= w < restart.len() && (#[trigger] restart[w]).path == k;
        assert(restart.contains(restart[w]));
        assert(targets.contains(restart[w]));
        let v = choose|v: int| 0 <= v < targets.len() && targets[v] == restart[w];
        assert(targets[v].path == k && rpred(targets[v]));
    }
    assert forall|k: Seq<char>| #![trigger path_present(add, k)]
        path_present(add, k) implies exists|i: int|
        0 <= i < targets.len() && (#[trigger] targets[i]).path == k && apred(targets[i]) by {
        let w = choose|w: int| 0 <= w < add.len() && (#[trigger] add[w]).path == k;
        assert(add.contains(add[w]));
        assert(targets.contains(add[w]));
        let v = choose|v: int| 0 <= v < targets.len() && targets[v] == add[w];
        assert(targets[v].path == k && apred(targets[v]));
    }

    // Domain convergence.
    assert forall|k: Seq<char>|
        #![trigger converged.dom().contains(k)]
        converged.dom().contains(k) <==> enabled_path(targets, k) by {
        if converged.dom().contains(k) {
            if m2.dom().contains(k) {
                if m1.dom().contains(k) {
                    assert(m.dom().contains(k) && !remove.contains(k));
                    assert(enabled_path(targets, k));
                } else {
                    let i = choose|i: int|
                        0 <= i < targets.len() && (#[trigger] targets[i]).path == k && rpred(
                            targets[i],
                        );
                    assert(targets[i].enabled);
                }
            } else {
                let i = choose|i: int|
                    0 <= i < targets.len() && (#[trigger] targets[i]).path == k && apred(
                        targets[i],
                    );
                assert(targets[i].enabled);
            }
        }
        if enabled_path(targets, k) {
            let i = choose|i: int|
                0 <= i < targets.len() && (#[trigger] targets[i]).enabled && targets[i].path == k;
            if m.dom().contains(k) {
                if m[k].config.interval_seconds == targets[i].interval_seconds {
                    assert(!remove.contains(k));
                    assert(m1.dom().contains(k));
                } else {
                    assert(rpred(targets[i]));
                    assert(targets.filter(rpred).contains(targets[i]));
                    let w = choose|w: int| 0 <= w < restart.len() && restart[w] == targets[i];
                    assert(restart[w].path == k);
                    assert(path_present(restart, k));
                }
            } else {
                assert(apred(targets[i]));
                assert(targets.filter(apred).contains(targets[i]));
                let w = choose|w: int| 0 <= w < add.len() && add[w] == targets[i];
                assert(add[w].path == k);
                assert(path_present(add, k));
            }
        }
    }

    // Untouched targets keep their entries.
    assert forall|i: int|
        #![trigger targets[i]]
        0 <= i < targets.len() && targets[i].enabled && m.dom().contains(targets[i].path)
            && m[targets[i].path].config.interval_seconds == targets[i].interval_seconds implies
        converged[targets[i].path] == m[targets[i].path] by {
        let k = targets[i].path;
        assert(enabled_path(targets, k));
        assert(!remove.contains(k));
        assert(!path_present(restart, k)) by {
            if path_present(restart, k) {
                let v = choose|v: int|
                    0 <= v < targets.len() && (#[trigger] targets[v]).path == k && rpred(
                        targets[v],
                    );
                if v != i {
                    if v < i {
                        assert(targets[v].path != targets[i].path);
                    } else {
                        assert(targets[i].path != targets[v].path);
                    }
                }
            }
        }
        assert(!path_present(add, k)) by {
            if path_present(add, k) {
                let v = choose|v: int|
                    0 <= v < targets.len() && (#[trigger] targets[v]).path == k && apred(
                        targets[v],
                    );
                if v != i {
                    if v < i {
                        assert(targets[v].path != targets[i].path);
                    } else {
                        assert(targets[i].path != targets[v].path);
                    }
                }
            }
        }
        assert(m1[k] == m[k] && m1.dom().contains(k));
        assert(m2[k] == m1[k] && m2.dom().contains(k));
        assert(converged[k] == m2[k]);
    }

    // Restarted targets get fresh entries and are not overwritten by adds.
    assert forall|i: int| #![trigger restart[i]] 0 <= i < restart.len() implies converged[
        restart[i].path
    ] == fresh_entry(restart[i], hs_restart[i]) by {
        let k = restart[i].path;
        assert forall|j: int| i < j < restart.len() implies (#[trigger] restart[j]).path
            != restart[i].path by {}
        assert(m2[k] == fresh_entry(restart[i], hs_restart[i]));
        assert(restart.contains(restart[i]));
        assert(rpred(restart[i]));
        assert(!path_present(add, k)) by {
            if path_present(add, k) {
                let v = choose|v: int|
                    0 <= v < targets.len() && (#[trigger] targets[v]).path == k && apred(
                        targets[v],
                    );
                assert(targets.contains(restart[i]));
                let u = choose|u: int| 0 <= u < targets.len() && targets[u] == restart[i];
                if u != v {
                    if u < v {
                        assert(targets[u].path != targets[v].path);
                    } else {
                        assert(targets[v].path != targets[u].path);
                    }
                }
                assert(targets[v] == restart[i]);
                assert(apred(restart[i]) && rpred(restart[i]));
            }
        }
        assert(m2.dom().contains(k));
        assert(converged[k] == m2[k]);
    }

    // Added targets get fresh entries.
    assert forall|i: int| #![trigger add[i]] 0 <= i < add.len() implies converged[add[i].path]
        == fresh_entry(add[i], hs_add[i]) by {
        assert forall|j: int| i < j < add.len() implies (#[trigger] add[j]).path != add[i].path
            by {}
    }
}

} // verus!
