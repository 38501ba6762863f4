//! Load-state bookkeeping and worst-case aggregation over a bundle's
//! transitive dependency closure.

use vstd::prelude::*;
use vstd::set_lib::{lemma_int_range, lemma_len_subset, set_int_range};
use crate::bundle::DependencyBundle;
use crate::handle::{Handle, LoadState};

verus! {

/// Error raised when an operation names a handle whose slot/generation pair
/// the tracker does not currently recognise. A stale handle is rejected
/// explicitly instead of being answered with stale or default data.
#[derive(Clone, Copy, PartialEq, Eq, Structural, Debug)]
pub enum TrackerError {
    StaleHandleUse,
}

struct Entry {
    generation: u64,
    state: LoadState,
    dep_slots: Vec<usize>,
}

/// Observes the load state of every registered resource and, for a bundle,
/// aggregates the state of its transitive dependency set. Purely
/// observational with respect to loading: it never triggers a load itself,
/// it only records what the loading service reports.
pub struct LoadStateTracker {
    entries: Vec<Entry>,
}

impl LoadStateTracker {
    /// Number of slots ever registered.
    pub closed spec fn spec_len(&self) -> nat {
        self.entries@.len()
    }

    /// Current generation of the slot at `i`.
    pub closed spec fn gen_at(&self, i: int) -> u64 {
        self.entries@[i].generation
    }

    /// Current load state of the slot at `i`.
    pub closed spec fn state_at(&self, i: int) -> LoadState {
        self.entries@[i].state
    }

    /// Slots of the dependencies discovered inside the resource at `i`.
    pub closed spec fn deps_at(&self, i: int) -> Seq<usize> {
        self.entries@[i].dep_slots@
    }

    /// Every recorded dependency slot refers to a registered slot.
    pub closed spec fn wf(&self) -> bool {
        forall|i: int, k: int|
            0 <= i < self.entries@.len() && 0 <= k < self.entries@[i].dep_slots@.len()
                ==> (#[trigger] self.entries@[i].dep_slots@[k]) < self.entries@.len()
    }

    /// A handle is live when its slot exists and its generation is current.
    pub open spec fn is_live(&self, h: Handle) -> bool {
        h.slot < self.spec_len() && self.gen_at(h.slot as int) == h.generation
    }

    /// Dependency edge: the resource at `i` is loaded and declares the slot
    /// `j` among its embedded dependencies. Only loaded resources expose
    /// their dependencies; an unloaded or failed resource expands to nothing.
    pub open spec fn edge(&self, i: int, j: int) -> bool {
        &&& 0 <= i < self.spec_len()
        &&& self.state_at(i) is Loaded
        &&& exists|k: int|
            0 <= k < self.deps_at(i).len() && (#[trigger] self.deps_at(i)[k]) as int == j
    }

    /// Slot `j` is reachable from `roots` in at most `n` expansion steps.
    pub open spec fn reach_n(&self, roots: Set<int>, j: int, n: nat) -> bool
        decreases n,
    {
        if n == 0 {
            roots.contains(j)
        } else {
            roots.contains(j) || exists|i: int|
                self.reach_n(roots, i, (n - 1) as nat) && #[trigger] self.edge(i, j)
        }
    }

    /// Slot `j` belongs to the transitive dependency set of `roots`.
    pub open spec fn reaches(&self, roots: Set<int>, j: int) -> bool {
        exists|n: nat| self.reach_n(roots, j, n)
    }

    /// The transitive dependency closure of `roots`.
    pub open spec fn closure(&self, roots: Set<int>) -> Set<int> {
        Set::new(|j: int| self.reaches(roots, j))
    }

    /// The slots named by a bundle's members.
    pub open spec fn roots_of(b: &DependencyBundle) -> Set<int> {
        Set::new(
            |j: int|
                exists|k: int|
                    0 <= k < b.handles().len() && (#[trigger] b.handles()[k]).slot as int == j,
        )
    }

    /// Every member handle of the bundle is live.
    pub open spec fn members_live(&self, b: &DependencyBundle) -> bool {
        forall|k: int| 0 <= k < b.handles().len() ==> self.is_live(#[trigger] b.handles()[k])
    }

    /// Worst-case fold over the slots `0 .. n` that lie in `s`: the pair of
    /// the highest severity seen and, when that severity is a failure, the
    /// reason of the earliest failed slot.
    pub open spec fn agg_upto(&self, s: Set<int>, n: nat) -> (int, Seq<char>)
        decreases n,
    {
        if n == 0 {
            (0int, Seq::<char>::empty())
        } else {
            let prev = self.agg_upto(s, (n - 1) as nat);
            let j = n - 1;
            if s.contains(j) && self.state_at(j).severity() > prev.0 {
                (
                    self.state_at(j).severity(),
                    match self.state_at(j) {
                        LoadState::Failed(r) => r@,
                        _ => Seq::<char>::empty(),
                    },
                )
            } else {
                prev
            }
        }
    }

    /// Worst-case aggregate over a set of slots, per the total ordering
    /// `Failed > Loading > Unloaded > Loaded`. The empty set is `Loaded`.
    pub open spec fn aggregate(&self, s: Set<int>) -> (int, Seq<char>) {
        self.agg_upto(s, self.spec_len())
    }

    /// Severity and failure reason of a bundle's transitive dependency set.
    pub open spec fn agg_of_bundle(&self, b: &DependencyBundle) -> (int, Seq<char>) {
        self.aggregate(self.closure(Self::roots_of(b)))
    }

    /// Entries other than `slot` are untouched.
    pub open spec fn same_entries_except(old_t: &Self, new_t: &Self, slot: int) -> bool {
        forall|i: int|
            #![trigger new_t.gen_at(i)]
            #![trigger new_t.state_at(i)]
            #![trigger new_t.deps_at(i)]
            (0 <= i < old_t.spec_len() && i != slot) ==> {
                &&& new_t.gen_at(i) == old_t.gen_at(i)
                &&& new_t.state_at(i) == old_t.state_at(i)
                &&& new_t.deps_at(i) == old_t.deps_at(i)
            }
    }

    /// An empty tracker.
    pub fn new() -> (t: LoadStateTracker)
        ensures
            t.wf(),
            t.spec_len() == 0,
    {
        LoadStateTracker { entries: Vec::new() }
    }

    /// Registers a fresh slot in state `Unloaded` and returns its handle.
    pub fn register(&mut self) -> (h: Handle)
        requires
            old(self).wf(),
        ensures
            final(self).wf(),
            final(self).spec_len() == old(self).spec_len() + 1,
            h.slot == old(self).spec_len(),
            h.generation == 0,
            final(self).is_live(h),
            final(self).state_at(h.slot as int) is Unloaded,
            final(self).deps_at(h.slot as int).len() == 0,
            Self::same_entries_except(old(self), final(self), h.slot as int),
    {
        let slot = self.entries.len();
        self.entries.push(
            Entry { generation: 0, state: LoadState::Unloaded, dep_slots: Vec::new() },
        );
        Handle { slot, generation: 0 }
    }

    /// Whether `h` is currently live.
    pub fn live(&self, h: Handle) -> (r: bool)
        ensures
            r == self.is_live(h),
    {
        h.slot < self.entries.len() && self.entries[h.slot].generation == h.generation
    }

    /// The state of one handle. A stale handle is answered with
    /// `StaleHandleUse`, never with stale data.
    pub fn state_of(&self, h: Handle) -> (r: Result<LoadState, TrackerError>)
        ensures
            r is Err <==> !self.is_live(h),
            r matches Err(e) ==> e == TrackerError::StaleHandleUse,
            r matches Ok(s) ==> s.agrees_with(&self.state_at(h.slot as int)),
    {
        if !self.live(h) {
            return Err(TrackerError::StaleHandleUse);
        }
        Ok(self.entries[h.slot].state.clone())
    }

    /// Records that the resource behind `h` started loading. Once a resource
    /// is `Loaded` or `Failed` this is a no-op: a settled state does not
    /// silently revert.
    pub fn set_loading(&mut self, h: Handle) -> (r: Result<(), TrackerError>)
        requires
            old(self).wf(),
        ensures
            final(self).wf(),
            r is Err <==> !old(self).is_live(h),
            r matches Err(e) ==> e == TrackerError::StaleHandleUse && *final(self) == *old(self),
            r is Ok ==> {
                &&& final(self).spec_len() == old(self).spec_len()
                &&& Self::same_entries_except(old(self), final(self), h.slot as int)
                &&& final(self).gen_at(h.slot as int) == old(self).gen_at(h.slot as int)
                &&& (1 <= old(self).state_at(h.slot as int).severity() <= 2
                    ==> final(self).state_at(h.slot as int) is Loading
                        && final(self).deps_at(h.slot as int).len() == 0)
                &&& (!(1 <= old(self).state_at(h.slot as int).severity() <= 2)
                    ==> final(self).state_at(h.slot as int) == old(self).state_at(h.slot as int)
                        && final(self).deps_at(h.slot as int) == old(self).deps_at(h.slot as int))
            },
    {
        if !self.live(h) {
            return Err(TrackerError::StaleHandleUse);
        }
        let settled = match &self.entries[h.slot].state {
            LoadState::Loaded => true,
            LoadState::Failed(_) => true,
            _ => false,
        };
        if !settled {
            let gen = self.entries[h.slot].generation;
            self.entries[h.slot] = Entry {
                generation: gen,
                state: LoadState::Loading,
                dep_slots: Vec::new(),
            };
        }
        Ok(())
    }

    /// Records that the resource behind `h` finished loading, together with
    /// the dependencies discovered inside it. Every discovered dependency
    /// must itself be a live handle; otherwise nothing changes and the stale
    /// handle is reported.
    #[verifier::loop_isolation(false)]
    pub fn set_loaded(&mut self, h: Handle, deps: &Vec<Handle>) -> (r: Result<(), TrackerError>)
        requires
            old(self).wf(),
        ensures
            final(self).wf(),
            r is Err <==> (!old(self).is_live(h) || exists|k: int|
                0 <= k < deps@.len() && !old(self).is_live(#[trigger] deps@[k])),
            r matches Err(e) ==> e == TrackerError::StaleHandleUse && *final(self) == *old(self),
            r is Ok ==> {
                &&& final(self).spec_len() == old(self).spec_len()
                &&& Self::same_entries_except(old(self), final(self), h.slot as int)
                &&& final(self).gen_at(h.slot as int) == old(self).gen_at(h.slot as int)
                &&& final(self).state_at(h.slot as int) is Loaded
                &&& final(self).deps_at(h.slot as int) == deps@.map_values(
                    |d: Handle| d.slot,
                )
            },
    {
        if !self.live(h) {
            return Err(TrackerError::StaleHandleUse);
        }
        let mut slots: Vec<usize> = Vec::new();
        let mut k: usize = 0;
        while k < deps.len()
            invariant
                k <= deps@.len(),
                slots@.len() == k,
                forall|j: int| 0 <= j < k ==> self.is_live(#[trigger] deps@[j]),
                forall|j: int| 0 <= j < k ==> slots@[j] == (#[trigger] deps@[j]).slot,
            decreases deps@.len() - k,
        {
            let d = deps[k];
            if !self.live(d) {
                return Err(TrackerError::StaleHandleUse);
            }
            slots.push(d.slot);
            k = k + 1;
        }
        let gen = self.entries[h.slot].generation;
        self.entries[h.slot] = Entry { generation: gen, state: LoadState::Loaded, dep_slots: slots };
        proof {
            assert(self.deps_at(h.slot as int) =~= deps@.map_values(|d: Handle| d.slot));
        }
        Ok(())
    }

    /// Records that the resource behind `h` failed to load, with the
    /// loader's reason. A failed resource exposes no dependencies.
    pub fn set_failed(&mut self, h: Handle, reason: String) -> (r: Result<(), TrackerError>)
        requires
            old(self).wf(),
        ensures
            final(self).wf(),
            r is Err <==> !old(self).is_live(h),
            r matches Err(e) ==> e == TrackerError::StaleHandleUse && *final(self) == *old(self),
            r is Ok ==> {
                &&& final(self).spec_len() == old(self).spec_len()
                &&& Self::same_entries_except(old(self), final(self), h.slot as int)
                &&& final(self).gen_at(h.slot as int) == old(self).gen_at(h.slot as int)
                &&& final(self).state_at(h.slot as int) == LoadState::Failed(reason)
                &&& final(self).deps_at(h.slot as int).len() == 0
            },
    {
        if !self.live(h) {
            return Err(TrackerError::StaleHandleUse);
        }
        let gen = self.entries[h.slot].generation;
        self.entries[h.slot] = Entry {
            generation: gen,
            state: LoadState::Failed(reason),
            dep_slots: Vec::new(),
        };
        Ok(())
    }

    /// Explicitly invalidates a live handle: the slot's generation advances,
    /// the slot reverts to `Unloaded` for a reload, and every handle carrying
    /// the old generation becomes stale. Fails on a handle that is already
    /// stale or whose slot has exhausted its generation counter.
    pub fn invalidate(&mut self, h: Handle) -> (r: Result<(), TrackerError>)
        requires
            old(self).wf(),
        ensures
            final(self).wf(),
            r is Err <==> (!old(self).is_live(h) || h.generation == u64::MAX),
            r matches Err(e) ==> e == TrackerError::StaleHandleUse && *final(self) == *old(self),
            r is Ok ==> {
                &&& final(self).spec_len() == old(self).spec_len()
                &&& Self::same_entries_except(old(self), final(self), h.slot as int)
                &&& final(self).gen_at(h.slot as int) == h.generation + 1
                &&& final(self).state_at(h.slot as int) is Unloaded
                &&& final(self).deps_at(h.slot as int).len() == 0
                &&& !final(self).is_live(h)
            },
    {
        if !self.live(h) {
            return Err(TrackerError::StaleHandleUse);
        }
        if h.generation == u64::MAX {
            return Err(TrackerError::StaleHandleUse);
        }
        self.entries[h.slot] = Entry {
            generation: h.generation + 1,
            state: LoadState::Unloaded,
            dep_slots: Vec::new(),
        };
        Ok(())
    }

    /// Reaching one more edge keeps a slot inside the transitive set.
    proof fn lemma_reach_step(&self, roots: Set<int>, i: int, j: int)
        requires
            self.reaches(roots, i),
            self.edge(i, j),
        ensures
            self.reaches(roots, j),
    {
        let n = choose|n: nat| self.reach_n(roots, i, n);
        assert(self.reach_n(roots, j, n + 1));
    }

    /// Any set that contains the roots and is closed under dependency edges
    /// contains everything reachable from the roots.
    proof fn lemma_closed_set_contains(&self, roots: Set<int>, m: Set<int>, j: int, n: nat)
        requires
            forall|r: int| #[trigger] roots.contains(r) ==> m.contains(r),
            forall|a: int, c: int| m.contains(a) && #[trigger] self.edge(a, c) ==> m.contains(c),
            self.reach_n(roots, j, n),
        ensures
            m.contains(j),
        decreases n,
    {
        if n == 0 {
        } else if roots.contains(j) {
        } else {
            let i = choose|i: int|
                self.reach_n(roots, i, (n - 1) as nat) && #[trigger] self.edge(i, j);
            self.lemma_closed_set_contains(roots, m, i, (n - 1) as nat);
        }
    }

    /// The worst-case fold stays within the severity scale.
    proof fn lemma_agg_bounds(&self, s: Set<int>, n: nat)
        ensures
            0 <= self.agg_upto(s, n).0 <= 3,
        decreases n,
    {
        if n > 0 {
            self.lemma_agg_bounds(s, (n - 1) as nat);
        }
    }

    /// The worst-case fold is at least the severity of any covered slot.
    proof fn lemma_agg_ge(&self, s: Set<int>, n: nat, j: int)
        requires
            s.contains(j),
            0 <= j < n,
        ensures
            self.agg_upto(s, n).0 >= self.state_at(j).severity(),
        decreases n,
    {
        if j == n - 1 {
            self.lemma_agg_bounds(s, (n - 1) as nat);
        } else {
            self.lemma_agg_ge(s, (n - 1) as nat, j);
        }
    }

    /// The worst-case fold never exceeds a bound on all covered slots.
    proof fn lemma_agg_le(&self, s: Set<int>, n: nat, c: int)
        requires
            c >= 0,
            forall|j: int|
                s.contains(j) && 0 <= j < n ==> (#[trigger] self.state_at(j)).severity() <= c,
        ensures
            self.agg_upto(s, n).0 <= c,
        decreases n,
    {
        if n > 0 {
            self.lemma_agg_le(s, (n - 1) as nat, c);
        }
    }

    /// A bundle member's own slot always belongs to the bundle's transitive
    /// dependency set.
    pub proof fn lemma_member_in_closure(&self, b: &DependencyBundle, k: int)
        requires
            0 <= k < b.handles().len(),
        ensures
            self.closure(Self::roots_of(b)).contains(b.handles()[k].slot as int),
    {
        let roots = Self::roots_of(b);
        let j = b.handles()[k].slot as int;
        assert(roots.contains(j));
        assert(self.reach_n(roots, j, 0));
    }

    /// Worst-case aggregation: if any one slot of the transitive dependency
    /// set has failed, the aggregate severity is `Failed`, whatever the
    /// states of all other slots are.
    pub proof fn lemma_failed_dependency_dominates(&self, b: &DependencyBundle, j: int)
        requires
            self.closure(Self::roots_of(b)).contains(j),
            0 <= j < self.spec_len(),
            self.state_at(j) is Failed,
        ensures
            self.agg_of_bundle(b).0 == 3,
    {
        let s = self.closure(Self::roots_of(b));
        self.lemma_agg_ge(s, self.spec_len(), j);
        self.lemma_agg_bounds(s, self.spec_len());
    }

    /// If a live member of the bundle has failed, the whole bundle's
    /// aggregate is `Failed`, even when every other dependency is loaded.
    pub proof fn lemma_failed_member_fails_bundle(&self, b: &DependencyBundle, k: int)
        requires
            0 <= k < b.handles().len(),
            self.is_live(b.handles()[k]),
            self.state_at(b.handles()[k].slot as int) is Failed,
        ensures
            self.agg_of_bundle(b).0 == 3,
    {
        self.lemma_member_in_closure(b, k);
        self.lemma_failed_dependency_dominates(b, b.handles()[k].slot as int);
    }

    /// While no member has resolved, nothing beyond the member slots is
    /// reachable: expansion happens only through loaded resources.
    proof fn lemma_unresolved_closure_is_roots(&self, b: &DependencyBundle, j: int, n: nat)
        requires
            forall|k: int|
                0 <= k < b.handles().len() ==> 1 <= (#[trigger] self.state_at(
                    b.handles()[k].slot as int,
                )).severity() <= 2,
            self.reach_n(Self::roots_of(b), j, n),
        ensures
            Self::roots_of(b).contains(j),
        decreases n,
    {
        let roots = Self::roots_of(b);
        if n == 0 {
        } else if roots.contains(j) {
        } else {
            let i = choose|i: int|
                self.reach_n(roots, i, (n - 1) as nat) && #[trigger] self.edge(i, j);
            self.lemma_unresolved_closure_is_roots(b, i, (n - 1) as nat);
            let k = choose|k: int|
                0 <= k < b.handles().len() && (#[trigger] b.handles()[k]).slot as int == i;
            assert(1 <= self.state_at(b.handles()[k].slot as int).severity() <= 2);
            assert(false);
        }
    }

    /// While every member of a non-empty bundle is still unresolved (neither
    /// loaded nor failed), the bundle's aggregate is unresolved as well: the
    /// barrier neither fires nor fails on such a tick.
    pub proof fn lemma_unresolved_members_keep_bundle_unresolved(&self, b: &DependencyBundle)
        requires
            self.members_live(b),
            b.handles().len() >= 1,
            forall|k: int|
                0 <= k < b.handles().len() ==> 1 <= (#[trigger] self.state_at(
                    b.handles()[k].slot as int,
                )).severity() <= 2,
        ensures
            1 <= self.agg_of_bundle(b).0 <= 2,
    {
        let roots = Self::roots_of(b);
        let s = self.closure(roots);
        assert forall|j: int| s.contains(j) && 0 <= j < self.spec_len() implies (
        #[trigger] self.state_at(j)).severity() <= 2 by {
            let n = choose|n: nat| self.reach_n(roots, j, n);
            self.lemma_unresolved_closure_is_roots(b, j, n);
            let k = choose|k: int|
                0 <= k < b.handles().len() && (#[trigger] b.handles()[k]).slot as int == j;
            assert(1 <= self.state_at(b.handles()[k].slot as int).severity() <= 2);
        }
        self.lemma_agg_le(s, self.spec_len(), 2);
        let h0 = b.handles()[0];
        self.lemma_member_in_closure(b, 0);
        assert(self.is_live(h0));
        self.lemma_agg_ge(s, self.spec_len(), h0.slot as int);
    }

    /// The aggregate of a set of slots is `Loaded` exactly when every slot
    /// of the set is loaded.
    pub proof fn lemma_aggregate_loaded_iff(&self, s: Set<int>)
        ensures
            self.aggregate(s).0 == 0 <==> (forall|j: int|
                s.contains(j) && 0 <= j < self.spec_len() ==> (#[trigger] self.state_at(
                    j,
                )).severity() == 0),
    {
        if forall|j: int|
            s.contains(j) && 0 <= j < self.spec_len() ==> (#[trigger] self.state_at(
                j,
            )).severity() == 0 {
            self.lemma_agg_le(s, self.spec_len(), 0);
            self.lemma_agg_bounds(s, self.spec_len());
        } else {
            let j = choose|j: int|
                s.contains(j) && 0 <= j < self.spec_len() && (#[trigger] self.state_at(
                    j,
                )).severity() != 0;
            self.lemma_agg_ge(s, self.spec_len(), j);
        }
    }

    /// The aggregate state of a bundle's transitive dependency set.
    ///
    /// Every member handle must be live; a stale member is reported as
    /// `StaleHandleUse`. Otherwise the member slots are expanded through the
    /// dependencies recorded inside loaded resources, and the worst state in
    /// the resulting closure is returned, ordered
    /// `Failed > Loading > Unloaded > Loaded`; a failure carries the reason
    /// of the earliest failed slot. The walk is purely observational.
    #[verifier::loop_isolation(false)]
    #[verifier::rlimit(30)]
    pub fn transitive_state_of(&self, b: &DependencyBundle) -> (r: Result<LoadState, TrackerError>)
        requires
            self.wf(),
        ensures
            r is Err <==> !self.members_live(b),
            r matches Err(e) ==> e == TrackerError::StaleHandleUse,
            r matches Ok(s) ==> s.severity() == self.agg_of_bundle(b).0,
            r matches Ok(s) ==> (s matches LoadState::Failed(reason) ==> reason@
                == self.agg_of_bundle(b).1),
    {
        let n = self.entries.len();
        let ghost roots = Self::roots_of(b);
        let mut marks: Vec<bool> = vec![false; n];
        let mut queue: Vec<usize> = Vec::new();
        let mut marked_count: usize = 0;
        proof {
            assert(mark_set(marks@) =~= Set::<int>::empty());
        }
        // Seed the worklist with the member slots, checking liveness.
        let member_count = b.len();
        let mut k: usize = 0;
        while k < member_count
            invariant
                k <= member_count,
                marks@.len() == n,
                mark_set(marks@).finite(),
                mark_set(marks@).len() == marked_count,
                marked_count <= n,
                forall|qi: int|
                    0 <= qi < queue@.len() ==> (#[trigger] queue@[qi]) < n && marks@[queue@[qi] as int],
                forall|j: int| 0 <= j < n && marks@[j] ==> roots.contains(j),
                forall|j: int| 0 <= j < n && marks@[j] ==> queue@.contains(j as usize),
                forall|m: int|
                    0 <= m < k ==> self.is_live(#[trigger] b.handles()[m]) && b.handles()[m].slot
                        < n && marks@[b.handles()[m].slot as int],
            decreases member_count - k,
        {
            let h = b.handle_at(k);
            if !self.live(h) {
                return Err(TrackerError::StaleHandleUse);
            }
            if !marks[h.slot] {
                let ghost before = marks@;
                let ghost qb = queue@;
                marks[h.slot] = true;
                queue.push(h.slot);
                proof {
                    assert(mark_set(marks@) =~= mark_set(before).insert(h.slot as int));
                    lemma_int_range(0, n as int);
                    lemma_len_subset(mark_set(marks@), set_int_range(0, n as int));
                    assert(roots.contains(h.slot as int));
                    assert(queue@[queue@.len() - 1] == h.slot);
                    assert(queue@.contains(h.slot));
                    assert forall|x: usize| #[trigger] qb.contains(x) implies queue@.contains(
                        x,
                    ) by {
                        let p = choose|p: int| 0 <= p < qb.len() && qb[p] == x;
                        assert(queue@[p] == x);
                    }
                }
                marked_count = marked_count + 1;
            }
            k = k + 1;
        }
        proof {
            assert forall|j: int| 0 <= j < n && marks@[j] implies self.reaches(roots, j) by {
                assert(self.reach_n(roots, j, 0));
            }
            assert forall|r0: int| #[trigger] roots.contains(r0) implies 0 <= r0 < n
                && marks@[r0] by {
                let kk = choose|kk: int|
                    0 <= kk < b.handles().len() && (#[trigger] b.handles()[kk]).slot as int == r0;
                assert(self.is_live(b.handles()[kk]));
            }
        }
        // Expand the closure: a loaded slot exposes its recorded dependencies.
        while queue.len() > 0
            invariant
                marks@.len() == n,
                mark_set(marks@).finite(),
                mark_set(marks@).len() == marked_count,
                marked_count <= n,
                forall|qi: int|
                    0 <= qi < queue@.len() ==> (#[trigger] queue@[qi]) < n && marks@[queue@[qi] as int],
                forall|j: int| 0 <= j < n && marks@[j] ==> self.reaches(roots, j),
                forall|r0: int| #[trigger] roots.contains(r0) ==> 0 <= r0 < n && marks@[r0],
                forall|a: int, c: int|
                    0 <= a < n && marks@[a] && !queue@.contains(a as usize) && #[trigger] self.edge(
                        a,
                        c,
                    ) ==> 0 <= c < n && marks@[c],
            decreases n - marked_count, queue@.len(),
        {
            let ghost queue_before = queue@;
            let ghost mc0 = marked_count as int;
            let ghost q0 = queue@.len() as int;
            let i = queue.pop().unwrap();
            proof {
                assert forall|a: int, c: int|
                    0 <= a < n && marks@[a] && !queue@.contains(a as usize) && a != i as int
                        && #[trigger] self.edge(a, c) implies 0 <= c < n && marks@[c] by {
                    if queue_before.contains(a as usize) {
                        let p = choose|p: int|
                            0 <= p < queue_before.len() && queue_before[p] == a as usize;
                        if p < queue_before.len() - 1 {
                            assert(queue@[p] == a as usize);
                            assert(false);
                        } else {
                            assert(false);
                        }
                    }
                }
            }
            let is_loaded = match &self.entries[i].state {
                LoadState::Loaded => true,
                _ => false,
            };
            if is_loaded {
                let dep_count = self.entries[i].dep_slots.len();
                let mut d: usize = 0;
                while d < dep_count
                    invariant
                        d <= dep_count,
                        dep_count == self.deps_at(i as int).len(),
                        i < n,
                        marks@[i as int],
                        self.state_at(i as int) is Loaded,
                        marks@.len() == n,
                        mark_set(marks@).finite(),
                        mark_set(marks@).len() == marked_count,
                        marked_count <= n,
                        forall|qi: int|
                            0 <= qi < queue@.len() ==> (#[trigger] queue@[qi]) < n
                                && marks@[queue@[qi] as int],
                        forall|j: int| 0 <= j < n && marks@[j] ==> self.reaches(roots, j),
                        forall|r0: int| #[trigger] roots.contains(r0) ==> 0 <= r0 < n && marks@[r0],
                        forall|a: int, c: int|
                            0 <= a < n && marks@[a] && !queue@.contains(a as usize) && a != i as int
                                && #[trigger] self.edge(a, c) ==> 0 <= c < n && marks@[c],
                        forall|kk: int|
                            0 <= kk < d ==> marks@[(#[trigger] self.deps_at(i as int)[kk]) as int],
                        marked_count >= mc0,
                        queue@.len() + mc0 <= q0 - 1 + marked_count,
                    decreases dep_count - d,
                {
                    let s_slot = self.entries[i].dep_slots[d];
                    if !marks[s_slot] {
                        let ghost before = marks@;
                        let ghost qb = queue@;
                        marks[s_slot] = true;
                        queue.push(s_slot);
                        proof {
                            assert(mark_set(marks@) =~= mark_set(before).insert(s_slot as int));
                            lemma_int_range(0, n as int);
                            lemma_len_subset(mark_set(marks@), set_int_range(0, n as int));
                            assert(self.deps_at(i as int)[d as int] == s_slot);
                            assert(self.edge(i as int, s_slot as int));
                            self.lemma_reach_step(roots, i as int, s_slot as int);
                            assert(queue@[queue@.len() - 1] == s_slot);
                            assert(queue@.contains(s_slot));
                            assert forall|x: usize| #[trigger] qb.contains(x) implies queue@.contains(
                                x,
                            ) by {
                                let p = choose|p: int| 0 <= p < qb.len() && qb[p] == x;
                                assert(queue@[p] == x);
                            }
                        }
                        marked_count = marked_count + 1;
                    }
                    d = d + 1;
                }
                proof {
                    assert forall|a: int, c: int|
                        0 <= a < n && marks@[a] && !queue@.contains(a as usize) && #[trigger] self.edge(
                            a,
                            c,
                        ) implies 0 <= c < n && marks@[c] by {
                        if a == i as int {
                            let kk = choose|kk: int|
                                0 <= kk < self.deps_at(a).len() && (#[trigger] self.deps_at(a)[kk])
                                    as int == c;
                            assert(marks@[self.deps_at(i as int)[kk] as int]);
                        }
                    }
                }
            }
        }
        // The marked slots are exactly the transitive dependency closure.
        let ghost mset = mark_set(marks@);
        proof {
            assert forall|j: int| #[trigger] self.closure(roots).contains(j) implies mset.contains(
                j,
            ) by {
                let nn = choose|nn: nat| self.reach_n(roots, j, nn);
                self.lemma_closed_set_contains(roots, mset, j, nn);
            }
            assert(mset =~= self.closure(roots));
        }
        // Fold the marked slots in slot order: highest severity wins, the
        // earliest failure supplies the reason.
        let mut worst = LoadState::Loaded;
        let mut idx: usize = 0;
        while idx < n
            invariant
                idx <= n,
                marks@.len() == n,
                mset == mark_set(marks@),
                worst.severity() == self.agg_upto(mset, idx as nat).0,
                worst matches LoadState::Failed(r0) ==> r0@ == self.agg_upto(mset, idx as nat).1,
            decreases n - idx,
        {
            if marks[idx] {
                let sv = self.entries[idx].state.severity_level();
                let wv = worst.severity_level();
                if sv > wv {
                    worst = self.entries[idx].state.clone();
                }
            }
            idx = idx + 1;
        }
        Ok(worst)
    }
}

/// The set of slots marked `true`.
spec fn mark_set(m: Seq<bool>) -> Set<int> {
    Set::new(|j: int| 0 <= j < m.len() && m[j])
}

} // verus!
