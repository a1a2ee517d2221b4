use vstd::prelude::*;
use crate::migration::{Migration, MigrateError, versions, valid_versions, validate_migrations};

verus! {

/// Where a migration run stands against one store.
#[derive(Clone, Copy, Debug, PartialEq, Eq, Structural)]
pub enum Phase {
    /// Nothing is known of the store yet.
    Uninitialized,
    /// The bookkeeping table is being created.
    Bootstrapping,
    /// The script of this version is running.
    Applying(i64),
    /// Every listed version is recorded as applied.
    UpToDate,
    /// The script of this version failed; the run is over.
    Failed(i64),
    /// The store could not be opened; the run is over.
    Unavailable,
}

/// What the host reports back after carrying out an action.
#[derive(Debug)]
pub enum Event {
    /// The store is open. `bookkeeping` tells whether the bookkeeping table
    /// exists; `applied` lists the versions it records.
    Opened { bookkeeping: bool, applied: Vec<i64> },
    /// The store could not be opened or created.
    OpenFailed,
    /// The bookkeeping table now exists and is empty.
    BookkeepingCreated,
    /// The pending script ran in full and its version was recorded.
    Applied,
    /// The pending script failed with the store's message `cause`.
    ApplyFailed { cause: String },
}

/// What the host has to do next.
#[derive(Debug)]
pub enum Action {
    /// Create the bookkeeping table, then report `BookkeepingCreated`.
    CreateBookkeeping,
    /// Run `sql` and record `version` as applied, then report the outcome.
    Apply { version: i64, sql: &'static str },
    /// The store is up to date: hand control on.
    Finish,
    /// Stop the start-up with this error.
    Abort(MigrateError),
}

/// Every version of `vs` is recorded in `applied`.
pub open spec fn all_applied(vs: Seq<i64>, applied: Set<i64>) -> bool {
    forall|i: int| 0 <= i < vs.len() ==> applied.contains(vs[i])
}

/// `vs[i]` is the first version of the list that `applied` does not record.
pub open spec fn is_next_pending(vs: Seq<i64>, applied: Set<i64>, i: int) -> bool {
    &&& 0 <= i < vs.len()
    &&& !applied.contains(vs[i])
    &&& forall|j: int| 0 <= j < i ==> applied.contains(vs[j])
}

/// The bookkeeping after a run of `vs` in which every script succeeded,
/// starting from the recorded versions `applied`.
pub open spec fn after_run(vs: Seq<i64>, applied: Set<i64>) -> Set<i64> {
    applied.union(vs.to_set())
}

/// The abstract state of a run.
pub struct MigratorView {
    pub migrations: Seq<Migration>,
    /// Versions recorded as applied in the store's bookkeeping.
    pub applied: Set<i64>,
    /// Versions whose scripts ran during this run, in the order they ran.
    pub executed: Seq<i64>,
    /// Versions that the bookkeeping recorded when the store was opened.
    pub initial: Set<i64>,
    pub phase: Phase,
}

/// The decisions of one migration run, as a state machine. The host opens the
/// store, runs scripts and records versions; the migrator says which step
/// comes next from what the host reports.
pub struct Migrator {
    migrations: Vec<Migration>,
    recorded: Vec<i64>,
    executed: Vec<i64>,
    initial: Ghost<Set<i64>>,
    phase: Phase,
}

impl View for Migrator {
    type V = MigratorView;

    closed spec fn view(&self) -> MigratorView {
        MigratorView {
            migrations: self.migrations@,
            applied: self.recorded@.to_set(),
            executed: self.executed@,
            initial: self.initial@,
            phase: self.phase,
        }
    }
}

/// What follows once the host has reported the last step: the next pending
/// script is to run, or, when none is left, the run is complete.
pub open spec fn next_outcome(m: MigratorView, act: Action) -> bool {
    let vs = versions(m.migrations);
    match act {
        Action::Apply { version, sql } => exists|i: int|
            #![trigger is_next_pending(vs, m.applied, i)]
            is_next_pending(vs, m.applied, i) && m.migrations[i].version == version
                && m.migrations[i].sql == sql && m.phase == Phase::Applying(version),
        Action::Finish => all_applied(vs, m.applied) && m.phase == Phase::UpToDate
            && m.applied == after_run(vs, m.initial),
        _ => false,
    }
}

impl Migrator {
    /// The bookkeeping facts that hold in every phase.
    pub open spec fn wf_core(&self) -> bool {
        let m = self@;
        let vs = versions(m.migrations);
        &&& valid_versions(vs)
        &&& m.applied == m.initial.union(m.executed.to_set())
        &&& forall|k: int| 0 <= k < m.executed.len() ==> vs.contains(#[trigger] m.executed[k])
        &&& forall|k: int, i: int|
            0 <= k < m.executed.len() && 0 <= i < vs.len() && vs[i] <= #[trigger] m.executed[k]
                ==> m.applied.contains(#[trigger] vs[i])
        &&& forall|k: int, l: int|
            0 <= k < l < m.executed.len() ==> m.executed[k] < m.executed[l]
    }

    pub open spec fn wf(&self) -> bool {
        let m = self@;
        let vs = versions(m.migrations);
        &&& self.wf_core()
        &&& match m.phase {
            Phase::Uninitialized => m.applied.is_empty() && m.initial.is_empty()
                && m.executed.len() == 0,
            Phase::Bootstrapping => m.applied.is_empty() && m.initial.is_empty()
                && m.executed.len() == 0,
            Phase::Applying(v) => exists|i: int|
                #![trigger is_next_pending(vs, m.applied, i)]
                is_next_pending(vs, m.applied, i) && vs[i] == v,
            Phase::UpToDate => all_applied(vs, m.applied) && m.applied == after_run(vs, m.initial),
            _ => true,
        }
    }

    /// The events that the migrator can take in its current phase.
    pub open spec fn spec_accepts(&self, e: &Event) -> bool {
        match self@.phase {
            Phase::Uninitialized => e is Opened || e is OpenFailed,
            Phase::Bootstrapping => e is BookkeepingCreated,
            Phase::Applying(_) => e is Applied || e is ApplyFailed,
            _ => false,
        }
    }

    /// Starts a run over `migrations`, which are checked before any store is
    /// touched.
    pub fn new(migrations: Vec<Migration>) -> (r: Result<Migrator, MigrateError>)
        ensures
            r is Ok <==> valid_versions(versions(migrations@)),
            r matches Err(e) ==> e is InvalidMigrationSet,
            r matches Ok(m) ==> m.wf() && m@.migrations == migrations@
                && m@.phase == Phase::Uninitialized && m@.applied.is_empty()
                && m@.executed.len() == 0,
    {
        match validate_migrations(&migrations) {
            Err(e) => Err(e),
            Ok(()) => {
                let m = Migrator {
                    migrations,
                    recorded: Vec::new(),
                    executed: Vec::new(),
                    initial: Ghost(Set::empty()),
                    phase: Phase::Uninitialized,
                };
                assert(m@.applied =~= Set::empty());
                assert(m@.initial.union(m@.executed.to_set()) =~= Set::empty());
                Ok(m)
            },
        }
    }

    pub fn phase(&self) -> (r: Phase)
        ensures
            r == self@.phase,
    {
        self.phase
    }

    /// The versions whose scripts ran during this run, in order.
    pub fn executed(&self) -> (r: &Vec<i64>)
        ensures
            r@ == self@.executed,
    {
        &self.executed
    }

    /// The versions recorded as applied.
    pub fn applied(&self) -> (r: &Vec<i64>)
        ensures
            r@.to_set() == self@.applied,
    {
        &self.recorded
    }

    #[verifier::when_used_as_spec(spec_accepts)]
    pub fn accepts(&self, e: &Event) -> (r: bool)
        ensures
            r == self.spec_accepts(e),
    {
        match self.phase {
            Phase::Uninitialized => matches!(e, Event::Opened { .. } | Event::OpenFailed),
            Phase::Bootstrapping => matches!(e, Event::BookkeepingCreated),
            Phase::Applying(_) => matches!(e, Event::Applied | Event::ApplyFailed { .. }),
            _ => false,
        }
    }
}

fn vec_contains(v: &Vec<i64>, x: i64) -> (r: bool)
    ensures
        r == v@.contains(x),
{
    let mut i: usize = 0;
    while i < v.len()
        invariant
            0 <= i <= v.len(),
            forall|j: int| 0 <= j < i ==> v@[j] != x,
        decreases v.len() - i,
    {
        if v[i] == x {
            return true;
        }
        i = i + 1;
    }
    false
}

/// A run of the whole list, every script succeeding, followed by a second run
/// of the same list: the second run finds every version recorded, so it runs
/// no script and leaves the bookkeeping as the first run left it.
pub proof fn lemma_rerun_applies_nothing(vs: Seq<i64>, applied: Set<i64>)
    ensures
        all_applied(vs, after_run(vs, applied)),
        forall|i: int| !is_next_pending(vs, after_run(vs, applied), i),
        after_run(vs, after_run(vs, applied)) == after_run(vs, applied),
{
    let once = after_run(vs, applied);
    assert forall|i: int| 0 <= i < vs.len() implies once.contains(vs[i]) by {
        assert(vs.contains(vs[i]));
    }
    assert(after_run(vs, once) =~= once);
}

impl Migrator {
    /// While a script runs, every lower version of the list is already
    /// recorded as applied, and every script run earlier in this run had a
    /// lower version: scripts run one at a time, in ascending version order.
    pub proof fn lemma_lower_versions_first(&self, v: i64)
        requires
            self.wf(),
            self@.phase == Phase::Applying(v),
        ensures
            forall|i: int|
                0 <= i < versions(self@.migrations).len() && versions(self@.migrations)[i] < v
                    ==> self@.applied.contains(versions(self@.migrations)[i]),
            forall|k: int| 0 <= k < self@.executed.len() ==> self@.executed[k] < v,
    {
        let m = self@;
        let vs = versions(m.migrations);
        let i0 = choose|i: int| #[trigger] is_next_pending(vs, m.applied, i) && vs[i] == v;
        assert forall|i: int| 0 <= i < vs.len() && vs[i] < v implies m.applied.contains(vs[i]) by {
            if i >= i0 {
                if i > i0 {
                    assert(vs[i0] < vs[i]);
                }
            }
        }
        assert forall|k: int| 0 <= k < m.executed.len() implies m.executed[k] < v by {
            if m.executed[k] >= v {
                assert(vs[i0] <= m.executed[k]);
                assert(m.applied.contains(vs[i0]));
            }
        }
    }

    /// A run that reached `UpToDate` recorded exactly the versions it found
    /// plus the whole list, and leaves no version pending for the next run.
    pub proof fn lemma_finished_run_complete(&self)
        requires
            self.wf(),
            self@.phase == Phase::UpToDate,
        ensures
            self@.applied == after_run(versions(self@.migrations), self@.initial),
            forall|i: int| !is_next_pending(versions(self@.migrations), self@.applied, i),
    {
    }

    /// Picks the first version that the bookkeeping does not record.
    fn next_step(&mut self) -> (act: Action)
        requires
            old(self).wf_core(),
        ensures
            final(self).wf(),
            next_outcome(final(self)@, act),
            final(self)@.migrations == old(self)@.migrations,
            final(self)@.applied == old(self)@.applied,
            final(self)@.executed == old(self)@.executed,
            final(self)@.initial == old(self)@.initial,
    {
        let ghost vs = versions(self@.migrations);
        let mut i: usize = 0;
        while i < self.migrations.len()
            invariant
                0 <= i <= self.migrations.len(),
                *self == *old(self),
                self.wf_core(),
                vs == versions(self@.migrations),
                forall|j: int| 0 <= j < i ==> self@.applied.contains(vs[j]),
            decreases self.migrations.len() - i,
        {
            let m = self.migrations[i];
            if !vec_contains(&self.recorded, m.version) {
                self.phase = Phase::Applying(m.version);
                assert(is_next_pending(vs, self@.applied, i as int));
                return Action::Apply { version: m.version, sql: m.sql };
            }
            i = i + 1;
        }
        self.phase = Phase::UpToDate;
        proof {
            let s = self@;
            assert forall|x: i64| s.applied.contains(x) == after_run(vs, s.initial).contains(x) by {
                if vs.contains(x) {
                    let j = choose|j: int| 0 <= j < vs.len() && vs[j] == x;
                    assert(s.applied.contains(vs[j]));
                }
                if s.executed.contains(x) {
                    let k = choose|k: int| 0 <= k < s.executed.len() && s.executed[k] == x;
                    assert(vs.contains(s.executed[k]));
                }
            }
            assert(s.applied =~= after_run(vs, s.initial));
        }
        Action::Finish
    }

    /// Takes the host's report of the last step and says what to do next.
    pub fn handle(&mut self, event: Event) -> (act: Action)
        requires
            old(self).wf(),
            old(self).accepts(&event),
        ensures
            final(self).wf(),
            final(self)@.migrations == old(self)@.migrations,
            match (old(self)@.phase, event) {
                (Phase::Uninitialized, Event::OpenFailed) => act == Action::Abort(
                    MigrateError::StoreUnavailable,
                ) && final(self)@.phase == Phase::Unavailable && final(self)@.applied
                    == old(self)@.applied && final(self)@.executed == old(self)@.executed,
                (Phase::Uninitialized, Event::Opened { bookkeeping, applied }) => if bookkeeping {
                    &&& final(self)@.initial == applied@.to_set()
                    &&& final(self)@.applied == applied@.to_set()
                    &&& final(self)@.executed.len() == 0
                    &&& next_outcome(final(self)@, act)
                } else {
                    &&& act is CreateBookkeeping
                    &&& final(self)@.phase == Phase::Bootstrapping
                    &&& final(self)@.applied.is_empty()
                    &&& final(self)@.executed.len() == 0
                },
                (Phase::Bootstrapping, Event::BookkeepingCreated) => {
                    &&& final(self)@.applied == old(self)@.applied
                    &&& final(self)@.executed == old(self)@.executed
                    &&& next_outcome(final(self)@, act)
                },
                (Phase::Applying(v), Event::Applied) => {
                    &&& final(self)@.applied == old(self)@.applied.insert(v)
                    &&& final(self)@.executed == old(self)@.executed.push(v)
                    &&& final(self)@.initial == old(self)@.initial
                    &&& next_outcome(final(self)@, act)
                },
                (Phase::Applying(v), Event::ApplyFailed { cause }) => {
                    &&& act == Action::Abort(MigrateError::MigrationFailed { version: v, cause })
                    &&& final(self)@.phase == Phase::Failed(v)
                    &&& final(self)@.applied == old(self)@.applied
                    &&& final(self)@.executed == old(self)@.executed
                },
                _ => false,
            },
    {
        match event {
            Event::OpenFailed => {
                self.phase = Phase::Unavailable;
                Action::Abort(MigrateError::StoreUnavailable)
            },
            Event::Opened { bookkeeping, applied } => {
                if bookkeeping {
                    self.recorded = applied;
                    self.initial = Ghost(self.recorded@.to_set());
                    proof {
                        let s = self@;
                        assert(s.executed.to_set() =~= Set::empty());
                        assert(s.applied =~= s.initial.union(s.executed.to_set()));
                    }
                    self.next_step()
                } else {
                    self.phase = Phase::Bootstrapping;
                    Action::CreateBookkeeping
                }
            },
            Event::BookkeepingCreated => self.next_step(),
            Event::Applied => {
                let v = match self.phase {
                    Phase::Applying(v) => v,
                    _ => 0,
                };
                let ghost pre = self@;
                let ghost vs = versions(pre.migrations);
                proof {
                    self.lemma_lower_versions_first(v);
                }
                self.recorded.push(v);
                self.executed.push(v);
                proof {
                    let s = self@;
                    let i0 = choose|i: int| #[trigger] is_next_pending(vs, pre.applied, i) && vs[i] == v;
                    assert(s.applied =~= pre.applied.insert(v)) by {
                        assert forall|x: i64| s.applied.contains(x) == pre.applied.insert(v).contains(x) by {
                            if self.recorded@.contains(x) {
                                let j = choose|j: int| 0 <= j < self.recorded@.len() && self.recorded@[j] == x;
                                if j < self.recorded@.len() - 1 {
                                    assert(old(self).recorded@[j] == x);
                                }
                            }
                            if pre.applied.contains(x) {
                                let j = choose|j: int| 0 <= j < old(self).recorded@.len() && old(self).recorded@[j] == x;
                                assert(self.recorded@[j] == x);
                            }
                            if x == v {
                                assert(self.recorded@[self.recorded@.len() - 1] == x);
                            }
                        }
                    }
                    assert forall|x: i64| s.executed.to_set().contains(x) == pre.executed.to_set().insert(v).contains(x) by {
                        if s.executed.contains(x) {
                            let j = choose|j: int| 0 <= j < s.executed.len() && s.executed[j] == x;
                            if j < s.executed.len() - 1 {
                                assert(pre.executed[j] == x);
                            }
                        }
                        if pre.executed.contains(x) {
                            let j = choose|j: int| 0 <= j < pre.executed.len() && pre.executed[j] == x;
                            assert(s.executed[j] == x);
                        }
                        if x == v {
                            assert(s.executed[s.executed.len() - 1] == x);
                        }
                    }
                    assert(s.applied =~= s.initial.union(s.executed.to_set()));
                    assert forall|k: int| 0 <= k < s.executed.len() implies vs.contains(#[trigger] s.executed[k]) by {
                        if k == s.executed.len() - 1 {
                            assert(vs[i0] == v);
                        } else {
                            assert(s.executed[k] == pre.executed[k]);
                        }
                    }
                    assert forall|k: int, i: int|
                        0 <= k < s.executed.len() && 0 <= i < vs.len() && vs[i] <= #[trigger] s.executed[k]
                        implies s.applied.contains(#[trigger] vs[i]) by {
                        if k == s.executed.len() - 1 {
                            if vs[i] < v {
                                assert(pre.applied.contains(vs[i]));
                            }
                        } else {
                            assert(s.executed[k] == pre.executed[k]);
                            assert(pre.applied.contains(vs[i]));
                        }
                    }
                    assert forall|k: int, l: int| 0 <= k < l < s.executed.len()
                        implies s.executed[k] < s.executed[l] by {
                        assert(s.executed[k] == pre.executed[k]);
                        if l < s.executed.len() - 1 {
                            assert(s.executed[l] == pre.executed[l]);
                        }
                    }
                }
                self.next_step()
            },
            Event::ApplyFailed { cause } => {
                let v = match self.phase {
                    Phase::Applying(v) => v,
                    _ => 0,
                };
                self.phase = Phase::Failed(v);
                Action::Abort(MigrateError::MigrationFailed { version: v, cause })
            },
        }
    }
}

} // verus!
