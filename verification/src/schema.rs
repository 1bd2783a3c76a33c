//! The schema registry: an append-only, ordered list of versioned
//! migration steps, and their application to a store.
//!
//! Steps are applied in ascending order, each atomically, and the
//! recorded version advances with every applied step.  Applying the
//! registry to an up-to-date store is a no-op, so migration is
//! idempotent.  In this typed core the shipped step's transformation —
//! creating the three tables — is carried by the store's construction
//! itself, so applying a step never rewrites table contents, it only
//! records the version.

use vstd::prelude::*;
use vstd::string::StringExecFns;
use crate::errors::StoreError;
use crate::store::Store;

verus! {

/// One versioned, append-only transformation of the persisted schema.
pub struct MigrationStep {
    /// Monotonically increasing version number.
    pub version: u64,
    /// Human-readable description of the transformation.
    pub description: String,
}

/// Step versions are strictly increasing: steps are never reordered,
/// renumbered, or mutated once shipped.
pub open spec fn steps_increasing(steps: Seq<MigrationStep>) -> bool {
    forall|i: int, j: int|
        0 <= i < j < steps.len() ==> (#[trigger] steps[i]).version < (#[trigger] steps[j]).version
}

/// The version a store at `cur` reaches after applying `steps` in
/// order: each step with a higher version advances the recorded
/// version.
pub open spec fn migrated_version(cur: u64, steps: Seq<MigrationStep>) -> u64
    decreases steps.len(),
{
    if steps.len() == 0 {
        cur
    } else {
        migrated_version(
            if steps[0].version > cur {
                steps[0].version
            } else {
                cur
            },
            steps.skip(1),
        )
    }
}

/// The migrated version never falls below the starting version nor
/// below any step's version.
pub proof fn lemma_migrated_version_bounds(cur: u64, steps: Seq<MigrationStep>)
    ensures
        migrated_version(cur, steps) >= cur,
        forall|i: int|
            0 <= i < steps.len() ==> migrated_version(cur, steps) >= (
            #[trigger] steps[i]).version,
    decreases steps.len(),
{
    if steps.len() > 0 {
        let next: u64 = if steps[0].version > cur {
            steps[0].version
        } else {
            cur
        };
        lemma_migrated_version_bounds(next, steps.skip(1));
        assert forall|i: int| 0 <= i < steps.len() implies migrated_version(cur, steps) >= (
        #[trigger] steps[i]).version by {
            if i > 0 {
                assert(steps.skip(1)[i - 1] == steps[i]);
            }
        }
    }
}

/// A store already at or above every step's version is not moved.
pub proof fn lemma_migrated_version_stable(cur: u64, steps: Seq<MigrationStep>)
    requires
        forall|i: int| 0 <= i < steps.len() ==> cur >= (#[trigger] steps[i]).version,
    ensures
        migrated_version(cur, steps) == cur,
    decreases steps.len(),
{
    if steps.len() > 0 {
        assert(steps[0].version <= cur);
        assert forall|i: int| 0 <= i < steps.skip(1).len() implies cur >= (#[trigger] steps.skip(
            1,
        )[i]).version by {
            assert(steps.skip(1)[i] == steps[i + 1]);
        }
        lemma_migrated_version_stable(cur, steps.skip(1));
    }
}

/// Law: migration is idempotent.  Applying the same registry a second
/// time leaves the version — and, since application never rewrites
/// table contents, the whole store — unchanged.
pub proof fn lemma_migration_idempotent(cur: u64, steps: Seq<MigrationStep>)
    ensures
        migrated_version(migrated_version(cur, steps), steps) == migrated_version(cur, steps),
{
    lemma_migrated_version_bounds(cur, steps);
    lemma_migrated_version_stable(migrated_version(cur, steps), steps);
}

/// The registry shipped with this schema: one step that establishes the
/// three tables of the initial layout.
pub fn shipped_migrations() -> (r: Vec<MigrationStep>)
    ensures
        steps_increasing(r@),
        r@.len() == 1,
        r@[0].version == 1,
        r@[0].description@ == "create_initial_tables"@,
{
    let mut v: Vec<MigrationStep> = Vec::new();
    v.push(
        MigrationStep { version: 1, description: String::from_str("create_initial_tables") },
    );
    v
}

impl Store {
    /// Applies every pending step, in ascending order, recording the
    /// new version after each.  A registry whose versions are not
    /// strictly increasing is refused whole with `Migration` before
    /// anything is applied.  Re-running on an up-to-date store is a
    /// no-op; table contents are never rewritten.
    pub fn apply_migrations(&mut self, steps: &Vec<MigrationStep>) -> (r: Result<(), StoreError>)
        requires
            old(self).wf(),
        ensures
            final(self).wf(),
            final(self).events@ == old(self).events@,
            final(self).items@ == old(self).items@,
            final(self).canvas@ == old(self).canvas@,
            final(self).next_serial == old(self).next_serial,
            match r {
                Ok(()) => {
                    &&& steps_increasing(steps@)
                    &&& final(self).version == migrated_version(old(self).version, steps@)
                },
                Err(e) => {
                    &&& e == StoreError::Migration
                    &&& !steps_increasing(steps@)
                    &&& *final(self) == *old(self)
                },
            },
    {
        let n: usize = steps.len();
        let ghost orig = *self;
        let mut i: usize = 1;
        while i < n
            invariant
                *self == orig,
                orig == *old(self),
                orig.wf(),
                1 <= i,
                i <= n || n == 0,
                n == steps@.len(),
                forall|a: int, b: int|
                    0 <= a < b < i ==> (#[trigger] steps@[a]).version < (
                    #[trigger] steps@[b]).version,
            decreases n - i,
        {
            if steps[i - 1].version >= steps[i].version {
                proof {
                    assert(!steps_increasing(steps@));
                }
                return Err(StoreError::Migration);
            }
            proof {
                assert forall|a: int, b: int| 0 <= a < b < i + 1 implies (
                #[trigger] steps@[a]).version < (#[trigger] steps@[b]).version by {
                    if b == i {
                        if a < i - 1 {
                            assert(steps@[a].version < steps@[i - 1].version);
                        }
                    }
                }
            }
            i = i + 1;
        }
        let ghost pre = *self;
        proof {
            assert(steps@.skip(0) =~= steps@);
        }
        let mut k: usize = 0;
        while k < n
            invariant
                k <= n,
                n == steps@.len(),
                self.events@ == pre.events@,
                self.items@ == pre.items@,
                self.canvas@ == pre.canvas@,
                self.next_serial == pre.next_serial,
                self.wf(),
                migrated_version(pre.version, steps@) == migrated_version(
                    self.version,
                    steps@.skip(k as int),
                ),
            decreases n - k,
        {
            if steps[k].version > self.version {
                self.version = steps[k].version;
            }
            proof {
                let sk = steps@.skip(k as int);
                assert(sk[0] == steps@[k as int]);
                assert(sk.skip(1) =~= steps@.skip(k + 1));
            }
            k = k + 1;
        }
        proof {
            assert(steps@.skip(n as int) =~= Seq::<MigrationStep>::empty());
        }
        Ok(())
    }

    /// Opens a fresh store and brings it to the latest shipped schema
    /// version.
    pub fn open() -> (s: Store)
        ensures
            s.wf(),
            s.version == 1,
            s.events@.len() == 0,
            s.items@.len() == 0,
            s.canvas@.len() == 0,
    {
        let mut s = Store::new();
        let steps = shipped_migrations();
        let r = s.apply_migrations(&steps);
        proof {
            assert(steps@.skip(1) =~= Seq::<MigrationStep>::empty());
            assert(migrated_version(0, steps@) == migrated_version(1, steps@.skip(1)));
            assert(migrated_version(1, steps@.skip(1)) == 1);
        }
        match r {
            Ok(()) => {},
            Err(_e) => {},
        }
        s
    }
}

} // verus!
