//! The job registry: one record per submitted job, found by identifier.
//!
//! Records are created at submission and never removed. A record only ever
//! moves forward: from `Pending` to `Processing`, and from `Processing` to
//! `Completed` or `Failed`. Every operation that would move one backward
//! leaves the registry as it was and says so.

use std::collections::HashMap;
use vstd::prelude::*;
use vstd::set_lib::*;

use crate::ident::{is_first_vacant, lemma_probe_injective, probe, successor};
use crate::job::{outcome_view, JobMetadata, JobRecord, Outcome};

verus! {

/// The mapping from job identifier to job record.
#[derive(Debug)]
pub struct JobRegistry {
    entries: HashMap<u128, JobMetadata>,
}

/// Every job known to `before` is known to `after`, with a record that is
/// the same or further along.
pub open spec fn moves_forward(before: Map<u128, JobRecord>, after: Map<u128, JobRecord>) -> bool {
    forall|id: u128| #[trigger]
        before.contains_key(id) ==> after.contains_key(id) && before[id].precedes(after[id])
}

/// Every record is consistent.
pub open spec fn all_consistent(records: Map<u128, JobRecord>) -> bool {
    forall|id: u128| #[trigger] records.contains_key(id) ==> records[id].consistent()
}

impl View for JobRegistry {
    type V = Map<u128, JobRecord>;

    closed spec fn view(&self) -> Map<u128, JobRecord> {
        self.entries@.map_values(|meta: JobMetadata| meta@)
    }
}

impl JobRegistry {
    /// The registry holds finitely many jobs, as many as fit a `usize`.
    pub proof fn lemma_finite(&self)
        ensures
            self@.dom().finite(),
            self@.dom().len() <= usize::MAX,
    {
        broadcast use vstd::std_specs::hash::group_hash_axioms;

        assert(self@.dom() =~= self.entries@.dom());
        assert(self.entries@.len() == vstd::std_specs::hash::spec_hash_map_len(&self.entries));
    }

    /// An empty registry.
    pub fn new() -> (registry: JobRegistry)
        ensures
            registry@ == Map::<u128, JobRecord>::empty(),
    {
        let registry = JobRegistry { entries: HashMap::new() };
        assert(registry@ =~= Map::<u128, JobRecord>::empty());
        registry
    }

    /// How many jobs the registry knows.
    pub fn len(&self) -> (count: usize)
        ensures
            count == self@.dom().len(),
    {
        broadcast use vstd::std_specs::hash::group_hash_axioms;

        assert(self@.dom() =~= self.entries@.dom());
        self.entries.len()
    }

    /// Whether a job with this identifier has been registered.
    pub fn contains(&self, id: u128) -> (known: bool)
        ensures
            known == self@.contains_key(id),
    {
        broadcast use vstd::std_specs::hash::group_hash_axioms;

        self.entries.contains_key(&id)
    }

    /// A copy of the record of job `id`, or `None` for an identifier that
    /// was never registered.
    pub fn get(&self, id: u128) -> (found: Option<JobMetadata>)
        ensures
            match found {
                Some(meta) => self@.contains_key(id) && meta@ == self@[id],
                None => !self@.contains_key(id),
            },
    {
        broadcast use vstd::std_specs::hash::group_hash_axioms;

        match self.entries.get(&id) {
            Some(meta) => Some(meta.snapshot()),
            None => None,
        }
    }

    /// The first identifier at or after `candidate` that no job carries.
    pub fn first_vacant(&self, candidate: u128) -> (id: u128)
        ensures
            is_first_vacant(self@.dom(), candidate, id),
            !self@.contains_key(id),
            !self@.contains_key(candidate) ==> id == candidate,
    {
        let mut id: u128 = candidate;
        let ghost mut steps: nat = 0;
        let ghost mut seen: Set<u128> = Set::empty();
        proof {
            self.lemma_finite();
        }
        while self.contains(id)
            invariant
                self@.dom().finite(),
                self@.dom().len() <= usize::MAX,
                steps <= self@.dom().len(),
                id == probe(candidate, steps),
                seen.finite(),
                seen.len() == steps,
                seen.subset_of(self@.dom()),
                forall|earlier: nat|
                    earlier < steps ==> seen.contains(#[trigger] probe(candidate, earlier)),
                forall|x: u128|
                    seen.contains(x) ==> exists|earlier: nat|
                        earlier < steps && x == #[trigger] probe(candidate, earlier),
            decreases self@.dom().len() - steps,
        {
            proof {
                if seen.contains(id) {
                    let earlier = choose|earlier: nat|
                        earlier < steps && id == #[trigger] probe(candidate, earlier);
                    lemma_probe_injective(candidate, earlier, steps);
                }
                let grown = seen.insert(id);
                assert(grown.subset_of(self@.dom()));
                lemma_len_subset(grown, self@.dom());
                assert forall|x: u128| grown.contains(x) implies exists|earlier: nat|
                    earlier < steps + 1 && x == #[trigger] probe(candidate, earlier) by {
                    if x == id {
                        assert(x == probe(candidate, steps));
                    } else {
                        let earlier = choose|earlier: nat|
                            earlier < steps && x == #[trigger] probe(candidate, earlier);
                        assert(earlier < steps + 1 && x == probe(candidate, earlier));
                    }
                }
                seen = grown;
                steps = steps + 1;
            }
            id = successor(id);
        }
        proof {
            assert(id == probe(candidate, steps));
            if !self@.contains_key(candidate) {
                if steps > 0 {
                    assert(seen.contains(probe(candidate, 0)));
                }
            }
        }
        id
    }

    /// Registers a new job as `Pending`, with no result.
    ///
    /// An identifier that a job already carries is refused: the registry
    /// stays as it was and the call returns `false`.
    pub fn register(&mut self, id: u128) -> (added: bool)
        ensures
            added == !old(self)@.contains_key(id),
            added ==> final(self)@ == old(self)@.insert(id, JobRecord::pending()),
            !added ==> final(self)@ == old(self)@,
            moves_forward(old(self)@, final(self)@),
            all_consistent(old(self)@) ==> all_consistent(final(self)@),
    {
        broadcast use vstd::std_specs::hash::group_hash_axioms;

        if self.entries.contains_key(&id) {
            false
        } else {
            self.entries.insert(id, JobMetadata::pending());
            assert(self@ =~= old(self)@.insert(id, JobRecord::pending()));
            true
        }
    }

    /// Marks job `id` as `Processing` when a worker claims it.
    ///
    /// Only a `Pending` job can be claimed; for any other identifier the
    /// registry stays as it was and the call returns `false`.
    pub fn mark_processing(&mut self, id: u128) -> (marked: bool)
        ensures
            marked == (old(self)@.contains_key(id) && old(self)@[id].state is Pending),
            marked ==> final(self)@ == old(self)@.insert(id, JobRecord::processing()),
            !marked ==> final(self)@ == old(self)@,
            moves_forward(old(self)@, final(self)@),
            all_consistent(old(self)@) ==> all_consistent(final(self)@),
    {
        broadcast use vstd::std_specs::hash::group_hash_axioms;

        let claimable = match self.entries.get(&id) {
            Some(meta) => matches!(meta.state, crate::job::JobStatus::Pending),
            None => false,
        };
        if claimable {
            self.entries.insert(id, JobMetadata::processing());
            assert(self@ =~= old(self)@.insert(id, JobRecord::processing()));
        }
        claimable
    }

    /// Records what the payload of job `id` returned: `Completed` with the
    /// success text as result, or `Failed` with the reason, which is also
    /// the result.
    ///
    /// Only a `Processing` job can settle; for any other identifier the
    /// registry stays as it was and the call returns `false`.
    pub fn record_outcome(&mut self, id: u128, outcome: Result<String, String>) -> (recorded: bool)
        ensures
            recorded == (old(self)@.contains_key(id) && old(self)@[id].state is Processing),
            recorded ==> final(self)@ == old(self)@.insert(
                id,
                JobRecord::settled(outcome_view(outcome)),
            ),
            !recorded ==> final(self)@ == old(self)@,
            moves_forward(old(self)@, final(self)@),
            all_consistent(old(self)@) ==> all_consistent(final(self)@),
    {
        broadcast use vstd::std_specs::hash::group_hash_axioms;

        let running = match self.entries.get(&id) {
            Some(meta) => matches!(meta.state, crate::job::JobStatus::Processing),
            None => false,
        };
        if running {
            let ghost settled: Outcome = outcome_view(outcome);
            self.entries.insert(id, JobMetadata::settled(outcome));
            assert(self@ =~= old(self)@.insert(id, JobRecord::settled(settled)));
        }
        running
    }
}

} // verus!
