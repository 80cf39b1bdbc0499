//! The room pruner: which channels beside a trigger are reclaimed, and how a
//! sweep keeps going past a failed deletion.
use vstd::prelude::*;

verus! {

/// What the pruner reads of a channel.
#[derive(PartialEq, Eq, Structural, Clone, Copy, Debug)]
pub struct ChannelInfo {
    pub id: u64,
    pub is_voice: bool,
    pub parent_id: Option<u64>,
}

/// Why a prune could not start its sweep.
#[derive(PartialEq, Eq, Structural, Clone, Copy, Debug)]
pub enum PruneError {
    /// The trigger channel could not be fetched.
    TriggerNotFound,
    /// The trigger channel belongs to no category.
    NoCategory,
    /// The channels of the category could not be listed.
    ListFailed,
}

/// How one deletion ended.
#[derive(PartialEq, Eq, Structural, Clone, Copy, Debug)]
pub enum DeleteOutcome {
    Deleted,
    /// Another sweep removed the channel first.
    AlreadyGone,
    Failed,
}

/// The category that a sweep from the trigger covers.
pub open spec fn sweep_category(trigger: Option<ChannelInfo>) -> Result<u64, PruneError> {
    match trigger {
        None => Err(PruneError::TriggerNotFound),
        Some(c) => match c.parent_id {
            None => Err(PruneError::NoCategory),
            Some(p) => Ok(p),
        },
    }
}

/// Resolves the category to sweep from the fetched trigger channel.
pub fn category_of_trigger(trigger: Option<ChannelInfo>) -> (r: Result<u64, PruneError>)
    ensures
        r == sweep_category(trigger),
{
    match trigger {
        None => Err(PruneError::TriggerNotFound),
        Some(c) => match c.parent_id {
            None => Err(PruneError::NoCategory),
            Some(p) => Ok(p),
        },
    }
}

pub open spec fn is_candidate(trigger: u64, category: u64, c: ChannelInfo) -> bool {
    c.is_voice && c.parent_id == Some(category) && c.id != trigger
}

/// The voice channels of `category` other than the trigger, in listed order.
pub open spec fn candidates_of(trigger: u64, category: u64, chans: Seq<ChannelInfo>) -> Seq<u64>
    decreases chans.len(),
{
    if chans.len() == 0 {
        Seq::empty()
    } else {
        let rest = candidates_of(trigger, category, chans.drop_last());
        if is_candidate(trigger, category, chans.last()) {
            rest.push(chans.last().id)
        } else {
            rest
        }
    }
}

/// Whether `id` is the identifier of a candidate channel among `chans`.
pub open spec fn listed_candidate(trigger: u64, category: u64, chans: Seq<ChannelInfo>, id: u64) -> bool {
    exists|j: int| 0 <= j < chans.len() && #[trigger] chans[j].id == id && is_candidate(trigger, category, chans[j])
}

proof fn lemma_candidates_are_candidates(trigger: u64, category: u64, chans: Seq<ChannelInfo>)
    ensures
        forall|i: int| 0 <= i < candidates_of(trigger, category, chans).len()
            ==> listed_candidate(trigger, category, chans, #[trigger] candidates_of(trigger, category, chans)[i]),
    decreases chans.len(),
{
    if chans.len() > 0 {
        let d = chans.drop_last();
        lemma_candidates_are_candidates(trigger, category, d);
        let s = candidates_of(trigger, category, chans);
        let rest = candidates_of(trigger, category, d);
        assert forall|i: int| 0 <= i < s.len() implies listed_candidate(trigger, category, chans, #[trigger] s[i]) by {
            if i < rest.len() {
                assert(s[i] == rest[i]);
                assert(listed_candidate(trigger, category, d, rest[i]));
                let j = choose|j: int| 0 <= j < d.len() && #[trigger] d[j].id == rest[i]
                    && is_candidate(trigger, category, d[j]);
                assert(chans[j] == d[j]);
                assert(chans[j].id == s[i] && is_candidate(trigger, category, chans[j]));
            } else {
                let j = chans.len() - 1;
                assert(chans[j] == chans.last());
                assert(chans[j].id == s[i] && is_candidate(trigger, category, chans[j]));
            }
        }
    }
}

/// Lists the channels that a sweep of `category` looks at.
pub fn prune_candidates(trigger: u64, category: u64, channels: &Vec<ChannelInfo>) -> (r: Vec<u64>)
    ensures
        r@ == candidates_of(trigger, category, channels@),
        !r@.contains(trigger),
{
    let mut r: Vec<u64> = Vec::new();
    let mut i: usize = 0;
    while i < channels.len()
        invariant
            i <= channels@.len(),
            r@ == candidates_of(trigger, category, channels@.take(i as int)),
        decreases channels@.len() - i,
    {
        assert(channels@.take(i + 1).drop_last() =~= channels@.take(i as int));
        let c = channels[i];
        if c.is_voice && c.parent_id == Some(category) && c.id != trigger {
            r.push(c.id);
        }
        i = i + 1;
    }
    assert(channels@.take(i as int) =~= channels@);
    proof {
        lemma_trigger_never_candidate(trigger, category, channels@);
    }
    r
}

/// The trigger channel is never a candidate for deletion, whatever its category holds.
pub proof fn lemma_trigger_never_candidate(trigger: u64, category: u64, chans: Seq<ChannelInfo>)
    ensures
        !candidates_of(trigger, category, chans).contains(trigger),
{
    lemma_candidates_are_candidates(trigger, category, chans);
    let s = candidates_of(trigger, category, chans);
    if s.contains(trigger) {
        let i = choose|i: int| 0 <= i < s.len() && s[i] == trigger;
        assert(listed_candidate(trigger, category, chans, s[i]));
        let j = choose|j: int| 0 <= j < chans.len() && #[trigger] chans[j].id == s[i]
            && is_candidate(trigger, category, chans[j]);
        assert(chans[j].id != trigger);
    }
}

/// Whether a candidate with `occupants` members in it is deleted.
pub fn should_delete(occupants: usize) -> (r: bool)
    ensures
        r == (occupants == 0),
{
    occupants == 0
}

/// The candidates of a snapshot `(channel, occupants)` that a sweep deletes, in order.
pub open spec fn deletions_of(counts: Seq<(u64, usize)>) -> Seq<u64>
    decreases counts.len(),
{
    if counts.len() == 0 {
        Seq::empty()
    } else {
        let rest = deletions_of(counts.drop_last());
        if counts.last().1 == 0 {
            rest.push(counts.last().0)
        } else {
            rest
        }
    }
}

/// The candidates of a snapshot that are still there after a sweep that deleted
/// every empty one.
pub open spec fn survivors_of(counts: Seq<(u64, usize)>) -> Seq<(u64, usize)>
    decreases counts.len(),
{
    if counts.len() == 0 {
        Seq::empty()
    } else {
        let rest = survivors_of(counts.drop_last());
        if counts.last().1 == 0 {
            rest
        } else {
            rest.push(counts.last())
        }
    }
}

/// Whether the snapshot `counts` read channel `id` as empty.
pub open spec fn read_empty(counts: Seq<(u64, usize)>, id: u64) -> bool {
    exists|j: int| 0 <= j < counts.len() && #[trigger] counts[j] == (id, 0usize)
}

proof fn lemma_deletions_were_empty(counts: Seq<(u64, usize)>)
    ensures
        forall|i: int| 0 <= i < deletions_of(counts).len()
            ==> read_empty(counts, #[trigger] deletions_of(counts)[i]),
    decreases counts.len(),
{
    if counts.len() > 0 {
        let d = counts.drop_last();
        lemma_deletions_were_empty(d);
        let s = deletions_of(counts);
        let rest = deletions_of(d);
        assert forall|i: int| 0 <= i < s.len() implies read_empty(counts, #[trigger] s[i]) by {
            if i < rest.len() {
                assert(s[i] == rest[i]);
                assert(read_empty(d, rest[i]));
                let j = choose|j: int| 0 <= j < d.len() && #[trigger] d[j] == (rest[i], 0usize);
                assert(counts[j] == d[j]);
            } else {
                let j = counts.len() - 1;
                assert(counts[j] == counts.last());
                assert(counts[j] == (s[i], 0usize));
            }
        }
    }
}

proof fn lemma_survivors_hold_no_deletion(counts: Seq<(u64, usize)>)
    ensures
        deletions_of(survivors_of(counts)).len() == 0,
    decreases counts.len(),
{
    if counts.len() > 0 {
        let d = counts.drop_last();
        lemma_survivors_hold_no_deletion(d);
        if counts.last().1 != 0 {
            assert(survivors_of(counts).drop_last() =~= survivors_of(d));
        }
    }
}

proof fn lemma_deletions_grow(obs: Seq<(u64, usize)>, x: (u64, usize))
    ensures
        forall|c: u64| deletions_of(obs).contains(c) ==> #[trigger] deletions_of(obs.push(x)).contains(c),
        x.1 == 0 ==> deletions_of(obs.push(x)).contains(x.0),
{
    let d = deletions_of(obs);
    assert(obs.push(x).drop_last() =~= obs);
    let e = deletions_of(obs.push(x));
    assert forall|c: u64| d.contains(c) implies #[trigger] e.contains(c) by {
        let k = choose|k: int| 0 <= k < d.len() && d[k] == c;
        assert(e[k] == c);
    }
    if x.1 == 0 {
        assert(e[e.len() - 1] == x.0);
    }
}

/// What one sweep has seen and done: each candidate's occupant count as it was
/// read, the channel awaiting the outcome of its deletion, and the channels
/// whose deletion succeeded or failed.
pub struct PruneReport {
    pub observed: Vec<(u64, usize)>,
    pub pending: Option<u64>,
    pub deleted: Vec<u64>,
    pub failed: Vec<u64>,
}

impl PruneReport {
    /// Every deletion that the report holds, or awaits, is of a channel that the
    /// sweep read as empty.
    pub open spec fn wf(&self) -> bool {
        let dels = deletions_of(self.observed@);
        &&& forall|i: int| 0 <= i < self.deleted@.len() ==> dels.contains(#[trigger] self.deleted@[i])
        &&& forall|i: int| 0 <= i < self.failed@.len() ==> dels.contains(#[trigger] self.failed@[i])
        &&& (self.pending matches Some(c) ==> dels.contains(c))
    }

    pub fn new() -> (r: PruneReport)
        ensures
            r.wf(),
            r.observed@.len() == 0,
            r.pending is None,
            r.deleted@.len() == 0,
            r.failed@.len() == 0,
    {
        PruneReport { observed: Vec::new(), pending: None, deleted: Vec::new(), failed: Vec::new() }
    }

    /// Takes the occupant count read for candidate `channel` and says whether
    /// the channel is to be deleted now; if so, it awaits the outcome.
    pub fn observe(&mut self, channel: u64, occupants: usize) -> (r: bool)
        ensures
            r == should_delete_spec(occupants),
            final(self).observed@ == old(self).observed@.push((channel, occupants)),
            final(self).pending == (if r { Some(channel) } else { None::<u64> }),
            final(self).deleted@ == old(self).deleted@,
            final(self).failed@ == old(self).failed@,
            old(self).wf() ==> final(self).wf(),
    {
        proof {
            lemma_deletions_grow(self.observed@, (channel, occupants));
        }
        self.observed.push((channel, occupants));
        let r = should_delete(occupants);
        self.pending = if r { Some(channel) } else { None };
        r
    }

    /// Records how the deletion of the pending channel ended, if one is pending.
    /// A channel that was already gone counts as neither deleted nor failed; a
    /// failure is kept for the record and the sweep goes on.
    pub fn record(&mut self, outcome: DeleteOutcome)
        ensures
            final(self).observed@ == old(self).observed@,
            final(self).pending is None,
            final(self).deleted@ == (match old(self).pending {
                Some(c) => if outcome == DeleteOutcome::Deleted {
                    old(self).deleted@.push(c)
                } else {
                    old(self).deleted@
                },
                None => old(self).deleted@,
            }),
            final(self).failed@ == (match old(self).pending {
                Some(c) => if outcome == DeleteOutcome::Failed {
                    old(self).failed@.push(c)
                } else {
                    old(self).failed@
                },
                None => old(self).failed@,
            }),
            old(self).wf() ==> final(self).wf(),
    {
        let ghost before = *self;
        if let Some(c) = self.pending {
            match outcome {
                DeleteOutcome::Deleted => self.deleted.push(c),
                DeleteOutcome::AlreadyGone => {},
                DeleteOutcome::Failed => self.failed.push(c),
            }
        }
        self.pending = None;
        proof {
            if before.wf() {
                let dels = deletions_of(self.observed@);
                assert forall|i: int| 0 <= i < self.deleted@.len() implies dels.contains(#[trigger] self.deleted@[i]) by {
                    if i < before.deleted@.len() {
                        assert(self.deleted@[i] == before.deleted@[i]);
                    }
                }
                assert forall|i: int| 0 <= i < self.failed@.len() implies dels.contains(#[trigger] self.failed@[i]) by {
                    if i < before.failed@.len() {
                        assert(self.failed@[i] == before.failed@[i]);
                    }
                }
            }
        }
    }
}

pub open spec fn should_delete_spec(occupants: usize) -> bool {
    occupants == 0
}

/// A channel with members in it is never deleted by a sweep: every channel whose
/// deletion a sweep attempted was read as empty by that sweep.
pub proof fn lemma_occupied_never_deleted(r: &PruneReport)
    requires
        r.wf(),
    ensures
        forall|i: int| 0 <= i < r.deleted@.len() ==> read_empty(r.observed@, #[trigger] r.deleted@[i]),
        forall|i: int| 0 <= i < r.failed@.len() ==> read_empty(r.observed@, #[trigger] r.failed@[i]),
{
    let obs = r.observed@;
    let dels = deletions_of(obs);
    lemma_deletions_were_empty(obs);
    assert forall|i: int| 0 <= i < r.deleted@.len() implies read_empty(obs, #[trigger] r.deleted@[i]) by {
        assert(dels.contains(r.deleted@[i]));
        let k = choose|k: int| 0 <= k < dels.len() && dels[k] == r.deleted@[i];
        assert(read_empty(obs, dels[k]));
    }
    assert forall|i: int| 0 <= i < r.failed@.len() implies read_empty(obs, #[trigger] r.failed@[i]) by {
        assert(dels.contains(r.failed@[i]));
        let k = choose|k: int| 0 <= k < dels.len() && dels[k] == r.failed@[i];
        assert(read_empty(obs, dels[k]));
    }
}

/// Pruning is idempotent: after a sweep that read the counts in `first`, a
/// second sweep that reads the same counts for the channels left standing
/// attempts no deletion at all.
pub proof fn lemma_second_sweep_deletes_nothing(first: &PruneReport, second: &PruneReport)
    requires
        second.wf(),
        second.observed@ == survivors_of(first.observed@),
    ensures
        second.deleted@.len() == 0,
        second.failed@.len() == 0,
        second.pending is None,
{
    lemma_survivors_hold_no_deletion(first.observed@);
    let dels = deletions_of(second.observed@);
    if second.deleted@.len() > 0 {
        assert(dels.contains(second.deleted@[0]));
    }
    if second.failed@.len() > 0 {
        assert(dels.contains(second.failed@[0]));
    }
}

} // verus!
