use vstd::prelude::*;

use crate::classify::Action;
use crate::manifest::{
    lemma_sum_sizes_prefix_le, sizes_of, sizes_sum, sum_sizes, update_needed, Manifest,
};

verus! {

/// What a sync did: how many files it checked, fetched and skipped, and how
/// many bytes the file set weighs and were fetched.
#[derive(Clone, Copy, Debug, PartialEq, Eq, Structural)]
pub struct SyncStats {
    pub checked: u64,
    pub downloaded: u64,
    pub skipped: u64,
    pub bytes_to_download: u64,
    pub bytes_downloaded: u64,
}

/// (checked, downloaded, skipped, bytes downloaded) over the first `k`
/// outcomes; an entry with no outcome yet adds nothing.
pub open spec fn tally(outcomes: Seq<Option<Action>>, sizes: Seq<u32>, k: int) -> (
    nat,
    nat,
    nat,
    nat,
)
    decreases k,
{
    if k <= 0 {
        (0, 0, 0, 0)
    } else {
        let t = tally(outcomes, sizes, k - 1);
        match outcomes[k - 1] {
            Some(Action::Verified) => (t.0 + 1, t.1, t.2, t.3),
            Some(Action::Download { .. }) => (t.0, t.1 + 1, t.2, t.3 + sizes[k - 1] as nat),
            Some(Action::Skip) => (t.0, t.1, t.2 + 1, t.3),
            None => t,
        }
    }
}

/// The totals over all outcomes.
pub open spec fn totals(outcomes: Seq<Option<Action>>, sizes: Seq<u32>) -> (nat, nat, nat, nat) {
    tally(outcomes, sizes, outcomes.len() as int)
}

/// The counters of `s` are the totals `t`.
pub open spec fn agrees(s: SyncStats, t: (nat, nat, nat, nat)) -> bool {
    &&& s.checked == t.0
    &&& s.downloaded == t.1
    &&& s.skipped == t.2
    &&& s.bytes_downloaded == t.3
}

/// Every entry has an outcome.
pub open spec fn all_done(outcomes: Seq<Option<Action>>) -> bool {
    forall|i: int| 0 <= i < outcomes.len() ==> (#[trigger] outcomes[i]) is Some
}

/// The outcomes of a run in which entry `i` ended with `actions[i]`.
pub open spec fn finished(actions: Seq<Action>) -> Seq<Option<Action>> {
    actions.map_values(|a: Action| Some(a))
}

impl SyncStats {
    /// The stats of a sync that had nothing to do.
    pub fn none() -> (r: SyncStats)
        ensures
            r.checked == 0 && r.downloaded == 0 && r.skipped == 0,
            r.bytes_to_download == 0 && r.bytes_downloaded == 0,
    {
        SyncStats { checked: 0, downloaded: 0, skipped: 0, bytes_to_download: 0, bytes_downloaded: 0 }
    }
}

/// The shared record of one sync: the outcome of each entry so far, the
/// counters, and whether some step failed. Entries may finish in any order;
/// the counters always equal the totals over the outcomes recorded.
pub struct SyncTally {
    stats: SyncStats,
    outcomes: Vec<Option<Action>>,
    sizes: Vec<u32>,
    failed: bool,
}

impl SyncTally {
    /// The outcome of each entry so far.
    pub closed spec fn outcomes(&self) -> Seq<Option<Action>> {
        self.outcomes@
    }

    /// The size of each entry.
    pub closed spec fn sizes(&self) -> Seq<u32> {
        self.sizes@
    }

    /// Whether some step of the sync failed.
    pub closed spec fn failed(&self) -> bool {
        self.failed
    }

    /// The counters as they stand.
    pub closed spec fn current(&self) -> SyncStats {
        self.stats
    }

    pub closed spec fn wf(&self) -> bool {
        &&& self.outcomes@.len() == self.sizes@.len()
        &&& sum_sizes(self.sizes@) <= u64::MAX
        &&& self.stats.bytes_to_download == sum_sizes(self.sizes@)
        &&& agrees(self.stats, totals(self.outcomes@, self.sizes@))
    }

    /// A tally for a sync to `remote`: no entry done, nothing counted, and
    /// the weight of the whole file set to be fetched.
    pub fn new(remote: &Manifest) -> (r: SyncTally)
        requires
            sizes_sum(remote.files@) <= u64::MAX,
        ensures
            r.wf(),
            r.sizes() == sizes_of(remote.files@),
            r.outcomes() == Seq::new(remote.files@.len(), |i: int| None::<Action>),
            !r.failed(),
            r.current() == (SyncStats {
                checked: 0,
                downloaded: 0,
                skipped: 0,
                bytes_to_download: sizes_sum(remote.files@) as u64,
                bytes_downloaded: 0,
            }),
    {
        let total = remote.total_bytes();
        let mut sizes: Vec<u32> = Vec::new();
        let mut outcomes: Vec<Option<Action>> = Vec::new();
        let mut i: usize = 0;
        while i < remote.files.len()
            invariant
                i <= remote.files@.len(),
                sizes@ == sizes_of(remote.files@).subrange(0, i as int),
                outcomes@ == Seq::new(i as nat, |k: int| None::<Action>),
            decreases remote.files@.len() - i,
        {
            sizes.push(remote.files[i].size);
            outcomes.push(None);
            i = i + 1;
            assert(sizes@ =~= sizes_of(remote.files@).subrange(0, i as int));
            assert(outcomes@ =~= Seq::new(i as nat, |k: int| None::<Action>));
        }
        assert(sizes@ =~= sizes_of(remote.files@));
        proof {
            lemma_tally_empty(outcomes@, sizes@, outcomes@.len() as int);
        }
        SyncTally {
            stats: SyncStats {
                checked: 0,
                downloaded: 0,
                skipped: 0,
                bytes_to_download: total,
                bytes_downloaded: 0,
            },
            outcomes,
            sizes,
            failed: false,
        }
    }

    /// Records that entry `index` ended with `action`. Refused, with nothing
    /// changed, when there is no such entry or it already has an outcome.
    pub fn record(&mut self, index: usize, action: Action) -> (r: bool)
        requires
            old(self).wf(),
        ensures
            final(self).wf(),
            r == (index < old(self).outcomes().len() && old(self).outcomes()[index as int] is None),
            r ==> final(self).outcomes() == old(self).outcomes().update(
                index as int,
                Some(action),
            ),
            !r ==> final(self).outcomes() == old(self).outcomes(),
            final(self).sizes() == old(self).sizes(),
            final(self).failed() == old(self).failed(),
            final(self).current().bytes_to_download == old(self).current().bytes_to_download,
            agrees(final(self).current(), totals(final(self).outcomes(), final(self).sizes())),
    {
        if index >= self.outcomes.len() || self.outcomes[index].is_some() {
            return false;
        }
        let size = self.sizes[index];
        proof {
            let o = self.outcomes@;
            let n = o.len() as int;
            lemma_tally_update(o, self.sizes@, index as int, action, n);
            lemma_tally_bounds(o.update(index as int, Some(action)), self.sizes@, n);
            lemma_sum_sizes_prefix_le(self.sizes@, n);
            assert(self.sizes@.subrange(0, n) =~= self.sizes@);
        }
        match action {
            Action::Verified => {
                self.stats.checked = self.stats.checked + 1;
            },
            Action::Download { .. } => {
                self.stats.downloaded = self.stats.downloaded + 1;
                self.stats.bytes_downloaded = self.stats.bytes_downloaded + size as u64;
            },
            Action::Skip => {
                self.stats.skipped = self.stats.skipped + 1;
            },
        }
        self.outcomes.set(index, Some(action));
        true
    }

    /// Marks the sync as failed: it will not be committed.
    pub fn fail(&mut self)
        requires
            old(self).wf(),
        ensures
            final(self).wf(),
            final(self).failed(),
            final(self).outcomes() == old(self).outcomes(),
            final(self).sizes() == old(self).sizes(),
            final(self).current() == old(self).current(),
    {
        self.failed = true;
    }

    /// Whether every entry has an outcome.
    pub fn is_complete(&self) -> (r: bool)
        requires
            self.wf(),
        ensures
            r == all_done(self.outcomes()),
    {
        let mut i: usize = 0;
        while i < self.outcomes.len()
            invariant
                i <= self.outcomes@.len(),
                forall|k: int| 0 <= k < i ==> (#[trigger] self.outcomes@[k]) is Some,
            decreases self.outcomes@.len() - i,
        {
            if self.outcomes[i].is_none() {
                return false;
            }
            i = i + 1;
        }
        true
    }

    /// The counters as they stand.
    pub fn stats(&self) -> (r: SyncStats)
        requires
            self.wf(),
        ensures
            r == self.current(),
            agrees(r, totals(self.outcomes(), self.sizes())),
    {
        self.stats
    }

    /// The final stats, when the sync may be committed: no step failed and
    /// every entry has an outcome. They are then the totals over the
    /// outcomes, whatever order the entries finished in.
    pub fn finish(&self) -> (r: Option<SyncStats>)
        requires
            self.wf(),
        ensures
            r is Some <==> (!self.failed() && all_done(self.outcomes())),
            r is Some ==> r->0 == self.current(),
            r is Some ==> agrees(r->0, totals(self.outcomes(), self.sizes())),
    {
        if self.failed || !self.is_complete() {
            None
        } else {
            Some(self.stats)
        }
    }
}

/// Starts a sync of `local` to `remote`: `None` when there is nothing to do
/// (the remote revision is not newer and the sync is not forced), otherwise
/// a fresh tally over the remote file set.
pub fn start_sync(remote: &Manifest, local: &Manifest, force: bool) -> (r: Option<SyncTally>)
    requires
        sizes_sum(remote.files@) <= u64::MAX,
    ensures
        r is None <==> !update_needed(remote.revision, local.revision, force),
        r is Some ==> r->0.wf() && !r->0.failed() && r->0.sizes() == sizes_of(remote.files@)
            && r->0.outcomes() == Seq::new(remote.files@.len(), |i: int| None::<Action>)
            && r->0.current() == (SyncStats {
            checked: 0,
            downloaded: 0,
            skipped: 0,
            bytes_to_download: sizes_sum(remote.files@) as u64,
            bytes_downloaded: 0,
        }),
{
    if crate::manifest::needs_update(remote.revision, local.revision, force) {
        Some(SyncTally::new(remote))
    } else {
        None
    }
}

/// With no outcome recorded, every total is zero.
pub proof fn lemma_tally_empty(outcomes: Seq<Option<Action>>, sizes: Seq<u32>, k: int)
    requires
        k <= outcomes.len(),
        forall|i: int| 0 <= i < outcomes.len() ==> (#[trigger] outcomes[i]) is None,
    ensures
        tally(outcomes, sizes, k) == (0nat, 0nat, 0nat, 0nat),
    decreases k,
{
    if k > 0 {
        lemma_tally_empty(outcomes, sizes, k - 1);
    }
}

/// Recording an outcome for an entry that had none adds that outcome's
/// share to the totals over any prefix that holds the entry.
pub proof fn lemma_tally_update(
    outcomes: Seq<Option<Action>>,
    sizes: Seq<u32>,
    i: int,
    a: Action,
    k: int,
)
    requires
        0 <= i < outcomes.len(),
        k <= outcomes.len(),
        outcomes[i] is None,
    ensures
        ({
            let t = tally(outcomes, sizes, k);
            let u = tally(outcomes.update(i, Some(a)), sizes, k);
            if k <= i {
                u == t
            } else {
                match a {
                    Action::Verified => u == (t.0 + 1, t.1, t.2, t.3),
                    Action::Download { .. } => u == (t.0, t.1 + 1, t.2, t.3 + sizes[i] as nat),
                    Action::Skip => u == (t.0, t.1, t.2 + 1, t.3),
                }
            }
        }),
    decreases k,
{
    if k > 0 {
        lemma_tally_update(outcomes, sizes, i, a, k - 1);
    }
}

/// Over a prefix of `k` entries at most `k` are counted, and the bytes
/// fetched are at most the sizes of that prefix.
pub proof fn lemma_tally_bounds(outcomes: Seq<Option<Action>>, sizes: Seq<u32>, k: int)
    requires
        0 <= k <= outcomes.len(),
        k <= sizes.len(),
    ensures
        ({
            let t = tally(outcomes, sizes, k);
            t.0 + t.1 + t.2 <= k && t.3 <= sum_sizes(sizes.subrange(0, k))
        }),
    decreases k,
{
    if k > 0 {
        lemma_tally_bounds(outcomes, sizes, k - 1);
        assert(sizes.subrange(0, k).drop_last() =~= sizes.subrange(0, k - 1));
    }
}

/// The outcomes left by recording `actions[i]` for each index `i` of
/// `order`, in that order, starting from `start`; as `SyncTally::record`
/// does, an index out of range or already done is refused.
pub open spec fn apply_records(
    start: Seq<Option<Action>>,
    order: Seq<int>,
    actions: Seq<Action>,
) -> Seq<Option<Action>>
    decreases order.len(),
{
    if order.len() == 0 {
        start
    } else {
        let prev = apply_records(start, order.drop_last(), actions);
        let i = order.last();
        if 0 <= i < prev.len() && prev[i] is None {
            prev.update(i, Some(actions[i]))
        } else {
            prev
        }
    }
}

/// No entry of `n` has an outcome yet.
pub open spec fn nothing_done(n: nat) -> Seq<Option<Action>> {
    Seq::new(n, |i: int| None::<Action>)
}

/// Every one of the `n` entries occurs in `order`.
pub open spec fn covers(order: Seq<int>, n: nat) -> bool {
    forall|j: int| 0 <= j < n ==> #[trigger] order.contains(j)
}

/// The outcomes after recording along `order` from nothing: each index
/// that occurs in `order` holds its action, the others hold none.
proof fn lemma_apply_records_from_nothing(n: nat, order: Seq<int>, actions: Seq<Action>)
    requires
        actions.len() == n,
    ensures
        apply_records(nothing_done(n), order, actions) == Seq::new(
            n,
            |j: int|
                if order.contains(j) {
                    Some(actions[j])
                } else {
                    None
                },
        ),
    decreases order.len(),
{
    if order.len() > 0 {
        let rest = order.drop_last();
        lemma_apply_records_from_nothing(n, rest, actions);
        let i = order.last();
        assert forall|j: int| 0 <= j < n implies #[trigger] order.contains(j) == (rest.contains(j)
            || j == i) by {
            if order.contains(j) {
                let k = choose|k: int| 0 <= k < order.len() && order[k] == j;
                if k < rest.len() {
                    assert(rest[k] == j);
                }
            }
            if rest.contains(j) {
                let k = choose|k: int| 0 <= k < rest.len() && rest[k] == j;
                assert(order[k] == j);
            }
            if j == i {
                assert(order[order.len() - 1] == j);
            }
        }
        assert(apply_records(nothing_done(n), order, actions) =~= Seq::new(
            n,
            |j: int|
                if order.contains(j) {
                    Some(actions[j])
                } else {
                    None
                },
        ));
    } else {
        assert(apply_records(nothing_done(n), order, actions) =~= Seq::new(
            n,
            |j: int|
                if order.contains(j) {
                    Some(actions[j])
                } else {
                    None
                },
        ));
    }
}

/// The order in which entries finish does not matter: recording every
/// entry's action, in any order, leaves the same outcomes as recording
/// them one by one in manifest order, and so the same totals.
pub proof fn lemma_completion_order_irrelevant(
    actions: Seq<Action>,
    sizes: Seq<u32>,
    order_a: Seq<int>,
    order_b: Seq<int>,
)
    requires
        covers(order_a, actions.len()),
        covers(order_b, actions.len()),
    ensures
        apply_records(nothing_done(actions.len()), order_a, actions) == finished(actions),
        apply_records(nothing_done(actions.len()), order_b, actions) == finished(actions),
        totals(apply_records(nothing_done(actions.len()), order_a, actions), sizes) == totals(
            apply_records(nothing_done(actions.len()), order_b, actions),
            sizes,
        ),
{
    let n = actions.len();
    lemma_apply_records_from_nothing(n, order_a, actions);
    lemma_apply_records_from_nothing(n, order_b, actions);
    assert(apply_records(nothing_done(n), order_a, actions) =~= finished(actions));
    assert(apply_records(nothing_done(n), order_b, actions) =~= finished(actions));
}

} // verus!
