//! Subscriber registry: the dynamic set of local subscriber connections.
//!
//! The registry owns the membership bookkeeping: which subscriber handles
//! exist, in what order a sweep visits them, and which survive a sweep. The
//! byte streams themselves live with the surrounding binary, keyed by the
//! handles issued here; after a broadcast or poll sweep it reports each
//! subscriber's outcome back, and the registry removes exactly the failed
//! ones. One subscriber's failure never touches another's membership.

use vstd::prelude::*;

verus! {

/// No handle occurs twice.
pub open spec fn unique_seq(s: Seq<u64>) -> bool {
    forall|p: int, q: int| 0 <= p < q < s.len() ==> s[p] != s[q]
}

/// The handles surviving a sweep, from index `i` on: those whose outcome
/// flag is true, in their original order.
pub open spec fn retained_from(ids: Seq<u64>, ok: Seq<bool>, i: int) -> Seq<u64>
    decreases ids.len() - i,
{
    if i < 0 || i >= ids.len() {
        Seq::empty()
    } else {
        (if ok[i] {
            seq![ids[i]]
        } else {
            Seq::empty()
        }) + retained_from(ids, ok, i + 1)
    }
}

/// The handles surviving a whole sweep.
pub open spec fn retained(ids: Seq<u64>, ok: Seq<bool>) -> Seq<u64> {
    retained_from(ids, ok, 0)
}

/// Everything retained was already a member, at or after the start index.
proof fn lemma_retained_members(ids: Seq<u64>, ok: Seq<bool>, i: int)
    requires
        ids.len() == ok.len(),
    ensures
        forall|x: u64|
            #[trigger] retained_from(ids, ok, i).contains(x) ==> exists|j: int|
                i <= j < ids.len() && ids[j] == x,
    decreases ids.len() - i,
{
    if 0 <= i < ids.len() {
        lemma_retained_members(ids, ok, i + 1);
        assert forall|x: u64| #[trigger]
            retained_from(ids, ok, i).contains(x) implies exists|j: int|
            i <= j < ids.len() && ids[j] == x by {
            let r = retained_from(ids, ok, i);
            let n = choose|n: int| 0 <= n < r.len() && r[n] == x;
            if ok[i] && n == 0 {
                assert(ids[i] == x);
            } else {
                let tail = retained_from(ids, ok, i + 1);
                let off: int = if ok[i] {
                    1
                } else {
                    0
                };
                assert(tail[n - off] == x);
                assert(tail.contains(x));
            }
        }
    }
}

/// A sweep keeps distinct handles distinct.
proof fn lemma_retained_unique(ids: Seq<u64>, ok: Seq<bool>, i: int)
    requires
        ids.len() == ok.len(),
        unique_seq(ids),
    ensures
        unique_seq(retained_from(ids, ok, i)),
        forall|x: u64|
            #[trigger] retained_from(ids, ok, i).contains(x) ==> exists|j: int|
                i <= j < ids.len() && ids[j] == x,
    decreases ids.len() - i,
{
    lemma_retained_members(ids, ok, i);
    if 0 <= i < ids.len() {
        lemma_retained_unique(ids, ok, i + 1);
        let r = retained_from(ids, ok, i);
        let tail = retained_from(ids, ok, i + 1);
        if ok[i] {
            assert forall|p: int, q: int| 0 <= p < q < r.len() implies r[p] != r[q] by {
                if p == 0 {
                    assert(r[q] == tail[q - 1]);
                    assert(tail.contains(tail[q - 1]));
                    let j = choose|j: int| i + 1 <= j < ids.len() && ids[j] == tail[q - 1];
                    assert(ids[i] != ids[j]);
                } else {
                    assert(r[p] == tail[p - 1] && r[q] == tail[q - 1]);
                }
            }
        }
    }
}

/// A sweep where only entry `k` fails removes exactly entry `k`.
proof fn lemma_single_failure(ids: Seq<u64>, ok: Seq<bool>, k: int, i: int)
    requires
        ids.len() == ok.len(),
        0 <= k < ids.len(),
        !ok[k],
        forall|j: int| 0 <= j < ok.len() && j != k ==> ok[j],
        0 <= i <= ids.len(),
    ensures
        i <= k ==> retained_from(ids, ok, i) == ids.subrange(i, ids.len() as int).remove(k - i),
        i > k ==> retained_from(ids, ok, i) == ids.subrange(i, ids.len() as int),
    decreases ids.len() - i,
{
    if i < ids.len() {
        lemma_single_failure(ids, ok, k, i + 1);
        let full = ids.subrange(i, ids.len() as int);
        let tail = ids.subrange(i + 1, ids.len() as int);
        if i < k {
            assert(retained_from(ids, ok, i) =~= seq![ids[i]] + tail.remove(k - i - 1));
            assert(full.remove(k - i) =~= seq![ids[i]] + tail.remove(k - i - 1));
        } else if i == k {
            assert(retained_from(ids, ok, i) =~= tail);
            assert(full.remove(0) =~= tail);
        } else {
            assert(retained_from(ids, ok, i) =~= full);
        }
    } else {
        assert(retained_from(ids, ok, i) =~= ids.subrange(i, ids.len() as int));
    }
}

/// Broadcast isolation: when one subscriber fails a sweep that every other
/// subscriber survives, the registry afterwards holds exactly the original
/// membership with that one entry removed, in order.
pub proof fn lemma_broadcast_isolation(ids: Seq<u64>, ok: Seq<bool>, k: int)
    requires
        ids.len() == ok.len(),
        0 <= k < ids.len(),
        !ok[k],
        forall|j: int| 0 <= j < ok.len() && j != k ==> ok[j],
    ensures
        retained(ids, ok) == ids.remove(k),
        retained(ids, ok).len() == ids.len() - 1,
{
    lemma_single_failure(ids, ok, k, 0);
    assert(ids.subrange(0, ids.len() as int) =~= ids);
}

/// What one poll sweep saw of one subscriber.
pub enum PollOutcome {
    /// The subscriber had a complete line ready.
    Line(Vec<u8>),
    /// Nothing to read within the bounded wait; not an error.
    Nothing,
    /// A hard read error; the subscriber is gone.
    Failed,
}

/// Mathematical image of [`PollOutcome`].
pub enum PollOutcomeV {
    Line { bytes: Seq<u8> },
    Nothing,
    Failed,
}

impl View for PollOutcome {
    type V = PollOutcomeV;

    open spec fn view(&self) -> PollOutcomeV {
        match self {
            PollOutcome::Line(v) => PollOutcomeV::Line { bytes: v@ },
            PollOutcome::Nothing => PollOutcomeV::Nothing,
            PollOutcome::Failed => PollOutcomeV::Failed,
        }
    }
}

/// The lines a poll sweep gathered, in sweep order, from index `i` on.
pub open spec fn inbound_lines_from(os: Seq<PollOutcomeV>, i: int) -> Seq<Seq<u8>>
    decreases os.len() - i,
{
    if i < 0 || i >= os.len() {
        Seq::empty()
    } else {
        (match os[i] {
            PollOutcomeV::Line { bytes } => seq![bytes],
            _ => Seq::empty(),
        }) + inbound_lines_from(os, i + 1)
    }
}

/// The lines a whole poll sweep gathered, in sweep order.
pub open spec fn inbound_lines_spec(os: Seq<PollOutcomeV>) -> Seq<Seq<u8>> {
    inbound_lines_from(os, 0)
}

/// Whether each polled subscriber survived: a timeout is not an error, only
/// a hard failure costs membership.
pub open spec fn poll_ok_spec(os: Seq<PollOutcomeV>) -> Seq<bool> {
    os.map_values(|o: PollOutcomeV| !(o is Failed))
}

/// The lines one poll sweep gathered, in sweep order. A subscriber with
/// nothing to say this cycle contributes nothing; a failed one neither.
pub fn inbound_lines(outcomes: &Vec<PollOutcome>) -> (lines: Vec<Vec<u8>>)
    ensures
        lines@.map_values(|l: Vec<u8>| l@) == inbound_lines_spec(
            outcomes@.map_values(|o: PollOutcome| o@),
        ),
{
    let ghost ov = outcomes@.map_values(|o: PollOutcome| o@);
    let mut lines: Vec<Vec<u8>> = Vec::new();
    let mut i: usize = 0;
    while i < outcomes.len()
        invariant
            i <= outcomes@.len(),
            ov == outcomes@.map_values(|o: PollOutcome| o@),
            lines@.map_values(|l: Vec<u8>| l@) + inbound_lines_from(ov, i as int)
                == inbound_lines_spec(ov),
        decreases outcomes@.len() - i,
    {
        match &outcomes[i] {
            PollOutcome::Line(v) => {
                lines.push(crate::codec::clone_bytes(v));
                proof {
                    assert(lines@.map_values(|l: Vec<u8>| l@) + inbound_lines_from(
                        ov,
                        i as int + 1,
                    ) =~~= inbound_lines_spec(ov));
                }
            },
            PollOutcome::Nothing => {
                proof {
                    assert(lines@.map_values(|l: Vec<u8>| l@) + inbound_lines_from(
                        ov,
                        i as int + 1,
                    ) =~~= inbound_lines_spec(ov));
                }
            },
            PollOutcome::Failed => {
                proof {
                    assert(lines@.map_values(|l: Vec<u8>| l@) + inbound_lines_from(
                        ov,
                        i as int + 1,
                    ) =~~= inbound_lines_spec(ov));
                }
            },
        }
        i = i + 1;
    }
    proof {
        assert(lines@.map_values(|l: Vec<u8>| l@) =~~= inbound_lines_spec(ov));
    }
    lines
}

/// Which subscribers survived a poll sweep: everyone whose outcome was not
/// a hard failure.
pub fn poll_ok_flags(outcomes: &Vec<PollOutcome>) -> (ok: Vec<bool>)
    ensures
        ok@ == poll_ok_spec(outcomes@.map_values(|o: PollOutcome| o@)),
{
    let mut ok: Vec<bool> = Vec::new();
    let mut i: usize = 0;
    while i < outcomes.len()
        invariant
            i <= outcomes@.len(),
            ok@.len() == i,
            forall|j: int| 0 <= j < i ==> ok@[j] == !(outcomes@[j]@ is Failed),
        decreases outcomes@.len() - i,
    {
        ok.push(!matches!(&outcomes[i], PollOutcome::Failed));
        i = i + 1;
    }
    proof {
        assert(ok@ =~= poll_ok_spec(outcomes@.map_values(|o: PollOutcome| o@)));
    }
    ok
}

/// The registry proper: the ordered membership and the next fresh handle.
pub struct Registry {
    pub subs: Vec<u64>,
    pub next_id: u64,
}

impl Registry {
    /// Well-formed: handles are unique and below the next fresh one.
    pub open spec fn wf(&self) -> bool {
        &&& unique_seq(self.subs@)
        &&& forall|i: int| 0 <= i < self.subs@.len() ==> self.subs@[i] < self.next_id
    }

    /// An empty registry.
    pub fn new() -> (r: Registry)
        ensures
            r.wf(),
            r.subs@ == Seq::<u64>::empty(),
            r.next_id == 0,
    {
        Registry { subs: Vec::new(), next_id: 0 }
    }

    /// A new subscriber connection was accepted: issue it a fresh handle and
    /// append it to the membership. It is visible to the next sweep.
    pub fn accept(&mut self) -> (id: u64)
        requires
            old(self).wf(),
            old(self).next_id < u64::MAX,
        ensures
            final(self).wf(),
            id == old(self).next_id,
            !old(self).subs@.contains(id),
            final(self).subs@ == old(self).subs@ + seq![id],
            final(self).next_id == old(self).next_id + 1,
    {
        let id = self.next_id;
        self.subs.push(id);
        self.next_id = self.next_id + 1;
        proof {
            assert forall|i: int, j: int|
                0 <= i < j < self.subs@.len() implies self.subs@[i] != self.subs@[j] by {
                if j < self.subs@.len() - 1 {
                    assert(old(self).subs@[i] != old(self).subs@[j]);
                }
            }
        }
        id
    }

    /// How many subscribers a sweep will visit.
    pub fn count(&self) -> (n: usize)
        ensures
            n == self.subs@.len(),
    {
        self.subs.len()
    }

    /// The handles a sweep visits, in sweep order.
    pub fn handles(&self) -> (r: &Vec<u64>)
        ensures
            r@ == self.subs@,
    {
        &self.subs
    }

    /// A sweep (broadcast or poll) finished: `ok[i]` says whether subscriber
    /// `i` of the visited order survived it. Failed subscribers — and only
    /// they — leave the registry; the survivors keep their order.
    pub fn apply_outcomes(&mut self, ok: &Vec<bool>)
        requires
            old(self).wf(),
            ok@.len() == old(self).subs@.len(),
        ensures
            final(self).wf(),
            final(self).subs@ == retained(old(self).subs@, ok@),
            final(self).next_id == old(self).next_id,
    {
        let ghost ids = self.subs@;
        let mut kept: Vec<u64> = Vec::new();
        let mut i: usize = 0;
        while i < self.subs.len()
            invariant
                i <= self.subs@.len(),
                ok@.len() == self.subs@.len(),
                self.subs@ == ids,
                kept@ + retained_from(ids, ok@, i as int) == retained(ids, ok@),
            decreases self.subs@.len() - i,
        {
            if ok[i] {
                kept.push(self.subs[i]);
                proof {
                    assert(kept@ + retained_from(ids, ok@, i as int + 1) =~= retained(
                        ids,
                        ok@,
                    ));
                }
            } else {
                proof {
                    assert(kept@ + retained_from(ids, ok@, i as int + 1) =~= retained(
                        ids,
                        ok@,
                    ));
                }
            }
            i = i + 1;
        }
        proof {
            assert(kept@ =~= retained(ids, ok@));
            lemma_retained_unique(ids, ok@, 0);
        }
        self.subs = kept;
        proof {
            assert forall|j: int|
                0 <= j < self.subs@.len() implies self.subs@[j] < self.next_id by {
                assert(self.subs@.contains(self.subs@[j]));
                let n = choose|n: int| 0 <= n < ids.len() && ids[n] == self.subs@[j];
            }
        }
    }
}

} // verus!
