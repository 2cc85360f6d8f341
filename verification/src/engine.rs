use vstd::prelude::*;

verus! {

use crate::errors::GovError;
use crate::ids::AccountId;
use crate::poll::{
    OptionView, Poll, PollOption, PollView, bump, fresh_options, label_views, max_votes,
    option_found, reset_votes, valid_option_list, views_of, vote_overflows, winners_of,
};
use crate::poll::lemma_winners_shape;

/// Proof that one voter has voted on one poll: its existence is itself the
/// duplicate-vote guard, one record per (poll, voter) key.
#[derive(Clone, Copy, Debug, PartialEq, Eq, Structural)]
pub struct VoteRecord {
    pub poll: usize,
    pub voter: AccountId,
    pub voted_option: u8,
}

/// What `finish_poll` reports: the sole winner's id and label, or the index
/// of the freshly spawned tie-break poll.
pub enum FinishReport {
    Winner { id: u8, label: String },
    TieBreak { new_poll: usize },
}

/// The explicit store the poll engine acts on: poll records addressed by
/// index, and one vote record per (poll, voter) key.
pub struct PollEngine {
    pub polls: Vec<Poll>,
    pub records: Vec<VoteRecord>,
}

/// The views of a sequence of polls.
pub open spec fn poll_views(s: Seq<Poll>) -> Seq<PollView> {
    s.map_values(|p: Poll| p@)
}

/// The mathematical value of a `PollEngine`.
pub struct EngineView {
    pub polls: Seq<PollView>,
    pub records: Seq<VoteRecord>,
}

impl View for PollEngine {
    type V = EngineView;

    open spec fn view(&self) -> EngineView {
        EngineView { polls: poll_views(self.polls@), records: self.records@ }
    }
}

/// Some record proves that `voter` has voted on poll `poll_id`.
pub open spec fn has_record(records: Seq<VoteRecord>, poll_id: usize, voter: AccountId) -> bool {
    exists|i: int|
        0 <= i < records.len() && (#[trigger] records[i]).poll == poll_id && records[i].voter
            == voter
}

impl EngineView {
    /// The engine invariant: every poll is well formed, every record names an
    /// existing poll, and (poll, voter) keys are unique.
    pub open spec fn wf(self) -> bool {
        &&& forall|p: int| 0 <= p < self.polls.len() ==> (#[trigger] self.polls[p]).wf()
        &&& forall|i: int|
            0 <= i < self.records.len() ==> (#[trigger] self.records[i]).poll < self.polls.len()
        &&& forall|i: int, j: int|
            0 <= i < j < self.records.len() ==> !((#[trigger] self.records[i]).poll == (
            #[trigger] self.records[j]).poll && self.records[i].voter == self.records[j].voter)
    }
}

impl PollEngine {
    /// An empty poll engine: no polls, no vote records.
    pub fn new() -> (r: PollEngine)
        ensures
            r@.polls.len() == 0,
            r@.records.len() == 0,
            r@.wf(),
    {
        PollEngine { polls: Vec::new(), records: Vec::new() }
    }
}

/// Whether the poll carries an option with the given id.
fn option_exists(p: &Poll, vote_id: u8) -> (r: bool)
    ensures
        r == option_found(p@.options, vote_id),
{
    let n = p.options.len();
    let mut k: usize = 0;
    while k < n
        invariant
            k <= n,
            n == p.options@.len(),
            forall|j: int| 0 <= j < k ==> (#[trigger] p@.options[j]).id != vote_id,
        decreases n - k,
    {
        if p.options[k].id == vote_id {
            proof {
                assert(p@.options[k as int].id == vote_id);
            }
            return true;
        }
        k += 1;
    }
    false
}

/// Creates a poll from the given labels and returns its index in the store.
/// Rejects a list that is empty, over capacity, or holds an over-long label;
/// on any error the store is unchanged.
pub fn initialize_poll(engine: &mut PollEngine, options: Vec<String>) -> (r: Result<
    usize,
    GovError,
>)
    requires
        old(engine)@.wf(),
    ensures
        final(engine)@.wf(),
        r is Ok <==> valid_option_list(label_views(options@)),
        !valid_option_list(label_views(options@)) ==> r == Err::<usize, GovError>(
            GovError::ValidationError,
        ),
        r is Err ==> final(engine)@ == old(engine)@,
        r is Ok ==> r == Ok::<usize, GovError>(old(engine)@.polls.len() as usize)
            && final(engine)@.polls == old(engine)@.polls.push(
            PollView { options: fresh_options(label_views(options@)), finished: false },
        ) && final(engine)@.records == old(engine)@.records,
{
    let mut poll = Poll::new();
    match poll.init(options) {
        Err(e) => Err(e),
        Ok(()) => {
            let idx = engine.polls.len();
            let ghost prev = engine@;
            engine.polls.push(poll);
            proof {
                assert(engine@.polls =~= prev.polls.push(poll@));
                assert forall|p: int| 0 <= p < engine@.polls.len() implies (
                #[trigger] engine@.polls[p]).wf() by {
                    if p < prev.polls.len() {
                        assert(prev.polls[p].wf());
                    } else {
                        assert(engine@.polls[p] == poll@);
                    }
                }
                assert forall|i: int| 0 <= i < engine@.records.len() implies (
                #[trigger] engine@.records[i]).poll < engine@.polls.len() by {
                    assert(prev.records[i].poll < prev.polls.len());
                }
            }
            Ok(idx)
        },
    }
}

/// Casts a weighted vote: adds `voting_power` to the chosen option of the
/// chosen poll and records `voter` as having voted, both as one unit. Refuses
/// an unknown poll, a finished poll, an unknown option id, a voter already
/// recorded on this poll, and an accumulator overflow, in that order; on any
/// error the store is unchanged.
pub fn vote(
    engine: &mut PollEngine,
    poll_id: usize,
    vote_id: u8,
    voter: AccountId,
    voting_power: u64,
) -> (r: Result<(), GovError>)
    requires
        old(engine)@.wf(),
    ensures
        final(engine)@.wf(),
        poll_id >= old(engine)@.polls.len() ==> r == Err::<(), GovError>(GovError::NotFound),
        poll_id < old(engine)@.polls.len() && old(engine)@.polls[poll_id as int].finished ==> r
            == Err::<(), GovError>(GovError::AlreadyFinished),
        poll_id < old(engine)@.polls.len() && !old(engine)@.polls[poll_id as int].finished
            && !option_found(old(engine)@.polls[poll_id as int].options, vote_id) ==> r == Err::<
            (),
            GovError,
        >(GovError::NotFound),
        poll_id < old(engine)@.polls.len() && !old(engine)@.polls[poll_id as int].finished
            && option_found(old(engine)@.polls[poll_id as int].options, vote_id) && has_record(
            old(engine)@.records,
            poll_id,
            voter,
        ) ==> r == Err::<(), GovError>(GovError::AlreadyVoted),
        poll_id < old(engine)@.polls.len() && !old(engine)@.polls[poll_id as int].finished
            && option_found(old(engine)@.polls[poll_id as int].options, vote_id) && !has_record(
            old(engine)@.records,
            poll_id,
            voter,
        ) && vote_overflows(old(engine)@.polls[poll_id as int].options, vote_id, voting_power)
            ==> r == Err::<(), GovError>(GovError::Overflow),
        r is Ok <==> poll_id < old(engine)@.polls.len()
            && !old(engine)@.polls[poll_id as int].finished && option_found(
            old(engine)@.polls[poll_id as int].options,
            vote_id,
        ) && !has_record(old(engine)@.records, poll_id, voter) && !vote_overflows(
            old(engine)@.polls[poll_id as int].options,
            vote_id,
            voting_power,
        ),
        r is Err ==> final(engine)@ == old(engine)@,
        r is Ok ==> final(engine)@.records == old(engine)@.records.push(
            VoteRecord { poll: poll_id, voter, voted_option: vote_id },
        ) && exists|k: int|
            #![trigger old(engine)@.polls[poll_id as int].options[k]]
            {
                &&& 0 <= k < old(engine)@.polls[poll_id as int].options.len()
                &&& old(engine)@.polls[poll_id as int].options[k].id == vote_id
                &&& final(engine)@.polls == old(engine)@.polls.update(
                    poll_id as int,
                    PollView {
                        options: old(engine)@.polls[poll_id as int].options.update(
                            k,
                            bump(old(engine)@.polls[poll_id as int].options[k], voting_power),
                        ),
                        finished: false,
                    },
                )
            },
{
    if poll_id >= engine.polls.len() {
        return Err(GovError::NotFound);
    }
    if engine.polls[poll_id].finished {
        return Err(GovError::AlreadyFinished);
    }
    if !option_exists(&engine.polls[poll_id], vote_id) {
        return Err(GovError::NotFound);
    }
    let nr = engine.records.len();
    let mut i: usize = 0;
    while i < nr
        invariant
            i <= nr,
            nr == engine.records@.len(),
            *engine == *old(engine),
            old(engine)@.wf(),
            poll_id < old(engine)@.polls.len(),
            !old(engine)@.polls[poll_id as int].finished,
            option_found(old(engine)@.polls[poll_id as int].options, vote_id),
            forall|j: int|
                0 <= j < i ==> !((#[trigger] engine@.records[j]).poll == poll_id
                    && engine@.records[j].voter == voter),
        decreases nr - i,
    {
        if engine.records[i].poll == poll_id && engine.records[i].voter == voter {
            proof {
                assert(has_record(engine@.records, poll_id, voter));
            }
            return Err(GovError::AlreadyVoted);
        }
        i += 1;
    }
    assert(!has_record(engine@.records, poll_id, voter));
    let ghost prev = engine@;
    proof {
        assert(engine@.polls[poll_id as int].wf());
    }
    let poll = &mut engine.polls[poll_id];
    let res = poll.vote(vote_id, voting_power);
    match res {
        Err(e) => {
            proof {
                assert(engine@.polls =~= prev.polls);
                assert(engine@ == old(engine)@);
                assert(vote_overflows(
                    old(engine)@.polls[poll_id as int].options,
                    vote_id,
                    voting_power,
                ));
            }
            Err(e)
        },
        Ok(()) => {
            proof {
                let opts = prev.polls[poll_id as int].options;
                let k = choose|k: int|
                    {
                        &&& 0 <= k < opts.len()
                        &&& (#[trigger] opts[k]).id == vote_id
                        &&& poll@.options == opts.update(k, bump(opts[k], voting_power))
                        &&& poll@.finished == prev.polls[poll_id as int].finished
                    };
                assert(engine@.polls =~= prev.polls.update(
                    poll_id as int,
                    PollView {
                        options: opts.update(k, bump(opts[k], voting_power)),
                        finished: false,
                    },
                ));
                assert(poll@.wf());
            }
            let ghost postpolls = engine@.polls;
            engine.records.push(VoteRecord { poll: poll_id, voter, voted_option: vote_id });
            proof {
                assert(engine@.polls == postpolls);
                assert forall|p: int| 0 <= p < engine@.polls.len() implies (
                #[trigger] engine@.polls[p]).wf() by {
                    if p != poll_id as int {
                        assert(engine@.polls[p] == old(engine)@.polls[p]);
                        assert(old(engine)@.polls[p].wf());
                    }
                }
                assert forall|i: int| 0 <= i < engine@.records.len() implies (
                #[trigger] engine@.records[i]).poll < engine@.polls.len() by {
                    if i < prev.records.len() {
                        assert(prev.records[i].poll < prev.polls.len());
                    }
                }
                assert forall|i: int, j: int|
                    0 <= i < j < engine@.records.len() implies !((
                #[trigger] engine@.records[i]).poll == (#[trigger] engine@.records[j]).poll
                    && engine@.records[i].voter == engine@.records[j].voter) by {
                    if j < prev.records.len() {
                        assert(!(prev.records[i].poll == prev.records[j].poll
                            && prev.records[i].voter == prev.records[j].voter));
                    } else {
                        assert(!(prev.records[i].poll == poll_id && prev.records[i].voter
                            == voter));
                    }
                }
            }
            Ok(())
        },
    }
}

/// Finishes a poll: computes the winners, marks the poll finished, and, on a
/// tie, spawns exactly one fresh open poll seeded with the tied options, ids
/// and labels kept, accumulators reset to zero. A sole winner is reported by
/// id and label and spawns nothing. Refuses an unknown poll and a second
/// finish; on any error the store is unchanged.
pub fn finish_poll(engine: &mut PollEngine, poll_id: usize) -> (r: Result<FinishReport, GovError>)
    requires
        old(engine)@.wf(),
    ensures
        final(engine)@.wf(),
        poll_id >= old(engine)@.polls.len() ==> r == Err::<FinishReport, GovError>(
            GovError::NotFound,
        ),
        poll_id < old(engine)@.polls.len() && old(engine)@.polls[poll_id as int].finished ==> r
            == Err::<FinishReport, GovError>(GovError::AlreadyFinished),
        r is Ok <==> poll_id < old(engine)@.polls.len()
            && !old(engine)@.polls[poll_id as int].finished,
        r is Err ==> final(engine)@ == old(engine)@,
        r is Ok ==> ({
            let opts = old(engine)@.polls[poll_id as int].options;
            let w = winners_of(opts, max_votes(opts) as u64);
            let closed = PollView { options: opts, finished: true };
            &&& w.len() >= 1
            &&& final(engine)@.records == old(engine)@.records
            &&& (w.len() > 1 ==> final(engine)@.polls == old(engine)@.polls.update(
                poll_id as int,
                closed,
            ).push(PollView { options: reset_votes(w), finished: false }) && r == Ok::<
                FinishReport,
                GovError,
            >(FinishReport::TieBreak { new_poll: old(engine)@.polls.len() as usize }))
            &&& (w.len() == 1 ==> final(engine)@.polls == old(engine)@.polls.update(
                poll_id as int,
                closed,
            ) && (match r {
                Ok(FinishReport::Winner { id, label }) => id == w[0].id && label@ == w[0].label,
                _ => false,
            }))
        }),
{
    if poll_id >= engine.polls.len() {
        return Err(GovError::NotFound);
    }
    if engine.polls[poll_id].finished {
        return Err(GovError::AlreadyFinished);
    }
    proof {
        assert(engine@.polls[poll_id as int].wf());
    }
    let (winners, max_v) = engine.polls[poll_id].calculate_winners();
    let ghost opts = engine@.polls[poll_id as int].options;
    let ghost w = winners_of(opts, max_votes(opts) as u64);
    proof {
        assert(max_v == max_votes(opts) as u64);
        assert(views_of(winners@) == w);
        assert(winners@.len() == w.len());
        lemma_winners_shape(opts, max_v);
    }
    if winners.len() > 1 {
        let new_idx = engine.polls.len();
        let mut tie = Poll::new();
        let _seeded = tie.init_from_previous(&winners);
        proof {
            assert(tie@.options == reset_votes(w));
            assert(tie@.options.len() == w.len());
            assert forall|i: int| 0 <= i < w.len() implies #[trigger] tie@.options[i]
                == (OptionView { id: w[i].id, label: w[i].label, votes: 0 }) by {
                assert(reset_votes(w)[i] == OptionView { id: w[i].id, label: w[i].label, votes: 0 });
            }
            assert forall|i: int| 0 <= i < w.len() implies 1 <= (#[trigger] w[i]).id
                && w[i].label.len() <= crate::poll::MAX_LABEL_CHARS by {
                let a = choose|a: int| 0 <= a < opts.len() && opts[a] == w[i];
                assert(1 <= opts[a].id);
                assert(opts[a].label.len() <= crate::poll::MAX_LABEL_CHARS);
            }
            assert(tie@.wf());
        }
        let ghost prev1 = engine@;
        engine.polls.push(tie);
        proof {
            assert(engine@.polls =~= prev1.polls.push(tie@));
        }
        let ghost prev2 = engine@;
        let poll = &mut engine.polls[poll_id];
        poll.finished = true;
        proof {
            assert(poll@.options == opts);
            assert(engine@.polls =~= prev2.polls.update(
                poll_id as int,
                PollView { options: opts, finished: true },
            ));
            assert(engine@.polls =~= old(engine)@.polls.update(
                poll_id as int,
                PollView { options: opts, finished: true },
            ).push(PollView { options: reset_votes(w), finished: false }));
            assert forall|p: int| 0 <= p < engine@.polls.len() implies (
            #[trigger] engine@.polls[p]).wf() by {
                if p == poll_id as int {
                    assert(old(engine)@.polls[p].wf());
                } else if p == old(engine)@.polls.len() {
                    assert(engine@.polls[p] == tie@);
                } else {
                    assert(engine@.polls[p] == old(engine)@.polls[p]);
                    assert(old(engine)@.polls[p].wf());
                }
            }
            assert forall|i: int| 0 <= i < engine@.records.len() implies (
            #[trigger] engine@.records[i]).poll < engine@.polls.len() by {
                assert(old(engine)@.records[i].poll < old(engine)@.polls.len());
            }
        }
        Ok(FinishReport::TieBreak { new_poll: new_idx })
    } else {
        let id = winners[0].id;
        let label = winners[0].label.clone();
        let ghost prev = engine@;
        let poll = &mut engine.polls[poll_id];
        poll.finished = true;
        proof {
            assert(poll@.options == opts);
            assert(engine@.polls =~= prev.polls.update(
                poll_id as int,
                PollView { options: opts, finished: true },
            ));
            assert(views_of(winners@)[0] == w[0]);
            assert(id == w[0].id && label@ == w[0].label);
            assert forall|p: int| 0 <= p < engine@.polls.len() implies (
            #[trigger] engine@.polls[p]).wf() by {
                if p == poll_id as int {
                    assert(old(engine)@.polls[p].wf());
                } else {
                    assert(engine@.polls[p] == old(engine)@.polls[p]);
                    assert(old(engine)@.polls[p].wf());
                }
            }
        }
        Ok(FinishReport::Winner { id, label })
    }
}

/// Read-only tally report: a copy of every option (id, label, accumulated
/// votes) together with the current maximum; the store is not touched.
pub fn tally_report(engine: &PollEngine, poll_id: usize) -> (r: Result<
    (Vec<PollOption>, u64),
    GovError,
>)
    ensures
        r is Ok <==> poll_id < engine@.polls.len(),
        poll_id >= engine@.polls.len() <==> r == Err::<(Vec<PollOption>, u64), GovError>(
            GovError::NotFound,
        ),
        r matches Ok(rep) ==> views_of(rep.0@) == engine@.polls[poll_id as int].options && rep.1
            == max_votes(engine@.polls[poll_id as int].options),
{
    if poll_id >= engine.polls.len() {
        return Err(GovError::NotFound);
    }
    let p = &engine.polls[poll_id];
    let n = p.options.len();
    let mut out: Vec<PollOption> = Vec::new();
    let mut i: usize = 0;
    while i < n
        invariant
            i <= n,
            n == p.options@.len(),
            out@.len() == i,
            forall|j: int|
                0 <= j < i ==> #[trigger] views_of(out@)[j] == views_of(p.options@)[j],
        decreases n - i,
    {
        let ghost prevo = out@;
        out.push(p.options[i].clone());
        proof {
            assert(forall|j: int|
                0 <= j < i ==> #[trigger] views_of(out@)[j] == views_of(prevo)[j]);
        }
        i += 1;
    }
    let (_winners, max_v) = p.calculate_winners();
    proof {
        assert(views_of(out@) =~= views_of(p.options@));
    }
    Ok((out, max_v))
}

} // verus!
