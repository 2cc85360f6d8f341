use vstd::prelude::*;

verus! {

use vstd::string::StrSliceExecFns;
use crate::errors::GovError;

/// Most characters a poll option's label may hold.
pub const MAX_LABEL_CHARS: usize = 50;

/// Most options one poll record has room for: its fixed allocated capacity.
pub const MAX_POLL_OPTIONS: usize = 32;

/// One choice of a poll: a stable 1-based id, a display label, and the
/// accumulated vote weight.
pub struct PollOption {
    pub id: u8,
    pub label: String,
    pub votes: u64,
}

/// The mathematical value of a `PollOption`.
pub struct OptionView {
    pub id: u8,
    pub label: Seq<char>,
    pub votes: u64,
}

impl View for PollOption {
    type V = OptionView;

    open spec fn view(&self) -> OptionView {
        OptionView { id: self.id, label: self.label@, votes: self.votes }
    }
}

impl Clone for PollOption {
    fn clone(&self) -> (r: Self)
        ensures
            r@ == self@,
    {
        PollOption { id: self.id, label: self.label.clone(), votes: self.votes }
    }
}

/// The views of a sequence of options.
pub open spec fn views_of(s: Seq<PollOption>) -> Seq<OptionView> {
    s.map_values(|o: PollOption| o@)
}

/// The views of a sequence of labels.
pub open spec fn label_views(s: Seq<String>) -> Seq<Seq<char>> {
    s.map_values(|x: String| x@)
}

/// Every label fits the length bound.
pub open spec fn valid_labels(labels: Seq<Seq<char>>) -> bool {
    forall|i: int| 0 <= i < labels.len() ==> (#[trigger] labels[i]).len() <= MAX_LABEL_CHARS
}

/// A label list a poll can be initialized from: non-empty, within capacity,
/// all labels within the length bound.
pub open spec fn valid_option_list(labels: Seq<Seq<char>>) -> bool {
    &&& 1 <= labels.len() <= MAX_POLL_OPTIONS
    &&& valid_labels(labels)
}

/// The options a fresh poll gets from a label list: sequential ids from 1 in
/// input order, all accumulators zero.
pub open spec fn fresh_options(labels: Seq<Seq<char>>) -> Seq<OptionView> {
    Seq::new(labels.len(), |i: int| OptionView { id: (i + 1) as u8, label: labels[i], votes: 0 })
}

/// The given options with their accumulators reset to zero, ids and labels
/// kept: what a tie-break poll is seeded with.
pub open spec fn reset_votes(opts: Seq<OptionView>) -> Seq<OptionView> {
    opts.map_values(|o: OptionView| OptionView { id: o.id, label: o.label, votes: 0 })
}

/// The option `o` with `power` added to its accumulator.
pub open spec fn bump(o: OptionView, power: u64) -> OptionView {
    OptionView { id: o.id, label: o.label, votes: (o.votes + power) as u64 }
}

/// Some option carries the given id.
pub open spec fn option_found(opts: Seq<OptionView>, id: u8) -> bool {
    exists|k: int| 0 <= k < opts.len() && (#[trigger] opts[k]).id == id
}

/// Adding `power` to the accumulator of the option carrying `id` would exceed
/// the accumulator's range.
pub open spec fn vote_overflows(opts: Seq<OptionView>, id: u8, power: u64) -> bool {
    exists|k: int|
        0 <= k < opts.len() && (#[trigger] opts[k]).id == id && opts[k].votes + power > u64::MAX
}

/// The largest accumulator among the options, zero when there are none.
pub open spec fn max_votes(opts: Seq<OptionView>) -> int
    decreases opts.len(),
{
    if opts.len() == 0 {
        0
    } else {
        let rest = max_votes(opts.drop_last());
        if opts.last().votes >= rest {
            opts.last().votes as int
        } else {
            rest
        }
    }
}

/// The options whose accumulator equals `m`, in their original order.
pub open spec fn winners_of(opts: Seq<OptionView>, m: u64) -> Seq<OptionView> {
    opts.filter(|o: OptionView| o.votes == m)
}

/// A weighted poll: an ordered list of options and a one-way `finished` flag.
pub struct Poll {
    pub options: Vec<PollOption>,
    pub finished: bool,
}

/// The mathematical value of a `Poll`.
pub struct PollView {
    pub options: Seq<OptionView>,
    pub finished: bool,
}

impl View for Poll {
    type V = PollView;

    open spec fn view(&self) -> PollView {
        PollView { options: views_of(self.options@), finished: self.finished }
    }
}

impl PollView {
    /// A live poll is well formed when it has between one and
    /// `MAX_POLL_OPTIONS` options, their ids are at least 1 and strictly
    /// increasing (hence unique and stable), and every label fits the length
    /// bound.
    pub open spec fn wf(self) -> bool {
        &&& 1 <= self.options.len() <= MAX_POLL_OPTIONS
        &&& forall|i: int, j: int|
            0 <= i < j < self.options.len()
                ==> (#[trigger] self.options[i]).id < (#[trigger] self.options[j]).id
        &&& forall|i: int| 0 <= i < self.options.len() ==> 1 <= (#[trigger] self.options[i]).id
        &&& forall|i: int|
            0 <= i < self.options.len()
                ==> (#[trigger] self.options[i]).label.len() <= MAX_LABEL_CHARS
    }
}

impl Poll {
    /// A blank poll record, as the store allocates it before `init` fills it.
    pub fn new() -> (r: Poll)
        ensures
            r@.options.len() == 0,
            !r@.finished,
    {
        Poll { options: Vec::new(), finished: false }
    }

    /// Fills the poll from the given labels: sequential ids from 1 in input
    /// order, all accumulators zero, state open. Rejects a list that is
    /// empty, over capacity, or holds an over-long label, and refuses a poll
    /// that is already finished; on any error the poll is unchanged.
    pub fn init(&mut self, options: Vec<String>) -> (r: Result<(), GovError>)
        ensures
            r is Ok <==> !old(self)@.finished && valid_option_list(label_views(options@)),
            r is Ok ==> final(self)@.options == fresh_options(label_views(options@))
                && !final(self)@.finished && final(self)@.wf(),
            r is Err ==> final(self)@ == old(self)@,
            old(self)@.finished ==> r == Err::<(), GovError>(GovError::AlreadyFinished),
            !old(self)@.finished && !valid_option_list(label_views(options@))
                ==> r == Err::<(), GovError>(GovError::ValidationError),
    {
        if self.finished {
            return Err(GovError::AlreadyFinished);
        }
        let n = options.len();
        if n == 0 || n > MAX_POLL_OPTIONS {
            assert(!valid_option_list(label_views(options@)));
            return Err(GovError::ValidationError);
        }
        let mut k: usize = 0;
        while k < n
            invariant
                k <= n,
                n == options@.len(),
                self@ == old(self)@,
                !old(self)@.finished,
                forall|j: int|
                    0 <= j < k ==> (#[trigger] label_views(options@)[j]).len() <= MAX_LABEL_CHARS,
            decreases n - k,
        {
            if options[k].as_str().unicode_len() > MAX_LABEL_CHARS {
                assert(label_views(options@)[k as int].len() > MAX_LABEL_CHARS);
                assert(!valid_labels(label_views(options@)));
                return Err(GovError::ValidationError);
            }
            k += 1;
        }
        assert(valid_labels(label_views(options@)));
        let mut opts: Vec<PollOption> = Vec::new();
        let mut i: usize = 0;
        while i < n
            invariant
                i <= n,
                n == options@.len(),
                1 <= n <= MAX_POLL_OPTIONS,
                opts@.len() == i,
                forall|j: int|
                    0 <= j < i ==> #[trigger] views_of(opts@)[j] == fresh_options(
                        label_views(options@),
                    )[j],
            decreases n - i,
        {
            let opt = PollOption { id: (i + 1) as u8, label: options[i].clone(), votes: 0 };
            let ghost prev = opts@;
            opts.push(opt);
            proof {
                assert(opts@[i as int]@ == fresh_options(label_views(options@))[i as int]);
                assert(forall|j: int|
                    0 <= j < i ==> #[trigger] views_of(opts@)[j] == views_of(prev)[j]);
            }
            i += 1;
        }
        self.options = opts;
        self.finished = false;
        proof {
            assert(self@.options =~= fresh_options(label_views(options@)));
        }
        Ok(())
    }

    /// Adds `voting_power` to the accumulator of the option carrying
    /// `vote_id`. Refuses a finished poll, an unknown id, and an accumulator
    /// overflow; on any error the poll is unchanged.
    pub fn vote(&mut self, vote_id: u8, voting_power: u64) -> (r: Result<(), GovError>)
        requires
            old(self)@.wf(),
        ensures
            final(self)@.wf(),
            r is Ok <==> !old(self)@.finished && option_found(old(self)@.options, vote_id)
                && !vote_overflows(old(self)@.options, vote_id, voting_power),
            r is Err ==> final(self)@ == old(self)@,
            old(self)@.finished ==> r == Err::<(), GovError>(GovError::AlreadyFinished),
            !old(self)@.finished && !option_found(old(self)@.options, vote_id) ==> r == Err::<
                (),
                GovError,
            >(GovError::NotFound),
            !old(self)@.finished && option_found(old(self)@.options, vote_id) && vote_overflows(
                old(self)@.options,
                vote_id,
                voting_power,
            ) ==> r == Err::<(), GovError>(GovError::Overflow),
            r is Ok ==> exists|k: int|
                {
                    &&& 0 <= k < old(self)@.options.len()
                    &&& (#[trigger] old(self)@.options[k]).id == vote_id
                    &&& final(self)@.options == old(self)@.options.update(
                        k,
                        bump(old(self)@.options[k], voting_power),
                    )
                    &&& tallies_of(final(self)@.options) == apply_cast(
                        tallies_of(old(self)@.options),
                        k,
                        voting_power,
                    )
                    &&& final(self)@.finished == old(self)@.finished
                },
    {
        if self.finished {
            return Err(GovError::AlreadyFinished);
        }
        let n = self.options.len();
        let mut k: usize = 0;
        while k < n
            invariant
                k <= n,
                n == self.options@.len(),
                *self == *old(self),
                !self.finished,
                old(self)@.wf(),
                forall|j: int| 0 <= j < k ==> (#[trigger] self@.options[j]).id != vote_id,
            decreases n - k,
        {
            if self.options[k].id == vote_id {
                proof {
                    assert(self@.options[k as int].id == vote_id);
                    assert forall|k2: int|
                        0 <= k2 < self@.options.len() && (#[trigger] self@.options[k2]).id
                            == vote_id implies k2 == k by {
                        if k2 < k as int {
                            assert(self@.options[k2].id < self@.options[k as int].id);
                        }
                        if k2 > k as int {
                            assert(self@.options[k as int].id < self@.options[k2].id);
                        }
                    }
                }
                let cur = self.options[k].votes;
                if voting_power > u64::MAX - cur {
                    proof {
                        assert(vote_overflows(old(self)@.options, vote_id, voting_power));
                    }
                    return Err(GovError::Overflow);
                }
                let ghost pre = self@.options;
                let opt = &mut self.options[k];
                opt.votes = opt.votes + voting_power;
                proof {
                    assert(self@.options =~= pre.update(
                        k as int,
                        bump(pre[k as int], voting_power),
                    ));
                    assert(tallies_of(self@.options) =~= apply_cast(
                        tallies_of(pre),
                        k as int,
                        voting_power,
                    ));
                    assert(!vote_overflows(pre, vote_id, voting_power));
                }
                return Ok(());
            }
            k += 1;
        }
        proof {
            assert(!option_found(self@.options, vote_id));
        }
        Err(GovError::NotFound)
    }

    /// Read-only tally: the options whose accumulator equals the maximum, in
    /// their original (ascending id) order, together with that maximum.
    pub fn calculate_winners(&self) -> (r: (Vec<PollOption>, u64))
        ensures
            r.1 == max_votes(self@.options),
            views_of(r.0@) == winners_of(self@.options, r.1),
            self@.options.len() > 0 ==> r.0@.len() > 0,
    {
        let ghost ov = self@.options;
        let n = self.options.len();
        let mut max_v: u64 = 0;
        let mut i: usize = 0;
        while i < n
            invariant
                i <= n,
                n == self.options@.len(),
                ov == self@.options,
                max_v == max_votes(ov.take(i as int)),
            decreases n - i,
        {
            proof {
                assert(ov.take(i + 1).drop_last() =~= ov.take(i as int));
                assert(ov.take(i + 1).last() == ov[i as int]);
            }
            let v = self.options[i].votes;
            if v > max_v {
                max_v = v;
            }
            i += 1;
        }
        proof {
            assert(ov.take(n as int) =~= ov);
        }
        let mut winners: Vec<PollOption> = Vec::new();
        let mut j: usize = 0;
        while j < n
            invariant
                j <= n,
                n == self.options@.len(),
                ov == self@.options,
                views_of(winners@) == winners_of(ov.take(j as int), max_v),
            decreases n - j,
        {
            proof {
                lemma_winners_step(ov, max_v, j as int);
            }
            if self.options[j].votes == max_v {
                let w = self.options[j].clone();
                let ghost prevw = winners@;
                winners.push(w);
                proof {
                    assert(views_of(winners@) =~= views_of(prevw).push(ov[j as int]));
                }
            }
            j += 1;
        }
        proof {
            assert(ov.take(n as int) =~= ov);
            if n > 0 {
                lemma_max_votes_attained(ov);
                let k = choose|k: int| 0 <= k < ov.len() && (#[trigger] ov[k]).votes == max_votes(
                    ov,
                );
                lemma_winner_present(ov, max_v, k);
            }
        }
        (winners, max_v)
    }

    /// Re-seeds this record from a finished predecessor's tied winners: ids
    /// and labels kept, accumulators reset to zero, state open.
    pub fn init_from_previous(&mut self, winners: &Vec<PollOption>) -> (r: Result<(), GovError>)
        ensures
            r == Ok::<(), GovError>(()),
            final(self)@.options == reset_votes(views_of(winners@)),
            !final(self)@.finished,
    {
        self.finished = false;
        let n = winners.len();
        let mut opts: Vec<PollOption> = Vec::new();
        let mut i: usize = 0;
        while i < n
            invariant
                i <= n,
                n == winners@.len(),
                opts@.len() == i,
                forall|j: int|
                    0 <= j < i ==> #[trigger] views_of(opts@)[j] == reset_votes(
                        views_of(winners@),
                    )[j],
            decreases n - i,
        {
            let opt = PollOption { id: winners[i].id, label: winners[i].label.clone(), votes: 0 };
            let ghost prev = opts@;
            opts.push(opt);
            proof {
                assert(opts@[i as int]@ == reset_votes(views_of(winners@))[i as int]);
                assert(forall|j: int|
                    0 <= j < i ==> #[trigger] views_of(opts@)[j] == views_of(prev)[j]);
            }
            i += 1;
        }
        self.options = opts;
        proof {
            assert(self@.options =~= reset_votes(views_of(winners@)));
        }
        Ok(())
    }
}

/// A non-empty option list attains its maximum accumulator value.
proof fn lemma_max_votes_attained(opts: Seq<OptionView>)
    requires
        opts.len() > 0,
    ensures
        exists|k: int| 0 <= k < opts.len() && (#[trigger] opts[k]).votes == max_votes(opts),
    decreases opts.len(),
{
    if opts.len() == 1 {
        assert(max_votes(opts.drop_last()) == 0);
        assert(opts[0] == opts.last());
        assert(opts[0].votes == max_votes(opts));
    } else if opts.last().votes >= max_votes(opts.drop_last()) {
        assert(opts[opts.len() - 1].votes == max_votes(opts));
    } else {
        lemma_max_votes_attained(opts.drop_last());
        let k = choose|k: int|
            0 <= k < opts.drop_last().len() && (#[trigger] opts.drop_last()[k]).votes == max_votes(
                opts.drop_last(),
            );
        assert(opts[k].votes == max_votes(opts));
    }
}

/// How the winner list grows when one more option is considered.
proof fn lemma_winners_step(opts: Seq<OptionView>, m: u64, i: int)
    requires
        0 <= i < opts.len(),
    ensures
        winners_of(opts.take(i + 1), m) == if opts[i].votes == m {
            winners_of(opts.take(i), m).push(opts[i])
        } else {
            winners_of(opts.take(i), m)
        },
{
    reveal(Seq::filter);
    assert(opts.take(i + 1).drop_last() =~= opts.take(i));
    assert(opts.take(i + 1).last() == opts[i]);
}

/// Winners are options of the original list: their ids stay strictly
/// increasing and their number cannot exceed the original's.
pub(crate) proof fn lemma_winners_shape(opts: Seq<OptionView>, m: u64)
    requires
        forall|i: int, j: int|
            0 <= i < j < opts.len() ==> (#[trigger] opts[i]).id < (#[trigger] opts[j]).id,
    ensures
        winners_of(opts, m).len() <= opts.len(),
        forall|i: int|
            0 <= i < winners_of(opts, m).len() ==> exists|a: int|
                0 <= a < opts.len() && opts[a] == #[trigger] winners_of(opts, m)[i],
        forall|i: int, j: int|
            0 <= i < j < winners_of(opts, m).len() ==> (#[trigger] winners_of(opts, m)[i]).id < (
            #[trigger] winners_of(opts, m)[j]).id,
    decreases opts.len(),
{
    reveal(Seq::filter);
    if opts.len() == 0 {
    } else {
        let t = opts.drop_last();
        lemma_winners_shape(t, m);
        let wt = winners_of(t, m);
        let w = winners_of(opts, m);
        assert forall|i: int| 0 <= i < wt.len() implies exists|a: int|
            0 <= a < opts.len() && opts[a] == #[trigger] w[i] by {
            assert(wt[i] == w[i]);
            let a = choose|a: int| 0 <= a < t.len() && t[a] == wt[i];
            assert(opts[a] == w[i]);
        }
        if opts.last().votes == m {
            assert(w == wt.push(opts.last()));
            assert(opts[opts.len() - 1] == w[w.len() - 1]);
            assert forall|i: int| 0 <= i < wt.len() implies (#[trigger] w[i]).id < opts.last().id by {
                let a = choose|a: int| 0 <= a < t.len() && t[a] == wt[i];
                assert(opts[a].id < opts[opts.len() - 1].id);
            }
        } else {
            assert(w == wt);
        }
    }
}

/// The tallies of an option list: each accumulator as a mathematical integer.
pub open spec fn tallies_of(opts: Seq<OptionView>) -> Seq<int> {
    opts.map_values(|o: OptionView| o.votes as int)
}

/// One successful vote's effect on the tallies: the power added at one index.
pub open spec fn apply_cast(t: Seq<int>, k: int, p: u64) -> Seq<int> {
    t.update(k, t[k] + p)
}

/// A sequence of successful votes applied in order, each a pair of option
/// index and voting power.
pub open spec fn apply_casts(t: Seq<int>, casts: Seq<(int, u64)>) -> Seq<int>
    decreases casts.len(),
{
    if casts.len() == 0 {
        t
    } else {
        apply_casts(apply_cast(t, casts[0].0, casts[0].1), casts.drop_first())
    }
}

/// Every cast names an existing option index.
pub open spec fn casts_in_range(casts: Seq<(int, u64)>, n: int) -> bool {
    forall|i: int| 0 <= i < casts.len() ==> 0 <= (#[trigger] casts[i]).0 < n
}

/// The total power a cast sequence adds to one option index.
pub open spec fn cast_sum(casts: Seq<(int, u64)>, k: int) -> int
    decreases casts.len(),
{
    if casts.len() == 0 {
        0
    } else {
        (if casts[0].0 == k {
            casts[0].1 as int
        } else {
            0
        }) + cast_sum(casts.drop_first(), k)
    }
}

/// Applying a cast sequence adds, at every index, exactly the total power the
/// sequence directs there.
proof fn lemma_apply_casts_sum(t: Seq<int>, casts: Seq<(int, u64)>)
    requires
        casts_in_range(casts, t.len() as int),
    ensures
        apply_casts(t, casts).len() == t.len(),
        forall|k: int|
            0 <= k < t.len() ==> #[trigger] apply_casts(t, casts)[k] == t[k] + cast_sum(casts, k),
    decreases casts.len(),
{
    if casts.len() > 0 {
        let t2 = apply_cast(t, casts[0].0, casts[0].1);
        assert(forall|i: int|
            0 <= i < casts.drop_first().len() ==> 0 <= (#[trigger] casts.drop_first()[i]).0
                < t2.len());
        lemma_apply_casts_sum(t2, casts.drop_first());
    }
}

/// Dropping one cast subtracts exactly its contribution from every total.
proof fn lemma_cast_sum_remove(casts: Seq<(int, u64)>, i: int, k: int)
    requires
        0 <= i < casts.len(),
    ensures
        cast_sum(casts.remove(i), k) == cast_sum(casts, k) - (if casts[i].0 == k {
            casts[i].1 as int
        } else {
            0
        }),
    decreases casts.len(),
{
    if i == 0 {
        assert(casts.remove(0) =~= casts.drop_first());
    } else {
        assert(casts.remove(i).drop_first() =~= casts.drop_first().remove(i - 1));
        assert(casts.remove(i)[0] == casts[0]);
        lemma_cast_sum_remove(casts.drop_first(), i - 1, k);
    }
}

/// Two cast sequences with the same multiset of casts direct the same total
/// power to every index.
proof fn lemma_cast_sum_permutation(c1: Seq<(int, u64)>, c2: Seq<(int, u64)>, k: int)
    requires
        c1.to_multiset() == c2.to_multiset(),
    ensures
        cast_sum(c1, k) == cast_sum(c2, k),
    decreases c1.len(),
{
    broadcast use vstd::seq_lib::group_to_multiset_ensures;

    c1.to_multiset_ensures();
    c2.to_multiset_ensures();
    if c1.len() == 0 {
        assert(c2.len() == 0);
    } else {
        let x = c1[0];
        assert(c1.contains(x));
        assert(c2.to_multiset().count(x) > 0);
        assert(c2.contains(x));
        let j = choose|j: int| 0 <= j < c2.len() && c2[j] == x;
        assert(c1.drop_first() =~= c1.remove(0));
        assert(c1.remove(0).to_multiset() == c1.to_multiset().remove(x));
        assert(c2.remove(j).to_multiset() == c2.to_multiset().remove(x));
        lemma_cast_sum_permutation(c1.drop_first(), c2.remove(j), k);
        lemma_cast_sum_remove(c2, j, k);
    }
}

/// Final tallies are independent of the execution order of a set of
/// successful votes: two cast sequences holding the same casts in any two
/// orders yield the same tallies, because accumulation is commutative.
pub proof fn lemma_tally_order_independent(
    t: Seq<int>,
    casts1: Seq<(int, u64)>,
    casts2: Seq<(int, u64)>,
)
    requires
        casts1.to_multiset() == casts2.to_multiset(),
        casts_in_range(casts1, t.len() as int),
        casts_in_range(casts2, t.len() as int),
    ensures
        apply_casts(t, casts1) == apply_casts(t, casts2),
{
    lemma_apply_casts_sum(t, casts1);
    lemma_apply_casts_sum(t, casts2);
    assert forall|k: int| 0 <= k < t.len() implies apply_casts(t, casts1)[k] == apply_casts(
        t,
        casts2,
    )[k] by {
        lemma_cast_sum_permutation(casts1, casts2, k);
    }
    assert(apply_casts(t, casts1) =~= apply_casts(t, casts2));
}

/// An option whose accumulator equals `m` makes the winner list non-empty.
proof fn lemma_winner_present(opts: Seq<OptionView>, m: u64, k: int)
    requires
        0 <= k < opts.len(),
        opts[k].votes == m,
    ensures
        winners_of(opts, m).len() > 0,
    decreases opts.len(),
{
    reveal(Seq::filter);
    if k == opts.len() - 1 {
    } else {
        lemma_winner_present(opts.drop_last(), m, k);
    }
}

} // verus!
