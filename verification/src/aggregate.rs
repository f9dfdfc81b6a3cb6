//! The figures of one change, and of many changes together.
use crate::event::Event;
use crate::order::{chosen, count, ints, lemma_chosen, lemma_ints_contain, lemma_total_grows, total};
use crate::percentile::{
    clean_ceiling, percentile_is_a_sample, percentiles, round_up_clean, sample_at, sorts,
    Percentiles,
};
use crate::rework::{approved_first, completed, derive_rework, requested};
use crate::state::ChangeState;
use crate::stats::{
    blocks_by_kind, claims_expire, findings_by_severity, is_review_latency, is_wall_time,
    kinds_blocked, observed_gate_runs, observed_run, review_latency, review_rounds_by_cause,
    rounds_citing, severities, stage_durations, stage_totals, wall_time,
};
use crate::table::{
    ascending, find_place, fits, insert_name, lemma_one_place, lemma_views_listed, listed,
    number_under, place, tallied, Place, Tally,
};
use crate::text::{among, contains, same, trim, trimmed, views};
use vstd::prelude::*;

verus! {

/// The format of figures that are written as JSON.
pub const STATS_SCHEMA: &'static str = "arc-stats/1";

/// The figures of one change.
#[derive(Debug)]
pub struct ChangeStats {
    pub change_id: String,
    pub slug: String,
    pub state: &'static str,
    pub wall_time_seconds: Option<u64>,
    pub stage_seconds: Tally,
    pub review_latency_seconds: Option<u64>,
    pub gate_seconds: Tally,
    pub findings_by_severity: Tally,
    pub review_rounds_by_cause: Tally,
    pub blocks_by_kind: Tally,
    pub changes_requested_rounds: usize,
    pub completed_rework_rounds: usize,
    pub reworked: bool,
    pub first_pass_approval: bool,
    pub patchset_count: usize,
}

/// The seconds of all observed runs of each gate.
pub open spec fn gate_totals(runs: Seq<(String, u64)>) -> Map<Seq<char>, nat>
    decreases runs.len(),
{
    if runs.len() == 0 {
        Map::empty()
    } else {
        tallied(gate_totals(runs.drop_last()), runs.last().0@, runs.last().1 as nat)
    }
}

/// The observed runs that some events record, each under its gate.
pub open spec fn run_totals(events: Seq<Event>) -> Map<Seq<char>, nat>
    decreases events.len(),
{
    if events.len() == 0 {
        Map::empty()
    } else {
        let prior = run_totals(events.drop_last());
        match observed_run(events.last()) {
            Some((gate, seconds)) => tallied(prior, gate, seconds as nat),
            None => prior,
        }
    }
}

proof fn lemma_runs(events: Seq<Event>, runs: Seq<(String, u64)>)
    requires
        ({
            let picked = chosen(events.len(), |i: int| observed_run(events[i]) is Some);
            &&& runs.len() == picked.len()
            &&& forall|k: int|
                0 <= k < picked.len() ==> observed_run(events[picked[k]]) == Some(
                    ((#[trigger] runs[k]).0@, runs[k].1),
                )
        }),
    ensures
        gate_totals(runs) == run_totals(events),
    decreases events.len(),
{
    if events.len() > 0 {
        let rest = events.drop_last();
        let n = (events.len() - 1) as nat;
        let wanted = |i: int| observed_run(events[i]) is Some;
        let wanted_rest = |i: int| observed_run(rest[i]) is Some;
        lemma_chosen_same(n, wanted, wanted_rest);
        let before = chosen(n, wanted);
        lemma_chosen(n, wanted);
        if observed_run(events.last()) is Some {
            let fewer = runs.drop_last();
            assert forall|k: int| 0 <= k < before.len() implies observed_run(rest[before[k]])
                == Some(((#[trigger] fewer[k]).0@, fewer[k].1)) by {
                assert(runs[k] == fewer[k]);
                assert(before[k] == chosen(events.len(), wanted)[k]);
            }
            lemma_runs(rest, fewer);
            assert(runs[before.len() as int] == runs.last());
        } else {
            assert forall|k: int| 0 <= k < before.len() implies observed_run(rest[before[k]])
                == Some(((#[trigger] runs[k]).0@, runs[k].1)) by {
                assert(before[k] == chosen(events.len(), wanted)[k]);
            }
            lemma_runs(rest, runs);
        }
    } else {
        assert(runs.len() == 0);
    }
}

proof fn lemma_chosen_same(n: nat, a: spec_fn(int) -> bool, b: spec_fn(int) -> bool)
    requires
        forall|i: int| 0 <= i < n ==> #[trigger] a(i) == b(i),
    ensures
        chosen(n, a) == chosen(n, b),
    decreases n,
{
    if n > 0 {
        assert(a(n - 1) == b(n - 1));
        lemma_chosen_same((n - 1) as nat, a, b);
    }
}

proof fn lemma_gate_totals_fit(runs: Seq<(String, u64)>, n: int)
    requires
        0 <= n <= runs.len(),
        fits(gate_totals(runs)),
    ensures
        fits(gate_totals(runs.take(n))),
    decreases runs.len(),
{
    if n < runs.len() {
        let rest = runs.drop_last();
        assert(fits(gate_totals(rest))) by {
            assert forall|name: Seq<char>| #[trigger]
                gate_totals(rest).dom().contains(name) implies gate_totals(rest)[name]
                <= u64::MAX by {
                assert(gate_totals(runs).dom().contains(name));
            }
        }
        lemma_gate_totals_fit(rest, n);
        assert(rest.take(n) =~= runs.take(n));
    } else {
        assert(runs.take(n) =~= runs);
    }
}

/// The seconds of all observed runs of each gate, where they fit.
pub fn gate_seconds(runs: &Vec<(String, u64)>) -> (r: Tally)
    requires
        fits(gate_totals(runs@)),
    ensures
        r.well_formed(),
        r@ == gate_totals(runs@),
{
    let mut out = Tally::new();
    assert(runs@.take(0) =~= Seq::<(String, u64)>::empty());
    for i in 0..runs.len()
        invariant
            fits(gate_totals(runs@)),
            out.well_formed(),
            out@ == gate_totals(runs@.take(i as int)),
    {
        proof {
            assert(runs@.take(i + 1).drop_last() =~= runs@.take(i as int));
            lemma_gate_totals_fit(runs@, i + 1);
            assert(gate_totals(runs@.take(i + 1)).dom().contains(runs@[i as int].0@));
        }
        out.tally(runs[i].0.as_str(), runs[i].1);
    }
    assert(runs@.take(runs@.len() as int) =~= runs@);
    out
}

impl ChangeStats {
    /// What this says of a change and its events.
    pub open spec fn describes(self, events: Seq<Event>, state: ChangeState) -> bool {
        &&& self.change_id@ == state.change_id@
        &&& self.slug@ == state.slug@
        &&& self.state@ == (if state.closure is Some {
            "closed"@
        } else {
            "open"@
        })
        &&& is_wall_time(events, self.wall_time_seconds)
        &&& is_review_latency(events, self.review_latency_seconds)
        &&& self.stage_seconds@ == stage_totals(events)
        &&& self.gate_seconds@ == run_totals(events)
        &&& self.findings_by_severity@ == severities(state.findings@)
        &&& self.review_rounds_by_cause@ == rounds_citing(events, listed(requested(events)))
        &&& self.blocks_by_kind@ == kinds_blocked(events)
        &&& self.changes_requested_rounds == listed(requested(events)).len()
        &&& self.completed_rework_rounds == listed(completed(events)).len()
        &&& self.reworked == (listed(completed(events)).len() > 0)
        &&& self.first_pass_approval == approved_first(events)
        &&& self.patchset_count == state.patchsets@.len()
    }

    /// Whether every table of this is in order.
    pub open spec fn well_formed(self) -> bool {
        &&& self.stage_seconds.well_formed()
        &&& self.gate_seconds.well_formed()
        &&& self.findings_by_severity.well_formed()
        &&& self.review_rounds_by_cause.well_formed()
        &&& self.blocks_by_kind.well_formed()
    }
}

/// The figures of one change.
pub fn change_stats(events: &Vec<Event>, state: &ChangeState) -> (r: ChangeStats)
    requires
        claims_expire(events@),
        fits(stage_totals(events@)),
        fits(run_totals(events@)),
    ensures
        r.well_formed(),
        r.describes(events@, *state),
{
    let runs = observed_gate_runs(events);
    proof {
        lemma_runs(events@, runs@);
    }
    let rework = derive_rework(events);
    ChangeStats {
        change_id: state.change_id.clone(),
        slug: state.slug.clone(),
        state: if state.is_closed() {
            "closed"
        } else {
            "open"
        },
        wall_time_seconds: wall_time(events),
        stage_seconds: stage_durations(events),
        review_latency_seconds: review_latency(events),
        gate_seconds: gate_seconds(&runs),
        findings_by_severity: findings_by_severity(&state.findings),
        review_rounds_by_cause: review_rounds_by_cause(events),
        blocks_by_kind: blocks_by_kind(events),
        changes_requested_rounds: rework.changes_requested_rounds,
        completed_rework_rounds: rework.completed_rework_rounds,
        reworked: rework.completed_rework_rounds > 0,
        first_pass_approval: rework.first_pass_approval,
        patchset_count: state.patchsets.len(),
    }
}

/// What the samples of one stage are: its seconds in each change that was in it, in order.
pub open spec fn stage_samples(changes: Seq<ChangeStats>, stage: Seq<char>) -> Seq<u64>
    decreases changes.len(),
{
    if changes.len() == 0 {
        Seq::empty()
    } else {
        let prior = stage_samples(changes.drop_last(), stage);
        let last = changes.last().stage_seconds@;
        if last.dom().contains(stage) {
            prior.push(last[stage] as u64)
        } else {
            prior
        }
    }
}

/// What the samples of one gate are: the seconds of each of its runs, in order.
pub open spec fn gate_samples(runs: Seq<(String, u64)>, gate: Seq<char>) -> Seq<u64>
    decreases runs.len(),
{
    if runs.len() == 0 {
        Seq::empty()
    } else {
        let prior = gate_samples(runs.drop_last(), gate);
        if runs.last().0@ == gate {
            prior.push(runs.last().1)
        } else {
            prior
        }
    }
}

/// Whether some change was in a stage.
pub open spec fn staged(changes: Seq<ChangeStats>) -> spec_fn(Seq<char>) -> bool {
    |stage: Seq<char>|
        exists|i: int|
            0 <= i < changes.len() && among((#[trigger] changes[i]).stage_seconds.names@, stage)
}

/// Whether some run is of a gate.
pub open spec fn gated(runs: Seq<(String, u64)>) -> spec_fn(Seq<char>) -> bool {
    |gate: Seq<char>| exists|i: int| 0 <= i < runs.len() && (#[trigger] runs[i]).0@ == gate
}

/// The stages that some change was in, in ascending order.
fn stage_names(changes: &Vec<ChangeStats>) -> (r: Vec<String>)
    ensures
        ascending(views(r@)),
        forall|x: Seq<char>| #[trigger] among(r@, x) <==> staged(changes@)(x),
{
    let mut out: Vec<String> = Vec::new();
    for i in 0..changes.len()
        invariant
            ascending(views(out@)),
            forall|x: Seq<char>| #[trigger]
                among(out@, x) <==> exists|k: int|
                    0 <= k < i && among((#[trigger] changes@[k]).stage_seconds.names@, x),
    {
        let names = &changes[i].stage_seconds.names;
        let ghost before_out = out@;
        for j in 0..names.len()
            invariant
                ascending(views(out@)),
                forall|x: Seq<char>| #[trigger]
                    among(out@, x) <==> among(before_out, x) || exists|k: int|
                        0 <= k < j && (#[trigger] names@[k])@ == x,
        {
            insert_name(&mut out, names[j].as_str());
        }
        proof {
            assert forall|x: Seq<char>| #[trigger] among(out@, x) <==> exists|k: int|
                0 <= k < i + 1 && among((#[trigger] changes@[k]).stage_seconds.names@, x) by {
                assert(among(names@, x) <==> exists|k: int|
                    0 <= k < names@.len() && (#[trigger] names@[k])@ == x);
                if among(before_out, x) {
                    let k = choose|k: int|
                        0 <= k < i && among((#[trigger] changes@[k]).stage_seconds.names@, x);
                    assert(0 <= k < i + 1 && among(changes@[k].stage_seconds.names@, x));
                }
                if among(names@, x) {
                    assert(among(changes@[i as int].stage_seconds.names@, x));
                }
            }
        }
    }
    out
}

/// The gates that some run is of, in ascending order.
fn gate_names(runs: &Vec<(String, u64)>) -> (r: Vec<String>)
    ensures
        ascending(views(r@)),
        forall|x: Seq<char>| #[trigger] among(r@, x) <==> gated(runs@)(x),
{
    let mut out: Vec<String> = Vec::new();
    for i in 0..runs.len()
        invariant
            ascending(views(out@)),
            forall|x: Seq<char>| #[trigger]
                among(out@, x) <==> exists|k: int| 0 <= k < i && (#[trigger] runs@[k]).0@ == x,
    {
        insert_name(&mut out, runs[i].0.as_str());
    }
    out
}

fn samples_of_stage(changes: &Vec<ChangeStats>, stage: &str) -> (r: Vec<u64>)
    requires
        forall|i: int| 0 <= i < changes@.len() ==> (#[trigger] changes@[i]).well_formed(),
    ensures
        r@ == stage_samples(changes@, stage@),
        forall|k: int|
            0 <= k < r@.len() ==> exists|i: int|
                0 <= i < changes@.len() && (#[trigger] changes@[i]).stage_seconds.numbers@.contains(
                    #[trigger] r@[k],
                ),
{
    let mut out: Vec<u64> = Vec::new();
    assert(changes@.take(0) =~= Seq::<ChangeStats>::empty());
    for i in 0..changes.len()
        invariant
            forall|i: int| 0 <= i < changes@.len() ==> (#[trigger] changes@[i]).well_formed(),
            out@ == stage_samples(changes@.take(i as int), stage@),
            forall|k: int|
                0 <= k < out@.len() ==> exists|j: int|
                    0 <= j < changes@.len() && (
                    #[trigger] changes@[j]).stage_seconds.numbers@.contains(#[trigger] out@[k]),
    {
        assert(changes@.take(i + 1).drop_last() =~= changes@.take(i as int));
        let ghost before_out = out@;
        let seconds = &changes[i].stage_seconds;
        assert(changes@[i as int].well_formed());
        if let Place::At(k) = find_place(&seconds.names, stage) {
            proof {
                let spot = place(seconds.names@, stage@);
                assert(0 <= spot < seconds.names@.len() && seconds.names@[spot]@ == stage@);
                lemma_one_place(views(seconds.names@), k as int, spot);
            }
            let value: u64 = seconds.numbers[k];
            assert(seconds.numbers@.contains(value));
            out.push(value);
            assert forall|m: int| 0 <= m < out@.len() implies exists|j: int|
                0 <= j < changes@.len() && (#[trigger] changes@[j]).stage_seconds.numbers@.contains(
                    #[trigger] out@[m],
                ) by {
                if m < before_out.len() {
                    assert(out@[m] == before_out[m]);
                } else {
                    assert(changes@[i as int].stage_seconds.numbers@.contains(out@[m]));
                }
            }
        }
    }
    assert(changes@.take(changes@.len() as int) =~= changes@);
    out
}

fn samples_of_gate(runs: &Vec<(String, u64)>, gate: &str) -> (r: Vec<u64>)
    ensures
        r@ == gate_samples(runs@, gate@),
{
    let mut out: Vec<u64> = Vec::new();
    assert(runs@.take(0) =~= Seq::<(String, u64)>::empty());
    for i in 0..runs.len()
        invariant
            out@ == gate_samples(runs@.take(i as int), gate@),
    {
        assert(runs@.take(i + 1).drop_last() =~= runs@.take(i as int));
        if same(runs[i].0.as_str(), gate) {
            out.push(runs[i].1);
        }
    }
    assert(runs@.take(runs@.len() as int) =~= runs@);
    out
}

/// Which table of a change's figures is meant.
#[derive(Clone, Copy, Debug, PartialEq, Eq, Structural)]
pub enum Table {
    RoundsByCause,
    BlocksByKind,
}

/// One table of a change's figures.
pub open spec fn table_of(stats: ChangeStats, table: Table) -> Tally {
    match table {
        Table::RoundsByCause => stats.review_rounds_by_cause,
        Table::BlocksByKind => stats.blocks_by_kind,
    }
}

/// What one table has under a name in all changes together.
pub open spec fn sum_under(changes: Seq<ChangeStats>, table: Table, name: Seq<char>) -> nat {
    total(changes, |c: ChangeStats| number_under(table_of(c, table)@, name))
}

/// One table of all changes together.
pub open spec fn merged(changes: Seq<ChangeStats>, table: Table) -> Map<Seq<char>, nat> {
    Map::new(
        |name: Seq<char>|
            exists|i: int|
                0 <= i < changes.len() && among(table_of(#[trigger] changes[i], table).names@, name),
        |name: Seq<char>| sum_under(changes, table, name),
    )
}

fn pick(stats: &ChangeStats, table: Table) -> (r: &Tally)
    ensures
        *r == table_of(*stats, table),
{
    match table {
        Table::RoundsByCause => &stats.review_rounds_by_cause,
        Table::BlocksByKind => &stats.blocks_by_kind,
    }
}

fn table_names(changes: &Vec<ChangeStats>, table: Table) -> (r: Vec<String>)
    ensures
        ascending(views(r@)),
        forall|x: Seq<char>| #[trigger]
            among(r@, x) <==> exists|i: int|
                0 <= i < changes@.len() && among(table_of(#[trigger] changes@[i], table).names@, x),
{
    let mut out: Vec<String> = Vec::new();
    for i in 0..changes.len()
        invariant
            ascending(views(out@)),
            forall|x: Seq<char>| #[trigger]
                among(out@, x) <==> exists|k: int|
                    0 <= k < i && among(table_of(#[trigger] changes@[k], table).names@, x),
    {
        let names = &pick(&changes[i], table).names;
        let ghost before_out = out@;
        for j in 0..names.len()
            invariant
                ascending(views(out@)),
                forall|x: Seq<char>| #[trigger]
                    among(out@, x) <==> among(before_out, x) || exists|k: int|
                        0 <= k < j && (#[trigger] names@[k])@ == x,
        {
            insert_name(&mut out, names[j].as_str());
        }
        proof {
            assert forall|x: Seq<char>| #[trigger] among(out@, x) <==> exists|k: int|
                0 <= k < i + 1 && among(table_of(#[trigger] changes@[k], table).names@, x) by {
                assert(among(names@, x) <==> exists|k: int|
                    0 <= k < names@.len() && (#[trigger] names@[k])@ == x);
                if among(before_out, x) {
                    let k = choose|k: int|
                        0 <= k < i && among(table_of(#[trigger] changes@[k], table).names@, x);
                    assert(0 <= k < i + 1 && among(table_of(changes@[k], table).names@, x));
                }
                if among(names@, x) {
                    assert(among(table_of(changes@[i as int], table).names@, x));
                }
            }
        }
    }
    out
}

/// One table of all changes together, where the sums fit.
pub fn merge(changes: &Vec<ChangeStats>, table: Table) -> (r: Tally)
    requires
        forall|i: int| 0 <= i < changes@.len() ==> (#[trigger] changes@[i]).well_formed(),
        forall|name: Seq<char>| #[trigger] sum_under(changes@, table, name) <= u64::MAX,
    ensures
        r.well_formed(),
        r@ == merged(changes@, table),
{
    let names = table_names(changes, table);
    let mut numbers: Vec<u64> = Vec::new();
    for k in 0..names.len()
        invariant
            forall|i: int| 0 <= i < changes@.len() ==> (#[trigger] changes@[i]).well_formed(),
            forall|name: Seq<char>| #[trigger] sum_under(changes@, table, name) <= u64::MAX,
            numbers@.len() == k,
            forall|m: int|
                0 <= m < k ==> (#[trigger] numbers@[m]) == sum_under(changes@, table, names@[m]@),
    {
        let name = names[k].as_str();
        let mut sum: u64 = 0;
        let ghost worth = |c: ChangeStats| number_under(table_of(c, table)@, name@);
        assert(total(changes@, worth) == sum_under(changes@, table, name@));
        assert(changes@.take(0) =~= Seq::<ChangeStats>::empty());
        for i in 0..changes.len()
            invariant
                forall|i: int| 0 <= i < changes@.len() ==> (#[trigger] changes@[i]).well_formed(),
                worth == (|c: ChangeStats| number_under(table_of(c, table)@, name@)),
                total(changes@, worth) <= u64::MAX,
                sum == total(changes@.take(i as int), worth),
        {
            proof {
                assert(changes@.take(i + 1).drop_last() =~= changes@.take(i as int));
                lemma_total_grows(changes@, worth, i + 1);
                assert(changes@[i as int].well_formed());
            }
            if let Some(n) = pick(&changes[i], table).get(name) {
                sum += n;
            }
        }
        assert(changes@.take(changes@.len() as int) =~= changes@);
        numbers.push(sum);
    }
    let r = Tally { names, numbers };
    proof {
        assert forall|x: Seq<char>| #[trigger] r@.dom().contains(x) implies r@[x] == merged(
            changes@,
            table,
        )[x] by {
            let spot = place(r.names@, x);
            assert(0 <= spot < r.names@.len() && r.names@[spot]@ == x);
        }
        assert(r@ =~= merged(changes@, table));
    }
    r
}

/// The figures of many changes together.
#[derive(Debug)]
pub struct Aggregate {
    pub changes: usize,
    pub stage: Vec<(String, Percentiles)>,
    pub gate: Vec<(String, Percentiles)>,
    pub suggested_stage_budgets: Vec<(String, u64)>,
    pub review_rounds_by_cause: Tally,
    pub blocks_by_kind: Tally,
    pub changes_reworked: usize,
    pub first_pass_approvals: usize,
    pub completed_rework_rounds: usize,
}

impl Aggregate {
    /// What this says of some changes and of all their gate runs.
    pub open spec fn describes(self, changes: Seq<ChangeStats>, runs: Seq<(String, u64)>) -> bool {
        &&& self.changes == changes.len()
        &&& Seq::new(self.stage@.len(), |k: int| self.stage@[k].0@) == listed(staged(changes))
        &&& forall|k: int|
            0 <= k < self.stage@.len() ==> (#[trigger] self.stage@[k]).1.summarizes(
                stage_samples(changes, self.stage@[k].0@),
            )
        &&& Seq::new(self.gate@.len(), |k: int| self.gate@[k].0@) == listed(gated(runs))
        &&& forall|k: int|
            0 <= k < self.gate@.len() ==> (#[trigger] self.gate@[k]).1.summarizes(
                gate_samples(runs, self.gate@[k].0@),
            )
        &&& self.suggested_stage_budgets@.len() == self.stage@.len()
        &&& forall|k: int|
            0 <= k < self.stage@.len() ==> (#[trigger] self.suggested_stage_budgets@[k]).0@
                == self.stage@[k].0@ && clean_ceiling(
                self.stage@[k].1.p90_seconds as nat,
                self.suggested_stage_budgets@[k].1 as nat,
            )
        &&& self.review_rounds_by_cause@ == merged(changes, Table::RoundsByCause)
        &&& self.blocks_by_kind@ == merged(changes, Table::BlocksByKind)
        &&& self.changes_reworked == count(changes, |c: ChangeStats| c.reworked)
        &&& self.first_pass_approvals == count(changes, |c: ChangeStats| c.first_pass_approval)
        &&& self.completed_rework_rounds == total(
            changes,
            |c: ChangeStats| c.completed_rework_rounds as nat,
        )
    }
}

/// Whether the sums and the rounded budgets of some changes fit.
pub open spec fn sums_fit(changes: Seq<ChangeStats>) -> bool {
    &&& forall|i: int, k: int|
        0 <= i < changes.len() && 0 <= k < changes[i].stage_seconds.numbers@.len() ==> (
        #[trigger] changes[i].stage_seconds.numbers@[k] + 86399) / 86400 * 86400 <= u64::MAX
    &&& forall|name: Seq<char>| #[trigger]
        sum_under(changes, Table::RoundsByCause, name) <= u64::MAX
    &&& forall|name: Seq<char>| #[trigger]
        sum_under(changes, Table::BlocksByKind, name) <= u64::MAX
    &&& total(changes, |c: ChangeStats| c.completed_rework_rounds as nat) <= usize::MAX
}

/// The percentiles of every stage, with its suggested budget.
fn stage_percentiles(changes: &Vec<ChangeStats>) -> (r: (
    Vec<(String, Percentiles)>,
    Vec<(String, u64)>,
))
    requires
        forall|i: int| 0 <= i < changes@.len() ==> (#[trigger] changes@[i]).well_formed(),
        sums_fit(changes@),
    ensures
        Seq::new(r.0@.len(), |k: int| r.0@[k].0@) == listed(staged(changes@)),
        forall|k: int|
            0 <= k < r.0@.len() ==> (#[trigger] r.0@[k]).1.summarizes(
                stage_samples(changes@, r.0@[k].0@),
            ),
        r.1@.len() == r.0@.len(),
        forall|k: int|
            0 <= k < r.0@.len() ==> (#[trigger] r.1@[k]).0@ == r.0@[k].0@ && clean_ceiling(
                r.0@[k].1.p90_seconds as nat,
                r.1@[k].1 as nat,
            ),
{
    let names = stage_names(changes);
    let mut out: Vec<(String, Percentiles)> = Vec::new();
    let mut budgets: Vec<(String, u64)> = Vec::new();
    for k in 0..names.len()
        invariant
            forall|i: int| 0 <= i < changes@.len() ==> (#[trigger] changes@[i]).well_formed(),
            sums_fit(changes@),
            out@.len() == k,
            budgets@.len() == k,
            forall|m: int| 0 <= m < k ==> (#[trigger] out@[m]).0@ == names@[m]@,
            forall|m: int|
                0 <= m < k ==> (#[trigger] out@[m]).1.summarizes(
                    stage_samples(changes@, out@[m].0@),
                ),
            forall|m: int|
                0 <= m < k ==> (#[trigger] budgets@[m]).0@ == out@[m].0@ && clean_ceiling(
                    out@[m].1.p90_seconds as nat,
                    budgets@[m].1 as nat,
                ),
    {
        let samples = samples_of_stage(changes, names[k].as_str());
        let figures = percentiles(&samples);
        proof {
            let sorted = choose|sorted: Seq<u64>| #[trigger]
                sorts(samples@, sorted) && figures.median_seconds
                    == sample_at(sorted, 50) && figures.p90_seconds
                    == sample_at(sorted, 90);
            vstd::seq_lib::to_multiset_len(samples@);
            vstd::seq_lib::to_multiset_len(sorted);
            if samples@.len() > 0 {
                percentile_is_a_sample(samples@, sorted, 90);
                let m = choose|m: int| 0 <= m < samples@.len() && samples@[m] == figures.p90_seconds;
                assert(samples@[m] == figures.p90_seconds);
                let i = choose|i: int|
                    0 <= i < changes@.len() && (
                    #[trigger] changes@[i]).stage_seconds.numbers@.contains(samples@[m]);
                let numbers = changes@[i].stage_seconds.numbers@;
                let n = choose|n: int| 0 <= n < numbers.len() && numbers[n] == samples@[m];
                assert((changes@[i].stage_seconds.numbers@[n] + 86399) / 86400 * 86400
                    <= u64::MAX);
            }
        }
        let budget: u64 = round_up_clean(figures.p90_seconds);
        budgets.push((names[k].clone(), budget));
        out.push((names[k].clone(), figures));
    }
    proof {
        lemma_views_listed(names@, staged(changes@));
        assert(Seq::new(out@.len(), |k: int| out@[k].0@) =~= views(names@));
    }
    (out, budgets)
}

/// The percentiles of every gate.
fn gate_percentiles(runs: &Vec<(String, u64)>) -> (r: Vec<(String, Percentiles)>)
    ensures
        Seq::new(r@.len(), |k: int| r@[k].0@) == listed(gated(runs@)),
        forall|k: int|
            0 <= k < r@.len() ==> (#[trigger] r@[k]).1.summarizes(gate_samples(runs@, r@[k].0@)),
{
    let names = gate_names(runs);
    let mut out: Vec<(String, Percentiles)> = Vec::new();
    for k in 0..names.len()
        invariant
            out@.len() == k,
            forall|m: int| 0 <= m < k ==> (#[trigger] out@[m]).0@ == names@[m]@,
            forall|m: int|
                0 <= m < k ==> (#[trigger] out@[m]).1.summarizes(
                    gate_samples(runs@, out@[m].0@),
                ),
    {
        let samples = samples_of_gate(runs, names[k].as_str());
        out.push((names[k].clone(), percentiles(&samples)));
    }
    proof {
        lemma_views_listed(names@, gated(runs@));
        assert(Seq::new(out@.len(), |k: int| out@[k].0@) =~= views(names@));
    }
    out
}

/// The figures of many changes together. `gate_runs` holds the observed gate runs of all of them.
pub fn aggregate_stats(changes: &Vec<ChangeStats>, gate_runs: &Vec<(String, u64)>) -> (r: Aggregate)
    requires
        forall|i: int| 0 <= i < changes@.len() ==> (#[trigger] changes@[i]).well_formed(),
        sums_fit(changes@),
    ensures
        r.describes(changes@, gate_runs@),
        r.review_rounds_by_cause.well_formed(),
        r.blocks_by_kind.well_formed(),
{
    let (stage, suggested_stage_budgets) = stage_percentiles(changes);
    let gate = gate_percentiles(gate_runs);
    let mut changes_reworked: usize = 0;
    let mut first_pass_approvals: usize = 0;
    let mut completed_rework_rounds: usize = 0;
    let ghost is_reworked = |c: ChangeStats| c.reworked;
    let ghost is_first_pass = |c: ChangeStats| c.first_pass_approval;
    let ghost worth = |c: ChangeStats| c.completed_rework_rounds as nat;
    assert(changes@.take(0) =~= Seq::<ChangeStats>::empty());
    for i in 0..changes.len()
        invariant
            is_reworked == (|c: ChangeStats| c.reworked),
            is_first_pass == (|c: ChangeStats| c.first_pass_approval),
            worth == (|c: ChangeStats| c.completed_rework_rounds as nat),
            total(changes@, worth) <= usize::MAX,
            changes_reworked == count(changes@.take(i as int), is_reworked),
            first_pass_approvals == count(changes@.take(i as int), is_first_pass),
            completed_rework_rounds == total(changes@.take(i as int), worth),
            changes_reworked <= i,
            first_pass_approvals <= i,
    {
        proof {
            assert(changes@.take(i + 1).drop_last() =~= changes@.take(i as int));
            lemma_total_grows(changes@, worth, i + 1);
        }
        if changes[i].reworked {
            changes_reworked += 1;
        }
        if changes[i].first_pass_approval {
            first_pass_approvals += 1;
        }
        completed_rework_rounds += changes[i].completed_rework_rounds;
    }
    assert(changes@.take(changes@.len() as int) =~= changes@);
    Aggregate {
        changes: changes.len(),
        stage,
        gate,
        suggested_stage_budgets,
        review_rounds_by_cause: merge(changes, Table::RoundsByCause),
        blocks_by_kind: merge(changes, Table::BlocksByKind),
        changes_reworked,
        first_pass_approvals,
        completed_rework_rounds,
    }
}

/// Which changes the figures are of.
#[derive(Debug)]
pub enum StatsSelection {
    All,
    Change(String),
    Tag(String),
}

/// Whether the figures are of a change.
pub open spec fn selected(selection: StatsSelection, state: ChangeState) -> bool {
    match selection {
        StatsSelection::All => true,
        StatsSelection::Change(id) => state.change_id@ == id@,
        StatsSelection::Tag(tag) => among(state.tags@, trimmed(tag@)),
    }
}

/// Whether `r` are the changes that the figures are of.
pub open spec fn selects_changes(
    selection: &StatsSelection,
    changes: &Vec<ChangeState>,
    r: Vec<usize>,
) -> bool {
    ints(r@) == chosen(changes@.len(), |i: int| selected(*selection, changes@[i]))
}

/// The changes that the figures are of. A change is named by its identity.
pub fn select_changes(selection: &StatsSelection, changes: &Vec<ChangeState>) -> (r: Vec<usize>)
    ensures
        selects_changes(selection, changes, r),
{
    let mut out: Vec<usize> = Vec::new();
    let ghost wanted = |i: int| selected(*selection, changes@[i]);
    assert(ints(out@) =~= Seq::<int>::empty());
    for i in 0..changes.len()
        invariant
            wanted == (|i: int| selected(*selection, changes@[i])),
            ints(out@) == chosen(i as nat, wanted),
    {
        let ghost before = ints(out@);
        let counts = match selection {
            StatsSelection::All => true,
            StatsSelection::Change(id) => same(changes[i].change_id.as_str(), id.as_str()),
            StatsSelection::Tag(tag) => {
                let tag = trim(tag.as_str());
                contains(&changes[i].tags, tag.as_str())
            },
        };
        if counts {
            out.push(i);
            assert(ints(out@) =~= before.push(i as int));
        }
    }
    out
}

/// The figures are of all changes, of the one of an identity, or of those that carry a tag, open or
/// closed.
pub proof fn figures_are_of_what_was_asked(
    selection: &StatsSelection,
    changes: &Vec<ChangeState>,
    i: usize,
    r: Vec<usize>,
)
    requires
        selects_changes(selection, changes, r),
        i < changes@.len(),
    ensures
        *selection is All ==> r@.contains(i),
        *selection matches StatsSelection::Change(id) ==> (r@.contains(i)
            <==> changes@[i as int].change_id@ == id@),
        *selection matches StatsSelection::Tag(tag) ==> (r@.contains(i) <==> exists|k: int|
            0 <= k < changes@[i as int].tags@.len() && (#[trigger] changes@[i as int].tags@[k])@
                == trimmed(tag@)),
{
    let wanted = |i: int| selected(*selection, changes@[i]);
    lemma_chosen(changes@.len(), wanted);
    lemma_ints_contain(r@, i);
    assert(chosen(changes@.len(), wanted).contains(i as int) <==> wanted(i as int));
}

/// What the figures of a change say is what its history and its state say.
pub proof fn figures_say_what_happened(stats: ChangeStats, events: Seq<Event>, state: ChangeState)
    requires
        stats.describes(events, state),
    ensures
        stats.change_id@ == state.change_id@,
        stats.state@ == (if state.closure is Some {
            "closed"@
        } else {
            "open"@
        }),
        stats.patchset_count == state.patchsets@.len(),
        stats.reworked <==> stats.completed_rework_rounds > 0,
        is_wall_time(events, stats.wall_time_seconds),
        is_review_latency(events, stats.review_latency_seconds),
        stats.stage_seconds@ == stage_totals(events),
        stats.first_pass_approval == approved_first(events),
{
}

/// The seconds of a gate are those of all its runs together.
pub proof fn gate_seconds_add_up(runs: Seq<(String, u64)>, gate: Seq<char>)
    ensures
        number_under(gate_totals(runs), gate) == total(
            runs,
            |run: (String, u64)|
                if run.0@ == gate {
                    run.1 as nat
                } else {
                    0nat
                },
        ),
    decreases runs.len(),
{
    if runs.len() > 0 {
        gate_seconds_add_up(runs.drop_last(), gate);
    }
}

} // verus!
