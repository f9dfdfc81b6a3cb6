//! The figures of changes as a table.
use crate::aggregate::{Aggregate, ChangeStats};
use crate::attribution::ModelStats;
use crate::percentile::{cut, cuts, duration_text, format_duration, truncate};
use crate::table::Tally;
use crate::text::{char_count, decimal, decimal_of, same, views};
use crate::wrap::{make_spaces, spaces};
use vstd::prelude::*;

verus! {

/// The spaces that a text lacks to a width.
pub open spec fn filler(text: Seq<char>, width: nat) -> Seq<char> {
    if text.len() >= width {
        ""@
    } else {
        spaces((width - text.len()) as nat)
    }
}

/// A text at the left of a column.
pub open spec fn left(text: Seq<char>, width: nat) -> Seq<char> {
    text + filler(text, width)
}

/// A text at the right of a column.
pub open spec fn right(text: Seq<char>, width: nat) -> Seq<char> {
    filler(text, width) + text
}

fn fill(text: &str, width: usize) -> (r: String)
    ensures
        r@ == filler(text@, width as nat),
{
    let n: usize = char_count(text);
    if n >= width {
        "".to_string()
    } else {
        make_spaces(width - n)
    }
}

fn at_left(text: &str, width: usize) -> (r: String)
    ensures
        r@ == left(text@, width as nat),
{
    let rest = fill(text, width);
    let mut out = text.to_string();
    out.append(rest.as_str());
    out
}

fn at_right(text: &str, width: usize) -> (r: String)
    ensures
        r@ == right(text@, width as nat),
{
    let mut out = fill(text, width);
    out.append(text);
    out
}

/// A row of the table of changes.
pub open spec fn change_row(
    slug: Seq<char>,
    state: Seq<char>,
    wall: Seq<char>,
    review: Seq<char>,
    patchsets: Seq<char>,
    rework: Seq<char>,
    first_pass: Seq<char>,
    findings: Seq<char>,
) -> Seq<char> {
    left(slug, 28) + " "@ + left(state, 10) + " "@ + right(wall, 8) + " "@ + right(review, 8)
        + " "@ + right(patchsets, 4) + " "@ + right(rework, 4) + " "@ + right(first_pass, 10)
        + " "@ + right(findings, 8)
}

fn write_change_row(
    slug: &str,
    state: &str,
    wall: &str,
    review: &str,
    patchsets: &str,
    rework: &str,
    first_pass: &str,
    findings: &str,
) -> (r: String)
    ensures
        r@ == change_row(slug@, state@, wall@, review@, patchsets@, rework@, first_pass@, findings@),
{
    let state = at_left(state, 10);
    let wall = at_right(wall, 8);
    let review = at_right(review, 8);
    let patchsets = at_right(patchsets, 4);
    let rework = at_right(rework, 4);
    let first_pass = at_right(first_pass, 10);
    let findings = at_right(findings, 8);
    let mut out = at_left(slug, 28);
    out.append(" ");
    out.append(state.as_str());
    out.append(" ");
    out.append(wall.as_str());
    out.append(" ");
    out.append(review.as_str());
    out.append(" ");
    out.append(patchsets.as_str());
    out.append(" ");
    out.append(rework.as_str());
    out.append(" ");
    out.append(first_pass.as_str());
    out.append(" ");
    out.append(findings.as_str());
    out
}

/// A duration, or a dash where there is none.
pub open spec fn duration_or_dash(seconds: Option<u64>) -> Seq<char> {
    match seconds {
        Some(seconds) => duration_text(seconds as nat),
        None => "—"@,
    }
}

fn write_duration(seconds: Option<u64>) -> (r: String)
    ensures
        r@ == duration_or_dash(seconds),
{
    match seconds {
        Some(seconds) => format_duration(seconds),
        None => "—".to_string(),
    }
}

/// The sum of the first `n` numbers of a tally.
pub open spec fn sum_of(tally: Tally, n: int) -> nat
    decreases n,
{
    if n <= 0 {
        0
    } else {
        sum_of(tally, n - 1) + tally.numbers@[n - 1] as nat
    }
}

proof fn lemma_sum_grows(tally: Tally, a: int, b: int)
    requires
        0 <= a <= b,
    ensures
        sum_of(tally, a) <= sum_of(tally, b),
    decreases b - a,
{
    if a < b {
        lemma_sum_grows(tally, a, b - 1);
    }
}

fn sum_numbers(tally: &Tally) -> (r: u64)
    requires
        sum_of(*tally, tally.numbers@.len() as int) <= u64::MAX,
    ensures
        r == sum_of(*tally, tally.numbers@.len() as int),
{
    let mut sum: u64 = 0;
    for i in 0..tally.numbers.len()
        invariant
            sum_of(*tally, tally.numbers@.len() as int) <= u64::MAX,
            sum == sum_of(*tally, i as int),
    {
        proof {
            lemma_sum_grows(*tally, i + 1, tally.numbers@.len() as int);
        }
        sum = sum + tally.numbers[i];
    }
    sum
}

/// How many findings a change has.
pub open spec fn finding_count(change: ChangeStats) -> nat {
    sum_of(change.findings_by_severity, change.findings_by_severity.numbers@.len() as int)
}

/// The row of a change.
pub open spec fn stats_row(change: ChangeStats) -> Seq<char> {
    change_row(
        cut(change.slug@, 28),
        change.state@,
        duration_or_dash(change.wall_time_seconds),
        duration_or_dash(change.review_latency_seconds),
        decimal_of(change.patchset_count as nat),
        decimal_of(change.completed_rework_rounds as nat),
        if change.first_pass_approval {
            "yes"@
        } else {
            "no"@
        },
        decimal_of(finding_count(change)),
    )
}

/// The heading of the table of changes.
pub fn stats_heading() -> (r: String)
    ensures
        r@ == change_row(
            "change"@,
            "state"@,
            "wall"@,
            "review"@,
            "ps"@,
            "rw"@,
            "first-pass"@,
            "findings"@,
        ),
{
    write_change_row("change", "state", "wall", "review", "ps", "rw", "first-pass", "findings")
}

/// The row of a change, with its slug cut to the width of its column.
pub fn render_change(change: &ChangeStats) -> (r: String)
    requires
        finding_count(*change) <= u64::MAX,
        cuts(change.slug@, 28),
    ensures
        r@ == stats_row(*change),
{
    let slug = truncate(change.slug.as_str(), 28);
    let wall = write_duration(change.wall_time_seconds);
    let review = write_duration(change.review_latency_seconds);
    let patchsets = decimal(change.patchset_count as u64);
    let rework = decimal(change.completed_rework_rounds as u64);
    let findings = decimal(sum_numbers(&change.findings_by_severity));
    write_change_row(
        slug.as_str(),
        change.state,
        wall.as_str(),
        review.as_str(),
        patchsets.as_str(),
        rework.as_str(),
        if change.first_pass_approval {
            "yes"
        } else {
            "no"
        },
        findings.as_str(),
    )
}

/// A row of three columns.
pub open spec fn three(name: Seq<char>, median: Seq<char>, p90: Seq<char>) -> Seq<char> {
    left(name, 16) + " "@ + right(median, 8) + " "@ + right(p90, 8)
}

/// A row of four columns.
pub open spec fn four(name: Seq<char>, median: Seq<char>, p90: Seq<char>, budget: Seq<char>) -> Seq<
    char,
> {
    three(name, median, p90) + " "@ + right(budget, 16)
}

fn write_three(name: &str, median: &str, p90: &str) -> (r: String)
    ensures
        r@ == three(name@, median@, p90@),
{
    let median = at_right(median, 8);
    let p90 = at_right(p90, 8);
    let mut out = at_left(name, 16);
    out.append(" ");
    out.append(median.as_str());
    out.append(" ");
    out.append(p90.as_str());
    out
}

fn write_four(name: &str, median: &str, p90: &str, budget: &str) -> (r: String)
    ensures
        r@ == four(name@, median@, p90@, budget@),
{
    let budget = at_right(budget, 16);
    let mut out = write_three(name, median, p90);
    out.append(" ");
    out.append(budget.as_str());
    out
}

/// The first budget under a name, zero where there is none.
pub open spec fn budget_from(budgets: Seq<(String, u64)>, name: Seq<char>, k: int) -> nat
    decreases budgets.len() - k,
{
    if k >= budgets.len() {
        0
    } else if budgets[k].0@ == name {
        budgets[k].1 as nat
    } else {
        budget_from(budgets, name, k + 1)
    }
}

fn find_budget(budgets: &Vec<(String, u64)>, name: &str) -> (r: u64)
    ensures
        r == budget_from(budgets@, name@, 0),
{
    for k in 0..budgets.len()
        invariant
            budget_from(budgets@, name@, 0) == budget_from(budgets@, name@, k as int),
    {
        if same(budgets[k].0.as_str(), name) {
            return budgets[k].1;
        }
    }
    0
}

/// The row of a stage.
pub open spec fn stage_row(aggregate: Aggregate, i: int) -> Seq<char> {
    let (name, p) = aggregate.stage@[i];
    four(
        name@,
        duration_text(p.median_seconds as nat),
        duration_text(p.p90_seconds as nat),
        duration_text(budget_from(aggregate.suggested_stage_budgets@, name@, 0)),
    )
}

/// The row of a gate.
pub open spec fn gate_row(aggregate: Aggregate, i: int) -> Seq<char> {
    let (name, p) = aggregate.gate@[i];
    three(
        name@,
        duration_text(p.median_seconds as nat),
        duration_text(p.p90_seconds as nat),
    )
}

/// The lines of the figures of many changes.
pub open spec fn aggregate_lines(aggregate: Aggregate) -> Seq<Seq<char>> {
    seq!["\nAggregate ("@ + decimal_of(aggregate.changes as nat) + " changes)"@] + (
    if aggregate.stage@.len() == 0 {
        Seq::empty()
    } else {
        seq![four("stage"@, "median"@, "p90"@, "suggested-budget"@)] + Seq::new(
            aggregate.stage@.len(),
            |i: int| stage_row(aggregate, i),
        )
    }) + (if aggregate.gate@.len() == 0 {
        Seq::empty()
    } else {
        seq![three("gate"@, "median"@, "p90"@)] + Seq::new(
            aggregate.gate@.len(),
            |i: int| gate_row(aggregate, i),
        )
    })
}

fn write_stages(aggregate: &Aggregate) -> (r: Vec<String>)
    ensures
        views(r@) == (if aggregate.stage@.len() == 0 {
            Seq::empty()
        } else {
            seq![four("stage"@, "median"@, "p90"@, "suggested-budget"@)] + Seq::new(
                aggregate.stage@.len(),
                |i: int| stage_row(*aggregate, i),
            )
        }),
{
    let mut out: Vec<String> = Vec::new();
    if aggregate.stage.len() == 0 {
        assert(views(out@) =~= Seq::<Seq<char>>::empty());
        return out;
    }
    let head = write_four("stage", "median", "p90", "suggested-budget");
    let ghost first = head@;
    out.push(head);
    for i in 0..aggregate.stage.len()
        invariant
            out@.len() == i + 1,
            out@[0]@ == first,
            forall|j: int| 1 <= j <= i ==> (#[trigger] out@[j])@ == stage_row(*aggregate, j - 1),
    {
        let name = aggregate.stage[i].0.as_str();
        let median = format_duration(aggregate.stage[i].1.median_seconds);
        let p90 = format_duration(aggregate.stage[i].1.p90_seconds);
        let budget = format_duration(find_budget(&aggregate.suggested_stage_budgets, name));
        out.push(write_four(name, median.as_str(), p90.as_str(), budget.as_str()));
    }
    assert(views(out@) =~= seq![first] + Seq::new(
        aggregate.stage@.len(),
        |i: int| stage_row(*aggregate, i),
    ));
    out
}

fn write_gates(aggregate: &Aggregate) -> (r: Vec<String>)
    ensures
        views(r@) == (if aggregate.gate@.len() == 0 {
            Seq::empty()
        } else {
            seq![three("gate"@, "median"@, "p90"@)] + Seq::new(
                aggregate.gate@.len(),
                |i: int| gate_row(*aggregate, i),
            )
        }),
{
    let mut out: Vec<String> = Vec::new();
    if aggregate.gate.len() == 0 {
        assert(views(out@) =~= Seq::<Seq<char>>::empty());
        return out;
    }
    let head = write_three("gate", "median", "p90");
    let ghost first = head@;
    out.push(head);
    for i in 0..aggregate.gate.len()
        invariant
            out@.len() == i + 1,
            out@[0]@ == first,
            forall|j: int| 1 <= j <= i ==> (#[trigger] out@[j])@ == gate_row(*aggregate, j - 1),
    {
        let name = aggregate.gate[i].0.as_str();
        let median = format_duration(aggregate.gate[i].1.median_seconds);
        let p90 = format_duration(aggregate.gate[i].1.p90_seconds);
        out.push(write_three(name, median.as_str(), p90.as_str()));
    }
    assert(views(out@) =~= seq![first] + Seq::new(
        aggregate.gate@.len(),
        |i: int| gate_row(*aggregate, i),
    ));
    out
}

/// The lines of the figures of many changes.
pub fn render_aggregate(aggregate: &Aggregate) -> (r: Vec<String>)
    ensures
        views(r@) == aggregate_lines(*aggregate),
{
    let mut out: Vec<String> = Vec::new();
    let count = decimal(aggregate.changes as u64);
    let mut head = "\nAggregate (".to_string();
    head.append(count.as_str());
    head.append(" changes)");
    let ghost first = head@;
    out.push(head);
    assert(views(out@) =~= seq![first]);
    let ghost a = views(out@);
    let mut stages = write_stages(aggregate);
    let ghost b = views(stages@);
    let mut gates = write_gates(aggregate);
    let ghost c = views(gates@);
    out.append(&mut stages);
    assert(views(out@) =~= a + b);
    out.append(&mut gates);
    assert(views(out@) =~= a + b + c);
    out
}

/// A row of the table of identities.
pub open spec fn model_row(
    identity: Seq<char>,
    changes: Seq<char>,
    patchsets: Seq<char>,
    rework: Seq<char>,
    verdicts: Seq<char>,
) -> Seq<char> {
    left(identity, 40) + " "@ + right(changes, 8) + " "@ + right(patchsets, 10) + " "@ + right(
        rework,
        8,
    ) + " "@ + right(verdicts, 9)
}

fn write_model_row(identity: &str, changes: &str, patchsets: &str, rework: &str, verdicts: &str) -> (r:
    String)
    ensures
        r@ == model_row(identity@, changes@, patchsets@, rework@, verdicts@),
{
    let changes = at_right(changes, 8);
    let patchsets = at_right(patchsets, 10);
    let rework = at_right(rework, 8);
    let verdicts = at_right(verdicts, 9);
    let mut out = at_left(identity, 40);
    out.append(" ");
    out.append(changes.as_str());
    out.append(" ");
    out.append(patchsets.as_str());
    out.append(" ");
    out.append(rework.as_str());
    out.append(" ");
    out.append(verdicts.as_str());
    out
}

/// The heading of the table of identities.
pub fn models_heading() -> (r: String)
    ensures
        r@ == model_row("identity"@, "changes"@, "patchsets"@, "caused-rw"@, "verdicts"@),
{
    write_model_row("identity", "changes", "patchsets", "caused-rw", "verdicts")
}

/// The row of an identity, with its name cut to the width of its column.
pub fn render_model(model: &ModelStats) -> (r: String)
    requires
        cuts(model.identity@, 40),
    ensures
        r@ == model_row(
            cut(model.identity@, 40),
            decimal_of(model.changes as nat),
            decimal_of(model.patchsets as nat),
            decimal_of(model.rework_rounds_caused as nat),
            decimal_of(model.verdicts as nat),
        ),
{
    let identity = truncate(model.identity.as_str(), 40);
    let changes = decimal(model.changes as u64);
    let patchsets = decimal(model.patchsets as u64);
    let rework = decimal(model.rework_rounds_caused as u64);
    let verdicts = decimal(model.verdicts as u64);
    write_model_row(
        identity.as_str(),
        changes.as_str(),
        patchsets.as_str(),
        rework.as_str(),
        verdicts.as_str(),
    )
}

} // verus!
