//! What waits for someone: the changes of the inbox and the order in which they are told.
use crate::messages::substance;
use crate::order::{chosen, ints, lemma_chosen, lemma_ints_contain};
use crate::state::{ChangeState, ClaimIdentity, HoldState};
use crate::text::{
    among, contains, decimal, decimal_of, opt_view, push_text, same, trim, trimmed, views,
};
use vstd::prelude::*;

verus! {

/// The format of an inbox that is written as JSON together with the journal.
pub const CATCHUP_SCHEMA: &'static str = "arc-catchup/1";

/// Whether a change is in the scope of an inbox: assigned to whoever is asked for, or anyone
/// where no one is.
pub open spec fn in_scope(state: ChangeState, assignee: Option<Seq<char>>) -> bool {
    assignee is Some ==> opt_view(state.assigned_to) == assignee
}

/// The changes of an inbox: those whose obligations are told, and of these the ones whose status
/// is told too. An obligation outlives its change.
pub struct InboxScope {
    pub considered: Vec<usize>,
    pub open: Vec<usize>,
}

fn read_assignee(assigned_to: &Option<String>) -> (r: Option<String>)
    ensures
        opt_view(r) == substance(*assigned_to),
{
    match assigned_to {
        Some(text) => {
            let text = trim(text.as_str());
            if text.as_str().is_empty() {
                None
            } else {
                Some(text)
            }
        },
        None => None,
    }
}

/// Whether `r` are the changes that an inbox tells of.
pub open spec fn is_inbox(
    changes: &Vec<ChangeState>,
    assigned_to: &Option<String>,
    r: InboxScope,
) -> bool {
    &&& ints(r.considered@) == chosen(
            changes@.len(),
            |i: int| in_scope(changes@[i], substance(*assigned_to)),
        )
    &&& ints(r.open@) == chosen(
            changes@.len(),
            |i: int|
                in_scope(changes@[i], substance(*assigned_to)) && changes@[i].closure is None,
        )
}

/// The changes that an inbox tells of.
pub fn collect_inbox(changes: &Vec<ChangeState>, assigned_to: &Option<String>) -> (r: InboxScope)
    ensures
        is_inbox(changes, assigned_to, r),
{
    let wanted = read_assignee(assigned_to);
    let mut considered: Vec<usize> = Vec::new();
    let mut open: Vec<usize> = Vec::new();
    let ghost scope = |i: int| in_scope(changes@[i], substance(*assigned_to));
    let ghost scope_open = |i: int|
        in_scope(changes@[i], substance(*assigned_to)) && changes@[i].closure is None;
    assert(ints(considered@) =~= Seq::<int>::empty());
    assert(ints(open@) =~= Seq::<int>::empty());
    for i in 0..changes.len()
        invariant
            opt_view(wanted) == substance(*assigned_to),
            scope == (|i: int| in_scope(changes@[i], substance(*assigned_to))),
            scope_open == (|i: int|
                in_scope(changes@[i], substance(*assigned_to)) && changes@[i].closure is None),
            ints(considered@) == chosen(i as nat, scope),
            ints(open@) == chosen(i as nat, scope_open),
    {
        let state = &changes[i];
        let inside = match &wanted {
            Some(name) => match &state.assigned_to {
                Some(assignee) => same(assignee.as_str(), name.as_str()),
                None => false,
            },
            None => true,
        };
        assert(inside == in_scope(changes@[i as int], substance(*assigned_to)));
        let ghost considered_before = ints(considered@);
        let ghost open_before = ints(open@);
        if inside {
            considered.push(i);
            assert(ints(considered@) =~= considered_before.push(i as int));
            if !state.is_closed() {
                open.push(i);
                assert(ints(open@) =~= open_before.push(i as int));
            }
        }
    }
    InboxScope { considered, open }
}

/// What a row tells of a claim.
pub open spec fn claim_text(owner: ClaimIdentity, stage: Seq<char>, age_seconds: u64) -> Seq<char> {
    " [owner: "@ + owner.actor@ + "/"@ + owner.harness@ + "/"@ + owner.session@ + "; stage: "@
        + stage + "; age: "@ + decimal_of(age_seconds as nat) + "s]"@
}

/// What a row tells of a claim, where all of it is known.
pub fn claim_details(
    owner: &Option<ClaimIdentity>,
    stage: &Option<String>,
    age_seconds: Option<u64>,
) -> (r: String)
    ensures
        r@ == (if owner is Some && stage is Some && age_seconds is Some {
            claim_text(owner->0, stage->0@, age_seconds->0)
        } else {
            ""@
        }),
{
    match owner {
        Some(owner) => match stage {
            Some(stage) => match age_seconds {
                Some(age) => {
                    let seconds = decimal(age);
                    let mut out = " [owner: ".to_string();
                    out.append(owner.actor.as_str());
                    out.append("/");
                    out.append(owner.harness.as_str());
                    out.append("/");
                    out.append(owner.session.as_str());
                    out.append("; stage: ");
                    out.append(stage.as_str());
                    out.append("; age: ");
                    out.append(seconds.as_str());
                    out.append("s]");
                    out
                },
                None => "".to_string(),
            },
            None => "".to_string(),
        },
        None => "".to_string(),
    }
}

/// One entry of the journal that is shown.
pub struct JournalBacklogRow {
    pub file: String,
    pub kind: String,
    pub heading: String,
}

/// What the journal holds that waits.
pub struct JournalBacklog {
    pub dir: String,
    pub open: u64,
    pub later: u64,
    pub feature_requests: u64,
    pub preview: Vec<JournalBacklogRow>,
}

/// The line that counts what the journal holds.
pub open spec fn backlog_text(backlog: JournalBacklog) -> Seq<char> {
    "  "@ + decimal_of(backlog.open as nat) + " open, "@ + decimal_of(backlog.later as nat)
        + " later, "@ + decimal_of(backlog.feature_requests as nat) + " feature-request  "@
        + backlog.dir@
}

/// The line of one entry.
pub open spec fn backlog_row_text(row: JournalBacklogRow) -> Seq<char> {
    "  "@ + row.file@ + "  "@ + row.kind@ + "  "@ + row.heading@
}

/// The lines that tell what the journal holds.
pub open spec fn backlog_texts(backlog: JournalBacklog) -> Seq<Seq<char>> {
    if backlog.open == 0 && backlog.later == 0 && backlog.feature_requests == 0 {
        seq!["## journal backlog"@, "  (none)  "@ + backlog.dir@]
    } else {
        seq!["## journal backlog"@, backlog_text(backlog)] + Seq::new(
            backlog.preview@.len(),
            |i: int| backlog_row_text(backlog.preview@[i]),
        ) + seq!["  full queue: arc journal open"@]
    }
}

fn write_backlog(backlog: &JournalBacklog) -> (r: String)
    ensures
        r@ == backlog_text(*backlog),
{
    let open = decimal(backlog.open);
    let later = decimal(backlog.later);
    let requests = decimal(backlog.feature_requests);
    let mut out = "  ".to_string();
    out.append(open.as_str());
    out.append(" open, ");
    out.append(later.as_str());
    out.append(" later, ");
    out.append(requests.as_str());
    out.append(" feature-request  ");
    out.append(backlog.dir.as_str());
    out
}

fn write_backlog_row(row: &JournalBacklogRow) -> (r: String)
    ensures
        r@ == backlog_row_text(*row),
{
    let mut out = "  ".to_string();
    out.append(row.file.as_str());
    out.append("  ");
    out.append(row.kind.as_str());
    out.append("  ");
    out.append(row.heading.as_str());
    out
}

/// The lines that tell what the journal holds.
pub fn render_journal_backlog(backlog: &JournalBacklog) -> (r: Vec<String>)
    ensures
        views(r@) == backlog_texts(*backlog),
{
    let mut out: Vec<String> = Vec::new();
    out.push("## journal backlog".to_string());
    if backlog.open == 0 && backlog.later == 0 && backlog.feature_requests == 0 {
        let mut line = "  (none)  ".to_string();
        line.append(backlog.dir.as_str());
        out.push(line);
        assert(views(out@) =~= backlog_texts(*backlog));
        return out;
    }
    out.push(write_backlog(backlog));
    let ghost head = seq!["## journal backlog"@, backlog_text(*backlog)];
    for i in 0..backlog.preview.len()
        invariant
            out@.len() == i + 2,
            out@[0]@ == head[0],
            out@[1]@ == head[1],
            head.len() == 2,
            forall|j: int|
                0 <= j < i ==> (#[trigger] out@[j + 2])@ == backlog_row_text(backlog.preview@[j]),
    {
        let row = write_backlog_row(&backlog.preview[i]);
        let ghost before = out@;
        out.push(row);
        assert forall|j: int| 0 <= j < i + 1 implies (#[trigger] out@[j + 2])@
            == backlog_row_text(backlog.preview@[j]) by {
            if j < i {
                assert(out@[j + 2] == before[j + 2]);
            }
        }
    }
    out.push("  full queue: arc journal open".to_string());
    assert(views(out@) =~= backlog_texts(*backlog)) by {
        let all = backlog_texts(*backlog);
        assert forall|k: int| 0 <= k < all.len() implies views(out@)[k] == all[k] by {
            if 2 <= k < all.len() - 1 {
                assert(out@[(k - 2) + 2]@ == backlog_row_text(backlog.preview@[k - 2]));
            }
        }
    }
    out
}

/// What the worktree of one change takes.
pub struct WorktreeUsage {
    pub change_id: String,
    /// Its size, as it is told, where it could be measured.
    pub size: Option<String>,
    pub path: String,
}

/// What the worktrees of the open changes take.
pub struct WorktreeAccounting {
    /// The size of all, as it is told, where it could be measured.
    pub total: Option<String>,
    pub changes: Vec<WorktreeUsage>,
}

/// The line of one worktree.
pub open spec fn usage_text(usage: WorktreeUsage) -> Seq<char> {
    "  "@ + usage.change_id@ + "  "@ + (match usage.size {
        Some(size) => size@,
        None => "size unknown"@,
    }) + "  "@ + usage.path@
}

/// The line of all worktrees.
pub open spec fn total_text(accounting: WorktreeAccounting) -> Seq<char> {
    match accounting.total {
        Some(total) => "worktrees: "@ + total@ + " across "@ + decimal_of(
            accounting.changes@.len(),
        ) + " open worktree(s)"@,
        None => "worktrees: "@ + decimal_of(accounting.changes@.len())
            + " open, size unavailable"@,
    }
}

/// What is said of the worktrees of the open changes: nothing where there are none.
pub open spec fn accounting_texts(accounting: WorktreeAccounting) -> Seq<Seq<char>> {
    if accounting.changes@.len() == 0 {
        Seq::empty()
    } else {
        seq![total_text(accounting)] + Seq::new(
            accounting.changes@.len(),
            |i: int| usage_text(accounting.changes@[i]),
        )
    }
}

fn write_usage(usage: &WorktreeUsage) -> (r: String)
    ensures
        r@ == usage_text(*usage),
{
    let size = match &usage.size {
        Some(size) => size.clone(),
        None => "size unknown".to_string(),
    };
    let mut out = "  ".to_string();
    out.append(usage.change_id.as_str());
    out.append("  ");
    out.append(size.as_str());
    out.append("  ");
    out.append(usage.path.as_str());
    out
}

fn write_total(accounting: &WorktreeAccounting) -> (r: String)
    ensures
        r@ == total_text(*accounting),
{
    let count = decimal(accounting.changes.len() as u64);
    let mut out = "worktrees: ".to_string();
    match &accounting.total {
        Some(total) => {
            out.append(total.as_str());
            out.append(" across ");
            out.append(count.as_str());
            out.append(" open worktree(s)");
        },
        None => {
            out.append(count.as_str());
            out.append(" open, size unavailable");
        },
    }
    out
}

/// What is said of the worktrees of the open changes.
pub fn render_worktree_accounting(accounting: &WorktreeAccounting) -> (r: Vec<String>)
    ensures
        views(r@) == accounting_texts(*accounting),
{
    let mut out: Vec<String> = Vec::new();
    if accounting.changes.len() == 0 {
        assert(views(out@) =~= accounting_texts(*accounting));
        return out;
    }
    push_text(&mut out, write_total(accounting));
    let ghost head = seq![total_text(*accounting)];
    let ghost lines = |i: int| usage_text(accounting.changes@[i]);
    assert(views(out@) =~= head + Seq::new(0, lines));
    for i in 0..accounting.changes.len()
        invariant
            lines == (|i: int| usage_text(accounting.changes@[i])),
            views(out@) == head + Seq::new(i as nat, lines),
    {
        push_text(&mut out, write_usage(&accounting.changes[i]));
        assert(views(out@) =~= head + Seq::new((i + 1) as nat, lines));
    }
    assert(views(out@) =~= accounting_texts(*accounting));
    out
}

/// A section of an inbox: its name and the changes in it.
pub struct Section {
    pub name: String,
    pub changes: Vec<String>,
}

/// Whether a section is told when a session starts: it has something, and it is not the one whose
/// debts are told in a summary of their own.
pub open spec fn shown_section(section: Section) -> bool {
    section.changes@.len() > 0 && section.name@ != "debt-owed"@
}

/// How many changes of a section are told.
pub open spec fn rows_shown(section: Section, limit: usize) -> int {
    if section.changes@.len() <= limit {
        section.changes@.len() as int
    } else {
        limit as int
    }
}

/// Whether a change is told in one of the first `rows` of a section.
pub open spec fn told_in(section: Section, rows: int, id: Seq<char>) -> bool {
    exists|r: int| 0 <= r < rows && (#[trigger] section.changes@[r])@ == id
}

/// Whether a change is told in one of the first `n` sections.
pub open spec fn told_before(sections: Seq<Section>, limit: usize, n: int, id: Seq<char>) -> bool {
    exists|i: int|
        0 <= i < n && shown_section(#[trigger] sections[i]) && told_in(
            sections[i],
            rows_shown(sections[i], limit),
            id,
        )
}

/// What is told of a section.
pub struct SectionPlan {
    pub section: usize,
    /// Whether the review queue is told before it.
    pub with_queue: bool,
    /// Of each change that is told, whether this is the first time, so that its debts are told.
    pub first_told: Vec<bool>,
}

/// Whether a plan is that of the section at `i`.
pub open spec fn plans_section(
    plan: SectionPlan,
    sections: Seq<Section>,
    limit: usize,
    i: int,
) -> bool {
    &&& plan.section == i
    &&& plan.with_queue == (sections[i].name@ == "needs-review"@)
    &&& plan.first_told@.len() == rows_shown(sections[i], limit)
    &&& forall|r: int|
        0 <= r < plan.first_told@.len() ==> #[trigger] plan.first_told@[r] == !(told_before(
            sections,
            limit,
            i,
            sections[i].changes@[r]@,
        ) || told_in(sections[i], r, sections[i].changes@[r]@))
}

/// Whether the plans are those of the first `n` sections that are told.
pub open spec fn plans_first(
    plans: Seq<SectionPlan>,
    sections: Seq<Section>,
    limit: usize,
    n: nat,
) -> bool {
    let shown = chosen(n, |i: int| shown_section(sections[i]));
    plans.len() == shown.len() && forall|k: int|
        0 <= k < plans.len() ==> plans_section(#[trigger] plans[k], sections, limit, shown[k])
}

proof fn lemma_told_step(sections: Seq<Section>, limit: usize, n: int, id: Seq<char>)
    requires
        0 <= n < sections.len(),
    ensures
        told_before(sections, limit, n + 1, id) <==> told_before(sections, limit, n, id) || (
        shown_section(sections[n]) && told_in(sections[n], rows_shown(sections[n], limit), id)),
{
    if told_before(sections, limit, n, id) {
        let i = choose|i: int|
            0 <= i < n && shown_section(#[trigger] sections[i]) && told_in(
                sections[i],
                rows_shown(sections[i], limit),
                id,
            );
        assert(shown_section(sections[i]));
    }
    if told_before(sections, limit, n + 1, id) {
        let i = choose|i: int|
            0 <= i < n + 1 && shown_section(#[trigger] sections[i]) && told_in(
                sections[i],
                rows_shown(sections[i], limit),
                id,
            );
        if i < n {
            assert(told_before(sections, limit, n, id));
        }
    }
}

proof fn lemma_told_row(section: Section, rows: int, id: Seq<char>)
    requires
        0 <= rows < section.changes@.len(),
    ensures
        told_in(section, rows + 1, id) <==> told_in(section, rows, id) || section.changes@[rows]@
            == id,
{
    if told_in(section, rows, id) {
        let r = choose|r: int| 0 <= r < rows && (#[trigger] section.changes@[r])@ == id;
        assert(section.changes@[r]@ == id);
    }
    if section.changes@[rows]@ == id {
        assert(told_in(section, rows + 1, id));
    }
}

fn plan_section(
    sections: &Vec<Section>,
    limit: usize,
    i: usize,
    told: &mut Vec<String>,
) -> (r: SectionPlan)
    requires
        i < sections@.len(),
        shown_section(sections@[i as int]),
        forall|id: Seq<char>| #[trigger]
            among(old(told)@, id) <==> told_before(sections@, limit, i as int, id),
    ensures
        plans_section(r, sections@, limit, i as int),
        forall|id: Seq<char>| #[trigger]
            among(final(told)@, id) <==> told_before(sections@, limit, i + 1, id),
{
    let section = &sections[i];
    let rows: usize = if section.changes.len() <= limit { section.changes.len() } else { limit };
    let mut first_told: Vec<bool> = Vec::new();
    for r in 0..rows
        invariant
            i < sections@.len(),
            *section == sections@[i as int],
            rows == rows_shown(*section, limit),
            first_told@.len() == r,
            forall|q: int|
                0 <= q < r ==> #[trigger] first_told@[q] == !(told_before(
                    sections@,
                    limit,
                    i as int,
                    section.changes@[q]@,
                ) || told_in(*section, q, section.changes@[q]@)),
            forall|id: Seq<char>| #[trigger]
                among(told@, id) <==> told_before(sections@, limit, i as int, id) || told_in(
                    *section,
                    r as int,
                    id,
                ),
    {
        let id = &section.changes[r];
        let ghost earlier = told@;
        let fresh = !contains(told, id.as_str());
        if fresh {
            told.push(id.clone());
        }
        first_told.push(fresh);
        proof {
            assert forall|x: Seq<char>| #[trigger] among(told@, x) <==> told_before(
                sections@,
                limit,
                i as int,
                x,
            ) || told_in(*section, r + 1, x) by {
                lemma_told_row(*section, r as int, x);
                assert(among(earlier, x) <==> told_before(sections@, limit, i as int, x)
                    || told_in(*section, r as int, x));
                if among(earlier, x) {
                    let k = choose|k: int| 0 <= k < earlier.len() && #[trigger] earlier[k]@ == x;
                    assert(told@[k]@ == x);
                }
                if among(told@, x) {
                    let k = choose|k: int| 0 <= k < told@.len() && #[trigger] told@[k]@ == x;
                    if k < earlier.len() {
                        assert(earlier[k]@ == x);
                    }
                }
                if fresh {
                    assert(told@[earlier.len() as int]@ == id@);
                }
            }
        }
    }
    proof {
        assert forall|x: Seq<char>| #[trigger] among(told@, x) <==> told_before(
            sections@,
            limit,
            i + 1,
            x,
        ) by {
            lemma_told_step(sections@, limit, i as int, x);
        }
    }
    SectionPlan { section: i, with_queue: same(section.name.as_str(), "needs-review"), first_told }
}

/// What is told when a session starts, section by section. Where nothing is, there is no open
/// change.
pub fn catchup(sections: &Vec<Section>, limit: usize) -> (r: Vec<SectionPlan>)
    ensures
        plans_first(r@, sections@, limit, sections@.len()),
{
    let mut plans: Vec<SectionPlan> = Vec::new();
    let mut told: Vec<String> = Vec::new();
    let ghost shown = |i: int| shown_section(sections@[i]);
    for i in 0..sections.len()
        invariant
            shown == (|i: int| shown_section(sections@[i])),
            plans_first(plans@, sections@, limit, i as nat),
            forall|id: Seq<char>| #[trigger]
                among(told@, id) <==> told_before(sections@, limit, i as int, id),
    {
        let section = &sections[i];
        let ghost earlier = chosen(i as nat, shown);
        if section.changes.len() > 0 && !same(section.name.as_str(), "debt-owed") {
            let plan = plan_section(sections, limit, i, &mut told);
            assert(chosen((i + 1) as nat, shown) == earlier.push(i as int));
            plans.push(plan);
        } else {
            assert forall|x: Seq<char>| #[trigger] among(told@, x) <==> told_before(
                sections@,
                limit,
                i + 1,
                x,
            ) by {
                lemma_told_step(sections@, limit, i as int, x);
            }
        }
    }
    plans
}

/// A change in a section of an inbox.
pub struct InboxRow {
    pub change_id: String,
    pub title: String,
    pub next_actor: String,
    pub owner: Option<ClaimIdentity>,
    pub stage: Option<String>,
    pub age_seconds: Option<u64>,
    pub assigned_to: Option<String>,
    pub holds: Vec<HoldState>,
}

/// What a row tells of a claim, where all of it is known.
pub open spec fn claim_part(row: InboxRow) -> Seq<char> {
    if row.owner is Some && row.stage is Some && row.age_seconds is Some {
        claim_text(row.owner->0, row.stage->0@, row.age_seconds->0)
    } else {
        ""@
    }
}

/// What a row tells of an assignment.
pub open spec fn assignment_part(row: InboxRow) -> Seq<char> {
    match row.assigned_to {
        Some(name) => " [assigned: "@ + name@ + "]"@,
        None => ""@,
    }
}

/// The line of a change: who has it next, who claimed it and whom it is assigned to.
pub open spec fn row_text(row: InboxRow) -> Seq<char> {
    "  "@ + row.change_id@ + "  "@ + row.title@ + " → "@ + row.next_actor@ + claim_part(row)
        + assignment_part(row)
}

/// The line of a hold: a hold is released by the event that set it.
pub open spec fn hold_text(hold: HoldState) -> Seq<char> {
    "    hold "@ + hold.hold_event_id@ + " by "@ + hold.held_by@ + ": "@ + hold.reason@
}

/// The lines of a change in a section.
pub open spec fn row_texts(row: InboxRow) -> Seq<Seq<char>> {
    seq![row_text(row)] + Seq::new(row.holds@.len(), |i: int| hold_text(row.holds@[i]))
}

/// The lines of the first `n` changes of a section.
pub open spec fn rows_texts(rows: Seq<InboxRow>, n: int) -> Seq<Seq<char>>
    decreases n,
{
    if n <= 0 {
        Seq::empty()
    } else {
        rows_texts(rows, n - 1) + row_texts(rows[n - 1])
    }
}

/// The lines of a section.
pub open spec fn section_texts(name: Seq<char>, rows: Seq<InboxRow>) -> Seq<Seq<char>> {
    seq!["## "@ + name] + (if rows.len() == 0 {
        seq!["  (none)"@]
    } else {
        rows_texts(rows, rows.len() as int)
    })
}

fn write_row(row: &InboxRow) -> (r: String)
    ensures
        r@ == row_text(*row),
{
    let assigned = match &row.assigned_to {
        Some(name) => {
            let mut text = " [assigned: ".to_string();
            text.append(name.as_str());
            text.append("]");
            text
        },
        None => "".to_string(),
    };
    let mut out = "  ".to_string();
    out.append(row.change_id.as_str());
    out.append("  ");
    out.append(row.title.as_str());
    out.append(" → ");
    out.append(row.next_actor.as_str());
    out.append(claim_details(&row.owner, &row.stage, row.age_seconds).as_str());
    out.append(assigned.as_str());
    out
}

fn write_hold(hold: &HoldState) -> (r: String)
    ensures
        r@ == hold_text(*hold),
{
    let mut out = "    hold ".to_string();
    out.append(hold.hold_event_id.as_str());
    out.append(" by ");
    out.append(hold.held_by.as_str());
    out.append(": ");
    out.append(hold.reason.as_str());
    out
}

fn push_row(out: &mut Vec<String>, row: &InboxRow)
    ensures
        views(final(out)@) == views(old(out)@) + row_texts(*row),
{
    let ghost start = views(out@);
    let ghost holds = |i: int| hold_text(row.holds@[i]);
    push_text(out, write_row(row));
    assert(views(out@) =~= start + (seq![row_text(*row)] + Seq::new(0, holds)));
    for i in 0..row.holds.len()
        invariant
            holds == (|i: int| hold_text(row.holds@[i])),
            views(out@) == start + (seq![row_text(*row)] + Seq::new(i as nat, holds)),
    {
        push_text(out, write_hold(&row.holds[i]));
        assert(views(out@) =~= start + (seq![row_text(*row)] + Seq::new((i + 1) as nat, holds)));
    }
}

/// The lines of a section of an inbox.
pub fn render_section(name: &str, rows: &Vec<InboxRow>) -> (r: Vec<String>)
    ensures
        views(r@) == section_texts(name@, rows@),
{
    let mut out: Vec<String> = Vec::new();
    let mut heading = "## ".to_string();
    heading.append(name);
    push_text(&mut out, heading);
    assert(views(out@) =~= seq!["## "@ + name@]);
    if rows.len() == 0 {
        push_text(&mut out, "  (none)".to_string());
        assert(views(out@) =~= seq!["## "@ + name@] + seq!["  (none)"@]);
        return out;
    }
    for i in 0..rows.len()
        invariant
            views(out@) == seq!["## "@ + name@] + rows_texts(rows@, i as int),
    {
        push_row(&mut out, &rows[i]);
        assert(views(out@) =~= seq!["## "@ + name@] + rows_texts(rows@, i + 1));
    }
    out
}

/// An inbox tells of every change that is assigned to whoever is asked for, closed ones for what is
/// owed on them, and of the status of the open ones; where nobody is asked for, of all.
pub proof fn inboxes_hold_what_is_assigned(
    changes: &Vec<ChangeState>,
    assigned_to: &Option<String>,
    i: usize,
    r: InboxScope,
)
    requires
        is_inbox(changes, assigned_to, r),
        i < changes@.len(),
    ensures
        r.open@.contains(i) <==> r.considered@.contains(i) && changes@[i as int].closure is None,
        assigned_to is None ==> r.considered@.contains(i),
        *assigned_to matches Some(name) ==> (if trimmed(name@).len() == 0 {
            r.considered@.contains(i)
        } else {
            r.considered@.contains(i) <==> (changes@[i as int].assigned_to matches Some(other)
                && other@ == trimmed(name@))
        }),
{
    let all = |i: int| in_scope(changes@[i], substance(*assigned_to));
    let open = |i: int|
        in_scope(changes@[i], substance(*assigned_to)) && changes@[i].closure is None;
    lemma_chosen(changes@.len(), all);
    lemma_chosen(changes@.len(), open);
    lemma_ints_contain(r.considered@, i);
    lemma_ints_contain(r.open@, i);
    assert(chosen(changes@.len(), all).contains(i as int) <==> all(i as int));
    assert(chosen(changes@.len(), open).contains(i as int) <==> open(i as int));
}

/// Where a session starts, every section that holds something is told, in order, but for the debts,
/// which are told apart.
pub proof fn sections_with_changes_are_told(
    plans: Seq<SectionPlan>,
    sections: Seq<Section>,
    limit: usize,
    i: int,
)
    requires
        plans_first(plans, sections, limit, sections.len()),
        0 <= i < sections.len(),
        sections[i].changes@.len() > 0,
        sections[i].name@ != "debt-owed"@,
    ensures
        exists|k: int|
            0 <= k < plans.len() && (#[trigger] plans[k]).section == i && plans[k].first_told@.len()
                <= limit && (plans[k].with_queue <==> sections[i].name@ == "needs-review"@),
{
    let shown = |i: int| shown_section(sections[i]);
    lemma_chosen(sections.len(), shown);
    let order = chosen(sections.len(), shown);
    assert(order =~= chosen(sections.len(), |i: int| shown_section(sections[i])));
    assert(shown(i));
    assert(order.contains(i));
    let k = choose|k: int| 0 <= k < order.len() && order[k] == i;
    assert(plans_section(plans[k], sections, limit, order[k]));
}

} // verus!
