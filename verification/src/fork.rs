//! Forks: work that is recorded without being decided on. Nothing here merges or deletes.
use crate::identity::{
    by_branch, by_current_path, field_of, fork_branch, fork_named, is_fork_branch, ForkIdentity,
};
use crate::order::{count, in_order, sort_positions, strict_order};
use crate::table::Register;
use crate::text::{
    among, blank, chars_of, contains, decimal, decimal_of, is_blank, is_whitespace,
    lemma_precedes_irreflexive, lemma_precedes_total, lemma_precedes_transitive, less, lines,
    lines_of, opt_view, precedes, push_text, same, views,
    whitespace,
};
use vstd::prelude::*;

verus! {

/// The format of a list of forks that is written as JSON.
pub const FORKS_SCHEMA: &'static str = "arc-forks/1";

/// The branch prefix that every fork carries.
pub const FORK_BRANCH_PREFIX: &'static str = "fork/";

/// What a fork is for.
pub open spec fn contract_text() -> Seq<char> {
    "Fork contract: unintegrated by intent; external review deferred; the operator decides what to merge, rebase, or discard."@
}

/// What a fork is for.
pub fn fork_contract() -> (r: &'static str)
    ensures
        r@ == contract_text(),
{
    "Fork contract: unintegrated by intent; external review deferred; the operator decides what to merge, rebase, or discard."
}

/// Why no fork begins.
#[derive(Clone, Copy, Debug, PartialEq, Eq, Structural)]
pub enum BeginRefusal {
    BaseIsFork,
    BranchExists,
    WorktreeExists,
}

/// The branch that a fork starts from: the one that is asked for, or else the current one unless
/// that is a fork itself, or else `master`.
pub open spec fn base_text(asked: Option<String>, current: Option<String>) -> Seq<char> {
    match asked {
        Some(branch) => branch@,
        None => match current {
            Some(branch) => if fork_named(branch@) {
                "master"@
            } else {
                branch@
            },
            None => "master"@,
        },
    }
}

/// Whether `r` is the branch that a fork starts from, or why it starts from none.
pub open spec fn is_fork_base(
    asked: &Option<String>,
    current: &Option<String>,
    r: Result< String, BeginRefusal, >,
) -> bool {
    match r {
            Ok(base) => base@ == base_text(*asked, *current) && !fork_named(base@),
            Err(refusal) => refusal == BeginRefusal::BaseIsFork && fork_named(
                base_text(*asked, *current),
            ),
        }
}

/// The branch that a fork starts from; a fork starts from no fork.
pub fn fork_base(asked: &Option<String>, current: &Option<String>) -> (r: Result<
    String,
    BeginRefusal,
>)
    ensures
        is_fork_base(asked, current, r),
{
    let base = match asked {
        Some(branch) => branch.clone(),
        None => match current {
            Some(branch) => if is_fork_branch(branch.as_str()) {
                "master".to_string()
            } else {
                branch.clone()
            },
            None => "master".to_string(),
        },
    };
    if is_fork_branch(base.as_str()) {
        return Err(BeginRefusal::BaseIsFork);
    }
    Ok(base)
}

/// The name of the directory of a fork's worktree.
pub fn worktree_name(repository: &str, slug: &str) -> (r: String)
    ensures
        r@ == repository@ + "-fork-"@ + slug@,
{
    let mut out = repository.to_string();
    out.append("-fork-");
    out.append(slug);
    out
}

/// A marker that is filed in the journal.
pub struct MarkerText {
    pub title: String,
    pub body: String,
}

/// What is filed when a fork begins.
pub open spec fn begun_text(slug: Seq<char>, worktree: Seq<char>, base: Seq<char>) -> Seq<char> {
    "branch: "@ + ("fork/"@ + slug) + "\nworktree: "@ + worktree + "\nbase: "@ + base
        + "\nstatus: open\n\n"@ + contract_text() + "\n"@
}

/// Whether `r` is what is filed when a fork begins, or why none begins.
pub open spec fn begins_fork(
    slug: &str,
    worktree: &str,
    base: &str,
    branch_exists: bool,
    worktree_exists: bool,
    r: Result<MarkerText, BeginRefusal>,
) -> bool {
    match r {
            Ok(marker) => !fork_named(base@) && !branch_exists && !worktree_exists
                && marker.title@ == "fork "@ + slug@ && marker.body@ == begun_text(
                slug@,
                worktree@,
                base@,
            ),
            Err(BeginRefusal::BaseIsFork) => fork_named(base@),
            Err(BeginRefusal::BranchExists) => !fork_named(base@) && branch_exists,
            Err(BeginRefusal::WorktreeExists) => !fork_named(base@) && !branch_exists
                && worktree_exists,
        }
}

/// What is filed when a fork begins.
pub fn begin(
    slug: &str,
    worktree: &str,
    base: &str,
    branch_exists: bool,
    worktree_exists: bool,
) -> (r: Result<MarkerText, BeginRefusal>)
    ensures
        begins_fork(slug, worktree, base, branch_exists, worktree_exists, r),
{
    if is_fork_branch(base) {
        return Err(BeginRefusal::BaseIsFork);
    }
    if branch_exists {
        return Err(BeginRefusal::BranchExists);
    }
    if worktree_exists {
        return Err(BeginRefusal::WorktreeExists);
    }
    let branch = fork_branch(slug);
    let mut title = "fork ".to_string();
    title.append(slug);
    let mut body = "branch: ".to_string();
    body.append(branch.as_str());
    body.append("\nworktree: ");
    body.append(worktree);
    body.append("\nbase: ");
    body.append(base);
    body.append("\nstatus: open\n\n");
    body.append(fork_contract());
    body.append("\n");
    Ok(MarkerText { title, body })
}

/// Why a fork is not adopted.
#[derive(Clone, Copy, Debug, PartialEq, Eq, Structural)]
pub enum AdoptRefusal {
    NoBranch,
    NoWorktree,
}

/// The line that tells the intent of a fork, where there is one.
pub open spec fn intent_line(intent: Option<String>) -> Seq<char> {
    match intent {
        Some(text) => "intent: "@ + text@ + "\n"@,
        None => ""@,
    }
}

/// What is filed when a fork is adopted.
pub open spec fn adopted_text(slug: Seq<char>, worktree: Seq<char>, intent: Option<String>) -> Seq<
    char,
> {
    "branch: "@ + ("fork/"@ + slug) + "\nworktree: "@ + worktree + "\nstatus: adopted\n"@
        + intent_line(intent) + "\n\n"@ + contract_text() + "\n"@
}

fn write_intent(intent: &Option<String>) -> (r: String)
    ensures
        r@ == intent_line(*intent),
{
    match intent {
        Some(text) => {
            let mut out = "intent: ".to_string();
            out.append(text.as_str());
            out.append("\n");
            out
        },
        None => "".to_string(),
    }
}

/// Whether `r` is what is filed when a fork is adopted, or why it is not.
pub open spec fn answers_adoption(
    forks: &Vec<ForkIdentity>,
    slug: &str,
    intent: &Option<String>,
    r: Result< Option<MarkerText>, AdoptRefusal, >,
) -> bool {
    match r {
            Ok(Some(marker)) => exists|k: int| #[trigger]
                names(forks@, slug@, k) && forks@[k].marked() is None
                    && forks@[k].worktree_view() is Some && adopts(
                    marker,
                    slug@,
                    forks@[k].worktree_view()->0,
                    *intent,
                ),
            Ok(None) => exists|k: int| #[trigger]
                names(forks@, slug@, k) && forks@[k].marked() is Some
                    && forks@[k].worktree_view() is Some,
            Err(AdoptRefusal::NoBranch) => unnamed(forks@, slug@),
            Err(AdoptRefusal::NoWorktree) => exists|k: int| #[trigger]
                names(forks@, slug@, k) && forks@[k].worktree_view() is None,
        }
}

/// What is filed when a fork is adopted; nothing where it has a marker already.
pub fn adopt(forks: &Vec<ForkIdentity>, slug: &str, intent: &Option<String>) -> (r: Result<
    Option<MarkerText>,
    AdoptRefusal,
>)
    ensures
        answers_adoption(forks, slug, intent, r),
{
    let k: usize = match by_branch(forks, slug) {
        Some(k) => k,
        None => {
            return Err(AdoptRefusal::NoBranch);
        },
    };
    assert(names(forks@, slug@, k as int));
    let worktree = match forks[k].worktree() {
        Some(path) => path,
        None => {
            return Err(AdoptRefusal::NoWorktree);
        },
    };
    if forks[k].marker().is_some() {
        return Ok(None);
    }
    let branch = fork_branch(slug);
    let line = write_intent(intent);
    let mut title = "fork ".to_string();
    title.append(slug);
    title.append(" (adopted)");
    let mut body = "branch: ".to_string();
    body.append(branch.as_str());
    body.append("\nworktree: ");
    body.append(worktree.as_str());
    body.append("\nstatus: adopted\n");
    body.append(line.as_str());
    body.append("\n\n");
    body.append(fork_contract());
    body.append("\n");
    Ok(Some(MarkerText { title, body }))
}

/// Whether a marker is the one of an adoption.
pub open spec fn adopts(
    marker: MarkerText,
    slug: Seq<char>,
    worktree: Seq<char>,
    intent: Option<String>,
) -> bool {
    marker.title@ == "fork "@ + slug + " (adopted)"@ && marker.body@ == adopted_text(
        slug,
        worktree,
        intent,
    )
}

/// Whether the fork at `k` is the first of a name.
pub open spec fn names(forks: Seq<ForkIdentity>, slug: Seq<char>, k: int) -> bool {
    &&& 0 <= k < forks.len()
    &&& forks[k].branch_view() == "fork/"@ + slug
    &&& forall|j: int| 0 <= j < k ==> (#[trigger] forks[j]).branch_view() != "fork/"@ + slug
}

/// Whether no fork has a name.
pub open spec fn unnamed(forks: Seq<ForkIdentity>, slug: Seq<char>) -> bool {
    forall|j: int| 0 <= j < forks.len() ==> (#[trigger] forks[j]).branch_view() != "fork/"@ + slug
}

/// Why a fork is not retired.
#[derive(Clone, Copy, Debug, PartialEq, Eq, Structural)]
pub enum RetireRefusal {
    EmptyOutcome,
    NoBranch,
    /// It was retired before. A worktree that was kept then is removed, where that is asked for.
    AlreadyRetired { remove_worktree: bool },
}

/// What retiring a fork takes, in this order.
#[derive(Clone, Copy, Debug, PartialEq, Eq, Structural)]
pub struct RetirePlan {
    pub fork: usize,
    /// What is lost is told before the worktree is removed.
    pub tell_losses: bool,
    pub remove_worktree: bool,
    /// A fork without a marker gets one, so that there is something to close.
    pub write_marker: bool,
}

/// Whether the marker of a fork was consumed.
pub open spec fn retired(fork: ForkIdentity, consumed: Seq<String>) -> bool {
    fork.marked() is Some && among(consumed, fork.marked()->0.filename@)
}

/// Whether a plan retires a fork.
pub open spec fn plans_retirement(
    plan: RetirePlan,
    forks: Seq<ForkIdentity>,
    consumed: Seq<String>,
    slug: Seq<char>,
    keep_worktree: bool,
    force: bool,
) -> bool {
    &&& names(forks, slug, plan.fork as int)
    &&& !retired(forks[plan.fork as int], consumed)
    &&& plan.remove_worktree == (!keep_worktree
        && forks[plan.fork as int].worktree_view() is Some)
    &&& plan.tell_losses == (plan.remove_worktree && force)
    &&& plan.write_marker == (forks[plan.fork as int].marked() is None)
}

fn is_retired(fork: &ForkIdentity, consumed: &Vec<String>) -> (r: bool)
    ensures
        r == retired(*fork, consumed@),
{
    match fork.marker() {
        Some(marker) => contains(consumed, marker.filename.as_str()),
        None => false,
    }
}

/// Whether `r` is what retiring a fork takes, or why it is not retired.
pub open spec fn answers_retirement(
    forks: &Vec<ForkIdentity>,
    consumed: &Vec<String>,
    slug: &str,
    outcome: &str,
    keep_worktree: bool,
    force: bool,
    r: Result<RetirePlan, RetireRefusal>,
) -> bool {
    match r {
            Ok(plan) => !blank(outcome@) && plans_retirement(
                plan,
                forks@,
                consumed@,
                slug@,
                keep_worktree,
                force,
            ),
            Err(RetireRefusal::EmptyOutcome) => blank(outcome@),
            Err(RetireRefusal::NoBranch) => !blank(outcome@) && unnamed(forks@, slug@),
            Err(RetireRefusal::AlreadyRetired { remove_worktree }) => !blank(outcome@) && exists|
                k: int,
            | #[trigger]
                names(forks@, slug@, k) && retired(forks@[k], consumed@) && remove_worktree == (
                !keep_worktree && forks@[k].worktree_view() is Some),
        }
}

/// What retiring a fork takes. The disk acts before the record says so.
pub fn retire(
    forks: &Vec<ForkIdentity>,
    consumed: &Vec<String>,
    slug: &str,
    outcome: &str,
    keep_worktree: bool,
    force: bool,
) -> (r: Result<RetirePlan, RetireRefusal>)
    ensures
        answers_retirement(forks, consumed, slug, outcome, keep_worktree, force, r),
{
    if is_blank(outcome) {
        return Err(RetireRefusal::EmptyOutcome);
    }
    let fork: usize = match by_branch(forks, slug) {
        Some(k) => k,
        None => {
            return Err(RetireRefusal::NoBranch);
        },
    };
    assert(names(forks@, slug@, fork as int));
    let remove_worktree = !keep_worktree && forks[fork].worktree().is_some();
    if is_retired(&forks[fork], consumed) {
        return Err(RetireRefusal::AlreadyRetired { remove_worktree });
    }
    Ok(
        RetirePlan {
            fork,
            tell_losses: remove_worktree && force,
            remove_worktree,
            write_marker: forks[fork].marker().is_none(),
        },
    )
}

/// The marker of a fork that is retired before it had one.
pub fn retired_marker(slug: &str, outcome: &str) -> (r: MarkerText)
    ensures
        r.title@ == "fork "@ + slug@ + " (retired)"@,
        r.body@ == "branch: "@ + ("fork/"@ + slug@) + "\nstatus: retired\noutcome: "@ + outcome@
            + "\n\nRetired before it was ever journaled.\n"@,
{
    let branch = fork_branch(slug);
    let mut title = "fork ".to_string();
    title.append(slug);
    title.append(" (retired)");
    let mut body = "branch: ".to_string();
    body.append(branch.as_str());
    body.append("\nstatus: retired\noutcome: ");
    body.append(outcome);
    body.append("\n\nRetired before it was ever journaled.\n");
    MarkerText { title, body }
}

/// The note under which the marker of a retired fork is closed.
pub fn retired_note(slug: &str, outcome: &str) -> (r: String)
    ensures
        r@ == "fork "@ + slug@ + " retired: "@ + outcome@,
{
    let mut out = "fork ".to_string();
    out.append(slug);
    out.append(" retired: ");
    out.append(outcome);
    out
}

/// An event of the journal.
pub struct JournalEvent {
    pub event: String,
    pub file: Option<String>,
}

/// Whether an event says that a file was consumed.
pub open spec fn consumes(event: JournalEvent, file: Seq<char>) -> bool {
    event.event@ == "consumed"@ && opt_view(event.file) == Some(file)
}

/// Whether one of the first `n` events says that a file was consumed.
pub open spec fn consumed_by(events: Seq<JournalEvent>, n: int, file: Seq<char>) -> bool {
    exists|i: int| 0 <= i < n && consumes(#[trigger] events[i], file)
}

/// The files that were consumed.
pub fn consumed_files(events: &Vec<JournalEvent>) -> (r: Vec<String>)
    ensures
        forall|file: Seq<char>| #[trigger]
            among(r@, file) <==> consumed_by(events@, events@.len() as int, file),
{
    let mut out: Vec<String> = Vec::new();
    for i in 0..events.len()
        invariant
            forall|file: Seq<char>| #[trigger]
                among(out@, file) <==> consumed_by(events@, i as int, file),
    {
        let ghost before = out@;
        if same(events[i].event.as_str(), "consumed") {
            if let Some(file) = &events[i].file {
                out.push(file.clone());
            }
        }
        assert forall|f: Seq<char>| #[trigger] among(out@, f) <==> consumed_by(
            events@,
            i + 1,
            f,
        ) by {
            assert(among(before, f) <==> consumed_by(events@, i as int, f));
            if consumed_by(events@, i as int, f) {
                let j = choose|j: int| 0 <= j < i && consumes(#[trigger] events@[j], f);
                assert(consumes(events@[j], f));
                let k = choose|k: int| 0 <= k < before.len() && #[trigger] before[k]@ == f;
                assert(out@[k]@ == f);
            }
            if consumes(events@[i as int], f) {
                assert(out@[before.len() as int]@ == f);
            }
            if among(out@, f) && !among(before, f) {
                let k = choose|k: int| 0 <= k < out@.len() && #[trigger] out@[k]@ == f;
                if k < before.len() {
                    assert(before[k]@ == f);
                }
                assert(consumes(events@[i as int], f));
            }
        }
    }
    out
}

/// A fork, as it is listed.
pub struct ForkEntry {
    pub slug: String,
    pub branch: String,
    /// The path of the worktree, where it is still checked out.
    pub worktree: Option<String>,
    /// Free text from when the fork was created or adopted.
    pub intent: Option<String>,
    /// Present once the fork was retired.
    pub retired: Option<String>,
    /// How many commits the fork has over its base, where that can be counted.
    pub ahead: Option<usize>,
    /// The branch that it started from, or `unknown`.
    pub base_branch: String,
}

/// What the marker of a fork says under a key.
pub open spec fn said(fork: ForkIdentity, key: Seq<char>) -> Option<Seq<char>> {
    match fork.marked() {
        Some(marker) => field_of(marker.body@, key),
        None => None,
    }
}

/// The base of a fork: what its marker says, or else the branch of the repository.
pub open spec fn base_of(fork: ForkIdentity, default_branch: Option<String>) -> Option<Seq<char>> {
    match said(fork, "base"@) {
        Some(base) => Some(base),
        None => opt_view(default_branch),
    }
}

fn read_said(fork: &ForkIdentity, key: &str) -> (r: Option<String>)
    ensures
        opt_view(r) == said(*fork, key@),
{
    match fork.marker() {
        Some(marker) => marker.field(key),
        None => None,
    }
}

/// The base of a fork.
pub fn base_branch_of(fork: &ForkIdentity, default_branch: &Option<String>) -> (r: Option<String>)
    ensures
        opt_view(r) == base_of(*fork, *default_branch),
{
    match read_said(fork, "base") {
        Some(base) => Some(base),
        None => match default_branch {
            Some(branch) => Some(branch.clone()),
            None => None,
        },
    }
}

/// Whether an entry describes a fork.
pub open spec fn describes(
    entry: ForkEntry,
    fork: ForkIdentity,
    consumed: Seq<String>,
    default_branch: Option<String>,
    ahead: Option<usize>,
) -> bool {
    &&& entry.slug@ == fork.slug_view()
    &&& entry.branch@ == fork.branch_view()
    &&& opt_view(entry.worktree) == fork.worktree_view()
    &&& opt_view(entry.intent) == said(fork, "intent"@)
    &&& opt_view(entry.retired) == (if retired(fork, consumed) {
        Some("retired"@)
    } else {
        None
    })
    &&& entry.ahead == (if base_of(fork, default_branch) is Some {
        ahead
    } else {
        None
    })
    &&& entry.base_branch@ == (match base_of(fork, default_branch) {
        Some(base) => base,
        None => "unknown"@,
    })
}

fn describe(
    fork: &ForkIdentity,
    consumed: &Vec<String>,
    default_branch: &Option<String>,
    ahead: Option<usize>,
) -> (r: ForkEntry)
    ensures
        describes(r, *fork, consumed@, *default_branch, ahead),
{
    let base = base_branch_of(fork, default_branch);
    let worktree = match fork.worktree() {
        Some(path) => Some(path.clone()),
        None => None,
    };
    let gone = if is_retired(fork, consumed) {
        Some("retired".to_string())
    } else {
        None
    };
    let ahead = if base.is_some() {
        ahead
    } else {
        None
    };
    let base_branch = match base {
        Some(base) => base,
        None => "unknown".to_string(),
    };
    ForkEntry {
        slug: fork.slug().to_string(),
        branch: fork.branch().to_string(),
        worktree,
        intent: read_said(fork, "intent"),
        retired: gone,
        ahead,
        base_branch,
    }
}

/// By name; those of one name stay in their order.
pub open spec fn named_earlier(forks: Seq<ForkIdentity>) -> spec_fn(usize, usize) -> bool {
    |a: usize, b: usize|
        precedes(forks[a as int].slug_view(), forks[b as int].slug_view()) || (
        forks[a as int].slug_view() == forks[b as int].slug_view() && a < b)
}

proof fn lemma_named_earlier(forks: Seq<ForkIdentity>)
    ensures
        strict_order(named_earlier(forks)),
{
    let order = named_earlier(forks);
    assert forall|a: usize| !#[trigger] order(a, a) by {
        lemma_precedes_irreflexive(forks[a as int].slug_view());
    }
    assert forall|a: usize, b: usize, c: usize| #[trigger] order(a, b) && #[trigger] order(
        b,
        c,
    ) implies order(a, c) by {
        let x = forks[a as int].slug_view();
        let y = forks[b as int].slug_view();
        let z = forks[c as int].slug_view();
        if precedes(x, y) && precedes(y, z) {
            lemma_precedes_transitive(x, y, z);
        }
    }
    assert forall|a: usize, b: usize| a != b implies #[trigger] order(a, b) || order(b, a) by {
        lemma_precedes_total(
            forks[a as int].slug_view(),
            forks[b as int].slug_view(),
        );
    }
}

/// Whether the entries describe the forks, by name.
pub open spec fn are_listed(
    entries: Seq<ForkEntry>,
    forks: Seq<ForkIdentity>,
    consumed: Seq<String>,
    default_branch: Option<String>,
    ahead: Seq<Option<usize>>,
) -> bool {
    exists|order: Seq<usize>| #[trigger]
        in_order(order, named_earlier(forks)) && (forall|a: usize| #[trigger]
            order.contains(a) <==> a < forks.len()) && entries.len() == order.len() && forall|
            k: int,
        |
            0 <= k < order.len() ==> describes(
                #[trigger] entries[k],
                forks[order[k] as int],
                consumed,
                default_branch,
                ahead[order[k] as int],
            )
}

/// Every fork of a repository, by name. `ahead` counts what each has over its base, where that
/// can be counted.
pub fn list_entries(
    forks: &Vec<ForkIdentity>,
    consumed: &Vec<String>,
    default_branch: &Option<String>,
    ahead: &Vec<Option<usize>>,
) -> (r: Vec<ForkEntry>)
    requires
        ahead@.len() == forks@.len(),
    ensures
        are_listed(r@, forks@, consumed@, *default_branch, ahead@),
{
    let mut indices: Vec<usize> = Vec::new();
    for i in 0..forks.len()
        invariant
            indices@.len() == i,
            indices@.no_duplicates(),
            forall|k: int| 0 <= k < i ==> #[trigger] indices@[k] == k,
    {
        indices.push(i);
    }
    proof {
        lemma_named_earlier(forks@);
        assert forall|a: usize| #[trigger] indices@.contains(a) <==> a < forks@.len() by {
            if a < forks@.len() {
                assert(indices@[a as int] == a);
            }
        }
    }
    let earlier = |a: usize, b: usize| -> (out: bool)
        requires
            forks@.len() > a,
            forks@.len() > b,
        ensures
            out == named_earlier(forks@)(a, b),
        {
            less(forks[a].slug(), forks[b].slug()) || (same(forks[a].slug(), forks[b].slug()) && a
                < b)
        };
    let order = sort_positions(&indices, earlier, Ghost(named_earlier(forks@)));
    let mut out: Vec<ForkEntry> = Vec::new();
    for k in 0..order.len()
        invariant
            ahead@.len() == forks@.len(),
            forall|a: usize| #[trigger] order@.contains(a) <==> a < forks@.len(),
            out@.len() == k,
            forall|m: int|
                0 <= m < k ==> describes(
                    #[trigger] out@[m],
                    forks@[order@[m] as int],
                    consumed@,
                    *default_branch,
                    ahead@[order@[m] as int],
                ),
    {
        assert(order@.contains(order@[k as int]));
        let at: usize = order[k];
        out.push(describe(&forks[at], consumed, default_branch, ahead[at]));
    }
    out
}

/// Where a fork stands, in words.
pub open spec fn state_text(entry: ForkEntry) -> Seq<char> {
    match (entry.worktree, entry.retired) {
        (Some(path), Some(_)) => entry.branch@ + " (retired, worktree remains: "@ + path@ + ")"@,
        (Some(path), None) => entry.branch@ + " ("@ + path@ + ")"@,
        (None, Some(_)) => entry.branch@ + " (retired, no worktree)"@,
        (None, None) => entry.branch@ + " (no worktree)"@,
    }
}

/// How far a fork is ahead, in words.
pub open spec fn ahead_text(ahead: Option<usize>) -> Seq<char> {
    match ahead {
        Some(n) => "+"@ + decimal_of(n as nat),
        None => "+?"@,
    }
}

/// The line of a fork.
pub open spec fn entry_line(entry: ForkEntry) -> Seq<char> {
    "  "@ + entry.slug@ + "  "@ + state_text(entry) + "  "@ + ahead_text(entry.ahead) + " over "@
        + entry.base_branch@
}

fn write_state(entry: &ForkEntry) -> (r: String)
    ensures
        r@ == state_text(*entry),
{
    let mut out = entry.branch.clone();
    match &entry.worktree {
        Some(path) => {
            if entry.retired.is_some() {
                out.append(" (retired, worktree remains: ");
            } else {
                out.append(" (");
            }
            out.append(path.as_str());
            out.append(")");
        },
        None => {
            if entry.retired.is_some() {
                out.append(" (retired, no worktree)");
            } else {
                out.append(" (no worktree)");
            }
        },
    }
    out
}

fn write_ahead(ahead: Option<usize>) -> (r: String)
    ensures
        r@ == ahead_text(ahead),
{
    match ahead {
        Some(n) => {
            let number = decimal(n as u64);
            let mut out = "+".to_string();
            out.append(number.as_str());
            out
        },
        None => "+?".to_string(),
    }
}

/// The line of a fork.
pub fn render_entry(entry: &ForkEntry) -> (r: String)
    ensures
        r@ == entry_line(*entry),
{
    let state = write_state(entry);
    let ahead = write_ahead(entry.ahead);
    let mut out = "  ".to_string();
    out.append(entry.slug.as_str());
    out.append("  ");
    out.append(state.as_str());
    out.append("  ");
    out.append(ahead.as_str());
    out.append(" over ");
    out.append(entry.base_branch.as_str());
    out
}

/// The lines of the first `n` forks: under each stands what it is for, where that was said.
pub open spec fn listed_lines(entries: Seq<ForkEntry>, n: int) -> Seq<Seq<char>>
    decreases n,
{
    if n <= 0 {
        Seq::empty()
    } else {
        let before = listed_lines(entries, n - 1).push(entry_line(entries[n - 1]));
        match entries[n - 1].intent {
            Some(intent) => before.push("    "@ + intent@),
            None => before,
        }
    }
}

/// The list of all forks: how many they are, and the lines of each.
pub open spec fn list_lines(entries: Seq<ForkEntry>) -> Seq<Seq<char>> {
    if entries.len() == 0 {
        seq!["no forks"@]
    } else {
        seq!["forks ("@ + decimal_of(entries.len()) + "):"@] + listed_lines(
            entries,
            entries.len() as int,
        )
    }
}

/// The list of all forks.
pub fn render_list(entries: &Vec<ForkEntry>) -> (r: Vec<String>)
    ensures
        views(r@) == list_lines(entries@),
{
    let mut out: Vec<String> = Vec::new();
    if entries.len() == 0 {
        out.push("no forks".to_string());
        assert(views(out@) =~= list_lines(entries@));
        return out;
    }
    let count = decimal(entries.len() as u64);
    let mut heading = "forks (".to_string();
    heading.append(count.as_str());
    heading.append("):");
    let ghost first = seq![heading@];
    out.push(heading);
    assert(views(out@) =~= first + listed_lines(entries@, 0));
    for i in 0..entries.len()
        invariant
            views(out@) == first + listed_lines(entries@, i as int),
    {
        let ghost before = listed_lines(entries@, i as int);
        push_text(&mut out, render_entry(&entries[i]));
        let ghost line = entry_line(entries@[i as int]);
        assert(views(out@) =~= first + before.push(line));
        if let Some(intent) = &entries[i].intent {
            let mut said = "    ".to_string();
            said.append(intent.as_str());
            let ghost under = said@;
            push_text(&mut out, said);
            assert(views(out@) =~= first + before.push(line).push(under));
        }
    }
    out
}

/// The line of an open fork where a session begins.
pub open spec fn open_line(entry: ForkEntry) -> Seq<char> {
    "  "@ + entry.slug@ + "  "@ + entry.branch@ + "  "@ + ahead_text(entry.ahead) + " over "@
        + entry.base_branch@ + (match entry.worktree {
        Some(path) => " ("@ + path@ + ")"@,
        None => ""@,
    })
}

/// The lines of the open forks among the first `n`.
pub open spec fn open_lines(entries: Seq<ForkEntry>, n: int) -> Seq<Seq<char>>
    decreases n,
{
    if n <= 0 {
        Seq::empty()
    } else if entries[n - 1].retired is None {
        open_lines(entries, n - 1).push(open_line(entries[n - 1]))
    } else {
        open_lines(entries, n - 1)
    }
}

/// What is said of the open forks where a session begins: nothing where there are none.
pub open spec fn forks_lines(entries: Seq<ForkEntry>) -> Seq<Seq<char>> {
    let open = open_lines(entries, entries.len() as int);
    if open.len() == 0 {
        Seq::empty()
    } else {
        seq!["forks ("@ + decimal_of(open.len()) + "):"@] + open
    }
}

fn write_open_line(entry: &ForkEntry) -> (r: String)
    ensures
        r@ == open_line(*entry),
{
    let ahead = write_ahead(entry.ahead);
    let place = match &entry.worktree {
        Some(path) => {
            let mut place = " (".to_string();
            place.append(path.as_str());
            place.append(")");
            place
        },
        None => "".to_string(),
    };
    let mut out = "  ".to_string();
    out.append(entry.slug.as_str());
    out.append("  ");
    out.append(entry.branch.as_str());
    out.append("  ");
    out.append(ahead.as_str());
    out.append(" over ");
    out.append(entry.base_branch.as_str());
    out.append(place.as_str());
    out
}

/// What is said of the open forks where a session begins.
pub fn render_forks(entries: &Vec<ForkEntry>) -> (r: Vec<String>)
    ensures
        views(r@) == forks_lines(entries@),
{
    let mut open: Vec<String> = Vec::new();
    assert(views(open@) =~= open_lines(entries@, 0));
    for i in 0..entries.len()
        invariant
            views(open@) == open_lines(entries@, i as int),
    {
        if entries[i].retired.is_none() {
            push_text(&mut open, write_open_line(&entries[i]));
        }
    }
    let mut out: Vec<String> = Vec::new();
    if open.len() > 0 {
        assert(views(open@).len() == open@.len());
        let count = decimal(open.len() as u64);
        let mut heading = "forks (".to_string();
        heading.append(count.as_str());
        heading.append("):");
        out.push(heading);
        out.append(&mut open);
    }
    assert(views(out@) =~= forks_lines(entries@));
    out
}

/// The checkout of a fork.
pub struct ForkWorktree {
    pub slug: String,
    pub path: String,
}

/// The checkouts of the first `n` entries that have one.
pub open spec fn checked_out(entries: Seq<ForkEntry>, n: int) -> Seq<(Seq<char>, Seq<char>)>
    decreases n,
{
    if n <= 0 {
        Seq::empty()
    } else {
        match entries[n - 1].worktree {
            Some(path) => checked_out(entries, n - 1).push((entries[n - 1].slug@, path@)),
            None => checked_out(entries, n - 1),
        }
    }
}

/// The checkouts, by their views.
pub open spec fn checkout_views(checkouts: Seq<ForkWorktree>) -> Seq<(Seq<char>, Seq<char>)> {
    Seq::new(checkouts.len(), |i: int| (checkouts[i].slug@, checkouts[i].path@))
}

/// The checkouts of forks that are on disk.
pub fn checkouts(entries: &Vec<ForkEntry>) -> (r: Vec<ForkWorktree>)
    ensures
        checkout_views(r@) == checked_out(entries@, entries@.len() as int),
{
    let mut out: Vec<ForkWorktree> = Vec::new();
    assert(checkout_views(out@) =~= checked_out(entries@, 0));
    for i in 0..entries.len()
        invariant
            checkout_views(out@) == checked_out(entries@, i as int),
    {
        let ghost before = checkout_views(out@);
        if let Some(path) = &entries[i].worktree {
            out.push(ForkWorktree { slug: entries[i].slug.clone(), path: path.clone() });
            assert(checkout_views(out@) =~= before.push((entries@[i as int].slug@, path@)));
        }
    }
    out
}

/// The fork whose checkout the caller stands in.
pub struct CurrentFork {
    pub slug: String,
    pub worktree: String,
}

/// Whether the fork at `k` is the first whose checkout is at a root.
pub open spec fn stands_in(forks: Seq<ForkIdentity>, root: Seq<char>, k: int) -> bool {
    &&& 0 <= k < forks.len()
    &&& forks[k].canonical_view() == Some(root)
    &&& forall|j: int| 0 <= j < k ==> (#[trigger] forks[j]).canonical_view() != Some(root)
}

/// Whether no fork has its checkout at a root.
pub open spec fn outside(forks: Seq<ForkIdentity>, root: Seq<char>) -> bool {
    forall|j: int| 0 <= j < forks.len() ==> (#[trigger] forks[j]).canonical_view() != Some(root)
}

/// Whether the current fork is the one at `k`.
pub open spec fn is_current(current: CurrentFork, fork: ForkIdentity) -> bool {
    current.slug@ == fork.slug_view() && fork.worktree_view() == Some(current.worktree@)
}

/// Whether a fork stands at a root, and `current` tells which.
pub open spec fn tells_current(
    current: CurrentFork,
    forks: Seq<ForkIdentity>,
    root: Seq<char>,
) -> bool {
    exists|k: int| #[trigger] stands_in(forks, root, k) && is_current(current, forks[k])
}

/// Whether `r` is the fork whose checkout is at a root.
pub open spec fn finds_current(
    forks: &Vec<ForkIdentity>,
    root: &str,
    r: Option<CurrentFork>,
) -> bool {
    match r {
            Some(current) => tells_current(current, forks@, root@),
            None => outside(forks@, root@),
        }
}

/// The fork whose checkout is at a root, where there is one.
pub fn current(forks: &Vec<ForkIdentity>, root: &str) -> (r: Option<CurrentFork>)
    ensures
        finds_current(forks, root, r),
{
    let k: usize = match by_current_path(forks, root) {
        Some(k) => k,
        None => {
            return None;
        },
    };
    assert(stands_in(forks@, root@, k as int));
    match forks[k].worktree() {
        Some(path) => {
            let found = CurrentFork {
                slug: forks[k].slug().to_string(),
                worktree: path.clone(),
            };
            assert(is_current(found, forks@[k as int]));
            Some(found)
        },
        None => None,
    }
}

/// What is said to whoever asks for an integration inside a fork.
pub open spec fn refusal_text(slug: Seq<char>) -> Seq<char> {
    "this is fork worktree "@ + slug
        + ": unintegrated by intent, so arc does not gate or merge it. Move the work onto a change from the base branch (or `git merge` from the target) when it is ready, and record the disposition with `arc fork retire "@
        + slug + " <outcome>`."@
}

/// What is said to whoever asks for an integration inside a fork.
pub fn integrate_refusal(slug: &str) -> (r: String)
    ensures
        r@ == refusal_text(slug@),
{
    let mut out = "this is fork worktree ".to_string();
    out.append(slug);
    out.append(
        ": unintegrated by intent, so arc does not gate or merge it. Move the work onto a change from the base branch (or `git merge` from the target) when it is ready, and record the disposition with `arc fork retire ",
    );
    out.append(slug);
    out.append(" <outcome>`.");
    out
}

/// Whether a refusal names the fork at a root.
pub open spec fn refuses(text: Seq<char>, forks: Seq<ForkIdentity>, root: Seq<char>) -> bool {
    exists|k: int| #[trigger]
        stands_in(forks, root, k) && text == refusal_text(forks[k].slug_view())
}

/// Whether `r` refuses inside the checkout of a fork.
pub open spec fn refuses_forks(
    forks: &Vec<ForkIdentity>,
    root: &str,
    r: Result<(), String>,
) -> bool {
    match r {
            Ok(()) => outside(forks@, root@),
            Err(text) => refuses(text@, forks@, root@),
        }
}

/// Refuses inside the checkout of a fork, and nowhere else.
pub fn ensure_not_fork(forks: &Vec<ForkIdentity>, root: &str) -> (r: Result<(), String>)
    ensures
        refuses_forks(forks, root, r),
{
    match by_current_path(forks, root) {
        Some(k) => {
            let text = integrate_refusal(forks[k].slug());
            assert(stands_in(forks@, root@, k as int));
            Err(text)
        },
        None => Ok(()),
    }
}

/// Who opened a fork, as far as it is recorded.
pub struct RecordedIdentity {
    pub harness: Option<String>,
    pub session: Option<String>,
    pub model: Option<String>,
    pub actor: Option<String>,
}

/// The command that reopens a session, for the harnesses that have one. `further` has, under the
/// names of harnesses beside Codex, what their commands start with.
pub open spec fn resume_text(
    further: Map<Seq<char>, Seq<char>>,
    harness: Seq<char>,
    session: Seq<char>,
) -> Option<Seq<char>> {
    if harness == "codex"@ {
        Some("codex resume "@ + session)
    } else if further.dom().contains(harness) {
        Some(further[harness] + session)
    } else {
        None
    }
}

/// The command that reopens a session. `further` has, under the names of harnesses beside Codex,
/// what their commands start with.
pub fn resume_command(harness: &str, session: &str, further: &Register) -> (r: Option<String>)
    requires
        further.well_formed(),
    ensures
        opt_view(r) == resume_text(further@, harness@, session@),
{
    let mut out = if same(harness, "codex") {
        "codex resume ".to_string()
    } else {
        match further.find(harness) {
            Some(start) => start.clone(),
            None => {
                return None;
            },
        }
    };
    out.append(session);
    Some(out)
}

/// What a line says of a part of an identity.
pub open spec fn part_text(label: Seq<char>, value: Option<String>) -> Seq<char> {
    label + ": "@ + (match value {
        Some(value) => value@,
        None => "absent"@,
    })
}

/// The lines that tell who opened a fork.
pub open spec fn thread_texts(
    recorded: Option<RecordedIdentity>,
    further: Map<Seq<char>, Seq<char>>,
) -> Seq<Seq<char>> {
    match recorded {
        None => seq![
            "identity: absent"@,
            "no journal marker records who opened this fork."@,
        ],
        Some(identity) => {
            let parts = seq![
                part_text("harness"@, identity.harness),
                part_text("session"@, identity.session),
                part_text("model"@, identity.model),
                part_text("actor"@, identity.actor),
            ];
            match (identity.harness, identity.session) {
                (Some(harness), Some(session)) => match resume_text(further, harness@, session@) {
                    Some(resume) => parts.push("resume: "@ + resume),
                    None => parts,
                },
                _ => parts,
            }
        },
    }
}

fn write_part(label: &str, value: &Option<String>) -> (r: String)
    ensures
        r@ == part_text(label@, *value),
{
    let mut out = label.to_string();
    out.append(": ");
    match value {
        Some(value) => out.append(value.as_str()),
        None => out.append("absent"),
    }
    out
}

/// The lines that tell who opened a fork. `further` has, under the names of harnesses beside
/// Codex, what the commands that reopen a session start with.
pub fn thread(recorded: &Option<RecordedIdentity>, further: &Register) -> (r: Vec<String>)
    requires
        further.well_formed(),
    ensures
        views(r@) == thread_texts(*recorded, further@),
{
    let mut out: Vec<String> = Vec::new();
    match recorded {
        None => {
            out.push("identity: absent".to_string());
            out.push("no journal marker records who opened this fork.".to_string());
            assert(views(out@) =~= thread_texts(*recorded, further@));
        },
        Some(identity) => {
            out.push(write_part("harness", &identity.harness));
            out.push(write_part("session", &identity.session));
            out.push(write_part("model", &identity.model));
            out.push(write_part("actor", &identity.actor));
            let ghost parts = seq![
                part_text("harness"@, identity.harness),
                part_text("session"@, identity.session),
                part_text("model"@, identity.model),
                part_text("actor"@, identity.actor),
            ];
            assert(views(out@) =~= parts);
            if let Some(harness) = &identity.harness {
                if let Some(session) = &identity.session {
                    if let Some(resume) = resume_command(harness.as_str(), session.as_str(), further) {
                        let mut line = "resume: ".to_string();
                        line.append(resume.as_str());
                        let ghost last = line@;
                        out.push(line);
                        assert(views(out@) =~= parts.push(last));
                    }
                }
            }
        },
    }
    out
}

/// Whether a line of a short status tells of a file that nothing follows.
pub open spec fn untracked_line(line: Seq<char>) -> bool {
    line.len() > 0 && line[0] == '?'
}

/// Whether a line of a short status tells of a file with changes that no commit has.
pub open spec fn modified_line(line: Seq<char>) -> bool {
    !untracked_line(line) && ((line.len() > 0 && !whitespace(line[0])) || (line.len() > 1
        && !whitespace(line[1])))
}

/// What a forced removal takes away, on one line.
pub open spec fn losses_text(untracked: nat, modified: nat) -> Seq<char> {
    if untracked == 0 && modified == 0 {
        ""@
    } else if modified == 0 {
        decimal_of(untracked) + " untracked file(s)"@
    } else if untracked == 0 {
        decimal_of(modified) + " file(s) with uncommitted changes"@
    } else {
        decimal_of(untracked) + " untracked file(s), "@ + decimal_of(modified)
            + " file(s) with uncommitted changes"@
    }
}

/// What a forced removal takes away, on one line, from a short status.
pub fn uncommitted_summary(status: &str) -> (r: String)
    ensures
        r@ == losses_text(
            count(lines_of(status@), |line: Seq<char>| untracked_line(line)),
            count(lines_of(status@), |line: Seq<char>| modified_line(line)),
        ),
{
    let all = lines(status);
    let mut untracked: usize = 0;
    let mut modified: usize = 0;
    let ghost is_untracked = |line: Seq<char>| untracked_line(line);
    let ghost is_modified = |line: Seq<char>| modified_line(line);
    assert(lines_of(status@).take(0) =~= Seq::<Seq<char>>::empty());
    for i in 0..all.len()
        invariant
            views(all@) == lines_of(status@),
            is_untracked == (|line: Seq<char>| untracked_line(line)),
            is_modified == (|line: Seq<char>| modified_line(line)),
            untracked == count(lines_of(status@).take(i as int), is_untracked),
            modified == count(lines_of(status@).take(i as int), is_modified),
            untracked <= i,
            modified <= i,
    {
        assert(views(all@)[i as int] == all@[i as int]@);
        assert(lines_of(status@).take(i + 1).drop_last() =~= lines_of(status@).take(i as int));
        let line = chars_of(all[i].as_str());
        if line.len() > 0 && line[0] == '?' {
            untracked += 1;
        } else if (line.len() > 0 && !is_whitespace(line[0])) || (line.len() > 1 && !is_whitespace(
            line[1],
        )) {
            modified += 1;
        }
    }
    assert(lines_of(status@).take(lines_of(status@).len() as int) =~= lines_of(status@));
    if untracked == 0 && modified == 0 {
        return "".to_string();
    }
    let lost = decimal(untracked as u64);
    let changed = decimal(modified as u64);
    if modified == 0 {
        let mut out = lost;
        out.append(" untracked file(s)");
        out
    } else if untracked == 0 {
        let mut out = changed;
        out.append(" file(s) with uncommitted changes");
        out
    } else {
        let mut out = lost;
        out.append(" untracked file(s), ");
        out.append(changed.as_str());
        out.append(" file(s) with uncommitted changes");
        out
    }
}

/// A fork starts from no fork; from the branch that is asked for where one is; and from the current
/// one otherwise, unless that is a fork.
pub proof fn forks_start_from_branches(
    asked: &Option<String>,
    current: &Option<String>,
    r: Result<String, BeginRefusal>,
)
    requires
        is_fork_base(asked, current, r),
    ensures
        r matches Ok(base) ==> !fork_named(base@),
        *asked matches Some(branch) ==> (if fork_named(branch@) {
            r is Err
        } else {
            r is Ok && r->Ok_0@ == branch@
        }),
        asked is None ==> (*current matches Some(branch) ==> (!fork_named(branch@) ==> r is Ok
            && r->Ok_0@ == branch@)),
        asked is None && (current is None || fork_named(current->0@)) && r is Ok
            ==> r->Ok_0@ == "master"@,
{
}

/// A fork begins exactly where its base is none and neither its branch nor its worktree is there.
pub proof fn forks_begin_on_new_ground(
    slug: &str,
    worktree: &str,
    base: &str,
    branch_exists: bool,
    worktree_exists: bool,
    r: Result<MarkerText, BeginRefusal>,
)
    requires
        begins_fork(slug, worktree, base, branch_exists, worktree_exists, r),
    ensures
        r is Ok <==> !fork_named(base@) && !branch_exists && !worktree_exists,
        r == Err::<MarkerText, BeginRefusal>(BeginRefusal::WorktreeExists) ==> worktree_exists,
        r == Err::<MarkerText, BeginRefusal>(BeginRefusal::BranchExists) ==> branch_exists,
{
}

/// A fork is adopted once: where it has no marker one is filed, and where it has one nothing is.
pub proof fn forks_are_adopted_once(
    forks: &Vec<ForkIdentity>,
    slug: &str,
    intent: &Option<String>,
    k: int,
    r: Result<Option<MarkerText>, AdoptRefusal>,
)
    requires
        answers_adoption(forks, slug, intent, r),
        0 <= k < forks@.len(),
        forks@[k].branch_view() == "fork/"@ + slug@,
        forall|j: int| 0 <= j < k ==> (#[trigger] forks@[j]).branch_view() != "fork/"@ + slug@,
    ensures
        r is Ok <==> forks@[k].worktree_view() is Some,
        r is Ok ==> (r->Ok_0 is Some <==> forks@[k].marked() is None),
        r is Err ==> r->Err_0 == AdoptRefusal::NoWorktree,
{
    assert(names(forks@, slug@, k));
    assert forall|m: int| #[trigger] names(forks@, slug@, m) implies m == k by {
        if m < k {
            assert(forks@[m].branch_view() != "fork/"@ + slug@);
        }
        if k < m {
            assert(forks@[k].branch_view() != "fork/"@ + slug@);
        }
    }
}

/// What no fork is named is neither adopted nor retired.
pub proof fn unknown_forks_are_refused(
    forks: &Vec<ForkIdentity>,
    slug: &str,
    intent: &Option<String>,
    consumed: &Vec<String>,
    outcome: &str,
    keep_worktree: bool,
    force: bool,
    adopted: Result<Option<MarkerText>, AdoptRefusal>,
    retired: Result<RetirePlan, RetireRefusal>,
)
    requires
        answers_adoption(forks, slug, intent, adopted),
        answers_retirement(forks, consumed, slug, outcome, keep_worktree, force, retired),
        forall|j: int|
            0 <= j < forks@.len() ==> (#[trigger] forks@[j]).branch_view() != "fork/"@ + slug@,
    ensures
        adopted is Err,
        retired is Err,
{
}

/// A fork is retired once, and with an outcome. Its worktree is removed exactly where there is one
/// and it is not to be kept, and what is lost is told exactly where that is forced.
pub proof fn forks_are_retired_once(
    forks: &Vec<ForkIdentity>,
    consumed: &Vec<String>,
    slug: &str,
    outcome: &str,
    keep_worktree: bool,
    force: bool,
    k: int,
    r: Result<RetirePlan, RetireRefusal>,
)
    requires
        answers_retirement(forks, consumed, slug, outcome, keep_worktree, force, r),
        0 <= k < forks@.len(),
        forks@[k].branch_view() == "fork/"@ + slug@,
        forall|j: int| 0 <= j < k ==> (#[trigger] forks@[j]).branch_view() != "fork/"@ + slug@,
        !blank(outcome@),
    ensures
        r is Ok <==> !(forks@[k].marked() is Some && among(
            consumed@,
            forks@[k].marked()->0.filename@,
        )),
        r matches Ok(plan) ==> plan.fork == k && (plan.remove_worktree <==> !keep_worktree
            && forks@[k].worktree_view() is Some) && (plan.tell_losses <==> plan.remove_worktree
            && force) && (plan.write_marker <==> forks@[k].marked() is None),
        r matches Err(RetireRefusal::AlreadyRetired { remove_worktree }) ==> (remove_worktree
            <==> !keep_worktree && forks@[k].worktree_view() is Some),
{
    assert(names(forks@, slug@, k));
    assert forall|m: int| #[trigger] names(forks@, slug@, m) implies m == k by {
        if m < k {
            assert(forks@[m].branch_view() != "fork/"@ + slug@);
        }
        if k < m {
            assert(forks@[k].branch_view() != "fork/"@ + slug@);
        }
    }
}

/// Integration is refused exactly inside the checkout of a fork, which is the one that is told
/// there.
pub proof fn forks_are_not_integrated(
    forks: &Vec<ForkIdentity>,
    root: &str,
    here: Option<CurrentFork>,
    r: Result<(), String>,
)
    requires
        refuses_forks(forks, root, r),
        finds_current(forks, root, here),
    ensures
        r is Err <==> exists|k: int|
            0 <= k < forks@.len() && (#[trigger] forks@[k]).canonical_view() == Some(root@),
        r is Err <==> here is Some,
{
    if r is Err {
        let k = choose|k: int| #[trigger]
            stands_in(forks@, root@, k) && r->Err_0@ == refusal_text(forks@[k].slug_view());
        assert(forks@[k].canonical_view() == Some(root@));
    }
    if here is Some {
        let k = choose|k: int| #[trigger]
            stands_in(forks@, root@, k) && is_current(here->0, forks@[k]);
        assert(forks@[k].canonical_view() == Some(root@));
    }
}

/// A file counts as consumed exactly where an event says so of it.
pub proof fn consumption_is_recorded(events: Seq<JournalEvent>, file: Seq<char>)
    ensures
        consumed_by(events, events.len() as int, file) <==> exists|i: int|
            0 <= i < events.len() && (#[trigger] events[i]).event@ == "consumed"@ && (
            events[i].file matches Some(name) && name@ == file),
{
    if consumed_by(events, events.len() as int, file) {
        let i = choose|i: int| 0 <= i < events.len() && consumes(#[trigger] events[i], file);
        assert(events[i].event@ == "consumed"@ && (events[i].file matches Some(name) && name@
            == file));
    }
    if exists|i: int|
        0 <= i < events.len() && (#[trigger] events[i]).event@ == "consumed"@ && (
        events[i].file matches Some(name) && name@ == file) {
        let i = choose|i: int|
            0 <= i < events.len() && (#[trigger] events[i]).event@ == "consumed"@ && (
            events[i].file matches Some(name) && name@ == file);
        assert(consumes(events[i], file));
    }
}

/// A session is told of every fork that was not retired, and of no other.
pub proof fn open_forks_are_told(entries: Seq<ForkEntry>, n: int)
    requires
        0 <= n <= entries.len(),
    ensures
        open_lines(entries, n).len() == count(
            entries.take(n),
            |entry: ForkEntry| entry.retired is None,
        ),
    decreases n,
{
    if n > 0 {
        open_forks_are_told(entries, n - 1);
        assert(entries.take(n).drop_last() =~= entries.take(n - 1));
        assert(entries.take(n).last() == entries[n - 1]);
    }
}

/// A line of a short status tells of a file that nothing follows or of one with changes, and never
/// of both.
pub proof fn losses_are_counted_once(line: Seq<char>)
    ensures
        !(untracked_line(line) && modified_line(line)),
        untracked_line(line) <==> line.len() > 0 && line[0] == '?',
        line.len() > 0 && !whitespace(line[0]) ==> untracked_line(line) || modified_line(line),
        line.len() > 1 && line[0] != '?' && !whitespace(line[1]) ==> modified_line(line),
{
}

} // verus!
