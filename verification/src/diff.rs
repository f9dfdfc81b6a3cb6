//! Which two revisions a diff is between, the findings shown beside it, and where a revision went
//! when history was rewritten.
use crate::closing::patchset_at;
use crate::event::{Anchor, RewrittenRevision};
use crate::model::{severity_label, severity_label_text, Verdict};
use crate::order::{chosen, ints, lemma_chosen, lemma_ints_contain};
use crate::review::{find_patchset, has_patchset};
use crate::state::{ChangeState, FindingState};
use crate::text::{decimal, decimal_of, opt_view, same, views};
use vstd::prelude::*;

verus! {

/// What to render.
pub struct DiffArgs {
    pub patchset: Option<String>,
    pub stat: bool,
    pub findings: bool,
    pub between: Option<Vec<String>>,
    pub since_approved: bool,
    pub integrated: bool,
    pub base: Option<String>,
    pub paths: Vec<String>,
}

/// Why there is nothing to render.
#[derive(Clone, Copy, Debug, PartialEq, Eq, Structural)]
pub enum DiffRefusal {
    UnknownPatchset,
    NoSnapshot,
    NothingApproved,
    NotClosed,
    NotIntegrated,
    NoIntegrationBase,
}

/// The two revisions of a diff, and the patchset that it is about.
#[derive(Debug)]
pub struct DiffRange {
    pub left: String,
    pub right: String,
    pub patchset: usize,
}

/// Whether the verdict at `k` is the last approval.
pub open spec fn last_approval(state: ChangeState, k: int) -> bool {
    &&& 0 <= k < state.verdicts@.len()
    &&& state.verdicts@[k].verdict == Verdict::Approved
    &&& forall|j: int|
        k < j < state.verdicts@.len() ==> (#[trigger] state.verdicts@[j]).verdict
            != Verdict::Approved
}

/// Whether nothing was ever approved.
pub open spec fn never_approved(state: ChangeState) -> bool {
    forall|j: int|
        0 <= j < state.verdicts@.len() ==> (#[trigger] state.verdicts@[j]).verdict
            != Verdict::Approved
}

fn find_last_approval(state: &ChangeState) -> (r: Option<usize>)
    ensures
        match r {
            Some(k) => last_approval(*state, k as int),
            None => never_approved(*state),
        },
{
    let all = &state.verdicts;
    let mut k: usize = all.len();
    while k > 0
        invariant
            all@ == state.verdicts@,
            k <= all@.len(),
            forall|j: int|
                k <= j < state.verdicts@.len() ==> (#[trigger] state.verdicts@[j]).verdict
                    != Verdict::Approved,
        decreases k,
    {
        k -= 1;
        if all[k].verdict == Verdict::Approved {
            return Some(k);
        }
    }
    None
}

/// Whether the patchset at `p` is the one that a diff is about.
pub open spec fn diff_subject(state: ChangeState, args: DiffArgs, p: int) -> bool {
    match args.patchset {
        Some(id) => patchset_at(state, id@, p),
        None => state.patchsets@.len() > 0 && p == state.patchsets@.len() - 1,
    }
}

/// Whether a diff goes from `left` to `right`: between the heads of two patchsets, from the head
/// last approved, or from the base of its patchset.
pub open spec fn diff_ends(
    state: ChangeState,
    args: DiffArgs,
    p: int,
    left: Seq<char>,
    right: Seq<char>,
) -> bool {
    if args.between is Some {
        exists|a: int, b: int| #[trigger]
            patchset_at(state, args.between->0@[0]@, a) && #[trigger] patchset_at(
                state,
                args.between->0@[1]@,
                b,
            ) && left == state.patchsets@[a].head@ && right == state.patchsets@[b].head@
    } else if args.since_approved {
        right == state.patchsets@[p].head@ && exists|v: int, a: int| #[trigger]
            last_approval(state, v) && #[trigger] patchset_at(
                state,
                state.verdicts@[v].patchset_id@,
                a,
            ) && left == state.patchsets@[a].head@
    } else {
        left == state.patchsets@[p].base@ && right == state.patchsets@[p].head@
    }
}

/// Whether a diff is about the latest patchset, and there is none.
pub open spec fn no_snapshot(state: ChangeState, args: DiffArgs) -> bool {
    args.patchset is None && state.patchsets@.len() == 0
}

/// Whether some patchset that a diff needs is unknown.
pub open spec fn diff_lost(state: ChangeState, args: DiffArgs) -> bool {
    ||| args.patchset is Some && !has_patchset(state, args.patchset->0@)
    ||| args.between is Some && (!has_patchset(state, args.between->0@[0]@) || !has_patchset(
        state,
        args.between->0@[1]@,
    ))
    ||| args.between is None && args.since_approved && exists|v: int| #[trigger]
        last_approval(state, v) && !has_patchset(state, state.verdicts@[v].patchset_id@)
}

/// Whether `r` are the two revisions of a diff, or why there are none.
pub open spec fn answers_diff(
    state: &ChangeState,
    args: &DiffArgs,
    r: Result<DiffRange, DiffRefusal>,
) -> bool {
    match r {
            Ok(range) => diff_subject(*state, *args, range.patchset as int) && diff_ends(
                *state,
                *args,
                range.patchset as int,
                range.left@,
                range.right@,
            ),
            Err(DiffRefusal::UnknownPatchset) => !no_snapshot(*state, *args) && diff_lost(
                *state,
                *args,
            ),
            Err(DiffRefusal::NoSnapshot) => no_snapshot(*state, *args),
            Err(DiffRefusal::NothingApproved) => !no_snapshot(*state, *args) && !diff_lost(
                *state,
                *args,
            ) && args.between is None && args.since_approved && never_approved(*state),
            Err(_) => false,
        }
}

/// The two revisions of a diff.
pub fn diff(state: &ChangeState, args: &DiffArgs) -> (r: Result<DiffRange, DiffRefusal>)
    requires
        args.between is Some ==> args.between->0@.len() == 2,
    ensures
        answers_diff(state, args, r),
{
    let p: usize = match &args.patchset {
        Some(id) => match find_patchset(state, id.as_str()) {
            Some(p) => p,
            None => return Err(DiffRefusal::UnknownPatchset),
        },
        None => {
            if state.patchsets.len() == 0 {
                return Err(DiffRefusal::NoSnapshot);
            }
            state.patchsets.len() - 1
        },
    };
    if let Some(ids) = &args.between {
        let a: usize = match find_patchset(state, ids[0].as_str()) {
            Some(a) => a,
            None => return Err(DiffRefusal::UnknownPatchset),
        };
        let b: usize = match find_patchset(state, ids[1].as_str()) {
            Some(b) => b,
            None => return Err(DiffRefusal::UnknownPatchset),
        };
        assert(patchset_at(*state, args.between->0@[0]@, a as int));
        assert(patchset_at(*state, args.between->0@[1]@, b as int));
        return Ok(
            DiffRange {
                left: state.patchsets[a].head.clone(),
                right: state.patchsets[b].head.clone(),
                patchset: p,
            },
        );
    }
    if args.since_approved {
        let v: usize = match find_last_approval(state) {
            Some(v) => v,
            None => return Err(DiffRefusal::NothingApproved),
        };
        let a: usize = match find_patchset(state, state.verdicts[v].patchset_id.as_str()) {
            Some(a) => a,
            None => {
                assert(last_approval(*state, v as int));
                return Err(DiffRefusal::UnknownPatchset);
            },
        };
        assert(last_approval(*state, v as int));
        assert(patchset_at(*state, state.verdicts@[v as int].patchset_id@, a as int));
        return Ok(
            DiffRange {
                left: state.patchsets[a].head.clone(),
                right: state.patchsets[p].head.clone(),
                patchset: p,
            },
        );
    }
    Ok(
        DiffRange {
            left: state.patchsets[p].base.clone(),
            right: state.patchsets[p].head.clone(),
            patchset: p,
        },
    )
}

/// Whether `r` is the range that an integration recorded.
pub open spec fn answers_integrated(
    state: &ChangeState,
    named_base: Option<String>,
    r: Result< (String, String), DiffRefusal, >,
) -> bool {
    match r {
            Ok((base, head)) => state.closure is Some && opt_view(
                state.closure->0.integrated_commit,
            ) == Some(head@) && Some(base@) == (match named_base {
                Some(named) => Some(named@),
                None => opt_view(state.closure->0.target_before),
            }),
            Err(DiffRefusal::NotClosed) => state.closure is None,
            Err(DiffRefusal::NotIntegrated) => state.closure is Some
                && state.closure->0.integrated_commit is None,
            Err(DiffRefusal::NoIntegrationBase) => state.closure is Some
                && state.closure->0.integrated_commit is Some && named_base is None
                && state.closure->0.target_before is None,
            Err(_) => false,
        }
}

/// The range that an integration recorded: from where the target stood, or the base that the
/// caller names, to the commit that landed.
pub fn diff_integrated(state: &ChangeState, named_base: Option<String>) -> (r: Result<
    (String, String),
    DiffRefusal,
>)
    ensures
        answers_integrated(state, named_base, r),
{
    let closure = match &state.closure {
        Some(closure) => closure,
        None => return Err(DiffRefusal::NotClosed),
    };
    let head = match &closure.integrated_commit {
        Some(head) => head.clone(),
        None => return Err(DiffRefusal::NotIntegrated),
    };
    match named_base {
        Some(base) => Ok((base, head)),
        None => match &closure.target_before {
            Some(before) => Ok((before.clone(), head)),
            None => Err(DiffRefusal::NoIntegrationBase),
        },
    }
}

/// The arguments that Git renders a diff from.
pub fn diff_command(stat: bool, left: &str, right: &str, paths: &Vec<String>) -> (r: Vec<String>)
    ensures
        views(r@) == seq!["diff"@] + (if stat {
            seq!["--stat"@]
        } else {
            Seq::empty()
        }) + seq![left@, right@] + (if paths@.len() == 0 {
            Seq::empty()
        } else {
            seq!["--"@] + views(paths@)
        }),
{
    let mut out: Vec<String> = Vec::new();
    out.push("diff".to_string());
    if stat {
        out.push("--stat".to_string());
    }
    out.push(left.to_string());
    out.push(right.to_string());
    let ghost head = seq!["diff"@] + (if stat {
        seq!["--stat"@]
    } else {
        Seq::empty()
    }) + seq![left@, right@];
    assert(views(out@) =~= head);
    if paths.len() > 0 {
        out.push("--".to_string());
        let ghost with_mark = head + seq!["--"@];
        assert(views(out@) =~= with_mark);
        for i in 0..paths.len()
            invariant
                views(out@) == with_mark + views(paths@).take(i as int),
        {
            let ghost before = views(out@);
            out.push(paths[i].clone());
            assert(views(out@) =~= before.push(paths@[i as int]@));
            assert(views(out@) =~= with_mark + views(paths@).take(i + 1));
        }
        assert(views(out@) =~= head + (seq!["--"@] + views(paths@)));
    } else {
        assert(views(out@) =~= head + Seq::<Seq<char>>::empty());
    }
    out
}

/// The place that an open finding points to, and whether the file there is still what it was.
pub open spec fn anchor_line(anchor: Anchor, current: Option<Seq<char>>) -> Seq<char> {
    "  - "@ + (if anchor.blob is Some && opt_view(anchor.blob) == current {
        "[anchored]"@
    } else {
        "[drifted]"@
    }) + " "@ + anchor.path@ + lines_text(anchor) + "\n"@
}

/// The lines that an anchor names.
pub open spec fn lines_text(anchor: Anchor) -> Seq<char> {
    match anchor.line_start {
        Some(start) => ":"@ + decimal_of(start as nat) + "-"@ + decimal_of(
            (match anchor.line_end {
                Some(end) => end,
                None => start,
            }) as nat,
        ),
        None => Seq::empty(),
    }
}

/// One open finding as it is shown beside a diff.
pub open spec fn beside_diff(finding: FindingState, current: Option<Seq<char>>) -> Seq<char> {
    "- ["@ + severity_label_text(finding.severity) + "] "@ + finding.summary@ + "\n"@ + (
    match finding.anchor {
        Some(anchor) => anchor_line(anchor, current),
        None => Seq::empty(),
    })
}

/// The open findings among the first `n` as they are shown beside a diff.
pub open spec fn open_lines(
    findings: Seq<FindingState>,
    current: Seq<Option<String>>,
    n: int,
) -> Seq<char>
    decreases n,
{
    if n <= 0 {
        Seq::empty()
    } else if findings[n - 1].status is None {
        open_lines(findings, current, n - 1) + beside_diff(
            findings[n - 1],
            opt_view(current[n - 1]),
        )
    } else {
        open_lines(findings, current, n - 1)
    }
}

/// Whether some finding is open.
pub open spec fn any_open(findings: Seq<FindingState>) -> bool {
    exists|i: int| 0 <= i < findings.len() && (#[trigger] findings[i]).status is None
}

fn named_lines(anchor: &Anchor) -> (r: String)
    ensures
        r@ == lines_text(*anchor),
{
    match anchor.line_start {
        Some(start) => {
            let end: u32 = match anchor.line_end {
                Some(end) => end,
                None => start,
            };
            let mut out = ":".to_string();
            out.append(decimal(start as u64).as_str());
            out.append("-");
            out.append(decimal(end as u64).as_str());
            out
        },
        None => String::new(),
    }
}

fn anchored(anchor: &Anchor, current: &Option<String>) -> (r: String)
    ensures
        r@ == anchor_line(*anchor, opt_view(*current)),
{
    let mut out = "  - ".to_string();
    let holds = match (&anchor.blob, current) {
        (Some(blob), Some(now)) => same(blob.as_str(), now.as_str()),
        _ => false,
    };
    if holds {
        out.append("[anchored]");
    } else {
        out.append("[drifted]");
    }
    out.append(" ");
    out.append(anchor.path.as_str());
    out.append(named_lines(anchor).as_str());
    out.append("\n");
    out
}

fn shown_beside(finding: &FindingState, current: &Option<String>) -> (r: String)
    ensures
        r@ == beside_diff(*finding, opt_view(*current)),
{
    let mut out = "- [".to_string();
    out.append(severity_label(finding.severity));
    out.append("] ");
    out.append(finding.summary.as_str());
    out.append("\n");
    match &finding.anchor {
        Some(anchor) => out.append(anchored(anchor, current).as_str()),
        None => out.append(String::new().as_str()),
    }
    out
}

/// The open findings of a change as they are shown beside a diff, or nothing where none is open.
/// `current` holds, for each finding, the content of the file that it points to.
pub fn render_findings(
    findings: &Vec<FindingState>,
    current: &Vec<Option<String>>,
    patchset_id: &str,
) -> (r: String)
    requires
        current@.len() == findings@.len(),
    ensures
        r@ == (if any_open(findings@) {
            "\n## Open findings at "@ + patchset_id@ + "\n"@ + open_lines(
                findings@,
                current@,
                findings@.len() as int,
            )
        } else {
            Seq::empty()
        }),
{
    let mut body = String::new();
    let mut found = false;
    let ghost mut witness: int = 0;
    for i in 0..findings.len()
        invariant
            current@.len() == findings@.len(),
            body@ == open_lines(findings@, current@, i as int),
            found ==> 0 <= witness < i && findings@[witness].status is None,
            !found ==> forall|k: int| 0 <= k < i ==> (#[trigger] findings@[k]).status is Some,
    {
        if findings[i].status.is_none() {
            found = true;
            proof {
                witness = i as int;
            }
            body.append(shown_beside(&findings[i], &current[i]).as_str());
        }
    }
    if !found {
        return String::new();
    }
    assert(findings@[witness].status is None);
    let mut out = "\n## Open findings at ".to_string();
    out.append(patchset_id);
    out.append("\n");
    out.append(body.as_str());
    out
}

/// Whether `r` are the revisions whose successor is no commit of this repository.
pub open spec fn are_unusable(
    mapping: &Vec<RewrittenRevision>,
    commits: &Vec<bool>,
    r: Vec<usize>,
) -> bool {
    ints(r@) == chosen(mapping@.len(), |i: int| mapping@[i].to is Some && !commits@[i])
}

/// The positions of the revisions whose successor is no commit of this repository. `commits` says
/// of each whether its successor is one.
pub fn unusable_successors(mapping: &Vec<RewrittenRevision>, commits: &Vec<bool>) -> (r: Vec<usize>)
    requires
        commits@.len() == mapping@.len(),
    ensures
        are_unusable(mapping, commits, r),
{
    let mut out: Vec<usize> = Vec::new();
    for i in 0..mapping.len()
        invariant
            commits@.len() == mapping@.len(),
            ints(out@) == chosen(i as nat, |k: int| mapping@[k].to is Some && !commits@[k]),
    {
        let ghost before = ints(out@);
        if mapping[i].to.is_some() && !commits[i] {
            out.push(i);
            assert(ints(out@) =~= before.push(i as int));
        }
    }
    out
}

/// What became of a revision when history was rewritten.
#[derive(Debug)]
pub enum Fate {
    Rewritten { successor: String },
    Dropped,
}

/// What is said of the fate of a revision.
pub open spec fn fate_text(revision: Seq<char>, fate: Option<Fate>) -> Seq<char> {
    match fate {
        Some(Fate::Rewritten { successor }) => revision + " → "@ + successor@ + "\n"@,
        Some(Fate::Dropped) => revision
            + ": dropped by a recorded rewrite; nothing survives it\n"@,
        None => revision + ": no recorded rewrite moved it\n"@,
    }
}

/// Whether `r` tells the fate of a revision.
pub open spec fn tells_fate(
    revision: &str,
    fate: &Option<Fate>,
    r: (String, i32),
) -> bool {
    &&& r.0@ == fate_text(revision@, *fate)
    &&& r.1 == (match *fate {
            Some(Fate::Rewritten { .. }) => 0int,
            Some(Fate::Dropped) => 3int,
            None => 2int,
        })
}

/// What is said of the fate of a revision, and an exit code that tells moved, dropped and
/// unchanged apart.
pub fn resolve_rewritten(revision: &str, fate: &Option<Fate>) -> (r: (String, i32))
    ensures
        tells_fate(revision, fate, r),
{
    let mut out = revision.to_string();
    match fate {
        Some(Fate::Rewritten { successor }) => {
            out.append(" → ");
            out.append(successor.as_str());
            out.append("\n");
            (out, 0)
        },
        Some(Fate::Dropped) => {
            out.append(": dropped by a recorded rewrite; nothing survives it\n");
            (out, 3)
        },
        None => {
            out.append(": no recorded rewrite moved it\n");
            (out, 2)
        },
    }
}

/// Without anything asked for, a diff goes from the base of the latest patchset to its head; with a
/// patchset, from its base to its head.
pub proof fn plain_diffs_span_a_patchset(
    state: &ChangeState,
    args: &DiffArgs,
    r: Result<DiffRange, DiffRefusal>,
)
    requires
        answers_diff(state, args, r),
        args.between is None,
        !args.since_approved,
    ensures
        args.patchset is None ==> (r is Ok <==> state.patchsets@.len() > 0),
        args.patchset is None && state.patchsets@.len() > 0 ==> r->Ok_0.left@
            == state.patchsets@.last().base@ && r->Ok_0.right@ == state.patchsets@.last().head@,
        r matches Ok(range) ==> range.patchset < state.patchsets@.len() && range.left@
            == state.patchsets@[range.patchset as int].base@ && range.right@
            == state.patchsets@[range.patchset as int].head@ && (args.patchset matches Some(id)
            ==> state.patchsets@[range.patchset as int].id@ == id@),
        args.patchset matches Some(id) ==> (forall|k: int|
            0 <= k < state.patchsets@.len() && (#[trigger] state.patchsets@[k]).id@ == id@ ==> r
                is Ok),
{
    if let Some(id) = args.patchset {
        assert forall|k: int|
            0 <= k < state.patchsets@.len() && (#[trigger] state.patchsets@[k]).id@
                == id@ implies r is Ok by {
            assert(has_patchset(*state, id@));
        }
    }
}

/// What was approved last is where a diff since then starts, and it ends at the head of the
/// patchset that it is about; where nothing was ever approved there is none.
pub proof fn approved_diffs_start_at_the_approval(
    state: &ChangeState,
    args: &DiffArgs,
    v: int,
    r: Result<DiffRange, DiffRefusal>,
)
    requires
        answers_diff(state, args, r),
        args.between is None,
        args.since_approved,
        r is Ok,
    ensures
        r->Ok_0.right@ == state.patchsets@[r->Ok_0.patchset as int].head@,
        0 <= v < state.verdicts@.len() && state.verdicts@[v].verdict == Verdict::Approved && (
        forall|j: int|
            v < j < state.verdicts@.len() ==> (#[trigger] state.verdicts@[j]).verdict
                != Verdict::Approved) ==> exists|a: int|
            0 <= a < state.patchsets@.len() && (#[trigger] state.patchsets@[a]).id@
                == state.verdicts@[v].patchset_id@ && r->Ok_0.left@ == state.patchsets@[a].head@,
        exists|j: int|
            0 <= j < state.verdicts@.len() && (#[trigger] state.verdicts@[j]).verdict
                == Verdict::Approved,
{
    let (w, a) = choose|w: int, a: int| #[trigger]
        last_approval(*state, w) && #[trigger] patchset_at(
            *state,
            state.verdicts@[w].patchset_id@,
            a,
        ) && r->Ok_0.left@ == state.patchsets@[a].head@;
    assert(state.verdicts@[w].verdict == Verdict::Approved);
    assert(state.patchsets@[a].id@ == state.verdicts@[w].patchset_id@);
    if 0 <= v < state.verdicts@.len() && state.verdicts@[v].verdict == Verdict::Approved && (
    forall|j: int|
        v < j < state.verdicts@.len() ==> (#[trigger] state.verdicts@[j]).verdict
            != Verdict::Approved) {
        if v < w {
            assert(state.verdicts@[w].verdict != Verdict::Approved);
        }
        if w < v {
            assert(state.verdicts@[v].verdict != Verdict::Approved);
        }
    }
}

/// An integration is shown exactly where one was recorded and its start is known: up to what
/// landed, from the base that is named or else from where the target stood.
pub proof fn integrated_diffs_end_at_what_landed(
    state: &ChangeState,
    named_base: Option<String>,
    r: Result<(String, String), DiffRefusal>,
)
    requires
        answers_integrated(state, named_base, r),
    ensures
        r is Ok <==> state.closure is Some && state.closure->0.integrated_commit is Some && (
        named_base is Some || state.closure->0.target_before is Some),
        r matches Ok(range) ==> (range.1)@ == state.closure->0.integrated_commit->0@ && (
        named_base matches Some(named) ==> (range.0)@ == named@) && (named_base is None ==> (
        range.0)@ == state.closure->0.target_before->0@),
{
}

/// A successor that is no commit here is told; a revision that was dropped has none to miss.
pub proof fn missing_successors_are_told(
    mapping: &Vec<RewrittenRevision>,
    commits: &Vec<bool>,
    i: usize,
    r: Vec<usize>,
)
    requires
        are_unusable(mapping, commits, r),
        i < mapping@.len(),
    ensures
        r@.contains(i) <==> mapping@[i as int].to is Some && !commits@[i as int],
{
    let wanted = |i: int| mapping@[i].to is Some && !commits@[i];
    lemma_chosen(mapping@.len(), wanted);
    lemma_ints_contain(r@, i);
    assert(chosen(mapping@.len(), wanted).contains(i as int) <==> wanted(i as int));
}

/// The exit code tells a revision that moved from one that was dropped and from one that stayed.
pub proof fn fates_have_their_exit_codes(revision: &str, fate: &Option<Fate>, r: (String, i32))
    requires
        tells_fate(revision, fate, r),
    ensures
        r.1 == 0 <==> (*fate matches Some(Fate::Rewritten { .. })),
        r.1 == 3 <==> (*fate matches Some(Fate::Dropped)),
        r.1 == 2 <==> fate is None,
{
}

/// An anchored finding is told as anchored exactly where its file is still what it was.
pub proof fn unchanged_files_stay_anchored(anchor: Anchor, current: Option<Seq<char>>)
    ensures
        anchor_line(anchor, current) == (if anchor.blob is Some && current is Some
            && anchor.blob->0@ == current->0 {
            "  - "@ + "[anchored]"@
        } else {
            "  - "@ + "[drifted]"@
        }) + " "@ + anchor.path@ + lines_text(anchor) + "\n"@,
{
}

} // verus!
