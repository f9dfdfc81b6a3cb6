//! Rescuing a change: what whoever takes it over needs to know.
use crate::begin::ends_line;
use crate::context::Ctx;
use crate::order::{chosen, ints, lemma_chosen, lemma_ints_contain};
use crate::state::{Brief, ChangeState, ClaimIdentity, ClaimTiming};
use crate::text::{
    among, blank, chars_of, contains, decimal, decimal_of, is_blank, opt_view, same, text_between, views,
};
use vstd::prelude::*;

verus! {

/// The format of a rescue that is written as JSON.
pub const RESCUE_SCHEMA: &'static str = "arc-rescue/1";

/// A finding, as status tells it.
pub struct FindingSummary {
    pub id: String,
    pub status: String,
    pub summary: String,
}

/// A gate, as status tells it: its name and what is said of it.
pub struct GateLine {
    pub name: String,
    pub line: String,
}

/// What status tells of a change.
pub struct RescueReport {
    pub findings: Vec<FindingSummary>,
    pub gates: Vec<GateLine>,
    pub next_action: String,
    pub worktree_dirty: Option<bool>,
    pub has_patchset: bool,
    pub head_matches_latest_patchset: bool,
}

/// Where the branch stands against the latest patchset.
#[derive(Clone, Copy, Debug, PartialEq, Eq, Structural)]
pub enum HeadState {
    NoPatchset,
    Matches,
    MovedPast,
}

/// The claim on a change that is rescued.
pub struct RescueClaim {
    pub owner: ClaimIdentity,
    pub stage: String,
    pub active: bool,
    pub stale: bool,
    pub expired: bool,
    pub age_seconds: u64,
}

/// What is told of a change that is rescued.
pub struct RescueOutput {
    /// The position of its latest brief.
    pub brief: Option<usize>,
    pub claim: Option<RescueClaim>,
    /// The positions of the findings that are open.
    pub open_findings: Vec<usize>,
    pub head_state: HeadState,
    pub abandoned: bool,
}

/// Whether a status leaves a finding open.
pub open spec fn leaves_open(status: Seq<char>) -> bool {
    status != "resolved"@ && status != "acceptedrisk"@ && status != "obsolete"@
}

/// Whether the caller is whoever holds a claim.
pub open spec fn is_owner(ctx: Ctx, owner: ClaimIdentity) -> bool {
    ctx.actor@ == owner.actor@ && opt_view(ctx.harness) == Some(owner.harness@) && opt_view(
        ctx.session,
    ) == Some(owner.session@)
}

/// Whether a claim was abandoned: it is someone else's, and it went stale or ran out.
pub open spec fn is_abandoned(ctx: Ctx, state: ChangeState, timing: ClaimTiming) -> bool {
    state.claim matches Some(claim) && !is_owner(ctx, claim.owner) && (timing.stale
        || timing.expired)
}

/// Where the branch stands.
pub open spec fn head_of(report: RescueReport) -> HeadState {
    if !report.has_patchset {
        HeadState::NoPatchset
    } else if report.head_matches_latest_patchset {
        HeadState::Matches
    } else {
        HeadState::MovedPast
    }
}

/// Whether a claim is told as it stands.
pub open spec fn tells_claim(
    told: Option<RescueClaim>,
    state: ChangeState,
    timing: ClaimTiming,
    age_seconds: u64,
) -> bool {
    match (told, state.claim) {
        (Some(told), Some(claim)) => {
            &&& told.owner.actor@ == claim.owner.actor@
            &&& told.owner.harness@ == claim.owner.harness@
            &&& told.owner.session@ == claim.owner.session@
            &&& told.stage@ == timing.stage@
            &&& told.active == timing.active
            &&& told.stale == timing.stale
            &&& told.expired == timing.expired
            &&& told.age_seconds == age_seconds
        },
        (None, None) => true,
        _ => false,
    }
}

/// The positions of the findings that are open.
pub open spec fn open_positions(report: RescueReport) -> Seq<int> {
    chosen(report.findings@.len(), |i: int| leaves_open(report.findings@[i].status@))
}

/// Whether the output tells what there is to know of a change.
pub open spec fn tells_rescue(
    output: RescueOutput,
    ctx: Ctx,
    state: ChangeState,
    timing: ClaimTiming,
    age_seconds: u64,
    report: RescueReport,
) -> bool {
    &&& output.brief == (if state.briefs@.len() > 0 {
        Some((state.briefs@.len() - 1) as usize)
    } else {
        None
    })
    &&& tells_claim(output.claim, state, timing, age_seconds)
    &&& ints(output.open_findings@) == open_positions(report)
    &&& output.head_state == head_of(report)
    &&& output.abandoned == is_abandoned(ctx, state, timing)
}

/// A copy of an identity.
pub fn copy_identity(owner: &ClaimIdentity) -> (r: ClaimIdentity)
    ensures
        r.actor@ == owner.actor@,
        r.harness@ == owner.harness@,
        r.session@ == owner.session@,
{
    ClaimIdentity {
        actor: owner.actor.clone(),
        harness: owner.harness.clone(),
        session: owner.session.clone(),
    }
}

fn names_text(value: &Option<String>, text: &str) -> (r: bool)
    ensures
        r == (opt_view(*value) == Some(text@)),
{
    match value {
        Some(value) => same(value.as_str(), text),
        None => false,
    }
}

fn caller_owns(ctx: &Ctx, owner: &ClaimIdentity) -> (r: bool)
    ensures
        r == is_owner(*ctx, *owner),
{
    same(ctx.actor.as_str(), owner.actor.as_str()) && names_text(
        &ctx.harness,
        owner.harness.as_str(),
    ) && names_text(&ctx.session, owner.session.as_str())
}

fn find_open(report: &RescueReport) -> (r: Vec<usize>)
    ensures
        ints(r@) == open_positions(*report),
{
    let mut out: Vec<usize> = Vec::new();
    let ghost wanted = |i: int| leaves_open(report.findings@[i].status@);
    let findings = &report.findings;
    assert(ints(out@) =~= Seq::<int>::empty());
    for i in 0..findings.len()
        invariant
            findings@ == report.findings@,
            wanted == (|i: int| leaves_open(report.findings@[i].status@)),
            ints(out@) == chosen(i as nat, wanted),
    {
        let ghost before = ints(out@);
        let status = findings[i].status.as_str();
        if !same(status, "resolved") && !same(status, "acceptedrisk") && !same(status, "obsolete") {
            out.push(i);
            assert(ints(out@) =~= before.push(i as int));
        }
    }
    out
}

/// What there is to know of a change that is rescued. `timing` and `age_seconds` are those of
/// its claim.
pub fn rescue(
    ctx: &Ctx,
    state: &ChangeState,
    timing: &ClaimTiming,
    age_seconds: u64,
    report: &RescueReport,
) -> (r: RescueOutput)
    ensures
        tells_rescue(r, *ctx, *state, *timing, age_seconds, *report),
{
    let brief = if state.briefs.len() > 0 {
        Some(state.briefs.len() - 1)
    } else {
        None
    };
    let mut abandoned = false;
    let claim = match &state.claim {
        Some(claim) => {
            abandoned = !caller_owns(ctx, &claim.owner) && (timing.stale || timing.expired);
            Some(
                RescueClaim {
                    owner: copy_identity(&claim.owner),
                    stage: timing.stage.clone(),
                    active: timing.active,
                    stale: timing.stale,
                    expired: timing.expired,
                    age_seconds,
                },
            )
        },
        None => None,
    };
    let head_state = if !report.has_patchset {
        HeadState::NoPatchset
    } else if report.head_matches_latest_patchset {
        HeadState::Matches
    } else {
        HeadState::MovedPast
    };
    RescueOutput { brief, claim, open_findings: find_open(report), head_state, abandoned }
}

/// A change is not abandoned by whoever asks.
pub proof fn owners_abandon_nothing(ctx: Ctx, state: ChangeState, timing: ClaimTiming)
    requires
        state.claim matches Some(claim) && is_owner(ctx, claim.owner),
    ensures
        !is_abandoned(ctx, state, timing),
{
}

/// What is logged when a change was taken over.
pub fn rescued_note(change_id: &str, previous: &ClaimIdentity) -> (r: String)
    ensures
        r@ == "rescued change "@ + change_id@ + " from "@ + previous.actor@ + " via "@
            + previous.harness@ + "/"@ + previous.session@,
{
    let mut out = "rescued change ".to_string();
    out.append(change_id);
    out.append(" from ");
    out.append(previous.actor.as_str());
    out.append(" via ");
    out.append(previous.harness.as_str());
    out.append("/");
    out.append(previous.session.as_str());
    out
}

/// Whose transcript is shown: that of whoever was rescued from, or else of whoever holds the
/// claim.
pub open spec fn transcript_owner(rescued: Option<ClaimIdentity>, state: ChangeState) -> Option<
    ClaimIdentity,
> {
    match rescued {
        Some(owner) => Some(owner),
        None => match state.claim {
            Some(claim) => Some(claim.owner),
            None => None,
        },
    }
}

/// Whether a harness is one whose transcripts can be found: one of three, or one of `further`.
pub open spec fn harness_known(name: Seq<char>, further: Seq<String>) -> bool {
    name == "codex"@ || name == "opencode"@ || name == "pi"@ || among(further, name)
}

/// Whether a harness is one whose transcripts can be found: one of three, or one of `further`.
pub fn known_harness(name: &str, further: &Vec<String>) -> (r: bool)
    ensures
        r == harness_known(name@, further@),
{
    same(name, "codex") || same(name, "opencode") || same(name, "pi") || contains(further, name)
}

/// Whether the transcript of an identity can be looked for: its session has a name, and its
/// harness is one whose transcripts can be found.
pub open spec fn traceable(owner: ClaimIdentity, further: Seq<String>) -> bool {
    !blank(owner.session@) && harness_known(owner.harness@, further)
}

/// Whether `r` is the identity whose transcript is looked for.
pub open spec fn finds_transcript(
    rescued: &Option<ClaimIdentity>,
    state: &ChangeState,
    further: &Vec<String>,
    r: Option<ClaimIdentity>,
) -> bool {
    match r {
            Some(owner) => transcript_owner(*rescued, *state) matches Some(from) && traceable(
                from,
                further@,
            ) && owner.actor@ == from.actor@ && owner.harness@ == from.harness@
                && owner.session@ == from.session@,
            None => match transcript_owner(*rescued, *state) {
                Some(from) => !traceable(from, further@),
                None => true,
            },
        }
}

/// The identity whose transcript is looked for, where it can be. `further` are harnesses whose
/// transcripts can be found beside those that are always known.
pub fn find_transcript_owner(
    rescued: &Option<ClaimIdentity>,
    state: &ChangeState,
    further: &Vec<String>,
) -> (r: Option<ClaimIdentity>)
    ensures
        finds_transcript(rescued, state, further, r),
{
    let owner = match rescued {
        Some(owner) => owner,
        None => match &state.claim {
            Some(claim) => &claim.owner,
            None => {
                return None;
            },
        },
    };
    if !is_blank(owner.session.as_str()) && known_harness(owner.harness.as_str(), further) {
        Some(copy_identity(owner))
    } else {
        None
    }
}

/// Whether `r` is why no transcript is shown.
pub open spec fn lacks_transcript(
    identity_known: bool,
    found: bool,
    r: Option<&'static str>,
) -> bool {
    match r {
            Some(reason) => if !identity_known {
                reason@ == "claim harness/session is unknown"@
            } else {
                !found && reason@ == "no transcript file exists for the claimed session"@
            },
            None => identity_known && found,
        }
}

/// Why no transcript is shown.
pub fn transcript_unavailable(identity_known: bool, found: bool) -> (r: Option<&'static str>)
    ensures
        lacks_transcript(identity_known, found, r),
{
    if !identity_known {
        Some("claim harness/session is unknown")
    } else if !found {
        Some("no transcript file exists for the claimed session")
    } else {
        None
    }
}

/// One turn of a transcript.
pub struct Turn {
    pub ts: Option<String>,
    pub role: String,
    pub text: String,
}

/// The transcript that is shown: where it is and its last turns, or why there is none.
pub enum RescueTranscript {
    Shown { path: String, turns: Vec<Turn> },
    Unavailable { reason: String },
}

/// A text without the line feed at its end.
pub open spec fn unended(text: Seq<char>) -> Seq<char> {
    if text.len() > 0 && text.last() == '\n' {
        text.drop_last()
    } else {
        text
    }
}

fn without_end(text: &str) -> (r: String)
    ensures
        r@ == unended(text@),
{
    if ends_line(text) {
        let chars = chars_of(text);
        assert(chars@.subrange(0, chars@.len() - 1) =~= text@.drop_last());
        text_between(&chars, 0, chars.len() - 1)
    } else {
        text.to_string()
    }
}

/// The line of a probe.
pub open spec fn probe_line(name: Seq<char>, command: Seq<char>) -> Seq<char> {
    "  - `"@ + name + "`: `"@ + command + "`"@
}

/// The lines of a brief.
pub open spec fn brief_lines(brief: Brief) -> Seq<Seq<char>> {
    let base = match brief.base_revision {
        Some(revision) => seq!["- Base revision: `"@ + revision@ + "`\n"@],
        None => Seq::empty(),
    };
    let probes = if brief.acceptance_probes@.len() > 0 {
        seq!["- Acceptance probes:"@] + Seq::new(
            brief.acceptance_probes@.len(),
            |i: int|
                probe_line(
                    brief.acceptance_probes@[i].name@,
                    brief.acceptance_probes@[i].command@,
                ),
        ) + seq![""@]
    } else {
        Seq::empty()
    };
    seq!["\n## Brief\n"@] + base + probes + seq![unended(brief.body@)]
}

/// How a claim stands, in a word.
pub open spec fn standing(claim: RescueClaim) -> Seq<char> {
    if claim.expired {
        "expired"@
    } else if claim.stale {
        "stale"@
    } else {
        "active"@
    }
}

/// The lines of the claim.
pub open spec fn claim_lines(claim: Option<RescueClaim>) -> Seq<Seq<char>> {
    match claim {
        Some(claim) => seq![
            "\n## Claim / Stage\n"@,
            "- Owner: "@ + claim.owner.actor@ + " via "@ + claim.owner.harness@ + "/"@
                + claim.owner.session@,
            "- Stage: `"@ + claim.stage@ + "`"@,
            "- State: "@ + standing(claim),
            "- Last activity: "@ + decimal_of(claim.age_seconds as nat) + "s ago"@,
        ],
        None => seq!["\n## Claim / Stage\n"@, "- (unclaimed)"@],
    }
}

/// The text of a turn.
pub open spec fn turn_text(turn: Turn) -> Seq<char> {
    match turn.ts {
        Some(ts) => "\n### "@ + turn.role@ + " ("@ + ts@ + ")\n\n"@ + turn.text@,
        None => "\n### "@ + turn.role@ + "\n\n"@ + turn.text@,
    }
}

/// The lines of the transcript, where one is asked for.
pub open spec fn transcript_lines(transcript: Option<RescueTranscript>) -> Seq<Seq<char>> {
    match transcript {
        Some(RescueTranscript::Shown { path, turns }) => seq![
            "\n## Transcript\n"@,
            "- Path: `"@ + path@ + "`"@,
            "- Turns: "@ + decimal_of(turns@.len()),
        ] + Seq::new(turns@.len(), |i: int| turn_text(turns@[i])),
        Some(RescueTranscript::Unavailable { reason }) => seq![
            "\n## Transcript\n"@,
            "- Unavailable: "@ + reason@,
        ],
        None => Seq::empty(),
    }
}

/// Where the branch stands, in words.
pub open spec fn head_text(head: HeadState) -> Seq<char> {
    match head {
        HeadState::NoPatchset => "no patchset recorded"@,
        HeadState::Matches => "matches the newest approved/snapshotted head"@,
        HeadState::MovedPast => "has moved past the newest patchset"@,
    }
}

/// Whether there are edits that no commit has, in words.
pub open spec fn dirty_text(dirty: Option<bool>) -> Seq<char> {
    match dirty {
        Some(true) => "present"@,
        Some(false) => "absent"@,
        None => "unknown"@,
    }
}

/// The lines of the worktree.
pub open spec fn worktree_lines(head: HeadState, dirty: Option<bool>) -> Seq<Seq<char>> {
    seq![
        "\n## Worktree\n"@,
        "- Branch head: "@ + head_text(head),
        "- Uncommitted edits: "@ + dirty_text(dirty),
    ]
}

/// The line of a finding.
pub open spec fn finding_line(finding: FindingSummary) -> Seq<char> {
    "- `"@ + finding.id@ + "` ["@ + finding.status@ + "] "@ + finding.summary@
}

/// The lines of the findings that are open.
pub open spec fn finding_lines(report: RescueReport, open: Seq<int>) -> Seq<Seq<char>> {
    if open.len() == 0 {
        seq!["\n## Open Findings\n"@, "- (none)"@]
    } else {
        seq!["\n## Open Findings\n"@] + Seq::new(
            open.len(),
            |i: int| finding_line(report.findings@[open[i]]),
        )
    }
}

/// The line of a gate.
pub open spec fn gate_text(gate: GateLine) -> Seq<char> {
    "- "@ + gate.name@ + ": "@ + gate.line@
}

/// The lines of the gates.
pub open spec fn gate_lines(report: RescueReport) -> Seq<Seq<char>> {
    if report.gates@.len() == 0 {
        seq!["\n## Gates at Head\n"@, "- (none)"@]
    } else {
        seq!["\n## Gates at Head\n"@] + Seq::new(
            report.gates@.len(),
            |i: int| gate_text(report.gates@[i]),
        )
    }
}

/// The lines of the assessment.
pub open spec fn assessment_lines(abandoned: bool, next_action: Seq<char>) -> Seq<Seq<char>> {
    seq![
        "\n## Assessment\n"@,
        "- Abandoned: "@ + (if abandoned {
            "yes"@
        } else {
            "no"@
        }),
        "\nNext action: "@ + next_action,
    ]
}

/// The lines that are told of a change that is rescued.
pub open spec fn rescue_lines(
    state: ChangeState,
    report: RescueReport,
    output: RescueOutput,
    transcript: Option<RescueTranscript>,
) -> Seq<Seq<char>> {
    seq!["# "@ + state.title@ + " (`"@ + state.change_id@ + "`)"@] + (match output.brief {
        Some(k) => brief_lines(state.briefs@[k as int]),
        None => Seq::empty(),
    }) + claim_lines(output.claim) + transcript_lines(transcript) + worktree_lines(
        output.head_state,
        report.worktree_dirty,
    ) + finding_lines(report, ints(output.open_findings@)) + gate_lines(report)
        + assessment_lines(output.abandoned, report.next_action@)
}

fn extend(out: &mut Vec<String>, part: Vec<String>)
    ensures
        views(final(out)@) == views(old(out)@) + views(part@),
{
    let mut part = part;
    let ghost before = out@;
    let ghost added = part@;
    out.append(&mut part);
    assert(views(out@) =~= views(before) + views(added));
}

fn one(line: String) -> (r: Vec<String>)
    ensures
        views(r@) == seq![line@],
{
    let mut out: Vec<String> = Vec::new();
    out.push(line);
    assert(views(out@) =~= seq![line@]);
    out
}

fn write_probe(name: &str, command: &str) -> (r: String)
    ensures
        r@ == probe_line(name@, command@),
{
    let mut out = "  - `".to_string();
    out.append(name);
    out.append("`: `");
    out.append(command);
    out.append("`");
    out
}

fn write_probes(brief: &Brief) -> (r: Vec<String>)
    requires
        brief.acceptance_probes@.len() > 0,
    ensures
        views(r@) == seq!["- Acceptance probes:"@] + Seq::new(
            brief.acceptance_probes@.len(),
            |i: int|
                probe_line(
                    brief.acceptance_probes@[i].name@,
                    brief.acceptance_probes@[i].command@,
                ),
        ) + seq![""@],
{
    let probes = &brief.acceptance_probes;
    let mut listed: Vec<String> = Vec::new();
    for i in 0..probes.len()
        invariant
            listed@.len() == i,
            forall|j: int|
                0 <= j < i ==> (#[trigger] listed@[j])@ == probe_line(
                    probes@[j].name@,
                    probes@[j].command@,
                ),
    {
        listed.push(write_probe(probes[i].name.as_str(), probes[i].command.as_str()));
    }
    assert(views(listed@) =~= Seq::new(
        probes@.len(),
        |i: int| probe_line(probes@[i].name@, probes@[i].command@),
    ));
    let mut out = one("- Acceptance probes:".to_string());
    extend(&mut out, listed);
    extend(&mut out, one("".to_string()));
    out
}

fn write_brief(brief: &Brief) -> (r: Vec<String>)
    ensures
        views(r@) == brief_lines(*brief),
{
    let mut base: Vec<String> = Vec::new();
    assert(views(base@) =~= Seq::<Seq<char>>::empty());
    if let Some(revision) = &brief.base_revision {
        let mut line = "- Base revision: `".to_string();
        line.append(revision.as_str());
        line.append("`\n");
        base = one(line);
    }
    let mut probes: Vec<String> = Vec::new();
    assert(views(probes@) =~= Seq::<Seq<char>>::empty());
    if brief.acceptance_probes.len() > 0 {
        probes = write_probes(brief);
    }
    let mut out = one("\n## Brief\n".to_string());
    extend(&mut out, base);
    extend(&mut out, probes);
    extend(&mut out, one(without_end(brief.body.as_str())));
    out
}

fn write_claim(claim: &Option<RescueClaim>) -> (r: Vec<String>)
    ensures
        views(r@) == claim_lines(*claim),
{
    let mut out: Vec<String> = Vec::new();
    out.push("\n## Claim / Stage\n".to_string());
    match claim {
        Some(claim) => {
            let mut owner = "- Owner: ".to_string();
            owner.append(claim.owner.actor.as_str());
            owner.append(" via ");
            owner.append(claim.owner.harness.as_str());
            owner.append("/");
            owner.append(claim.owner.session.as_str());
            out.push(owner);
            let mut stage = "- Stage: `".to_string();
            stage.append(claim.stage.as_str());
            stage.append("`");
            out.push(stage);
            let mut state = "- State: ".to_string();
            state.append(
                if claim.expired {
                    "expired"
                } else if claim.stale {
                    "stale"
                } else {
                    "active"
                },
            );
            out.push(state);
            let seconds = decimal(claim.age_seconds);
            let mut age = "- Last activity: ".to_string();
            age.append(seconds.as_str());
            age.append("s ago");
            out.push(age);
        },
        None => {
            out.push("- (unclaimed)".to_string());
        },
    }
    assert(views(out@) =~= claim_lines(*claim));
    out
}

fn write_turn(turn: &Turn) -> (r: String)
    ensures
        r@ == turn_text(*turn),
{
    let mut out = "\n### ".to_string();
    out.append(turn.role.as_str());
    match &turn.ts {
        Some(ts) => {
            out.append(" (");
            out.append(ts.as_str());
            out.append(")\n\n");
        },
        None => {
            out.append("\n\n");
        },
    }
    out.append(turn.text.as_str());
    out
}

fn write_turns(turns: &Vec<Turn>) -> (r: Vec<String>)
    ensures
        views(r@) == Seq::new(turns@.len(), |i: int| turn_text(turns@[i])),
{
    let mut out: Vec<String> = Vec::new();
    for i in 0..turns.len()
        invariant
            out@.len() == i,
            forall|j: int| 0 <= j < i ==> (#[trigger] out@[j])@ == turn_text(turns@[j]),
    {
        out.push(write_turn(&turns[i]));
    }
    assert(views(out@) =~= Seq::new(turns@.len(), |i: int| turn_text(turns@[i])));
    out
}

fn write_transcript(transcript: &Option<RescueTranscript>) -> (r: Vec<String>)
    ensures
        views(r@) == transcript_lines(*transcript),
{
    let mut out: Vec<String> = Vec::new();
    match transcript {
        Some(RescueTranscript::Shown { path, turns }) => {
            out.push("\n## Transcript\n".to_string());
            let mut place = "- Path: `".to_string();
            place.append(path.as_str());
            place.append("`");
            let ghost first = place@;
            out.push(place);
            let number = decimal(turns.len() as u64);
            let mut count = "- Turns: ".to_string();
            count.append(number.as_str());
            let ghost second = count@;
            out.push(count);
            assert(views(out@) =~= seq!["\n## Transcript\n"@, first, second]);
            extend(&mut out, write_turns(turns));
        },
        Some(RescueTranscript::Unavailable { reason }) => {
            out.push("\n## Transcript\n".to_string());
            let mut line = "- Unavailable: ".to_string();
            line.append(reason.as_str());
            out.push(line);
            assert(views(out@) =~= transcript_lines(*transcript));
        },
        None => {
            assert(views(out@) =~= transcript_lines(*transcript));
        },
    }
    out
}

fn write_worktree(head: HeadState, dirty: Option<bool>) -> (r: Vec<String>)
    ensures
        views(r@) == worktree_lines(head, dirty),
{
    let mut out: Vec<String> = Vec::new();
    out.push("\n## Worktree\n".to_string());
    let mut line = "- Branch head: ".to_string();
    line.append(
        match head {
            HeadState::NoPatchset => "no patchset recorded",
            HeadState::Matches => "matches the newest approved/snapshotted head",
            HeadState::MovedPast => "has moved past the newest patchset",
        },
    );
    out.push(line);
    let mut edits = "- Uncommitted edits: ".to_string();
    edits.append(
        match dirty {
            Some(true) => "present",
            Some(false) => "absent",
            None => "unknown",
        },
    );
    out.push(edits);
    assert(views(out@) =~= worktree_lines(head, dirty));
    out
}

fn write_finding(finding: &FindingSummary) -> (r: String)
    ensures
        r@ == finding_line(*finding),
{
    let mut out = "- `".to_string();
    out.append(finding.id.as_str());
    out.append("` [");
    out.append(finding.status.as_str());
    out.append("] ");
    out.append(finding.summary.as_str());
    out
}

fn write_findings(report: &RescueReport, open: &Vec<usize>) -> (r: Vec<String>)
    requires
        forall|k: int| 0 <= k < open@.len() ==> #[trigger] open@[k] < report.findings@.len(),
    ensures
        views(r@) == finding_lines(*report, ints(open@)),
{
    let mut out = one("\n## Open Findings\n".to_string());
    if open.len() == 0 {
        extend(&mut out, one("- (none)".to_string()));
        assert(ints(open@).len() == 0);
        assert(views(out@) =~= finding_lines(*report, ints(open@)));
        return out;
    }
    let mut listed: Vec<String> = Vec::new();
    for i in 0..open.len()
        invariant
            forall|k: int| 0 <= k < open@.len() ==> #[trigger] open@[k] < report.findings@.len(),
            listed@.len() == i,
            forall|j: int|
                0 <= j < i ==> (#[trigger] listed@[j])@ == finding_line(
                    report.findings@[ints(open@)[j]],
                ),
    {
        assert(ints(open@)[i as int] == open@[i as int]);
        listed.push(write_finding(&report.findings[open[i]]));
    }
    assert(views(listed@) =~= Seq::new(
        ints(open@).len(),
        |i: int| finding_line(report.findings@[ints(open@)[i]]),
    ));
    extend(&mut out, listed);
    out
}

fn write_gate(gate: &GateLine) -> (r: String)
    ensures
        r@ == gate_text(*gate),
{
    let mut out = "- ".to_string();
    out.append(gate.name.as_str());
    out.append(": ");
    out.append(gate.line.as_str());
    out
}

fn write_gates(report: &RescueReport) -> (r: Vec<String>)
    ensures
        views(r@) == gate_lines(*report),
{
    let mut out = one("\n## Gates at Head\n".to_string());
    let gates = &report.gates;
    if gates.len() == 0 {
        extend(&mut out, one("- (none)".to_string()));
        assert(views(out@) =~= gate_lines(*report));
        return out;
    }
    let mut listed: Vec<String> = Vec::new();
    for i in 0..gates.len()
        invariant
            listed@.len() == i,
            forall|j: int| 0 <= j < i ==> (#[trigger] listed@[j])@ == gate_text(gates@[j]),
    {
        listed.push(write_gate(&gates[i]));
    }
    assert(views(listed@) =~= Seq::new(
        report.gates@.len(),
        |i: int| gate_text(report.gates@[i]),
    ));
    extend(&mut out, listed);
    out
}

fn write_assessment(abandoned: bool, next_action: &str) -> (r: Vec<String>)
    ensures
        views(r@) == assessment_lines(abandoned, next_action@),
{
    let mut out: Vec<String> = Vec::new();
    out.push("\n## Assessment\n".to_string());
    let mut line = "- Abandoned: ".to_string();
    line.append(if abandoned { "yes" } else { "no" });
    out.push(line);
    let mut next = "\nNext action: ".to_string();
    next.append(next_action);
    out.push(next);
    assert(views(out@) =~= assessment_lines(abandoned, next_action@));
    out
}

/// The lines that are told of a change that is rescued.
pub fn render(
    state: &ChangeState,
    report: &RescueReport,
    output: &RescueOutput,
    transcript: &Option<RescueTranscript>,
) -> (r: Vec<String>)
    requires
        output.brief matches Some(k) ==> k < state.briefs@.len(),
        ints(output.open_findings@) == open_positions(*report),
    ensures
        views(r@) == rescue_lines(*state, *report, *output, *transcript),
{
    let mut title = "# ".to_string();
    title.append(state.title.as_str());
    title.append(" (`");
    title.append(state.change_id.as_str());
    title.append("`)");
    let mut brief: Vec<String> = Vec::new();
    assert(views(brief@) =~= Seq::<Seq<char>>::empty());
    if let Some(k) = output.brief {
        brief = write_brief(&state.briefs[k]);
    }
    proof {
        lemma_chosen(
            report.findings@.len(),
            |i: int| leaves_open(report.findings@[i].status@),
        );
        assert forall|k: int| 0 <= k < output.open_findings@.len() implies
            #[trigger] output.open_findings@[k] < report.findings@.len() by {
            assert(ints(output.open_findings@)[k] == output.open_findings@[k]);
        }
    }
    let mut out = one(title);
    extend(&mut out, brief);
    extend(&mut out, write_claim(&output.claim));
    extend(&mut out, write_transcript(transcript));
    extend(&mut out, write_worktree(output.head_state, report.worktree_dirty));
    extend(&mut out, write_findings(report, &output.open_findings));
    extend(&mut out, write_gates(report));
    extend(&mut out, write_assessment(output.abandoned, report.next_action.as_str()));
    out
}

/// Every finding is told as open unless it was resolved, its risk was accepted or it became
/// obsolete.
pub proof fn unsettled_findings_are_told(
    output: RescueOutput,
    ctx: Ctx,
    state: ChangeState,
    timing: ClaimTiming,
    age_seconds: u64,
    report: RescueReport,
    i: usize,
)
    requires
        tells_rescue(output, ctx, state, timing, age_seconds, report),
        i < report.findings@.len(),
    ensures
        output.open_findings@.contains(i) <==> !(report.findings@[i as int].status@ == "resolved"@
            || report.findings@[i as int].status@ == "acceptedrisk"@
            || report.findings@[i as int].status@ == "obsolete"@),
{
    let wanted = |i: int| leaves_open(report.findings@[i].status@);
    lemma_chosen(report.findings@.len(), wanted);
    lemma_ints_contain(output.open_findings@, i);
    assert(chosen(report.findings@.len(), wanted).contains(i as int) <==> wanted(i as int));
}

/// A change is told as abandoned exactly where somebody else claims it and that claim went stale or
/// ran out; its latest brief is told; and its branch stands where its report says.
pub proof fn rescues_tell_what_stands(
    output: RescueOutput,
    ctx: Ctx,
    state: ChangeState,
    timing: ClaimTiming,
    age_seconds: u64,
    report: RescueReport,
)
    requires
        tells_rescue(output, ctx, state, timing, age_seconds, report),
    ensures
        output.abandoned <==> state.claim is Some && (timing.stale || timing.expired) && !(
        ctx.actor@ == state.claim->0.owner.actor@ && ctx.harness is Some && ctx.harness->0@
            == state.claim->0.owner.harness@ && ctx.session is Some && ctx.session->0@
            == state.claim->0.owner.session@),
        output.brief is Some <==> state.briefs@.len() > 0,
        output.brief matches Some(k) ==> k + 1 == state.briefs@.len(),
        output.head_state == HeadState::NoPatchset <==> !report.has_patchset,
        report.has_patchset ==> (output.head_state == HeadState::Matches
            <==> report.head_matches_latest_patchset),
        output.claim is Some == state.claim is Some,
        output.claim matches Some(told) ==> told.owner.actor@ == state.claim->0.owner.actor@
            && told.active == timing.active && told.stale == timing.stale && told.expired
            == timing.expired && told.age_seconds == age_seconds,
{
    assert(state.briefs.len() == state.briefs@.len());
}

/// The transcript of whoever was rescued from is looked for before that of whoever holds the claim,
/// and none without a session.
pub proof fn transcripts_are_of_the_rescued(
    rescued: &Option<ClaimIdentity>,
    state: &ChangeState,
    further: &Vec<String>,
    r: Option<ClaimIdentity>,
)
    requires
        finds_transcript(rescued, state, further, r),
    ensures
        r matches Some(owner) ==> !blank(owner.session@) && (match *rescued {
            Some(from) => owner.actor@ == from.actor@ && owner.session@ == from.session@
                && owner.harness@ == from.harness@,
            None => state.claim is Some && owner.actor@ == state.claim->0.owner.actor@
                && owner.session@ == state.claim->0.owner.session@,
        }),
        *rescued matches Some(from) ==> (!blank(from.session@) && among(further@, from.harness@)
            ==> r is Some),
        rescued is None && state.claim is None ==> r is None,
{
}

/// A transcript is shown exactly where its identity is known and it was found.
pub proof fn found_transcripts_are_shown(
    identity_known: bool,
    found: bool,
    r: Option<&'static str>,
)
    requires
        lacks_transcript(identity_known, found, r),
    ensures
        r is None <==> identity_known && found,
{
}

} // verus!
