//! Findings, as they are read on a terminal and by other tools.
use crate::event::{Anchor, Side};
use crate::json::{
    empty_object, json_view, json_views, list_value, no_members, put_member, put_text, text_view,
    whole_value, JsonView,
};
use crate::model::{
    severity_label, severity_label_text, verdict_label, verdict_label_text, Severity,
};
use crate::order::{chosen, lemma_chosen};
use crate::review::ReviewVerdict;
use crate::state::{ChangeState, FindingState, VerdictState};
use crate::text::{
    blank, decimal, decimal_of, is_blank, lines, lines_of, opt_view, strip, stripped_end,
    stripped_start, trim, trimmed, views,
};
use crate::time::{rfc3339_text, write_rfc3339};
use vstd::prelude::*;

verus! {

/// The format of findings that are written as JSON.
pub const FINDINGS_SCHEMA: &'static str = "arc-findings/2";

/// In which form findings are read.
#[derive(Clone, Copy, Debug, PartialEq, Eq, Structural)]
pub enum FindingsFormat {
    Text,
    Json,
    Sarif,
}

/// The name of a side.
pub open spec fn side_text(side: Side) -> Seq<char> {
    match side {
        Side::Base => "base"@,
        Side::Head => "head"@,
    }
}

/// Where an anchor points: its file, its lines where it has some, and the side they are numbered
/// on. A range that runs backwards is not a range, so only the line it starts from is shown.
pub open spec fn location_text(anchor: Anchor) -> Seq<char> {
    let path = if blank(anchor.path@) {
        "(no path)"@
    } else {
        anchor.path@
    };
    let place = match anchor.line_start {
        Some(start) => match anchor.line_end {
            Some(end) => if end > start {
                path + ":"@ + decimal_of(start as nat) + "-"@ + decimal_of(end as nat)
            } else {
                path + ":"@ + decimal_of(start as nat)
            },
            None => path + ":"@ + decimal_of(start as nat),
        },
        None => path,
    };
    place + " ("@ + side_text(anchor.side) + ")"@
}

/// Where an anchor points.
pub fn anchor_location(anchor: &Anchor) -> (r: String)
    ensures
        r@ == location_text(*anchor),
{
    let mut out = String::new();
    if is_blank(anchor.path.as_str()) {
        out.append("(no path)");
    } else {
        out.append(anchor.path.as_str());
    }
    let ghost path = out@;
    if let Some(start) = anchor.line_start {
        out.append(":");
        out.append(decimal(start as u64).as_str());
        if let Some(end) = anchor.line_end {
            if end > start {
                out.append("-");
                out.append(decimal(end as u64).as_str());
            }
        }
    }
    out.append(" (");
    match anchor.side {
        Side::Base => out.append("base"),
        Side::Head => out.append("head"),
    }
    out.append(")");
    out
}

/// The marks of a finding: whether it blocks, and how much it matters.
pub open spec fn marks_text(blocking: bool, severity: Severity) -> Seq<char> {
    "["@ + (if blocking {
        "blocking/"@
    } else {
        ""@
    }) + severity_label_text(severity) + "] "@
}

fn append_marks(out: &mut String, blocking: bool, severity: Severity)
    ensures
        final(out)@ == old(out)@ + marks_text(blocking, severity),
{
    let ghost before = out@;
    out.append("[");
    if blocking {
        out.append("blocking/");
    } else {
        out.append("");
    }
    out.append(severity_label(severity));
    out.append("] ");
    assert(out@ =~= before + marks_text(blocking, severity));
}

/// Some lines of a body, each behind a bar.
pub open spec fn quoted(body: Seq<Seq<char>>) -> Seq<char>
    decreases body.len(),
{
    if body.len() == 0 {
        Seq::empty()
    } else {
        quoted(body.drop_last()) + "  | "@ + body.last() + "\n"@
    }
}

/// The body of a finding as it is listed: without the blank lines around it, and not at all where
/// it says nothing.
pub open spec fn body_text(body: Option<Seq<char>>) -> Seq<char> {
    match body {
        Some(text) => {
            let inner = stripped_end(stripped_start(text, '\n'), '\n');
            if blank(inner) {
                Seq::empty()
            } else {
                quoted(lines_of(inner))
            }
        },
        None => Seq::empty(),
    }
}

fn append_body(out: &mut String, body: &Option<String>)
    ensures
        final(out)@ == old(out)@ + body_text(opt_view(*body)),
{
    let ghost before = out@;
    if let Some(text) = body {
        let inner = strip(text.as_str(), '\n');
        if !is_blank(inner.as_str()) {
            let all = lines(inner.as_str());
            let ghost texts = views(all@);
            assert(texts.take(0) =~= Seq::empty());
            assert(before + Seq::<char>::empty() =~= before);
            for i in 0..all.len()
                invariant
                    texts == views(all@),
                    out@ == before + quoted(texts.take(i as int)),
            {
                assert(texts.take(i + 1).drop_last() =~= texts.take(i as int));
                assert(texts.take(i + 1).last() == all@[i as int]@);
                out.append("  | ");
                out.append(all[i].as_str());
                out.append("\n");
                assert(out@ =~= before + quoted(texts.take(i + 1)));
            }
            assert(texts.take(texts.len() as int) =~= texts);
            return;
        }
    }
    assert(before + Seq::<char>::empty() =~= before);
}

/// The status of a finding: open where nothing settled it.
pub open spec fn status_of(finding: FindingState) -> Seq<char> {
    match finding.status {
        Some(status) => status@,
        None => "open"@,
    }
}

/// The line on the patchset that a finding is against.
pub open spec fn against_line(finding: FindingState) -> Seq<char> {
    match finding.patchset_id {
        Some(id) => "  against: "@ + id@ + "\n"@,
        None => Seq::empty(),
    }
}

/// The line on the place that a finding is about.
pub open spec fn place_line(finding: FindingState) -> Seq<char> {
    match finding.anchor {
        Some(anchor) => "  at: "@ + location_text(anchor) + "\n"@,
        None => Seq::empty(),
    }
}

/// One finding as it is listed.
pub open spec fn finding_text(finding: FindingState) -> Seq<char> {
    finding.finding_id@ + " "@ + marks_text(finding.blocking, finding.severity) + finding.summary@
        + " — "@ + status_of(finding) + "\n"@ + against_line(finding) + place_line(finding)
        + body_text(opt_view(finding.body))
}

fn against(finding: &FindingState) -> (r: String)
    ensures
        r@ == against_line(*finding),
{
    match &finding.patchset_id {
        Some(id) => {
            let mut out = "  against: ".to_string();
            out.append(id.as_str());
            out.append("\n");
            out
        },
        None => String::new(),
    }
}

fn place(finding: &FindingState) -> (r: String)
    ensures
        r@ == place_line(*finding),
{
    match &finding.anchor {
        Some(anchor) => {
            let mut out = "  at: ".to_string();
            out.append(anchor_location(anchor).as_str());
            out.append("\n");
            out
        },
        None => String::new(),
    }
}

fn listed_finding(finding: &FindingState) -> (r: String)
    ensures
        r@ == finding_text(*finding),
{
    let mut out = finding.finding_id.clone();
    out.append(" ");
    append_marks(&mut out, finding.blocking, finding.severity);
    out.append(finding.summary.as_str());
    out.append(" — ");
    match &finding.status {
        Some(status) => out.append(status.as_str()),
        None => out.append("open"),
    }
    out.append("\n");
    out.append(against(finding).as_str());
    out.append(place(finding).as_str());
    append_body(&mut out, &finding.body);
    out
}

/// Some findings as they are listed.
pub open spec fn list_text(findings: Seq<FindingState>) -> Seq<char>
    decreases findings.len(),
{
    if findings.len() == 0 {
        Seq::empty()
    } else {
        list_text(findings.drop_last()) + finding_text(findings.last())
    }
}

/// The findings of a change as they are listed: those raised before its integration, with a word
/// on the others, or those that an audit raised after it.
pub open spec fn findings_text(state: ChangeState, reference: Seq<char>, audit: bool) -> Seq<char> {
    if audit {
        list_text(state.audit_findings@)
    } else if state.audit_findings@.len() > 0 {
        list_text(state.findings@) + "("@ + decimal_of(state.audit_findings@.len())
            + " audit finding(s) raised after integration; arc findings "@ + reference
            + " --audit)\n"@
    } else {
        list_text(state.findings@)
    }
}

/// The findings of a change as they are listed.
pub fn findings(state: &ChangeState, reference: &str, audit: bool) -> (r: String)
    requires
        state.audit_findings@.len() <= u64::MAX,
    ensures
        r@ == findings_text(*state, reference@, audit),
{
    let selected = if audit {
        &state.audit_findings
    } else {
        &state.findings
    };
    let mut out = String::new();
    assert(selected@.take(0) =~= Seq::empty());
    for i in 0..selected.len()
        invariant
            out@ == list_text(selected@.take(i as int)),
    {
        assert(selected@.take(i + 1).drop_last() =~= selected@.take(i as int));
        out.append(listed_finding(&selected[i]).as_str());
    }
    assert(selected@.take(selected@.len() as int) =~= selected@);
    if !audit && state.audit_findings.len() > 0 {
        out.append("(");
        out.append(decimal(state.audit_findings.len() as u64).as_str());
        out.append(" audit finding(s) raised after integration; arc findings ");
        out.append(reference);
        out.append(" --audit)\n");
    }
    out
}

/// The SARIF level of a severity.
pub open spec fn sarif_level_text(severity: Severity) -> Seq<char> {
    match severity {
        Severity::Critical => "error"@,
        Severity::Major => "error"@,
        Severity::Minor => "warning"@,
        Severity::Note => "note"@,
    }
}

/// The SARIF level of a finding.
pub fn sarif_level(finding: &FindingState) -> (r: &'static str)
    ensures
        r@ == sarif_level_text(finding.severity),
{
    match finding.severity {
        Severity::Critical => "error",
        Severity::Major => "error",
        Severity::Minor => "warning",
        Severity::Note => "note",
    }
}

/// What one finding says in SARIF.
pub struct SarifResult {
    /// The position of the finding.
    pub finding: usize,
    pub level: &'static str,
    pub message: String,
    /// The first and the last line of the region, where the finding has an anchor.
    pub region: Option<(u32, u32)>,
}

/// The message of a finding: its summary, and its body behind a blank line where it has one.
pub open spec fn sarif_message_text(finding: FindingState) -> Seq<char> {
    match finding.body {
        Some(body) => if trimmed(body@).len() > 0 {
            finding.summary@ + "\n\n"@ + trimmed(body@)
        } else {
            finding.summary@
        },
        None => finding.summary@,
    }
}

/// The region of an anchor: a range that runs backwards collapses to its start.
pub open spec fn sarif_region(anchor: Anchor) -> (u32, u32) {
    let start = match anchor.line_start {
        Some(start) => start,
        None => 1,
    };
    let end = match anchor.line_end {
        Some(end) => if end >= start {
            end
        } else {
            start
        },
        None => start,
    };
    (start, end)
}

/// Whether `result` says in SARIF what the finding at `k` says.
pub open spec fn says_in_sarif(
    result: SarifResult,
    findings: Seq<FindingState>,
    k: int,
) -> bool {
    &&& result.finding == k
    &&& result.level@ == sarif_level_text(findings[k].severity)
    &&& result.message@ == sarif_message_text(findings[k])
    &&& result.region == match findings[k].anchor {
        Some(anchor) => Some(sarif_region(anchor)),
        None => None,
    }
}

fn sarif_result(findings: &Vec<FindingState>, k: usize) -> (r: SarifResult)
    requires
        k < findings@.len(),
    ensures
        says_in_sarif(r, findings@, k as int),
{
    let finding = &findings[k];
    let mut message = finding.summary.clone();
    if let Some(body) = &finding.body {
        let body = trim(body.as_str());
        if !body.as_str().is_empty() {
            message.append("\n\n");
            message.append(body.as_str());
        }
    }
    let region = match &finding.anchor {
        Some(anchor) => {
            let start: u32 = match anchor.line_start {
                Some(start) => start,
                None => 1,
            };
            let end: u32 = match anchor.line_end {
                Some(end) => if end >= start {
                    end
                } else {
                    start
                },
                None => start,
            };
            Some((start, end))
        },
        None => None,
    };
    SarifResult { finding: k, level: sarif_level(finding), message, region }
}

/// Whether `r` are the open findings in SARIF.
pub open spec fn are_sarif_results(
    findings: &Vec<FindingState>,
    r: Vec<SarifResult>,
) -> bool {
    &&& Seq::new(r@.len(), |i: int| r@[i].finding as int) == chosen(
            findings@.len(),
            |i: int| findings@[i].status is None,
        )
    &&& forall|i: int|
            0 <= i < r@.len() ==> says_in_sarif(
                #[trigger] r@[i],
                findings@,
                r@[i].finding as int,
            )
}

/// The open findings in SARIF, in their order.
pub fn sarif_results(findings: &Vec<FindingState>) -> (r: Vec<SarifResult>)
    ensures
        are_sarif_results(findings, r),
{
    let mut out: Vec<SarifResult> = Vec::new();
    assert(Seq::new(out@.len(), |i: int| out@[i].finding as int) =~= Seq::empty());
    for k in 0..findings.len()
        invariant
            Seq::new(out@.len(), |i: int| out@[i].finding as int) == chosen(
                k as nat,
                |i: int| findings@[i].status is None,
            ),
            forall|i: int|
                0 <= i < out@.len() ==> says_in_sarif(
                    #[trigger] out@[i],
                    findings@,
                    out@[i].finding as int,
                ),
    {
        let ghost before = Seq::new(out@.len(), |i: int| out@[i].finding as int);
        if findings[k].status.is_none() {
            out.push(sarif_result(findings, k));
            assert(Seq::new(out@.len(), |i: int| out@[i].finding as int) =~= before.push(k as int));
        }
    }
    out
}

/// Who gave a verdict, and for whom.
pub open spec fn judge_text(verdict: VerdictState) -> Seq<char> {
    match verdict.on_behalf_of {
        Some(subject) => verdict.actor@ + " (for "@ + subject@ + ")"@,
        None => verdict.actor@,
    }
}

/// What a verdict says, on a line of its own.
pub open spec fn remark_line(verdict: VerdictState) -> Seq<char> {
    match verdict.body {
        Some(body) => "  "@ + body@ + "\n"@,
        None => Seq::empty(),
    }
}

/// The brief that the patchset of a verdict was made from, where it has one.
pub open spec fn brief_line(row: ReviewVerdict, state: ChangeState) -> Seq<char> {
    match row.patchset {
        Some(p) => {
            let patchset = state.patchsets@[p as int];
            if patchset.brief_ref is Some && patchset.brief_version is Some {
                "  - brief: v"@ + decimal_of(patchset.brief_version->0 as nat) + " (`"@
                    + patchset.brief_ref->0@ + "`)\n"@
            } else {
                Seq::empty()
            }
        },
        None => Seq::empty(),
    }
}

/// One finding as a review lists it.
pub open spec fn row_finding(finding: FindingState) -> Seq<char> {
    "  - `"@ + finding.finding_id@ + "` "@ + marks_text(finding.blocking, finding.severity)
        + finding.summary@ + "\n"@
}

/// The findings that a verdict recorded, as a review lists them.
pub open spec fn row_findings(positions: Seq<usize>, state: ChangeState) -> Seq<char>
    decreases positions.len(),
{
    if positions.len() == 0 {
        Seq::empty()
    } else {
        row_findings(positions.drop_last(), state) + row_finding(
            state.findings@[positions.last() as int],
        )
    }
}

/// One verdict as a review lists it.
pub open spec fn verdict_text(row: ReviewVerdict, state: ChangeState) -> Seq<char> {
    let verdict = state.verdicts@[row.verdict as int];
    "- "@ + verdict_label_text(verdict.verdict) + " on `"@ + verdict.patchset_id@ + "` by "@
        + judge_text(verdict) + " at "@ + rfc3339_text(
        verdict.created_at.secs(),
        verdict.created_at.nanos(),
    ) + " — "@ + (if row.valid_for_current_head {
        "valid for current head\n"@
    } else {
        "STALE for current head\n"@
    }) + remark_line(verdict) + brief_line(row, state) + row_findings(row.findings@, state)
}

fn judge(verdict: &VerdictState) -> (r: String)
    ensures
        r@ == judge_text(*verdict),
{
    let mut out = verdict.actor.clone();
    if let Some(subject) = &verdict.on_behalf_of {
        out.append(" (for ");
        out.append(subject.as_str());
        out.append(")");
    }
    out
}

fn remark(verdict: &VerdictState) -> (r: String)
    ensures
        r@ == remark_line(*verdict),
{
    match &verdict.body {
        Some(body) => {
            let mut out = "  ".to_string();
            out.append(body.as_str());
            out.append("\n");
            out
        },
        None => String::new(),
    }
}

fn made_from(row: &ReviewVerdict, state: &ChangeState) -> (r: String)
    requires
        row.patchset is Some ==> row.patchset->0 < state.patchsets@.len(),
    ensures
        r@ == brief_line(*row, *state),
{
    if let Some(p) = row.patchset {
        let patchset = &state.patchsets[p];
        if let Some(brief_ref) = &patchset.brief_ref {
            if let Some(version) = patchset.brief_version {
                let mut out = "  - brief: v".to_string();
                out.append(decimal(version as u64).as_str());
                out.append(" (`");
                out.append(brief_ref.as_str());
                out.append("`)\n");
                return out;
            }
        }
    }
    String::new()
}

fn recorded_finding(finding: &FindingState) -> (r: String)
    ensures
        r@ == row_finding(*finding),
{
    let mut out = "  - `".to_string();
    out.append(finding.finding_id.as_str());
    out.append("` ");
    append_marks(&mut out, finding.blocking, finding.severity);
    out.append(finding.summary.as_str());
    out.append("\n");
    out
}

fn recorded_findings(positions: &Vec<usize>, state: &ChangeState) -> (r: String)
    requires
        forall|i: int|
            0 <= i < positions@.len() ==> #[trigger] positions@[i] < state.findings@.len(),
    ensures
        r@ == row_findings(positions@, *state),
{
    let mut out = String::new();
    assert(positions@.take(0) =~= Seq::empty());
    for i in 0..positions.len()
        invariant
            forall|k: int|
                0 <= k < positions@.len() ==> #[trigger] positions@[k] < state.findings@.len(),
            out@ == row_findings(positions@.take(i as int), *state),
    {
        assert(positions@.take(i + 1).drop_last() =~= positions@.take(i as int));
        assert(positions@[i as int] < state.findings@.len());
        out.append(recorded_finding(&state.findings[positions[i]]).as_str());
    }
    assert(positions@.take(positions@.len() as int) =~= positions@);
    out
}

/// One verdict as a review lists it.
pub fn review_verdict_text(row: &ReviewVerdict, state: &ChangeState) -> (r: String)
    requires
        row_of(*row, *state),
    ensures
        r@ == verdict_text(*row, *state),
{
    let verdict = &state.verdicts[row.verdict];
    let mut out = "- ".to_string();
    out.append(verdict_label(verdict.verdict));
    out.append(" on `");
    out.append(verdict.patchset_id.as_str());
    out.append("` by ");
    out.append(judge(verdict).as_str());
    out.append(" at ");
    out.append(write_rfc3339(verdict.created_at).as_str());
    out.append(" — ");
    if row.valid_for_current_head {
        out.append("valid for current head\n");
    } else {
        out.append("STALE for current head\n");
    }
    out.append(remark(verdict).as_str());
    out.append(made_from(row, state).as_str());
    out.append(recorded_findings(&row.findings, state).as_str());
    out
}

/// A finding that nothing settled, as status tells it.
pub struct OpenFinding {
    pub id: String,
    pub blocking: bool,
    pub severity: Severity,
    pub summary: String,
}

/// An open finding as a review lists it.
pub open spec fn open_finding_line(finding: OpenFinding) -> Seq<char> {
    "- `"@ + finding.id@ + "` "@ + marks_text(finding.blocking, finding.severity) + finding.summary@
        + "\n"@
}

/// Open findings as a review lists them.
pub open spec fn open_finding_lines(findings: Seq<OpenFinding>) -> Seq<char>
    decreases findings.len(),
{
    if findings.len() == 0 {
        Seq::empty()
    } else {
        open_finding_lines(findings.drop_last()) + open_finding_line(findings.last())
    }
}

/// Some verdicts as a review lists them.
pub open spec fn verdict_texts(rows: Seq<ReviewVerdict>, state: ChangeState) -> Seq<char>
    decreases rows.len(),
{
    if rows.len() == 0 {
        Seq::empty()
    } else {
        verdict_texts(rows.drop_last(), state) + verdict_text(rows.last(), state)
    }
}

/// Whether a row shows a verdict of a change.
pub open spec fn row_of(row: ReviewVerdict, state: ChangeState) -> bool {
    &&& row.verdict < state.verdicts@.len()
    &&& row.patchset is Some ==> row.patchset->0 < state.patchsets@.len()
    &&& forall|i: int|
        0 <= i < row.findings@.len() ==> #[trigger] row.findings@[i] < state.findings@.len()
}

/// The whole page of a review: the verdicts, the open findings, and what is needed.
pub open spec fn page_text(
    state: ChangeState,
    rows: Seq<ReviewVerdict>,
    open: Seq<OpenFinding>,
    valid_approval: bool,
    next_action: Seq<char>,
) -> Seq<char> {
    "# Review: "@ + state.change_id@ + "\n\n## Verdict history\n\n"@ + (if rows.len() == 0 {
        "No verdicts recorded.\n"@
    } else {
        verdict_texts(rows, state)
    }) + "\n## Open findings\n\n"@ + (if open.len() == 0 {
        "No open findings.\n"@
    } else {
        open_finding_lines(open)
    }) + "\n## Review needed\n\nValid approval for current head: "@ + (if valid_approval {
        "yes"@
    } else {
        "no"@
    }) + "\nNext action: "@ + next_action + "\n"@
}

fn write_open_finding(finding: &OpenFinding) -> (r: String)
    ensures
        r@ == open_finding_line(*finding),
{
    let mut out = "- `".to_string();
    out.append(finding.id.as_str());
    out.append("` ");
    append_marks(&mut out, finding.blocking, finding.severity);
    out.append(finding.summary.as_str());
    out.append("\n");
    out
}

fn write_open_findings(findings: &Vec<OpenFinding>) -> (r: String)
    ensures
        r@ == open_finding_lines(findings@),
{
    let mut out = String::new();
    assert(findings@.take(0) =~= Seq::empty());
    for i in 0..findings.len()
        invariant
            out@ == open_finding_lines(findings@.take(i as int)),
    {
        assert(findings@.take(i + 1).drop_last() =~= findings@.take(i as int));
        out.append(write_open_finding(&findings[i]).as_str());
    }
    assert(findings@.take(findings@.len() as int) =~= findings@);
    out
}

fn write_verdicts(rows: &Vec<ReviewVerdict>, state: &ChangeState) -> (r: String)
    requires
        forall|i: int| 0 <= i < rows@.len() ==> row_of(#[trigger] rows@[i], *state),
    ensures
        r@ == verdict_texts(rows@, *state),
{
    let mut out = String::new();
    assert(rows@.take(0) =~= Seq::empty());
    for i in 0..rows.len()
        invariant
            forall|k: int| 0 <= k < rows@.len() ==> row_of(#[trigger] rows@[k], *state),
            out@ == verdict_texts(rows@.take(i as int), *state),
    {
        assert(rows@.take(i + 1).drop_last() =~= rows@.take(i as int));
        assert(row_of(rows@[i as int], *state));
        out.append(review_verdict_text(&rows[i], state).as_str());
    }
    assert(rows@.take(rows@.len() as int) =~= rows@);
    out
}

/// The whole page of a review.
pub fn review_page(
    state: &ChangeState,
    rows: &Vec<ReviewVerdict>,
    open: &Vec<OpenFinding>,
    valid_approval: bool,
    next_action: &str,
) -> (r: String)
    requires
        forall|i: int| 0 <= i < rows@.len() ==> row_of(#[trigger] rows@[i], *state),
    ensures
        r@ == page_text(*state, rows@, open@, valid_approval, next_action@),
{
    let verdicts = if rows.len() == 0 {
        "No verdicts recorded.\n".to_string()
    } else {
        write_verdicts(rows, state)
    };
    let findings = if open.len() == 0 {
        "No open findings.\n".to_string()
    } else {
        write_open_findings(open)
    };
    let mut out = "# Review: ".to_string();
    out.append(state.change_id.as_str());
    out.append("\n\n## Verdict history\n\n");
    out.append(verdicts.as_str());
    out.append("\n## Open findings\n\n");
    out.append(findings.as_str());
    out.append("\n## Review needed\n\nValid approval for current head: ");
    out.append(if valid_approval {
        "yes"
    } else {
        "no"
    });
    out.append("\nNext action: ");
    out.append(next_action);
    out.append("\n");
    out
}

/// An object with one member.
pub open spec fn single(key: Seq<char>, member: JsonView) -> JsonView {
    JsonView::Object { members: no_members().insert(key, member) }
}

/// A list of one value.
pub open spec fn list_of_one(item: JsonView) -> JsonView {
    JsonView::List { items: seq![item] }
}

/// The place of a region in SARIF.
pub open spec fn sarif_location(path: Seq<char>, region: (u32, u32)) -> JsonView {
    single(
        "physicalLocation"@,
        JsonView::Object {
            members: no_members().insert("artifactLocation"@, single("uri"@, text_view(path))).insert(
                "region"@,
                JsonView::Object {
                    members: no_members().insert(
                        "startLine"@,
                        JsonView::Whole { value: region.0 as int },
                    ).insert("endLine"@, JsonView::Whole { value: region.1 as int }),
                },
            ),
        },
    )
}

/// One finding in SARIF.
pub open spec fn sarif_object(finding: FindingState) -> JsonView {
    let members = no_members().insert("ruleId"@, text_view(finding.finding_id@)).insert(
        "level"@,
        text_view(sarif_level_text(finding.severity)),
    ).insert("message"@, single("text"@, text_view(sarif_message_text(finding)))).insert(
        "properties"@,
        single("summary"@, text_view(finding.summary@)),
    );
    JsonView::Object {
        members: match finding.anchor {
            Some(anchor) => members.insert(
                "locations"@,
                list_of_one(sarif_location(anchor.path@, sarif_region(anchor))),
            ),
            None => members,
        },
    }
}

/// The findings among the first `n` that are open, in SARIF.
pub open spec fn sarif_objects(findings: Seq<FindingState>, n: int) -> Seq<JsonView>
    decreases n,
{
    if n <= 0 {
        Seq::empty()
    } else if findings[n - 1].status is None {
        sarif_objects(findings, n - 1).push(sarif_object(findings[n - 1]))
    } else {
        sarif_objects(findings, n - 1)
    }
}

/// The open findings as one run of a tool in SARIF.
pub open spec fn sarif_document(findings: Seq<FindingState>) -> JsonView {
    let results = JsonView::List { items: sarif_objects(findings, findings.len() as int) };
    let run = JsonView::Object {
        members: no_members().insert(
            "tool"@,
            single("driver"@, single("name"@, text_view("arc"@))),
        ).insert("results"@, results),
    };
    JsonView::Object {
        members: no_members().insert("version"@, text_view("2.1.0"@)).insert(
            "$schema"@,
            text_view("https://json.schemastore.org/sarif-2.1.0.json"@),
        ).insert("runs"@, list_of_one(run)),
    }
}

fn write_single(key: &str, member: serde_json::Value) -> (r: serde_json::Value)
    ensures
        json_view(r) == single(key@, json_view(member)),
{
    let mut out = empty_object();
    put_member(&mut out, key, member);
    out
}

fn write_list_of_one(item: serde_json::Value) -> (r: serde_json::Value)
    ensures
        json_view(r) == list_of_one(json_view(item)),
{
    let mut items: Vec<serde_json::Value> = Vec::new();
    items.push(item);
    assert(json_views(items@) =~= seq![json_view(item)]);
    list_value(items)
}

fn write_text_under(key: &str, text: &str) -> (r: serde_json::Value)
    ensures
        json_view(r) == single(key@, text_view(text@)),
{
    let mut out = empty_object();
    put_text(&mut out, key, text);
    out
}

fn write_sarif_location(path: &str, region: (u32, u32)) -> (r: serde_json::Value)
    ensures
        json_view(r) == sarif_location(path@, region),
{
    let mut lines = empty_object();
    put_member(&mut lines, "startLine", whole_value(region.0 as i64));
    put_member(&mut lines, "endLine", whole_value(region.1 as i64));
    let mut place = empty_object();
    put_member(&mut place, "artifactLocation", write_text_under("uri", path));
    put_member(&mut place, "region", lines);
    write_single("physicalLocation", place)
}

fn write_sarif_object(findings: &Vec<FindingState>, k: usize) -> (r: serde_json::Value)
    requires
        k < findings@.len(),
    ensures
        json_view(r) == sarif_object(findings@[k as int]),
{
    let finding = &findings[k];
    let result = sarif_result(findings, k);
    let mut out = empty_object();
    put_text(&mut out, "ruleId", finding.finding_id.as_str());
    put_text(&mut out, "level", result.level);
    put_member(&mut out, "message", write_text_under("text", result.message.as_str()));
    put_member(&mut out, "properties", write_text_under("summary", finding.summary.as_str()));
    if let Some(anchor) = &finding.anchor {
        if let Some(region) = result.region {
            let location = write_sarif_location(anchor.path.as_str(), region);
            put_member(&mut out, "locations", write_list_of_one(location));
        }
    }
    out
}

/// The open findings in SARIF: one run of a tool, a result for each, and its place where it has
/// one.
pub fn sarif(findings: &Vec<FindingState>) -> (r: serde_json::Value)
    ensures
        json_view(r) == sarif_document(findings@),
{
    let mut results: Vec<serde_json::Value> = Vec::new();
    for k in 0..findings.len()
        invariant
            json_views(results@) == sarif_objects(findings@, k as int),
    {
        if findings[k].status.is_none() {
            let ghost earlier = results@;
            let item = write_sarif_object(findings, k);
            results.push(item);
            assert(json_views(results@) =~= json_views(earlier).push(json_view(item)));
        }
    }
    let mut run = empty_object();
    put_member(&mut run, "tool", write_single("driver", write_text_under("name", "arc")));
    put_member(&mut run, "results", list_value(results));
    let mut out = empty_object();
    put_text(&mut out, "version", "2.1.0");
    put_text(&mut out, "$schema", "https://json.schemastore.org/sarif-2.1.0.json");
    put_member(&mut out, "runs", write_list_of_one(run));
    out
}

/// Every open finding is told in SARIF, and none that was settled.
pub proof fn open_findings_are_told_in_sarif(
    findings: &Vec<FindingState>,
    i: int,
    r: Vec<SarifResult>,
)
    requires
        are_sarif_results(findings, r),
        0 <= i < findings@.len(),
    ensures
        findings@[i].status is None <==> exists|k: int|
            0 <= k < r@.len() && (#[trigger] r@[k]).finding == i,
{
    let wanted = |i: int| findings@[i].status is None;
    lemma_chosen(findings@.len(), wanted);
    let told = Seq::new(r@.len(), |i: int| r@[i].finding as int);
    assert(told =~= chosen(findings@.len(), wanted));
    assert(told.contains(i) <==> wanted(i));
    if told.contains(i) {
        let k = choose|k: int| 0 <= k < told.len() && told[k] == i;
        assert(r@[k].finding == i);
    }
    if exists|k: int| 0 <= k < r@.len() && (#[trigger] r@[k]).finding == i {
        let k = choose|k: int| 0 <= k < r@.len() && (#[trigger] r@[k]).finding == i;
        assert(told[k] == i);
    }
}

/// A region never runs backwards, and starts where its anchor does.
pub proof fn regions_run_forward(anchor: Anchor)
    ensures
        sarif_region(anchor).0 <= sarif_region(anchor).1,
        anchor.line_start matches Some(start) ==> sarif_region(anchor).0 == start,
        anchor.line_start is Some && anchor.line_end is Some && anchor.line_start->0
            <= anchor.line_end->0 ==> sarif_region(anchor).1 == anchor.line_end->0,
        anchor.line_start is None ==> sarif_region(anchor).0 == 1,
{
}

/// What matters most is an error: of two severities the graver has no lower a level.
pub proof fn graver_findings_have_graver_levels(severity: Severity)
    ensures
        sarif_level_text(severity) == "error"@ <==> severity == Severity::Critical || severity
            == Severity::Major,
        sarif_level_text(severity) == "note"@ <==> severity == Severity::Note,
{
    reveal_strlit("error");
    reveal_strlit("warning");
    reveal_strlit("note");
    assert("error"@.len() == 5 && "warning"@.len() == 7 && "note"@.len() == 4);
}

/// A finding is open exactly where nothing settled it, and otherwise has the status that did.
pub proof fn unsettled_findings_are_open(finding: FindingState)
    ensures
        finding.status is None ==> status_of(finding) == "open"@,
        finding.status matches Some(status) ==> status_of(finding) == status@,
{
}

} // verus!
