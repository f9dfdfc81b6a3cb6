//! Asking for a verification: which flags go together, which probe or command is meant, which
//! gates have to run, and what the run comes to.
use crate::event::{Falsification, Payload, VerificationRunGate};
use crate::model::{ProbePhase, VerifyResult};
use crate::order::{
    chosen, count, ints, lemma_chosen, lemma_count_bounded, lemma_ints_contain,
};
use crate::state::{Brief, ChangeState};
use crate::text::{opt_view, same, trim, trimmed};
use vstd::prelude::*;

verus! {

/// What was asked of a verification.
pub struct VerifyArgs {
    pub all: bool,
    pub parallel: bool,
    pub skip_green: bool,
    pub gate: Option<String>,
    pub command: Option<String>,
    pub probe: Option<String>,
    pub brief_version: Option<usize>,
    pub probe_phase: Option<ProbePhase>,
    pub attest: bool,
    pub result: Option<VerifyResult>,
    pub tested_revision: Option<String>,
    pub execution_host: Option<String>,
    pub runner: Option<String>,
    pub note: Option<String>,
    pub waive_dirty: Option<String>,
    pub falsified_by: Option<String>,
    pub predicted: Option<String>,
    pub against: Option<String>,
}

/// Why a verification is refused before anything runs.
#[derive(Clone, Copy, Debug, PartialEq, Eq, Structural)]
pub enum VerifyRefusal {
    AllTakesNoSelection,
    AllTakesNoFalsification,
    EmptyPrediction,
    FalsificationNeedsPrediction,
    PredictionNeedsFalsification,
    AgainstTakesNoSelection,
    ParallelNeedsAll,
    ParallelTakesNoWaiver,
    SkipGreenNeedsAll,
    ProbeExcludesCommand,
    ProbeOptionsNeedProbe,
    AttestNeedsResult,
    ResultNeedsAttest,
    AttestNeedsRevision,
    AttestNeedsHost,
    EmptyHost,
    AttestNeedsRunner,
    EmptyRunner,
    AttestOptionsNeedAttest,
}

/// Which kind of verification is asked for.
#[derive(Clone, Copy, Debug, PartialEq, Eq, Structural)]
pub enum VerifyKind {
    Probe,
    Against,
    All,
    Command,
}

/// What a verification runs with, once its flags are found to go together.
pub struct VerifyPlan {
    pub kind: VerifyKind,
    /// The earlier failure and the reason it was expected.
    pub falsified_by: Option<(String, String)>,
    pub attested_result: Option<VerifyResult>,
    pub execution_host: Option<String>,
    pub runner: Option<String>,
}

/// What is wrong with a value that an attestation needs.
#[derive(Clone, Copy, Debug, PartialEq, Eq, Structural)]
pub enum AttestationValueError {
    Missing,
    Empty,
}

/// The value of an attestation flag, without the white space around it.
pub open spec fn attestation_value(value: Option<Seq<char>>) -> Result<
    Seq<char>,
    AttestationValueError,
> {
    match value {
        Some(text) => if trimmed(text).len() == 0 {
            Err(AttestationValueError::Empty)
        } else {
            Ok(trimmed(text))
        },
        None => Err(AttestationValueError::Missing),
    }
}

/// The value of an attestation flag, without the white space around it.
pub fn nonempty_attestation_value(value: &Option<String>) -> (r: Result<
    String,
    AttestationValueError,
>)
    ensures
        match r {
            Ok(text) => attestation_value(opt_view(*value)) == Ok::<_, AttestationValueError>(text@),
            Err(error) => attestation_value(opt_view(*value)) == Err::<Seq<char>, _>(error),
        },
{
    match value {
        Some(text) => {
            let text = trim(text.as_str());
            if text.as_str().is_empty() {
                Err(AttestationValueError::Empty)
            } else {
                Ok(text)
            }
        },
        None => Err(AttestationValueError::Missing),
    }
}

/// Whether one check is selected, or a result is asserted for one.
pub open spec fn selects_one(args: VerifyArgs) -> bool {
    args.gate is Some || args.command is Some || args.probe is Some || args.brief_version is Some
        || args.probe_phase is Some || args.attest || args.result is Some
        || args.tested_revision is Some || args.execution_host is Some || args.runner is Some
}

/// Whether something is asked for that a synthesized merge has no use for.
pub open spec fn unfit_for_merge(args: VerifyArgs) -> bool {
    args.gate is Some || args.command is Some || args.probe is Some || args.attest || args.parallel
        || args.skip_green || args.waive_dirty is Some || args.falsified_by is Some
}

/// What is wrong with the attestation flags, where anything is.
pub open spec fn attestation_refusal(args: VerifyArgs) -> Option<VerifyRefusal> {
    let host = attestation_value(opt_view(args.execution_host));
    let runner = attestation_value(opt_view(args.runner));
    if args.attest && args.result is None {
        Some(VerifyRefusal::AttestNeedsResult)
    } else if !args.attest && args.result is Some {
        Some(VerifyRefusal::ResultNeedsAttest)
    } else if args.attest {
        if args.tested_revision is None {
            Some(VerifyRefusal::AttestNeedsRevision)
        } else if host == Err::<Seq<char>, _>(AttestationValueError::Missing) {
            Some(VerifyRefusal::AttestNeedsHost)
        } else if host is Err {
            Some(VerifyRefusal::EmptyHost)
        } else if runner == Err::<Seq<char>, _>(AttestationValueError::Missing) {
            Some(VerifyRefusal::AttestNeedsRunner)
        } else if runner is Err {
            Some(VerifyRefusal::EmptyRunner)
        } else {
            None
        }
    } else if args.tested_revision is Some || args.execution_host is Some || args.runner is Some {
        Some(VerifyRefusal::AttestOptionsNeedAttest)
    } else {
        None
    }
}

/// What is wrong with the flags that name an earlier failure, where anything is.
pub open spec fn falsification_refusal(args: VerifyArgs) -> Option<VerifyRefusal> {
    match (args.falsified_by, args.predicted) {
        (Some(_), Some(reason)) => if trimmed(reason@).len() == 0 {
            Some(VerifyRefusal::EmptyPrediction)
        } else {
            None
        },
        (Some(_), None) => Some(VerifyRefusal::FalsificationNeedsPrediction),
        (None, Some(_)) => Some(VerifyRefusal::PredictionNeedsFalsification),
        (None, None) => None,
    }
}

/// Why a verification is refused before anything runs, where it is: the first reason that holds.
pub open spec fn verify_refusal(args: VerifyArgs) -> Option<VerifyRefusal> {
    if args.all && selects_one(args) {
        Some(VerifyRefusal::AllTakesNoSelection)
    } else if args.all && (args.falsified_by is Some || args.predicted is Some) {
        Some(VerifyRefusal::AllTakesNoFalsification)
    } else if falsification_refusal(args) is Some {
        falsification_refusal(args)
    } else if args.against is Some && unfit_for_merge(args) {
        Some(VerifyRefusal::AgainstTakesNoSelection)
    } else if args.parallel && !args.all {
        Some(VerifyRefusal::ParallelNeedsAll)
    } else if args.parallel && args.waive_dirty is Some {
        Some(VerifyRefusal::ParallelTakesNoWaiver)
    } else if args.skip_green && !args.all {
        Some(VerifyRefusal::SkipGreenNeedsAll)
    } else if args.probe is Some && (args.gate is Some || args.command is Some) {
        Some(VerifyRefusal::ProbeExcludesCommand)
    } else if args.probe is None && (args.brief_version is Some || args.probe_phase is Some) {
        Some(VerifyRefusal::ProbeOptionsNeedProbe)
    } else {
        attestation_refusal(args)
    }
}

/// The flags of a verification go together exactly where none is missing what it needs and none is
/// given with what excludes it.
pub proof fn accepted_flags_go_together(args: VerifyArgs)
    ensures
        verify_refusal(args) is None <==> {
            &&& args.all ==> args.gate is None && args.command is None && args.probe is None
                && args.brief_version is None && args.probe_phase is None && !args.attest
                && args.result is None && args.tested_revision is None && args.execution_host
                is None && args.runner is None && args.falsified_by is None && args.predicted
                is None
            &&& args.falsified_by is Some <==> args.predicted is Some
            &&& args.predicted is Some ==> trimmed(args.predicted->0@).len() > 0
            &&& args.against is Some ==> args.gate is None && args.command is None && args.probe
                is None && !args.attest && !args.parallel && !args.skip_green && args.waive_dirty
                is None && args.falsified_by is None
            &&& args.parallel ==> args.all && args.waive_dirty is None
            &&& args.skip_green ==> args.all
            &&& args.probe is Some ==> args.gate is None && args.command is None
            &&& args.probe is None ==> args.brief_version is None && args.probe_phase is None
            &&& args.attest <==> args.result is Some
            &&& args.attest ==> args.tested_revision is Some && args.execution_host is Some
                && trimmed(args.execution_host->0@).len() > 0 && args.runner is Some && trimmed(
                args.runner->0@,
            ).len() > 0
            &&& !args.attest ==> args.tested_revision is None && args.execution_host is None
                && args.runner is None
        },
{
}

/// A verification is refused for a reason that holds.
pub proof fn refusals_of_verifications_hold(args: VerifyArgs)
    ensures
        match verify_refusal(args) {
            None => true,
            Some(VerifyRefusal::AllTakesNoSelection) => args.all,
            Some(VerifyRefusal::AllTakesNoFalsification) => args.all && (args.falsified_by is Some
                || args.predicted is Some),
            Some(VerifyRefusal::EmptyPrediction) => args.predicted is Some && trimmed(
                args.predicted->0@,
            ).len() == 0,
            Some(VerifyRefusal::FalsificationNeedsPrediction) => args.falsified_by is Some
                && args.predicted is None,
            Some(VerifyRefusal::PredictionNeedsFalsification) => args.falsified_by is None
                && args.predicted is Some,
            Some(VerifyRefusal::AgainstTakesNoSelection) => args.against is Some,
            Some(VerifyRefusal::ParallelNeedsAll) => args.parallel && !args.all,
            Some(VerifyRefusal::ParallelTakesNoWaiver) => args.parallel && args.waive_dirty is Some,
            Some(VerifyRefusal::SkipGreenNeedsAll) => args.skip_green && !args.all,
            Some(VerifyRefusal::ProbeExcludesCommand) => args.probe is Some && (args.gate is Some
                || args.command is Some),
            Some(VerifyRefusal::ProbeOptionsNeedProbe) => args.probe is None && (args.brief_version
                is Some || args.probe_phase is Some),
            Some(VerifyRefusal::AttestNeedsResult) => args.attest && args.result is None,
            Some(VerifyRefusal::ResultNeedsAttest) => !args.attest && args.result is Some,
            Some(VerifyRefusal::AttestNeedsRevision) => args.attest && args.tested_revision is None,
            Some(VerifyRefusal::AttestNeedsHost) => args.attest && args.execution_host is None,
            Some(VerifyRefusal::EmptyHost) => args.attest && args.execution_host is Some && trimmed(
                args.execution_host->0@,
            ).len() == 0,
            Some(VerifyRefusal::AttestNeedsRunner) => args.attest && args.runner is None,
            Some(VerifyRefusal::EmptyRunner) => args.attest && args.runner is Some && trimmed(
                args.runner->0@,
            ).len() == 0,
            Some(VerifyRefusal::AttestOptionsNeedAttest) => !args.attest && (args.tested_revision
                is Some || args.execution_host is Some || args.runner is Some),
        },
{
}

/// Which kind of verification is asked for: a probe before a merge, a merge before all gates, and
/// else one command.
pub open spec fn verify_kind(args: VerifyArgs) -> VerifyKind {
    if args.probe is Some {
        VerifyKind::Probe
    } else if args.against is Some {
        VerifyKind::Against
    } else if args.all {
        VerifyKind::All
    } else {
        VerifyKind::Command
    }
}

/// Whether `plan` carries what was asked for.
pub open spec fn plans(plan: VerifyPlan, args: VerifyArgs) -> bool {
    &&& plan.kind == verify_kind(args)
    &&& match (args.falsified_by, args.predicted) {
        (Some(event_id), Some(reason)) => plan.falsified_by is Some && (plan.falsified_by->0).0@
            == event_id@ && (plan.falsified_by->0).1@ == trimmed(reason@),
        _ => plan.falsified_by is None,
    }
    &&& plan.attested_result == args.result
    &&& opt_view(plan.execution_host) == match args.execution_host {
        Some(text) => Some(trimmed(text@)),
        None => None,
    }
    &&& opt_view(plan.runner) == match args.runner {
        Some(text) => Some(trimmed(text@)),
        None => None,
    }
}

/// A probe is one where it is named, a merge where a target is named and no probe, all gates where
/// they are asked for and neither is, and else a command.
pub proof fn kinds_follow_the_flags(args: VerifyArgs, plan: VerifyPlan)
    requires
        plans(plan, args),
    ensures
        plan.kind == VerifyKind::Probe <==> args.probe is Some,
        plan.kind == VerifyKind::Against <==> args.probe is None && args.against is Some,
        plan.kind == VerifyKind::All <==> args.probe is None && args.against is None && args.all,
        plan.kind == VerifyKind::Command <==> args.probe is None && args.against is None
            && !args.all,
        plan.falsified_by is Some <==> args.falsified_by is Some && args.predicted is Some,
        plan.falsified_by is Some ==> (plan.falsified_by->0).0@ == args.falsified_by->0@,
{
}

fn select_falsification(args: &VerifyArgs) -> (r: Result<Option<(String, String)>, VerifyRefusal>)
    ensures
        match r {
            Ok(pair) => falsification_refusal(*args) is None && match (
                args.falsified_by,
                args.predicted,
            ) {
                (Some(event_id), Some(reason)) => pair is Some && (pair->0).0@ == event_id@
                    && (pair->0).1@ == trimmed(reason@),
                _ => pair is None,
            },
            Err(refusal) => falsification_refusal(*args) == Some(refusal),
        },
{
    match (&args.falsified_by, &args.predicted) {
        (Some(event_id), Some(reason)) => {
            let reason = trim(reason.as_str());
            if reason.as_str().is_empty() {
                return Err(VerifyRefusal::EmptyPrediction);
            }
            Ok(Some((event_id.clone(), reason)))
        },
        (Some(_), None) => Err(VerifyRefusal::FalsificationNeedsPrediction),
        (None, Some(_)) => Err(VerifyRefusal::PredictionNeedsFalsification),
        (None, None) => Ok(None),
    }
}

fn select_attestation(args: &VerifyArgs) -> (r: Result<
    (Option<String>, Option<String>),
    VerifyRefusal,
>)
    ensures
        match r {
            Ok((host, runner)) => attestation_refusal(*args) is None && opt_view(host) == (
            match args.execution_host {
                Some(text) => Some(trimmed(text@)),
                None => None,
            }) && opt_view(runner) == (match args.runner {
                Some(text) => Some(trimmed(text@)),
                None => None,
            }),
            Err(refusal) => attestation_refusal(*args) == Some(refusal),
        },
{
    if args.attest && args.result.is_none() {
        return Err(VerifyRefusal::AttestNeedsResult);
    }
    if !args.attest && args.result.is_some() {
        return Err(VerifyRefusal::ResultNeedsAttest);
    }
    if !args.attest {
        if args.tested_revision.is_some() || args.execution_host.is_some() || args.runner.is_some() {
            return Err(VerifyRefusal::AttestOptionsNeedAttest);
        }
        return Ok((None, None));
    }
    if args.tested_revision.is_none() {
        return Err(VerifyRefusal::AttestNeedsRevision);
    }
    let host = match nonempty_attestation_value(&args.execution_host) {
        Ok(host) => host,
        Err(AttestationValueError::Missing) => return Err(VerifyRefusal::AttestNeedsHost),
        Err(AttestationValueError::Empty) => return Err(VerifyRefusal::EmptyHost),
    };
    let runner = match nonempty_attestation_value(&args.runner) {
        Ok(runner) => runner,
        Err(AttestationValueError::Missing) => return Err(VerifyRefusal::AttestNeedsRunner),
        Err(AttestationValueError::Empty) => return Err(VerifyRefusal::EmptyRunner),
    };
    Ok((Some(host), Some(runner)))
}

/// What a verification runs with, or why it is refused before anything runs.
pub fn verify(args: &VerifyArgs) -> (r: Result<VerifyPlan, VerifyRefusal>)
    ensures
        match r {
            Ok(plan) => verify_refusal(*args) is None && plans(plan, *args),
            Err(refusal) => verify_refusal(*args) == Some(refusal),
        },
{
    if args.all && (args.gate.is_some() || args.command.is_some() || args.probe.is_some()
        || args.brief_version.is_some() || args.probe_phase.is_some() || args.attest
        || args.result.is_some() || args.tested_revision.is_some() || args.execution_host.is_some()
        || args.runner.is_some()) {
        return Err(VerifyRefusal::AllTakesNoSelection);
    }
    if args.all && (args.falsified_by.is_some() || args.predicted.is_some()) {
        return Err(VerifyRefusal::AllTakesNoFalsification);
    }
    let falsified_by = match select_falsification(args) {
        Ok(pair) => pair,
        Err(refusal) => return Err(refusal),
    };
    if args.against.is_some() && (args.gate.is_some() || args.command.is_some()
        || args.probe.is_some() || args.attest || args.parallel || args.skip_green
        || args.waive_dirty.is_some() || falsified_by.is_some()) {
        return Err(VerifyRefusal::AgainstTakesNoSelection);
    }
    if args.parallel && !args.all {
        return Err(VerifyRefusal::ParallelNeedsAll);
    }
    if args.parallel && args.waive_dirty.is_some() {
        return Err(VerifyRefusal::ParallelTakesNoWaiver);
    }
    if args.skip_green && !args.all {
        return Err(VerifyRefusal::SkipGreenNeedsAll);
    }
    if args.probe.is_some() && (args.gate.is_some() || args.command.is_some()) {
        return Err(VerifyRefusal::ProbeExcludesCommand);
    }
    if args.probe.is_none() && (args.brief_version.is_some() || args.probe_phase.is_some()) {
        return Err(VerifyRefusal::ProbeOptionsNeedProbe);
    }
    let (execution_host, runner) = match select_attestation(args) {
        Ok(pair) => pair,
        Err(refusal) => return Err(refusal),
    };
    let kind = if args.probe.is_some() {
        VerifyKind::Probe
    } else if args.against.is_some() {
        VerifyKind::Against
    } else if args.all {
        VerifyKind::All
    } else {
        VerifyKind::Command
    };
    Ok(
        VerifyPlan { kind, falsified_by, attested_result: args.result, execution_host, runner },
    )
}

/// Evidence that nobody observed is told apart: a result is taken from the caller exactly where
/// the caller attests it, and then with the revision, the host and the runner that it names.
pub proof fn attested_results_are_attributed(args: VerifyArgs, plan: VerifyPlan)
    requires
        verify_refusal(args) is None,
        plans(plan, args),
    ensures
        plan.attested_result is Some <==> args.attest,
        plan.attested_result is Some ==> args.tested_revision is Some && plan.execution_host is Some
            && plan.execution_host->0@.len() > 0 && plan.runner is Some && plan.runner->0@.len() > 0,
        plan.attested_result is None ==> args.tested_revision is None && plan.execution_host is None
            && plan.runner is None,
{
    if args.all {
        assert(!selects_one(args));
    } else {
        assert(attestation_refusal(args) is None);
    }
}

/// The reason for a dirty-tree waiver, where one is given.
pub fn waiver_reason(text: &str) -> (r: Option<String>)
    ensures
        match r {
            Some(reason) => reason@ == trimmed(text@) && reason@.len() > 0,
            None => trimmed(text@).len() == 0,
        },
{
    let reason = trim(text);
    if reason.as_str().is_empty() {
        None
    } else {
        Some(reason)
    }
}

/// The position of the brief that a version names, or of the latest one.
pub open spec fn brief_at(state: ChangeState, version: Option<usize>) -> Option<int> {
    match version {
        Some(v) => if 1 <= v <= state.briefs@.len() {
            Some(v - 1)
        } else {
            None
        },
        None => if state.briefs@.len() > 0 {
            Some(state.briefs@.len() - 1)
        } else {
            None
        },
    }
}

/// Whether a brief declares its first probe of this name at `k`.
pub open spec fn probe_at(brief: Brief, name: Seq<char>, k: int) -> bool {
    &&& 0 <= k < brief.acceptance_probes@.len()
    &&& brief.acceptance_probes@[k].name@ == name
    &&& forall|j: int| 0 <= j < k ==> (#[trigger] brief.acceptance_probes@[j]).name@ != name
}

/// Whether a brief declares no probe of this name.
pub open spec fn declares_no_probe(brief: Brief, name: Seq<char>) -> bool {
    forall|j: int|
        0 <= j < brief.acceptance_probes@.len() ==> (#[trigger] brief.acceptance_probes@[j]).name@
            != name
}

/// The position of the probe of this name that a brief declares.
pub fn find_probe(brief: &Brief, name: &str) -> (r: Option<usize>)
    ensures
        match r {
            Some(k) => probe_at(*brief, name@, k as int),
            None => declares_no_probe(*brief, name@),
        },
{
    let probes = &brief.acceptance_probes;
    for k in 0..probes.len()
        invariant
            probes@ == brief.acceptance_probes@,
            forall|j: int|
                0 <= j < k ==> (#[trigger] brief.acceptance_probes@[j]).name@ != name@,
    {
        if same(probes[k].name.as_str(), name) {
            return Some(k);
        }
    }
    None
}

/// A probe among those that the briefs of a change declare.
pub struct ProbeChoice {
    pub version: usize,
    pub probe: usize,
}

/// Why no probe is selected.
#[derive(Clone, Copy, Debug, PartialEq, Eq, Structural)]
pub enum ProbeRefusal {
    NoSuchVersion,
    NoBrief,
    NotDeclared { version: usize },
}

/// Whether `r` is the probe of a name in the brief that a version names, or in the latest one.
pub open spec fn selects_probe(
    state: &ChangeState,
    version: Option<usize>,
    name: &str,
    r: Result< ProbeChoice, ProbeRefusal, >,
) -> bool {
    match r {
            Ok(choice) => brief_at(*state, version) == Some(choice.version - 1) && probe_at(
                state.briefs@[choice.version - 1],
                name@,
                choice.probe as int,
            ),
            Err(ProbeRefusal::NoSuchVersion) => version is Some && brief_at(*state, version) is None,
            Err(ProbeRefusal::NoBrief) => version is None && brief_at(*state, version) is None,
            Err(ProbeRefusal::NotDeclared { version: v }) => brief_at(*state, version) == Some(
                v - 1,
            ) && declares_no_probe(state.briefs@[v - 1], name@),
        }
}

/// The probe of this name in the brief that a version names, or in the latest one.
pub fn select_probe(state: &ChangeState, version: Option<usize>, name: &str) -> (r: Result<
    ProbeChoice,
    ProbeRefusal,
>)
    ensures
        selects_probe(state, version, name, r),
{
    let found: usize = match version {
        Some(v) => {
            if v == 0 || v > state.briefs.len() {
                return Err(ProbeRefusal::NoSuchVersion);
            }
            v
        },
        None => {
            if state.briefs.len() == 0 {
                return Err(ProbeRefusal::NoBrief);
            }
            state.briefs.len()
        },
    };
    match find_probe(&state.briefs[found - 1], name) {
        Some(probe) => Ok(ProbeChoice { version: found, probe }),
        None => Err(ProbeRefusal::NotDeclared { version: found }),
    }
}

/// Whether the latest brief of a change declares an acceptance probe of this name.
pub fn brief_declares_probe(state: &ChangeState, name: &str) -> (r: bool)
    ensures
        r == (state.briefs@.len() > 0 && !declares_no_probe(state.briefs@.last(), name@)),
{
    if state.briefs.len() == 0 {
        return false;
    }
    find_probe(&state.briefs[state.briefs.len() - 1], name).is_some()
}

/// Why a baseline probe does not run here.
#[derive(Clone, Copy, Debug, PartialEq, Eq, Structural)]
pub enum BaselineRefusal {
    NoBase,
    HeadElsewhere,
    AttestedElsewhere,
}

/// Whether `r` answers whether a baseline probe runs here.
pub open spec fn allows_baseline(
    brief: &Brief,
    head: &str,
    tested_revision: &Option<String>,
    r: Result< (), BaselineRefusal, >,
) -> bool {
    match r {
            Ok(()) => opt_view(brief.base_revision) == Some(head@) && (tested_revision is Some
                ==> tested_revision->0@ == head@),
            Err(BaselineRefusal::NoBase) => brief.base_revision is None,
            Err(BaselineRefusal::HeadElsewhere) => brief.base_revision is Some
                && brief.base_revision->0@ != head@,
            Err(BaselineRefusal::AttestedElsewhere) => opt_view(brief.base_revision) == Some(head@)
                && tested_revision is Some && tested_revision->0@ != head@,
        }
}

/// Refuses a baseline probe anywhere but at the base revision of its brief.
pub fn check_baseline(brief: &Brief, head: &str, tested_revision: &Option<String>) -> (r: Result<
    (),
    BaselineRefusal,
>)
    ensures
        allows_baseline(brief, head, tested_revision, r),
{
    let base = match &brief.base_revision {
        Some(base) => base.as_str(),
        None => return Err(BaselineRefusal::NoBase),
    };
    if !same(head, base) {
        return Err(BaselineRefusal::HeadElsewhere);
    }
    if let Some(tested) = tested_revision {
        if !same(tested.as_str(), base) {
            return Err(BaselineRefusal::AttestedElsewhere);
        }
    }
    Ok(())
}

/// Whether `r` says if evidence from a probe phase is counted at the head.
pub open spec fn counts_at_head(
    phase: ProbePhase,
    r: bool,
) -> bool {
    r == (phase == ProbePhase::Final)
}

/// Whether evidence from this probe phase is counted at the head of the change: baseline evidence
/// is counted at the base revision of the brief.
pub fn phase_counts_at_head(phase: ProbePhase) -> (r: bool)
    ensures
        counts_at_head(phase, r),
{
    match phase {
        ProbePhase::Baseline => false,
        ProbePhase::Final => true,
    }
}

/// What a probe has to come to: it fails before the work and passes after it.
pub open spec fn expected_of(phase: ProbePhase) -> VerifyResult {
    match phase {
        ProbePhase::Baseline => VerifyResult::Fail,
        ProbePhase::Final => VerifyResult::Pass,
    }
}

/// Whether `r` is the exit code of a probe whose command came to `code`.
pub open spec fn probe_comes_to(
    phase: ProbePhase,
    code: i32,
    r: i32,
) -> bool {
    &&& r == 0 || r == 1
    &&& r == 0 <==> expected_of(phase) == (if code == 0 {
            VerifyResult::Pass
        } else {
            VerifyResult::Fail
        })
}

/// The exit code of a probe whose command came to `code`.
pub fn probe_exit_code(phase: ProbePhase, code: i32) -> (r: i32)
    ensures
        probe_comes_to(phase, code, r),
{
    let passed = code == 0;
    let expected = match phase {
        ProbePhase::Baseline => false,
        ProbePhase::Final => true,
    };
    if passed == expected {
        0
    } else {
        1
    }
}

/// What is to be said of attested evidence that status will not count.
#[derive(Clone, Copy, Debug, PartialEq, Eq, Structural)]
pub enum AttestedWarning {
    UnknownHead,
    OffHead,
}

/// Whether `r` is what is to be said of attested evidence.
pub open spec fn warns_off_head(
    tested_revision: &str,
    change_head: Option<&str>,
    r: Option< AttestedWarning, >,
) -> bool {
    r == (match change_head {
            None => Some(AttestedWarning::UnknownHead),
            Some(head) => if tested_revision@ == head@ {
                None
            } else {
                Some(AttestedWarning::OffHead)
            },
        })
}

/// What is to be said of attested evidence: that it is off the head, or that the head is unknown.
pub fn warn_if_attested_off_head(tested_revision: &str, change_head: Option<&str>) -> (r: Option<
    AttestedWarning,
>)
    ensures
        warns_off_head(tested_revision, change_head, r),
{
    match change_head {
        None => Some(AttestedWarning::UnknownHead),
        Some(head) => if same(tested_revision, head) {
            None
        } else {
            Some(AttestedWarning::OffHead)
        },
    }
}

/// Why evidence that runs here would never be counted.
#[derive(Clone, Copy, Debug, PartialEq, Eq, Structural)]
pub enum HeadRefusal {
    DetachedHere,
    CheckedOutElsewhere,
    NoCheckout,
}

/// Whether `r` answers whether evidence that runs here would be counted.
pub open spec fn allows_at_head(
    head: &str,
    change_head: &str,
    here: bool,
    checked_out: bool,
    r: Result<(), HeadRefusal>,
) -> bool {
    r == (if head@ == change_head@ {
            Ok::<(), HeadRefusal>(())
        } else if here {
            Err(HeadRefusal::DetachedHere)
        } else if checked_out {
            Err(HeadRefusal::CheckedOutElsewhere)
        } else {
            Err(HeadRefusal::NoCheckout)
        })
}

/// Refuses to run anywhere but at the head of the change: status counts evidence only there.
/// `here` says whether the recorded worktree of the change holds this directory, and
/// `checked_out` whether some worktree has the branch of the change.
pub fn ensure_at_change_head(
    head: &str,
    change_head: &str,
    here: bool,
    checked_out: bool,
) -> (r: Result<(), HeadRefusal>)
    ensures
        allows_at_head(head, change_head, here, checked_out, r),
{
    if same(head, change_head) {
        return Ok(());
    }
    if here {
        return Err(HeadRefusal::DetachedHere);
    }
    if checked_out {
        Err(HeadRefusal::CheckedOutElsewhere)
    } else {
        Err(HeadRefusal::NoCheckout)
    }
}

/// Whether the first gate declared under this name is at `k`.
pub open spec fn gate_at(declared: Seq<VerificationRunGate>, name: Seq<char>, k: int) -> bool {
    &&& 0 <= k < declared.len()
    &&& declared[k].name@ == name
    &&& forall|j: int| 0 <= j < k ==> (#[trigger] declared[j]).name@ != name
}

/// Whether no gate is declared under this name.
pub open spec fn no_gate(declared: Seq<VerificationRunGate>, name: Seq<char>) -> bool {
    forall|j: int| 0 <= j < declared.len() ==> (#[trigger] declared[j]).name@ != name
}

/// The position of what is declared as a gate under a name.
pub fn find_gate(declared: &Vec<VerificationRunGate>, name: &str) -> (r: Option<usize>)
    ensures
        match r {
            Some(k) => gate_at(declared@, name@, k as int),
            None => no_gate(declared@, name@),
        },
{
    for k in 0..declared.len()
        invariant
            forall|j: int| 0 <= j < k ==> (#[trigger] declared@[j]).name@ != name@,
    {
        if same(declared[k].name.as_str(), name) {
            return Some(k);
        }
    }
    None
}

/// Why no command is selected.
#[derive(Clone, Copy, Debug, PartialEq, Eq, Structural)]
pub enum CommandRefusal {
    GateAndCommand,
    Nothing,
    /// The name is that of a probe that the current brief declares.
    ProbeOfThatName,
    NotDeclared,
}

/// Whether `r` is the command to run and its limit.
pub open spec fn selects_command(
    gate: &Option<String>,
    command: &Option<String>,
    declared: &Vec<VerificationRunGate>,
    state: &ChangeState,
    r: Result<(String, Option<u64>), CommandRefusal>,
) -> bool {
    match r {
            Ok((text, timeout)) => match (*gate, *command) {
                (Some(name), None) => exists|k: int| #[trigger]
                    gate_at(declared@, name@, k) && text@ == declared@[k].command@ && timeout
                        == declared@[k].timeout_seconds,
                (None, Some(given)) => text@ == given@ && timeout is None,
                _ => false,
            },
            Err(CommandRefusal::GateAndCommand) => gate is Some && command is Some,
            Err(CommandRefusal::Nothing) => gate is None && command is None,
            Err(CommandRefusal::ProbeOfThatName) => gate is Some && command is None && no_gate(
                declared@,
                gate->0@,
            ) && state.briefs@.len() > 0 && !declares_no_probe(state.briefs@.last(), gate->0@),
            Err(CommandRefusal::NotDeclared) => gate is Some && command is None && no_gate(
                declared@,
                gate->0@,
            ) && (state.briefs@.len() == 0 || declares_no_probe(state.briefs@.last(), gate->0@)),
        }
}

/// The command to run and its limit in seconds: that of the named gate, or the one given.
pub fn select_command(
    gate: &Option<String>,
    command: &Option<String>,
    declared: &Vec<VerificationRunGate>,
    state: &ChangeState,
) -> (r: Result<(String, Option<u64>), CommandRefusal>)
    ensures
        selects_command(gate, command, declared, state, r),
{
    match (gate, command) {
        (Some(name), None) => match find_gate(declared, name.as_str()) {
            Some(k) => {
                assert(gate_at(declared@, name@, k as int));
                Ok((declared[k].command.clone(), declared[k].timeout_seconds))
            },
            None => if brief_declares_probe(state, name.as_str()) {
                Err(CommandRefusal::ProbeOfThatName)
            } else {
                Err(CommandRefusal::NotDeclared)
            },
        },
        (None, Some(given)) => Ok((given.clone(), None)),
        (Some(_), Some(_)) => Err(CommandRefusal::GateAndCommand),
        (None, None) => Err(CommandRefusal::Nothing),
    }
}

/// Whether the run of a required gate is reused: it is asked for, and there is green evidence at
/// the head for it as it is declared now.
pub open spec fn reused(skip_green: bool, evidence: Seq<Option<String>>, i: int) -> bool {
    skip_green && evidence[i] is Some
}

/// Which required gates are reused and which run, by position.
pub struct RunPlan {
    pub reused: Vec<usize>,
    pub to_run: Vec<usize>,
}

/// Whether `r` says which required gates are reused and which run.
pub open spec fn splits_run(
    skip_green: bool,
    evidence: &Vec<Option<String>>,
    r: Option<RunPlan>,
) -> bool {
    match r {
            Some(plan) => evidence@.len() > 0 && ints(plan.reused@) == chosen(
                evidence@.len(),
                |i: int| reused(skip_green, evidence@, i),
            ) && ints(plan.to_run@) == chosen(
                evidence@.len(),
                |i: int| !reused(skip_green, evidence@, i),
            ),
            None => evidence@.len() == 0,
        }
}

/// Splits the required gates into those whose green evidence is reused and those that run.
/// `evidence` holds, for each required gate, the event of a green run at the head of the command
/// that is declared now.
pub fn plan_run(skip_green: bool, evidence: &Vec<Option<String>>) -> (r: Option<RunPlan>)
    ensures
        splits_run(skip_green, evidence, r),
{
    if evidence.len() == 0 {
        return None;
    }
    let mut kept: Vec<usize> = Vec::new();
    let mut to_run: Vec<usize> = Vec::new();
    for i in 0..evidence.len()
        invariant
            ints(kept@) == chosen(i as nat, |k: int| reused(skip_green, evidence@, k)),
            ints(to_run@) == chosen(i as nat, |k: int| !reused(skip_green, evidence@, k)),
    {
        let ghost a = ints(kept@);
        let ghost b = ints(to_run@);
        if skip_green && evidence[i].is_some() {
            kept.push(i);
            assert(ints(kept@) =~= a.push(i as int));
        } else {
            to_run.push(i);
            assert(ints(to_run@) =~= b.push(i as int));
        }
    }
    Some(RunPlan { reused: kept, to_run })
}

/// What a run of several gates came to.
pub struct RunTally {
    pub passed: usize,
    pub total: usize,
    pub exit_code: i32,
}

/// Whether `r` is what a run of several gates came to.
pub open spec fn tallies_run(
    reused: usize,
    codes: &Vec<i32>,
    r: RunTally,
) -> bool {
    &&& r.total == reused + codes@.len()
    &&& r.passed == reused + count(codes@, |code: i32| code == 0)
    &&& r.exit_code == (if r.passed == r.total {
            0int
        } else {
            1int
        })
}

/// What a run of several gates came to: `reused` of them were green before, and each of the
/// others came to an exit code.
pub fn tally_run(reused: usize, codes: &Vec<i32>) -> (r: RunTally)
    requires
        reused + codes@.len() <= usize::MAX,
    ensures
        tallies_run(reused, codes, r),
{
    let ghost zero = |code: i32| code == 0;
    let mut passed: usize = reused;
    assert(codes@.take(0) =~= Seq::empty());
    for i in 0..codes.len()
        invariant
            reused + codes@.len() <= usize::MAX,
            zero == (|code: i32| code == 0),
            passed == reused + count(codes@.take(i as int), zero),
            passed <= reused + i,
    {
        assert(codes@.take(i + 1).drop_last() =~= codes@.take(i as int));
        if codes[i] == 0 {
            passed += 1;
        }
    }
    assert(codes@.take(codes@.len() as int) =~= codes@);
    let total: usize = reused + codes.len();
    RunTally {
        passed,
        total,
        exit_code: if passed == total {
            0
        } else {
            1
        },
    }
}

/// A run of gates succeeds exactly where every gate that ran passed.
pub proof fn runs_succeed_when_all_pass(codes: Seq<i32>)
    ensures
        count(codes, |code: i32| code == 0) == codes.len() <==> forall|i: int|
            0 <= i < codes.len() ==> #[trigger] codes[i] == 0,
    decreases codes.len(),
{
    let zero = |code: i32| code == 0;
    lemma_count_bounded(codes, zero);
    if codes.len() > 0 {
        let rest = codes.drop_last();
        runs_succeed_when_all_pass(rest);
        lemma_count_bounded(rest, zero);
        if count(codes, zero) == codes.len() {
            assert forall|i: int| 0 <= i < codes.len() implies #[trigger] codes[i] == 0 by {
                if i < rest.len() {
                    assert(rest[i] == codes[i]);
                }
            }
        }
        if forall|i: int| 0 <= i < codes.len() ==> #[trigger] codes[i] == 0 {
            assert forall|i: int| 0 <= i < rest.len() implies #[trigger] rest[i] == 0 by {
                assert(rest[i] == codes[i]);
            }
            assert(codes[codes.len() - 1] == 0);
        }
    }
}

/// What was named as an earlier failure does not show the check able to fail.
#[derive(Debug)]
pub struct FalsificationMismatch {
    pub reason: String,
}

/// Whether `r` is the earlier failure that a verification refers to, or why it may not.
pub open spec fn resolves_falsification(
    state: &ChangeState,
    falsified_by: Option<(String, String)>,
    mismatch: Option<String>,
    r: Result<Option<Falsification>, FalsificationMismatch>,
) -> bool {
    match r {
            Ok(Some(found)) => falsified_by is Some && mismatch is None && names_failure(
                found,
                *state,
                (falsified_by->0).0@,
                (falsified_by->0).1@,
            ),
            Ok(None) => falsified_by is None,
            Err(error) => falsified_by is Some && mismatch == Some(error.reason),
        }
}

/// The earlier failure that a verification is to refer to, or why it may not: `mismatch` says why
/// the named failure does not fit the check, where it does not. A verification that would not be
/// recorded is refused before it runs.
pub fn resolve_falsification(
    state: &ChangeState,
    falsified_by: Option<(String, String)>,
    mismatch: Option<String>,
) -> (r: Result<Option<Falsification>, FalsificationMismatch>)
    ensures
        resolves_falsification(state, falsified_by, mismatch, r),
{
    match falsified_by {
        Some((event_id, predicted_reason)) => match mismatch {
            Some(reason) => Err(FalsificationMismatch { reason }),
            None => Ok(Some(named_failure(state, event_id, predicted_reason))),
        },
        None => Ok(None),
    }
}

/// Whether a record names the failure under an event, with the reason for which it was expected.
pub open spec fn names_failure(
    found: Falsification,
    state: ChangeState,
    event_id: Seq<char>,
    predicted_reason: Seq<char>,
) -> bool {
    &&& found.event_id@ == event_id
    &&& found.predicted_reason@ == predicted_reason
    &&& failure_revision(state, event_id, found.revision@)
}

/// The record that a verification refers to an earlier failure: the revision is that of the
/// recorded failure, or empty where nothing is recorded under that event.
pub fn named_failure(state: &ChangeState, event_id: String, predicted_reason: String) -> (r:
    Falsification)
    ensures
        names_failure(r, *state, event_id@, predicted_reason@),
{
    let all = &state.verifications;
    for k in 0..all.len()
        invariant
            all@ == state.verifications@,
            forall|j: int| 0 <= j < k ==> (#[trigger] state.verifications@[j]).event_id@ != event_id@,
    {
        if same(all[k].event_id.as_str(), event_id.as_str()) {
            let revision = all[k].revision.clone();
            assert(state.verifications@[k as int].event_id@ == event_id@);
            return Falsification { event_id, revision, predicted_reason };
        }
    }
    Falsification { event_id, revision: String::new(), predicted_reason }
}

/// Whether `revision` is that of the first verification recorded under an event, or empty where
/// none is.
pub open spec fn failure_revision(
    state: ChangeState,
    event_id: Seq<char>,
    revision: Seq<char>,
) -> bool {
    ||| exists|k: int|
        0 <= k < state.verifications@.len() && (#[trigger] state.verifications@[k]).event_id@
            == event_id && revision == state.verifications@[k].revision@ && forall|j: int|
            0 <= j < k ==> (#[trigger] state.verifications@[j]).event_id@ != event_id
    ||| revision.len() == 0 && forall|j: int|
        0 <= j < state.verifications@.len() ==> (#[trigger] state.verifications@[j]).event_id@
            != event_id
}

/// What records that the evidence of an earlier run is reused.
pub fn reuse_payload(run_id: &str, gate: &str, revision: &str, evidence_event_id: &str) -> (r:
    Payload)
    ensures
        match r {
            Payload::VerificationReused { run_id: i, gate: g, revision: v, evidence_event_id: e } =>
            i@ == run_id@ && g@ == gate@ && v@ == revision@ && e@ == evidence_event_id@,
            _ => false,
        },
{
    Payload::VerificationReused {
        run_id: run_id.to_string(),
        gate: gate.to_string(),
        revision: revision.to_string(),
        evidence_event_id: evidence_event_id.to_string(),
    }
}

/// Why a snapshot with verification is refused.
#[derive(Clone, Copy, Debug, PartialEq, Eq, Structural)]
pub enum SnapshotRefusal {
    SelectionNeedsVerify,
    AllExcludesGates,
}

/// What is verified once a snapshot is recorded.
#[derive(Clone, Copy, Debug, PartialEq, Eq, Structural)]
pub enum SnapshotVerification {
    Nothing,
    AllGates,
    OneGate,
    SeveralGates,
}

/// Whether `r` is what is verified once a snapshot is recorded.
pub open spec fn verifies_snapshot(
    verify_requested: bool,
    gates: &Vec<String>,
    all: bool,
    r: Result< SnapshotVerification, SnapshotRefusal, >,
) -> bool {
    r == (if !verify_requested && (gates@.len() > 0 || all) {
            Err(SnapshotRefusal::SelectionNeedsVerify)
        } else if all && gates@.len() > 0 {
            Err(SnapshotRefusal::AllExcludesGates)
        } else if !verify_requested {
            Ok(SnapshotVerification::Nothing)
        } else if gates@.len() == 0 {
            Ok(SnapshotVerification::AllGates)
        } else if gates@.len() == 1 {
            Ok(SnapshotVerification::OneGate)
        } else {
            Ok(SnapshotVerification::SeveralGates)
        })
}

/// What is verified once a snapshot is recorded, or why the flags are refused.
pub fn snapshot_with_verify(verify_requested: bool, gates: &Vec<String>, all: bool) -> (r: Result<
    SnapshotVerification,
    SnapshotRefusal,
>)
    ensures
        verifies_snapshot(verify_requested, gates, all, r),
{
    if !verify_requested && (gates.len() > 0 || all) {
        return Err(SnapshotRefusal::SelectionNeedsVerify);
    }
    if all && gates.len() > 0 {
        return Err(SnapshotRefusal::AllExcludesGates);
    }
    if !verify_requested {
        return Ok(SnapshotVerification::Nothing);
    }
    if all || gates.len() == 0 {
        return Ok(SnapshotVerification::AllGates);
    }
    if gates.len() > 1 {
        Ok(SnapshotVerification::SeveralGates)
    } else {
        Ok(SnapshotVerification::OneGate)
    }
}

/// Why several gates are not selected.
#[derive(Clone, Copy, Debug, PartialEq, Eq, Structural)]
pub enum SelectionRefusal {
    Repeated,
    NotDeclared { index: usize },
}

/// Whether some two names are the same.
pub open spec fn repeats(names: Seq<String>) -> bool {
    exists|i: int, j: int|
        0 <= i < j < names.len() && (#[trigger] names[i])@ == (#[trigger] names[j])@
}

fn has_repetition(names: &Vec<String>) -> (r: bool)
    ensures
        r == repeats(names@),
{
    for j in 0..names.len()
        invariant
            forall|a: int, b: int|
                0 <= a < b < j ==> (#[trigger] names@[a])@ != (#[trigger] names@[b])@,
    {
        for i in 0..j
            invariant
                j < names@.len(),
                forall|a: int| 0 <= a < i ==> (#[trigger] names@[a])@ != names@[j as int]@,
        {
            if same(names[i].as_str(), names[j].as_str()) {
                assert(names@[i as int]@ == names@[j as int]@);
                return true;
            }
        }
    }
    false
}

/// Whether `r` are the positions of the named gates.
pub open spec fn selects_gates(
    names: &Vec<String>,
    declared: &Vec<VerificationRunGate>,
    r: Result< Vec<usize>, SelectionRefusal, >,
) -> bool {
    match r {
            Ok(positions) => !repeats(names@) && positions@.len() == names@.len() && forall|i: int|
                0 <= i < names@.len() ==> gate_at(
                    declared@,
                    names@[i]@,
                    #[trigger] positions@[i] as int,
                ),
            Err(SelectionRefusal::Repeated) => repeats(names@),
            Err(SelectionRefusal::NotDeclared { index }) => !repeats(names@) && index < names@.len()
                && no_gate(declared@, names@[index as int]@) && forall|i: int|
                0 <= i < index ==> !no_gate(declared@, (#[trigger] names@[i])@),
        }
}

/// The positions of the named gates among the declared ones: each name once, and all declared.
pub fn select_gates(names: &Vec<String>, declared: &Vec<VerificationRunGate>) -> (r: Result<
    Vec<usize>,
    SelectionRefusal,
>)
    ensures
        selects_gates(names, declared, r),
{
    if has_repetition(names) {
        return Err(SelectionRefusal::Repeated);
    }
    let mut out: Vec<usize> = Vec::new();
    for i in 0..names.len()
        invariant
            !repeats(names@),
            out@.len() == i,
            forall|k: int|
                0 <= k < i ==> gate_at(declared@, names@[k]@, #[trigger] out@[k] as int),
    {
        match find_gate(declared, names[i].as_str()) {
            Some(k) => out.push(k),
            None => {
                proof {
                    assert forall|k: int| 0 <= k < i implies !no_gate(
                        declared@,
                        (#[trigger] names@[k])@,
                    ) by {
                        assert(gate_at(declared@, names@[k]@, out@[k] as int));
                        assert(declared@[out@[k] as int].name@ == names@[k]@);
                    }
                }
                return Err(SelectionRefusal::NotDeclared { index: i });
            },
        }
    }
    Ok(out)
}

/// Where a verification stands.
#[derive(Clone, Copy, Debug, PartialEq, Eq, Structural)]
pub enum VerifyStep {
    /// Whoever asks is settled.
    Identity,
    /// The waiver of a dirty tree is declared.
    Waive,
    /// The probe, the gates or the command is found.
    Select,
    /// The evidence will count where it is made.
    Place,
    /// The earlier failure is found.
    Falsify,
    /// What was selected runs, or is recorded as attested.
    Run,
    Refused,
    Finished { code: i32 },
}

/// What follows where nothing is left to be settled before the selection.
pub open spec fn first_selection(kind: VerifyKind) -> VerifyStep {
    match kind {
        VerifyKind::Probe => VerifyStep::Select,
        VerifyKind::Against => VerifyStep::Select,
        VerifyKind::All => VerifyStep::Place,
        VerifyKind::Command => VerifyStep::Place,
    }
}

/// What follows a step that went well.
pub open spec fn verify_onward(kind: VerifyKind, waives: bool, step: VerifyStep) -> VerifyStep {
    match step {
        VerifyStep::Identity => if waives {
            VerifyStep::Waive
        } else {
            first_selection(kind)
        },
        VerifyStep::Waive => first_selection(kind),
        VerifyStep::Select => match kind {
            VerifyKind::Probe => VerifyStep::Place,
            VerifyKind::Against => VerifyStep::Place,
            VerifyKind::All => VerifyStep::Run,
            VerifyKind::Command => VerifyStep::Falsify,
        },
        VerifyStep::Place => match kind {
            VerifyKind::Probe => VerifyStep::Falsify,
            VerifyKind::Against => VerifyStep::Run,
            VerifyKind::All => VerifyStep::Select,
            VerifyKind::Command => VerifyStep::Select,
        },
        VerifyStep::Falsify => VerifyStep::Run,
        _ => step,
    }
}

/// The step after one that went well or not: a run ends with its code, and anything else that does
/// not go well is refused.
pub open spec fn verify_after(
    kind: VerifyKind,
    waives: bool,
    step: VerifyStep,
    well: bool,
    code: i32,
) -> VerifyStep {
    match step {
        VerifyStep::Run => VerifyStep::Finished { code },
        VerifyStep::Finished { code: last } => VerifyStep::Finished { code: last },
        _ => if well {
            verify_onward(kind, waives, step)
        } else {
            VerifyStep::Refused
        },
    }
}

fn select_first(kind: VerifyKind) -> (r: VerifyStep)
    ensures
        r == first_selection(kind),
{
    match kind {
        VerifyKind::Probe => VerifyStep::Select,
        VerifyKind::Against => VerifyStep::Select,
        VerifyKind::All => VerifyStep::Place,
        VerifyKind::Command => VerifyStep::Place,
    }
}

/// The step after one that went well or not, and where it ran, came to `code`.
pub fn verify_step(kind: VerifyKind, waives: bool, step: VerifyStep, well: bool, code: i32) -> (r:
    VerifyStep)
    ensures
        r == verify_after(kind, waives, step, well, code),
{
    match step {
        VerifyStep::Run => VerifyStep::Finished { code },
        VerifyStep::Finished { code: last } => VerifyStep::Finished { code: last },
        _ => if !well {
            VerifyStep::Refused
        } else {
            match step {
                VerifyStep::Identity => if waives {
                    VerifyStep::Waive
                } else {
                    select_first(kind)
                },
                VerifyStep::Waive => select_first(kind),
                VerifyStep::Select => match kind {
                    VerifyKind::Probe => VerifyStep::Place,
                    VerifyKind::Against => VerifyStep::Place,
                    VerifyKind::All => VerifyStep::Run,
                    VerifyKind::Command => VerifyStep::Falsify,
                },
                VerifyStep::Place => match kind {
                    VerifyKind::Probe => VerifyStep::Falsify,
                    VerifyKind::Against => VerifyStep::Run,
                    VerifyKind::All => VerifyStep::Select,
                    VerifyKind::Command => VerifyStep::Select,
                },
                VerifyStep::Falsify => VerifyStep::Run,
                _ => step,
            }
        },
    }
}

/// What one step of a verification came to.
pub struct StepOutcome {
    pub well: bool,
    pub code: i32,
}

/// Whether some steps are those of a verification: it starts with the identity, and each step
/// follows from what the one before came to.
pub open spec fn verification(
    kind: VerifyKind,
    waives: bool,
    steps: Seq<VerifyStep>,
    outcomes: Seq<StepOutcome>,
) -> bool {
    &&& steps.len() > 0
    &&& outcomes.len() == steps.len()
    &&& steps[0] == VerifyStep::Identity
    &&& forall|i: int|
        0 <= i < steps.len() - 1 ==> #[trigger] verify_after(
            kind,
            waives,
            steps[i],
            outcomes[i].well,
            outcomes[i].code,
        ) == steps[i + 1]
}

/// Nothing runs before whoever asks is settled and a waiver that was asked for is declared, nor
/// after anything was refused; and it runs once.
pub proof fn verifications_settle_before_they_run(
    kind: VerifyKind,
    waives: bool,
    steps: Seq<VerifyStep>,
    outcomes: Seq<StepOutcome>,
    n: int,
)
    requires
        verification(kind, waives, steps, outcomes),
        0 <= n < steps.len(),
        steps[n] == VerifyStep::Run,
    ensures
        n > 0,
        outcomes[0].well,
        waives ==> n > 1 && steps[1] == VerifyStep::Waive,
        forall|i: int|
            0 <= i < n ==> #[trigger] outcomes[i].well && steps[i] != VerifyStep::Run,
{
    lemma_unsettled_before(kind, waives, steps, outcomes, n);
    assert(verify_after(kind, waives, steps[0], outcomes[0].well, outcomes[0].code) == steps[1]);
}

proof fn lemma_unsettled_before(
    kind: VerifyKind,
    waives: bool,
    steps: Seq<VerifyStep>,
    outcomes: Seq<StepOutcome>,
    n: int,
)
    requires
        verification(kind, waives, steps, outcomes),
        0 <= n < steps.len(),
        !(steps[n] is Refused) && !(steps[n] is Finished),
    ensures
        forall|i: int|
            0 <= i < n ==> #[trigger] outcomes[i].well && steps[i] != VerifyStep::Run,
    decreases n,
{
    if n > 0 {
        let last = outcomes[n - 1];
        assert(verify_after(kind, waives, steps[n - 1], last.well, last.code) == steps[n]);
        lemma_unsettled_before(kind, waives, steps, outcomes, n - 1);
        assert forall|i: int| 0 <= i < n implies #[trigger] outcomes[i].well && steps[i]
            != VerifyStep::Run by {
            if i == n - 1 {
                assert(outcomes[i] == last);
            }
        }
    }
}

/// Whether every step before the one at `n` went well.
pub open spec fn all_well(outcomes: Seq<StepOutcome>, n: int) -> bool {
    forall|i: int| 0 <= i < n ==> (#[trigger] outcomes[i]).well
}

proof fn lemma_follows(
    kind: VerifyKind,
    waives: bool,
    steps: Seq<VerifyStep>,
    outcomes: Seq<StepOutcome>,
    i: int,
)
    requires
        verification(kind, waives, steps, outcomes),
        0 <= i < steps.len() - 1,
    ensures
        steps[i + 1] == verify_after(
            kind,
            waives,
            steps[i],
            outcomes[i].well,
            outcomes[i].code,
        ),
{
    assert(verify_after(kind, waives, steps[i], outcomes[i].well, outcomes[i].code) == steps[i
        + 1]);
}

/// A verification in which everything goes well runs: of its first six steps one is the run, and
/// the step after that ends it with the code that the run came to.
pub proof fn verifications_run(
    kind: VerifyKind,
    waives: bool,
    steps: Seq<VerifyStep>,
    outcomes: Seq<StepOutcome>,
) -> (n: int)
    requires
        verification(kind, waives, steps, outcomes),
        steps.len() >= 7,
        all_well(outcomes, steps.len() as int),
    ensures
        0 < n < 6,
        steps[n] == VerifyStep::Run,
        steps[n + 1] == (VerifyStep::Finished { code: outcomes[n].code }),
{
    assert(outcomes[0].well && outcomes[1].well && outcomes[2].well && outcomes[3].well
        && outcomes[4].well && outcomes[5].well);
    lemma_follows(kind, waives, steps, outcomes, 0);
    lemma_follows(kind, waives, steps, outcomes, 1);
    lemma_follows(kind, waives, steps, outcomes, 2);
    lemma_follows(kind, waives, steps, outcomes, 3);
    lemma_follows(kind, waives, steps, outcomes, 4);
    lemma_follows(kind, waives, steps, outcomes, 5);
    if steps[3] == VerifyStep::Run {
        3
    } else if steps[4] == VerifyStep::Run {
        4
    } else {
        5
    }
}

/// A verification ends with a code only where something ran, and the code is what the run came
/// to.
pub proof fn verifications_end_with_what_ran(
    kind: VerifyKind,
    waives: bool,
    steps: Seq<VerifyStep>,
    outcomes: Seq<StepOutcome>,
    n: int,
) -> (m: int)
    requires
        verification(kind, waives, steps, outcomes),
        0 <= n < steps.len(),
        steps[n] is Finished,
    ensures
        0 <= m < n,
        steps[m] == VerifyStep::Run,
        steps[n] == (VerifyStep::Finished { code: outcomes[m].code }),
    decreases n,
{
    lemma_follows(kind, waives, steps, outcomes, n - 1);
    if steps[n - 1] is Finished {
        verifications_end_with_what_ran(kind, waives, steps, outcomes, n - 1)
    } else {
        n - 1
    }
}

/// A step before the run that does not go well ends a verification for good, with nothing run.
pub proof fn refused_verifications_run_nothing(
    kind: VerifyKind,
    waives: bool,
    steps: Seq<VerifyStep>,
    outcomes: Seq<StepOutcome>,
    i: int,
    n: int,
)
    requires
        verification(kind, waives, steps, outcomes),
        0 <= i < n < steps.len(),
        !outcomes[i].well,
        steps[i] != VerifyStep::Run,
        !(steps[i] is Finished),
    ensures
        steps[n] == VerifyStep::Refused,
    decreases n,
{
    lemma_follows(kind, waives, steps, outcomes, n - 1);
    if i < n - 1 {
        refused_verifications_run_nothing(kind, waives, steps, outcomes, i, n - 1);
    }
}

/// What runs was selected, and where it runs its evidence will count; what may name an earlier
/// failure has looked for it; and a waiver is declared where one was asked for, and nowhere else.
pub proof fn runs_are_selected_and_placed(
    kind: VerifyKind,
    waives: bool,
    steps: Seq<VerifyStep>,
    outcomes: Seq<StepOutcome>,
    n: int,
)
    requires
        verification(kind, waives, steps, outcomes),
        0 <= n < steps.len(),
        steps[n] == VerifyStep::Run,
    ensures
        steps.take(n).contains(VerifyStep::Select),
        steps.take(n).contains(VerifyStep::Place),
        steps.take(n).contains(VerifyStep::Falsify) <==> kind is Probe || kind is Command,
        steps.take(n).contains(VerifyStep::Waive) <==> waives,
        all_well(outcomes, n),
        n == 3 + (if waives {
            1int
        } else {
            0
        }) + (if kind is Probe || kind is Command {
            1int
        } else {
            0
        }),
{
    lemma_unsettled_before(kind, waives, steps, outcomes, n);
    assert forall|i: int| 0 <= i < n implies (#[trigger] outcomes[i]).well by {}
    let before = steps.take(n);
    if n > 0 {
        lemma_follows(kind, waives, steps, outcomes, 0);
        assert(outcomes[0].well);
    }
    if n > 1 {
        lemma_follows(kind, waives, steps, outcomes, 1);
        assert(outcomes[1].well);
    }
    if n > 2 {
        lemma_follows(kind, waives, steps, outcomes, 2);
        assert(outcomes[2].well);
    }
    if n > 3 {
        lemma_follows(kind, waives, steps, outcomes, 3);
        assert(outcomes[3].well);
    }
    if n > 4 {
        lemma_follows(kind, waives, steps, outcomes, 4);
        assert(outcomes[4].well);
    }
    if n > 5 {
        lemma_follows(kind, waives, steps, outcomes, 5);
        assert(outcomes[5].well);
        assert(steps[3] != VerifyStep::Run && steps[4] != VerifyStep::Run && steps[5]
            != VerifyStep::Run) by {
            assert(outcomes[3].well && outcomes[4].well && outcomes[5].well);
        }
    }
    assert(steps[3] == VerifyStep::Run || steps[4] == VerifyStep::Run || steps[5]
        == VerifyStep::Run);
    assert(before[1] == steps[1] && before[2] == steps[2]);
    if n > 3 {
        assert(before[3] == steps[3]);
    }
    if n > 4 {
        assert(before[4] == steps[4]);
    }
    assert(before[0] == VerifyStep::Identity);
    if before.contains(VerifyStep::Waive) {
        let k = choose|k: int| 0 <= k < before.len() && before[k] == VerifyStep::Waive;
        assert(before[k] == steps[k]);
    }
    if before.contains(VerifyStep::Falsify) {
        let k = choose|k: int| 0 <= k < before.len() && before[k] == VerifyStep::Falsify;
        assert(before[k] == steps[k]);
    }
}

/// Where the closing of a piece of work stands.
#[derive(Clone, Copy, Debug, PartialEq, Eq, Structural)]
pub enum DoneStep {
    Stage,
    Snapshot,
    Verify,
    Check,
    Finished { code: i32 },
}

/// Whether `r` is the first step of closing a piece of work.
pub open spec fn starts_done(
    owns_live_claim: bool,
    r: DoneStep,
) -> bool {
    r == (if owns_live_claim {
            DoneStep::Stage
        } else {
            DoneStep::Snapshot
        })
}

/// The first step of closing a piece of work: whoever holds its live claim moves it to the
/// verifying stage first.
pub fn first_done_step(owns_live_claim: bool) -> (r: DoneStep)
    ensures
        starts_done(owns_live_claim, r),
{
    if owns_live_claim {
        DoneStep::Stage
    } else {
        DoneStep::Snapshot
    }
}

/// The step after one that came to `code`: a refused stage ends the work, the outcome of the
/// gates does not, and the check decides.
pub open spec fn done_after(step: DoneStep, code: i32) -> DoneStep {
    match step {
        DoneStep::Stage => if code == 0 {
            DoneStep::Snapshot
        } else {
            DoneStep::Finished { code }
        },
        DoneStep::Snapshot => DoneStep::Verify,
        DoneStep::Verify => DoneStep::Check,
        DoneStep::Check => DoneStep::Finished { code },
        DoneStep::Finished { code: last } => DoneStep::Finished { code: last },
    }
}

/// The step after one that came to `code`.
pub fn done(step: DoneStep, code: i32) -> (r: DoneStep)
    ensures
        r == done_after(step, code),
{
    match step {
        DoneStep::Stage => if code == 0 {
            DoneStep::Snapshot
        } else {
            DoneStep::Finished { code }
        },
        DoneStep::Snapshot => DoneStep::Verify,
        DoneStep::Verify => DoneStep::Check,
        DoneStep::Check => DoneStep::Finished { code },
        DoneStep::Finished { code: last } => DoneStep::Finished { code: last },
    }
}

/// A version names the brief of that number, counted from one, and without one the latest brief is
/// meant; the probe that is selected bears the name, and a name that no probe bears selects none.
pub proof fn probes_are_taken_from_their_brief(
    state: &ChangeState,
    version: Option<usize>,
    name: &str,
    r: Result<ProbeChoice, ProbeRefusal>,
)
    requires
        selects_probe(state, version, name, r),
    ensures
        r matches Ok(choice) ==> 1 <= choice.version <= state.briefs@.len() && (version is Some
            ==> version->0 == choice.version) && (version is None ==> choice.version
            == state.briefs@.len()) && choice.probe < state.briefs@[choice.version
            - 1].acceptance_probes@.len() && state.briefs@[choice.version
            - 1].acceptance_probes@[choice.probe as int].name@ == name@,
        version is Some && !(1 <= version->0 <= state.briefs@.len()) ==> r == Err::<
            ProbeChoice,
            ProbeRefusal,
        >(ProbeRefusal::NoSuchVersion),
        version is None && state.briefs@.len() == 0 ==> r == Err::<ProbeChoice, ProbeRefusal>(
            ProbeRefusal::NoBrief,
        ),
        version is None && state.briefs@.len() > 0 && (exists|k: int|
            0 <= k < state.briefs@.last().acceptance_probes@.len() && (
            #[trigger] state.briefs@.last().acceptance_probes@[k]).name@ == name@) ==> r is Ok,
{
}

/// A baseline probe runs at the base of its brief and nowhere else, and what it comes to is not
/// counted at the head; it succeeds where its command fails, and a final probe where it passes.
pub proof fn baselines_fail_at_the_base(
    brief: &Brief,
    head: &str,
    tested_revision: &Option<String>,
    phase: ProbePhase,
    code: i32,
    allowed: Result<(), BaselineRefusal>,
    counted: bool,
    exit: i32,
)
    requires
        allows_baseline(brief, head, tested_revision, allowed),
        counts_at_head(phase, counted),
        probe_comes_to(phase, code, exit),
    ensures
        allowed is Ok <==> brief.base_revision is Some && brief.base_revision->0@ == head@ && (
        *tested_revision is Some ==> tested_revision->0@ == head@),
        counted <==> phase == ProbePhase::Final,
        phase == ProbePhase::Baseline ==> (exit == 0 <==> code != 0),
        phase == ProbePhase::Final ==> (exit == 0 <==> code == 0),
        exit == 0 || exit == 1,
{
}

/// Evidence is made only at the head of its change, and attested evidence that is off the head, or
/// whose head nobody knows, is warned of.
pub proof fn evidence_counts_at_the_head(
    head: &str,
    change_head: &str,
    here: bool,
    checked_out: bool,
    known_head: Option<&str>,
    allowed: Result<(), HeadRefusal>,
    warning: Option<AttestedWarning>,
)
    requires
        allows_at_head(head, change_head, here, checked_out, allowed),
        warns_off_head(head, known_head, warning),
    ensures
        allowed is Ok <==> head@ == change_head@,
        warning is None <==> known_head is Some && known_head->0@ == head@,
        known_head is None ==> warning == Some(AttestedWarning::UnknownHead),
{
}

/// What runs is the command of a declared gate, with its limit, or the one that is given, without
/// any; never both, and never one that is not declared.
pub proof fn commands_are_declared_or_given(
    gate: &Option<String>,
    command: &Option<String>,
    declared: &Vec<VerificationRunGate>,
    state: &ChangeState,
    r: Result<(String, Option<u64>), CommandRefusal>,
)
    requires
        selects_command(gate, command, declared, state, r),
    ensures
        r is Ok ==> (*gate is Some <==> *command is None),
        r is Ok && *command is Some ==> (r->Ok_0).0@ == command->0@ && (r->Ok_0).1 is None,
        r is Ok && *gate is Some ==> exists|k: int|
            0 <= k < declared@.len() && (#[trigger] declared@[k]).name@ == gate->0@ && (r->Ok_0).0@
                == declared@[k].command@ && (r->Ok_0).1 == declared@[k].timeout_seconds,
        *gate is None && *command is Some ==> r is Ok,
        *gate is Some && *command is None && (exists|k: int|
            0 <= k < declared@.len() && (#[trigger] declared@[k]).name@ == gate->0@) ==> r is Ok,
{
    if r is Ok && *gate is Some {
        let k = choose|k: int| #[trigger]
            gate_at(declared@, gate->0@, k) && (r->Ok_0).0@ == declared@[k].command@ && (
            r->Ok_0).1 == declared@[k].timeout_seconds;
        assert(declared@[k].name@ == gate->0@);
    }
}

/// Every required gate is reused or runs, and not both: it is reused only where that is asked for
/// and there is green evidence for it.
pub proof fn required_gates_run_unless_green(
    skip_green: bool,
    evidence: &Vec<Option<String>>,
    i: usize,
    r: Option<RunPlan>,
)
    requires
        splits_run(skip_green, evidence, r),
        i < evidence@.len(),
    ensures
        r is Some,
        r->0.reused@.contains(i) <==> skip_green && evidence@[i as int] is Some,
        r->0.to_run@.contains(i) <==> !(skip_green && evidence@[i as int] is Some),
{
    let plan = r->0;
    let kept = |k: int| reused(skip_green, evidence@, k);
    let run = |k: int| !reused(skip_green, evidence@, k);
    lemma_chosen(evidence@.len(), kept);
    lemma_chosen(evidence@.len(), run);
    lemma_ints_contain(plan.reused@, i);
    lemma_ints_contain(plan.to_run@, i);
    assert(chosen(evidence@.len(), kept).contains(i as int) <==> kept(i as int));
    assert(chosen(evidence@.len(), run).contains(i as int) <==> run(i as int));
}

/// A run of several gates ends with zero exactly where every gate that ran passed, and else with
/// one.
pub proof fn one_failing_gate_fails_the_run(reused: usize, codes: &Vec<i32>, r: RunTally)
    requires
        tallies_run(reused, codes, r),
    ensures
        r.exit_code == 0 <==> forall|i: int| 0 <= i < codes@.len() ==> #[trigger] codes@[i] == 0,
        r.exit_code == 0 || r.exit_code == 1,
        r.total == reused + codes@.len(),
        r.passed <= r.total,
{
    runs_succeed_when_all_pass(codes@);
    lemma_count_bounded(codes@, |code: i32| code == 0);
}

/// A failure that does not show the check able to fail is not referred to: the verification is
/// refused before it runs.
pub proof fn mismatched_failures_are_refused(
    state: &ChangeState,
    falsified_by: Option<(String, String)>,
    mismatch: Option<String>,
    r: Result<Option<Falsification>, FalsificationMismatch>,
)
    requires
        resolves_falsification(state, falsified_by, mismatch, r),
    ensures
        r is Err <==> falsified_by is Some && mismatch is Some,
        r is Ok ==> (r->Ok_0 is Some <==> falsified_by is Some),
        r is Ok && r->Ok_0 is Some ==> r->Ok_0->0.event_id@ == (falsified_by->0).0@
            && r->Ok_0->0.predicted_reason@ == (falsified_by->0).1@,
{
}

/// What is verified after a snapshot is what was asked for: nothing where nothing was, and every
/// gate where none is named.
pub proof fn snapshots_verify_what_was_asked(
    verify_requested: bool,
    gates: &Vec<String>,
    all: bool,
    r: Result<SnapshotVerification, SnapshotRefusal>,
)
    requires
        verifies_snapshot(verify_requested, gates, all, r),
    ensures
        r is Err <==> (all || gates@.len() > 0) && (!verify_requested || (all && gates@.len() > 0)),
        r == Ok::<SnapshotVerification, SnapshotRefusal>(SnapshotVerification::Nothing) ==> (
        !verify_requested),
        verify_requested && gates@.len() == 0 ==> r == Ok::<SnapshotVerification, SnapshotRefusal>(
            SnapshotVerification::AllGates,
        ),
        r == Ok::<SnapshotVerification, SnapshotRefusal>(SnapshotVerification::OneGate)
            ==> verify_requested && gates@.len() == 1,
        verify_requested && !all && gates@.len() > 1 ==> r == Ok::<
            SnapshotVerification,
            SnapshotRefusal,
        >(SnapshotVerification::SeveralGates),
{
}

/// The gates that are selected bear the names that were given, one for one.
pub proof fn selected_gates_bear_their_names(
    names: &Vec<String>,
    declared: &Vec<VerificationRunGate>,
    i: int,
    r: Result<Vec<usize>, SelectionRefusal>,
)
    requires
        selects_gates(names, declared, r),
        0 <= i < names@.len(),
    ensures
        r is Ok ==> r->Ok_0@.len() == names@.len() && r->Ok_0@[i] < declared@.len()
            && declared@[r->Ok_0@[i] as int].name@ == names@[i]@,
        (forall|k: int| 0 <= k < declared@.len() ==> (#[trigger] declared@[k]).name@ != names@[i]@)
            ==> r is Err,
        forall|k: int| 0 <= k < names@.len() && k != i && r is Ok ==> (#[trigger] names@[k])@
            != names@[i]@,
{
    if let Ok(positions) = r {
        assert(gate_at(declared@, names@[i]@, positions@[i] as int));
    }
}

/// Work is finished by its check alone: a stage that is refused ends it early, but neither the
/// snapshot nor the outcome of the gates does, and the code of the check is the code of the whole.
pub proof fn work_ends_with_its_check(owns_live_claim: bool, code: i32, first: DoneStep)
    requires
        starts_done(owns_live_claim, first),
    ensures
        first == DoneStep::Stage <==> owns_live_claim,
        !owns_live_claim ==> first == DoneStep::Snapshot,
        done_after(DoneStep::Stage, code) == (if code == 0 {
            DoneStep::Snapshot
        } else {
            DoneStep::Finished { code }
        }),
        done_after(DoneStep::Snapshot, code) == DoneStep::Verify,
        done_after(DoneStep::Verify, code) == DoneStep::Check,
        done_after(DoneStep::Check, code) == (DoneStep::Finished { code }),
        forall|last: i32| #[trigger]
            done_after(DoneStep::Finished { code: last }, code) == (DoneStep::Finished {
                code: last,
            }),
{
}

/// An attestation says something, without the white space around it.
pub proof fn attestations_say_something(value: Option<Seq<char>>)
    ensures
        attestation_value(value) is Ok <==> value is Some && trimmed(value->0).len() > 0,
        attestation_value(value) matches Ok(text) ==> text == trimmed(value->0),
        attestation_value(value) == Err::<Seq<char>, AttestationValueError>(
            AttestationValueError::Missing,
        ) <==> value is None,
{
}

/// Briefs are counted from one, and without a version the latest is meant.
pub proof fn versions_count_from_one(state: ChangeState, version: Option<usize>)
    ensures
        version is None ==> (brief_at(state, version) is Some <==> state.briefs@.len() > 0),
        version is None && state.briefs@.len() > 0 ==> brief_at(state, version) == Some(
            state.briefs@.len() - 1,
        ),
        version matches Some(v) ==> (brief_at(state, version) is Some <==> 0 < v
            && v <= state.briefs@.len()),
        version matches Some(v) ==> (brief_at(state, version) matches Some(k) ==> k + 1 == v),
{
}

} // verus!
