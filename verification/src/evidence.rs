//! What a verification observed: the outcome of a command, the tree it ran against, the tail of
//! its output, and the record of all that.
use crate::event::{Falsification, Payload, ProbeEvidenceRef, VerificationRunGate};
use crate::model::VerifyResult;
use crate::order::count;
use crate::text::{opt_view, same};
use vstd::prelude::*;
use vstd::utf8::{decode_utf8, valid_utf8};

verus! {

/// One verification that is about to happen.
pub struct VerificationInput {
    pub run_id: Option<String>,
    pub probe: Option<ProbeEvidenceRef>,
    pub gate: Option<String>,
    pub command: String,
    pub timeout_seconds: Option<u64>,
    pub attested_result: Option<VerifyResult>,
    pub tested_revision: Option<String>,
    pub execution_host: Option<String>,
    pub runner: Option<String>,
    pub note: Option<String>,
    pub falsification: Option<Falsification>,
    /// The target head that a synthesized merge was computed against, on a run that evaluates
    /// that merge.
    pub against_target: Option<String>,
}

/// One verification that has happened.
pub struct CompletedVerification {
    pub run_id: Option<String>,
    pub probe: Option<ProbeEvidenceRef>,
    pub gate: Option<String>,
    pub command: String,
    pub timeout_seconds: Option<u64>,
    pub revision: String,
    pub result: VerifyResult,
    pub exit_code: Option<i32>,
    pub duration_ms: Option<u64>,
    pub output_tail: Option<String>,
    pub timed_out: bool,
    pub hostname: String,
    pub attested: bool,
    pub runner: Option<String>,
    pub note: Option<String>,
    pub falsification: Option<Falsification>,
    pub tested_tree: Option<String>,
    pub worktree_dirty: Option<bool>,
    pub worktree_dirty_tracked: Option<bool>,
    pub worktree_dirty_untracked: Option<bool>,
    pub tree_moved: bool,
    pub against_target: Option<String>,
}

/// A command that was run: how it ended, how long it took and what it printed last.
pub struct GateRun {
    pub exit_code: Option<i32>,
    pub success: bool,
    pub timed_out: bool,
    pub duration_ms: u64,
    pub output_tail: Option<String>,
}

/// One of the gates of a run, about to be executed.
pub fn gate_input(
    run_id: &str,
    gate: &VerificationRunGate,
    note: &Option<String>,
    merge: Option<(&str, &str)>,
) -> (r: VerificationInput)
    ensures
        opt_view(r.run_id) == Some(run_id@),
        r.probe is None,
        opt_view(r.gate) == Some(gate.name@),
        r.command@ == gate.command@,
        r.timeout_seconds == gate.timeout_seconds,
        r.attested_result is None,
        r.execution_host is None,
        r.runner is None,
        opt_view(r.note) == opt_view(*note),
        r.falsification is None,
        match merge {
            Some((synthesized, target_head)) => opt_view(r.tested_revision) == Some(synthesized@)
                && opt_view(r.against_target) == Some(target_head@),
            None => r.tested_revision is None && r.against_target is None,
        },
{
    let (tested_revision, against_target) = match merge {
        Some((synthesized, target_head)) => (
            Some(synthesized.to_string()),
            Some(target_head.to_string()),
        ),
        None => (None, None),
    };
    VerificationInput {
        run_id: Some(run_id.to_string()),
        probe: None,
        gate: Some(gate.name.clone()),
        command: gate.command.clone(),
        timeout_seconds: gate.timeout_seconds,
        attested_result: None,
        tested_revision,
        execution_host: None,
        runner: None,
        note: note.clone(),
        falsification: None,
        against_target,
    }
}

/// Whether a completed verification carries over what its input said.
pub open spec fn carries_over(done: CompletedVerification, input: VerificationInput) -> bool {
    &&& done.run_id == input.run_id
    &&& done.probe == input.probe
    &&& done.gate == input.gate
    &&& done.command == input.command
    &&& done.timeout_seconds == input.timeout_seconds
    &&& done.runner == input.runner
    &&& done.note == input.note
    &&& done.falsification == input.falsification
    &&& done.against_target == input.against_target
}

/// Whether nothing is said of the worktree that a verification ran in.
pub open spec fn worktree_unknown(done: CompletedVerification) -> bool {
    &&& done.tested_tree is None
    &&& done.worktree_dirty is None
    &&& done.worktree_dirty_tracked is None
    &&& done.worktree_dirty_untracked is None
    &&& !done.tree_moved
}

/// What a command that was run comes to: it passes where it succeeds in time.
pub open spec fn outcome_of(run: GateRun) -> VerifyResult {
    if run.success && !run.timed_out {
        VerifyResult::Pass
    } else {
        VerifyResult::Fail
    }
}

/// What a command that was run comes to.
pub fn gate_result(run: &GateRun) -> (r: VerifyResult)
    ensures
        r == outcome_of(*run),
{
    if run.success && !run.timed_out {
        VerifyResult::Pass
    } else {
        VerifyResult::Fail
    }
}

/// Whether `r` is a verification whose result the caller attests.
pub open spec fn is_attested(
    input: VerificationInput,
    result: VerifyResult,
    revision: String,
    hostname: String,
    r: CompletedVerification,
) -> bool {
    &&& carries_over(r, input)
    &&& worktree_unknown(r)
    &&& r.revision == revision
    &&& r.hostname == hostname
    &&& r.attested
    &&& r.result == result
    &&& r.exit_code is None
    &&& r.duration_ms is None
    &&& r.output_tail is None
    &&& !r.timed_out
}

/// A verification whose result the caller attests: nothing was observed.
pub fn complete_attested(
    input: VerificationInput,
    result: VerifyResult,
    revision: String,
    hostname: String,
) -> (r: CompletedVerification)
    ensures
        is_attested(input, result, revision, hostname, r),
{
    CompletedVerification {
        run_id: input.run_id,
        probe: input.probe,
        gate: input.gate,
        command: input.command,
        timeout_seconds: input.timeout_seconds,
        revision,
        result,
        exit_code: None,
        duration_ms: None,
        output_tail: None,
        timed_out: false,
        hostname,
        attested: true,
        runner: input.runner,
        note: input.note,
        falsification: input.falsification,
        against_target: input.against_target,
        tested_tree: None,
        worktree_dirty: None,
        worktree_dirty_tracked: None,
        worktree_dirty_untracked: None,
        tree_moved: false,
    }
}

/// Whether `r` is a verification whose command was run.
pub open spec fn is_observed(
    input: VerificationInput,
    revision: String,
    hostname: String,
    run: GateRun,
    r: CompletedVerification,
) -> bool {
    &&& carries_over(r, input)
    &&& worktree_unknown(r)
    &&& r.revision == revision
    &&& r.hostname == hostname
    &&& !r.attested
    &&& r.result == outcome_of(run)
    &&& r.exit_code == Some(
            match run.exit_code {
                Some(code) => code,
                None => -1i32,
            },
        )
    &&& r.duration_ms == Some(run.duration_ms)
    &&& r.output_tail == run.output_tail
    &&& r.timed_out == run.timed_out
}

/// A verification whose command was run: the result is the observed one. The worktree is filled
/// in by whoever sees it on both sides of the run.
pub fn execute_verification(
    input: VerificationInput,
    revision: String,
    hostname: String,
    run: GateRun,
) -> (r: CompletedVerification)
    ensures
        is_observed(input, revision, hostname, run, r),
{
    let result = gate_result(&run);
    let exit_code: i32 = match run.exit_code {
        Some(code) => code,
        None => -1,
    };
    CompletedVerification {
        run_id: input.run_id,
        probe: input.probe,
        gate: input.gate,
        command: input.command,
        timeout_seconds: input.timeout_seconds,
        revision,
        result,
        exit_code: Some(exit_code),
        duration_ms: Some(run.duration_ms),
        output_tail: run.output_tail,
        timed_out: run.timed_out,
        hostname,
        attested: false,
        runner: input.runner,
        note: input.note,
        falsification: input.falsification,
        against_target: input.against_target,
        tested_tree: None,
        worktree_dirty: None,
        worktree_dirty_tracked: None,
        worktree_dirty_untracked: None,
        tree_moved: false,
    }
}

/// Which kinds of files in a worktree differ from what is committed.
#[derive(Clone, Copy)]
pub struct Dirt {
    pub tracked_files: bool,
    pub untracked_files: bool,
}

/// Whether two verifications say the same of everything but the worktree.
pub open spec fn same_but_for_worktree(
    a: CompletedVerification,
    b: CompletedVerification,
) -> bool {
    &&& a.run_id == b.run_id
    &&& a.probe == b.probe
    &&& a.gate == b.gate
    &&& a.command == b.command
    &&& a.timeout_seconds == b.timeout_seconds
    &&& a.revision == b.revision
    &&& a.result == b.result
    &&& a.exit_code == b.exit_code
    &&& a.duration_ms == b.duration_ms
    &&& a.output_tail == b.output_tail
    &&& a.timed_out == b.timed_out
    &&& a.hostname == b.hostname
    &&& a.attested == b.attested
    &&& a.runner == b.runner
    &&& a.note == b.note
    &&& a.falsification == b.falsification
    &&& a.against_target == b.against_target
}

/// Whether `r` is `done` with what the worktree was before and after the run.
pub open spec fn records_worktree(
    done: CompletedVerification,
    before: String,
    after: &str,
    commit_tree: &Option<String>,
    dirt: Option<Dirt>,
    r: CompletedVerification,
) -> bool {
    &&& same_but_for_worktree(r, done)
    &&& r.tested_tree == Some(before)
    &&& r.worktree_dirty == (match *commit_tree {
            Some(tree) => Some(tree@ != before@),
            None => None,
        })
    &&& match dirt {
            Some(d) => r.worktree_dirty_tracked == Some(d.tracked_files) && r.worktree_dirty_untracked
                == Some(d.untracked_files),
            None => r.worktree_dirty_tracked == done.worktree_dirty_tracked
                && r.worktree_dirty_untracked == done.worktree_dirty_untracked,
        }
    &&& r.tree_moved == (after@ != before@)
}

/// Records what the worktree was before and after a run: it is dirty where its tree differs from
/// that of the commit, and it moved where its tree differs from what it was.
pub fn record_verification(
    done: CompletedVerification,
    before: String,
    after: &str,
    commit_tree: &Option<String>,
    dirt: Option<Dirt>,
) -> (r: CompletedVerification)
    ensures
        records_worktree(done, before, after, commit_tree, dirt, r),
{
    let mut out = done;
    out.worktree_dirty = match commit_tree {
        Some(tree) => Some(!same(tree.as_str(), before.as_str())),
        None => None,
    };
    if let Some(d) = dirt {
        out.worktree_dirty_tracked = Some(d.tracked_files);
        out.worktree_dirty_untracked = Some(d.untracked_files);
    }
    out.tree_moved = !same(after, before.as_str());
    out.tested_tree = Some(before);
    out
}

/// Whether `r` is `done` with what the shared worktree of a parallel batch was.
pub open spec fn settles_parallel(
    done: Vec<CompletedVerification>,
    before: &str,
    tree_moved: bool,
    r: Vec< CompletedVerification, >,
) -> bool {
    &&& r@.len() == done@.len()
    &&& forall|i: int|
            0 <= i < done@.len() ==> same_but_for_worktree(#[trigger] r@[i], done@[i]) && opt_view(
                r@[i].tested_tree,
            ) == Some(before@) && r@[i].worktree_dirty is None && r@[i].tree_moved == tree_moved
                && r@[i].worktree_dirty_tracked == done@[i].worktree_dirty_tracked
                && r@[i].worktree_dirty_untracked == done@[i].worktree_dirty_untracked
}

/// Records what the shared worktree of a parallel batch was before it: cleanliness stays unknown,
/// because one gate can change and restore a file while another runs.
pub fn settle_parallel(done: Vec<CompletedVerification>, before: &str, tree_moved: bool) -> (r: Vec<
    CompletedVerification,
>)
    ensures
        settles_parallel(done, before, tree_moved, r),
{
    let ghost all = done@;
    let mut rest = done;
    let mut back: Vec<CompletedVerification> = Vec::new();
    let total: usize = rest.len();
    while rest.len() > 0
        invariant
            total == all.len(),
            rest@.len() + back@.len() == all.len(),
            rest@ == all.take(rest@.len() as int),
            forall|i: int|
                0 <= i < back@.len() ==> same_but_for_worktree(
                    #[trigger] back@[i],
                    all[all.len() - 1 - i],
                ) && opt_view(back@[i].tested_tree) == Some(before@)
                    && back@[i].worktree_dirty is None && back@[i].tree_moved == tree_moved
                    && back@[i].worktree_dirty_tracked == all[all.len() - 1
                    - i].worktree_dirty_tracked && back@[i].worktree_dirty_untracked
                    == all[all.len() - 1 - i].worktree_dirty_untracked,
        decreases rest@.len(),
    {
        if let Some(item) = rest.pop() {
            let mut out = item;
            out.tested_tree = Some(before.to_string());
            out.worktree_dirty = None;
            out.tree_moved = tree_moved;
            back.push(out);
        }
    }
    let mut out: Vec<CompletedVerification> = Vec::new();
    while back.len() > 0
        invariant
            out@.len() + back@.len() == all.len(),
            forall|i: int|
                0 <= i < back@.len() ==> same_but_for_worktree(
                    #[trigger] back@[i],
                    all[all.len() - 1 - i],
                ) && opt_view(back@[i].tested_tree) == Some(before@)
                    && back@[i].worktree_dirty is None && back@[i].tree_moved == tree_moved
                    && back@[i].worktree_dirty_tracked == all[all.len() - 1
                    - i].worktree_dirty_tracked && back@[i].worktree_dirty_untracked
                    == all[all.len() - 1 - i].worktree_dirty_untracked,
            forall|i: int|
                0 <= i < out@.len() ==> same_but_for_worktree(#[trigger] out@[i], all[i])
                    && opt_view(out@[i].tested_tree) == Some(before@)
                    && out@[i].worktree_dirty is None && out@[i].tree_moved == tree_moved
                    && out@[i].worktree_dirty_tracked == all[i].worktree_dirty_tracked
                    && out@[i].worktree_dirty_untracked == all[i].worktree_dirty_untracked,
        decreases back@.len(),
    {
        if let Some(item) = back.pop() {
            out.push(item);
        }
    }
    out
}

/// The number of verifications that passed.
pub fn count_passed(done: &Vec<CompletedVerification>) -> (r: usize)
    ensures
        r == count(done@, |item: CompletedVerification| item.result == VerifyResult::Pass),
{
    let ghost passing = |item: CompletedVerification| item.result == VerifyResult::Pass;
    let mut passed: usize = 0;
    assert(done@.take(0) =~= Seq::empty());
    for i in 0..done.len()
        invariant
            passing == (|item: CompletedVerification| item.result == VerifyResult::Pass),
            passed == count(done@.take(i as int), passing),
            passed <= i,
    {
        assert(done@.take(i + 1).drop_last() =~= done@.take(i as int));
        if done[i].result == VerifyResult::Pass {
            passed += 1;
        }
    }
    assert(done@.take(done@.len() as int) =~= done@);
    passed
}

/// Whether `r` records a verification.
pub open spec fn records_verification(
    item: CompletedVerification,
    tree: Option<String>,
    pinned: bool,
    r: Payload,
) -> bool {
    r == (Payload::VerificationRecorded {
            run_id: item.run_id,
            probe: item.probe,
            gate: item.gate,
            command: item.command,
            timeout_seconds: item.timeout_seconds,
            revision: item.revision,
            result: item.result,
            exit_code: item.exit_code,
            duration_ms: item.duration_ms,
            output_tail: item.output_tail,
            timed_out: item.timed_out,
            hostname: item.hostname,
            attested: item.attested,
            runner: item.runner,
            note: item.note,
            falsification: item.falsification,
            tree,
            against_target: item.against_target,
            tested_tree: if pinned {
                item.tested_tree
            } else {
                None
            },
            worktree_dirty: if pinned || item.tested_tree is None {
                item.worktree_dirty
            } else {
                None
            },
            worktree_dirty_tracked: item.worktree_dirty_tracked,
            worktree_dirty_untracked: item.worktree_dirty_untracked,
            tree_moved: item.tree_moved,
        })
}

/// What records a verification. `tree` is the content of the revision, where it resolves here,
/// and `pinned` says whether the tree that was tested is kept reachable: without that the record
/// names no tree and leaves cleanliness unknown.
pub fn verification_payload(
    item: CompletedVerification,
    tree: Option<String>,
    pinned: bool,
) -> (r: Payload)
    ensures
        records_verification(item, tree, pinned, r),
{
    let worktree_dirty = if pinned || item.tested_tree.is_none() {
        item.worktree_dirty
    } else {
        None
    };
    let tested_tree = if pinned {
        item.tested_tree
    } else {
        None
    };
    Payload::VerificationRecorded {
        run_id: item.run_id,
        probe: item.probe,
        gate: item.gate,
        command: item.command,
        timeout_seconds: item.timeout_seconds,
        revision: item.revision,
        result: item.result,
        exit_code: item.exit_code,
        duration_ms: item.duration_ms,
        output_tail: item.output_tail,
        timed_out: item.timed_out,
        hostname: item.hostname,
        attested: item.attested,
        runner: item.runner,
        note: item.note,
        falsification: item.falsification,
        tree,
        against_target: item.against_target,
        tested_tree,
        worktree_dirty,
        worktree_dirty_tracked: item.worktree_dirty_tracked,
        worktree_dirty_untracked: item.worktree_dirty_untracked,
        tree_moved: item.tree_moved,
    }
}

/// The number of bytes of output that a run keeps.
pub const OUTPUT_TAIL_BYTES: usize = 4096;

/// The last bytes of some output: as many as a run keeps.
pub open spec fn last_bytes(output: Seq<u8>) -> Seq<u8> {
    if output.len() <= OUTPUT_TAIL_BYTES {
        output
    } else {
        output.skip(output.len() - OUTPUT_TAIL_BYTES)
    }
}

/// What `String::from_utf8_lossy` reads some bytes as.
pub uninterp spec fn lossy_text(bytes: Seq<u8>) -> Seq<char>;

/// `String::from_utf8_lossy`: valid UTF-8 is read as the text that it encodes, and what is not
/// valid is replaced by U+FFFD, in a way that depends on the bytes alone.
#[verifier::external_body]
fn read_lossily(bytes: &[u8]) -> (r: String)
    ensures
        r@ == lossy_text(bytes@),
        valid_utf8(bytes@) ==> r@ == decode_utf8(bytes@),
{
    String::from_utf8_lossy(bytes).into_owned()
}

/// The output that a run is recorded with: none where it printed nothing.
pub fn recorded_output(tail: &Vec<u8>) -> (r: Option<String>)
    ensures
        opt_view(r) == (if tail@.len() == 0 {
            None
        } else {
            Some(lossy_text(tail@))
        }),
        tail@.len() > 0 && valid_utf8(tail@) ==> opt_view(r) == Some(decode_utf8(tail@)),
{
    if tail.len() == 0 {
        None
    } else {
        Some(read_lossily(tail.as_slice()))
    }
}

/// Takes one more chunk of output into the tail that is kept.
pub fn read_output_tail(tail: &mut Vec<u8>, chunk: &[u8])
    requires
        old(tail)@.len() <= OUTPUT_TAIL_BYTES,
    ensures
        final(tail)@ == last_bytes(old(tail)@ + chunk@),
        final(tail)@.len() <= OUTPUT_TAIL_BYTES,
{
    let ghost all = tail@ + chunk@;
    let held: usize = tail.len();
    let read: usize = chunk.len();
    let mut out: Vec<u8> = Vec::new();
    let mut from: usize = 0;
    if read >= OUTPUT_TAIL_BYTES {
        from = read - OUTPUT_TAIL_BYTES;
    } else {
        let mut i: usize = if held + read > OUTPUT_TAIL_BYTES {
            held + read - OUTPUT_TAIL_BYTES
        } else {
            0
        };
        let ghost start = i as int;
        while i < held
            invariant
                held == tail@.len(),
                0 <= start <= i <= held,
                out@ == tail@.subrange(start, i as int),
            decreases held - i,
        {
            out.push(tail[i]);
            i += 1;
            assert(out@ =~= tail@.subrange(start, i as int));
        }
    }
    let ghost kept = out@;
    let ghost first = from as int;
    while from < read
        invariant
            read == chunk@.len(),
            0 <= first <= from <= read,
            out@ == kept + chunk@.subrange(first, from as int),
        decreases read - from,
    {
        let ghost before = out@;
        out.push(chunk[from]);
        from += 1;
        assert(out@ =~= kept + chunk@.subrange(first, from as int));
    }
    assert(out@ =~= last_bytes(all));
    *tail = out;
}

/// The tail that is kept does not depend on how the output was cut into chunks: keeping the tail
/// of a part and going on is keeping the tail of the whole.
pub proof fn tails_do_not_depend_on_chunks(first: Seq<u8>, second: Seq<u8>)
    ensures
        last_bytes(last_bytes(first) + second) == last_bytes(first + second),
{
    assert(last_bytes(last_bytes(first) + second) =~= last_bytes(first + second));
}

/// A command passes exactly where it succeeds and does not run out of time.
pub proof fn late_successes_are_failures(run: GateRun)
    ensures
        outcome_of(run) == VerifyResult::Pass <==> run.success && !run.timed_out,
        run.timed_out || !run.success ==> outcome_of(run) == VerifyResult::Fail,
{
}

/// Evidence that nobody observed has neither an exit code nor a duration nor output; evidence that
/// was observed has an exit code and a duration, and its result is what was observed and not what
/// anybody said.
pub proof fn attested_evidence_is_told_apart(
    input: VerificationInput,
    said: VerifyResult,
    revision: String,
    hostname: String,
    run: GateRun,
    attested: CompletedVerification,
    observed: CompletedVerification,
)
    requires
        is_attested(input, said, revision, hostname, attested),
        is_observed(input, revision, hostname, run, observed),
    ensures
        attested.attested && !observed.attested,
        attested.exit_code is None && attested.duration_ms is None && attested.output_tail is None
            && !attested.timed_out,
        observed.exit_code is Some && observed.duration_ms == Some(run.duration_ms)
            && observed.timed_out == run.timed_out,
        run.exit_code is Some ==> observed.exit_code == run.exit_code,
        attested.result == said,
        observed.result == VerifyResult::Pass <==> run.success && !run.timed_out,
        attested.revision == revision && observed.revision == revision,
        attested.gate == input.gate && observed.gate == input.gate,
        attested.command == input.command && observed.command == input.command,
        attested.against_target == input.against_target && observed.against_target
            == input.against_target,
        attested.tested_tree is None && observed.tested_tree is None,
{
}

/// A run was made on a dirty worktree exactly where the tree before it is not that of the commit,
/// and the worktree moved under it exactly where the tree after it is not the one before; what the
/// run came to stays what it was.
pub proof fn worktrees_are_told_as_they_were(
    done: CompletedVerification,
    before: String,
    after: &str,
    commit_tree: &Option<String>,
    dirt: Option<Dirt>,
    r: CompletedVerification,
)
    requires
        records_worktree(done, before, after, commit_tree, dirt, r),
    ensures
        r.tested_tree == Some(before),
        *commit_tree is Some ==> (r.worktree_dirty == Some(true) <==> commit_tree->0@ != before@)
            && (r.worktree_dirty == Some(false) <==> commit_tree->0@ == before@),
        *commit_tree is None ==> r.worktree_dirty is None,
        r.tree_moved <==> after@ != before@,
        r.result == done.result && r.exit_code == done.exit_code && r.attested == done.attested
            && r.revision == done.revision && r.gate == done.gate && r.duration_ms
            == done.duration_ms,
{
}

/// What is recorded of a verification is what it came to; a tree that is not kept reachable is not
/// named, and nothing is then said of whether the worktree was clean.
pub proof fn records_name_only_kept_trees(
    item: CompletedVerification,
    tree: Option<String>,
    pinned: bool,
    r: Payload,
)
    requires
        records_verification(item, tree, pinned, r),
    ensures
        r matches Payload::VerificationRecorded {
            gate,
            command,
            revision,
            result,
            exit_code,
            duration_ms,
            attested,
            timed_out,
            tested_tree,
            worktree_dirty,
            tree_moved,
            against_target,
            falsification,
            probe,
            run_id,
            ..
        } && gate == item.gate && command == item.command && revision == item.revision && result
            == item.result && exit_code == item.exit_code && duration_ms == item.duration_ms
            && attested == item.attested && timed_out == item.timed_out && tree_moved
            == item.tree_moved && against_target == item.against_target && falsification
            == item.falsification && probe == item.probe && run_id == item.run_id && (pinned
            ==> tested_tree == item.tested_tree && worktree_dirty == item.worktree_dirty) && (
        !pinned ==> tested_tree is None && (item.tested_tree is Some ==> worktree_dirty is None)),
{
}

/// A batch that ran in parallel says nothing of cleanliness, and what each of its runs came to
/// stays what it was.
pub proof fn parallel_runs_leave_cleanliness_open(
    done: Vec<CompletedVerification>,
    before: &str,
    tree_moved: bool,
    i: int,
    r: Vec<CompletedVerification>,
)
    requires
        settles_parallel(done, before, tree_moved, r),
        0 <= i < done@.len(),
    ensures
        r@.len() == done@.len(),
        r@[i].worktree_dirty is None,
        r@[i].tree_moved == tree_moved,
        r@[i].result == done@[i].result && r@[i].gate == done@[i].gate && r@[i].exit_code
            == done@[i].exit_code,
        r@[i].tested_tree is Some && r@[i].tested_tree->0@ == before@,
{
    assert(same_but_for_worktree(r@[i], done@[i]));
}

} // verus!
