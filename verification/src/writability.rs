//! What an executor can write before it starts to work.
use crate::text::same;
use vstd::prelude::*;

verus! {

/// The format of what can be written, written as JSON.
pub const WRITABILITY_SCHEMA: &'static str = "arc-writability/1";

/// What must be writable, in the order in which it is tried.
#[derive(Clone, Copy, Debug, PartialEq, Eq, Structural)]
pub enum Capability {
    StoreRoot,
    Lock,
    Events,
    GitRef,
    Commit,
}

/// The capability that is tried at a position.
pub open spec fn capability_at(k: int) -> Capability {
    if k == 0 {
        Capability::StoreRoot
    } else if k == 1 {
        Capability::Lock
    } else if k == 2 {
        Capability::Events
    } else if k == 3 {
        Capability::GitRef
    } else {
        Capability::Commit
    }
}

fn find_capability(k: usize) -> (r: Capability)
    ensures
        r == capability_at(k as int),
{
    if k == 0 {
        Capability::StoreRoot
    } else if k == 1 {
        Capability::Lock
    } else if k == 2 {
        Capability::Events
    } else if k == 3 {
        Capability::GitRef
    } else {
        Capability::Commit
    }
}

/// The name of a capability.
pub open spec fn capability_text(capability: Capability) -> Seq<char> {
    match capability {
        Capability::StoreRoot => "store-root"@,
        Capability::Lock => "lock"@,
        Capability::Events => "events"@,
        Capability::GitRef => "git-ref"@,
        Capability::Commit => "commit"@,
    }
}

impl Capability {
    pub fn name(self) -> (r: &'static str)
        ensures
            r@ == capability_text(self),
    {
        match self {
            Capability::StoreRoot => "store-root",
            Capability::Lock => "lock",
            Capability::Events => "events",
            Capability::GitRef => "git-ref",
            Capability::Commit => "commit",
        }
    }
}

/// What a probe of a capability found: what was written, or why it could not be.
#[derive(Debug)]
pub enum Probed {
    Written { detail: String },
    Blocked { error: String },
}

/// Whether a probe found the capability.
pub open spec fn found(probed: Probed) -> bool {
    probed is Written
}

/// Whether the probes are those of a run: each but the last found its capability, and there are
/// no more than there are capabilities.
pub open spec fn is_run(probes: Seq<Probed>) -> bool {
    probes.len() <= 5 && forall|k: int| 0 <= k < probes.len() - 1 ==> found(#[trigger] probes[k])
}

/// Whether every capability was found.
pub open spec fn complete(probes: Seq<Probed>) -> bool {
    probes.len() == 5 && found(probes.last())
}

/// Whether `r` is what is tried next.
pub open spec fn is_next_probe(
    probes: &Vec<Probed>,
    r: Option<Capability>,
) -> bool {
    match r {
            Some(capability) => probes@.len() < 5 && (probes@.len() > 0 ==> found(probes@.last()))
                && capability == capability_at(probes@.len() as int),
            None => probes@.len() == 5 || (probes@.len() > 0 && !found(probes@.last())),
        }
}

/// What is tried next; nothing after a capability that is missing, or when all were tried.
pub fn next_probe(probes: &Vec<Probed>) -> (r: Option<Capability>)
    requires
        is_run(probes@),
    ensures
        is_next_probe(probes, r),
{
    if probes.len() == 5 {
        return None;
    }
    if probes.len() > 0 {
        if let Probed::Blocked { error } = &probes[probes.len() - 1] {
            return None;
        }
    }
    Some(find_capability(probes.len()))
}

/// Whether a signed commit can be made.
#[derive(Debug)]
pub enum Signing {
    NotRequired,
    Signed,
    Failed { error: String },
}

/// Where what is written to the journal lands.
#[derive(Debug)]
pub enum JournalPlace {
    Directory { dir: String },
    Outbox { dir: String, outbox: String },
    Unresolved { error: String },
}

/// One line of the report.
#[derive(Debug)]
pub struct WritabilityCheck {
    pub name: &'static str,
    pub ok: bool,
    pub detail: String,
    /// Whether a failure is told without deciding anything.
    pub advisory: bool,
    /// Whether the detail of a success is told.
    pub show_detail: bool,
}

/// A check, by its views.
pub struct CheckView {
    pub name: Seq<char>,
    pub ok: bool,
    pub detail: Seq<char>,
    pub advisory: bool,
    pub show_detail: bool,
}

impl View for WritabilityCheck {
    type V = CheckView;

    open spec fn view(&self) -> CheckView {
        CheckView {
            name: self.name@,
            ok: self.ok,
            detail: self.detail@,
            advisory: self.advisory,
            show_detail: self.show_detail,
        }
    }
}

/// The checks, by their views.
pub open spec fn check_views(checks: Seq<WritabilityCheck>) -> Seq<CheckView> {
    Seq::new(checks.len(), |i: int| checks[i]@)
}

/// What is told of a probe.
pub open spec fn probe_check(name: Seq<char>, probed: Probed) -> CheckView {
    match probed {
        Probed::Written { detail } => CheckView {
            name,
            ok: true,
            detail: detail@,
            advisory: false,
            show_detail: false,
        },
        Probed::Blocked { error } => CheckView {
            name,
            ok: false,
            detail: error@,
            advisory: false,
            show_detail: true,
        },
    }
}

/// What is told of signing.
pub open spec fn signing_check(signing: Signing) -> CheckView {
    let detail = match signing {
        Signing::NotRequired => "not required (commit.gpgsign is off)"@,
        Signing::Signed => "signed commit"@,
        Signing::Failed { error } =>
            "commit.gpgsign is on and the signature could not be produced: "@ + error@,
    };
    CheckView {
        name: "signing"@,
        ok: !(signing is Failed),
        detail,
        advisory: true,
        show_detail: true,
    }
}

/// What is told of the journal.
pub open spec fn journal_check(place: JournalPlace) -> CheckView {
    let detail = match place {
        JournalPlace::Directory { dir } => dir@,
        JournalPlace::Outbox { dir, outbox } => dir@ + " is unwritable: writes spool to "@ + outbox@
            + ", file them with `arc journal spool --promote`"@,
        JournalPlace::Unresolved { error } => "unresolved: "@ + error@,
    };
    CheckView {
        name: "journal"@,
        ok: true,
        detail,
        advisory: false,
        show_detail: !(place is Directory),
    }
}

/// What is told of the probes.
pub open spec fn probe_checks(probes: Seq<Probed>) -> Seq<CheckView> {
    Seq::new(probes.len(), |k: int| probe_check(capability_text(capability_at(k)), probes[k]))
}

fn told(name: &'static str, probed: &Probed) -> (r: WritabilityCheck)
    ensures
        r@ == probe_check(name@, *probed),
{
    match probed {
        Probed::Written { detail } => WritabilityCheck {
            name,
            ok: true,
            detail: detail.clone(),
            advisory: false,
            show_detail: false,
        },
        Probed::Blocked { error } => WritabilityCheck {
            name,
            ok: false,
            detail: error.clone(),
            advisory: false,
            show_detail: true,
        },
    }
}

/// What is told of signing. A signature that cannot be made here may be made by whoever lands the
/// work, so it stops no one.
pub fn probe_signing(signing: &Signing) -> (r: WritabilityCheck)
    ensures
        r@ == signing_check(*signing),
{
    let (ok, detail) = match signing {
        Signing::NotRequired => (true, "not required (commit.gpgsign is off)".to_string()),
        Signing::Signed => (true, "signed commit".to_string()),
        Signing::Failed { error } => {
            let mut out =
                "commit.gpgsign is on and the signature could not be produced: ".to_string();
            out.append(error.as_str());
            (false, out)
        },
    };
    WritabilityCheck { name: "signing", ok, detail, advisory: true, show_detail: true }
}

/// What is told of the journal. One that cannot be written is no failure: what is written waits
/// in an outbox.
pub fn probe_journal(place: &JournalPlace) -> (r: WritabilityCheck)
    ensures
        r@ == journal_check(*place),
{
    let (detail, show_detail) = match place {
        JournalPlace::Directory { dir } => (dir.clone(), false),
        JournalPlace::Outbox { dir, outbox } => {
            let mut out = dir.clone();
            out.append(" is unwritable: writes spool to ");
            out.append(outbox.as_str());
            out.append(", file them with `arc journal spool --promote`");
            (out, true)
        },
        JournalPlace::Unresolved { error } => {
            let mut out = "unresolved: ".to_string();
            out.append(error.as_str());
            (out, true)
        },
    };
    WritabilityCheck { name: "journal", ok: true, detail, advisory: false, show_detail }
}

/// Whether nothing that is required failed.
pub open spec fn passed(checks: Seq<CheckView>) -> bool {
    forall|i: int| 0 <= i < checks.len() ==> (#[trigger] checks[i]).ok || checks[i].advisory
}

/// The whole report: each probe, and where all found their capability, signing and the journal.
pub open spec fn report_of(probes: Seq<Probed>, signing: Signing, journal: JournalPlace) -> Seq<
    CheckView,
> {
    if complete(probes) {
        probe_checks(probes).push(signing_check(signing)).push(journal_check(journal))
    } else {
        probe_checks(probes)
    }
}

/// The report on a run of probes.
pub fn check_writable(probes: &Vec<Probed>, signing: &Signing, journal: &JournalPlace) -> (r: Vec<
    WritabilityCheck,
>)
    requires
        is_run(probes@),
    ensures
        check_views(r@) == report_of(probes@, *signing, *journal),
{
    let mut checks: Vec<WritabilityCheck> = Vec::new();
    for k in 0..probes.len()
        invariant
            checks@.len() == k,
            forall|i: int|
                0 <= i < k ==> (#[trigger] checks@[i])@ == probe_check(
                    capability_text(capability_at(i)),
                    probes@[i],
                ),
    {
        checks.push(told(find_capability(k).name(), &probes[k]));
    }
    assert(check_views(checks@) =~= probe_checks(probes@));
    if probes.len() == 5 && matches!(probes[4], Probed::Written { .. }) {
        let ghost before = checks@;
        checks.push(probe_signing(signing));
        checks.push(probe_journal(journal));
        assert(check_views(checks@) =~= probe_checks(probes@).push(signing_check(*signing)).push(
            journal_check(*journal),
        ));
    }
    checks
}

/// Whether `r` is the exit code of a report.
pub open spec fn is_exit_code(
    checks: &Vec<WritabilityCheck>,
    r: i32,
) -> bool {
    r == (if passed(check_views(checks@)) {
            0i32
        } else {
            1i32
        })
}

/// The exit code of a report: zero where nothing that is required failed.
pub fn finish(checks: &Vec<WritabilityCheck>) -> (r: i32)
    ensures
        is_exit_code(checks, r),
{
    for i in 0..checks.len()
        invariant
            forall|j: int| 0 <= j < i ==> (#[trigger] checks@[j])@.ok || checks@[j]@.advisory,
    {
        if !(checks[i].ok || checks[i].advisory) {
            assert(!(check_views(checks@)[i as int].ok || check_views(checks@)[i as int].advisory));
            return 1;
        }
    }
    assert forall|i: int| 0 <= i < checks@.len() implies (#[trigger] check_views(checks@)[i]).ok
        || check_views(checks@)[i].advisory by {
        assert(checks@[i]@.ok || checks@[i]@.advisory);
    }
    0
}

/// A report passes exactly when every capability that was tried was found: signing and the
/// journal decide nothing.
pub proof fn only_capabilities_decide(probes: Seq<Probed>, signing: Signing, journal: JournalPlace)
    requires
        is_run(probes),
    ensures
        passed(report_of(probes, signing, journal)) <==> (forall|k: int|
            0 <= k < probes.len() ==> found(#[trigger] probes[k])),
{
    let report = report_of(probes, signing, journal);
    let told = probe_checks(probes);
    assert forall|k: int| 0 <= k < probes.len() implies report[k] == told[k] by {}
    if passed(report) {
        assert forall|k: int| 0 <= k < probes.len() implies found(#[trigger] probes[k]) by {
            assert(report[k].ok || report[k].advisory);
        }
    } else {
        let i = choose|i: int|
            0 <= i < report.len() && !((#[trigger] report[i]).ok || report[i].advisory);
        if i < probes.len() {
            assert(!found(probes[i]));
        }
    }
}

/// The line of a check.
pub open spec fn check_text(check: CheckView) -> Seq<char> {
    if !check.ok {
        (if check.advisory {
            "warn"@
        } else {
            "fail"@
        }) + ": "@ + check.name + ": "@ + check.detail
    } else if check.show_detail {
        "ok: "@ + check.name + ": "@ + check.detail
    } else if check.detail == "skipped: unborn HEAD"@ {
        check.detail
    } else {
        "ok: "@ + check.name
    }
}

/// The line of a check.
pub fn check_line(check: &WritabilityCheck) -> (r: String)
    ensures
        r@ == check_text(check@),
{
    if !check.ok {
        let mut out = (if check.advisory { "warn" } else { "fail" }).to_string();
        out.append(": ");
        out.append(check.name);
        out.append(": ");
        out.append(check.detail.as_str());
        out
    } else if check.show_detail {
        let mut out = "ok: ".to_string();
        out.append(check.name);
        out.append(": ");
        out.append(check.detail.as_str());
        out
    } else if same(check.detail.as_str(), "skipped: unborn HEAD") {
        check.detail.clone()
    } else {
        let mut out = "ok: ".to_string();
        out.append(check.name);
        out
    }
}

/// Probing goes on exactly until something is missing or everything was tried.
pub proof fn probing_stops_at_what_is_missing(probes: &Vec<Probed>, r: Option<Capability>)
    requires
        is_next_probe(probes, r),
        is_run(probes@),
    ensures
        r is Some <==> probes@.len() < 5 && forall|k: int|
            0 <= k < probes@.len() ==> (#[trigger] probes@[k]) is Written,
        probes@.len() == 0 ==> r == Some(Capability::StoreRoot),
        r == Some(Capability::Commit) ==> probes@.len() == 4,
{
    if r is Some {
        assert forall|k: int| 0 <= k < probes@.len() implies (#[trigger] probes@[k]) is Written by {
            if k < probes@.len() - 1 {
                assert(found(probes@[k]));
            } else {
                assert(probes@[k] == probes@.last());
            }
        }
    }
    if r is None && probes@.len() < 5 {
        assert(!found(probes@[probes@.len() - 1]));
    }
}

/// The report fails exactly where something that is required could not be written.
pub proof fn reports_fail_on_what_is_required(checks: &Vec<WritabilityCheck>, r: i32)
    requires
        is_exit_code(checks, r),
    ensures
        r == 0 <==> forall|i: int|
            0 <= i < checks@.len() ==> (#[trigger] checks@[i]).ok || checks@[i].advisory,
        r == 0 || r == 1,
{
    let seen = check_views(checks@);
    if passed(seen) {
        assert forall|i: int| 0 <= i < checks@.len() implies (#[trigger] checks@[i]).ok
            || checks@[i].advisory by {
            assert(seen[i].ok || seen[i].advisory);
        }
    } else {
        let i = choose|i: int| 0 <= i < seen.len() && !((#[trigger] seen[i]).ok
            || seen[i].advisory);
        assert(!(checks@[i].ok || checks@[i].advisory));
    }
}

/// Signing is only ever advised on, and the journal never fails.
pub proof fn signing_and_journal_stop_no_one(signing: Signing, place: JournalPlace)
    ensures
        signing_check(signing).advisory,
        signing_check(signing).ok <==> !(signing is Failed),
        journal_check(place).ok,
{
}

} // verus!
