//! Every revision that a ledger records, and those that can no longer be found.
use crate::diff::Fate;
use crate::doctor::{finding_views, Finding, FindingView};
use crate::event::{Event, Payload};
use crate::rewrite::{short, shortened};
use crate::state::{ChangeState, FindingState};
use crate::table::{ascending, insert_name, lemma_views_listed, listed};
use crate::text::{among, chars_of, join, joined, same, trim, trimmed, views};
use vstd::prelude::*;

verus! {

/// A revision that is recorded, and what records it.
pub struct Note {
    pub revision: String,
    pub referent: String,
}

/// A revision that is recorded, by its views.
pub open spec fn note_view(note: Note) -> (Seq<char>, Seq<char>) {
    (note.revision@, note.referent@)
}

/// The revisions that are recorded, by their views.
pub open spec fn note_views(notes: Seq<Note>) -> Seq<(Seq<char>, Seq<char>)> {
    Seq::new(notes.len(), |i: int| note_view(notes[i]))
}

/// Whether a character is a hexadecimal digit.
pub open spec fn hex_digit(c: char) -> bool {
    ('0' <= c && c <= '9') || ('a' <= c && c <= 'f') || ('A' <= c && c <= 'F')
}

/// Whether a text can name a revision: hexadecimal digits, however many.
pub open spec fn names_revision(text: Seq<char>) -> bool {
    text.len() > 0 && forall|i: int| 0 <= i < text.len() ==> hex_digit(#[trigger] text[i])
}

/// What is noted of a revision that a change records.
pub open spec fn noted(change_id: Seq<char>, revision: Seq<char>, what: Seq<char>) -> Seq<
    (Seq<char>, Seq<char>),
> {
    if names_revision(trimmed(revision)) {
        seq![(trimmed(revision), change_id + " "@ + what)]
    } else {
        Seq::empty()
    }
}

fn is_revision(text: &str) -> (r: bool)
    ensures
        r == names_revision(text@),
{
    let chars = chars_of(text);
    for i in 0..chars.len()
        invariant
            chars@ == text@,
            forall|j: int| 0 <= j < i ==> hex_digit(#[trigger] chars@[j]),
    {
        let c = chars[i];
        if !(('0' <= c && c <= '9') || ('a' <= c && c <= 'f') || ('A' <= c && c <= 'F')) {
            assert(!hex_digit(text@[i as int]));
            return false;
        }
    }
    chars.len() > 0
}

fn note(notes: &mut Vec<Note>, change_id: &str, revision: &str, what: &str)
    ensures
        note_views(final(notes)@) == note_views(old(notes)@) + noted(
            change_id@,
            revision@,
            what@,
        ),
{
    let ghost before = note_views(notes@);
    let text = trim(revision);
    if is_revision(text.as_str()) {
        let mut referent = change_id.to_string();
        referent.append(" ");
        referent.append(what);
        notes.push(Note { revision: text, referent });
    }
    assert(note_views(notes@) =~= before + noted(change_id@, revision@, what@));
}

/// What is noted of a revision that a change may record.
pub open spec fn noted_option(change_id: Seq<char>, revision: Option<String>, what: Seq<char>) -> Seq<
    (Seq<char>, Seq<char>),
> {
    match revision {
        Some(revision) => noted(change_id, revision@, what),
        None => Seq::empty(),
    }
}

fn note_option(notes: &mut Vec<Note>, change_id: &str, revision: &Option<String>, what: &str)
    ensures
        note_views(final(notes)@) == note_views(old(notes)@) + noted_option(
            change_id@,
            *revision,
            what@,
        ),
{
    let ghost before = note_views(notes@);
    match revision {
        Some(revision) => note(notes, change_id, revision.as_str(), what),
        None => {
            assert(note_views(notes@) =~= before + noted_option(change_id@, *revision, what@));
        },
    }
}

/// What the first `n` patchsets record.
pub open spec fn patchset_notes(state: ChangeState, n: int) -> Seq<(Seq<char>, Seq<char>)>
    decreases n,
{
    if n <= 0 {
        Seq::empty()
    } else {
        let patchset = state.patchsets@[n - 1];
        patchset_notes(state, n - 1) + noted(
            state.change_id@,
            patchset.head@,
            patchset.id@ + " head"@,
        ) + noted(state.change_id@, patchset.base@, patchset.id@ + " base"@) + noted_option(
            state.change_id@,
            patchset.merge_base,
            patchset.id@ + " merge-base"@,
        )
    }
}

fn note_patchsets(notes: &mut Vec<Note>, state: &ChangeState)
    ensures
        note_views(final(notes)@) == note_views(old(notes)@) + patchset_notes(
            *state,
            state.patchsets@.len() as int,
        ),
{
    let ghost before = note_views(notes@);
    let id = state.change_id.as_str();
    assert(before + patchset_notes(*state, 0) =~= before);
    let all = &state.patchsets;
    for i in 0..all.len()
        invariant
            all@ == state.patchsets@,
            id@ == state.change_id@,
            note_views(notes@) == before + patchset_notes(*state, i as int),
    {
        let patchset = &all[i];
        let ghost so_far = patchset_notes(*state, i as int);
        let mut head = patchset.id.clone();
        head.append(" head");
        let mut base = patchset.id.clone();
        base.append(" base");
        let mut merge_base = patchset.id.clone();
        merge_base.append(" merge-base");
        note(notes, id, patchset.head.as_str(), head.as_str());
        note(notes, id, patchset.base.as_str(), base.as_str());
        note_option(notes, id, &patchset.merge_base, merge_base.as_str());
        assert(note_views(notes@) =~= before + patchset_notes(*state, i + 1));
    }
}

/// What the first `n` briefs record.
pub open spec fn brief_notes(state: ChangeState, n: int) -> Seq<(Seq<char>, Seq<char>)>
    decreases n,
{
    if n <= 0 {
        Seq::empty()
    } else {
        brief_notes(state, n - 1) + noted_option(
            state.change_id@,
            state.briefs@[n - 1].base_revision,
            "brief base"@,
        )
    }
}

fn note_briefs(notes: &mut Vec<Note>, state: &ChangeState)
    ensures
        note_views(final(notes)@) == note_views(old(notes)@) + brief_notes(
            *state,
            state.briefs@.len() as int,
        ),
{
    let ghost before = note_views(notes@);
    assert(before + brief_notes(*state, 0) =~= before);
    let all = &state.briefs;
    for i in 0..all.len()
        invariant
            all@ == state.briefs@,
            note_views(notes@) == before + brief_notes(*state, i as int),
    {
        note_option(notes, state.change_id.as_str(), &all[i].base_revision, "brief base");
        assert(note_views(notes@) =~= before + brief_notes(*state, i + 1));
    }
}

/// What the first `n` verifications record.
pub open spec fn verification_notes(state: ChangeState, n: int) -> Seq<(Seq<char>, Seq<char>)>
    decreases n,
{
    if n <= 0 {
        Seq::empty()
    } else {
        verification_notes(state, n - 1) + noted(
            state.change_id@,
            state.verifications@[n - 1].revision@,
            "verification"@,
        )
    }
}

fn note_verifications(notes: &mut Vec<Note>, state: &ChangeState)
    ensures
        note_views(final(notes)@) == note_views(old(notes)@) + verification_notes(
            *state,
            state.verifications@.len() as int,
        ),
{
    let ghost before = note_views(notes@);
    assert(before + verification_notes(*state, 0) =~= before);
    let all = &state.verifications;
    for i in 0..all.len()
        invariant
            all@ == state.verifications@,
            note_views(notes@) == before + verification_notes(*state, i as int),
    {
        note(notes, state.change_id.as_str(), all[i].revision.as_str(), "verification");
        assert(note_views(notes@) =~= before + verification_notes(*state, i + 1));
    }
}

/// What the first `n` revisions of one kind record.
pub open spec fn plain_notes(
    change_id: Seq<char>,
    revisions: Seq<String>,
    what: Seq<char>,
    n: int,
) -> Seq<(Seq<char>, Seq<char>)>
    decreases n,
{
    if n <= 0 {
        Seq::empty()
    } else {
        plain_notes(change_id, revisions, what, n - 1) + noted(
            change_id,
            revisions[n - 1]@,
            what,
        )
    }
}

fn note_all(notes: &mut Vec<Note>, change_id: &str, revisions: &Vec<String>, what: &str)
    ensures
        note_views(final(notes)@) == note_views(old(notes)@) + plain_notes(
            change_id@,
            revisions@,
            what@,
            revisions@.len() as int,
        ),
{
    let ghost before = note_views(notes@);
    assert(before + plain_notes(change_id@, revisions@, what@, 0) =~= before);
    for i in 0..revisions.len()
        invariant
            note_views(notes@) == before + plain_notes(change_id@, revisions@, what@, i as int),
    {
        note(notes, change_id, revisions[i].as_str(), what);
        assert(note_views(notes@) =~= before + plain_notes(
            change_id@,
            revisions@,
            what@,
            i + 1,
        ));
    }
}

/// What the first `n` findings record.
pub open spec fn finding_notes(change_id: Seq<char>, findings: Seq<FindingState>, n: int) -> Seq<
    (Seq<char>, Seq<char>),
>
    decreases n,
{
    if n <= 0 {
        Seq::empty()
    } else {
        finding_notes(change_id, findings, n - 1) + plain_notes(
            change_id,
            findings[n - 1].disposition_commits@,
            findings[n - 1].finding_id@ + " disposition"@,
            findings[n - 1].disposition_commits@.len() as int,
        )
    }
}

fn note_findings(notes: &mut Vec<Note>, change_id: &str, findings: &Vec<FindingState>)
    ensures
        note_views(final(notes)@) == note_views(old(notes)@) + finding_notes(
            change_id@,
            findings@,
            findings@.len() as int,
        ),
{
    let ghost before = note_views(notes@);
    assert(before + finding_notes(change_id@, findings@, 0) =~= before);
    for i in 0..findings.len()
        invariant
            note_views(notes@) == before + finding_notes(change_id@, findings@, i as int),
    {
        let mut what = findings[i].finding_id.clone();
        what.append(" disposition");
        note_all(notes, change_id, &findings[i].disposition_commits, what.as_str());
        assert(note_views(notes@) =~= before + finding_notes(change_id@, findings@, i + 1));
    }
}

/// What an event of a forge records.
pub open spec fn forge_note(change_id: Seq<char>, event: Event) -> Seq<(Seq<char>, Seq<char>)> {
    match event.payload {
        Payload::ForgeLink { head_sha, .. } => noted(change_id, head_sha@, "forge link head"@),
        Payload::ForgeChecks { pr_head, .. } => noted(change_id, pr_head@, "forge checks head"@),
        Payload::ForgePrState { merge_sha: Some(merge_sha), .. } => noted(
            change_id,
            merge_sha@,
            "forge merge"@,
        ),
        _ => Seq::empty(),
    }
}

/// What the first `n` events of a forge record.
pub open spec fn forge_notes(change_id: Seq<char>, events: Seq<Event>, n: int) -> Seq<
    (Seq<char>, Seq<char>),
>
    decreases n,
{
    if n <= 0 {
        Seq::empty()
    } else {
        forge_notes(change_id, events, n - 1) + forge_note(change_id, events[n - 1])
    }
}

fn note_forge(notes: &mut Vec<Note>, change_id: &str, events: &Vec<Event>)
    ensures
        note_views(final(notes)@) == note_views(old(notes)@) + forge_notes(
            change_id@,
            events@,
            events@.len() as int,
        ),
{
    let ghost before = note_views(notes@);
    assert(before + forge_notes(change_id@, events@, 0) =~= before);
    for i in 0..events.len()
        invariant
            note_views(notes@) == before + forge_notes(change_id@, events@, i as int),
    {
        match &events[i].payload {
            Payload::ForgeLink { head_sha, .. } => note(
                notes,
                change_id,
                head_sha.as_str(),
                "forge link head",
            ),
            Payload::ForgeChecks { pr_head, .. } => note(
                notes,
                change_id,
                pr_head.as_str(),
                "forge checks head",
            ),
            Payload::ForgePrState { merge_sha: Some(merge_sha), .. } => note(
                notes,
                change_id,
                merge_sha.as_str(),
                "forge merge",
            ),
            _ => {},
        }
        assert(note_views(notes@) =~= before + forge_notes(change_id@, events@, i + 1));
    }
}

/// The commit that a change was integrated as.
pub open spec fn integration(state: ChangeState) -> Option<String> {
    match state.closure {
        Some(closure) => closure.integrated_commit,
        None => None,
    }
}

/// Every revision that a change records, in its state and in what a forge said of it.
pub open spec fn change_notes(state: ChangeState, events: Seq<Event>) -> Seq<
    (Seq<char>, Seq<char>),
> {
    let id = state.change_id@;
    noted(id, state.base@, "base"@) + patchset_notes(state, state.patchsets@.len() as int)
        + brief_notes(state, state.briefs@.len() as int) + verification_notes(
        state,
        state.verifications@.len() as int,
    ) + plain_notes(
        id,
        state.run_revisions@,
        "verification run"@,
        state.run_revisions@.len() as int,
    ) + plain_notes(
        id,
        state.audit_revisions@,
        "audit"@,
        state.audit_revisions@.len() as int,
    ) + finding_notes(id, state.findings@, state.findings@.len() as int) + finding_notes(
        id,
        state.audit_findings@,
        state.audit_findings@.len() as int,
    ) + noted_option(id, integration(state), "integration"@) + forge_notes(
        id,
        events,
        events.len() as int,
    )
}

/// Every revision that a change records.
pub fn recorded_revisions(state: &ChangeState, events: &Vec<Event>) -> (r: Vec<Note>)
    ensures
        note_views(r@) == change_notes(*state, events@),
{
    let id = state.change_id.as_str();
    let mut notes: Vec<Note> = Vec::new();
    assert(note_views(notes@) =~= Seq::<(Seq<char>, Seq<char>)>::empty());
    note(&mut notes, id, state.base.as_str(), "base");
    assert(note_views(notes@) =~= noted(id@, state.base@, "base"@));
    note_patchsets(&mut notes, state);
    note_briefs(&mut notes, state);
    note_verifications(&mut notes, state);
    note_all(&mut notes, id, &state.run_revisions, "verification run");
    note_all(&mut notes, id, &state.audit_revisions, "audit");
    note_findings(&mut notes, id, &state.findings);
    note_findings(&mut notes, id, &state.audit_findings);
    let commit = match &state.closure {
        Some(closure) => closure.integrated_commit.clone(),
        None => None,
    };
    assert(commit == integration(*state));
    note_option(&mut notes, id, &commit, "integration");
    note_forge(&mut notes, id, events);
    notes
}

/// Whether a revision is recorded.
pub open spec fn is_recorded(notes: Seq<Note>, revision: Seq<char>) -> bool {
    exists|i: int| 0 <= i < notes.len() && (#[trigger] notes[i]).revision@ == revision
}

/// Whether something records a revision.
pub open spec fn refers(notes: Seq<Note>, revision: Seq<char>, referent: Seq<char>) -> bool {
    exists|i: int|
        0 <= i < notes.len() && (#[trigger] notes[i]).revision@ == revision && notes[i].referent@
            == referent
}

/// The revisions that are recorded, in order, each once.
pub fn wanted_revisions(notes: &Vec<Note>) -> (r: Vec<String>)
    ensures
        views(r@) == listed(|revision: Seq<char>| is_recorded(notes@, revision)),
{
    let mut out: Vec<String> = Vec::new();
    assert(views(out@) =~= Seq::<Seq<char>>::empty());
    for i in 0..notes.len()
        invariant
            ascending(views(out@)),
            forall|x: Seq<char>| #[trigger]
                among(out@, x) <==> is_recorded(notes@.take(i as int), x),
    {
        let ghost before = out@;
        let ghost head = notes@.take(i as int);
        let ghost after = notes@.take(i + 1);
        insert_name(&mut out, notes[i].revision.as_str());
        assert forall|x: Seq<char>| #[trigger] among(out@, x) <==> is_recorded(after, x) by {
            assert(among(before, x) <==> is_recorded(head, x));
            if is_recorded(head, x) {
                let k = choose|k: int| 0 <= k < head.len() && (#[trigger] head[k]).revision@ == x;
                assert(after[k].revision@ == x);
            }
            if is_recorded(after, x) {
                let k = choose|k: int|
                    0 <= k < after.len() && (#[trigger] after[k]).revision@ == x;
                if k < i {
                    assert(head[k].revision@ == x);
                }
            }
            assert(after[i as int] == notes@[i as int]);
        }
    }
    assert(notes@.take(notes@.len() as int) =~= notes@);
    proof {
        let wanted = |revision: Seq<char>| is_recorded(notes@, revision);
        assert forall|x: Seq<char>| #[trigger] among(out@, x) <==> wanted(x) by {}
        lemma_views_listed(out@, wanted);
    }
    out
}

/// What records a revision, in order, each once.
pub fn referents(notes: &Vec<Note>, revision: &str) -> (r: Vec<String>)
    ensures
        views(r@) == listed(|referent: Seq<char>| refers(notes@, revision@, referent)),
{
    let mut out: Vec<String> = Vec::new();
    assert(views(out@) =~= Seq::<Seq<char>>::empty());
    for i in 0..notes.len()
        invariant
            ascending(views(out@)),
            forall|x: Seq<char>| #[trigger]
                among(out@, x) <==> refers(notes@.take(i as int), revision@, x),
    {
        let ghost before = out@;
        let ghost head = notes@.take(i as int);
        let ghost after = notes@.take(i + 1);
        if same(notes[i].revision.as_str(), revision) {
            insert_name(&mut out, notes[i].referent.as_str());
        }
        assert forall|x: Seq<char>| #[trigger] among(out@, x) <==> refers(
            after,
            revision@,
            x,
        ) by {
            assert(among(before, x) <==> refers(head, revision@, x));
            if refers(head, revision@, x) {
                let k = choose|k: int|
                    0 <= k < head.len() && (#[trigger] head[k]).revision@ == revision@
                        && head[k].referent@ == x;
                assert(after[k].revision@ == revision@);
            }
            if refers(after, revision@, x) {
                let k = choose|k: int|
                    0 <= k < after.len() && (#[trigger] after[k]).revision@ == revision@
                        && after[k].referent@ == x;
                if k < i {
                    assert(head[k].revision@ == revision@);
                }
            }
            assert(after[i as int] == notes@[i as int]);
        }
    }
    assert(notes@.take(notes@.len() as int) =~= notes@);
    proof {
        let wanted = |referent: Seq<char>| refers(notes@, revision@, referent);
        assert forall|x: Seq<char>| #[trigger] among(out@, x) <==> wanted(x) by {}
        lemma_views_listed(out@, wanted);
    }
    out
}

/// What is said of a revision that can no longer be found.
pub open spec fn missing_advice(
    revision: Seq<char>,
    fate: Option<Fate>,
    referents: Seq<Seq<char>>,
) -> FindingView {
    let listed = joined(referents, ", "@);
    match fate {
        Some(Fate::Rewritten { successor }) => FindingView {
            code: "revision-rewritten"@,
            detail: shortened(revision) + " was rewritten to "@ + shortened(successor@) + ": "@
                + listed,
        },
        Some(Fate::Dropped) => FindingView {
            code: "revision-dropped"@,
            detail: shortened(revision) + " was dropped by a recorded rewrite: "@ + listed,
        },
        None => FindingView {
            code: "dangling-revision"@,
            detail: shortened(revision)
                + " is recorded but no longer in this repository: "@ + listed,
        },
    }
}

fn tell_missing(notes: &Vec<Note>, revision: &str, fate: &Option<Fate>) -> (r: Finding)
    ensures
        r@ == missing_advice(
            revision@,
            *fate,
            listed(|referent: Seq<char>| refers(notes@, revision@, referent)),
        ),
{
    let start = short(revision);
    let from = referents(notes, revision);
    let all = join(&from, ", ");
    let mut detail = start;
    match fate {
        Some(Fate::Rewritten { successor }) => {
            let end = short(successor.as_str());
            detail.append(" was rewritten to ");
            detail.append(end.as_str());
            detail.append(": ");
            detail.append(all.as_str());
            Finding { code: "revision-rewritten", detail }
        },
        Some(Fate::Dropped) => {
            detail.append(" was dropped by a recorded rewrite: ");
            detail.append(all.as_str());
            Finding { code: "revision-dropped", detail }
        },
        None => {
            detail.append(" is recorded but no longer in this repository: ");
            detail.append(all.as_str());
            Finding { code: "dangling-revision", detail }
        },
    }
}

/// What is said of the revisions that can no longer be found, with what became of each where a
/// recorded rewrite tells it.
pub fn inspect_dangling_revisions(
    notes: &Vec<Note>,
    missing: &Vec<String>,
    fates: &Vec<Option<Fate>>,
) -> (r: Vec<Finding>)
    requires
        fates@.len() == missing@.len(),
    ensures
        r@.len() == missing@.len(),
        forall|i: int|
            0 <= i < missing@.len() ==> #[trigger] finding_views(r@)[i] == missing_advice(
                missing@[i]@,
                fates@[i],
                listed(|referent: Seq<char>| refers(notes@, missing@[i]@, referent)),
            ),
{
    let mut out: Vec<Finding> = Vec::new();
    for i in 0..missing.len()
        invariant
            fates@.len() == missing@.len(),
            out@.len() == i,
            forall|j: int|
                0 <= j < i ==> (#[trigger] out@[j])@ == missing_advice(
                    missing@[j]@,
                    fates@[j],
                    listed(|referent: Seq<char>| refers(notes@, missing@[j]@, referent)),
                ),
    {
        out.push(tell_missing(notes, missing[i].as_str(), &fates[i]));
    }
    assert forall|i: int| 0 <= i < missing@.len() implies #[trigger] finding_views(out@)[i]
        == missing_advice(
        missing@[i]@,
        fates@[i],
        listed(|referent: Seq<char>| refers(notes@, missing@[i]@, referent)),
    ) by {
        assert(finding_views(out@)[i] == out@[i]@);
    }
    out
}

proof fn lemma_patchset_noted(state: ChangeState, n: int, i: int)
    requires
        0 <= i < n <= state.patchsets@.len(),
    ensures
        names_revision(trimmed(state.patchsets@[i].head@)) ==> exists|k: int|
            0 <= k < patchset_notes(state, n).len() && (#[trigger] patchset_notes(state, n)[k]).0
                == trimmed(state.patchsets@[i].head@),
        names_revision(trimmed(state.patchsets@[i].base@)) ==> exists|k: int|
            0 <= k < patchset_notes(state, n).len() && (#[trigger] patchset_notes(state, n)[k]).0
                == trimmed(state.patchsets@[i].base@),
    decreases n,
{
    let all = patchset_notes(state, n);
    let prior = patchset_notes(state, n - 1);
    let patchset = state.patchsets@[n - 1];
    let id = state.change_id@;
    let a = noted(id, patchset.head@, patchset.id@ + " head"@);
    let b = noted(id, patchset.base@, patchset.id@ + " base"@);
    let c = noted_option(id, patchset.merge_base, patchset.id@ + " merge-base"@);
    assert(all == prior + a + b + c);
    if i == n - 1 {
        if names_revision(trimmed(patchset.head@)) {
            assert(all[prior.len() as int] == a[0]);
        }
        if names_revision(trimmed(patchset.base@)) {
            assert(all[(prior.len() + a.len()) as int] == b[0]);
        }
    } else {
        lemma_patchset_noted(state, n - 1, i);
        if names_revision(trimmed(state.patchsets@[i].head@)) {
            let k = choose|k: int|
                0 <= k < prior.len() && (#[trigger] prior[k]).0 == trimmed(
                    state.patchsets@[i].head@,
                );
            assert(all[k] == prior[k]);
        }
        if names_revision(trimmed(state.patchsets@[i].base@)) {
            let k = choose|k: int|
                0 <= k < prior.len() && (#[trigger] prior[k]).0 == trimmed(
                    state.patchsets@[i].base@,
                );
            assert(all[k] == prior[k]);
        }
    }
}

/// The head and the base of every patchset are noted, and so is the base of the change and the
/// commit that it was integrated as: each where it can name a revision.
pub proof fn patchsets_and_integrations_are_noted(
    notes: Seq<Note>,
    state: ChangeState,
    events: Seq<Event>,
    i: int,
)
    requires
        note_views(notes) == change_notes(state, events),
    ensures
        0 <= i < state.patchsets@.len() && names_revision(trimmed(state.patchsets@[i].head@))
            ==> is_recorded(notes, trimmed(state.patchsets@[i].head@)),
        0 <= i < state.patchsets@.len() && names_revision(trimmed(state.patchsets@[i].base@))
            ==> is_recorded(notes, trimmed(state.patchsets@[i].base@)),
        names_revision(trimmed(state.base@)) ==> is_recorded(notes, trimmed(state.base@)),
        state.closure matches Some(closure) ==> (closure.integrated_commit matches Some(commit)
            ==> (names_revision(trimmed(commit@)) ==> is_recorded(notes, trimmed(commit@)))),
{
    let id = state.change_id@;
    let p0 = noted(id, state.base@, "base"@);
    let p1 = patchset_notes(state, state.patchsets@.len() as int);
    let p2 = brief_notes(state, state.briefs@.len() as int);
    let p3 = verification_notes(state, state.verifications@.len() as int);
    let p4 = plain_notes(
        id,
        state.run_revisions@,
        "verification run"@,
        state.run_revisions@.len() as int,
    );
    let p5 = plain_notes(
        id,
        state.audit_revisions@,
        "audit"@,
        state.audit_revisions@.len() as int,
    );
    let p6 = finding_notes(id, state.findings@, state.findings@.len() as int);
    let p7 = finding_notes(id, state.audit_findings@, state.audit_findings@.len() as int);
    let p8 = noted_option(id, integration(state), "integration"@);
    let p9 = forge_notes(id, events, events.len() as int);
    let head = p0 + p1 + p2 + p3 + p4 + p5 + p6 + p7;
    let all = head + p8 + p9;
    assert(note_views(notes) == all);
    assert(note_views(notes).len() == notes.len());
    assert forall|k: int| 0 <= k < all.len() implies is_recorded(notes, (#[trigger] all[k]).0) by {
        assert(note_views(notes)[k] == note_view(notes[k]));
        assert(notes[k].revision@ == all[k].0);
    }
    if names_revision(trimmed(state.base@)) {
        assert(all[0] == p0[0]);
    }
    if 0 <= i < state.patchsets@.len() {
        lemma_patchset_noted(state, state.patchsets@.len() as int, i);
        assert forall|k: int| 0 <= k < p1.len() implies is_recorded(
            notes,
            (#[trigger] p1[k]).0,
        ) by {
            assert(all[p0.len() + k] == p1[k]);
        }
    }
    if p8.len() > 0 {
        assert(all[head.len() as int] == p8[0]);
    }
}

/// What a forge said of a change is noted: the head of a link and of its checks, and what was
/// merged.
pub proof fn forge_heads_are_noted(change_id: Seq<char>, event: Event)
    ensures
        event.payload matches Payload::ForgeLink { head_sha, .. } ==> (names_revision(
            trimmed(head_sha@),
        ) ==> forge_note(change_id, event).len() == 1 && forge_note(change_id, event)[0].0
            == trimmed(head_sha@)),
        event.payload matches Payload::ForgeChecks { pr_head, .. } ==> (names_revision(
            trimmed(pr_head@),
        ) ==> forge_note(change_id, event).len() == 1 && forge_note(change_id, event)[0].0
            == trimmed(pr_head@)),
        event.payload matches Payload::ForgePrState { merge_sha: Some(merge_sha), .. } ==> (
        names_revision(trimmed(merge_sha@)) ==> forge_note(change_id, event).len() == 1
            && forge_note(change_id, event)[0].0 == trimmed(merge_sha@)),
{
}

/// What is said of a revision that cannot be found depends on what became of it: rewritten and
/// dropped ones are not dangling.
pub proof fn rewritten_revisions_are_not_dangling(
    revision: Seq<char>,
    fate: Option<Fate>,
    referents: Seq<Seq<char>>,
)
    ensures
        missing_advice(revision, fate, referents).code == "dangling-revision"@ <==> fate is None,
        missing_advice(revision, fate, referents).code == "revision-dropped"@ <==> fate == Some(
            Fate::Dropped,
        ),
{
    reveal_strlit("dangling-revision");
    reveal_strlit("revision-dropped");
    reveal_strlit("revision-rewritten");
    assert("dangling-revision"@.len() == 17 && "revision-dropped"@.len() == 16
        && "revision-rewritten"@.len() == 18);
}

} // verus!
