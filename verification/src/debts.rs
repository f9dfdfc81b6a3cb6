//! What is owed: changes that were integrated before anyone else had looked at them.
use crate::order::{chosen, ints, lemma_chosen};
use crate::state::{ledger, ChangeState};
use crate::table::{ascending, insert_name, lemma_views_listed, listed};
use crate::text::{among, contains, decimal, decimal_of, join, joined, push_text, same, views};
use crate::time::{before, elapsed, seconds_between, Timestamp};
use vstd::prelude::*;

verus! {

/// A declared debt.
pub struct Debt {
    pub reason: String,
    pub patchset_id: Option<String>,
    pub declared_at: Timestamp,
}

/// Whether the patchset at `k` is the first under an identity.
pub open spec fn first_patchset(state: ChangeState, id: Seq<char>, k: int) -> bool {
    &&& 0 <= k < state.patchsets@.len()
    &&& state.patchsets@[k].id@ == id
    &&& forall|j: int| 0 <= j < k ==> (#[trigger] state.patchsets@[j]).id@ != id
}

/// Whether no patchset stands under an identity.
pub open spec fn no_patchset(state: ChangeState, id: Seq<char>) -> bool {
    forall|j: int| 0 <= j < state.patchsets@.len() ==> (#[trigger] state.patchsets@[j]).id@ != id
}

/// What the integration of a change brought into its target, where both ends were recorded.
pub open spec fn integrated_range(state: ChangeState) -> Option<(Seq<char>, Seq<char>)> {
    match state.closure {
        Some(closure) => match (closure.target_before, closure.integrated_commit) {
            (Some(target), Some(commit)) => Some((target@, commit@)),
            _ => None,
        },
        None => None,
    }
}

/// What a patchset spans.
pub open spec fn patchset_range(state: ChangeState, k: int) -> (Seq<char>, Seq<char>) {
    (state.patchsets@[k].base@, state.patchsets@[k].head@)
}

/// What the latest patchset spans.
pub open spec fn latest_range(state: ChangeState) -> Option<(Seq<char>, Seq<char>)> {
    if state.patchsets@.len() > 0 {
        Some(patchset_range(state, state.patchsets@.len() - 1))
    } else {
        None
    }
}

/// Whether `range` is what a debt is owed for: what the integration brought in, or else what the
/// patchset spans that the debt was declared for, or else what the latest one spans.
pub open spec fn is_debt_range(
    range: Option<(Seq<char>, Seq<char>)>,
    state: ChangeState,
    debt: Debt,
) -> bool {
    if integrated_range(state) is Some {
        range == integrated_range(state)
    } else {
        match debt.patchset_id {
            Some(id) => if no_patchset(state, id@) {
                range == latest_range(state)
            } else {
                range is Some && exists|k: int| #[trigger]
                    first_patchset(state, id@, k) && range == Some(patchset_range(state, k))
            },
            None => range == latest_range(state),
        }
    }
}

/// Two revisions, by their views.
pub open spec fn range_view(range: Option<(String, String)>) -> Option<(Seq<char>, Seq<char>)> {
    match range {
        Some((base, head)) => Some((base@, head@)),
        None => None,
    }
}

fn spanned(state: &ChangeState, k: usize) -> (r: (String, String))
    requires
        k < state.patchsets@.len(),
    ensures
        (r.0@, r.1@) == patchset_range(*state, k as int),
{
    (state.patchsets[k].base.clone(), state.patchsets[k].head.clone())
}

/// The two revisions between which a debt is owed.
pub fn debt_range(state: &ChangeState, debt: &Debt) -> (r: Option<(String, String)>)
    ensures
        is_debt_range(range_view(r), *state, *debt),
{
    if let Some(closure) = &state.closure {
        if let Some(target) = &closure.target_before {
            if let Some(commit) = &closure.integrated_commit {
                return Some((target.clone(), commit.clone()));
            }
        }
    }
    if let Some(id) = &debt.patchset_id {
        let all = &state.patchsets;
        for k in 0..all.len()
            invariant
                all@ == state.patchsets@,
                debt.patchset_id == Some(*id),
                integrated_range(*state) is None,
                forall|j: int| 0 <= j < k ==> (#[trigger] state.patchsets@[j]).id@ != id@,
        {
            if same(all[k].id.as_str(), id.as_str()) {
                assert(first_patchset(*state, id@, k as int));
                assert(!no_patchset(*state, id@)) by {
                    assert(state.patchsets@[k as int].id@ == id@);
                }
                return Some(spanned(state, k));
            }
        }
        assert(no_patchset(*state, id@));
    }
    if state.patchsets.len() > 0 {
        Some(spanned(state, state.patchsets.len() - 1))
    } else {
        None
    }
}

/// One debt that is owed. The title and the reason stand on one line each.
pub struct DebtEntry {
    pub change_id: String,
    pub title: String,
    pub reason: String,
    pub declared_at: Timestamp,
    pub surfaces: Vec<String>,
}

/// The surfaces, in words.
pub open spec fn surfaces_text(surfaces: Seq<String>) -> Seq<char> {
    if surfaces.len() == 0 {
        "unknown"@
    } else {
        joined(views(surfaces), ", "@)
    }
}

fn write_surfaces(surfaces: &Vec<String>) -> (r: String)
    ensures
        r@ == surfaces_text(surfaces@),
{
    if surfaces.len() == 0 {
        "unknown".to_string()
    } else {
        join(surfaces, ", ")
    }
}

/// What is said of one debt.
pub open spec fn entry_text(entry: DebtEntry) -> Seq<char> {
    entry.change_id@ + " ("@ + entry.title@ + "): owed: "@ + entry.reason@ + "; surfaces: "@
        + surfaces_text(entry.surfaces@)
}

impl DebtEntry {
    pub fn surface_detail(&self) -> (r: String)
        ensures
            r@ == surfaces_text(self.surfaces@),
    {
        write_surfaces(&self.surfaces)
    }

    pub fn detail(&self) -> (r: String)
        ensures
            r@ == entry_text(*self),
    {
        let surfaces = self.surface_detail();
        let mut out = self.change_id.clone();
        out.append(" (");
        out.append(self.title.as_str());
        out.append("): owed: ");
        out.append(self.reason.as_str());
        out.append("; surfaces: ");
        out.append(surfaces.as_str());
        out
    }
}

/// All debts that are owed.
pub struct DebtSummary {
    pub entries: Vec<DebtEntry>,
    pub oldest_age_seconds: u64,
    pub surfaces: Vec<String>,
    pub priority_advisory: bool,
}

/// What is known of the debt of one change that is outstanding.
pub struct Outstanding {
    pub title: String,
    pub reason: String,
    pub declared_at: Timestamp,
    pub surfaces: Vec<String>,
}

/// The positions of the changes that owe.
pub open spec fn owing(debts: Seq<Option<Outstanding>>) -> Seq<int> {
    chosen(debts.len(), |i: int| debts[i] is Some)
}

/// Whether an entry tells what one change owes.
pub open spec fn is_entry(entry: DebtEntry, state: ChangeState, debt: Outstanding) -> bool {
    &&& entry.change_id@ == state.change_id@
    &&& entry.title@ == debt.title@
    &&& entry.reason@ == debt.reason@
    &&& entry.declared_at == debt.declared_at
    &&& entry.surfaces@.len() == debt.surfaces@.len()
    &&& views(entry.surfaces@) == views(debt.surfaces@)
}

/// Whether the entries are, one for one, the debts of the changes that owe.
pub open spec fn are_entries(
    entries: Seq<DebtEntry>,
    changes: Seq<ChangeState>,
    debts: Seq<Option<Outstanding>>,
    positions: Seq<int>,
) -> bool {
    entries.len() == positions.len() && forall|k: int|
        0 <= k < entries.len() ==> is_entry(
            #[trigger] entries[k],
            changes[positions[k]],
            debts[positions[k]]->0,
        )
}

/// The instant of the first of some debts.
pub open spec fn earliest(entries: Seq<DebtEntry>, now: Timestamp) -> Timestamp
    decreases entries.len(),
{
    if entries.len() == 0 {
        now
    } else if entries.len() == 1 {
        entries[0].declared_at
    } else {
        let sofar = earliest(entries.drop_last(), now);
        if before(entries.last().declared_at, sofar) {
            entries.last().declared_at
        } else {
            sofar
        }
    }
}

/// Whether a debt lies on a surface.
pub open spec fn lies_on(entries: Seq<DebtEntry>, surface: Seq<char>) -> bool {
    exists|k: int| 0 <= k < entries.len() && among((#[trigger] entries[k]).surfaces@, surface)
}

/// Whether the debts come before other work: there are more than a number of them, or the oldest
/// is older than a number of seconds.
pub open spec fn pressing(
    owed: nat,
    age: u64,
    count_threshold: Option<usize>,
    age_threshold: Option<u64>,
) -> bool {
    owed > 0 && ((count_threshold matches Some(limit) && owed > limit) || (
    age_threshold matches Some(limit) && age > limit))
}

fn find_earliest(entries: &Vec<DebtEntry>, now: Timestamp) -> (r: Timestamp)
    ensures
        r == earliest(entries@, now),
{
    if entries.len() == 0 {
        return now;
    }
    let mut at = entries[0].declared_at;
    assert(entries@.take(1).len() == 1);
    for k in 1..entries.len()
        invariant
            at == earliest(entries@.take(k as int), now),
    {
        assert(entries@.take(k + 1).drop_last() =~= entries@.take(k as int));
        if entries[k].declared_at.is_before(&at) {
            at = entries[k].declared_at;
        }
    }
    assert(entries@.take(entries@.len() as int) =~= entries@);
    at
}

fn collect_surfaces(entries: &Vec<DebtEntry>) -> (r: Vec<String>)
    ensures
        views(r@) == listed(|surface: Seq<char>| lies_on(entries@, surface)),
{
    let mut out: Vec<String> = Vec::new();
    assert(views(out@) =~= Seq::<Seq<char>>::empty());
    for k in 0..entries.len()
        invariant
            ascending(views(out@)),
            forall|s: Seq<char>| #[trigger]
                among(out@, s) <==> lies_on(entries@.take(k as int), s),
    {
        let surfaces = &entries[k].surfaces;
        let ghost earlier = entries@.take(k as int);
        for j in 0..surfaces.len()
            invariant
                ascending(views(out@)),
                forall|s: Seq<char>| #[trigger]
                    among(out@, s) <==> lies_on(earlier, s) || among(
                        surfaces@.take(j as int),
                        s,
                    ),
        {
            let ghost held = out@;
            insert_name(&mut out, surfaces[j].as_str());
            assert forall|s: Seq<char>| #[trigger] among(out@, s) <==> lies_on(earlier, s)
                || among(surfaces@.take(j + 1), s) by {
                lemma_among_step(surfaces@, j as int, s);
                assert(among(held, s) <==> lies_on(earlier, s) || among(
                    surfaces@.take(j as int),
                    s,
                ));
            }
        }
        assert(surfaces@.take(surfaces@.len() as int) =~= surfaces@);
        assert forall|s: Seq<char>| #[trigger] among(out@, s) <==> lies_on(
            entries@.take(k + 1),
            s,
        ) by {
            lemma_lies_step(entries@, k as int, s);
        }
    }
    assert(entries@.take(entries@.len() as int) =~= entries@);
    proof {
        let wanted = |surface: Seq<char>| lies_on(entries@, surface);
        assert forall|s: Seq<char>| #[trigger] among(out@, s) <==> wanted(s) by {}
        lemma_views_listed(out@, wanted);
    }
    out
}

proof fn lemma_among_step(strings: Seq<String>, j: int, s: Seq<char>)
    requires
        0 <= j < strings.len(),
    ensures
        among(strings.take(j + 1), s) <==> among(strings.take(j), s) || strings[j]@ == s,
{
    if among(strings.take(j + 1), s) {
        let i = choose|i: int| 0 <= i < j + 1 && #[trigger] strings.take(j + 1)[i]@ == s;
        if i < j {
            assert(strings.take(j)[i]@ == s);
        }
    }
    if among(strings.take(j), s) {
        let i = choose|i: int| 0 <= i < j && #[trigger] strings.take(j)[i]@ == s;
        assert(strings.take(j + 1)[i]@ == s);
    }
    if strings[j]@ == s {
        assert(strings.take(j + 1)[j]@ == s);
    }
}

proof fn lemma_lies_step(entries: Seq<DebtEntry>, k: int, s: Seq<char>)
    requires
        0 <= k < entries.len(),
    ensures
        lies_on(entries.take(k + 1), s) <==> lies_on(entries.take(k), s) || among(
            entries[k].surfaces@,
            s,
        ),
{
    let after = entries.take(k + 1);
    let earlier = entries.take(k);
    if lies_on(after, s) {
        let i = choose|i: int| 0 <= i < after.len() && among((#[trigger] after[i]).surfaces@, s);
        if i < k {
            assert(among(earlier[i].surfaces@, s));
        }
    }
    if lies_on(earlier, s) {
        let i = choose|i: int| 0 <= i < k && among((#[trigger] earlier[i]).surfaces@, s);
        assert(among(after[i].surfaces@, s));
    }
    if among(entries[k].surfaces@, s) {
        assert(among(after[k].surfaces@, s));
    }
}

/// All debts that are owed, in the order of their changes.
pub fn collect_debts(
    changes: &Vec<ChangeState>,
    debts: &Vec<Option<Outstanding>>,
    now: Timestamp,
    count_threshold: Option<usize>,
    age_threshold: Option<u64>,
) -> (r: DebtSummary)
    requires
        ledger(changes@),
        debts@.len() == changes@.len(),
    ensures
        are_entries(r.entries@, changes@, debts@, owing(debts@)),
        r.oldest_age_seconds == elapsed(earliest(r.entries@, now), now),
        views(r.surfaces@) == listed(|surface: Seq<char>| lies_on(r.entries@, surface)),
        r.priority_advisory == pressing(
            r.entries@.len(),
            r.oldest_age_seconds,
            count_threshold,
            age_threshold,
        ),
{
    let mut entries: Vec<DebtEntry> = Vec::new();
    let ghost wanted = |i: int| debts@[i] is Some;
    for i in 0..debts.len()
        invariant
            debts@.len() == changes@.len(),
            wanted == (|i: int| debts@[i] is Some),
            are_entries(entries@, changes@, debts@, chosen(i as nat, wanted)),
    {
        let ghost positions = chosen(i as nat, wanted);
        if let Some(debt) = &debts[i] {
            let surfaces = debt.surfaces.clone();
            assert(views(surfaces@) =~= views(debt.surfaces@));
            let entry = DebtEntry {
                change_id: changes[i].change_id.clone(),
                title: debt.title.clone(),
                reason: debt.reason.clone(),
                declared_at: debt.declared_at,
                surfaces,
            };
            assert(chosen((i + 1) as nat, wanted) == positions.push(i as int));
            entries.push(entry);
        }
    }
    let oldest_age_seconds: u64 = seconds_between(find_earliest(&entries, now), now);
    let surfaces = collect_surfaces(&entries);
    let many = match count_threshold {
        Some(limit) => entries.len() > limit,
        None => false,
    };
    let old_enough = match age_threshold {
        Some(limit) => oldest_age_seconds > limit,
        None => false,
    };
    let priority_advisory = entries.len() > 0 && (many || old_enough);
    DebtSummary { entries, oldest_age_seconds, surfaces, priority_advisory }
}

/// What is said of all debts, with the age of the oldest in words.
pub open spec fn summary_text(summary: DebtSummary, age: Seq<char>) -> Seq<char> {
    decimal_of(summary.entries@.len()) + " outstanding; oldest "@ + age + "; surfaces ("@
        + decimal_of(summary.surfaces@.len()) + "): "@ + surfaces_text(summary.surfaces@) + (
    if summary.priority_advisory {
        "; priority: advisory"@
    } else {
        ""@
    })
}

/// Whether an entry lies on one of the surfaces.
pub open spec fn touches(entry: DebtEntry, changed: Seq<String>) -> bool {
    exists|k: int|
        0 <= k < entry.surfaces@.len() && among(changed, (#[trigger] entry.surfaces@[k])@)
}

/// The positions of the entries that lie on one of the surfaces.
pub open spec fn touching_positions(summary: DebtSummary, changed: Seq<String>) -> Seq<int> {
    chosen(summary.entries@.len(), |i: int| touches(summary.entries@[i], changed))
}

/// The lines of the debts on some surfaces.
pub open spec fn touched_lines(summary: DebtSummary, changed: Seq<String>) -> Seq<Seq<char>> {
    Seq::new(
        touching_positions(summary, changed).len(),
        |k: int| "    debt "@ + entry_text(summary.entries@[touching_positions(summary, changed)[k]]),
    )
}

/// Something to know about a change that does not stop it.
pub struct Advisory {
    pub code: &'static str,
    pub detail: String,
}

/// Whether the advisories tell of the debts: the summary first, and then each debt on a surface
/// that the change touches.
pub open spec fn advises(
    advisories: Seq<Advisory>,
    summary: DebtSummary,
    age: Seq<char>,
    changed: Seq<String>,
) -> bool {
    let touched = touching_positions(summary, changed);
    if summary.entries@.len() == 0 {
        advisories.len() == 0
    } else {
        &&& advisories.len() == touched.len() + 1
        &&& advisories[0].code@ == "debt-summary"@
        &&& advisories[0].detail@ == summary_text(summary, age)
        &&& forall|k: int|
            1 <= k < advisories.len() ==> (#[trigger] advisories[k]).code@ == "debt-touched"@
                && advisories[k].detail@ == entry_text(summary.entries@[touched[k - 1]])
    }
}

impl DebtSummary {
    pub fn is_empty(&self) -> (r: bool)
        ensures
            r == (self.entries@.len() == 0),
    {
        self.entries.len() == 0
    }

    pub fn detail(&self, age: &str) -> (r: String)
        ensures
            r@ == summary_text(*self, age@),
    {
        let surfaces = write_surfaces(&self.surfaces);
        let count = decimal(self.surfaces.len() as u64);
        let mut out = decimal(self.entries.len() as u64);
        out.append(" outstanding; oldest ");
        out.append(age);
        out.append("; surfaces (");
        out.append(count.as_str());
        out.append("): ");
        out.append(surfaces.as_str());
        if self.priority_advisory {
            out.append("; priority: advisory");
        } else {
            out.append("");
        }
        out
    }

    /// The line that tells what is owed and how to discharge it, where anything is.
    pub fn render_summary(&self, age: &str) -> (r: Option<String>)
        ensures
            match r {
                Some(text) => self.entries@.len() > 0 && text@ == "debt-owed ("@ + decimal_of(
                    self.entries@.len(),
                ) + "): "@ + summary_text(*self, age@)
                    + "; discharge with: arc audit <change> --verdict <v>"@,
                None => self.entries@.len() == 0,
            },
    {
        if self.is_empty() {
            return None;
        }
        let count = decimal(self.entries.len() as u64);
        let detail = self.detail(age);
        let mut out = "debt-owed (".to_string();
        out.append(count.as_str());
        out.append("): ");
        out.append(detail.as_str());
        out.append("; discharge with: arc audit <change> --verdict <v>");
        Some(out)
    }

    /// The lines of the debts on the surfaces that a change touches.
    pub fn render_touched(&self, changed: &Vec<String>) -> (r: Vec<String>)
        ensures
            views(r@) == touched_lines(*self, changed@),
    {
        let touched = self.touching(changed);
        let mut out: Vec<String> = Vec::new();
        let ghost lines = |k: int|
            "    debt "@ + entry_text(self.entries@[touching_positions(*self, changed@)[k]]);
        assert(views(out@) =~= Seq::new(0, lines));
        for k in 0..touched.len()
            invariant
                lines == (|k: int|
                    "    debt "@ + entry_text(
                        self.entries@[touching_positions(*self, changed@)[k]],
                    )),
                ints(touched@) == touching_positions(*self, changed@),
                views(out@) == Seq::new(k as nat, lines),
        {
            proof {
                lemma_chosen(
                    self.entries@.len(),
                    |i: int| touches(self.entries@[i], changed@),
                );
                assert(ints(touched@)[k as int] == touched@[k as int]);
            }
            let detail = self.entries[touched[k]].detail();
            let mut line = "    debt ".to_string();
            line.append(detail.as_str());
            push_text(&mut out, line);
            assert(views(out@) =~= Seq::new((k + 1) as nat, lines));
        }
        assert(views(out@) =~= touched_lines(*self, changed@));
        out
    }

    /// The positions of the debts on the surfaces that a change touches.
    pub fn touching(&self, changed: &Vec<String>) -> (r: Vec<usize>)
        ensures
            ints(r@) == touching_positions(*self, changed@),
    {
        let mut out: Vec<usize> = Vec::new();
        let ghost wanted = |i: int| touches(self.entries@[i], changed@);
        assert(ints(out@) =~= Seq::<int>::empty());
        for i in 0..self.entries.len()
            invariant
                wanted == (|i: int| touches(self.entries@[i], changed@)),
                ints(out@) == chosen(i as nat, wanted),
        {
            let surfaces = &self.entries[i].surfaces;
            let mut found = false;
            for k in 0..surfaces.len()
                invariant
                    i < self.entries@.len(),
                    surfaces@ == self.entries@[i as int].surfaces@,
                    found == exists|j: int|
                        0 <= j < k && among(changed@, (#[trigger] surfaces@[j])@),
            {
                if contains(changed, surfaces[k].as_str()) {
                    assert(among(changed@, surfaces@[k as int]@));
                    found = true;
                }
            }
            assert(found == touches(self.entries@[i as int], changed@));
            let ghost before = ints(out@);
            if found {
                out.push(i);
                assert(ints(out@) =~= before.push(i as int));
            }
        }
        out
    }

    /// What to know of the debts when working on a change.
    pub fn advisories_for(&self, age: &str, changed: &Vec<String>) -> (r: Vec<Advisory>)
        ensures
            advises(r@, *self, age@, changed@),
    {
        let mut out: Vec<Advisory> = Vec::new();
        if self.is_empty() {
            return out;
        }
        out.push(Advisory { code: "debt-summary", detail: self.detail(age) });
        let touched = self.touching(changed);
        let ghost positions = touching_positions(*self, changed@);
        for k in 0..touched.len()
            invariant
                ints(touched@) == positions,
                positions == touching_positions(*self, changed@),
                out@.len() == k + 1,
                out@[0].code@ == "debt-summary"@,
                out@[0].detail@ == summary_text(*self, age@),
                forall|m: int|
                    1 <= m < out@.len() ==> (#[trigger] out@[m]).code@ == "debt-touched"@
                        && out@[m].detail@ == entry_text(self.entries@[positions[m - 1]]),
        {
            proof {
                lemma_chosen(
                    self.entries@.len(),
                    |i: int| touches(self.entries@[i], changed@),
                );
                assert(ints(touched@)[k as int] == touched@[k as int]);
                assert(positions.contains(positions[k as int]));
            }
            out.push(
                Advisory { code: "debt-touched", detail: self.entries[touched[k]].detail() },
            );
        }
        out
    }
}

/// What is owed is a look at what the integration brought in, where that was recorded, whatever the
/// patchsets say; and otherwise at the patchset that the debt names.
pub proof fn debts_span_what_was_integrated(
    range: Option<(Seq<char>, Seq<char>)>,
    state: ChangeState,
    debt: Debt,
)
    requires
        is_debt_range(range, state, debt),
    ensures
        state.closure matches Some(closure) ==> (closure.target_before is Some
            && closure.integrated_commit is Some ==> range == Some(
            (closure.target_before->0@, closure.integrated_commit->0@),
        )),
        state.closure is None && debt.patchset_id is None ==> (range is Some
            <==> state.patchsets@.len() > 0),
        state.closure is None && debt.patchset_id is None && state.patchsets@.len() > 0 ==> range
            == Some((state.patchsets@.last().base@, state.patchsets@.last().head@)),
        state.closure is None ==> (debt.patchset_id matches Some(id) ==> (forall|k: int|
            0 <= k < state.patchsets@.len() && (#[trigger] state.patchsets@[k]).id@ == id@ && (
            forall|j: int|
                0 <= j < state.patchsets@.len() && j != k ==> (#[trigger] state.patchsets@[j]).id@
                    != id@) ==> range == Some(
                (state.patchsets@[k].base@, state.patchsets@[k].head@),
            ))),
{
    if state.closure is None {
        if let Some(id) = debt.patchset_id {
            assert forall|k: int|
                0 <= k < state.patchsets@.len() && (#[trigger] state.patchsets@[k]).id@ == id@ && (
                forall|j: int|
                    0 <= j < state.patchsets@.len() && j != k ==> (
                    #[trigger] state.patchsets@[j]).id@ != id@) implies range == Some(
                (state.patchsets@[k].base@, state.patchsets@[k].head@),
            ) by {
                assert(!no_patchset(state, id@));
                let m = choose|m: int| #[trigger]
                    first_patchset(state, id@, m) && range == Some(patchset_range(state, m));
                assert(state.patchsets@[m].id@ == id@);
                assert(m == k);
            }
        }
    }
}

/// The oldest debt is one of those that are owed, and none was declared before it.
pub proof fn the_oldest_debt_is_the_earliest(entries: Seq<DebtEntry>, now: Timestamp)
    requires
        entries.len() > 0,
    ensures
        exists|k: int|
            0 <= k < entries.len() && (#[trigger] entries[k]).declared_at == earliest(entries, now),
        forall|k: int|
            0 <= k < entries.len() ==> !before(
                (#[trigger] entries[k]).declared_at,
                earliest(entries, now),
            ),
    decreases entries.len(),
{
    if entries.len() == 1 {
        assert(entries[0].declared_at == earliest(entries, now));
    } else {
        let rest = entries.drop_last();
        the_oldest_debt_is_the_earliest(rest, now);
        let k = choose|k: int|
            0 <= k < rest.len() && (#[trigger] rest[k]).declared_at == earliest(rest, now);
        assert(entries[k] == rest[k]);
        assert(entries[entries.len() - 1] == entries.last());
        assert forall|k: int| 0 <= k < entries.len() implies !before(
            (#[trigger] entries[k]).declared_at,
            earliest(entries, now),
        ) by {
            if k < entries.len() - 1 {
                assert(rest[k] == entries[k]);
                assert(!before(rest[k].declared_at, earliest(rest, now)));
            }
        }
    }
}

/// Debts come before other work only where there are any, and then exactly where more are owed, or
/// the oldest has been for longer, than is allowed.
pub proof fn debts_press_beyond_their_limits(
    owed: nat,
    age: u64,
    count_threshold: Option<usize>,
    age_threshold: Option<u64>,
)
    ensures
        owed == 0 ==> !pressing(owed, age, count_threshold, age_threshold),
        count_threshold is None && age_threshold is None ==> !pressing(
            owed,
            age,
            count_threshold,
            age_threshold,
        ),
        pressing(owed, age, count_threshold, age_threshold) ==> pressing(
            owed + 1,
            age,
            count_threshold,
            age_threshold,
        ),
        count_threshold matches Some(limit) ==> (owed > limit ==> pressing(
            owed,
            age,
            count_threshold,
            age_threshold,
        )) && (owed <= limit && age_threshold is None ==> !pressing(
            owed,
            age,
            count_threshold,
            age_threshold,
        )),
        age_threshold matches Some(limit) ==> (owed > 0 && age > limit ==> pressing(
            owed,
            age,
            count_threshold,
            age_threshold,
        )) && (age <= limit && count_threshold is None ==> !pressing(
            owed,
            age,
            count_threshold,
            age_threshold,
        )),
{
}

/// Every change that owes has an entry, under its identity and with its reason.
pub proof fn every_debt_has_an_entry(
    entries: Seq<DebtEntry>,
    changes: Seq<ChangeState>,
    debts: Seq<Option<Outstanding>>,
    i: int,
)
    requires
        are_entries(entries, changes, debts, owing(debts)),
        0 <= i < debts.len(),
        debts[i] is Some,
    ensures
        exists|k: int|
            0 <= k < entries.len() && (#[trigger] entries[k]).change_id@ == changes[i].change_id@
                && entries[k].reason@ == debts[i]->0.reason@,
{
    let wanted = |i: int| debts[i] is Some;
    lemma_chosen(debts.len(), wanted);
    assert(owing(debts) =~= chosen(debts.len(), wanted));
    assert(wanted(i));
    assert(owing(debts).contains(i));
    let k = choose|k: int| 0 <= k < owing(debts).len() && owing(debts)[k] == i;
    assert(is_entry(entries[k], changes[owing(debts)[k]], debts[owing(debts)[k]]->0));
}

/// A debt is told to a change exactly where the change touches one of its surfaces.
pub proof fn touched_debts_are_told(
    summary: DebtSummary,
    changed: Seq<String>,
    i: int,
)
    requires
        0 <= i < summary.entries@.len(),
    ensures
        touching_positions(summary, changed).contains(i) <==> exists|a: int, b: int|
            0 <= a < summary.entries@[i].surfaces@.len() && 0 <= b < changed.len() && (
            #[trigger] summary.entries@[i].surfaces@[a])@ == (#[trigger] changed[b])@,
{
    let wanted = |i: int| touches(summary.entries@[i], changed);
    lemma_chosen(summary.entries@.len(), wanted);
    assert(touching_positions(summary, changed) =~= chosen(summary.entries@.len(), wanted));
    assert(chosen(summary.entries@.len(), wanted).contains(i) <==> wanted(i));
    let entry = summary.entries@[i];
    if touches(entry, changed) {
        let a = choose|a: int|
            0 <= a < entry.surfaces@.len() && among(changed, (#[trigger] entry.surfaces@[a])@);
        let b = choose|b: int| 0 <= b < changed.len() && #[trigger] changed[b]@
            == entry.surfaces@[a]@;
        assert(summary.entries@[i].surfaces@[a]@ == changed[b]@);
    }
}

} // verus!
