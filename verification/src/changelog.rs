//! The changelog: which entries are unreleased, how they read, and where they go in the file.
use crate::model::Closure;
use crate::order::{in_order, sort_positions, strict_order};
use crate::state::{ChangeState, ChangelogEntry};
use crate::table::{
    ascending, insert_name, lemma_views_listed, listed, lists_hold_what_is_wanted,
};
use crate::text::{
    among, begins, chars_of, ends, ends_with, find_from, first_index, join, joined, lemma_first_index, less,
    lemma_precedes_irreflexive, lemma_precedes_total, lemma_precedes_transitive, opt_view, precedes,
    same, split, split_of, stands, stands_at, strip_prefix, text_between, trim, trimmed, views,
};
use crate::time::{instant_text, write_instant, Timestamp};
use crate::wrap::{as_list_item, list_item};
use vstd::prelude::*;

verus! {

/// The format of a changelog that is written as JSON.
pub const CHANGELOG_SCHEMA: &'static str = "arc-changelog/1";

/// A recorded entry, as the changelog projects it.
pub struct ProjectedEntry<'a> {
    pub change_id: &'a str,
    pub change: &'a str,
    pub category: &'a str,
    pub body: &'a str,
    pub integrated_commit: Option<&'a str>,
    pub integrated_at: Option<Timestamp>,
    pub recorded: RecordedProvenance<'a>,
}

/// Who recorded an entry, and when.
pub struct RecordedProvenance<'a> {
    pub event_id: &'a str,
    pub actor: &'a str,
    pub on_behalf_of: Option<&'a str>,
    pub effective_author: &'a str,
    pub harness: Option<&'a str>,
    pub session: Option<&'a str>,
    pub created_at: Timestamp,
}

/// What was asked of the changelog.
pub struct ChangelogArgs {
    pub reference: Option<String>,
    pub category: Option<String>,
    pub body_file: Option<String>,
    pub json: bool,
    pub provenance: bool,
    pub since: Option<String>,
    pub write: bool,
}

/// What the changelog is to do.
#[derive(Clone, Copy, Debug, PartialEq, Eq, Structural)]
pub enum ChangelogRequest {
    Record,
    Show,
    Project,
}

/// Why the changelog does nothing.
#[derive(Clone, Copy, Debug, PartialEq, Eq, Structural)]
pub enum ChangelogRefusal {
    RecordingNeedsChange,
    BodyNeedsCategory,
    CategoryNeedsBody,
    RecordingTakesNoFlags,
    ReviewerMayNotRecord,
    WriteTakesNoChange,
    ProvenanceIsNotWritten,
}

/// What is asked for, or why it is refused: recording where a category or a body is given,
/// showing one change where one is named, and else the projection of all.
pub open spec fn requested(args: ChangelogArgs, reviewer: bool) -> Result<
    ChangelogRequest,
    ChangelogRefusal,
> {
    if args.category is Some || args.body_file is Some {
        if args.reference is None {
            Err(ChangelogRefusal::RecordingNeedsChange)
        } else if args.category is None {
            Err(ChangelogRefusal::BodyNeedsCategory)
        } else if args.body_file is None {
            Err(ChangelogRefusal::CategoryNeedsBody)
        } else if args.json || args.provenance || args.since is Some || args.write {
            Err(ChangelogRefusal::RecordingTakesNoFlags)
        } else if reviewer {
            Err(ChangelogRefusal::ReviewerMayNotRecord)
        } else {
            Ok(ChangelogRequest::Record)
        }
    } else if args.reference is Some {
        if args.write {
            Err(ChangelogRefusal::WriteTakesNoChange)
        } else {
            Ok(ChangelogRequest::Show)
        }
    } else if args.provenance && args.write {
        Err(ChangelogRefusal::ProvenanceIsNotWritten)
    } else {
        Ok(ChangelogRequest::Project)
    }
}

/// What is asked of the changelog, or why it is refused.
pub fn changelog(args: &ChangelogArgs, reviewer: bool) -> (r: Result<
    ChangelogRequest,
    ChangelogRefusal,
>)
    ensures
        r == requested(*args, reviewer),
{
    if args.category.is_some() || args.body_file.is_some() {
        if args.reference.is_none() {
            return Err(ChangelogRefusal::RecordingNeedsChange);
        }
        if args.category.is_none() {
            return Err(ChangelogRefusal::BodyNeedsCategory);
        }
        if args.body_file.is_none() {
            return Err(ChangelogRefusal::CategoryNeedsBody);
        }
        if args.json || args.provenance || args.since.is_some() || args.write {
            return Err(ChangelogRefusal::RecordingTakesNoFlags);
        }
        if reviewer {
            return Err(ChangelogRefusal::ReviewerMayNotRecord);
        }
        return Ok(ChangelogRequest::Record);
    }
    if args.reference.is_some() {
        if args.write {
            return Err(ChangelogRefusal::WriteTakesNoChange);
        }
        return Ok(ChangelogRequest::Show);
    }
    if args.provenance && args.write {
        return Err(ChangelogRefusal::ProvenanceIsNotWritten);
    }
    Ok(ChangelogRequest::Project)
}

/// A code point, an upper case letter of ASCII by that of its lower case.
pub open spec fn folded(c: char) -> int {
    if 'A' <= c && c <= 'Z' {
        c as int + 32
    } else {
        c as int
    }
}

/// Whether two texts are the same but for the case of letters of ASCII.
pub open spec fn same_but_for_case(a: Seq<char>, b: Seq<char>) -> bool {
    a.len() == b.len() && forall|i: int|
        0 <= i < a.len() ==> folded(#[trigger] a[i]) == folded(b[i])
}

fn fold_case(c: char) -> (r: u32)
    ensures
        r == folded(c),
{
    if 'A' <= c && c <= 'Z' {
        c as u32 + 32
    } else {
        c as u32
    }
}

/// Whether two texts are the same but for the case of letters of ASCII.
pub fn same_ignoring_case(left: &str, right: &str) -> (r: bool)
    ensures
        r == same_but_for_case(left@, right@),
{
    let a = chars_of(left);
    let b = chars_of(right);
    if a.len() != b.len() {
        return false;
    }
    for i in 0..a.len()
        invariant
            a@ == left@,
            b@ == right@,
            a@.len() == b@.len(),
            forall|k: int| 0 <= k < i ==> folded(#[trigger] a@[k]) == folded(b@[k]),
    {
        if fold_case(a[i]) != fold_case(b[i]) {
            return false;
        }
    }
    true
}

/// The number of canonical categories.
pub const CANONICAL_CATEGORIES: usize = 6;

/// The headings of the canonical categories, in the order in which they are rendered.
pub open spec fn canonical_heading(i: int) -> Seq<char> {
    if i == 0 {
        "Added"@
    } else if i == 1 {
        "Changed"@
    } else if i == 2 {
        "Deprecated"@
    } else if i == 3 {
        "Removed"@
    } else if i == 4 {
        "Fixed"@
    } else {
        "Security"@
    }
}

fn heading_of(i: usize) -> (r: &'static str)
    ensures
        r@ == canonical_heading(i as int),
{
    if i == 0 {
        "Added"
    } else if i == 1 {
        "Changed"
    } else if i == 2 {
        "Deprecated"
    } else if i == 3 {
        "Removed"
    } else if i == 4 {
        "Fixed"
    } else {
        "Security"
    }
}

/// Whether a category is the `i`th canonical one.
pub open spec fn is_canonical(category: Seq<char>, i: int) -> bool {
    same_but_for_case(category, canonical_heading(i))
}

/// Whether a category is none of the canonical ones.
pub open spec fn is_custom(category: Seq<char>) -> bool {
    forall|i: int| 0 <= i < CANONICAL_CATEGORIES ==> !#[trigger] is_canonical(category, i)
}

/// The heading of a canonical category.
pub fn canonical_category(category: &str) -> (r: Option<&'static str>)
    ensures
        match r {
            Some(heading) => exists|i: int|
                0 <= i < CANONICAL_CATEGORIES && #[trigger] is_canonical(category@, i) && heading@
                    == canonical_heading(i) && forall|k: int|
                    0 <= k < i ==> !#[trigger] is_canonical(category@, k),
            None => is_custom(category@),
        },
{
    for i in 0..CANONICAL_CATEGORIES
        invariant
            forall|k: int| 0 <= k < i ==> !#[trigger] is_canonical(category@, k),
    {
        let heading = heading_of(i);
        if same_ignoring_case(category, heading) {
            assert(is_canonical(category@, i as int));
            return Some(heading);
        }
        assert(!is_canonical(category@, i as int));
    }
    None
}

/// A text, or a dash where there is none.
pub open spec fn or_dash(value: Option<&str>) -> Seq<char> {
    match value {
        Some(text) => text@,
        None => "-"@,
    }
}

fn append_or_dash(out: &mut String, value: Option<&str>)
    ensures
        final(out)@ == old(out)@ + or_dash(value),
{
    match value {
        Some(text) => out.append(text),
        None => out.append("-"),
    }
}

/// Where an entry comes from, on one line.
pub open spec fn provenance_text(change: Seq<char>, recorded: RecordedProvenance) -> Seq<char> {
    "> arc provenance: change="@ + change + " event="@ + recorded.event_id@ + " actor="@
        + recorded.actor@ + " on_behalf_of="@ + or_dash(recorded.on_behalf_of) + " harness="@
        + or_dash(recorded.harness) + " session="@ + or_dash(recorded.session) + " created_at="@
        + instant_text(recorded.created_at.secs(), recorded.created_at.nanos())
}

/// Where an entry comes from, on one line.
pub fn provenance_line(entry: &ProjectedEntry<'_>) -> (r: String)
    ensures
        r@ == provenance_text(entry.change@, entry.recorded),
{
    let mut out = String::new();
    out.append("> arc provenance: change=");
    out.append(entry.change);
    out.append(" event=");
    out.append(entry.recorded.event_id);
    out.append(" actor=");
    out.append(entry.recorded.actor);
    out.append(" on_behalf_of=");
    append_or_dash(&mut out, entry.recorded.on_behalf_of);
    out.append(" harness=");
    append_or_dash(&mut out, entry.recorded.harness);
    out.append(" session=");
    append_or_dash(&mut out, entry.recorded.session);
    out.append(" created_at=");
    out.append(write_instant(entry.recorded.created_at).as_str());
    out
}

/// One entry as it is rendered.
pub open spec fn entry_text(entry: &ProjectedEntry, provenance: bool) -> Seq<char> {
    list_item(entry.body@) + seq!['\n'] + (if provenance {
        provenance_text(entry.change@, entry.recorded) + seq!['\n']
    } else {
        Seq::empty()
    })
}

/// Some entries as they are rendered, with a blank line between each two.
pub open spec fn entries_text(entries: Seq<&ProjectedEntry>, provenance: bool) -> Seq<char>
    decreases entries.len(),
{
    if entries.len() == 0 {
        Seq::empty()
    } else if entries.len() == 1 {
        entry_text(entries[0], provenance)
    } else {
        entries_text(entries.drop_last(), provenance) + seq!['\n'] + entry_text(
            entries.last(),
            provenance,
        )
    }
}

/// A category as it is rendered: nothing where it has no entries.
pub open spec fn category_text(
    heading: Seq<char>,
    entries: Seq<&ProjectedEntry>,
    provenance: bool,
) -> Seq<char> {
    if entries.len() == 0 {
        Seq::empty()
    } else {
        "\n### "@ + heading + "\n\n"@ + entries_text(entries, provenance)
    }
}

/// Adds a category to what has been rendered.
pub fn render_category(
    rendered: &mut String,
    heading: &str,
    entries: &Vec<&ProjectedEntry<'_>>,
    provenance: bool,
)
    ensures
        final(rendered)@ == old(rendered)@ + category_text(heading@, entries@, provenance),
{
    let ghost before = rendered@;
    if entries.len() == 0 {
        assert(before + Seq::<char>::empty() =~= before);
        return;
    }
    rendered.append("\n### ");
    rendered.append(heading);
    rendered.append("\n\n");
    let ghost start = rendered@;
    assert(entries@.take(0) =~= Seq::empty());
    assert(start + Seq::<char>::empty() =~= start);
    for k in 0..entries.len()
        invariant
            rendered@ == start + entries_text(entries@.take(k as int), provenance),
    {
        let ghost so_far = entries@.take(k as int);
        let ghost next = entries@.take(k + 1);
        assert(next.drop_last() =~= so_far);
        assert(next.last() == entries@[k as int]);
        if k > 0 {
            rendered.push('\n');
        }
        rendered.append(as_list_item(entries[k].body).as_str());
        rendered.push('\n');
        if provenance {
            rendered.append(provenance_line(entries[k]).as_str());
            rendered.push('\n');
        }
        assert(rendered@ =~= start + entries_text(next, provenance));
    }
    assert(entries@.take(entries@.len() as int) =~= entries@);
    assert(rendered@ =~= before + category_text(heading@, entries@, provenance));
}

/// The entries, by reference.
pub open spec fn refs<'a, 'b>(entries: Seq<ProjectedEntry<'a>>) -> Seq<&'b ProjectedEntry<'a>> {
    Seq::new(entries.len(), |i: int| &entries[i])
}

/// The entries of the `i`th canonical category, in their order.
pub open spec fn canonical_entries<'a, 'b>(entries: Seq<ProjectedEntry<'a>>, i: int) -> Seq<
    &'b ProjectedEntry<'a>,
> {
    refs(entries).filter(|e: &ProjectedEntry<'a>| is_canonical(e.category@, i))
}

/// The entries of a category that is spelled exactly so, in their order.
pub open spec fn custom_entries<'a, 'b>(
    entries: Seq<ProjectedEntry<'a>>,
    heading: Seq<char>,
) -> Seq<&'b ProjectedEntry<'a>> {
    refs(entries).filter(|e: &ProjectedEntry<'a>| e.category@ == heading)
}

/// The first `n` canonical categories as they are rendered.
pub open spec fn canonical_text(
    entries: Seq<ProjectedEntry>,
    n: int,
    provenance: bool,
) -> Seq<char>
    decreases n,
{
    if n <= 0 {
        Seq::empty()
    } else {
        canonical_text(entries, n - 1, provenance) + category_text(
            canonical_heading(n - 1),
            canonical_entries(entries, n - 1),
            provenance,
        )
    }
}

/// Some custom categories as they are rendered.
pub open spec fn custom_text(
    entries: Seq<ProjectedEntry>,
    headings: Seq<Seq<char>>,
    provenance: bool,
) -> Seq<char>
    decreases headings.len(),
{
    if headings.len() == 0 {
        Seq::empty()
    } else {
        custom_text(entries, headings.drop_last(), provenance) + category_text(
            headings.last(),
            custom_entries(entries, headings.last()),
            provenance,
        )
    }
}

/// Whether some entry has a category that is none of the canonical ones.
pub open spec fn has_custom(entries: Seq<ProjectedEntry>, category: Seq<char>) -> bool {
    is_custom(category) && exists|i: int|
        0 <= i < entries.len() && #[trigger] entries[i].category@ == category
}

/// The categories of the entries that are none of the canonical ones, in ascending order.
pub open spec fn custom_headings(entries: Seq<ProjectedEntry>) -> Seq<Seq<char>> {
    listed(|category: Seq<char>| has_custom(entries, category))
}

/// The unreleased section: the canonical categories in their order, then the custom ones.
pub open spec fn unreleased_text(entries: Seq<ProjectedEntry>, provenance: bool) -> Seq<char> {
    "## [Unreleased]\n"@ + canonical_text(entries, CANONICAL_CATEGORIES as int, provenance)
        + custom_text(entries, custom_headings(entries), provenance)
}

fn pick_canonical<'a, 'b>(entries: &'b Vec<ProjectedEntry<'a>>, i: usize) -> (r: Vec<
    &'b ProjectedEntry<'a>,
>)
    ensures
        r@ == canonical_entries(entries@, i as int),
{
    let mut out: Vec<&'b ProjectedEntry<'a>> = Vec::new();
    let ghost all = refs(entries@);
    let ghost wanted = |e: &ProjectedEntry<'a>| is_canonical(e.category@, i as int);
    assert(all.take(0).filter(wanted) =~= Seq::empty()) by {
        reveal(Seq::filter);
    }
    for k in 0..entries.len()
        invariant
            all == refs(entries@),
            wanted == (|e: &ProjectedEntry<'a>| is_canonical(e.category@, i as int)),
            out@ == all.take(k as int).filter(wanted),
    {
        proof {
            reveal(Seq::filter);
            assert(all.take(k + 1).drop_last() =~= all.take(k as int));
            assert(all.take(k + 1).last() == all[k as int]);
        }
        if same_ignoring_case(entries[k].category, heading_of(i)) {
            out.push(&entries[k]);
        }
    }
    assert(all.take(all.len() as int) =~= all);
    out
}

fn pick_custom<'a, 'b>(entries: &'b Vec<ProjectedEntry<'a>>, heading: &str) -> (r: Vec<
    &'b ProjectedEntry<'a>,
>)
    ensures
        r@ == custom_entries(entries@, heading@),
{
    let mut out: Vec<&'b ProjectedEntry<'a>> = Vec::new();
    let ghost all = refs(entries@);
    let ghost wanted = |e: &ProjectedEntry<'a>| e.category@ == heading@;
    assert(all.take(0).filter(wanted) =~= Seq::empty()) by {
        reveal(Seq::filter);
    }
    for k in 0..entries.len()
        invariant
            all == refs(entries@),
            wanted == (|e: &ProjectedEntry<'a>| e.category@ == heading@),
            out@ == all.take(k as int).filter(wanted),
    {
        proof {
            reveal(Seq::filter);
            assert(all.take(k + 1).drop_last() =~= all.take(k as int));
            assert(all.take(k + 1).last() == all[k as int]);
        }
        if same(entries[k].category, heading) {
            out.push(&entries[k]);
        }
    }
    assert(all.take(all.len() as int) =~= all);
    out
}

/// The unreleased section of the changelog.
pub fn render_unreleased(entries: &Vec<ProjectedEntry<'_>>, provenance: bool) -> (r: String)
    ensures
        r@ == unreleased_text(entries@, provenance),
{
    let mut rendered = "## [Unreleased]\n".to_string();
    let ghost head = rendered@;
    assert(head + Seq::<char>::empty() =~= head);
    for i in 0..CANONICAL_CATEGORIES
        invariant
            rendered@ == head + canonical_text(entries@, i as int, provenance),
    {
        let picked = pick_canonical(entries, i);
        render_category(&mut rendered, heading_of(i), &picked, provenance);
        assert(rendered@ =~= head + canonical_text(entries@, i + 1, provenance));
    }
    let mut headings: Vec<String> = Vec::new();
    for k in 0..entries.len()
        invariant
            ascending(views(headings@)),
            forall|x: Seq<char>| #[trigger]
                among(headings@, x) <==> has_custom(entries@.take(k as int), x),
    {
        let ghost before = headings@;
        let ghost shorter = entries@.take(k as int);
        let ghost longer = entries@.take(k + 1);
        let custom = canonical_category(entries[k].category).is_none();
        if custom {
            insert_name(&mut headings, entries[k].category);
        }
        proof {
            assert forall|x: Seq<char>| #[trigger] among(headings@, x) <==> has_custom(
                longer,
                x,
            ) by {
                assert(among(before, x) <==> has_custom(shorter, x));
                if has_custom(shorter, x) {
                    let j = choose|j: int|
                        0 <= j < shorter.len() && #[trigger] shorter[j].category@ == x;
                    assert(longer[j].category@ == x);
                }
                if has_custom(longer, x) {
                    let j = choose|j: int|
                        0 <= j < longer.len() && #[trigger] longer[j].category@ == x;
                    if j < k {
                        assert(shorter[j].category@ == x);
                    } else {
                        assert(x == entries@[k as int].category@);
                    }
                }
                if custom {
                    assert(longer[k as int].category@ == entries@[k as int].category@);
                }
            }
        }
    }
    proof {
        assert(entries@.take(entries@.len() as int) =~= entries@);
        lemma_views_listed(headings@, |category: Seq<char>| has_custom(entries@, category));
    }
    let ghost texts = views(headings@);
    let ghost middle = rendered@;
    assert(texts.take(0) =~= Seq::empty());
    assert(middle + Seq::<char>::empty() =~= middle);
    for k in 0..headings.len()
        invariant
            texts == views(headings@),
            rendered@ == middle + custom_text(entries@, texts.take(k as int), provenance),
    {
        let heading = headings[k].as_str();
        let picked = pick_custom(entries, heading);
        proof {
            assert(texts.take(k + 1).drop_last() =~= texts.take(k as int));
            assert(texts.take(k + 1).last() == heading@);
        }
        render_category(&mut rendered, heading, &picked, provenance);
        assert(rendered@ =~= middle + custom_text(entries@, texts.take(k + 1), provenance));
    }
    assert(texts.take(texts.len() as int) =~= texts);
    rendered
}

/// An optional text, by reference.
pub open spec fn borrowed(value: Option<&str>) -> Option<Seq<char>> {
    match value {
        Some(text) => Some(text@),
        None => None,
    }
}

fn borrow<'a>(value: &'a Option<String>) -> (r: Option<&'a str>)
    ensures
        borrowed(r) == opt_view(*value),
{
    match value {
        Some(text) => Some(text.as_str()),
        None => None,
    }
}

/// Whether `recorded` says where `entry` comes from.
pub open spec fn recounts(recorded: RecordedProvenance, entry: ChangelogEntry) -> bool {
    &&& recorded.event_id@ == entry.event_id@
    &&& recorded.actor@ == entry.actor@
    &&& borrowed(recorded.on_behalf_of) == opt_view(entry.on_behalf_of)
    &&& recorded.effective_author@ == entry.author()
    &&& borrowed(recorded.harness) == opt_view(entry.harness)
    &&& borrowed(recorded.session) == opt_view(entry.session)
    &&& recorded.created_at == entry.created_at
}

/// Whether `projected` is the projection of an entry of a change.
pub open spec fn projects(
    projected: ProjectedEntry,
    state: ChangeState,
    entry: ChangelogEntry,
) -> bool {
    &&& projected.change_id@ == state.change_id@
    &&& projected.change@ == state.slug@
    &&& projected.category@ == entry.category@
    &&& projected.body@ == entry.body@
    &&& match state.closure {
        Some(closure) => if closure.outcome == Closure::Integrated {
            &&& borrowed(projected.integrated_commit) == opt_view(closure.integrated_commit)
            &&& projected.integrated_at == Some(closure.created_at)
        } else {
            projected.integrated_commit is None && projected.integrated_at is None
        },
        None => projected.integrated_commit is None && projected.integrated_at is None,
    }
    &&& recounts(projected.recorded, entry)
}

/// The projection of an entry of a change.
pub fn projected_state_entry<'a>(state: &'a ChangeState, entry: &'a ChangelogEntry) -> (r:
    ProjectedEntry<'a>)
    ensures
        projects(r, *state, *entry),
{
    let (integrated_commit, integrated_at): (Option<&'a str>, Option<Timestamp>) =
        match &state.closure {
        Some(closure) => if closure.outcome == Closure::Integrated {
            (borrow(&closure.integrated_commit), Some(closure.created_at))
        } else {
            (None, None)
        },
        None => (None, None),
    };
    ProjectedEntry {
        change_id: state.change_id.as_str(),
        change: state.slug.as_str(),
        category: entry.category.as_str(),
        body: entry.body.as_str(),
        integrated_commit,
        integrated_at,
        recorded: RecordedProvenance {
            event_id: entry.event_id.as_str(),
            actor: entry.actor.as_str(),
            on_behalf_of: borrow(&entry.on_behalf_of),
            effective_author: entry.effective_author(),
            harness: borrow(&entry.harness),
            session: borrow(&entry.session),
            created_at: entry.created_at,
        },
    }
}

/// The commit that a change was integrated as.
pub open spec fn landed_as(state: ChangeState) -> Option<Seq<char>> {
    match state.closure {
        Some(closure) => if closure.outcome == Closure::Integrated {
            opt_view(closure.integrated_commit)
        } else {
            None
        },
        None => None,
    }
}

/// The commit that a change was integrated as: what is compared with the release boundary.
pub fn landed_commit(state: &ChangeState) -> (r: Option<&str>)
    ensures
        borrowed(r) == landed_as(*state),
{
    match &state.closure {
        Some(closure) => if closure.outcome == Closure::Integrated {
            borrow(&closure.integrated_commit)
        } else {
            None
        },
        None => None,
    }
}

/// Whether a change has an entry that no release holds yet.
pub open spec fn unreleased(state: ChangeState, released: bool) -> bool {
    landed_as(state) is Some && !released && state.changelog is Some
}

/// The projection of the entry of a change, where no release holds it yet. `released` says
/// whether the commit that it was integrated as is an ancestor of the release boundary.
pub fn projected_entry<'a>(state: &'a ChangeState, released: bool) -> (r: Option<
    ProjectedEntry<'a>,
>)
    ensures
        match r {
            Some(projected) => unreleased(*state, released) && projects(
                projected,
                *state,
                state.changelog->0,
            ),
            None => !unreleased(*state, released),
        },
{
    if landed_commit(state).is_none() || released {
        return None;
    }
    match &state.changelog {
        Some(entry) => Some(projected_state_entry(state, entry)),
        None => None,
    }
}

/// The event that closed the change at a position.
pub open spec fn closing_event(states: Seq<ChangeState>, a: usize) -> Seq<char> {
    if a < states.len() {
        match states[a as int].closure {
            Some(closure) => closure.event_id@,
            None => Seq::empty(),
        }
    } else {
        Seq::empty()
    }
}

/// What closed last comes first; what one event closed stays in its order.
pub open spec fn closed_later(states: Seq<ChangeState>) -> spec_fn(usize, usize) -> bool {
    |a: usize, b: usize|
        precedes(closing_event(states, b), closing_event(states, a)) || (closing_event(states, a)
            == closing_event(states, b) && a < b)
}

proof fn lemma_closed_later(states: Seq<ChangeState>)
    ensures
        strict_order(closed_later(states)),
{
    let before = closed_later(states);
    assert forall|a: usize| !#[trigger] before(a, a) by {
        lemma_precedes_irreflexive(closing_event(states, a));
    }
    assert forall|a: usize, b: usize, c: usize| #[trigger]
        before(a, b) && #[trigger] before(b, c) implies before(a, c) by {
        let (x, y, z) = (
            closing_event(states, a),
            closing_event(states, b),
            closing_event(states, c),
        );
        if precedes(y, x) && precedes(z, y) {
            lemma_precedes_transitive(z, y, x);
        }
    }
    assert forall|a: usize, b: usize| a != b implies #[trigger] before(a, b) || before(b, a) by {
        lemma_precedes_total(closing_event(states, a), closing_event(states, b));
    }
}

fn closes_later(states: &Vec<ChangeState>, a: usize, b: usize) -> (r: bool)
    requires
        a < states@.len(),
        b < states@.len(),
    ensures
        r == closed_later(states@)(a, b),
{
    let left = match &states[a].closure {
        Some(closure) => closure.event_id.as_str(),
        None => "",
    };
    let right = match &states[b].closure {
        Some(closure) => closure.event_id.as_str(),
        None => "",
    };
    proof {
        reveal_strlit("");
        assert(""@ =~= Seq::<char>::empty());
    }
    less(right, left) || (same(left, right) && a < b)
}

/// Whether the positions are those of the changes with an unreleased entry, the last closed
/// first.
pub open spec fn unreleased_order(
    states: Seq<ChangeState>,
    released: Seq<bool>,
    order: Seq<usize>,
) -> bool {
    &&& in_order(order, closed_later(states))
    &&& forall|a: usize| #[trigger]
        order.contains(a) <==> a < states.len() && unreleased(states[a as int], released[a as int])
}

/// The entries that no release holds yet, those of the changes that closed last first.
/// `released` says of each change whether the commit that it was integrated as is an ancestor of
/// the release boundary.
pub fn projection<'a>(states: &'a Vec<ChangeState>, released: &Vec<bool>) -> (r: Vec<
    ProjectedEntry<'a>,
>)
    requires
        released@.len() == states@.len(),
    ensures
        exists|order: Seq<usize>| #[trigger]
            unreleased_order(states@, released@, order) && r@.len() == order.len() && forall|k: int|
                0 <= k < order.len() ==> projects(
                    #[trigger] r@[k],
                    states@[order[k] as int],
                    states@[order[k] as int].changelog->0,
                ),
{
    let mut found: Vec<usize> = Vec::new();
    for i in 0..states.len()
        invariant
            released@.len() == states@.len(),
            found@.no_duplicates(),
            forall|k: int| 0 <= k < found@.len() ==> #[trigger] found@[k] < i,
            forall|a: usize| #[trigger]
                found@.contains(a) <==> a < i && unreleased(states@[a as int], released@[a as int]),
    {
        let ghost before = found@;
        if projected_entry(&states[i], released[i]).is_some() {
            found.push(i);
            proof {
                assert forall|a: usize| #[trigger] found@.contains(a) <==> a < i + 1 && unreleased(
                    states@[a as int],
                    released@[a as int],
                ) by {
                    assert(before.contains(a) <==> a < i && unreleased(
                        states@[a as int],
                        released@[a as int],
                    ));
                    if before.contains(a) {
                        let k = choose|k: int| 0 <= k < before.len() && before[k] == a;
                        assert(found@[k] == a);
                    }
                    if found@.contains(a) && a != i {
                        let k = choose|k: int| 0 <= k < found@.len() && found@[k] == a;
                        assert(before[k] == a);
                    }
                    assert(found@[before.len() as int] == i);
                }
            }
        }
    }
    proof {
        lemma_closed_later(states@);
    }
    let ahead = |a: usize, b: usize| -> (out: bool)
        requires
            states@.len() > a,
            states@.len() > b,
        ensures
            out == closed_later(states@)(a, b),
        { closes_later(states, a, b) };
    let order = sort_positions(&found, ahead, Ghost(closed_later(states@)));
    assert(unreleased_order(states@, released@, order@));
    let mut out: Vec<ProjectedEntry<'a>> = Vec::new();
    for k in 0..order.len()
        invariant
            released@.len() == states@.len(),
            unreleased_order(states@, released@, order@),
            out@.len() == k,
            forall|j: int|
                0 <= j < k ==> projects(
                    #[trigger] out@[j],
                    states@[order@[j] as int],
                    states@[order@[j] as int].changelog->0,
                ),
    {
        assert(order@.contains(order@[k as int]));
        let state = &states[order[k]];
        if let Some(entry) = &state.changelog {
            out.push(projected_state_entry(state, entry));
        }
    }
    out
}

/// An entry as it is shown for one change.
pub open spec fn shown_text(
    change: Seq<char>,
    projected: ProjectedEntry,
    provenance: bool,
) -> Seq<char> {
    let shown = "### "@ + projected.category@ + "\n\n"@ + projected.body@;
    if provenance {
        (if ends(projected.body@, seq!['\n']) {
            shown
        } else {
            shown.push('\n')
        }) + provenance_text(change, projected.recorded) + seq!['\n']
    } else {
        shown
    }
}

/// An entry as it is shown for one change.
pub fn shown_entry(entry: &ProjectedEntry<'_>, provenance: bool) -> (r: String)
    ensures
        r@ == shown_text(entry.change@, *entry, provenance),
{
    let mut out = String::new();
    out.append("### ");
    out.append(entry.category);
    out.append("\n\n");
    out.append(entry.body);
    assert(out@ =~= "### "@ + entry.category@ + "\n\n"@ + entry.body@);
    if provenance {
        proof {
            reveal_strlit("\n");
            assert("\n"@ =~= seq!['\n']);
        }
        if !ends_with(entry.body, "\n") {
            out.push('\n');
        }
        out.append(provenance_line(entry).as_str());
        out.push('\n');
    }
    assert(out@ =~= shown_text(entry.change@, *entry, provenance));
    out
}

/// What is wrong with a category.
#[derive(Clone, Copy, Debug, PartialEq, Eq, Structural)]
pub enum CategoryError {
    Empty,
    SeveralLines,
}

/// Whether a text holds a line break.
pub open spec fn holds_line_break(s: Seq<char>) -> bool {
    exists|i: int| 0 <= i < s.len() && (#[trigger] s[i] == '\n' || s[i] == '\r')
}

/// Whether `r` is a category without the white space around it, or what is wrong with it.
pub open spec fn checks_category(
    category: &str,
    r: Result<String, CategoryError>,
) -> bool {
    match r {
            Ok(name) => name@ == trimmed(category@) && name@.len() > 0 && !holds_line_break(name@),
            Err(CategoryError::Empty) => trimmed(category@).len() == 0,
            Err(CategoryError::SeveralLines) => trimmed(category@).len() > 0 && holds_line_break(
                trimmed(category@),
            ),
        }
}

/// A category without the white space around it: one line that is not empty.
pub fn validate_category(category: &str) -> (r: Result<String, CategoryError>)
    ensures
        checks_category(category, r),
{
    let name = trim(category);
    let chars = chars_of(name.as_str());
    if chars.len() == 0 {
        return Err(CategoryError::Empty);
    }
    for i in 0..chars.len()
        invariant
            chars@ == name@,
            name@ == trimmed(category@),
            name@.len() > 0,
            forall|k: int| 0 <= k < i ==> #[trigger] chars@[k] != '\n' && chars@[k] != '\r',
    {
        if chars[i] == '\n' || chars[i] == '\r' {
            assert(name@[i as int] == '\n' || name@[i as int] == '\r');
            return Err(CategoryError::SeveralLines);
        }
    }
    Ok(name)
}

/// What is wrong with a changelog target.
#[derive(Clone, Copy, Debug, PartialEq, Eq, Structural)]
pub enum TargetError {
    OutsideRepository,
    NamesNoFile,
}

/// The names that a relative path leads through, or none where it leaves the directory that it
/// starts from.
pub open spec fn path_within(segments: Seq<Seq<char>>) -> Option<Seq<Seq<char>>>
    decreases segments.len(),
{
    if segments.len() == 0 {
        Some(Seq::empty())
    } else {
        let segment = segments.last();
        match path_within(segments.drop_last()) {
            Some(names) => if segment.len() == 0 || segment == "."@ {
                Some(names)
            } else if segment == ".."@ {
                if names.len() == 0 {
                    None
                } else {
                    Some(names.drop_last())
                }
            } else {
                Some(names.push(segment))
            },
            None => None,
        }
    }
}

/// A repository-relative path with nothing to resolve in it.
pub open spec fn normal_target(target: Seq<char>) -> Result<Seq<char>, TargetError> {
    let absolute = target.len() > 0 && target[0] == '/';
    if absolute {
        Err(TargetError::OutsideRepository)
    } else {
        match path_within(split_of(target, '/')) {
            None => Err(TargetError::OutsideRepository),
            Some(names) => if names.len() == 0 {
                Err(TargetError::NamesNoFile)
            } else {
                Ok(joined(names, "/"@))
            },
        }
    }
}

/// A repository-relative path with nothing to resolve in it.
pub fn normalize_target(target: &str) -> (r: Result<String, TargetError>)
    ensures
        match r {
            Ok(path) => normal_target(target@) == Ok::<Seq<char>, TargetError>(path@),
            Err(error) => normal_target(target@) == Err::<Seq<char>, TargetError>(error),
        },
{
    let chars = chars_of(target);
    if chars.len() > 0 && chars[0] == '/' {
        return Err(TargetError::OutsideRepository);
    }
    let segments = split(target, '/');
    let ghost all = views(segments@);
    let mut names: Vec<String> = Vec::new();
    let mut outside = false;
    assert(all.take(0) =~= Seq::empty());
    assert(views(names@) =~= Seq::empty());
    for i in 0..segments.len()
        invariant
            all == views(segments@),
            path_within(all.take(i as int)) == (if outside {
                None
            } else {
                Some(views(names@))
            }),
    {
        let segment = segments[i].as_str();
        let ghost before = views(names@);
        proof {
            assert(all.take(i + 1).drop_last() =~= all.take(i as int));
            assert(all.take(i + 1).last() == segment@);
        }
        if !outside && !segment.is_empty() && !same(segment, ".") {
            if same(segment, "..") {
                if names.len() == 0 {
                    outside = true;
                } else {
                    names.pop();
                    assert(views(names@) =~= before.drop_last());
                }
            } else {
                names.push(segment.to_string());
                assert(views(names@) =~= before.push(segment@));
            }
        }
    }
    assert(all.take(all.len() as int) =~= all);
    if outside {
        return Err(TargetError::OutsideRepository);
    }
    if names.len() == 0 {
        return Err(TargetError::NamesNoFile);
    }
    Ok(join(&names, "/"))
}

/// A path that stays inside leads through proper names only: none is empty, and none is a
/// directory's name for itself or for its parent.
pub proof fn inner_paths_hold_proper_names(segments: Seq<Seq<char>>, i: int)
    requires
        path_within(segments) is Some,
        0 <= i < path_within(segments)->0.len(),
    ensures
        path_within(segments)->0[i].len() > 0,
        path_within(segments)->0[i] != "."@,
        path_within(segments)->0[i] != ".."@,
    decreases segments.len(),
{
    let rest = segments.drop_last();
    let names = path_within(rest)->0;
    if i < names.len() {
        inner_paths_hold_proper_names(rest, i);
    }
}

/// Whether the heading of the unreleased section stands on a line of its own at `p`.
pub open spec fn heading_at(s: Seq<char>, p: int) -> bool {
    let end = p + "## [Unreleased]"@.len();
    &&& stands_at(s, "## [Unreleased]"@, p)
    &&& p == 0 || s[p - 1] == '\n'
    &&& end == s.len() || s[end] == '\n' || s[end] == '\r'
}

/// Whether the heading of a release stands at the beginning of a line at `p`.
pub open spec fn release_at(s: Seq<char>, p: int) -> bool {
    stands_at(s, "## ["@, p) && (p == 0 || s[p - 1] == '\n')
}

/// Where the line after position `p` begins.
pub open spec fn next_line(s: Seq<char>, p: int) -> int {
    let n = first_index(s.skip(p), '\n');
    if p + n < s.len() {
        p + n + 1
    } else {
        s.len() as int
    }
}

/// Whether the unreleased section is headed at `heading`, the first such heading, and ends at
/// `end`, where the next release is headed.
pub open spec fn section(s: Seq<char>, heading: int, end: int) -> bool {
    &&& heading_at(s, heading)
    &&& forall|q: int| 0 <= q < heading ==> !#[trigger] heading_at(s, q)
    &&& next_line(s, heading) <= end
    &&& release_at(s, end)
    &&& forall|q: int| next_line(s, heading) <= q < end ==> !#[trigger] release_at(s, q)
}

/// A changelog with the unreleased section replaced: what stands before and after it is kept.
pub open spec fn spliced(
    s: Seq<char>,
    heading: int,
    end: int,
    replacement: Seq<char>,
) -> Seq<char> {
    s.take(next_line(s, heading)) + replacement + (if ends(replacement, "\n\n"@) {
        Seq::empty()
    } else {
        seq!['\n']
    }) + s.skip(end)
}

fn find_heading(chars: &Vec<char>) -> (r: Option<usize>)
    ensures
        match r {
            Some(p) => heading_at(chars@, p as int) && forall|q: int|
                0 <= q < p ==> !#[trigger] heading_at(chars@, q),
            None => forall|q: int| !#[trigger] heading_at(chars@, q),
        },
{
    let heading = chars_of("## [Unreleased]");
    let total: usize = chars.len();
    for p in 0..total
        invariant
            heading@ == "## [Unreleased]"@,
            total == chars@.len(),
            forall|q: int| 0 <= q < p ==> !#[trigger] heading_at(chars@, q),
    {
        if stands(chars, &heading, p) {
            let end: usize = p + heading.len();
            if (p == 0 || chars[p - 1] == '\n') && (end == total || chars[end] == '\n'
                || chars[end] == '\r') {
                return Some(p);
            }
        }
    }
    proof {
        reveal_strlit("## [Unreleased]");
    }
    None
}

fn find_release(chars: &Vec<char>, from: usize) -> (r: Option<usize>)
    ensures
        match r {
            Some(p) => from <= p && p <= chars@.len() && release_at(chars@, p as int) && forall|
                q: int,
            |
                from <= q < p ==> !#[trigger] release_at(chars@, q),
            None => forall|q: int| from <= q ==> !#[trigger] release_at(chars@, q),
        },
{
    let mark = chars_of("## [");
    let total: usize = chars.len();
    let mut p: usize = from;
    while p < total
        invariant
            mark@ == "## ["@,
            total == chars@.len(),
            from <= p,
            forall|q: int| from <= q < p ==> !#[trigger] release_at(chars@, q),
        decreases total - p,
    {
        if stands(chars, &mark, p) && (p == 0 || chars[p - 1] == '\n') {
            return Some(p);
        }
        p += 1;
    }
    proof {
        reveal_strlit("## [");
    }
    None
}

/// Whether `r` is a changelog with the unreleased section replaced.
pub open spec fn replaces_section(
    original: &str,
    rendered: &str,
    r: Option<String>,
) -> bool {
    match r {
            Some(updated) => exists|heading: int, end: int| #[trigger]
                section(original@, heading, end) && updated@ == spliced(
                    original@,
                    heading,
                    end,
                    rendered@.skip("## [Unreleased]\n"@.len() as int),
                ),
            None => forall|heading: int, end: int| !#[trigger] section(original@, heading, end),
        }
}

/// A changelog with the unreleased section replaced by what was rendered, where it has that
/// section and a release after it.
pub fn write_changelog(original: &str, rendered: &str) -> (r: Option<String>)
    requires
        begins(rendered@, "## [Unreleased]\n"@),
    ensures
        replaces_section(original, rendered, r),
{
    let chars = chars_of(original);
    let heading: usize = match find_heading(&chars) {
        Some(p) => p,
        None => return None,
    };
    let line_end: usize = find_from(&chars, heading, '\n');
    let after: usize = if line_end < chars.len() {
        line_end + 1
    } else {
        chars.len()
    };
    assert(after == next_line(original@, heading as int));
    let end: usize = match find_release(&chars, after) {
        Some(p) => p,
        None => {
            proof {
                assert forall|h: int, e: int| !#[trigger] section(original@, h, e) by {
                    if section(original@, h, e) {
                        lemma_one_section(original@, h, heading as int);
                        assert(!release_at(original@, e));
                    }
                }
            }
            return None;
        },
    };
    let replacement = match strip_prefix(rendered, "## [Unreleased]\n") {
        Some(rest) => rest,
        None => return None,
    };
    let mut updated = text_between(&chars, 0, after);
    assert(updated@ =~= original@.take(after as int));
    updated.append(replacement.as_str());
    if !ends_with(replacement.as_str(), "\n\n") {
        updated.push('\n');
    }
    let rest = text_between(&chars, end, chars.len());
    assert(rest@ =~= original@.skip(end as int));
    updated.append(rest.as_str());
    assert(section(original@, heading as int, end as int));
    assert(updated@ =~= spliced(original@, heading as int, end as int, replacement@));
    Some(updated)
}

/// A changelog has one unreleased section.
proof fn lemma_one_section(s: Seq<char>, a: int, b: int)
    requires
        heading_at(s, a),
        heading_at(s, b),
        forall|q: int| 0 <= q < a ==> !#[trigger] heading_at(s, q),
        forall|q: int| 0 <= q < b ==> !#[trigger] heading_at(s, q),
    ensures
        a == b,
{
    if a < b {
        assert(!heading_at(s, a));
    }
    if b < a {
        assert(!heading_at(s, b));
    }
}

/// Whatever is rendered begins with the heading that a replacement is taken from behind.
pub proof fn rendered_sections_are_headed(entries: Seq<ProjectedEntry>, provenance: bool)
    ensures
        begins(unreleased_text(entries, provenance), "## [Unreleased]\n"@),
{
    let head = "## [Unreleased]\n"@;
    assert(unreleased_text(entries, provenance).take(head.len() as int) =~= head);
}

/// The target that a repository has where it configures none.
pub const DEFAULT_CHANGELOG_TARGET: &'static str = "CHANGELOG.md";

/// The one renderer there is.
pub const CHANGELOG_RENDERER: &'static str = "keep-a-changelog";

/// How a repository keeps its changelog.
#[derive(Debug)]
pub struct ChangelogConfig {
    pub target: String,
    pub renderer: String,
}

impl Default for ChangelogConfig {
    fn default() -> (r: Self)
        ensures
            r.target@ == DEFAULT_CHANGELOG_TARGET@,
            r.renderer@ == CHANGELOG_RENDERER@,
    {
        ChangelogConfig {
            target: DEFAULT_CHANGELOG_TARGET.to_string(),
            renderer: CHANGELOG_RENDERER.to_string(),
        }
    }
}

/// What is wrong with how a repository keeps its changelog.
#[derive(Clone, Copy, Debug, PartialEq, Eq, Structural)]
pub enum ChangelogConfigError {
    UnsupportedRenderer,
    Target(TargetError),
}

/// The normal target of a repository's changelog. The renderer is looked at first.
pub fn check_changelog_config(config: &ChangelogConfig) -> (r: Result<String, ChangelogConfigError>)
    ensures
        match r {
            Ok(path) => config.renderer@ == CHANGELOG_RENDERER@ && normal_target(config.target@)
                == Ok::<Seq<char>, TargetError>(path@),
            Err(ChangelogConfigError::UnsupportedRenderer) => config.renderer@
                != CHANGELOG_RENDERER@,
            Err(ChangelogConfigError::Target(error)) => config.renderer@ == CHANGELOG_RENDERER@
                && normal_target(config.target@) == Err::<Seq<char>, TargetError>(error),
        },
{
    if !same(config.renderer.as_str(), CHANGELOG_RENDERER) {
        return Err(ChangelogConfigError::UnsupportedRenderer);
    }
    match normalize_target(config.target.as_str()) {
        Ok(path) => Ok(path),
        Err(error) => Err(ChangelogConfigError::Target(error)),
    }
}

/// An entry is recorded exactly where a change, a category and a body are given and nothing else is,
/// by whoever may record one; one change is shown where only it is named; and everything is
/// projected where none is, with the provenance or into the file, but not both.
pub proof fn requests_say_what_they_want(args: ChangelogArgs, reviewer: bool)
    ensures
        requested(args, reviewer) == Ok::<ChangelogRequest, ChangelogRefusal>(
            ChangelogRequest::Record,
        ) <==> args.reference is Some && args.category is Some && args.body_file is Some
            && !args.json && !args.provenance && args.since is None && !args.write && !reviewer,
        requested(args, reviewer) == Ok::<ChangelogRequest, ChangelogRefusal>(
            ChangelogRequest::Show,
        ) <==> args.reference is Some && args.category is None && args.body_file is None
            && !args.write,
        requested(args, reviewer) == Ok::<ChangelogRequest, ChangelogRefusal>(
            ChangelogRequest::Project,
        ) <==> args.reference is None && args.category is None && args.body_file is None && !(
        args.provenance && args.write),
        requested(args, reviewer) == Err::<ChangelogRequest, ChangelogRefusal>(
            ChangelogRefusal::ReviewerMayNotRecord,
        ) ==> reviewer,
{
}

/// The case of letters makes no difference to which canonical category is meant.
pub proof fn categories_ignore_case(a: Seq<char>, b: Seq<char>, i: int)
    requires
        same_but_for_case(a, b),
    ensures
        same_but_for_case(b, a),
        is_canonical(a, i) == is_canonical(b, i),
        is_custom(a) == is_custom(b),
        a.len() == b.len(),
{
    assert forall|i: int| is_canonical(a, i) == #[trigger] is_canonical(b, i) by {
        let heading = canonical_heading(i);
        if is_canonical(a, i) {
            assert forall|k: int| 0 <= k < b.len() implies folded(#[trigger] b[k]) == folded(
                heading[k],
            ) by {
                assert(folded(a[k]) == folded(b[k]));
            }
        }
        if is_canonical(b, i) {
            assert forall|k: int| 0 <= k < a.len() implies folded(#[trigger] a[k]) == folded(
                heading[k],
            ) by {
                assert(folded(a[k]) == folded(b[k]));
            }
        }
    }
    if is_custom(a) {
        assert forall|i: int| 0 <= i < CANONICAL_CATEGORIES implies !#[trigger] is_canonical(
            b,
            i,
        ) by {
            assert(!is_canonical(a, i));
        }
    }
    if is_custom(b) {
        assert forall|i: int| 0 <= i < CANONICAL_CATEGORIES implies !#[trigger] is_canonical(
            a,
            i,
        ) by {
            assert(!is_canonical(b, i));
        }
    }
}

/// Every entry is rendered: under the canonical heading that it means, or else under its own.
pub proof fn every_entry_has_a_heading(entries: Seq<ProjectedEntry>, k: int)
    requires
        0 <= k < entries.len(),
    ensures
        custom_headings(entries).contains(entries[k].category@) || exists|i: int|
            0 <= i < 6 && #[trigger] is_canonical(entries[k].category@, i),
        is_custom(entries[k].category@) ==> custom_headings(entries).contains(
            entries[k].category@,
        ),
{
    let category = entries[k].category@;
    if is_custom(category) {
        let all = Seq::new(entries.len(), |i: int| entries[i].category@);
        let texts = all.filter(|c: Seq<char>| is_custom(c));
        let wanted = |c: Seq<char>| has_custom(entries, c);
        assert forall|c: Seq<char>| #[trigger] wanted(c) <==> texts.contains(c) by {
            if wanted(c) {
                let i = choose|i: int| 0 <= i < entries.len() && #[trigger] entries[i].category@ == c;
                assert(all[i] == c);
                all.lemma_filter_contains(|c: Seq<char>| is_custom(c), i);
            }
            if texts.contains(c) {
                all.lemma_filter_contains_rev(|c: Seq<char>| is_custom(c), c);
                let j = choose|j: int| 0 <= j < texts.len() && texts[j] == c;
                all.lemma_filter_pred(|c: Seq<char>| is_custom(c), j);
                let i = choose|i: int| 0 <= i < all.len() && all[i] == c;
                assert(entries[i].category@ == c);
            }
        }
        lists_hold_what_is_wanted(texts, wanted);
        assert(entries[k].category@ == category);
        assert(wanted(category));
    } else {
        let i = choose|i: int| 0 <= i < CANONICAL_CATEGORIES && #[trigger] is_canonical(category, i);
        assert(is_canonical(category, i));
    }
}

/// An entry waits for a release exactly where its change was integrated as a commit that no release
/// holds; abandoned and superseded changes are never released.
pub proof fn integrated_entries_wait_for_a_release(state: ChangeState, released: bool)
    ensures
        unreleased(state, released) <==> !released && state.changelog is Some && (
        state.closure matches Some(closure) && closure.outcome == Closure::Integrated
            && closure.integrated_commit is Some),
{
}

/// A category is one line that says something, without the white space around it.
pub proof fn categories_are_single_lines(category: &str, r: Result<String, CategoryError>)
    requires
        checks_category(category, r),
    ensures
        r is Ok <==> trimmed(category@).len() > 0 && !trimmed(category@).contains('\n') && !trimmed(
            category@,
        ).contains('\r'),
        r matches Ok(name) ==> name@ == trimmed(category@),
{
    let name = trimmed(category@);
    if holds_line_break(name) {
        let i = choose|i: int| 0 <= i < name.len() && (#[trigger] name[i] == '\n' || name[i] == '\r');
        assert(name.contains(name[i]));
    } else {
        if name.contains('\n') {
            let i = choose|i: int| 0 <= i < name.len() && name[i] == '\n';
            assert(name[i] == '\n');
        }
        if name.contains('\r') {
            let i = choose|i: int| 0 <= i < name.len() && name[i] == '\r';
            assert(name[i] == '\r');
        }
    }
}

/// Going into a directory and back out of it leads nowhere, and a path never leaves the directory
/// that it starts from.
pub proof fn parents_undo_names(segments: Seq<Seq<char>>, name: Seq<char>)
    requires
        name.len() > 0,
        name != "."@,
        name != ".."@,
    ensures
        path_within(segments.push(name).push(".."@)) == path_within(segments),
        path_within(segments.push("."@)) == path_within(segments),
        path_within(seq![".."@]) is None,
        path_within(segments) is None ==> path_within(segments.push(name)) is None,
        path_within(segments) matches Some(names) ==> path_within(segments.push(name)) == Some(
            names.push(name),
        ),
{
    reveal_strlit(".");
    reveal_strlit("..");
    assert("."@.len() == 1 && ".."@.len() == 2);
    assert(segments.push(name).push(".."@).drop_last() =~= segments.push(name));
    assert(segments.push(name).drop_last() =~= segments);
    assert(segments.push("."@).drop_last() =~= segments);
    assert(seq![".."@].drop_last() =~= Seq::<Seq<char>>::empty());
    assert(path_within(Seq::empty()) == Some(Seq::<Seq<char>>::empty()));
    assert(seq![".."@].last() == ".."@);
    assert(".."@[1] == '.' && "."@ != ".."@);
    if let Some(names) = path_within(segments) {
        assert(names.push(name).drop_last() =~= names);
    }
}

/// What stands in a changelog up to its unreleased heading, and from the next release on, is kept
/// letter for letter, and what is put between is what was rendered.
pub proof fn releases_are_kept(original: &str, rendered: &str, r: Option<String>)
    requires
        replaces_section(original, rendered, r),
        r is Some,
    ensures
        exists|heading: int, end: int|
            {
                &&& #[trigger] section(original@, heading, end)
                &&& 0 <= heading <= end <= original@.len()
                &&& original@.take(heading).is_prefix_of(r->0@)
                &&& original@.skip(end).is_suffix_of(r->0@)
                &&& r->0@.len() >= heading + rendered@.skip("## [Unreleased]\n"@.len() as int).len()
                    + (original@.len() - end)
            },
{
    let replacement = rendered@.skip("## [Unreleased]\n"@.len() as int);
    let (heading, end) = choose|heading: int, end: int| #[trigger]
        section(original@, heading, end) && r->0@ == spliced(original@, heading, end, replacement);
    let s = original@;
    lemma_first_index(s.skip(heading), '\n');
    let updated = r->0@;
    assert(0 <= heading <= next_line(s, heading) <= s.len());
    assert(end <= s.len());
    assert(s.take(heading) =~= updated.take(heading));
    assert(s.skip(end) =~= updated.skip(updated.len() - (s.len() - end)));
}

/// Every entry that waits for a release is projected, with its category and its body, and what
/// closed last comes first.
pub proof fn waiting_entries_are_projected(
    states: Seq<ChangeState>,
    released: Seq<bool>,
    order: Seq<usize>,
    i: usize,
    projected: Seq<ProjectedEntry>,
)
    requires
        unreleased_order(states, released, order),
        projected.len() == order.len(),
        forall|k: int|
            0 <= k < order.len() ==> projects(
                #[trigger] projected[k],
                states[order[k] as int],
                states[order[k] as int].changelog->0,
            ),
        i < states.len(),
        !released[i as int],
        states[i as int].changelog is Some,
        states[i as int].closure matches Some(closure) && closure.outcome == Closure::Integrated
            && closure.integrated_commit is Some,
    ensures
        exists|k: int|
            0 <= k < projected.len() && (#[trigger] projected[k]).change_id@
                == states[i as int].change_id@ && projected[k].body@
                == states[i as int].changelog->0.body@ && projected[k].category@
                == states[i as int].changelog->0.category@,
{
    assert(unreleased(states[i as int], released[i as int]));
    assert(order.contains(i));
    let k = choose|k: int| 0 <= k < order.len() && order[k] == i;
    assert(projects(projected[k], states[i as int], states[i as int].changelog->0));
}

/// A target within the repository keeps its names, and one that starts at the root or climbs out is
/// refused.
pub proof fn targets_stay_inside(target: Seq<char>)
    ensures
        target.len() > 0 && target[0] == '/' ==> normal_target(target) == Err::<
            Seq<char>,
            TargetError,
        >(TargetError::OutsideRepository),
        path_within(split_of(target, '/')) is None ==> normal_target(target) is Err,
        normal_target(target) is Ok ==> path_within(split_of(target, '/')) is Some
            && path_within(split_of(target, '/'))->0.len() > 0,
{
}

} // verus!
