//! Rewriting history, and carrying every recorded revision forward across it.
use crate::changelog::{same_but_for_case, same_ignoring_case};
use crate::event::{Event, Payload, RewrittenRevision};
use crate::order::{chosen, ints, lemma_chosen, lemma_ints_contain};
use crate::table::Successors;
use crate::text::{
    begins, chars_of, decimal, decimal_of, join, joined, opt_view, push_text, same, same_option, starts_with,
    strip_end, strip_prefix, stripped_end, text_between, views,
};
use crate::time::{rfc3339_text, write_rfc3339, Timestamp};
use vstd::prelude::*;

verus! {

/// What to rewrite.
pub struct SignArgs {
    /// The key to sign with; where there is none, the one that is configured.
    pub key: Option<String>,
    /// The oldest commit to recreate; where there is none, the oldest that the key did not sign.
    pub from: Option<String>,
    /// Tell what would be rewritten, and stop.
    pub dry_run: bool,
    /// Recreate the commits without signing them.
    pub no_sign: bool,
    /// Recreate each annotated tag whose target moved.
    pub retag: bool,
}

/// A commit of the branch, newest first, with what its signature comes to and who made it.
pub struct SurveyRow {
    pub commit: String,
    pub verification: String,
    pub signer: String,
}

/// Whether a signature could be checked and is good.
pub open spec fn good(verification: Seq<char>) -> bool {
    verification == "G"@ || verification == "U"@
}

fn is_good(verification: &str) -> (r: bool)
    ensures
        r == good(verification@),
{
    same(verification, "G") || same(verification, "U")
}

/// Whether a text ends with another, but for the case of letters.
pub open spec fn ends_alike(text: Seq<char>, end: Seq<char>) -> bool {
    end.len() <= text.len() && same_but_for_case(text.skip(text.len() - end.len()), end)
}

/// Whether two spellings name one key: a shorter name of a key is the end of a longer one.
pub open spec fn one_key(left: Seq<char>, right: Seq<char>) -> bool {
    left.len() > 0 && right.len() > 0 && (ends_alike(left, right) || ends_alike(right, left))
}

fn ends_the_same(text: &str, end: &str) -> (r: bool)
    ensures
        r == ends_alike(text@, end@),
{
    let all = chars_of(text);
    let part = chars_of(end);
    if part.len() > all.len() {
        return false;
    }
    let from: usize = all.len() - part.len();
    let tail = text_between(&all, from, all.len());
    assert(tail@ =~= text@.skip(text@.len() - end@.len()));
    same_ignoring_case(tail.as_str(), end)
}

/// Whether two spellings name one key.
pub fn same_key(left: &str, right: &str) -> (r: bool)
    ensures
        r == one_key(left@, right@),
{
    !left.is_empty() && !right.is_empty() && (ends_the_same(left, right) || ends_the_same(
        right,
        left,
    ))
}

/// A key is the same key under its own name, and of two names it does not matter which comes
/// first.
pub proof fn keys_compare_both_ways(left: Seq<char>, right: Seq<char>)
    ensures
        one_key(left, right) == one_key(right, left),
        left.len() > 0 ==> one_key(left, left),
{
    assert(left.skip(0) =~= left);
}

/// Whether the row at `k` is the first with a good signature.
pub open spec fn first_good(survey: Seq<SurveyRow>, k: int) -> bool {
    &&& 0 <= k < survey.len()
    &&& good(survey[k].verification@)
    &&& forall|j: int| 0 <= j < k ==> !good((#[trigger] survey[j]).verification@)
}

/// Whether no row has a good signature.
pub open spec fn never_good(survey: Seq<SurveyRow>) -> bool {
    forall|j: int| 0 <= j < survey.len() ==> !good((#[trigger] survey[j]).verification@)
}

/// Whether `wanted` is the key that every commit should be signed with: the one that is asked
/// for, or else the one that signed last.
pub open spec fn is_wanted(
    wanted: Option<Seq<char>>,
    survey: Seq<SurveyRow>,
    key: Option<String>,
) -> bool {
    match key {
        Some(key) => wanted == Some(stripped_end(key@, '!')),
        None => if never_good(survey) {
            wanted is None
        } else {
            exists|k: int| #[trigger] first_good(survey, k) && wanted == Some(survey[k].signer@)
        },
    }
}

/// Whether a commit needs to be signed.
pub open spec fn needs_signing(row: SurveyRow, wanted: Option<Seq<char>>) -> bool {
    match wanted {
        Some(key) => !good(row.verification@) || !one_key(row.signer@, key),
        None => true,
    }
}

/// Whether the row at `k` is the oldest that needs to be signed.
pub open spec fn oldest_at(survey: Seq<SurveyRow>, wanted: Option<Seq<char>>, k: int) -> bool {
    &&& 0 <= k < survey.len()
    &&& needs_signing(survey[k], wanted)
    &&& forall|j: int| k < j < survey.len() ==> !needs_signing(#[trigger] survey[j], wanted)
}

/// Whether every commit is signed as it should be.
pub open spec fn all_signed(survey: Seq<SurveyRow>, wanted: Option<Seq<char>>) -> bool {
    forall|j: int| 0 <= j < survey.len() ==> !needs_signing(#[trigger] survey[j], wanted)
}

fn find_wanted(survey: &Vec<SurveyRow>, key: &Option<String>) -> (r: Option<String>)
    ensures
        is_wanted(opt_view(r), survey@, *key),
{
    if let Some(key) = key {
        return Some(strip_end(key.as_str(), '!'));
    }
    for k in 0..survey.len()
        invariant
            *key is None,
            forall|j: int| 0 <= j < k ==> !good((#[trigger] survey@[j]).verification@),
    {
        if is_good(survey[k].verification.as_str()) {
            assert(first_good(survey@, k as int));
            assert(!never_good(survey@)) by {
                assert(good(survey@[k as int].verification@));
            }
            return Some(survey[k].signer.clone());
        }
    }
    None
}

fn must_sign(row: &SurveyRow, wanted: &Option<String>) -> (r: bool)
    ensures
        r == needs_signing(*row, opt_view(*wanted)),
{
    match wanted {
        Some(key) => !is_good(row.verification.as_str()) || !same_key(
            row.signer.as_str(),
            key.as_str(),
        ),
        None => true,
    }
}

/// Whether `found` is the oldest commit that needs to be signed, where one does.
pub open spec fn is_oldest(
    found: Option<usize>,
    survey: Seq<SurveyRow>,
    key: Option<String>,
) -> bool {
    exists|wanted: Option<Seq<char>>| #[trigger]
        is_wanted(wanted, survey, key) && match found {
            Some(k) => oldest_at(survey, wanted, k as int),
            None => all_signed(survey, wanted),
        }
}

/// The oldest commit that the key did not sign. Without a key that is asked for, the one that
/// signed last counts.
pub fn oldest_unsigned(survey: &Vec<SurveyRow>, key: &Option<String>) -> (r: Option<usize>)
    ensures
        is_oldest(r, survey@, *key),
{
    let wanted = find_wanted(survey, key);
    let mut k: usize = survey.len();
    while k > 0
        invariant
            k <= survey@.len(),
            is_wanted(opt_view(wanted), survey@, *key),
            forall|j: int|
                k <= j < survey@.len() ==> !needs_signing(
                    #[trigger] survey@[j],
                    opt_view(wanted),
                ),
        decreases k,
    {
        k -= 1;
        if must_sign(&survey[k], &wanted) {
            assert(oldest_at(survey@, opt_view(wanted), k as int));
            return Some(k);
        }
    }
    assert(all_signed(survey@, opt_view(wanted)));
    None
}

/// What a request to rewrite comes to before a commit is recreated.
#[derive(Debug)]
pub enum SignStart {
    /// A rewrite that was interrupted is finished rather than repeated.
    Resume,
    /// A rewrite of another branch waits to be finished.
    OtherBranchUnfinished,
    UncommittedChanges,
    NothingToDo,
    /// The commits from the one at this position of the survey on are recreated.
    FromRow { row: usize },
    /// The commits from the one that was asked for on are recreated.
    FromAsked,
}

/// Whether `r` is what a request to rewrite comes to before a commit is recreated.
pub open spec fn starts_signing(
    args: &SignArgs,
    branch: &str,
    unfinished: &Option<String>,
    clean: bool,
    survey: &Vec<SurveyRow>,
    r: SignStart,
) -> bool {
    match r {
            SignStart::Resume => opt_view(*unfinished) == Some(branch@),
            SignStart::OtherBranchUnfinished => unfinished is Some && unfinished->0@ != branch@,
            SignStart::UncommittedChanges => unfinished is None && !clean,
            SignStart::FromAsked => unfinished is None && clean && args.from is Some,
            SignStart::FromRow { row } => unfinished is None && clean && args.from is None
                && is_oldest(Some(row), survey@, args.key),
            SignStart::NothingToDo => unfinished is None && clean && args.from is None && is_oldest(
                None,
                survey@,
                args.key,
            ),
        }
}

/// What a request to rewrite comes to before a commit is recreated. `unfinished` is the branch of
/// a rewrite that was interrupted.
pub fn sign(
    args: &SignArgs,
    branch: &str,
    unfinished: &Option<String>,
    clean: bool,
    survey: &Vec<SurveyRow>,
) -> (r: SignStart)
    ensures
        starts_signing(args, branch, unfinished, clean, survey, r),
{
    if let Some(other) = unfinished {
        return if same(other.as_str(), branch) {
            SignStart::Resume
        } else {
            SignStart::OtherBranchUnfinished
        };
    }
    if !clean {
        return SignStart::UncommittedChanges;
    }
    if args.from.is_some() {
        return SignStart::FromAsked;
    }
    match oldest_unsigned(survey, &args.key) {
        Some(row) => SignStart::FromRow { row },
        None => SignStart::NothingToDo,
    }
}

/// Refuses a range without a commit: what it starts from is no ancestor of the branch.
pub fn check_range(range: &Vec<String>, from: &str, branch: &str) -> (r: Result<(), String>)
    ensures
        match r {
            Ok(()) => range@.len() > 0,
            Err(text) => range@.len() == 0 && text@ == from@ + " is not an ancestor of "@ + branch@,
        },
{
    if range.len() > 0 {
        return Ok(());
    }
    let mut out = from.to_string();
    out.append(" is not an ancestor of ");
    out.append(branch);
    Err(out)
}

/// What took the place of a commit, where a rewrite reached it and did not drop it.
pub open spec fn replacement(
    mapping: Map<Seq<char>, Option<Seq<char>>>,
    commit: Seq<char>,
) -> Option<Seq<char>> {
    if mapping.dom().contains(commit) {
        mapping[commit]
    } else {
        None
    }
}

fn replaced<'a>(mapping: &'a Successors, commit: &str) -> (r: Option<&'a String>)
    requires
        mapping.well_formed(),
    ensures
        match r {
            Some(new) => replacement(mapping@, commit@) == Some(new@),
            None => replacement(mapping@, commit@) is None,
        },
{
    match mapping.find(commit) {
        Some(Some(new)) => Some(new),
        _ => None,
    }
}

/// What is said where a rewrite that was interrupted is finished.
pub fn resume_line(branch: &str, from: &str, created_at: Timestamp) -> (r: String)
    ensures
        r@ == "finishing the rewrite of "@ + branch@ + " from "@ + shortened(from@)
            + ", recorded "@ + rfc3339_text(created_at.secs(), created_at.nanos()),
{
    let since = short(from);
    let recorded = write_rfc3339(created_at);
    let mut out = "finishing the rewrite of ".to_string();
    out.append(branch);
    out.append(" from ");
    out.append(since.as_str());
    out.append(", recorded ");
    out.append(recorded.as_str());
    out
}

/// What is said of a rewrite that was made: the commits and the head, the refs, and the event.
pub fn rewritten_lines(commits: usize, branch: &str, head: &str, refs: usize, event_id: &str) -> (r:
    Vec<String>)
    ensures
        views(r@) == seq![
            plural_text(commits as nat, "commit"@) + " rewritten on "@ + branch@
                + "; head is now "@ + shortened(head@),
            plural_text(refs as nat, "ref"@) + " moved"@,
            "rewrite recorded as "@ + event_id@,
        ],
{
    let mut first = plural(commits, "commit");
    let tip = short(head);
    first.append(" rewritten on ");
    first.append(branch);
    first.append("; head is now ");
    first.append(tip.as_str());
    let mut second = plural(refs, "ref");
    second.append(" moved");
    let mut third = "rewrite recorded as ".to_string();
    third.append(event_id);
    let ghost wanted = seq![first@, second@, third@];
    let out = vec![first, second, third];
    assert(views(out@) =~= wanted);
    out
}

/// The successors among the first `n` that are no longer commits here, shortened.
pub open spec fn pruned_texts(mapping: Successors, present: Seq<bool>, n: int) -> Seq<Seq<char>>
    decreases n,
{
    if n <= 0 {
        Seq::empty()
    } else {
        let before = pruned_texts(mapping, present, n - 1);
        match mapping.values@[n - 1] {
            Some(new) => if present[n - 1] {
                before
            } else {
                before.push(shortened(new@))
            },
            None => before,
        }
    }
}

/// The first three of some texts.
pub open spec fn first_three(texts: Seq<Seq<char>>) -> Seq<Seq<char>> {
    if texts.len() <= 3 {
        texts
    } else {
        texts.take(3)
    }
}

fn collect_pruned(mapping: &Successors, present: &Vec<bool>) -> (r: (usize, Vec<String>))
    requires
        mapping.well_formed(),
        present@.len() == mapping.names@.len(),
    ensures
        r.0 == pruned_texts(*mapping, present@, mapping.names@.len() as int).len(),
        views(r.1@) == first_three(
            pruned_texts(*mapping, present@, mapping.names@.len() as int),
        ),
{
    let mut count: usize = 0;
    let mut named: Vec<String> = Vec::new();
    assert(views(named@) =~= first_three(pruned_texts(*mapping, present@, 0)));
    for i in 0..mapping.names.len()
        invariant
            mapping.well_formed(),
            present@.len() == mapping.names@.len(),
            count <= i,
            count == pruned_texts(*mapping, present@, i as int).len(),
            views(named@) == first_three(pruned_texts(*mapping, present@, i as int)),
    {
        let ghost before = pruned_texts(*mapping, present@, i as int);
        if let Some(new) = &mapping.values[i] {
            if !present[i] {
                let ghost after = before.push(shortened(new@));
                if count < 3 {
                    push_text(&mut named, short(new.as_str()));
                    assert(first_three(after) =~= first_three(before).push(shortened(new@)));
                } else {
                    assert(first_three(after) =~= first_three(before));
                }
                count += 1;
            }
        }
    }
    (count, named)
}

/// Whether `r` says why a rewrite cannot be finished, where it cannot.
pub open spec fn tells_pruned(
    mapping: &Successors,
    present: &Vec<bool>,
    intent_path: &str,
    r: Result< (), String, >,
) -> bool {
    ({
            let pruned = pruned_texts(*mapping, present@, mapping.names@.len() as int);
            match r {
                Ok(()) => pruned.len() == 0,
                Err(text) => pruned.len() > 0 && text@ == decimal_of(pruned.len())
                    + " of the commits this rewrite produced are no longer in this repository ("@
                    + joined(first_three(pruned), ", "@)
                    + "); the rewrite cannot be finished. Remove "@ + intent_path@
                    + " and run it again."@,
            }
        })
}

/// Why a rewrite cannot be finished: commits that it produced are gone, since nothing led to them.
/// `present` says of the successor of each commit whether it is a commit here.
pub fn check_pruned(mapping: &Successors, present: &Vec<bool>, intent_path: &str) -> (r: Result<
    (),
    String,
>)
    requires
        mapping.well_formed(),
        present@.len() == mapping.names@.len(),
    ensures
        tells_pruned(mapping, present, intent_path, r),
{
    let (count, named) = collect_pruned(mapping, present);
    if count == 0 {
        return Ok(());
    }
    let listed = join(&named, ", ");
    let mut out = decimal(count as u64);
    out.append(" of the commits this rewrite produced are no longer in this repository (");
    out.append(listed.as_str());
    out.append("); the rewrite cannot be finished. Remove ");
    out.append(intent_path);
    out.append(" and run it again.");
    Err(out)
}

/// Why a mapping is not recorded.
#[derive(Debug)]
pub enum MappingRefusal {
    /// Some of what it names as surviving is no commit of this repository.
    NotOfThisRepository { text: String },
    /// It contradicts a rewrite that is recorded.
    Contradicts { text: String },
}

/// What is said of a mapping that names what is no commit of this repository.
pub open spec fn foreign_mapping_text(unusable: Seq<Seq<char>>) -> Seq<char> {
    decimal_of(unusable.len()) + " of the mapped revisions are not commits in this repository ("@
        + joined(first_three(unusable), ", "@)
        + "); this map does not describe this repository's history"@
}

/// Whether a payload records a mapping of history.
pub open spec fn records_rewrite(
    payload: Payload,
    entries: Successors,
    why: Seq<char>,
    by: Option<Seq<char>>,
) -> bool {
    match payload {
        Payload::HistoryRewritten { mapping, reason, tool } => lists_mapping(mapping@, entries)
            && reason@ == why && opt_view(tool) == by,
        _ => false,
    }
}

/// Whether `r` records a mapping of history, or says why it is not recorded.
pub open spec fn answers_mapping(
    mapping: &Successors,
    commits: &Vec<bool>,
    contradiction: Option<String>,
    reason: String,
    tool: Option<String>,
    r: Result<Payload, MappingRefusal>,
) -> bool {
    ({
            let unusable = pruned_texts(*mapping, commits@, mapping.names@.len() as int);
            match r {
                Ok(payload) => unusable.len() == 0 && contradiction is None && records_rewrite(
                    payload,
                    *mapping,
                    reason@,
                    opt_view(tool),
                ),
                Err(MappingRefusal::NotOfThisRepository { text }) => unusable.len() > 0 && text@
                    == foreign_mapping_text(unusable),
                Err(MappingRefusal::Contradicts { text }) => unusable.len() == 0
                    && contradiction == Some(text),
            }
        })
}

/// What records a mapping of history, or why it is not recorded: every successor has to be a
/// commit here, and the mapping must not contradict what is recorded. `commits` says of the
/// successor of each revision whether it is a commit here, and `contradiction` what the mapping
/// together with the recorded ones contradicts.
pub fn record_mapping(
    mapping: &Successors,
    commits: &Vec<bool>,
    contradiction: Option<String>,
    reason: String,
    tool: Option<String>,
) -> (r: Result<Payload, MappingRefusal>)
    requires
        mapping.well_formed(),
        commits@.len() == mapping.names@.len(),
    ensures
        answers_mapping(mapping, commits, contradiction, reason, tool, r),
{
    let (count, named) = collect_pruned(mapping, commits);
    if count > 0 {
        let listed = join(&named, ", ");
        let mut text = decimal(count as u64);
        text.append(" of the mapped revisions are not commits in this repository (");
        text.append(listed.as_str());
        text.append("); this map does not describe this repository's history");
        return Err(MappingRefusal::NotOfThisRepository { text });
    }
    if let Some(text) = contradiction {
        return Err(MappingRefusal::Contradicts { text });
    }
    Ok(Payload::HistoryRewritten { mapping: mapping_entries(mapping), reason, tool })
}

/// What is said of a mapping that was recorded.
pub fn mapping_recorded_line(mapping: &Successors) -> (r: String)
    ensures
        r@ == "history rewrite recorded: "@ + decimal_of(mapping.names@.len()) + " revisions"@,
{
    let count = decimal(mapping.names.len() as u64);
    let mut out = "history rewrite recorded: ".to_string();
    out.append(count.as_str());
    out.append(" revisions");
    out
}

/// What is said of a tag that was recreated.
pub fn retagged_line(name: &str, old_tag: &str, new_tag: &str, signature_dropped: bool) -> (r: String)
    ensures
        r@ == "re-pointed "@ + name@ + ": tag object "@ + shortened(old_tag@) + " is now "@
            + shortened(new_tag@) + (if signature_dropped {
            ", unsigned because the rewrite signed nothing"@
        } else {
            ""@
        }),
{
    let was = short(old_tag);
    let now = short(new_tag);
    let mut out = "re-pointed ".to_string();
    out.append(name);
    out.append(": tag object ");
    out.append(was.as_str());
    out.append(" is now ");
    out.append(now.as_str());
    if signature_dropped {
        out.append(", unsigned because the rewrite signed nothing");
    } else {
        out.append("");
    }
    out
}

/// What is said of a ref that something else than the rewrite has moved.
pub fn unsettled_text(moved: &RefMove, value: &Option<String>, intent_path: &str) -> (r: String)
    ensures
        r@ == moved.name@ + " holds "@ + (match *value {
            Some(value) => shortened(value@),
            None => "nothing"@,
        }) + ", which is neither what the rewrite read ("@ + shortened(moved.before@)
            + ") nor what it writes ("@ + shortened(moved.after@)
            + "); settle it by hand, then remove "@ + intent_path@,
{
    let held = match value {
        Some(value) => short(value.as_str()),
        None => "nothing".to_string(),
    };
    let read = short(moved.before.as_str());
    let writes = short(moved.after.as_str());
    let mut out = moved.name.clone();
    out.append(" holds ");
    out.append(held.as_str());
    out.append(", which is neither what the rewrite read (");
    out.append(read.as_str());
    out.append(") nor what it writes (");
    out.append(writes.as_str());
    out.append("); settle it by hand, then remove ");
    out.append(intent_path);
    out
}

/// What a commit turned into: itself, where nothing took its place.
pub open spec fn successor_of(
    mapping: Map<Seq<char>, Option<Seq<char>>>,
    commit: Seq<char>,
) -> Seq<char> {
    match replacement(mapping, commit) {
        Some(new) => new,
        None => commit,
    }
}

/// What becomes of a parent of a commit that is recreated.
#[derive(Clone, Copy, Debug, PartialEq, Eq, Structural)]
pub enum ParentFate {
    Kept,
    /// The rewrite dropped it.
    Dropped,
    /// It was not rewritten and is no commit of this repository.
    Missing,
}

/// What becomes of a parent: it is taken forward where it was rewritten, or is still a commit
/// here.
pub open spec fn parent_fate(
    mapping: Map<Seq<char>, Option<Seq<char>>>,
    parent: Seq<char>,
    present: bool,
) -> ParentFate {
    if mapping.dom().contains(parent) {
        if mapping[parent] is Some {
            ParentFate::Kept
        } else {
            ParentFate::Dropped
        }
    } else if present {
        ParentFate::Kept
    } else {
        ParentFate::Missing
    }
}

/// The first parent that cannot be taken forward, and why: a rewrite that picked something would
/// be guessing at ancestry.
#[derive(Clone, Copy, Debug, PartialEq, Eq, Structural)]
pub struct LostParent {
    pub index: usize,
    pub fate: ParentFate,
}

fn map_parent(parent: &str, mapping: &Successors, present: bool) -> (r: Result<String, ParentFate>)
    requires
        mapping.well_formed(),
    ensures
        match r {
            Ok(kept) => parent_fate(mapping@, parent@, present) == ParentFate::Kept && kept@
                == successor_of(mapping@, parent@),
            Err(fate) => parent_fate(mapping@, parent@, present) == fate && fate
                != ParentFate::Kept,
        },
{
    match mapping.find(parent) {
        Some(Some(new)) => Ok(new.clone()),
        Some(None) => Err(ParentFate::Dropped),
        None => if present {
            Ok(parent.to_string())
        } else {
            Err(ParentFate::Missing)
        },
    }
}

/// Whether `r` is each parent as it stands after the rewrite.
pub open spec fn maps_parents(
    parents: &Vec<String>,
    mapping: &Successors,
    present: &Vec<bool>,
    r: Result< Vec<String>, LostParent, >,
) -> bool {
    match r {
            Ok(mapped) => mapped@.len() == parents@.len() && forall|i: int|
                0 <= i < parents@.len() ==> (#[trigger] mapped@[i])@ == successor_of(
                    mapping@,
                    parents@[i]@,
                ) && parent_fate(mapping@, parents@[i]@, present@[i]) == ParentFate::Kept,
            Err(LostParent { index, fate }) => index < parents@.len() && fate != ParentFate::Kept
                && parent_fate(mapping@, parents@[index as int]@, present@[index as int]) == fate
                && forall|i: int|
                0 <= i < index ==> #[trigger] parent_fate(mapping@, parents@[i]@, present@[i])
                    == ParentFate::Kept,
        }
}

/// Each parent as it stands after the rewrite. `present` says of each whether it is a commit
/// here.
pub fn map_parents(parents: &Vec<String>, mapping: &Successors, present: &Vec<bool>) -> (r: Result<
    Vec<String>,
    LostParent,
>)
    requires
        mapping.well_formed(),
        present@.len() == parents@.len(),
    ensures
        maps_parents(parents, mapping, present, r),
{
    let ghost known = mapping@;
    let mut out: Vec<String> = Vec::new();
    for i in 0..parents.len()
        invariant
            mapping.well_formed(),
            known == mapping@,
            present@.len() == parents@.len(),
            out@.len() == i,
            forall|j: int|
                0 <= j < i ==> #[trigger] parent_fate(known, parents@[j]@, present@[j])
                    == ParentFate::Kept,
            forall|j: int|
                0 <= j < i ==> (#[trigger] out@[j])@ == successor_of(known, parents@[j]@),
    {
        match map_parent(parents[i].as_str(), mapping, present[i]) {
            Ok(kept) => {
                out.push(kept);
            },
            Err(fate) => {
                return Err(LostParent { index: i, fate });
            },
        }
    }
    assert forall|i: int| 0 <= i < parents@.len() implies (#[trigger] out@[i])@ == successor_of(
        mapping@,
        parents@[i]@,
    ) && parent_fate(mapping@, parents@[i]@, present@[i]) == ParentFate::Kept by {
        assert(parent_fate(known, parents@[i]@, present@[i]) == ParentFate::Kept);
    }
    Ok(out)
}

/// What is said of a parent that cannot be taken forward.
pub open spec fn lost_text(parent: Seq<char>, commit: Seq<char>, fate: ParentFate) -> Seq<char> {
    shortened(parent) + " is a parent of "@ + shortened(commit) + (match fate {
        ParentFate::Dropped => " and the rewrite dropped it; the ancestry cannot be rebuilt"@,
        _ =>
            " and is not a commit in this repository; the ancestry cannot be rebuilt"@,
    })
}

/// What is said of a parent that cannot be taken forward.
pub fn render_lost(parent: &str, commit: &str, fate: ParentFate) -> (r: String)
    ensures
        r@ == lost_text(parent@, commit@, fate),
{
    let mut out = short(parent);
    let of = short(commit);
    out.append(" is a parent of ");
    out.append(of.as_str());
    match fate {
        ParentFate::Dropped => out.append(
            " and the rewrite dropped it; the ancestry cannot be rebuilt",
        ),
        _ => out.append(" and is not a commit in this repository; the ancestry cannot be rebuilt"),
    }
    out
}

/// What a rewrite says of a commit that was recreated: one that came out as it was did not move.
pub open spec fn carried(
    mapping: Map<Seq<char>, Option<Seq<char>>>,
    old: Seq<char>,
    new: Seq<char>,
) -> Map<Seq<char>, Option<Seq<char>>> {
    if new == old {
        mapping
    } else {
        mapping.insert(old, Some(new))
    }
}

/// Takes down what a commit turned into.
pub fn carry(mapping: &mut Successors, old_commit: &str, new_commit: &str)
    requires
        old(mapping).well_formed(),
    ensures
        final(mapping).well_formed(),
        final(mapping)@ == carried(old(mapping)@, old_commit@, new_commit@),
{
    if !same(old_commit, new_commit) {
        mapping.put(old_commit, Some(new_commit.to_string()));
    }
}

/// Whether no commit is said to have turned into itself.
pub open spec fn moves_only(mapping: Map<Seq<char>, Option<Seq<char>>>) -> bool {
    forall|c: Seq<char>| #[trigger] mapping.dom().contains(c) ==> mapping[c] != Some(c)
}

/// A rewrite records no move that did not happen.
pub proof fn rewrites_record_moves_only(
    mapping: Map<Seq<char>, Option<Seq<char>>>,
    old: Seq<char>,
    new: Seq<char>,
)
    requires
        moves_only(mapping),
    ensures
        moves_only(carried(mapping, old, new)),
{
}

/// The entries of a mapping, in the order of the commits.
pub open spec fn lists_mapping(entries: Seq<RewrittenRevision>, mapping: Successors) -> bool {
    entries.len() == mapping.names@.len() && forall|i: int|
        0 <= i < entries.len() ==> (#[trigger] entries[i]).from@ == mapping.names@[i]@ && opt_view(
            entries[i].to,
        ) == opt_view(mapping.values@[i])
}

/// The entries of a mapping, in the order of the commits.
pub fn mapping_entries(mapping: &Successors) -> (r: Vec<RewrittenRevision>)
    requires
        mapping.well_formed(),
    ensures
        lists_mapping(r@, *mapping),
{
    let mut out: Vec<RewrittenRevision> = Vec::new();
    for i in 0..mapping.names.len()
        invariant
            mapping.well_formed(),
            out@.len() == i,
            forall|j: int|
                0 <= j < i ==> (#[trigger] out@[j]).from@ == mapping.names@[j]@ && opt_view(
                    out@[j].to,
                ) == opt_view(mapping.values@[j]),
    {
        out.push(
            RewrittenRevision {
                from: mapping.names[i].clone(),
                to: match &mapping.values[i] {
                    Some(new) => Some(new.clone()),
                    None => None,
                },
            },
        );
    }
    out
}

/// What recreating the commits came to.
#[derive(Debug)]
pub enum SignOutcome {
    Unchanged,
    DryRun,
    /// The branch moves to this commit.
    Move { new_head: String },
}

/// Whether `r` is what recreating the commits came to.
pub open spec fn ends_signing(
    mapping: &Successors,
    head: &str,
    dry_run: bool,
    r: SignOutcome,
) -> bool {
    match r {
            SignOutcome::Unchanged => mapping.names@.len() == 0,
            SignOutcome::DryRun => mapping.names@.len() > 0 && dry_run,
            SignOutcome::Move { new_head } => mapping.names@.len() > 0 && !dry_run && new_head@
                == successor_of(mapping@, head@),
        }
}

/// What recreating the commits came to: where none moved, nothing is recorded.
pub fn sign_outcome(mapping: &Successors, head: &str, dry_run: bool) -> (r: SignOutcome)
    requires
        mapping.well_formed(),
    ensures
        ends_signing(mapping, head, dry_run, r),
{
    if mapping.names.len() == 0 {
        return SignOutcome::Unchanged;
    }
    if dry_run {
        return SignOutcome::DryRun;
    }
    match replaced(mapping, head) {
        Some(new) => SignOutcome::Move { new_head: new.clone() },
        None => SignOutcome::Move { new_head: head.to_string() },
    }
}

/// The lines on the first `n` commits that a rewrite would replace.
pub open spec fn preview_lines(mapping: Successors, n: int) -> Seq<char>
    decreases n,
{
    if n <= 0 {
        Seq::empty()
    } else {
        preview_lines(mapping, n - 1) + (mapping.names@[n - 1]@ + " "@ + (
        match mapping.values@[n - 1] {
            Some(new) => new@,
            None => "dropped"@,
        }) + "\n"@)
    }
}

/// What a dry run tells: each commit and what it would turn into, and how many they are.
pub fn preview(mapping: &Successors) -> (r: String)
    requires
        mapping.well_formed(),
    ensures
        r@ == preview_lines(*mapping, mapping.names@.len() as int) + plural_text(
            mapping.names@.len(),
            "commit"@,
        ) + " would be rewritten; nothing was moved or recorded\n"@,
{
    let mut out = String::new();
    for i in 0..mapping.names.len()
        invariant
            mapping.well_formed(),
            out@ == preview_lines(*mapping, i as int),
    {
        let mut line = mapping.names[i].clone();
        line.append(" ");
        match &mapping.values[i] {
            Some(new) => line.append(new.as_str()),
            None => line.append("dropped"),
        }
        line.append("\n");
        out.append(line.as_str());
    }
    let count = plural(mapping.names.len(), "commit");
    out.append(count.as_str());
    out.append(" would be rewritten; nothing was moved or recorded\n");
    out
}

/// Why history is rewritten, as it is recorded.
pub fn rewrite_reason(branch: &str, from: &str) -> (r: String)
    ensures
        r@ == "re-signed "@ + branch@ + " from "@ + shortened(from@),
{
    let revision = short(from);
    let mut out = "re-signed ".to_string();
    out.append(branch);
    out.append(" from ");
    out.append(revision.as_str());
    out
}

/// The start of a revision.
pub open spec fn shortened(revision: Seq<char>) -> Seq<char> {
    if revision.len() <= 8 {
        revision
    } else {
        revision.take(8)
    }
}

/// The start of a revision.
pub fn short(revision: &str) -> (r: String)
    ensures
        r@ == shortened(revision@),
{
    let chars = chars_of(revision);
    if chars.len() <= 8 {
        revision.to_string()
    } else {
        assert(chars@.subrange(0, 8) =~= revision@.take(8));
        text_between(&chars, 0, 8)
    }
}

/// A number of things.
pub open spec fn plural_text(count: nat, noun: Seq<char>) -> Seq<char> {
    if count == 1 {
        "1 "@ + noun
    } else {
        decimal_of(count) + " "@ + noun + "s"@
    }
}

/// A number of things.
pub fn plural(count: usize, noun: &str) -> (r: String)
    ensures
        r@ == plural_text(count as nat, noun@),
{
    if count == 1 {
        let mut out = "1 ".to_string();
        out.append(noun);
        out
    } else {
        let mut out = decimal(count as u64);
        out.append(" ");
        out.append(noun);
        out.append("s");
        out
    }
}

/// The line that tells which headers of a commit were carried through.
pub fn carried_line(commit: &str, fields: &Vec<String>) -> (r: String)
    ensures
        r@ == "carried through on "@ + shortened(commit@) + ": the "@ + joined(
            views(fields@),
            " header and the "@,
        ) + " header"@,
{
    let revision = short(commit);
    let listed = join(fields, " header and the ");
    let mut out = "carried through on ".to_string();
    out.append(revision.as_str());
    out.append(": the ");
    out.append(listed.as_str());
    out.append(" header");
    out
}

/// A ref, and the values between which it moves.
pub struct RefMove {
    pub name: String,
    pub before: String,
    pub after: String,
}

/// A ref and its value.
pub struct RefValue {
    pub name: String,
    pub value: String,
}

/// A branch or a tag: the object that it names, of which kind that is, and the commit that it
/// leads to.
pub struct LocalRef {
    pub name: String,
    pub object: String,
    pub kind: String,
    pub commit: String,
    /// Whether the first commit of the rewrite is an ancestor of its commit.
    pub on_range: bool,
}

/// What becomes of a branch or a tag.
#[derive(Clone, Copy, Debug, PartialEq, Eq, Structural)]
pub enum RefFate {
    /// It does not lead to anything that was rewritten.
    Untouched,
    /// Its own commits are built on what was replaced, so that they need replaying.
    Stranded,
    Moves,
    /// It is an annotated tag that is recreated.
    Retagged,
    /// It is an annotated tag that stays on what was replaced.
    Left,
}

/// What becomes of a branch or a tag.
pub open spec fn ref_fate(
    reference: LocalRef,
    branch: Seq<char>,
    mapping: Map<Seq<char>, Option<Seq<char>>>,
    retag: bool,
) -> RefFate {
    if reference.name@ == "refs/heads/"@ + branch {
        RefFate::Untouched
    } else if replacement(mapping, reference.commit@) is None {
        if reference.kind@ == "commit"@ && reference.on_range {
            RefFate::Stranded
        } else {
            RefFate::Untouched
        }
    } else if reference.kind@ == "commit"@ {
        RefFate::Moves
    } else if retag {
        RefFate::Retagged
    } else {
        RefFate::Left
    }
}

/// What becomes of a branch or a tag. The branch that is rewritten moves by itself.
pub fn fate_of(reference: &LocalRef, branch: &str, mapping: &Successors, retag: bool) -> (r: RefFate)
    requires
        mapping.well_formed(),
    ensures
        r == ref_fate(*reference, branch@, mapping@, retag),
{
    let mut own = "refs/heads/".to_string();
    own.append(branch);
    if same(reference.name.as_str(), own.as_str()) {
        return RefFate::Untouched;
    }
    let commit = same(reference.kind.as_str(), "commit");
    if replaced(mapping, reference.commit.as_str()).is_none() {
        if commit && reference.on_range {
            RefFate::Stranded
        } else {
            RefFate::Untouched
        }
    } else if commit {
        RefFate::Moves
    } else if retag {
        RefFate::Retagged
    } else {
        RefFate::Left
    }
}

/// Which refs a rewrite moves, and which it reports instead.
pub struct RefMoves {
    pub moves: Vec<RefMove>,
    /// The positions of the tags that stay on what was replaced.
    pub left: Vec<usize>,
    /// The positions of the branches that need replaying.
    pub stranded: Vec<usize>,
    /// The positions of the tags that are recreated.
    pub retagged: Vec<usize>,
}

/// A ref that moves, by its views.
pub open spec fn move_view(moved: RefMove) -> (Seq<char>, Seq<char>, Seq<char>) {
    (moved.name@, moved.before@, moved.after@)
}

/// The refs that move, by their views.
pub open spec fn move_views(moves: Seq<RefMove>) -> Seq<(Seq<char>, Seq<char>, Seq<char>)> {
    Seq::new(moves.len(), |i: int| move_view(moves[i]))
}

/// How the first `n` refs that pin evidence move.
pub open spec fn evidence_moves(
    refs: Seq<RefValue>,
    mapping: Map<Seq<char>, Option<Seq<char>>>,
    n: int,
) -> Seq<(Seq<char>, Seq<char>, Seq<char>)>
    decreases n,
{
    if n <= 0 {
        Seq::empty()
    } else {
        match replacement(mapping, refs[n - 1].value@) {
            Some(new) => evidence_moves(refs, mapping, n - 1).push(
                (refs[n - 1].name@, refs[n - 1].value@, new),
            ),
            None => evidence_moves(refs, mapping, n - 1),
        }
    }
}

/// How the first `n` branches and tags move.
pub open spec fn local_moves(
    refs: Seq<LocalRef>,
    branch: Seq<char>,
    mapping: Map<Seq<char>, Option<Seq<char>>>,
    retag: bool,
    n: int,
) -> Seq<(Seq<char>, Seq<char>, Seq<char>)>
    decreases n,
{
    if n <= 0 {
        Seq::empty()
    } else if ref_fate(refs[n - 1], branch, mapping, retag) == RefFate::Moves {
        local_moves(refs, branch, mapping, retag, n - 1).push(
            (refs[n - 1].name@, refs[n - 1].object@, successor_of(mapping, refs[n - 1].commit@)),
        )
    } else {
        local_moves(refs, branch, mapping, retag, n - 1)
    }
}

/// The positions of the branches and tags of one fate.
pub open spec fn of_fate(
    refs: Seq<LocalRef>,
    branch: Seq<char>,
    mapping: Map<Seq<char>, Option<Seq<char>>>,
    retag: bool,
    fate: RefFate,
    n: nat,
) -> Seq<int> {
    chosen(n, |i: int| ref_fate(refs[i], branch, mapping, retag) == fate)
}

/// Whether the moves are those of a rewrite: every ref that pins evidence and every branch and
/// tag that leads to what was rewritten.
pub open spec fn plans_moves(
    plan: RefMoves,
    evidence: Seq<RefValue>,
    refs: Seq<LocalRef>,
    branch: Seq<char>,
    mapping: Map<Seq<char>, Option<Seq<char>>>,
    retag: bool,
) -> bool {
    let n = refs.len();
    &&& move_views(plan.moves@) == evidence_moves(evidence, mapping, evidence.len() as int)
        + local_moves(refs, branch, mapping, retag, n as int)
    &&& ints(plan.left@) == of_fate(refs, branch, mapping, retag, RefFate::Left, n)
    &&& ints(plan.stranded@) == of_fate(refs, branch, mapping, retag, RefFate::Stranded, n)
    &&& ints(plan.retagged@) == of_fate(refs, branch, mapping, retag, RefFate::Retagged, n)
}

fn move_evidence(evidence: &Vec<RefValue>, mapping: &Successors) -> (r: Vec<RefMove>)
    requires
        mapping.well_formed(),
    ensures
        move_views(r@) == evidence_moves(evidence@, mapping@, evidence@.len() as int),
{
    let mut moves: Vec<RefMove> = Vec::new();
    assert(move_views(moves@) =~= evidence_moves(evidence@, mapping@, 0));
    for i in 0..evidence.len()
        invariant
            mapping.well_formed(),
            move_views(moves@) == evidence_moves(evidence@, mapping@, i as int),
    {
        let ghost before = move_views(moves@);
        if let Some(new) = replaced(mapping, evidence[i].value.as_str()) {
            let moved = RefMove {
                name: evidence[i].name.clone(),
                before: evidence[i].value.clone(),
                after: new.clone(),
            };
            let ghost seen = move_view(moved);
            moves.push(moved);
            assert(move_views(moves@) =~= before.push(seen));
        }
    }
    moves
}

/// Every ref that leads to a commit that was rewritten, and what becomes of it. `evidence` are
/// the refs that pin evidence: what can no longer be reached is no evidence.
pub fn plan_ref_moves(
    branch: &str,
    mapping: &Successors,
    evidence: &Vec<RefValue>,
    refs: &Vec<LocalRef>,
    retag: bool,
) -> (r: RefMoves)
    requires
        mapping.well_formed(),
    ensures
        plans_moves(r, evidence@, refs@, branch@, mapping@, retag),
{
    let mut moves = move_evidence(evidence, mapping);
    let mut left: Vec<usize> = Vec::new();
    let mut stranded: Vec<usize> = Vec::new();
    let mut retagged: Vec<usize> = Vec::new();
    let ghost first = move_views(moves@);
    assert(first + local_moves(refs@, branch@, mapping@, retag, 0) =~= first);
    assert(ints(left@) =~= Seq::<int>::empty());
    assert(ints(stranded@) =~= Seq::<int>::empty());
    assert(ints(retagged@) =~= Seq::<int>::empty());
    for i in 0..refs.len()
        invariant
            mapping.well_formed(),
            move_views(moves@) == first + local_moves(refs@, branch@, mapping@, retag, i as int),
            ints(left@) == of_fate(refs@, branch@, mapping@, retag, RefFate::Left, i as nat),
            ints(stranded@) == of_fate(
                refs@,
                branch@,
                mapping@,
                retag,
                RefFate::Stranded,
                i as nat,
            ),
            ints(retagged@) == of_fate(
                refs@,
                branch@,
                mapping@,
                retag,
                RefFate::Retagged,
                i as nat,
            ),
    {
        let reference = &refs[i];
        let ghost moves_before = move_views(moves@);
        let ghost local = local_moves(refs@, branch@, mapping@, retag, i as int);
        let ghost left_before = ints(left@);
        let ghost stranded_before = ints(stranded@);
        let ghost retagged_before = ints(retagged@);
        match fate_of(reference, branch, mapping, retag) {
            RefFate::Untouched => {},
            RefFate::Stranded => {
                stranded.push(i);
                assert(ints(stranded@) =~= stranded_before.push(i as int));
            },
            RefFate::Moves => {
                if let Some(new) = replaced(mapping, reference.commit.as_str()) {
                    let moved = RefMove {
                        name: reference.name.clone(),
                        before: reference.object.clone(),
                        after: new.clone(),
                    };
                    let ghost seen = move_view(moved);
                    moves.push(moved);
                    assert(move_views(moves@) =~= moves_before.push(seen));
                    assert(first + local.push(seen) =~= (first + local).push(seen));
                }
            },
            RefFate::Retagged => {
                retagged.push(i);
                assert(ints(retagged@) =~= retagged_before.push(i as int));
            },
            RefFate::Left => {
                left.push(i);
                assert(ints(left@) =~= left_before.push(i as int));
            },
        }
    }
    RefMoves { moves, left, stranded, retagged }
}

/// Whether `r` says if a recreated tag is signed, and if a signature is lost.
pub open spec fn signs_tag(
    signed: bool,
    rewrite_signs: bool,
    r: (bool, bool),
) -> bool {
    &&& r.0 == (signed && rewrite_signs)
    &&& r.1 == (signed && !rewrite_signs)
}

/// Whether a recreated tag is signed, and whether a signature is lost: a rewrite that signs
/// nothing signs no tag.
pub fn retag_signing(signed: bool, rewrite_signs: bool) -> (r: (bool, bool))
    ensures
        signs_tag(signed, rewrite_signs, r),
{
    (signed && rewrite_signs, signed && !rewrite_signs)
}

/// What is said of a tag that stays on what was replaced.
pub fn left_text(name: &str) -> (r: String)
    ensures
        r@ == name@
            + " is an annotated tag naming a replaced commit; `git describe` and the changelog projection have no release boundary until it is re-pointed, which `arc rewrite sign --retag` does"@,
{
    let mut out = name.to_string();
    out.append(
        " is an annotated tag naming a replaced commit; `git describe` and the changelog projection have no release boundary until it is re-pointed, which `arc rewrite sign --retag` does",
    );
    out
}

/// A text without a prefix, however often it begins with it.
pub open spec fn without_prefix(text: Seq<char>, prefix: Seq<char>) -> Seq<char>
    decreases text.len(),
{
    if prefix.len() > 0 && begins(text, prefix) {
        without_prefix(text.skip(prefix.len() as int), prefix)
    } else {
        text
    }
}

/// A text without a prefix, however often it begins with it.
pub fn strip_prefixes(text: &str, prefix: &str) -> (r: String)
    requires
        prefix@.len() > 0,
    ensures
        r@ == without_prefix(text@, prefix@),
{
    let mut rest = text.to_string();
    while starts_with(rest.as_str(), prefix)
        invariant
            prefix@.len() > 0,
            without_prefix(text@, prefix@) == without_prefix(rest@, prefix@),
        decreases rest@.len(),
    {
        match strip_prefix(rest.as_str(), prefix) {
            Some(shorter) => {
                rest = shorter;
            },
            None => {
                return rest;
            },
        }
    }
    rest
}

/// What is said of a branch that needs replaying.
pub fn stranded_text(name: &str, new_head: &str, from: &str) -> (r: String)
    ensures
        r@ == "stranded: "@ + name@
            + " sits on the replaced line; replay it with `git rebase --onto "@ + shortened(
            new_head@,
        ) + " "@ + shortened(from@) + " "@ + without_prefix(name@, "refs/heads/"@) + "`"@,
{
    proof {
        reveal_strlit("refs/heads/");
    }
    let onto = short(new_head);
    let since = short(from);
    let branch = strip_prefixes(name, "refs/heads/");
    let mut out = "stranded: ".to_string();
    out.append(name);
    out.append(" sits on the replaced line; replay it with `git rebase --onto ");
    out.append(onto.as_str());
    out.append(" ");
    out.append(since.as_str());
    out.append(" ");
    out.append(branch.as_str());
    out.append("`");
    out
}

/// A ref that something else than the rewrite has moved.
#[derive(Clone, Copy, Debug, PartialEq, Eq, Structural)]
pub struct Unsettled {
    pub index: usize,
}

/// Whether a ref is where the rewrite takes it.
pub open spec fn arrived(moved: RefMove, value: Option<String>) -> bool {
    opt_view(value) == Some(moved.after@)
}

/// Whether a ref is where the rewrite found it, and has to move.
pub open spec fn waiting(moved: RefMove, value: Option<String>) -> bool {
    !arrived(moved, value) && opt_view(value) == Some(moved.before@)
}

/// Whether `r` are the refs that still have to move.
pub open spec fn leaves_moves(
    refs: &Vec<RefMove>,
    values: &Vec<Option<String>>,
    r: Result< Vec<usize>, Unsettled, >,
) -> bool {
    match r {
            Ok(pending) => ints(pending@) == chosen(
                refs@.len(),
                |i: int| waiting(refs@[i], values@[i]),
            ) && forall|i: int|
                0 <= i < refs@.len() ==> arrived(#[trigger] refs@[i], values@[i]) || waiting(
                    refs@[i],
                    values@[i],
                ),
            Err(Unsettled { index }) => index < refs@.len() && !arrived(
                refs@[index as int],
                values@[index as int],
            ) && !waiting(refs@[index as int], values@[index as int]) && forall|i: int|
                0 <= i < index ==> arrived(#[trigger] refs@[i], values@[i]) || waiting(
                    refs@[i],
                    values@[i],
                ),
        }
}

/// The refs that still have to move, from where each stands now. One that stands elsewhere was
/// moved by someone else, and that is settled by hand.
pub fn pending_moves(refs: &Vec<RefMove>, values: &Vec<Option<String>>) -> (r: Result<
    Vec<usize>,
    Unsettled,
>)
    requires
        values@.len() == refs@.len(),
    ensures
        leaves_moves(refs, values, r),
{
    let mut pending: Vec<usize> = Vec::new();
    let ghost wanted = |i: int| waiting(refs@[i], values@[i]);
    assert(ints(pending@) =~= Seq::<int>::empty());
    for i in 0..refs.len()
        invariant
            values@.len() == refs@.len(),
            wanted == (|i: int| waiting(refs@[i], values@[i])),
            ints(pending@) == chosen(i as nat, wanted),
            forall|j: int|
                0 <= j < i ==> arrived(#[trigger] refs@[j], values@[j]) || waiting(
                    refs@[j],
                    values@[j],
                ),
    {
        let ghost before = ints(pending@);
        match &values[i] {
            Some(value) => {
                if same(value.as_str(), refs[i].after.as_str()) {
                    assert(arrived(refs@[i as int], values@[i as int]));
                } else if same(value.as_str(), refs[i].before.as_str()) {
                    assert(waiting(refs@[i as int], values@[i as int]));
                    pending.push(i);
                    assert(ints(pending@) =~= before.push(i as int));
                } else {
                    return Err(Unsettled { index: i });
                }
            },
            None => {
                return Err(Unsettled { index: i });
            },
        }
    }
    Ok(pending)
}

/// A rewrite whose refs have all moved has nothing left to move: finishing it twice is finishing
/// it once.
pub proof fn finished_rewrites_move_nothing(refs: Seq<RefMove>, values: Seq<Option<String>>)
    requires
        values.len() == refs.len(),
        forall|i: int| 0 <= i < refs.len() ==> arrived(#[trigger] refs[i], values[i]),
    ensures
        chosen(refs.len(), |i: int| waiting(refs[i], values[i])).len() == 0,
{
    let wanted = |i: int| waiting(refs[i], values[i]);
    lemma_chosen(refs.len(), wanted);
    let all = chosen(refs.len(), wanted);
    if all.len() > 0 {
        assert(all.contains(all[0]));
        assert(wanted(all[0]));
        assert(arrived(refs[all[0]], values[all[0]]));
    }
}

/// Whether two mappings say the same.
pub open spec fn same_mapping(a: Seq<RewrittenRevision>, b: Seq<RewrittenRevision>) -> bool {
    a.len() == b.len() && forall|i: int|
        0 <= i < a.len() ==> (#[trigger] a[i]).from@ == b[i].from@ && opt_view(a[i].to) == opt_view(
            b[i].to,
        )
}

fn is_same_mapping(a: &Vec<RewrittenRevision>, b: &Vec<RewrittenRevision>) -> (r: bool)
    ensures
        r == same_mapping(a@, b@),
{
    if a.len() != b.len() {
        return false;
    }
    for i in 0..a.len()
        invariant
            a@.len() == b@.len(),
            forall|j: int|
                0 <= j < i ==> (#[trigger] a@[j]).from@ == b@[j].from@ && opt_view(a@[j].to)
                    == opt_view(b@[j].to),
    {
        if !same(a[i].from.as_str(), b[i].from.as_str()) || !same_option(&a[i].to, &b[i].to) {
            return false;
        }
    }
    true
}

/// Whether an event records a mapping.
pub open spec fn records_mapping(event: Event, mapping: Seq<RewrittenRevision>) -> bool {
    match event.payload {
        Payload::HistoryRewritten { mapping: recorded, .. } => same_mapping(recorded@, mapping),
        _ => false,
    }
}

/// Whether `r` is the first event that records a mapping.
pub open spec fn is_recorded(
    events: &Vec<Event>,
    mapping: &Vec<RewrittenRevision>,
    r: Option<usize>,
) -> bool {
    match r {
            Some(k) => k < events@.len() && records_mapping(events@[k as int], mapping@)
                && forall|j: int|
                0 <= j < k ==> !records_mapping(#[trigger] events@[j], mapping@),
            None => forall|j: int|
                0 <= j < events@.len() ==> !records_mapping(#[trigger] events@[j], mapping@),
        }
}

/// The first event that records a mapping, where one does: an interrupted rewrite may have
/// recorded it, and it is not recorded twice.
pub fn recorded_as(events: &Vec<Event>, mapping: &Vec<RewrittenRevision>) -> (r: Option<usize>)
    ensures
        is_recorded(events, mapping, r),
{
    for k in 0..events.len()
        invariant
            forall|j: int| 0 <= j < k ==> !records_mapping(#[trigger] events@[j], mapping@),
    {
        if let Payload::HistoryRewritten { mapping: recorded, reason, tool } = &events[k].payload {
            if is_same_mapping(recorded, mapping) {
                return Some(k);
            }
        }
    }
    None
}

/// A rewrite that was interrupted is finished before another begins, and one of another branch
/// stands in the way; nothing is rewritten over changes that are not committed.
pub proof fn interrupted_rewrites_come_first(
    args: &SignArgs,
    branch: &str,
    unfinished: &Option<String>,
    clean: bool,
    survey: &Vec<SurveyRow>,
    r: SignStart,
)
    requires
        starts_signing(args, branch, unfinished, clean, survey, r),
    ensures
        *unfinished matches Some(other) ==> (other@ == branch@ ==> r is Resume) && (other@
            != branch@ ==> r is OtherBranchUnfinished),
        unfinished is None && !clean ==> r is UncommittedChanges,
        unfinished is None && clean && args.from is Some ==> r is FromAsked,
        unfinished is None && clean && args.from is None ==> r is FromRow || r is NothingToDo,
{
}

/// Every commit that is older than where a rewrite for a key starts is signed with that key, and
/// the one where it starts is not; there is nothing to do exactly where all are.
pub proof fn rewrites_start_at_the_oldest(
    args: &SignArgs,
    branch: &str,
    unfinished: &Option<String>,
    clean: bool,
    survey: &Vec<SurveyRow>,
    key: String,
    r: SignStart,
)
    requires
        starts_signing(args, branch, unfinished, clean, survey, r),
        args.key == Some(key),
    ensures
        r matches SignStart::FromRow { row } ==> {
            &&& row < survey@.len()
            &&& forall|j: int|
                row < j < survey@.len() ==> ((#[trigger] survey@[j]).verification@ == "G"@
                    || survey@[j].verification@ == "U"@) && one_key(
                    survey@[j].signer@,
                    stripped_end(key@, '!'),
                )
            &&& !((survey@[row as int].verification@ == "G"@ || survey@[row as int].verification@
                == "U"@) && one_key(survey@[row as int].signer@, stripped_end(key@, '!')))
        },
        r is NothingToDo ==> forall|j: int|
            0 <= j < survey@.len() ==> ((#[trigger] survey@[j]).verification@ == "G"@
                || survey@[j].verification@ == "U"@) && one_key(
                survey@[j].signer@,
                stripped_end(key@, '!'),
            ),
{
    let wanted = Some(stripped_end(key@, '!'));
    if let SignStart::FromRow { row } = r {
        let found = choose|found: Option<Seq<char>>| #[trigger]
            is_wanted(found, survey@, args.key) && oldest_at(survey@, found, row as int);
        assert(found == wanted);
        assert forall|j: int| row < j < survey@.len() implies ((#[trigger] survey@[j]).verification@
            == "G"@ || survey@[j].verification@ == "U"@) && one_key(
            survey@[j].signer@,
            stripped_end(key@, '!'),
        ) by {
            assert(!needs_signing(survey@[j], found));
        }
    }
    if r is NothingToDo {
        let found = choose|found: Option<Seq<char>>| #[trigger]
            is_wanted(found, survey@, args.key) && all_signed(survey@, found);
        assert(found == wanted);
        assert forall|j: int| 0 <= j < survey@.len() implies ((#[trigger] survey@[j]).verification@
            == "G"@ || survey@[j].verification@ == "U"@) && one_key(
            survey@[j].signer@,
            stripped_end(key@, '!'),
        ) by {
            assert(!needs_signing(survey@[j], found));
        }
    }
}

/// Without a key that is asked for, a branch on which nothing is signed is rewritten from its
/// oldest commit on.
pub proof fn unsigned_branches_are_rewritten_whole(
    args: &SignArgs,
    branch: &str,
    clean: bool,
    survey: &Vec<SurveyRow>,
    r: SignStart,
)
    requires
        starts_signing(args, branch, &None, clean, survey, r),
        args.key is None,
        args.from is None,
        clean,
        survey@.len() > 0,
        forall|j: int|
            0 <= j < survey@.len() ==> (#[trigger] survey@[j]).verification@ != "G"@
                && survey@[j].verification@ != "U"@,
    ensures
        r matches SignStart::FromRow { row } && row + 1 == survey@.len(),
{
    assert(never_good(survey@));
    let last = survey@[survey@.len() - 1];
    assert(needs_signing(last, None));
}

proof fn lemma_nothing_pruned(mapping: Successors, present: Seq<bool>, n: int)
    requires
        0 <= n,
    ensures
        pruned_texts(mapping, present, n).len() == 0 <==> forall|i: int|
            0 <= i < n && (#[trigger] mapping.values@[i]) is Some ==> present[i],
    decreases n,
{
    if n > 0 {
        lemma_nothing_pruned(mapping, present, n - 1);
        if pruned_texts(mapping, present, n).len() == 0 {
            assert forall|i: int|
                0 <= i < n && (#[trigger] mapping.values@[i]) is Some implies present[i] by {
                if i == n - 1 {
                    assert(present[n - 1]);
                }
            }
        }
    }
}

/// A rewrite can be finished exactly where everything that survived it is still here.
pub proof fn rewrites_finish_where_commits_remain(
    mapping: &Successors,
    present: &Vec<bool>,
    intent_path: &str,
    r: Result<(), String>,
)
    requires
        tells_pruned(mapping, present, intent_path, r),
    ensures
        r is Ok <==> forall|i: int|
            0 <= i < mapping.names@.len() && (#[trigger] mapping.values@[i]) is Some ==> present@[i],
{
    lemma_nothing_pruned(*mapping, present@, mapping.names@.len() as int);
}

/// A mapping is recorded exactly where everything that survived is a commit here and nothing that
/// is recorded contradicts it; and it is recorded whole.
pub proof fn sound_mappings_are_recorded(
    mapping: &Successors,
    commits: &Vec<bool>,
    contradiction: Option<String>,
    reason: String,
    tool: Option<String>,
    r: Result<Payload, MappingRefusal>,
)
    requires
        answers_mapping(mapping, commits, contradiction, reason, tool, r),
    ensures
        r is Ok <==> contradiction is None && forall|i: int|
            0 <= i < mapping.names@.len() && (#[trigger] mapping.values@[i]) is Some ==> commits@[i],
        r matches Ok(payload) ==> (payload matches Payload::HistoryRewritten {
            mapping: entries,
            reason: why,
            ..
        } && why@ == reason@ && entries@.len() == mapping.names@.len() && forall|i: int|
            0 <= i < entries@.len() ==> (#[trigger] entries@[i]).from@ == mapping.names@[i]@
                && entries@[i].to is Some == mapping.values@[i] is Some),
{
    lemma_nothing_pruned(*mapping, commits@, mapping.names@.len() as int);
}

/// Each parent becomes what it was rewritten to, or stays as it is where it was not rewritten and
/// is here; one that was dropped or that is not here is never guessed at.
pub proof fn parents_are_not_guessed(
    parents: &Vec<String>,
    mapping: &Successors,
    present: &Vec<bool>,
    r: Result<Vec<String>, LostParent>,
)
    requires
        maps_parents(parents, mapping, present, r),
    ensures
        r is Ok <==> forall|i: int|
            0 <= i < parents@.len() ==> if mapping@.dom().contains((#[trigger] parents@[i])@) {
                mapping@[parents@[i]@] is Some
            } else {
                present@[i]
            },
        r matches Ok(mapped) ==> mapped@.len() == parents@.len() && forall|i: int|
            0 <= i < parents@.len() ==> Some((#[trigger] mapped@[i])@) == (
            if mapping@.dom().contains(parents@[i]@) {
                mapping@[parents@[i]@]
            } else {
                Some(parents@[i]@)
            }),
{
    if let Ok(mapped) = r {
        assert forall|i: int| 0 <= i < parents@.len() implies if mapping@.dom().contains(
            (#[trigger] parents@[i])@,
        ) {
            mapping@[parents@[i]@] is Some
        } else {
            present@[i]
        } by {
            assert(mapped@[i]@ == successor_of(mapping@, parents@[i]@));
        }
        assert forall|i: int| 0 <= i < parents@.len() implies Some((#[trigger] mapped@[i])@) == (
        if mapping@.dom().contains(parents@[i]@) {
            mapping@[parents@[i]@]
        } else {
            Some(parents@[i]@)
        }) by {
        }
    } else {
        let lost = r->Err_0;
        assert(parent_fate(
            mapping@,
            parents@[lost.index as int]@,
            present@[lost.index as int],
        ) != ParentFate::Kept);
    }
}

/// Where no commit moved nothing is done, a dry run moves nothing, and otherwise the branch moves to
/// what its head turned into.
pub proof fn branches_move_to_their_successor(
    mapping: &Successors,
    head: &str,
    dry_run: bool,
    r: SignOutcome,
)
    requires
        ends_signing(mapping, head, dry_run, r),
    ensures
        r is Unchanged <==> mapping.names@.len() == 0,
        r is Move <==> mapping.names@.len() > 0 && !dry_run,
        r matches SignOutcome::Move { new_head } ==> (mapping@.dom().contains(head@)
            && mapping@[head@] is Some ==> new_head@ == mapping@[head@]->0) && (
        !mapping@.dom().contains(head@) ==> new_head@ == head@),
{
}

/// A branch or a lightweight tag whose commit was replaced moves; an annotated tag is recreated only
/// where that is asked for; and what was not replaced stays, but for a branch whose own commits are
/// built on what was.
pub proof fn refs_follow_what_was_replaced(
    reference: LocalRef,
    branch: Seq<char>,
    mapping: Map<Seq<char>, Option<Seq<char>>>,
    retag: bool,
)
    ensures
        ({
            let own = reference.name@ == "refs/heads/"@ + branch;
            let replaced = mapping.dom().contains(reference.commit@)
                && mapping[reference.commit@] is Some;
            let plain = reference.kind@ == "commit"@;
            let fate = ref_fate(reference, branch, mapping, retag);
            &&& fate == RefFate::Moves <==> !own && replaced && plain
            &&& fate == RefFate::Retagged <==> !own && replaced && !plain && retag
            &&& fate == RefFate::Left <==> !own && replaced && !plain && !retag
            &&& fate == RefFate::Stranded <==> !own && !replaced && plain && reference.on_range
        }),
{
}

proof fn lemma_evidence_moves(
    refs: Seq<RefValue>,
    mapping: Map<Seq<char>, Option<Seq<char>>>,
    n: int,
    i: int,
)
    requires
        0 <= i < n <= refs.len(),
        replacement(mapping, refs[i].value@) is Some,
    ensures
        evidence_moves(refs, mapping, n).contains(
            (refs[i].name@, refs[i].value@, replacement(mapping, refs[i].value@)->0),
        ),
    decreases n,
{
    let moved = (refs[i].name@, refs[i].value@, replacement(mapping, refs[i].value@)->0);
    let all = evidence_moves(refs, mapping, n);
    if i == n - 1 {
        assert(all[all.len() - 1] == moved);
    } else {
        lemma_evidence_moves(refs, mapping, n - 1, i);
        let prior = evidence_moves(refs, mapping, n - 1);
        let k = choose|k: int| 0 <= k < prior.len() && prior[k] == moved;
        assert(all[k] == moved);
    }
}

proof fn lemma_local_moves(
    refs: Seq<LocalRef>,
    branch: Seq<char>,
    mapping: Map<Seq<char>, Option<Seq<char>>>,
    retag: bool,
    n: int,
    i: int,
)
    requires
        0 <= i < n <= refs.len(),
        ref_fate(refs[i], branch, mapping, retag) == RefFate::Moves,
    ensures
        local_moves(refs, branch, mapping, retag, n).contains(
            (refs[i].name@, refs[i].object@, successor_of(mapping, refs[i].commit@)),
        ),
    decreases n,
{
    let moved = (refs[i].name@, refs[i].object@, successor_of(mapping, refs[i].commit@));
    let all = local_moves(refs, branch, mapping, retag, n);
    if i == n - 1 {
        assert(all[all.len() - 1] == moved);
    } else {
        lemma_local_moves(refs, branch, mapping, retag, n - 1, i);
        let prior = local_moves(refs, branch, mapping, retag, n - 1);
        let k = choose|k: int| 0 <= k < prior.len() && prior[k] == moved;
        assert(all[k] == moved);
    }
}

/// Evidence stays within reach: every ref that pins a commit which was replaced moves from there to
/// what replaced it.
pub proof fn evidence_follows_the_rewrite(
    plan: RefMoves,
    evidence: Seq<RefValue>,
    refs: Seq<LocalRef>,
    branch: Seq<char>,
    mapping: Map<Seq<char>, Option<Seq<char>>>,
    retag: bool,
    i: int,
)
    requires
        plans_moves(plan, evidence, refs, branch, mapping, retag),
        0 <= i < evidence.len(),
        mapping.dom().contains(evidence[i].value@),
        mapping[evidence[i].value@] is Some,
    ensures
        exists|k: int|
            0 <= k < plan.moves@.len() && (#[trigger] plan.moves@[k]).name@ == evidence[i].name@
                && plan.moves@[k].before@ == evidence[i].value@ && plan.moves@[k].after@
                == mapping[evidence[i].value@]->0,
{
    lemma_evidence_moves(evidence, mapping, evidence.len() as int, i);
    let moved = (evidence[i].name@, evidence[i].value@, mapping[evidence[i].value@]->0);
    let first = evidence_moves(evidence, mapping, evidence.len() as int);
    let k = choose|k: int| 0 <= k < first.len() && first[k] == moved;
    let rest = local_moves(refs, branch, mapping, retag, refs.len() as int);
    assert((first + rest)[k] == moved);
    assert(move_views(plan.moves@) == first + rest);
    assert(move_views(plan.moves@).len() == plan.moves@.len());
    assert(move_views(plan.moves@)[k] == move_view(plan.moves@[k]));
}

/// Every other branch and lightweight tag on a commit that was replaced moves to what replaced it.
pub proof fn branches_follow_the_rewrite(
    plan: RefMoves,
    evidence: Seq<RefValue>,
    refs: Seq<LocalRef>,
    branch: Seq<char>,
    mapping: Map<Seq<char>, Option<Seq<char>>>,
    retag: bool,
    i: int,
)
    requires
        plans_moves(plan, evidence, refs, branch, mapping, retag),
        0 <= i < refs.len(),
        refs[i].name@ != "refs/heads/"@ + branch,
        refs[i].kind@ == "commit"@,
        mapping.dom().contains(refs[i].commit@),
        mapping[refs[i].commit@] is Some,
    ensures
        exists|k: int|
            0 <= k < plan.moves@.len() && (#[trigger] plan.moves@[k]).name@ == refs[i].name@
                && plan.moves@[k].before@ == refs[i].object@ && plan.moves@[k].after@
                == mapping[refs[i].commit@]->0,
{
    lemma_local_moves(refs, branch, mapping, retag, refs.len() as int, i);
    let moved = (refs[i].name@, refs[i].object@, mapping[refs[i].commit@]->0);
    let first = evidence_moves(evidence, mapping, evidence.len() as int);
    let rest = local_moves(refs, branch, mapping, retag, refs.len() as int);
    let k = choose|k: int| 0 <= k < rest.len() && rest[k] == moved;
    assert((first + rest)[first.len() + k] == moved);
    assert(move_views(plan.moves@) == first + rest);
    assert(move_views(plan.moves@).len() == plan.moves@.len());
    assert(move_views(plan.moves@)[first.len() + k] == move_view(plan.moves@[first.len() + k]));
}

/// What is reported instead of moved: annotated tags that stay, and branches that need replaying.
pub proof fn what_does_not_move_is_reported(
    plan: RefMoves,
    evidence: Seq<RefValue>,
    refs: Seq<LocalRef>,
    branch: Seq<char>,
    mapping: Map<Seq<char>, Option<Seq<char>>>,
    retag: bool,
    i: usize,
)
    requires
        plans_moves(plan, evidence, refs, branch, mapping, retag),
        i < refs.len(),
        refs[i as int].name@ != "refs/heads/"@ + branch,
    ensures
        ({
            let replaced = mapping.dom().contains(refs[i as int].commit@)
                && mapping[refs[i as int].commit@] is Some;
            let plain = refs[i as int].kind@ == "commit"@;
            &&& plan.left@.contains(i) <==> replaced && !plain && !retag
            &&& plan.retagged@.contains(i) <==> replaced && !plain && retag
            &&& plan.stranded@.contains(i) <==> !replaced && plain && refs[i as int].on_range
        }),
{
    let left = |i: int| ref_fate(refs[i], branch, mapping, retag) == RefFate::Left;
    let retagged = |i: int| ref_fate(refs[i], branch, mapping, retag) == RefFate::Retagged;
    let stranded = |i: int| ref_fate(refs[i], branch, mapping, retag) == RefFate::Stranded;
    lemma_chosen(refs.len(), left);
    lemma_chosen(refs.len(), retagged);
    lemma_chosen(refs.len(), stranded);
    lemma_ints_contain(plan.left@, i);
    lemma_ints_contain(plan.retagged@, i);
    lemma_ints_contain(plan.stranded@, i);
    assert(of_fate(refs, branch, mapping, retag, RefFate::Left, refs.len()) =~= chosen(
        refs.len(),
        left,
    ));
    assert(of_fate(refs, branch, mapping, retag, RefFate::Retagged, refs.len()) =~= chosen(
        refs.len(),
        retagged,
    ));
    assert(of_fate(refs, branch, mapping, retag, RefFate::Stranded, refs.len()) =~= chosen(
        refs.len(),
        stranded,
    ));
    assert(chosen(refs.len(), left).contains(i as int) <==> left(i as int));
    assert(chosen(refs.len(), retagged).contains(i as int) <==> retagged(i as int));
    assert(chosen(refs.len(), stranded).contains(i as int) <==> stranded(i as int));
}

/// A signed tag stays signed exactly where the rewrite signs, and otherwise its loss is told.
pub proof fn lost_signatures_are_told(signed: bool, rewrite_signs: bool, r: (bool, bool))
    requires
        signs_tag(signed, rewrite_signs, r),
    ensures
        r.0 || r.1 <==> signed,
        !(r.0 && r.1),
        r.0 ==> rewrite_signs,
        r.1 ==> !rewrite_signs,
{
}

/// What still has to move is what stands where the rewrite found it, and nothing moves where a ref
/// stands anywhere else than where the rewrite found it or takes it.
pub proof fn foreign_moves_are_not_overwritten(
    refs: &Vec<RefMove>,
    values: &Vec<Option<String>>,
    i: usize,
    r: Result<Vec<usize>, Unsettled>,
)
    requires
        leaves_moves(refs, values, r),
        i < refs@.len(),
    ensures
        !(values@[i as int] matches Some(value) && (value@ == refs@[i as int].before@ || value@
            == refs@[i as int].after@)) ==> r is Err,
        r matches Ok(pending) ==> (pending@.contains(i) <==> refs@[i as int].before@
            != refs@[i as int].after@ && values@[i as int] is Some && values@[i as int]->0@
            == refs@[i as int].before@),
{
    if let Ok(pending) = r {
        let wanted = |i: int| waiting(refs@[i], values@[i]);
        lemma_chosen(refs@.len(), wanted);
        lemma_ints_contain(pending@, i);
        assert(chosen(refs@.len(), wanted).contains(i as int) <==> wanted(i as int));
        assert(arrived(refs@[i as int], values@[i as int]) || waiting(
            refs@[i as int],
            values@[i as int],
        ));
    }
}

/// A mapping that an event records is found, and only an event of a rewrite records one.
pub proof fn recorded_mappings_are_found(
    events: &Vec<Event>,
    mapping: &Vec<RewrittenRevision>,
    i: int,
    r: Option<usize>,
)
    requires
        is_recorded(events, mapping, r),
    ensures
        r matches Some(k) ==> k < events@.len() && events@[k as int].payload is HistoryRewritten,
        0 <= i < events@.len() && (events@[i].payload matches Payload::HistoryRewritten {
            mapping: recorded,
            ..
        } && recorded@.len() == mapping@.len() && forall|j: int|
            0 <= j < recorded@.len() ==> (#[trigger] recorded@[j]).from@ == mapping@[j].from@
                && opt_view(recorded@[j].to) == opt_view(mapping@[j].to)) ==> r is Some && r->0
            <= i,
{
    if 0 <= i < events@.len() {
        if let Payload::HistoryRewritten { mapping: recorded, .. } = events@[i].payload {
            if recorded@.len() == mapping@.len() && forall|j: int|
                0 <= j < recorded@.len() ==> (#[trigger] recorded@[j]).from@ == mapping@[j].from@
                    && opt_view(recorded@[j].to) == opt_view(mapping@[j].to) {
                assert(records_mapping(events@[i], mapping@));
            }
        }
    }
}

} // verus!
