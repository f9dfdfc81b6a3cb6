//! A disposable copy of a project: what it differs in from its source, and when one may be made.
use crate::order::count;
use crate::table::{
    ascending, insert_name, lemma_views_contain, lemma_views_listed, listed,
    lists_hold_what_is_wanted,
};
use crate::text::{
    among, blank, contains, ends, ends_with, is_blank, lines, lines_of, same, views,
};
use vstd::prelude::*;

verus! {

/// The format of the differences of a sandbox, written as JSON.
pub const SANDBOX_DIFF_SCHEMA: &'static str = "arc-sandbox-diff/1";

/// The format of a copy that was made, written as JSON.
pub const SANDBOX_CLONE_SCHEMA: &'static str = "arc-sandbox-clone/1";

/// The format of the marker of a sandbox.
pub const MARKER_SCHEMA: &'static str = "arc-sandbox/1";

/// What one side holds that the other does not.
#[derive(Debug)]
pub struct SetDiff {
    pub only_in_sandbox: Vec<String>,
    pub only_in_source: Vec<String>,
}

/// What some texts hold that others do not, in order, each once.
pub open spec fn held_only(these: Seq<String>, others: Seq<String>) -> Seq<Seq<char>> {
    listed(|x: Seq<char>| among(these, x) && !among(others, x))
}

fn collect_only(these: &Vec<String>, others: &Vec<String>) -> (r: Vec<String>)
    ensures
        views(r@) == held_only(these@, others@),
        r@.len() == 0 <==> forall|x: Seq<char>| #[trigger] among(these@, x) ==> among(others@, x),
{
    let mut out: Vec<String> = Vec::new();
    assert(views(out@) =~= Seq::<Seq<char>>::empty());
    for i in 0..these.len()
        invariant
            ascending(views(out@)),
            forall|x: Seq<char>| #[trigger]
                among(out@, x) <==> among(these@.take(i as int), x) && !among(others@, x),
    {
        let ghost before = out@;
        let ghost head = these@.take(i as int);
        let ghost after = these@.take(i + 1);
        if !contains(others, these[i].as_str()) {
            insert_name(&mut out, these[i].as_str());
        }
        assert forall|x: Seq<char>| #[trigger] among(out@, x) <==> among(after, x) && !among(
            others@,
            x,
        ) by {
            assert(among(before, x) <==> among(head, x) && !among(others@, x));
            if among(head, x) {
                let k = choose|k: int| 0 <= k < head.len() && #[trigger] head[k]@ == x;
                assert(after[k]@ == x);
            }
            if among(after, x) {
                let k = choose|k: int| 0 <= k < after.len() && #[trigger] after[k]@ == x;
                if k < i {
                    assert(head[k]@ == x);
                }
            }
            assert(after[i as int]@ == these@[i as int]@);
        }
    }
    assert(these@.take(these@.len() as int) =~= these@);
    proof {
        let wanted = |x: Seq<char>| among(these@, x) && !among(others@, x);
        assert forall|x: Seq<char>| #[trigger] among(out@, x) <==> wanted(x) by {}
        lemma_views_listed(out@, wanted);
        if out@.len() == 0 {
            assert forall|x: Seq<char>| #[trigger] among(these@, x) implies among(others@, x) by {
                if !among(others@, x) {
                    assert(among(out@, x));
                }
            }
        } else {
            let x = out@[0]@;
            assert(among(out@, x));
            assert(among(these@, x) && !among(others@, x));
        }
    }
    out
}

/// Whether two lists hold the same texts.
pub open spec fn same_members(a: Seq<String>, b: Seq<String>) -> bool {
    forall|x: Seq<char>| #[trigger] among(a, x) <==> among(b, x)
}

impl SetDiff {
    /// What each side holds that the other does not.
    pub fn between(sandbox: &Vec<String>, source: &Vec<String>) -> (r: SetDiff)
        ensures
            views(r.only_in_sandbox@) == held_only(sandbox@, source@),
            views(r.only_in_source@) == held_only(source@, sandbox@),
            r.is_identical() <==> same_members(sandbox@, source@),
    {
        let only_in_sandbox = collect_only(sandbox, source);
        let only_in_source = collect_only(source, sandbox);
        proof {
            if only_in_sandbox@.len() == 0 && only_in_source@.len() == 0 {
                assert forall|x: Seq<char>| #[trigger] among(sandbox@, x) <==> among(
                    source@,
                    x,
                ) by {}
            }
            if same_members(sandbox@, source@) {
                assert forall|x: Seq<char>| #[trigger] among(source@, x) implies among(
                    sandbox@,
                    x,
                ) by {
                    assert(among(sandbox@, x) <==> among(source@, x));
                }
            }
        }
        SetDiff { only_in_sandbox, only_in_source }
    }

    /// Whether neither side holds anything that the other does not.
    pub open spec fn is_identical(self) -> bool {
        self.only_in_sandbox@.len() == 0 && self.only_in_source@.len() == 0
    }

    pub fn identical(&self) -> (r: bool)
        ensures
            r == self.is_identical(),
    {
        self.only_in_sandbox.len() == 0 && self.only_in_source.len() == 0
    }
}

/// Compared the other way round, the two sides of a difference change places.
pub proof fn differences_mirror(a: SetDiff, b: SetDiff, these: Seq<String>, others: Seq<String>)
    requires
        views(a.only_in_sandbox@) == held_only(these, others),
        views(a.only_in_source@) == held_only(others, these),
        views(b.only_in_sandbox@) == held_only(others, these),
        views(b.only_in_source@) == held_only(these, others),
    ensures
        views(a.only_in_sandbox@) == views(b.only_in_source@),
        views(a.only_in_source@) == views(b.only_in_sandbox@),
        a.is_identical() == b.is_identical(),
{
    assert(views(a.only_in_sandbox@).len() == a.only_in_sandbox@.len());
    assert(views(a.only_in_source@).len() == a.only_in_source@.len());
    assert(views(b.only_in_sandbox@).len() == b.only_in_sandbox@.len());
    assert(views(b.only_in_source@).len() == b.only_in_source@.len());
}

/// What a sandbox differs in from its source.
pub struct DiffReport {
    pub ledger_events: SetDiff,
    pub journal_events: SetDiff,
    pub refs: SetDiff,
}

impl DiffReport {
    pub fn identical(&self) -> (r: bool)
        ensures
            r == (self.ledger_events.is_identical() && self.journal_events.is_identical()
                && self.refs.is_identical()),
    {
        self.ledger_events.identical() && self.journal_events.identical() && self.refs.identical()
    }
}

/// Each of some texts, marked.
pub open spec fn marked(mark: Seq<char>, texts: Seq<String>) -> Seq<Seq<char>> {
    Seq::new(texts.len(), |i: int| mark + texts[i]@)
}

/// The lines of a difference under a label; none where there is none.
pub open spec fn diff_lines(label: Seq<char>, diff: SetDiff) -> Seq<Seq<char>> {
    if diff.is_identical() {
        Seq::empty()
    } else {
        seq![label + ":"@] + marked("  + "@, diff.only_in_sandbox@) + marked(
            "  - "@,
            diff.only_in_source@,
        )
    }
}

fn write_marked(mark: &str, texts: &Vec<String>) -> (r: Vec<String>)
    ensures
        views(r@) == marked(mark@, texts@),
{
    let mut out: Vec<String> = Vec::new();
    for i in 0..texts.len()
        invariant
            out@.len() == i,
            forall|j: int| 0 <= j < i ==> (#[trigger] out@[j])@ == mark@ + texts@[j]@,
    {
        let mut line = mark.to_string();
        line.append(texts[i].as_str());
        out.push(line);
    }
    assert(views(out@) =~= marked(mark@, texts@));
    out
}

/// The lines of a difference under a label.
pub fn render(label: &str, diff: &SetDiff) -> (r: Vec<String>)
    ensures
        views(r@) == diff_lines(label@, *diff),
{
    let mut out: Vec<String> = Vec::new();
    if diff.identical() {
        assert(views(out@) =~= diff_lines(label@, *diff));
        return out;
    }
    let mut head = label.to_string();
    head.append(":");
    let ghost first = head@;
    out.push(head);
    assert(views(out@) =~= seq![first]);
    let ghost a = out@;
    let mut added = write_marked("  + ", &diff.only_in_sandbox);
    let mut lost = write_marked("  - ", &diff.only_in_source);
    let ghost b = added@;
    let ghost c = lost@;
    out.append(&mut added);
    out.append(&mut lost);
    assert(views(out@) =~= views(a) + views(b) + views(c));
    out
}

/// The lines of a text that say something, in the order in which they stand.
pub open spec fn spoken_lines(all: Seq<Seq<char>>, n: int) -> Seq<Seq<char>>
    decreases n,
{
    if n <= 0 {
        Seq::empty()
    } else if blank(all[n - 1]) {
        spoken_lines(all, n - 1)
    } else {
        spoken_lines(all, n - 1).push(all[n - 1])
    }
}

/// The lines of a text that say something: a journal records an event on each.
pub fn event_lines(text: &str) -> (r: Vec<String>)
    ensures
        views(r@) == spoken_lines(lines_of(text@), lines_of(text@).len() as int),
{
    let all = lines(text);
    let mut out: Vec<String> = Vec::new();
    assert(views(out@) =~= spoken_lines(lines_of(text@), 0));
    for i in 0..all.len()
        invariant
            views(all@) == lines_of(text@),
            views(out@) == spoken_lines(lines_of(text@), i as int),
    {
        let ghost before = views(out@);
        assert(views(all@)[i as int] == all@[i as int]@);
        if !is_blank(all[i].as_str()) {
            out.push(all[i].clone());
            assert(views(out@) =~= before.push(all@[i as int]@));
        }
    }
    assert(views(all@).len() == all@.len());
    out
}

/// A file in a directory of events.
pub struct ScopedFile {
    /// The change that the directory is of, or the repository.
    pub scope: String,
    pub name: String,
}

/// The events that the first `n` files are: the scope and the name of each are its identity.
pub open spec fn addresses(files: Seq<ScopedFile>, n: int) -> Seq<Seq<char>>
    decreases n,
{
    if n <= 0 {
        Seq::empty()
    } else if ends(files[n - 1].name@, ".json"@) {
        addresses(files, n - 1).push(files[n - 1].scope@ + "/"@ + files[n - 1].name@)
    } else {
        addresses(files, n - 1)
    }
}

/// The events that files are.
pub fn ledger_events(files: &Vec<ScopedFile>) -> (r: Vec<String>)
    ensures
        views(r@) == addresses(files@, files@.len() as int),
{
    let mut out: Vec<String> = Vec::new();
    assert(views(out@) =~= addresses(files@, 0));
    for i in 0..files.len()
        invariant
            views(out@) == addresses(files@, i as int),
    {
        let ghost before = views(out@);
        if ends_with(files[i].name.as_str(), ".json") {
            let mut address = files[i].scope.clone();
            address.append("/");
            address.append(files[i].name.as_str());
            let ghost added = address@;
            out.push(address);
            assert(views(out@) =~= before.push(added));
        }
    }
    out
}

/// Why no sandbox is made under a prefix.
#[derive(Clone, Copy, Debug, PartialEq, Eq, Structural)]
pub enum PrefixRefusal {
    HoldsSandbox,
    RepositoryExists,
    NotEmpty,
}

/// Whether `r` says if a sandbox may be made under a prefix.
pub open spec fn answers_available(
    holds_marker: bool,
    repository_exists: bool,
    holds_anything: bool,
    r: Result<(), PrefixRefusal>,
) -> bool {
    r == (if holds_marker {
            Err::<(), PrefixRefusal>(PrefixRefusal::HoldsSandbox)
        } else if repository_exists {
            Err(PrefixRefusal::RepositoryExists)
        } else if holds_anything {
            Err(PrefixRefusal::NotEmpty)
        } else {
            Ok(())
        })
}

/// Whether a sandbox may be made under a prefix: there is nothing in it.
pub fn refuse_unless_available(
    holds_marker: bool,
    repository_exists: bool,
    holds_anything: bool,
) -> (r: Result<(), PrefixRefusal>)
    ensures
        answers_available(holds_marker, repository_exists, holds_anything, r),
{
    if holds_marker {
        Err(PrefixRefusal::HoldsSandbox)
    } else if repository_exists {
        Err(PrefixRefusal::RepositoryExists)
    } else if holds_anything {
        Err(PrefixRefusal::NotEmpty)
    } else {
        Ok(())
    }
}

/// Whether a marker is of a format that is understood.
pub fn readable_marker(schema: &str) -> (r: bool)
    ensures
        r == (schema@ == MARKER_SCHEMA@),
{
    same(schema, MARKER_SCHEMA)
}

/// Why a sandbox is not discarded.
#[derive(Clone, Copy, Debug, PartialEq, Eq, Structural)]
pub enum DiscardRefusal {
    NoMarker,
    UnreadableMarker,
    /// The caller stands in it.
    Inside,
}

/// Whether `r` says if a directory may be removed.
pub open spec fn answers_discard(
    schema: &Option<String>,
    inside: bool,
    r: Result<(), DiscardRefusal>,
) -> bool {
    match r {
            Ok(()) => schema is Some && schema->0@ == MARKER_SCHEMA@ && !inside,
            Err(DiscardRefusal::NoMarker) => schema is None,
            Err(DiscardRefusal::UnreadableMarker) => schema is Some && schema->0@
                != MARKER_SCHEMA@,
            Err(DiscardRefusal::Inside) => schema is Some && schema->0@ == MARKER_SCHEMA@
                && inside,
        }
}

/// Whether a directory may be removed: only one that was made as a sandbox, and from outside.
pub fn discard(schema: &Option<String>, inside: bool) -> (r: Result<(), DiscardRefusal>)
    ensures
        answers_discard(schema, inside, r),
{
    match schema {
        None => Err(DiscardRefusal::NoMarker),
        Some(schema) => if !readable_marker(schema.as_str()) {
            Err(DiscardRefusal::UnreadableMarker)
        } else if inside {
            Err(DiscardRefusal::Inside)
        } else {
            Ok(())
        },
    }
}

/// The configuration of a sandbox: what the source chose, and no path, since every path is
/// derived from where the copy is. `git_identity` is a plain word.
pub fn config_text(auto_log: bool, detect: bool, git_identity: &str) -> (r: String)
    ensures
        r@ == "[journal]\nauto_log = "@ + truth(auto_log) + "\n\n[identity]\ndetect = "@ + truth(
            detect,
        ) + "\n\n[provenance]\ngit_identity = \""@ + git_identity@ + "\"\n"@,
{
    let mut out = "[journal]\nauto_log = ".to_string();
    out.append(if auto_log { "true" } else { "false" });
    out.append("\n\n[identity]\ndetect = ");
    out.append(if detect { "true" } else { "false" });
    out.append("\n\n[provenance]\ngit_identity = \"");
    out.append(git_identity);
    out.append("\"\n");
    out
}

/// A truth value, in a word.
pub open spec fn truth(value: bool) -> Seq<char> {
    if value {
        "true"@
    } else {
        "false"@
    }
}

/// What one side holds and the other does not is told, and nothing else, in order.
pub proof fn differences_are_exact(these: Seq<String>, others: Seq<String>)
    ensures
        ascending(held_only(these, others)),
        forall|x: Seq<char>| #[trigger]
            held_only(these, others).contains(x) <==> among(these, x) && !among(others, x),
{
    let wanted = |x: Seq<char>| among(these, x) && !among(others, x);
    let texts = views(these).filter(|x: Seq<char>| !among(others, x));
    assert forall|x: Seq<char>| #[trigger] wanted(x) <==> texts.contains(x) by {
        lemma_views_contain(these, x);
        if wanted(x) {
            let i = choose|i: int| 0 <= i < views(these).len() && views(these)[i] == x;
            views(these).lemma_filter_contains(|x: Seq<char>| !among(others, x), i);
        }
        if texts.contains(x) {
            views(these).lemma_filter_contains_rev(|x: Seq<char>| !among(others, x), x);
            let j = choose|j: int| 0 <= j < texts.len() && texts[j] == x;
            views(these).lemma_filter_pred(|x: Seq<char>| !among(others, x), j);
        }
    }
    lists_hold_what_is_wanted(texts, wanted);
}

/// A sandbox is made only where there is nothing, and one that is there is never made over.
pub proof fn sandboxes_are_made_on_empty_ground(
    holds_marker: bool,
    repository_exists: bool,
    holds_anything: bool,
    r: Result<(), PrefixRefusal>,
)
    requires
        answers_available(holds_marker, repository_exists, holds_anything, r),
    ensures
        r is Ok <==> !holds_marker && !repository_exists && !holds_anything,
        r == Err::<(), PrefixRefusal>(PrefixRefusal::HoldsSandbox) <==> holds_marker,
{
}

/// Only what was made as a sandbox is discarded, and never by a caller who stands in it.
pub proof fn only_sandboxes_are_discarded(
    schema: &Option<String>,
    inside: bool,
    r: Result<(), DiscardRefusal>,
)
    requires
        answers_discard(schema, inside, r),
    ensures
        r is Ok <==> !inside && (*schema matches Some(text) && text@ == "arc-sandbox/1"@),
        r == Err::<(), DiscardRefusal>(DiscardRefusal::NoMarker) <==> schema is None,
{
}

/// A journal has as many events as it has lines that say something.
pub proof fn every_spoken_line_is_an_event(all: Seq<Seq<char>>, n: int)
    requires
        0 <= n <= all.len(),
    ensures
        spoken_lines(all, n).len() == count(all.take(n), |line: Seq<char>| !blank(line)),
    decreases n,
{
    if n > 0 {
        every_spoken_line_is_an_event(all, n - 1);
        assert(all.take(n).drop_last() =~= all.take(n - 1));
        assert(all.take(n).last() == all[n - 1]);
    }
}

/// Every JSON file is an event under its scope and name.
pub proof fn json_files_are_events(files: Seq<ScopedFile>, n: int, i: int)
    requires
        0 <= i < n <= files.len(),
        ends(files[i].name@, ".json"@),
    ensures
        addresses(files, n).contains(files[i].scope@ + "/"@ + files[i].name@),
    decreases n,
{
    let text = files[i].scope@ + "/"@ + files[i].name@;
    let all = addresses(files, n);
    if i == n - 1 {
        assert(all[all.len() - 1] == text);
    } else {
        json_files_are_events(files, n - 1, i);
        let prior = addresses(files, n - 1);
        let m = choose|m: int| 0 <= m < prior.len() && prior[m] == text;
        assert(all[m] == text);
    }
}

/// There are as many events as JSON files.
pub proof fn only_json_files_are_events(files: Seq<ScopedFile>, n: int)
    requires
        0 <= n <= files.len(),
    ensures
        addresses(files, n).len() == count(
            files.take(n),
            |file: ScopedFile| ends(file.name@, ".json"@),
        ),
    decreases n,
{
    if n > 0 {
        only_json_files_are_events(files, n - 1);
        assert(files.take(n).drop_last() =~= files.take(n - 1));
        assert(files.take(n).last() == files[n - 1]);
    }
}

} // verus!
