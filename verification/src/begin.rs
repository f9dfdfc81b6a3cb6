//! Opening a change and telling what it is about: its branch, its target and its briefs.
use crate::event::Payload;
use crate::input::{all_tags, first_invalid, normalize_tags};
use crate::metadata::{normal_tags, sort_names, sorted_names};
use crate::model::AcceptanceProbe;
use crate::state::{Brief, ChangeState};
use crate::text::{
    among, blank, chars_of, is_blank, opt_view, same, strip_end, stripped_end, text_of, views,
};
use crate::verify::brief_at;
use vstd::prelude::*;

verus! {

/// Whether the change at `k` is the first open one that uses a slug.
pub open spec fn first_using(changes: Seq<ChangeState>, slug: Seq<char>, k: int) -> bool {
    &&& 0 <= k < changes.len()
    &&& uses(changes[k], slug)
    &&& forall|j: int| 0 <= j < k ==> !uses(#[trigger] changes[j], slug)
}

/// Whether an open change uses a slug.
pub open spec fn uses(state: ChangeState, slug: Seq<char>) -> bool {
    state.closure is None && state.slug@ == slug
}

/// The first open change that uses a slug.
pub fn slug_user(changes: &Vec<ChangeState>, slug: &str) -> (r: Option<usize>)
    ensures
        match r {
            Some(k) => first_using(changes@, slug@, k as int),
            None => forall|j: int| 0 <= j < changes@.len() ==> !uses(#[trigger] changes@[j], slug@),
        },
{
    for k in 0..changes.len()
        invariant
            forall|j: int| 0 <= j < k ==> !uses(#[trigger] changes@[j], slug@),
    {
        if !changes[k].is_closed() && same(changes[k].slug.as_str(), slug) {
            return Some(k);
        }
    }
    None
}

/// Why a change has no target.
#[derive(Clone, Copy, Debug, PartialEq, Eq, Structural)]
pub enum TargetRefusal {
    Undetermined,
    /// The default target is the branch of another open change: stacking is said explicitly.
    BranchOfOpenChange,
}

/// Whether a branch is that of an open change.
pub open spec fn open_branch(changes: Seq<ChangeState>, branch: Seq<char>) -> bool {
    exists|k: int|
        0 <= k < changes.len() && changes[k].closure is None && (#[trigger] changes[k]).branch@
            == branch
}

fn is_open_branch(changes: &Vec<ChangeState>, branch: &str) -> (r: bool)
    ensures
        r == open_branch(changes@, branch@),
{
    for k in 0..changes.len()
        invariant
            forall|j: int|
                0 <= j < k ==> !(changes@[j].closure is None && (#[trigger] changes@[j]).branch@
                    == branch@),
    {
        if !changes[k].is_closed() && same(changes[k].branch.as_str(), branch) {
            assert(changes@[k as int].branch@ == branch@);
            return true;
        }
    }
    false
}

/// The default target: the branch of the primary worktree, or else the one checked out here.
pub open spec fn default_target(
    primary: Option<Seq<char>>,
    current: Option<Seq<char>>,
) -> Option<Seq<char>> {
    match primary {
        Some(branch) => Some(branch),
        None => current,
    }
}

/// Whether `r` is the branch that a change is meant to merge into, or why it has none.
pub open spec fn chooses_target(
    changes: &Vec<ChangeState>,
    named: &Option<String>,
    primary: &Option<String>,
    current: &Option<String>,
    r: Result<String, TargetRefusal>,
) -> bool {
    ({
            let default = default_target(opt_view(*primary), opt_view(*current));
            match r {
                Ok(target) => match *named {
                    Some(branch) => target@ == branch@,
                    None => default == Some(target@) && !open_branch(changes@, target@),
                },
                Err(TargetRefusal::Undetermined) => named is None && default is None,
                Err(TargetRefusal::BranchOfOpenChange) => named is None && default is Some
                    && open_branch(changes@, default->0),
            }
        })
}

/// The branch that a change is meant to merge into: the one that is named, or the default, which
/// may not be the branch of another open change.
pub fn choose_target(
    changes: &Vec<ChangeState>,
    named: &Option<String>,
    primary: &Option<String>,
    current: &Option<String>,
) -> (r: Result<String, TargetRefusal>)
    ensures
        chooses_target(changes, named, primary, current, r),
{
    if let Some(branch) = named {
        return Ok(branch.clone());
    }
    let target = match primary {
        Some(branch) => branch.clone(),
        None => match current {
            Some(branch) => branch.clone(),
            None => return Err(TargetRefusal::Undetermined),
        },
    };
    if is_open_branch(changes, target.as_str()) {
        return Err(TargetRefusal::BranchOfOpenChange);
    }
    Ok(target)
}

/// Why a change gets no branch.
#[derive(Clone, Copy, Debug, PartialEq, Eq, Structural)]
pub enum BranchRefusal {
    NoSuchBranch,
    AlreadyExists,
}

/// The branch that a change begins on: one that it adopts, the one that is named, or one after
/// its slug.
pub open spec fn branch_of(
    adopt: Option<Seq<char>>,
    named: Option<Seq<char>>,
    slug: Seq<char>,
) -> Seq<char> {
    match adopt {
        Some(branch) => branch,
        None => match named {
            Some(branch) => branch,
            None => "arc/"@ + slug,
        },
    }
}

/// The branch that a change begins on.
pub fn branch_name(adopt: &Option<String>, named: &Option<String>, slug: &str) -> (r: String)
    ensures
        r@ == branch_of(opt_view(*adopt), opt_view(*named), slug@),
{
    match adopt {
        Some(branch) => branch.clone(),
        None => match named {
            Some(branch) => branch.clone(),
            None => {
                let mut out = "arc/".to_string();
                out.append(slug);
                out
            },
        },
    }
}

/// Whether `r` says if a change may begin on a branch.
pub open spec fn admits_branch(
    adopted: bool,
    present: bool,
    r: Result<(), BranchRefusal>,
) -> bool {
    r == (if adopted && !present {
            Err(BranchRefusal::NoSuchBranch)
        } else if !adopted && present {
            Err(BranchRefusal::AlreadyExists)
        } else {
            Ok::<(), BranchRefusal>(())
        })
}

/// Whether a change may begin on a branch: an adopted one has to exist, and a new one may not.
pub fn check_branch(adopted: bool, present: bool) -> (r: Result<(), BranchRefusal>)
    ensures
        admits_branch(adopted, present, r),
{
    if adopted && !present {
        return Err(BranchRefusal::NoSuchBranch);
    }
    if !adopted && present {
        return Err(BranchRefusal::AlreadyExists);
    }
    Ok(())
}

/// The title of a change: the one given, or its slug with spaces for the hyphens.
pub open spec fn title_of(title: Option<Seq<char>>, slug: Seq<char>) -> Seq<char> {
    match title {
        Some(text) => text,
        None => Seq::new(
            slug.len(),
            |i: int|
                if slug[i] == '-' {
                    ' '
                } else {
                    slug[i]
                },
        ),
    }
}

/// The title of a change.
pub fn change_title(title: &Option<String>, slug: &str) -> (r: String)
    ensures
        r@ == title_of(opt_view(*title), slug@),
{
    if let Some(text) = title {
        return text.clone();
    }
    let chars = chars_of(slug);
    let mut out: Vec<char> = Vec::new();
    for i in 0..chars.len()
        invariant
            chars@ == slug@,
            out@ == title_of(None, slug@).take(i as int),
    {
        if chars[i] == '-' {
            out.push(' ');
        } else {
            out.push(chars[i]);
        }
        assert(out@ =~= title_of(None, slug@).take(i + 1));
    }
    assert(title_of(None, slug@).take(slug@.len() as int) =~= title_of(None, slug@));
    text_of(&out)
}

/// What was asked of a change that is to be opened. The prerequisites are resolved to identities,
/// and the base to a commit.
pub struct BeginArgs {
    pub slug: String,
    pub title: Option<String>,
    pub profile: String,
    pub target: Option<String>,
    pub base: Option<String>,
    pub branch: Option<String>,
    pub worktree: Option<String>,
    pub no_worktree: bool,
    pub adopt: Option<String>,
    pub blocked_by: Vec<String>,
    pub tags: Vec<String>,
    pub from_journal: Option<String>,
    pub dangerous: bool,
}

/// Why a change is not opened.
#[derive(Debug)]
pub enum BeginRefusal {
    InvalidTag { tag: String },
    /// The open change at this position uses the slug.
    SlugInUse { change: usize },
    Target { refusal: TargetRefusal },
}

/// What a change is opened with.
pub struct Opening {
    pub title: String,
    pub target_branch: String,
    pub branch: String,
    pub blocked_by: Vec<String>,
    pub tags: Vec<String>,
}

/// Whether no open change uses a slug.
pub open spec fn slug_free(changes: Seq<ChangeState>, slug: Seq<char>) -> bool {
    forall|j: int| 0 <= j < changes.len() ==> !uses(#[trigger] changes[j], slug)
}

/// Whether a change is opened as it was asked.
pub open spec fn opens(opening: Opening, args: BeginArgs) -> bool {
    &&& opening.title@ == title_of(opt_view(args.title), args.slug@)
    &&& opening.branch@ == branch_of(opt_view(args.adopt), opt_view(args.branch), args.slug@)
    &&& views(opening.blocked_by@) == sorted_names(args.blocked_by@)
    &&& views(opening.tags@) == normal_tags(args.tags@)
}

/// Whether `r` is what a change is opened with, or why it is not opened.
pub open spec fn begins_with(
    changes: &Vec<ChangeState>,
    args: &BeginArgs,
    primary: &Option<String>,
    current: &Option<String>,
    r: Result<Opening, BeginRefusal>,
) -> bool {
    ({
            let default = default_target(opt_view(*primary), opt_view(*current));
            let sound = all_tags(args.tags@) && slug_free(changes@, args.slug@);
            match r {
                Ok(opening) => {
                    &&& sound
                    &&& match args.target {
                        Some(branch) => opening.target_branch@ == branch@,
                        None => default == Some(opening.target_branch@) && !open_branch(
                            changes@,
                            opening.target_branch@,
                        ),
                    }
                    &&& opens(opening, *args)
                },
                Err(BeginRefusal::InvalidTag { tag }) => first_invalid(args.tags@, tag@),
                Err(BeginRefusal::SlugInUse { change }) => all_tags(args.tags@) && first_using(
                    changes@,
                    args.slug@,
                    change as int,
                ),
                Err(BeginRefusal::Target { refusal }) => sound && args.target is None && match refusal {
                    TargetRefusal::Undetermined => default is None,
                    TargetRefusal::BranchOfOpenChange => default is Some && open_branch(
                        changes@,
                        default->0,
                    ),
                },
            }
        })
}

/// What a change is opened with, or why it is not opened: its tags are tags, no open change uses
/// its slug, and it has a target.
pub fn begin(
    changes: &Vec<ChangeState>,
    args: &BeginArgs,
    primary: &Option<String>,
    current: &Option<String>,
) -> (r: Result<Opening, BeginRefusal>)
    ensures
        begins_with(changes, args, primary, current, r),
{
    let tags = match normalize_tags(&args.tags) {
        Ok(tags) => tags,
        Err(invalid) => {
            return Err(BeginRefusal::InvalidTag { tag: invalid.tag });
        },
    };
    if let Some(change) = slug_user(changes, args.slug.as_str()) {
        return Err(BeginRefusal::SlugInUse { change });
    }
    let target_branch = match choose_target(changes, &args.target, primary, current) {
        Ok(target) => target,
        Err(refusal) => {
            return Err(BeginRefusal::Target { refusal });
        },
    };
    Ok(
        Opening {
            title: change_title(&args.title, args.slug.as_str()),
            target_branch,
            branch: branch_name(&args.adopt, &args.branch, args.slug.as_str()),
            blocked_by: sort_names(&args.blocked_by),
            tags,
        },
    )
}

/// The commit that a change begins at: the one that is named, or else where an adopted branch left
/// the target, or the head of the target.
pub open spec fn base_of(
    named: Option<Seq<char>>,
    adopted: bool,
    target_head: Seq<char>,
    merge_base: Seq<char>,
) -> Seq<char> {
    match named {
        Some(base) => base,
        None => if adopted {
            merge_base
        } else {
            target_head
        },
    }
}

/// The commit that a change begins at.
pub fn opening_base(
    named: &Option<String>,
    adopted: bool,
    target_head: &str,
    merge_base: &str,
) -> (r: String)
    ensures
        r@ == base_of(opt_view(*named), adopted, target_head@, merge_base@),
{
    match named {
        Some(base) => base.clone(),
        None => if adopted {
            merge_base.to_string()
        } else {
            target_head.to_string()
        },
    }
}

/// A name inside a directory.
pub open spec fn path_in(dir: Seq<char>, name: Seq<char>) -> Seq<char> {
    if dir.len() == 0 {
        name
    } else if dir.last() == '/' {
        dir + name
    } else {
        dir + "/"@ + name
    }
}

fn join_path(dir: &str, name: &str) -> (r: String)
    ensures
        r@ == path_in(dir@, name@),
{
    let mut out = dir.to_string();
    let chars = chars_of(dir);
    if chars.len() > 0 && chars[chars.len() - 1] != '/' {
        out.append("/");
    }
    out.append(name);
    assert(chars@.len() == 0 ==> out@ =~= name@);
    out
}

/// The name of the directory of a change's worktree.
pub open spec fn worktree_dir(repository: Seq<char>, slug: Seq<char>) -> Seq<char> {
    repository + "-"@ + slug
}

/// The worktree that a change gets: that of the branch which it adopts, none where none is wanted,
/// the one at the path that is named, or one of its own among the worktrees.
pub open spec fn worktree_of(
    adopted: bool,
    adopted_worktree: Option<Seq<char>>,
    no_worktree: bool,
    named: Option<Seq<char>>,
    worktrees_dir: Seq<char>,
    repository: Seq<char>,
    slug: Seq<char>,
) -> Option<Seq<char>> {
    if adopted {
        adopted_worktree
    } else if no_worktree {
        None
    } else {
        match named {
            Some(path) => Some(path),
            None => Some(path_in(worktrees_dir, worktree_dir(repository, slug))),
        }
    }
}

/// The worktree that a change gets.
pub fn opening_worktree(
    adopted: bool,
    adopted_worktree: &Option<String>,
    no_worktree: bool,
    named: &Option<String>,
    worktrees_dir: &str,
    repository: &str,
    slug: &str,
) -> (r: Option<String>)
    ensures
        opt_view(r) == worktree_of(
            adopted,
            opt_view(*adopted_worktree),
            no_worktree,
            opt_view(*named),
            worktrees_dir@,
            repository@,
            slug@,
        ),
{
    if adopted {
        adopted_worktree.clone()
    } else if no_worktree {
        None
    } else {
        match named {
            Some(path) => Some(path.clone()),
            None => {
                let name = worktree_name(repository, slug);
                Some(join_path(worktrees_dir, name.as_str()))
            },
        }
    }
}

/// Where a change is opened: what Git, the file system and the configuration say.
pub struct OpeningPlace {
    /// Whether the branch that the change begins on is there already.
    pub branch_present: bool,
    /// The head of the target.
    pub target_head: String,
    /// Where an adopted branch left the target.
    pub merge_base: String,
    /// The worktree that has an adopted branch checked out.
    pub adopted_worktree: Option<String>,
    pub worktrees_dir: String,
    pub repository: String,
    /// Whether there is something already at the path of the worktree that the change gets.
    pub path_present: bool,
}

/// Why a change that may be opened is not opened where it was asked.
#[derive(Clone, Copy, Debug, PartialEq, Eq, Structural)]
pub enum OpeningRefusal {
    Branch { refusal: BranchRefusal },
    /// There is something at the path of the worktree.
    WorktreeExists,
}

/// The base of a change that is opened.
pub open spec fn opened_base(args: BeginArgs, place: OpeningPlace) -> Seq<char> {
    base_of(opt_view(args.base), args.adopt is Some, place.target_head@, place.merge_base@)
}

/// The worktree of a change that is opened.
pub open spec fn opened_worktree(args: BeginArgs, place: OpeningPlace) -> Option<Seq<char>> {
    worktree_of(
        args.adopt is Some,
        opt_view(place.adopted_worktree),
        args.no_worktree,
        opt_view(args.worktree),
        place.worktrees_dir@,
        place.repository@,
        args.slug@,
    )
}

/// Whether the branch that a change begins on is as it has to be: an adopted one is there, and a
/// new one is not.
pub open spec fn branch_fits(args: BeginArgs, place: OpeningPlace) -> bool {
    place.branch_present == (args.adopt is Some)
}

/// Whether a worktree would be made where there is something already.
pub open spec fn worktree_taken(args: BeginArgs, place: OpeningPlace) -> bool {
    args.adopt is None && opened_worktree(args, place) is Some && place.path_present
}

/// Whether `r` records that a change is opened, or says why it is not opened there.
pub open spec fn records_opening(
    args: &BeginArgs,
    opening: Opening,
    place: &OpeningPlace,
    r: Result< Payload, OpeningRefusal, >,
) -> bool {
    match r {
            Ok(
                Payload::ChangeOpened {
                    slug,
                    title,
                    profile,
                    target_branch,
                    branch,
                    base,
                    worktree,
                    blocked_by,
                    tags,
                    journal_ref,
                    dangerous,
                },
            ) => {
                &&& branch_fits(*args, *place)
                &&& !worktree_taken(*args, *place)
                &&& slug@ == args.slug@
                &&& title == opening.title
                &&& profile@ == args.profile@
                &&& target_branch == opening.target_branch
                &&& branch == opening.branch
                &&& base@ == opened_base(*args, *place)
                &&& opt_view(worktree) == opened_worktree(*args, *place)
                &&& blocked_by == opening.blocked_by
                &&& tags == opening.tags
                &&& opt_view(journal_ref) == opt_view(args.from_journal)
                &&& dangerous == args.dangerous
            },
            Ok(_) => false,
            Err(OpeningRefusal::Branch { refusal }) => !branch_fits(*args, *place) && refusal == (
            if args.adopt is Some {
                BranchRefusal::NoSuchBranch
            } else {
                BranchRefusal::AlreadyExists
            }),
            Err(OpeningRefusal::WorktreeExists) => branch_fits(*args, *place) && worktree_taken(
                *args,
                *place,
            ),
        }
}

/// What records that a change is opened, or why it is not opened there: the branch is looked at
/// first, then the path of the worktree.
pub fn opening_payload(args: &BeginArgs, opening: Opening, place: &OpeningPlace) -> (r: Result<
    Payload,
    OpeningRefusal,
>)
    ensures
        records_opening(args, opening, place, r),
{
    let adopted = args.adopt.is_some();
    if let Err(refusal) = check_branch(adopted, place.branch_present) {
        return Err(OpeningRefusal::Branch { refusal });
    }
    let base = opening_base(
        &args.base,
        adopted,
        place.target_head.as_str(),
        place.merge_base.as_str(),
    );
    let worktree = opening_worktree(
        adopted,
        &place.adopted_worktree,
        args.no_worktree,
        &args.worktree,
        place.worktrees_dir.as_str(),
        place.repository.as_str(),
        args.slug.as_str(),
    );
    if !adopted && worktree.is_some() && place.path_present {
        return Err(OpeningRefusal::WorktreeExists);
    }
    Ok(
        Payload::ChangeOpened {
            slug: args.slug.clone(),
            title: opening.title,
            profile: args.profile.clone(),
            target_branch: opening.target_branch,
            branch: opening.branch,
            base,
            worktree,
            blocked_by: opening.blocked_by,
            tags: opening.tags,
            journal_ref: args.from_journal.clone(),
            dangerous: args.dangerous,
        },
    )
}

/// A change without a named base or an adopted branch begins at the head of its target, in a
/// worktree of its own among the worktrees.
pub proof fn plain_changes_begin_at_the_target(args: BeginArgs, place: OpeningPlace)
    requires
        args.base is None,
        args.adopt is None,
        args.worktree is None,
        !args.no_worktree,
    ensures
        opened_base(args, place) == place.target_head@,
        opened_worktree(args, place) == Some(
            path_in(place.worktrees_dir@, place.repository@ + "-"@ + args.slug@),
        ),
{
}

/// Whether what a change is begun from becomes its first brief and counts as consumed: a plan does
/// neither, since it goes on.
pub fn seeds_brief(kind: &str) -> (r: bool)
    ensures
        r == (kind@ != "plan"@),
{
    !same(kind, "plan")
}

/// The brief that a change begun from a journal artifact starts with.
pub open spec fn seeded_body(filename: Seq<char>, body: Seq<char>) -> Seq<char> {
    "> Seeded from journal artifact `"@ + filename + "` by `begin --from-journal`.\n\n"@
        + stripped_end(body, '\n')
}

/// Whether a payload records the brief that a change begun from a journal artifact starts with.
pub open spec fn seeds(
    payload: Payload,
    filename: Seq<char>,
    body: Seq<char>,
    base_revision: Seq<char>,
) -> bool {
    match payload {
        Payload::BriefRecorded {
            title,
            body: text,
            base_revision: base,
            acceptance_probes,
            plan_ref,
            plan_slice,
        } => {
            &&& opt_view(title) == Some("Seeded from "@ + filename)
            &&& text@ == seeded_body(filename, body)
            &&& opt_view(base) == Some(base_revision)
            &&& acceptance_probes@.len() == 0
            &&& plan_ref is None
            &&& plan_slice is None
        },
        _ => false,
    }
}

/// Whether `r` is the brief that a change starts with, where it starts with one.
pub open spec fn starts_with_brief(
    args: &BeginArgs,
    kind: &str,
    body: &str,
    base_revision: &str,
    r: Option< Payload, >,
) -> bool {
    match r {
            Some(payload) => args.from_journal is Some && kind@ != "plan"@ && seeds(
                payload,
                args.from_journal->0@,
                body@,
                base_revision@,
            ),
            None => args.from_journal is None || kind@ == "plan"@,
        }
}

/// The brief that a change starts with, where it is begun from a journal artifact that seeds one.
pub fn first_brief(args: &BeginArgs, kind: &str, body: &str, base_revision: &str) -> (r: Option<
    Payload,
>)
    ensures
        starts_with_brief(args, kind, body, base_revision, r),
{
    match &args.from_journal {
        Some(filename) => if seeds_brief(kind) {
            Some(seeded_brief(filename.as_str(), body, base_revision))
        } else {
            None
        },
        None => None,
    }
}

/// What records the brief that a change begun from a journal artifact starts with.
pub fn seeded_brief(filename: &str, body: &str, base_revision: &str) -> (r: Payload)
    ensures
        seeds(r, filename@, body@, base_revision@),
{
    let mut title = "Seeded from ".to_string();
    title.append(filename);
    let mut text = "> Seeded from journal artifact `".to_string();
    text.append(filename);
    text.append("` by `begin --from-journal`.\n\n");
    text.append(strip_end(body, '\n').as_str());
    Payload::BriefRecorded {
        title: Some(title),
        body: text,
        base_revision: Some(base_revision.to_string()),
        acceptance_probes: Vec::new(),
        plan_ref: None,
        plan_slice: None,
    }
}

/// What was asked of a brief.
pub struct BriefArgs {
    pub body_file: Option<String>,
    pub title: Option<String>,
    pub base: Option<String>,
    pub version: Option<usize>,
    pub scaffold: Option<String>,
    pub plan_ref: Option<String>,
    pub plan_slice: Option<String>,
    pub probes_json: Option<String>,
}

/// Why nothing is done with a brief.
#[derive(Clone, Copy, Debug, PartialEq, Eq, Structural)]
pub enum BriefRefusal {
    PlanNeedsBoth,
    TwoReadStdin,
    OnlyLeadRecords,
    VersionWhenRecording,
    TitleNeedsBody,
    BaseNeedsBody,
    PlanNeedsBody,
}

/// What is done with a brief.
#[derive(Clone, Copy, Debug, PartialEq, Eq, Structural)]
pub enum BriefRequest {
    Record,
    Show,
}

/// What is done with a brief, or why nothing is.
pub open spec fn brief_request(args: BriefArgs, lead: bool) -> Result<BriefRequest, BriefRefusal> {
    if args.plan_ref is Some != args.plan_slice is Some {
        Err(BriefRefusal::PlanNeedsBoth)
    } else if opt_view(args.body_file) == Some("-"@) && opt_view(args.probes_json) == Some("-"@) {
        Err(BriefRefusal::TwoReadStdin)
    } else if args.body_file is Some || args.scaffold is Some || args.probes_json is Some {
        if !lead {
            Err(BriefRefusal::OnlyLeadRecords)
        } else if args.version is Some {
            Err(BriefRefusal::VersionWhenRecording)
        } else {
            Ok(BriefRequest::Record)
        }
    } else if args.title is Some {
        Err(BriefRefusal::TitleNeedsBody)
    } else if args.base is Some {
        Err(BriefRefusal::BaseNeedsBody)
    } else if args.plan_ref is Some {
        Err(BriefRefusal::PlanNeedsBody)
    } else {
        Ok(BriefRequest::Show)
    }
}

fn is_stdin(path: &Option<String>) -> (r: bool)
    ensures
        r == (opt_view(*path) == Some("-"@)),
{
    match path {
        Some(path) => same(path.as_str(), "-"),
        None => false,
    }
}

/// What is done with a brief, or why nothing is.
pub fn brief(args: &BriefArgs, lead: bool) -> (r: Result<BriefRequest, BriefRefusal>)
    ensures
        r == brief_request(*args, lead),
{
    if args.plan_ref.is_some() != args.plan_slice.is_some() {
        return Err(BriefRefusal::PlanNeedsBoth);
    }
    if is_stdin(&args.body_file) && is_stdin(&args.probes_json) {
        return Err(BriefRefusal::TwoReadStdin);
    }
    if args.body_file.is_some() || args.scaffold.is_some() || args.probes_json.is_some() {
        if !lead {
            return Err(BriefRefusal::OnlyLeadRecords);
        }
        if args.version.is_some() {
            return Err(BriefRefusal::VersionWhenRecording);
        }
        return Ok(BriefRequest::Record);
    }
    if args.title.is_some() {
        return Err(BriefRefusal::TitleNeedsBody);
    }
    if args.base.is_some() {
        return Err(BriefRefusal::BaseNeedsBody);
    }
    if args.plan_ref.is_some() {
        return Err(BriefRefusal::PlanNeedsBody);
    }
    Ok(BriefRequest::Show)
}

/// The position of the brief of this version, or of the latest one.
pub fn select_brief(state: &ChangeState, version: Option<usize>) -> (r: Option<usize>)
    ensures
        match r {
            Some(k) => brief_at(*state, version) == Some(k as int),
            None => brief_at(*state, version) is None,
        },
{
    match version {
        Some(v) => if v == 0 || v > state.briefs.len() {
            None
        } else {
            Some(v - 1)
        },
        None => if state.briefs.len() == 0 {
            None
        } else {
            Some(state.briefs.len() - 1)
        },
    }
}

/// The lines on some acceptance probes.
pub open spec fn probe_lines(probes: Seq<AcceptanceProbe>) -> Seq<char>
    decreases probes.len(),
{
    if probes.len() == 0 {
        Seq::empty()
    } else {
        probe_lines(probes.drop_last()) + ("acceptance-probe: "@ + probes.last().name@ + " = "@
            + probes.last().command@ + "\n"@)
    }
}

/// The line on the revision that a brief starts from.
pub open spec fn base_line(brief: Brief) -> Seq<char> {
    match brief.base_revision {
        Some(base) => "base-revision: "@ + base@ + "\n"@,
        None => Seq::empty(),
    }
}

/// The lines on the plan that a brief belongs to.
pub open spec fn plan_lines(brief: Brief) -> Seq<char> {
    if brief.plan_ref is Some && brief.plan_slice is Some {
        "plan-ref: "@ + brief.plan_ref->0@ + "\nplan-slice: "@ + brief.plan_slice->0@ + "\n\n"@
    } else {
        Seq::empty()
    }
}

/// A brief as it is shown.
pub open spec fn brief_text(brief: Brief) -> Seq<char> {
    base_line(brief) + plan_lines(brief) + probe_lines(brief.acceptance_probes@) + (
    if brief.acceptance_probes@.len() > 0 {
        "\n"@
    } else {
        ""@
    }) + brief.body@
}

fn shown_base(brief: &Brief) -> (r: String)
    ensures
        r@ == base_line(*brief),
{
    match &brief.base_revision {
        Some(base) => {
            let mut out = "base-revision: ".to_string();
            out.append(base.as_str());
            out.append("\n");
            out
        },
        None => String::new(),
    }
}

fn shown_plan(brief: &Brief) -> (r: String)
    ensures
        r@ == plan_lines(*brief),
{
    if let Some(plan_ref) = &brief.plan_ref {
        if let Some(plan_slice) = &brief.plan_slice {
            let mut out = "plan-ref: ".to_string();
            out.append(plan_ref.as_str());
            out.append("\nplan-slice: ");
            out.append(plan_slice.as_str());
            out.append("\n\n");
            return out;
        }
    }
    String::new()
}

fn shown_probes(probes: &Vec<AcceptanceProbe>) -> (r: String)
    ensures
        r@ == probe_lines(probes@),
{
    let mut out = String::new();
    assert(probes@.take(0) =~= Seq::empty());
    for i in 0..probes.len()
        invariant
            out@ == probe_lines(probes@.take(i as int)),
    {
        assert(probes@.take(i + 1).drop_last() =~= probes@.take(i as int));
        let mut line = "acceptance-probe: ".to_string();
        line.append(probes[i].name.as_str());
        line.append(" = ");
        line.append(probes[i].command.as_str());
        line.append("\n");
        out.append(line.as_str());
    }
    assert(probes@.take(probes@.len() as int) =~= probes@);
    out
}

/// A brief as it is shown.
pub fn show_brief(brief: &Brief) -> (r: String)
    ensures
        r@ == brief_text(*brief),
{
    let mut out = shown_base(brief);
    out.append(shown_plan(brief).as_str());
    out.append(shown_probes(&brief.acceptance_probes).as_str());
    if brief.acceptance_probes.len() > 0 {
        out.append("\n");
    } else {
        out.append("");
    }
    out.append(brief.body.as_str());
    out
}

/// What is wrong with an acceptance probe.
#[derive(Clone, Copy, Debug, PartialEq, Eq, Structural)]
pub enum ProbeFault {
    InvalidName,
    DuplicateName,
    EmptyCommand,
}

/// What is wrong with the probe at `k`, where anything is: its name is no slug, an earlier one has
/// the name, or its command says nothing.
pub open spec fn probe_fault(
    probes: Seq<AcceptanceProbe>,
    slugs: Seq<bool>,
    k: int,
) -> Option<ProbeFault> {
    if !slugs[k] {
        Some(ProbeFault::InvalidName)
    } else if exists|j: int| 0 <= j < k && (#[trigger] probes[j]).name@ == probes[k].name@ {
        Some(ProbeFault::DuplicateName)
    } else if blank(probes[k].command@) {
        Some(ProbeFault::EmptyCommand)
    } else {
        None
    }
}

fn named_before(probes: &Vec<AcceptanceProbe>, k: usize) -> (r: bool)
    requires
        k < probes@.len(),
    ensures
        r == exists|j: int| 0 <= j < k && (#[trigger] probes@[j]).name@ == probes@[k as int].name@,
{
    for j in 0..k
        invariant
            k < probes@.len(),
            forall|i: int| 0 <= i < j ==> (#[trigger] probes@[i]).name@ != probes@[k as int].name@,
    {
        if same(probes[j].name.as_str(), probes[k].name.as_str()) {
            assert(probes@[j as int].name@ == probes@[k as int].name@);
            return true;
        }
    }
    false
}

/// Whether `r` is what is wrong with some acceptance probes, where anything is.
pub open spec fn checks_probes(
    probes: &Vec<AcceptanceProbe>,
    slugs: &Vec<bool>,
    r: Result< (), (usize, ProbeFault), >,
) -> bool {
    match r {
            Ok(()) => forall|k: int|
                0 <= k < probes@.len() ==> (#[trigger] probe_fault(probes@, slugs@, k)) is None,
            Err((k, fault)) => k < probes@.len() && probe_fault(probes@, slugs@, k as int) == Some(
                fault,
            ) && forall|j: int|
                0 <= j < k ==> (#[trigger] probe_fault(probes@, slugs@, j)) is None,
        }
}

/// Checks acceptance probes: the first that something is wrong with, and what. `slugs` says of
/// each whether its name is a slug.
pub fn read_acceptance_probes(probes: &Vec<AcceptanceProbe>, slugs: &Vec<bool>) -> (r: Result<
    (),
    (usize, ProbeFault),
>)
    requires
        slugs@.len() == probes@.len(),
    ensures
        checks_probes(probes, slugs, r),
{
    for k in 0..probes.len()
        invariant
            slugs@.len() == probes@.len(),
            forall|j: int| 0 <= j < k ==> (#[trigger] probe_fault(probes@, slugs@, j)) is None,
    {
        if !slugs[k] {
            return Err((k, ProbeFault::InvalidName));
        }
        if named_before(probes, k) {
            return Err((k, ProbeFault::DuplicateName));
        }
        if is_blank(probes[k].command.as_str()) {
            return Err((k, ProbeFault::EmptyCommand));
        }
    }
    Ok(())
}

/// Where a template is taken from.
#[derive(Debug)]
pub enum ScaffoldSource {
    Repository { template: String },
    /// One that comes with the program, by its position among those.
    BuiltIn { index: usize },
    Unknown,
}

/// Whether `r` says where the template of a name is taken from.
pub open spec fn takes_template(
    repository: Option<String>,
    built_in: &Vec<String>,
    name: &str,
    r: ScaffoldSource,
) -> bool {
    match r {
            ScaffoldSource::Repository { template } => repository == Some(template),
            ScaffoldSource::BuiltIn { index } => repository is None && index < built_in@.len()
                && built_in@[index as int]@ == name@ && forall|i: int|
                0 <= i < index ==> (#[trigger] built_in@[i])@ != name@,
            ScaffoldSource::Unknown => repository is None && !among(built_in@, name@),
        }
}

/// Where the template of a name is taken from: one of the repository wins over one that comes
/// with the program, and of two that come with the program under one name the first counts.
pub fn resolve_scaffold(repository: Option<String>, built_in: &Vec<String>, name: &str) -> (r:
    ScaffoldSource)
    ensures
        takes_template(repository, built_in, name, r),
{
    if let Some(template) = repository {
        return ScaffoldSource::Repository { template };
    }
    for i in 0..built_in.len()
        invariant
            repository is None,
            forall|j: int| 0 <= j < i ==> (#[trigger] built_in@[j])@ != name@,
    {
        if same(built_in[i].as_str(), name) {
            return ScaffoldSource::BuiltIn { index: i };
        }
    }
    ScaffoldSource::Unknown
}

/// A text that ends with a line feed.
pub open spec fn terminated(s: Seq<char>) -> Seq<char> {
    if s.len() > 0 && s.last() == '\n' {
        s
    } else {
        s.push('\n')
    }
}

/// A template before a body: the template ends its line, and a blank line stands between them.
pub open spec fn prepended_text(template: Seq<char>, body: Seq<char>) -> Seq<char> {
    if template.len() == 0 {
        body
    } else if body.len() == 0 {
        terminated(template)
    } else {
        terminated(template).push('\n') + body
    }
}

/// Whether a text ends with a line feed.
pub fn ends_line(text: &str) -> (r: bool)
    ensures
        r == (text@.len() > 0 && text@.last() == '\n'),
{
    let chars = chars_of(text);
    chars.len() > 0 && chars[chars.len() - 1] == '\n'
}

/// A template before a body.
pub fn prepended(template: &str, body: &str) -> (r: String)
    ensures
        r@ == prepended_text(template@, body@),
{
    if template.is_empty() {
        return body.to_string();
    }
    let mut out = template.to_string();
    if !ends_line(template) {
        out.push('\n');
    }
    if !body.is_empty() {
        out.push('\n');
        out.append(body);
    }
    out
}

/// The name of the directory of a change's worktree.
pub fn worktree_name(repository: &str, slug: &str) -> (r: String)
    ensures
        r@ == worktree_dir(repository@, slug@),
{
    let mut out = repository.to_string();
    out.append("-");
    out.append(slug);
    out
}

/// The branch that is named is the target, whatever else there is; without one it is that of the
/// primary worktree, then the one that is checked out, and never the branch of an open change.
pub proof fn targets_are_named_or_known(
    changes: &Vec<ChangeState>,
    named: &Option<String>,
    primary: &Option<String>,
    current: &Option<String>,
    r: Result<String, TargetRefusal>,
)
    requires
        chooses_target(changes, named, primary, current, r),
    ensures
        *named matches Some(branch) ==> r is Ok && r->Ok_0@ == branch@,
        named is None && r is Ok ==> (match *primary {
            Some(branch) => r->Ok_0@ == branch@,
            None => *current matches Some(branch) && r->Ok_0@ == branch@,
        }) && forall|k: int|
            0 <= k < changes@.len() && (#[trigger] changes@[k]).closure is None
                ==> changes@[k].branch@ != r->Ok_0@,
        named is None ==> (r == Err::<String, TargetRefusal>(TargetRefusal::Undetermined) <==> primary
            is None && current is None),
        changes@.len() == 0 && (primary is Some || current is Some) ==> r is Ok,
{
}

/// A change begins on a branch that is there exactly where it adopts it.
pub proof fn branches_are_adopted_or_new(
    adopted: bool,
    present: bool,
    r: Result<(), BranchRefusal>,
)
    requires
        admits_branch(adopted, present, r),
    ensures
        r is Ok <==> adopted == present,
        r is Err ==> (r->Err_0 == BranchRefusal::NoSuchBranch <==> adopted),
{
}

/// No two open changes use one slug; a slug whose changes are all closed may be used again, and a
/// change with a named target, well-formed tags and such a slug is opened.
pub proof fn open_slugs_are_unique(
    changes: &Vec<ChangeState>,
    args: &BeginArgs,
    primary: &Option<String>,
    current: &Option<String>,
    r: Result<Opening, BeginRefusal>,
)
    requires
        begins_with(changes, args, primary, current, r),
    ensures
        r is Ok ==> forall|k: int|
            0 <= k < changes@.len() && (#[trigger] changes@[k]).closure is None
                ==> changes@[k].slug@ != args.slug@,
        r matches Err(BeginRefusal::SlugInUse { change }) ==> change < changes@.len()
            && changes@[change as int].closure is None && changes@[change as int].slug@
            == args.slug@,
        args.target is Some && args.tags@.len() == 0 && (forall|k: int|
            0 <= k < changes@.len() && (#[trigger] changes@[k]).slug@ == args.slug@
                ==> changes@[k].closure is Some) ==> r is Ok,
{
    if r is Ok {
        assert forall|k: int|
            0 <= k < changes@.len() && (#[trigger] changes@[k]).closure is None implies changes@[k].slug@
            != args.slug@ by {
            assert(!uses(changes@[k], args.slug@));
        }
    }
    if let Err(BeginRefusal::SlugInUse { change }) = r {
        assert(uses(changes@[change as int], args.slug@));
    }
}

/// A change is opened under the title and on the branch that were asked for: an adopted branch
/// before a named one, and without either one under `arc/`; a title that was not given is the slug,
/// character by character, with a space for each hyphen.
pub proof fn openings_follow_what_was_asked(
    changes: &Vec<ChangeState>,
    args: &BeginArgs,
    primary: &Option<String>,
    current: &Option<String>,
    r: Result<Opening, BeginRefusal>,
)
    requires
        begins_with(changes, args, primary, current, r),
        r is Ok,
    ensures
        args.adopt matches Some(branch) ==> r->Ok_0.branch@ == branch@,
        args.adopt is None && args.branch is Some ==> r->Ok_0.branch@ == args.branch->0@,
        args.adopt is None && args.branch is None ==> r->Ok_0.branch@ == "arc/"@ + args.slug@,
        args.target matches Some(branch) ==> r->Ok_0.target_branch@ == branch@,
        args.title matches Some(title) ==> r->Ok_0.title@ == title@,
        args.title is None ==> r->Ok_0.title@.len() == args.slug@.len() && !r->Ok_0.title@.contains(
            '-',
        ) && forall|i: int|
            0 <= i < args.slug@.len() && (#[trigger] args.slug@[i]) != '-' ==> r->Ok_0.title@[i]
                == args.slug@[i],
        args.title is None ==> forall|i: int|
            0 <= i < args.slug@.len() && (#[trigger] args.slug@[i]) == '-' ==> r->Ok_0.title@[i]
                == ' ',
{
    let title = r->Ok_0.title@;
    if args.title is None {
        if title.contains('-') {
            let i = choose|i: int| 0 <= i < title.len() && title[i] == '-';
            assert(title[i] == title_of(None, args.slug@)[i]);
        }
    }
}

/// A change is recorded as opened exactly where its branch is there if it is adopted and not
/// otherwise, and no worktree would be made over something else: an adopted branch, or a change
/// that wants no worktree, makes none.
pub proof fn openings_overwrite_nothing(
    args: &BeginArgs,
    opening: Opening,
    place: &OpeningPlace,
    r: Result<Payload, OpeningRefusal>,
)
    requires
        records_opening(args, opening, place, r),
    ensures
        r is Ok <==> (args.adopt is Some && place.branch_present) || (args.adopt is None
            && !place.branch_present && (args.no_worktree || !place.path_present)),
        r matches Err(OpeningRefusal::WorktreeExists) ==> place.path_present && args.adopt is None
            && !args.no_worktree,
        r matches Ok(payload) ==> (payload matches Payload::ChangeOpened {
            slug,
            branch,
            base,
            worktree,
            dangerous,
            profile,
            ..
        } && {
            &&& slug@ == args.slug@
            &&& branch@ == opening.branch@
            &&& profile@ == args.profile@
            &&& dangerous == args.dangerous
            &&& args.base matches Some(named) ==> base@ == named@
            &&& args.base is None && args.adopt is Some ==> base@ == place.merge_base@
            &&& args.base is None && args.adopt is None ==> base@ == place.target_head@
            &&& args.adopt is Some ==> worktree is Some == place.adopted_worktree is Some
            &&& args.adopt is Some && worktree is Some ==> worktree->0@
                == place.adopted_worktree->0@
            &&& args.adopt is None ==> (worktree is None <==> args.no_worktree)
            &&& args.adopt is None && !args.no_worktree && args.worktree is Some
                ==> worktree->0@ == args.worktree->0@
        }),
{
}

/// A plan never seeds a brief; anything else that a change is begun from does, and a change that
/// is begun from nothing starts without one.
pub proof fn plans_seed_nothing(
    args: &BeginArgs,
    kind: &str,
    body: &str,
    base_revision: &str,
    r: Option<Payload>,
)
    requires
        starts_with_brief(args, kind, body, base_revision, r),
    ensures
        r is Some <==> args.from_journal is Some && kind@ != "plan"@,
        r matches Some(payload) ==> (payload matches Payload::BriefRecorded {
            base_revision: base,
            acceptance_probes,
            plan_ref,
            ..
        } && base is Some && base->0@ == base_revision@ && acceptance_probes@.len() == 0
            && plan_ref is None),
{
}

/// Only a lead records a brief; a brief is recorded exactly where a body, a template or probes are
/// given, shown where nothing is, and a version is only ever shown.
pub proof fn briefs_are_recorded_by_leads(args: BriefArgs, lead: bool)
    ensures
        ({
            let given = args.body_file is Some || args.scaffold is Some || args.probes_json is Some;
            let r = brief_request(args, lead);
            &&& r == Ok::<BriefRequest, BriefRefusal>(BriefRequest::Record) ==> given && lead
                && args.version is None
            &&& r == Ok::<BriefRequest, BriefRefusal>(BriefRequest::Show) ==> !given && args.title
                is None && args.base is None && args.plan_ref is None && args.plan_slice is None
            &&& r is Ok ==> args.plan_ref is Some == args.plan_slice is Some
            &&& !given && args.title is None && args.base is None && args.plan_ref is None
                && args.plan_slice is None ==> r is Ok
            &&& given && lead && args.version is None && args.plan_ref is Some
                == args.plan_slice is Some && (args.body_file is None || args.probes_json is None)
                ==> r is Ok
        }),
{
}

/// Probes are accepted exactly where each has a slug for its name, no two have one name, and each
/// has a command that says something.
pub proof fn accepted_probes_are_sound(
    probes: &Vec<AcceptanceProbe>,
    slugs: &Vec<bool>,
    r: Result<(), (usize, ProbeFault)>,
)
    requires
        checks_probes(probes, slugs, r),
        slugs@.len() == probes@.len(),
    ensures
        r is Ok <==> {
            &&& forall|k: int| 0 <= k < probes@.len() ==> #[trigger] slugs@[k]
            &&& forall|j: int, k: int|
                0 <= j < k < probes@.len() ==> (#[trigger] probes@[j]).name@ != (
                #[trigger] probes@[k]).name@
            &&& forall|k: int|
                0 <= k < probes@.len() ==> !blank((#[trigger] probes@[k]).command@)
        },
{
    if r is Ok {
        assert forall|k: int| 0 <= k < probes@.len() implies #[trigger] slugs@[k] by {
            assert(probe_fault(probes@, slugs@, k) is None);
        }
        assert forall|j: int, k: int| 0 <= j < k < probes@.len() implies (
        #[trigger] probes@[j]).name@ != (#[trigger] probes@[k]).name@ by {
            assert(probe_fault(probes@, slugs@, k) is None);
        }
        assert forall|k: int| 0 <= k < probes@.len() implies !blank(
            (#[trigger] probes@[k]).command@,
        ) by {
            assert(probe_fault(probes@, slugs@, k) is None);
        }
    }
}

/// A template before a body loses nothing of either, and where there are both a blank line stands
/// between them.
pub proof fn prepended_bodies_stay_whole(template: Seq<char>, body: Seq<char>)
    ensures
        ({
            let text = prepended_text(template, body);
            &&& template.is_prefix_of(text)
            &&& body.is_suffix_of(text)
            &&& template.len() > 0 && body.len() > 0 ==> text[text.len() - body.len() - 1] == '\n'
                && text[text.len() - body.len() - 2] == '\n'
            &&& template.len() == 0 ==> text == body
            &&& text.len() <= template.len() + body.len() + 2
        }),
{
    let text = prepended_text(template, body);
    assert(template =~= text.take(template.len() as int));
    assert(body =~= text.skip(text.len() - body.len()));
}

/// A template of the repository wins over one that comes with the program, and a template is unknown
/// only where neither has it.
pub proof fn own_templates_win(
    repository: Option<String>,
    built_in: &Vec<String>,
    name: &str,
    r: ScaffoldSource,
)
    requires
        takes_template(repository, built_in, name, r),
    ensures
        repository is Some <==> r is Repository,
        repository is None ==> (r is BuiltIn <==> exists|i: int|
            0 <= i < built_in@.len() && (#[trigger] built_in@[i])@ == name@),
        r matches ScaffoldSource::BuiltIn { index } ==> built_in@[index as int]@ == name@,
{
}

} // verus!
