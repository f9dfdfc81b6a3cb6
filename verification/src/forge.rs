//! What is observed of a pull request on a forge, and of the hooks in a repository.
use crate::event::Payload;
use crate::order::{chosen, ints, lemma_chosen};
use crate::text::{
    begins, blank, chars_of, is_blank, opt_view, same, stands, stands_at, starts_with,
};
use vstd::prelude::*;

verus! {

/// A pull request, as it was observed after its creation.
pub struct ForgeLinkArgs {
    pub pr_number: u64,
    pub url: String,
    pub base_repo: String,
    pub base_ref: String,
    pub head_repo: String,
    pub head_ref: String,
    pub head_sha: String,
}

/// The exit code of a link that is refused.
pub const LINK_REFUSED: i32 = 10;

/// Whether `r` records a link to a pull request, or refuses it.
pub open spec fn answers_link(
    args: ForgeLinkArgs,
    satisfies_declaration: bool,
    r: Result<Payload, i32>,
) -> bool {
    r == (if satisfies_declaration {
            Ok(
                Payload::ForgeLink {
                    pr_number: args.pr_number,
                    url: args.url,
                    base_repo: args.base_repo,
                    base_ref: args.base_ref,
                    head_repo: args.head_repo,
                    head_ref: args.head_ref,
                    head_sha: args.head_sha,
                },
            )
        } else {
            Err(LINK_REFUSED)
        })
}

/// What records a link to a pull request, or the exit code of its refusal: without a declaration
/// that it satisfies nothing is recorded.
pub fn forge_link(args: ForgeLinkArgs, satisfies_declaration: bool) -> (r: Result<Payload, i32>)
    ensures
        answers_link(args, satisfies_declaration, r),
{
    if !satisfies_declaration {
        return Err(LINK_REFUSED);
    }
    Ok(
        Payload::ForgeLink {
            pr_number: args.pr_number,
            url: args.url,
            base_repo: args.base_repo,
            base_ref: args.base_ref,
            head_repo: args.head_repo,
            head_ref: args.head_ref,
            head_sha: args.head_sha,
        },
    )
}

/// A recorded link to a pull request.
pub struct ForgeLinkRecord {
    pub event_id: String,
    pub head_sha: String,
}

/// Why the state of a pull request is not recorded.
#[derive(Clone, Copy, Debug, PartialEq, Eq, Structural)]
pub enum PrStateRefusal {
    MergedNeedsSha,
    ShaNeedsMerged,
    NoLink,
    EmptyLink,
    /// The named link is not the current one.
    Superseded,
    UnknownLink,
    Ambiguous { matches: usize },
}

/// The positions of the links whose event begins with a reference.
pub open spec fn links_named(links: Seq<ForgeLinkRecord>, reference: Seq<char>) -> Seq<int> {
    chosen(links.len(), |i: int| begins(links[i].event_id@, reference))
}

/// Why the state of a pull request is not recorded, where it is not. The last link is the current
/// one, and a link that is named has to be that one.
pub open spec fn pr_state_refusal(
    merged: bool,
    merge_sha: Option<Seq<char>>,
    links: Seq<ForgeLinkRecord>,
    named: Option<Seq<char>>,
) -> Option<PrStateRefusal> {
    if merged && merge_sha is None {
        Some(PrStateRefusal::MergedNeedsSha)
    } else if !merged && merge_sha is Some {
        Some(PrStateRefusal::ShaNeedsMerged)
    } else if links.len() == 0 {
        Some(PrStateRefusal::NoLink)
    } else {
        match named {
            Some(reference) => {
                let found = links_named(links, reference);
                if blank(reference) {
                    Some(PrStateRefusal::EmptyLink)
                } else if found.len() == 0 {
                    Some(PrStateRefusal::UnknownLink)
                } else if found.len() > 1 {
                    Some(PrStateRefusal::Ambiguous { matches: found.len() as usize })
                } else if links[found[0]].event_id@ != links.last().event_id@ {
                    Some(PrStateRefusal::Superseded)
                } else {
                    None
                }
            },
            None => None,
        }
    }
}

fn find_links(links: &Vec<ForgeLinkRecord>, reference: &str) -> (r: Vec<usize>)
    ensures
        ints(r@) == links_named(links@, reference@),
        forall|k: int| 0 <= k < r@.len() ==> #[trigger] r@[k] < links@.len(),
{
    let mut out: Vec<usize> = Vec::new();
    for i in 0..links.len()
        invariant
            ints(out@) == chosen(i as nat, |k: int| begins(links@[k].event_id@, reference@)),
            forall|k: int| 0 <= k < out@.len() ==> #[trigger] out@[k] < i,
    {
        let ghost before = ints(out@);
        if starts_with(links[i].event_id.as_str(), reference) {
            out.push(i);
            assert(ints(out@) =~= before.push(i as int));
        }
    }
    out
}

/// Whether `r` records the state of a pull request, or says why it is not recorded.
pub open spec fn answers_state(
    pr_state: String,
    merged: bool,
    merge_sha: Option<String>,
    links: &Vec<ForgeLinkRecord>,
    named: Option<&str>,
    r: Result<Payload, PrStateRefusal>,
) -> bool {
    ({
            let refusal = pr_state_refusal(
                merged,
                opt_view(merge_sha),
                links@,
                match named {
                    Some(text) => Some(text@),
                    None => None,
                },
            );
            match r {
                Ok(Payload::ForgePrState { state, merge_sha: sha, link_event_id, pr_head }) =>
                refusal is None && state == pr_state && sha == merge_sha && opt_view(link_event_id)
                    == Some(links@.last().event_id@) && opt_view(pr_head) == Some(
                    links@.last().head_sha@,
                ),
                Ok(_) => false,
                Err(error) => refusal == Some(error),
            }
        })
}

/// What records the state of a pull request, bound to the current link and its head.
pub fn forge_pr_state(
    pr_state: String,
    merged: bool,
    merge_sha: Option<String>,
    links: &Vec<ForgeLinkRecord>,
    named: Option<&str>,
) -> (r: Result<Payload, PrStateRefusal>)
    ensures
        answers_state(pr_state, merged, merge_sha, links, named, r),
{
    if merged && merge_sha.is_none() {
        return Err(PrStateRefusal::MergedNeedsSha);
    }
    if !merged && merge_sha.is_some() {
        return Err(PrStateRefusal::ShaNeedsMerged);
    }
    if links.len() == 0 {
        return Err(PrStateRefusal::NoLink);
    }
    let current = &links[links.len() - 1];
    if let Some(reference) = named {
        if is_blank(reference) {
            return Err(PrStateRefusal::EmptyLink);
        }
        let found = find_links(links, reference);
        assert(ints(found@).len() == found@.len());
        if found.len() == 0 {
            return Err(PrStateRefusal::UnknownLink);
        }
        if found.len() > 1 {
            return Err(PrStateRefusal::Ambiguous { matches: found.len() });
        }
        assert(ints(found@)[0] == found@[0]);
        if !same(links[found[0]].event_id.as_str(), current.event_id.as_str()) {
            return Err(PrStateRefusal::Superseded);
        }
    }
    Ok(
        Payload::ForgePrState {
            state: pr_state,
            merge_sha,
            link_event_id: Some(current.event_id.clone()),
            pr_head: Some(current.head_sha.clone()),
        },
    )
}

/// The line that marks a hook as one of this program.
pub open spec fn marker() -> Seq<char> {
    "# arc-managed hook"@
}

/// The script of a hook: it does nothing where the program is missing, and never fails.
pub open spec fn script_text(name: Seq<char>) -> Seq<char> {
    "#!/bin/sh\n# arc-managed hook\ncommand -v arc >/dev/null 2>&1 || exit 0\narc hook-run "@ + name
        + " \"$@\"\nexit 0\n"@
}

/// The script of a hook.
pub fn hook_script(name: &str) -> (r: String)
    ensures
        r@ == script_text(name@),
{
    let mut out =
        "#!/bin/sh\n# arc-managed hook\ncommand -v arc >/dev/null 2>&1 || exit 0\narc hook-run ".to_string();
    out.append(name);
    out.append(" \"$@\"\nexit 0\n");
    out
}

/// Whether a text holds another.
pub open spec fn holds_text(s: Seq<char>, part: Seq<char>) -> bool {
    exists|at: int| #[trigger] stands_at(s, part, at)
}

/// Whether a hook is one of this program.
pub fn is_arc_hook(text: &str) -> (r: bool)
    ensures
        r == holds_text(text@, marker()),
{
    let chars = chars_of(text);
    let part = chars_of("# arc-managed hook");
    proof {
        reveal_strlit("# arc-managed hook");
    }
    for at in 0..chars.len()
        invariant
            chars@ == text@,
            part@ == marker(),
            forall|k: int| 0 <= k < at ==> !#[trigger] stands_at(text@, marker(), k),
    {
        if stands(&chars, &part, at) {
            assert(stands_at(text@, marker(), at as int));
            return true;
        }
    }
    false
}

/// What installing a hook does with what is there.
#[derive(Clone, Copy, Debug, PartialEq, Eq, Structural)]
pub enum HookInstall {
    Write,
    /// The hook of somebody else is kept under another name.
    SaveAndWrite,
    Refuse,
}

/// Whether `r` is what installing a hook does with what is there.
pub open spec fn installs_hook(
    present: bool,
    ours: bool,
    force: bool,
    r: HookInstall,
) -> bool {
    r == (if !present || ours {
            HookInstall::Write
        } else if force {
            HookInstall::SaveAndWrite
        } else {
            HookInstall::Refuse
        })
}

/// What installing a hook does: the hook of somebody else is replaced only by force, and kept.
pub fn install_hook(present: bool, ours: bool, force: bool) -> (r: HookInstall)
    ensures
        installs_hook(present, ours, force, r),
{
    if present && !ours {
        if force {
            HookInstall::SaveAndWrite
        } else {
            HookInstall::Refuse
        }
    } else {
        HookInstall::Write
    }
}

/// The state of a hook, in a word.
pub fn hook_status(present: bool, ours: bool) -> (r: &'static str)
    ensures
        r@ == (if !present {
            "absent"@
        } else if ours {
            "arc-managed"@
        } else {
            "foreign"@
        }),
{
    if !present {
        "absent"
    } else if ours {
        "arc-managed"
    } else {
        "foreign"
    }
}

/// An installed hook is recognized: the script of any hook holds the mark.
pub proof fn scripts_are_marked(name: Seq<char>)
    ensures
        holds_text(script_text(name), marker()),
{
    reveal_strlit("# arc-managed hook");
    reveal_strlit(
        "#!/bin/sh\n# arc-managed hook\ncommand -v arc >/dev/null 2>&1 || exit 0\narc hook-run ",
    );
    let script = script_text(name);
    assert(script.subrange(10, (10 + marker().len()) as int) =~= marker());
    assert(stands_at(script, marker(), 10));
}

/// A link is recorded exactly where it satisfies a declaration, as it was observed.
pub proof fn links_satisfy_a_declaration(
    args: ForgeLinkArgs,
    satisfies_declaration: bool,
    r: Result<Payload, i32>,
)
    requires
        answers_link(args, satisfies_declaration, r),
    ensures
        r is Ok <==> satisfies_declaration,
        r is Err ==> r->Err_0 == 10,
        r matches Ok(payload) ==> (payload matches Payload::ForgeLink {
            pr_number,
            url,
            head_sha,
            base_ref,
            head_ref,
            ..
        } && pr_number == args.pr_number && url == args.url && head_sha == args.head_sha && base_ref
            == args.base_ref && head_ref == args.head_ref),
{
}

/// A state says what was merged exactly where it says that something was; without a name it is
/// recorded on the current link, of which it takes the head.
pub proof fn states_are_of_the_current_link(
    pr_state: String,
    merged: bool,
    merge_sha: Option<String>,
    links: &Vec<ForgeLinkRecord>,
    named: Option<&str>,
    r: Result<Payload, PrStateRefusal>,
)
    requires
        answers_state(pr_state, merged, merge_sha, links, named, r),
    ensures
        r is Ok ==> merged == merge_sha is Some && links@.len() > 0,
        named is None ==> (r is Ok <==> merged == merge_sha is Some && links@.len() > 0),
        r matches Ok(payload) ==> (payload matches Payload::ForgePrState {
            state,
            merge_sha: sha,
            link_event_id,
            pr_head,
        } && state == pr_state && sha == merge_sha && link_event_id is Some && link_event_id->0@
            == links@.last().event_id@ && pr_head is Some && pr_head->0@ == links@.last().head_sha@),
{
}

/// A link that is named has to be the current one, and no other may begin with that name.
pub proof fn named_links_are_current(
    merged: bool,
    merge_sha: Option<Seq<char>>,
    links: Seq<ForgeLinkRecord>,
    reference: Seq<char>,
    i: int,
)
    requires
        0 <= i < links.len(),
        begins(links[i].event_id@, reference),
    ensures
        pr_state_refusal(merged, merge_sha, links, Some(reference)) is None
            ==> links[i].event_id@ == links.last().event_id@ && !blank(reference),
        pr_state_refusal(merged, merge_sha, links, Some(reference)) != Some(
            PrStateRefusal::UnknownLink,
        ),
{
    let wanted = |i: int| begins(links[i].event_id@, reference);
    lemma_chosen(links.len(), wanted);
    assert(links_named(links, reference) =~= chosen(links.len(), wanted));
    assert(wanted(i));
    assert(links_named(links, reference).contains(i));
    if links_named(links, reference).len() == 1 {
        assert(links_named(links, reference)[0] == i);
    }
}

/// The hook of somebody else is never lost: it is kept where it is replaced, and it is replaced only
/// by force.
pub proof fn foreign_hooks_are_kept(present: bool, ours: bool, force: bool, r: HookInstall)
    requires
        installs_hook(present, ours, force, r),
    ensures
        present && !ours ==> r != HookInstall::Write,
        r == HookInstall::Refuse <==> present && !ours && !force,
        r == HookInstall::SaveAndWrite <==> present && !ours && force,
{
}

} // verus!
