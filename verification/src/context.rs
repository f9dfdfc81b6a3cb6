//! Who runs a command, and the events recorded in that name.
use crate::event::{Event, Payload};
use crate::model::{ActorSource, Closure};
use crate::state::{outcome, ChangeState};
use crate::time::Timestamp;
use vstd::prelude::*;

verus! {

/// The version of the event schema.
pub const SCHEMA_VERSION: u32 = 1;

/// The invocation a command runs in.
#[derive(Debug)]
pub struct Ctx {
    pub cwd: String,
    pub actor: String,
    /// Where `actor` came from. A fallback identity is announced the first time an event would
    /// carry it.
    pub actor_source: ActorSource,
    /// Set once the fallback warning has been printed, so that one command says it once.
    pub fallback_announced: bool,
    pub harness: Option<String>,
    pub session: Option<String>,
    pub model: Option<String>,
    /// The subject that a lead runs delegated ceremony for.
    pub on_behalf_of: Option<String>,
}

/// Whether somebody declared an actor: nobody claims the fallback from Git's configuration.
pub open spec fn declared(source: ActorSource) -> bool {
    source != ActorSource::GitFallback
}

impl ActorSource {
    /// Whether somebody declared the actor.
    pub fn declared(self) -> (r: bool)
        ensures
            r == declared(self),
    {
        !matches!(self, ActorSource::GitFallback)
    }
}

/// The repository requires a declared actor, and nobody declared one.
#[derive(Debug, PartialEq, Eq, Structural)]
pub struct UndeclaredActor;

impl Ctx {
    /// Refuses where the repository requires a declared actor and nobody declared one.
    pub fn ensure_declared_actor(&self, require_declared_actor: bool) -> (r: Result<
        (),
        UndeclaredActor,
    >)
        ensures
            r is Err <==> require_declared_actor && !declared(self.actor_source)
                && self.on_behalf_of is None,
    {
        if self.actor_source.declared() || self.on_behalf_of.is_some() {
            return Ok(());
        }
        if !require_declared_actor {
            return Ok(());
        }
        Err(UndeclaredActor)
    }

    /// Whether the assumed identity is to be announced now: once, where nobody declared one.
    pub fn announce_assumed_identity(&mut self) -> (r: bool)
        ensures
            r == (!declared(old(self).actor_source) && old(self).on_behalf_of is None && !old(
                self,
            ).fallback_announced),
            final(self).fallback_announced == (old(self).fallback_announced || r),
            final(self).cwd == old(self).cwd,
            final(self).actor == old(self).actor,
            final(self).actor_source == old(self).actor_source,
            final(self).harness == old(self).harness,
            final(self).session == old(self).session,
            final(self).model == old(self).model,
            final(self).on_behalf_of == old(self).on_behalf_of,
    {
        if self.actor_source.declared() || self.on_behalf_of.is_some() || self.fallback_announced {
            return false;
        }
        self.fallback_announced = true;
        true
    }

    /// An event in the name of this invocation.
    pub fn event_at(
        &self,
        event_id: String,
        repository_id: &str,
        change_id: &str,
        created_at: Timestamp,
        payload: Payload,
    ) -> (r: Event)
        ensures
            r.schema_version == SCHEMA_VERSION,
            r.event_id == event_id,
            r.repository_id@ == repository_id@,
            r.change_id@ == change_id@,
            r.actor == self.actor,
            r.actor_source == Some(self.actor_source),
            r.on_behalf_of == self.on_behalf_of,
            r.model == self.model,
            r.harness == self.harness,
            r.session == self.session,
            r.created_at == created_at,
            r.payload == payload,
    {
        Event {
            schema_version: SCHEMA_VERSION,
            event_id,
            repository_id: repository_id.to_string(),
            change_id: change_id.to_string(),
            actor: self.actor.clone(),
            actor_source: Some(self.actor_source),
            on_behalf_of: self.on_behalf_of.clone(),
            model: self.model.clone(),
            harness: self.harness.clone(),
            session: self.session.clone(),
            created_at,
            payload,
        }
    }
}

/// In which phase of a change an event may be appended.
#[derive(Clone, Copy, Debug, PartialEq, Eq, Structural)]
pub enum AppendPermission {
    OpenOnly,
    AnyPhaseFact,
    OpenOrIntegratedFact,
    IntegratedOnlyFact,
    LifecycleOwned,
    OpaqueImported,
}

/// Why an event may not be appended.
#[derive(Debug, PartialEq, Eq, Structural)]
pub enum AppendRefusal {
    BeforeIntegration,
    OwnedInternally,
    NeedsOpen { outcome: Closure },
    NeedsOpenOrIntegrated { outcome: Closure },
    NeedsIntegrated { outcome: Closure },
}

/// Whether an event may be appended to a change that closed as given, or is open.
pub open spec fn append_allowed(closed: Option<Closure>, permission: AppendPermission) -> Result<
    (),
    AppendRefusal,
> {
    match permission {
        AppendPermission::LifecycleOwned => Err(AppendRefusal::OwnedInternally),
        AppendPermission::OpaqueImported => Err(AppendRefusal::OwnedInternally),
        AppendPermission::AnyPhaseFact => Ok(()),
        AppendPermission::OpenOnly => match closed {
            None => Ok(()),
            Some(outcome) => Err(AppendRefusal::NeedsOpen { outcome }),
        },
        AppendPermission::OpenOrIntegratedFact => match closed {
            None => Ok(()),
            Some(Closure::Integrated) => Ok(()),
            Some(outcome) => Err(AppendRefusal::NeedsOpenOrIntegrated { outcome }),
        },
        AppendPermission::IntegratedOnlyFact => match closed {
            None => Err(AppendRefusal::BeforeIntegration),
            Some(Closure::Integrated) => Ok(()),
            Some(outcome) => Err(AppendRefusal::NeedsIntegrated { outcome }),
        },
    }
}

/// Whether an event of this permission may be appended to a change.
pub fn ensure_append_allowed(state: &ChangeState, permission: AppendPermission) -> (r: Result<
    (),
    AppendRefusal,
>)
    ensures
        r == append_allowed(outcome(*state), permission),
{
    let closure = match &state.closure {
        None => {
            return match permission {
                AppendPermission::OpenOnly => Ok(()),
                AppendPermission::AnyPhaseFact => Ok(()),
                AppendPermission::OpenOrIntegratedFact => Ok(()),
                AppendPermission::IntegratedOnlyFact => Err(AppendRefusal::BeforeIntegration),
                AppendPermission::LifecycleOwned => Err(AppendRefusal::OwnedInternally),
                AppendPermission::OpaqueImported => Err(AppendRefusal::OwnedInternally),
            };
        },
        Some(closure) => closure,
    };
    let outcome = closure.outcome;
    match permission {
        AppendPermission::AnyPhaseFact => Ok(()),
        AppendPermission::OpenOnly => Err(AppendRefusal::NeedsOpen { outcome }),
        AppendPermission::OpenOrIntegratedFact => if outcome == Closure::Integrated {
            Ok(())
        } else {
            Err(AppendRefusal::NeedsOpenOrIntegrated { outcome })
        },
        AppendPermission::IntegratedOnlyFact => if outcome == Closure::Integrated {
            Ok(())
        } else {
            Err(AppendRefusal::NeedsIntegrated { outcome })
        },
        AppendPermission::LifecycleOwned => Err(AppendRefusal::OwnedInternally),
        AppendPermission::OpaqueImported => Err(AppendRefusal::OwnedInternally),
    }
}

/// A change that was abandoned or superseded takes nothing but facts of any phase.
pub proof fn closed_without_integration_takes_only_facts(
    closed: Closure,
    permission: AppendPermission,
)
    requires
        closed != Closure::Integrated,
    ensures
        append_allowed(Some(closed), permission) is Ok <==> permission
            == AppendPermission::AnyPhaseFact,
{
}

/// What an open change may not take yet, an integrated one may.
pub proof fn integration_opens_what_waited_for_it(permission: AppendPermission)
    requires
        append_allowed(None, permission) == Err::<(), AppendRefusal>(
            AppendRefusal::BeforeIntegration,
        ),
    ensures
        append_allowed(Some(Closure::Integrated), permission) is Ok,
{
}

/// An open change takes work and facts, but nothing that waits for an integration; an integrated one
/// takes facts and what belongs to an integration, but no work; and nobody appends by hand what the
/// ledger records itself.
pub proof fn phases_take_what_belongs_to_them(permission: AppendPermission)
    ensures
        append_allowed(None, permission) is Ok <==> permission == AppendPermission::OpenOnly
            || permission == AppendPermission::AnyPhaseFact || permission
            == AppendPermission::OpenOrIntegratedFact,
        append_allowed(Some(Closure::Integrated), permission) is Ok <==> permission
            == AppendPermission::AnyPhaseFact || permission
            == AppendPermission::OpenOrIntegratedFact || permission
            == AppendPermission::IntegratedOnlyFact,
        forall|closed: Option<Closure>|
            permission == AppendPermission::LifecycleOwned || permission
                == AppendPermission::OpaqueImported ==> #[trigger] append_allowed(
                closed,
                permission,
            ) is Err,
        append_allowed(None, AppendPermission::IntegratedOnlyFact) == Err::<(), AppendRefusal>(
            AppendRefusal::BeforeIntegration,
        ),
{
}

/// A refusal names how the change closed.
pub proof fn refusals_name_the_closing(outcome: Closure, permission: AppendPermission)
    requires
        append_allowed(Some(outcome), permission) is Err,
    ensures
        append_allowed(Some(outcome), permission) == Err::<(), AppendRefusal>(match permission {
            AppendPermission::OpenOnly => AppendRefusal::NeedsOpen { outcome },
            AppendPermission::OpenOrIntegratedFact => AppendRefusal::NeedsOpenOrIntegrated {
                outcome,
            },
            AppendPermission::IntegratedOnlyFact => AppendRefusal::NeedsIntegrated { outcome },
            _ => AppendRefusal::OwnedInternally,
        }),
{
}

/// Whoever is named by a flag or by the environment is declared; whoever Git's configuration names
/// is not.
pub proof fn nobody_declares_the_fallback(source: ActorSource)
    ensures
        declared(source) <==> source == ActorSource::Flag || source == ActorSource::Environment,
{
}

} // verus!
