//! The authorization pipeline of one request: authentication, then the
//! policy check, then the handler with its ownership check. Each stage is
//! entered only from the one before it, and a refusal ends the request.

use crate::auth::AuthError;
use crate::models::{authorize_resource_access, may_access, Todo, User};
use crate::policy::{PolicyStore, PolicyView};
use vstd::prelude::*;

verus! {

/// Why a request was refused.
#[derive(Clone, Copy, Debug, PartialEq, Eq, Structural)]
pub enum Denial {
    /// The request presented no credentials.
    MissingCredentials,
    /// The presented credentials are not those of a known user.
    InvalidCredentials,
    /// The user directory could not be asked.
    StoreUnavailable,
    /// The policy does not allow the request.
    Forbidden,
    /// The requested item does not exist, or is not the caller's.
    NotFound,
}

/// What the caller is told about a refused request.
#[derive(Clone, Copy, Debug, PartialEq, Eq, Structural)]
pub enum Outcome {
    Unauthorized,
    Forbidden,
    NotFound,
}

/// Where a request stands.
#[derive(Clone, Debug, PartialEq, Eq)]
pub enum Stage {
    /// Nothing is known of the caller yet.
    Unauthenticated,
    /// The caller is this user.
    Authenticated(User),
    /// The policy allows this user's request.
    PolicyChecked(User),
    /// The handler has run and the request is answered.
    Completed,
    /// The request was refused.
    Rejected(Denial),
}

/// What happened to a request since the last step.
#[derive(Debug, PartialEq, Eq)]
pub enum Event {
    /// The authenticator has answered.
    Authentication(Result<User, AuthError>),
    /// The request asks for `method` on `path`.
    Route { path: String, method: String },
    /// The handler has run without touching a single task item.
    Handled,
    /// The handler has looked up the one task item that the request names.
    Fetched(Option<Todo>),
}

/// What is to be done for a request next.
#[derive(Clone, Debug, PartialEq, Eq)]
pub enum Action {
    /// Authenticate the caller and report `Event::Authentication`.
    Authenticate,
    /// Report the route as `Event::Route`.
    CheckPolicy,
    /// Run the handler and report `Event::Handled` or `Event::Fetched`.
    RunHandler,
    /// Answer the request, with the task item if there is one.
    Respond(Option<Todo>),
    /// Refuse the request.
    Reject(Outcome),
}

/// The refusal that a failed authentication leads to.
pub open spec fn denial_of(error: AuthError) -> Denial {
    match error {
        AuthError::MissingCredentials => Denial::MissingCredentials,
        AuthError::InvalidCredentials => Denial::InvalidCredentials,
        AuthError::StoreUnavailable => Denial::StoreUnavailable,
    }
}

/// What the caller is told about a refusal: a failed authentication is
/// unauthorized whatever its cause, and an item of another user is reported
/// like one that does not exist.
pub open spec fn outcome_of(denial: Denial) -> Outcome {
    match denial {
        Denial::MissingCredentials => Outcome::Unauthorized,
        Denial::InvalidCredentials => Outcome::Unauthorized,
        Denial::StoreUnavailable => Outcome::Unauthorized,
        Denial::Forbidden => Outcome::Forbidden,
        Denial::NotFound => Outcome::NotFound,
    }
}

/// The stage that `event` leads to from `stage`. An event that the stage
/// does not wait for changes nothing; completed and rejected requests stay
/// as they are.
pub open spec fn next_stage(stage: Stage, event: Event, policy: PolicyView) -> Stage {
    match (stage, event) {
        (Stage::Unauthenticated, Event::Authentication(Ok(identity))) => Stage::Authenticated(
            identity,
        ),
        (Stage::Unauthenticated, Event::Authentication(Err(error))) => Stage::Rejected(
            denial_of(error),
        ),
        (Stage::Authenticated(identity), Event::Route { path, method }) => if policy.allows(
            identity@.name,
            path@,
            method@,
        ) {
            Stage::PolicyChecked(identity)
        } else {
            Stage::Rejected(Denial::Forbidden)
        },
        (Stage::PolicyChecked(_), Event::Handled) => Stage::Completed,
        (Stage::PolicyChecked(identity), Event::Fetched(Some(todo))) => if may_access(
            identity@,
            todo@,
        ) {
            Stage::Completed
        } else {
            Stage::Rejected(Denial::NotFound)
        },
        (Stage::PolicyChecked(_), Event::Fetched(None)) => Stage::Rejected(Denial::NotFound),
        (stage, _) => stage,
    }
}

/// The task item that a step hands out: the one the handler fetched, if the
/// step completes the request with it.
pub open spec fn released(stage: Stage, event: Event) -> Option<Todo> {
    match (stage, event) {
        (Stage::PolicyChecked(identity), Event::Fetched(Some(todo))) => if may_access(
            identity@,
            todo@,
        ) {
            Some(todo)
        } else {
            None
        },
        _ => None,
    }
}

/// What is to be done after `event` arrived in `stage`.
pub open spec fn next_action(stage: Stage, event: Event, policy: PolicyView) -> Action {
    match next_stage(stage, event, policy) {
        Stage::Unauthenticated => Action::Authenticate,
        Stage::Authenticated(_) => Action::CheckPolicy,
        Stage::PolicyChecked(_) => Action::RunHandler,
        Stage::Completed => Action::Respond(released(stage, event)),
        Stage::Rejected(denial) => Action::Reject(outcome_of(denial)),
    }
}

/// How far a request has come.
pub open spec fn progress(stage: Stage) -> int {
    match stage {
        Stage::Unauthenticated => 0,
        Stage::Authenticated(_) => 1,
        Stage::PolicyChecked(_) => 2,
        Stage::Completed => 3,
        Stage::Rejected(_) => 3,
    }
}

/// The stage that a request is in after `events`, starting from `stage`.
pub open spec fn stage_after(stage: Stage, events: Seq<Event>, policy: PolicyView) -> Stage
    decreases events.len(),
{
    if events.len() == 0 {
        stage
    } else {
        next_stage(stage_after(stage, events.drop_last(), policy), events.last(), policy)
    }
}

impl Denial {
    /// The refusal that a failed authentication leads to.
    pub fn from_auth(error: AuthError) -> (denial: Denial)
        ensures
            denial == denial_of(error),
    {
        match error {
            AuthError::MissingCredentials => Denial::MissingCredentials,
            AuthError::InvalidCredentials => Denial::InvalidCredentials,
            AuthError::StoreUnavailable => Denial::StoreUnavailable,
        }
    }

    /// What the caller is told about this refusal.
    pub fn outcome(&self) -> (outcome: Outcome)
        ensures
            outcome == outcome_of(*self),
    {
        match self {
            Denial::MissingCredentials => Outcome::Unauthorized,
            Denial::InvalidCredentials => Outcome::Unauthorized,
            Denial::StoreUnavailable => Outcome::Unauthorized,
            Denial::Forbidden => Outcome::Forbidden,
            Denial::NotFound => Outcome::NotFound,
        }
    }
}

impl Outcome {
    /// The HTTP status code of this outcome.
    pub fn status(&self) -> (code: u16)
        ensures
            code == match *self {
                Outcome::Unauthorized => 401u16,
                Outcome::Forbidden => 403u16,
                Outcome::NotFound => 404u16,
            },
    {
        match self {
            Outcome::Unauthorized => 401,
            Outcome::Forbidden => 403,
            Outcome::NotFound => 404,
        }
    }
}

impl Stage {
    /// The stage of a request that has just arrived.
    pub fn new() -> (stage: Stage)
        ensures
            stage == Stage::Unauthenticated,
    {
        Stage::Unauthenticated
    }

    /// The authenticated caller, while the request is under way.
    pub fn identity(&self) -> (identity: Option<&User>)
        ensures
            match *self {
                Stage::Authenticated(user) => identity == Some(&user),
                Stage::PolicyChecked(user) => identity == Some(&user),
                _ => identity is None,
            },
    {
        match self {
            Stage::Authenticated(user) => Some(user),
            Stage::PolicyChecked(user) => Some(user),
            _ => None,
        }
    }

    /// Whether the request is over.
    pub fn is_terminal(&self) -> (over: bool)
        ensures
            over == (*self is Completed || *self is Rejected),
    {
        match self {
            Stage::Completed => true,
            Stage::Rejected(_) => true,
            _ => false,
        }
    }
}

/// Takes a request one step further: from the stage it is in and what has
/// happened since to the stage it is in now and what is to be done next.
pub fn step(stage: Stage, event: Event, store: &PolicyStore) -> (next: (Stage, Action))
    ensures
        next.0 == next_stage(stage, event, store@),
        next.1 == next_action(stage, event, store@),
{
    match stage {
        Stage::Unauthenticated => match event {
            Event::Authentication(Ok(identity)) => (
                Stage::Authenticated(identity),
                Action::CheckPolicy,
            ),
            Event::Authentication(Err(error)) => {
                let denial = Denial::from_auth(error);
                (Stage::Rejected(denial), Action::Reject(denial.outcome()))
            },
            _ => (Stage::Unauthenticated, Action::Authenticate),
        },
        Stage::Authenticated(identity) => match event {
            Event::Route { path, method } => {
                if store.is_allowed(identity.name.as_str(), path.as_str(), method.as_str()) {
                    (Stage::PolicyChecked(identity), Action::RunHandler)
                } else {
                    (Stage::Rejected(Denial::Forbidden), Action::Reject(Outcome::Forbidden))
                }
            },
            _ => (Stage::Authenticated(identity), Action::CheckPolicy),
        },
        Stage::PolicyChecked(identity) => match event {
            Event::Handled => (Stage::Completed, Action::Respond(None)),
            Event::Fetched(Some(todo)) => {
                if authorize_resource_access(&identity, &todo) {
                    (Stage::Completed, Action::Respond(Some(todo)))
                } else {
                    (Stage::Rejected(Denial::NotFound), Action::Reject(Outcome::NotFound))
                }
            },
            Event::Fetched(None) => (
                Stage::Rejected(Denial::NotFound),
                Action::Reject(Outcome::NotFound),
            ),
            _ => (Stage::PolicyChecked(identity), Action::RunHandler),
        },
        Stage::Completed => (Stage::Completed, Action::Respond(None)),
        Stage::Rejected(denial) => (Stage::Rejected(denial), Action::Reject(denial.outcome())),
    }
}

/// A request that is over stays as it is, whatever happens.
pub proof fn lemma_terminal_stages_stay(stage: Stage, event: Event, policy: PolicyView)
    requires
        stage is Completed || stage is Rejected,
    ensures
        next_stage(stage, event, policy) == stage,
{
}

/// The stages are passed in order: one step takes a request at most one
/// stage further, and never back, unless it refuses the request.
pub proof fn lemma_stages_in_order(stage: Stage, event: Event, policy: PolicyView)
    ensures
        next_stage(stage, event, policy) is Rejected || progress(stage) <= progress(
            next_stage(stage, event, policy),
        ) <= progress(stage) + 1,
{
}

/// The policy is consulted for authenticated callers only: a request
/// without valid credentials is refused as unauthorized whatever the
/// policy holds.
pub proof fn lemma_unauthenticated_never_reaches_policy(
    error: AuthError,
    policy: PolicyView,
    other: PolicyView,
)
    ensures
        next_stage(Stage::Unauthenticated, Event::Authentication(Err(error)), policy)
            == Stage::Rejected(denial_of(error)),
        next_action(Stage::Unauthenticated, Event::Authentication(Err(error)), policy)
            == Action::Reject(Outcome::Unauthorized),
        next_stage(Stage::Unauthenticated, Event::Authentication(Err(error)), policy)
            == next_stage(Stage::Unauthenticated, Event::Authentication(Err(error)), other),
{
}

/// The policy check and the ownership check are independent, and both must
/// pass: whatever the policy allows, a fetched item is handed out only to
/// an administrator or to its owner, and otherwise reported as not found.
pub proof fn lemma_ownership_checked_after_policy(identity: User, todo: Todo, policy: PolicyView)
    ensures
        next_stage(Stage::PolicyChecked(identity), Event::Fetched(Some(todo)), policy)
            == if may_access(identity@, todo@) {
            Stage::Completed
        } else {
            Stage::Rejected(Denial::NotFound)
        },
        next_action(Stage::PolicyChecked(identity), Event::Fetched(Some(todo)), policy)
            == if may_access(identity@, todo@) {
            Action::Respond(Some(todo))
        } else {
            Action::Reject(Outcome::NotFound)
        },
        !may_access(identity@, todo@) ==> next_action(
            Stage::PolicyChecked(identity),
            Event::Fetched(Some(todo)),
            policy,
        ) == next_action(Stage::PolicyChecked(identity), Event::Fetched(None), policy),
{
}

/// Whether `event` reports a route that the policy allows to `identity`.
pub open spec fn reports_allowed_route(event: Event, identity: User, policy: PolicyView) -> bool {
    match event {
        Event::Route { path, method } => policy.allows(identity@.name, path@, method@),
        _ => false,
    }
}

/// No request gets past the policy check unchecked: from its arrival on,
/// however the events fall, a request is past the policy check only for a
/// caller whose route the policy was asked about and allowed.
pub proof fn lemma_policy_checked_means_allowed(events: Seq<Event>, policy: PolicyView)
    ensures
        stage_after(Stage::Unauthenticated, events, policy) matches Stage::PolicyChecked(identity)
            ==> exists|i: int|
            0 <= i < events.len() && reports_allowed_route(#[trigger] events[i], identity, policy),
    decreases events.len(),
{
    if events.len() > 0 {
        let earlier = events.drop_last();
        lemma_policy_checked_means_allowed(earlier, policy);
        let before = stage_after(Stage::Unauthenticated, earlier, policy);
        let now = stage_after(Stage::Unauthenticated, events, policy);
        if let Stage::PolicyChecked(identity) = now {
            match before {
                Stage::PolicyChecked(_) => {
                    let i = choose|i: int|
                        0 <= i < earlier.len() && reports_allowed_route(
                            #[trigger] earlier[i],
                            identity,
                            policy,
                        );
                    assert(events[i] == earlier[i]);
                },
                _ => {
                    assert(reports_allowed_route(events[events.len() - 1], identity, policy));
                },
            }
        }
    }
}

/// A request completes only after the policy check: the stage before a
/// completing step is the policy-checked one.
pub proof fn lemma_completed_only_after_policy_check(
    stage: Stage,
    event: Event,
    policy: PolicyView,
)
    requires
        next_stage(stage, event, policy) is Completed,
    ensures
        stage is PolicyChecked || stage is Completed,
{
}

} // verus!
