//! The life of one session: announce it, connect, keep the connection up and reopen it when
//! it is lost, and tell at the end that the session is over.
//!
//! The session is a machine that never waits. Each step names what is to be done next, and
//! the outcome of doing it is handed back to get the step after it.

use crate::error::{ForwarderError, Outcome};
use crate::status::{publication_of, status_path, SessionState, SessionStatus};
use crate::store::{lemma_status_path_tells_token, publish, stored_status, Properties};
use vstd::prelude::*;

verus! {

/// What a session is waiting for.
#[derive(Debug, Clone, Copy, PartialEq, Eq, Structural)]
pub enum Phase {
    /// The first `Connecting` is being published.
    Announcing,
    /// The connection is being opened.
    Connecting,
    /// `Connected` is being published.
    Confirming,
    /// The connection is up and watched.
    Monitoring,
    /// The connection was lost and `Connecting` is being published again.
    Recovering,
    /// The connection is being reopened.
    Reconnecting,
    /// `Disconnected` is being published.
    Finalizing,
}

/// A session between the device and a remote host.
#[derive(Debug, PartialEq, Eq)]
pub struct Session {
    /// The token that names the session.
    pub token: String,
    /// The address of the remote host.
    pub url: String,
    /// Whether the connection uses TLS.
    pub secure: bool,
    /// What the session is waiting for.
    pub phase: Phase,
    /// The first failure to publish a state, which the session ends with.
    pub failure: Option<ForwarderError>,
}

/// What is to be done next for a session. But for the last, each step holds the session, to
/// go on with once the step's outcome is known.
#[derive(Debug, PartialEq, Eq)]
pub enum SessionStep {
    /// Publish this state.
    Publish(Session, SessionState),
    /// Open a connection to this address, with TLS or without.
    Connect(Session, String, bool),
    /// Serve the connection until it completes (`Ok`) or is lost (`Err`).
    HandleConnections(Session),
    /// Reopen the lost connection.
    Reconnect(Session),
    /// The session is over, with this result.
    Finish(Outcome),
}

impl Session {
    /// The session once a state could not be published: the first such failure stays.
    pub open spec fn failed(self, error: ForwarderError) -> Session {
        Session {
            failure: if self.failure is Some {
                self.failure
            } else {
                Some(error)
            },
            ..self
        }
    }

    /// The step that ends every session: publish `Disconnected`.
    pub open spec fn finalize(self) -> SessionStep {
        SessionStep::Publish(
            Session { phase: Phase::Finalizing, ..self },
            SessionState { token: self.token, status: SessionStatus::Disconnected },
        )
    }

    /// The first step of a session: publish `Connecting`.
    pub open spec fn first_step(token: String, url: String, secure: bool) -> SessionStep {
        SessionStep::Publish(
            Session { token, url, secure, phase: Phase::Announcing, failure: None },
            SessionState { token, status: SessionStatus::Connecting },
        )
    }

    /// The step that follows when what the session was waiting for ended in `outcome`.
    ///
    /// A state that cannot be published ends the session with that failure. A connection
    /// that cannot be opened or reopened ends the session too, but is no failure of the
    /// session. A lost connection is announced and reopened. However the session ends,
    /// `Disconnected` is published before the result is given.
    pub open spec fn next(self, outcome: Outcome) -> SessionStep {
        match (self.phase, outcome) {
            (Phase::Announcing, Ok(_)) => SessionStep::Connect(
                Session { phase: Phase::Connecting, ..self },
                self.url,
                self.secure,
            ),
            (Phase::Connecting, Ok(_)) | (Phase::Reconnecting, Ok(_)) => SessionStep::Publish(
                Session { phase: Phase::Confirming, ..self },
                SessionState { token: self.token, status: SessionStatus::Connected },
            ),
            (Phase::Confirming, Ok(_)) => SessionStep::HandleConnections(
                Session { phase: Phase::Monitoring, ..self },
            ),
            (Phase::Monitoring, Err(_)) => SessionStep::Publish(
                Session { phase: Phase::Recovering, ..self },
                SessionState { token: self.token, status: SessionStatus::Connecting },
            ),
            (Phase::Recovering, Ok(_)) => SessionStep::Reconnect(
                Session { phase: Phase::Reconnecting, ..self },
            ),
            (Phase::Announcing, Err(error))
            | (Phase::Confirming, Err(error))
            | (Phase::Recovering, Err(error)) => self.failed(error).finalize(),
            (Phase::Connecting, Err(_))
            | (Phase::Reconnecting, Err(_))
            | (Phase::Monitoring, Ok(_)) => self.finalize(),
            (Phase::Finalizing, _) => SessionStep::Finish(
                match self.failed_or(outcome).failure {
                    Some(error) => Err(error),
                    None => Ok(()),
                },
            ),
        }
    }

    /// The session with the failure of `outcome`, if it is one and the first.
    pub open spec fn failed_or(self, outcome: Outcome) -> Session {
        match outcome {
            Ok(_) => self,
            Err(error) => self.failed(error),
        }
    }

    /// Whether the session is between its first `Connecting` and its `Disconnected`.
    pub open spec fn connecting_or_connected(self) -> bool {
        self.phase != Phase::Announcing && self.phase != Phase::Finalizing
    }

    /// Starts the session with this token on the address `url`.
    pub fn start(token: String, url: String, secure: bool) -> (step: SessionStep)
        ensures
            step == Session::first_step(token, url, secure),
    {
        let state = SessionState::connecting(token.clone());
        SessionStep::Publish(
            Session { token, url, secure, phase: Phase::Announcing, failure: None },
            state,
        )
    }

    /// Takes the outcome of the step that the session was waiting for and gives the next.
    pub fn handle_session(self, outcome: Outcome) -> (step: SessionStep)
        ensures
            step == self.next(outcome),
    {
        match self.phase {
            Phase::Announcing => match outcome {
                Ok(_) => {
                    let url = self.url.clone();
                    let secure = self.secure;
                    SessionStep::Connect(Session { phase: Phase::Connecting, ..self }, url, secure)
                },
                Err(error) => self.fail(error).disconnect(),
            },
            Phase::Finalizing => {
                let ended = match outcome {
                    Ok(_) => self,
                    Err(error) => self.fail(error),
                };
                match ended.failure {
                    Some(error) => SessionStep::Finish(Err(error)),
                    None => SessionStep::Finish(Ok(())),
                }
            },
            _ => self.connect(outcome),
        }
    }

    /// The steps from the opening of the connection to its end: confirm the connection, serve
    /// it, and after each loss announce and reopen it.
    fn connect(self, outcome: Outcome) -> (step: SessionStep)
        requires
            self.connecting_or_connected(),
        ensures
            step == self.next(outcome),
    {
        match (self.phase, outcome) {
            (Phase::Connecting, Ok(_)) | (Phase::Reconnecting, Ok(_)) => {
                let state = SessionState::connected(self.token.clone());
                SessionStep::Publish(Session { phase: Phase::Confirming, ..self }, state)
            },
            (Phase::Confirming, Ok(_)) => SessionStep::HandleConnections(
                Session { phase: Phase::Monitoring, ..self },
            ),
            (Phase::Monitoring, Err(_)) => {
                let state = SessionState::connecting(self.token.clone());
                SessionStep::Publish(Session { phase: Phase::Recovering, ..self }, state)
            },
            (Phase::Recovering, Ok(_)) => SessionStep::Reconnect(
                Session { phase: Phase::Reconnecting, ..self },
            ),
            (Phase::Confirming, Err(error)) | (Phase::Recovering, Err(error)) => self.fail(
                error,
            ).disconnect(),
            _ => self.disconnect(),
        }
    }

    /// Remembers that a state could not be published, unless one could not before.
    fn fail(self, error: ForwarderError) -> (session: Session)
        ensures
            session == self.failed(error),
    {
        match self.failure {
            Some(_) => self,
            None => Session { failure: Some(error), ..self },
        }
    }

    /// Ends the session: what is left is to publish `Disconnected`.
    fn disconnect(self) -> (step: SessionStep)
        ensures
            step == self.finalize(),
    {
        let state = SessionState::disconnected(self.token.clone());
        SessionStep::Publish(Session { phase: Phase::Finalizing, ..self }, state)
    }
}

impl SessionStep {
    /// The step that follows this one when it ended in `outcome`. Nothing follows the end
    /// of a session.
    pub open spec fn after(self, outcome: Outcome) -> SessionStep {
        match self {
            SessionStep::Publish(session, _) => session.next(outcome),
            SessionStep::Connect(session, _, _) => session.next(outcome),
            SessionStep::HandleConnections(session) => session.next(outcome),
            SessionStep::Reconnect(session) => session.next(outcome),
            SessionStep::Finish(_) => self,
        }
    }

    /// The step that is reached from this one when the steps end, one after the other, in
    /// `outcomes`.
    pub open spec fn run(self, outcomes: Seq<Outcome>) -> SessionStep
        decreases outcomes.len(),
    {
        if outcomes.len() == 0 {
            self
        } else {
            self.after(outcomes[0]).run(outcomes.drop_first())
        }
    }

    /// The states that this step asks to publish: one or none.
    pub open spec fn asked(self) -> Seq<SessionState> {
        match self {
            SessionStep::Publish(_, state) => seq![state],
            _ => seq![],
        }
    }

    /// The states that are asked to be published, in order, from this step on through the
    /// steps that follow on `outcomes`.
    pub open spec fn published(self, outcomes: Seq<Outcome>) -> Seq<SessionState>
        decreases outcomes.len(),
    {
        if outcomes.len() == 0 {
            self.asked()
        } else {
            self.asked() + self.after(outcomes[0]).published(outcomes.drop_first())
        }
    }

    /// The first failure to publish a state from this step on, if there is one.
    pub open spec fn publish_failure(self, outcomes: Seq<Outcome>) -> Option<ForwarderError>
        decreases outcomes.len(),
    {
        if outcomes.len() == 0 {
            None
        } else if self is Publish && outcomes[0] is Err {
            Some(outcomes[0]->Err_0)
        } else {
            self.after(outcomes[0]).publish_failure(outcomes.drop_first())
        }
    }

    /// What is stored after the steps from this one on, if `properties` were stored before
    /// them: each state that was asked to be published, and was, is stored or cleared.
    pub open spec fn properties_after(self, outcomes: Seq<Outcome>, properties: Properties)
        -> Properties
        decreases outcomes.len(),
    {
        if outcomes.len() == 0 {
            properties
        } else {
            self.after(outcomes[0]).properties_after(
                outcomes.drop_first(),
                match (self, outcomes[0]) {
                    (SessionStep::Publish(_, state), Ok(_)) => publish(
                        properties,
                        publication_of(state.token@, state.status),
                    ),
                    _ => properties,
                },
            )
        }
    }

    /// Whether the step is one that a session started by [`Session::start`] comes to: it
    /// asks what the session is waiting for, and a failure is held only at the end.
    pub open spec fn coherent(self, token: String) -> bool {
        match self {
            SessionStep::Publish(session, state) => {
                &&& session.token == token
                &&& state.token == token
                &&& state.status == match session.phase {
                    Phase::Confirming => SessionStatus::Connected,
                    Phase::Finalizing => SessionStatus::Disconnected,
                    _ => SessionStatus::Connecting,
                }
                &&& (session.phase == Phase::Announcing || session.phase == Phase::Confirming
                    || session.phase == Phase::Recovering || session.phase == Phase::Finalizing)
                &&& (session.failure is Some ==> session.phase == Phase::Finalizing)
            },
            SessionStep::Connect(session, url, secure) => {
                &&& session.token == token
                &&& session.phase == Phase::Connecting
                &&& session.failure is None
                &&& url == session.url
                &&& secure == session.secure
            },
            SessionStep::HandleConnections(session) => {
                &&& session.token == token
                &&& session.phase == Phase::Monitoring
                &&& session.failure is None
            },
            SessionStep::Reconnect(session) => {
                &&& session.token == token
                &&& session.phase == Phase::Reconnecting
                &&& session.failure is None
            },
            SessionStep::Finish(_) => true,
        }
    }

    /// The failure that the session of this step holds.
    pub open spec fn held_failure(self) -> Option<ForwarderError> {
        match self {
            SessionStep::Publish(session, _) => session.failure,
            SessionStep::Connect(session, _, _) => session.failure,
            SessionStep::HandleConnections(session) => session.failure,
            SessionStep::Reconnect(session) => session.failure,
            SessionStep::Finish(_) => None,
        }
    }

    /// The living status that is published next from this step on, if one is.
    pub open spec fn awaited(self) -> SessionStatus {
        match self {
            SessionStep::Publish(_, state) => state.status,
            SessionStep::HandleConnections(_) => SessionStatus::Connecting,
            _ => SessionStatus::Connected,
        }
    }

    /// Whether all that is left is to publish `Disconnected` and to end.
    pub open spec fn ending(self) -> bool {
        match self {
            SessionStep::Publish(session, _) => session.phase == Phase::Finalizing,
            SessionStep::Finish(_) => true,
            _ => false,
        }
    }
}

/// The status at place `index` of a row that starts with `first` and then takes the two
/// living statuses in turn.
pub open spec fn in_turn(first: SessionStatus, index: int) -> SessionStatus {
    if index % 2 == 0 {
        first
    } else if first == SessionStatus::Connecting {
        SessionStatus::Connected
    } else {
        SessionStatus::Connecting
    }
}

/// Whether `states` is what one session may publish: states of the session `token` that
/// start with `first` and take the two living statuses in turn, and `Disconnected` at the
/// end or nowhere.
pub open spec fn well_ordered(states: Seq<SessionState>, token: String, first: SessionStatus)
    -> bool {
    forall|i: int|
        0 <= i < states.len() ==> {
            &&& (#[trigger] states[i]).token == token
            &&& states[i].status == SessionStatus::Disconnected ==> i == states.len() - 1
            &&& states[i].status != SessionStatus::Disconnected ==> states[i].status == in_turn(
                first,
                i,
            )
        }
}

/// Every step of a session leads to a step of that session.
pub proof fn lemma_steps_stay_coherent(step: SessionStep, token: String, outcome: Outcome)
    requires
        step.coherent(token),
    ensures
        step.after(outcome).coherent(token),
        step.ending() ==> step.after(outcome) is Finish,
        !step.ending() && !step.after(outcome).ending() ==> step.after(outcome).awaited()
            == in_turn(step.awaited(), step.asked().len() as int),
{
}

/// From any step of a session on, the states are published in order.
pub proof fn lemma_published_in_order(step: SessionStep, token: String, outcomes: Seq<Outcome>)
    requires
        step.coherent(token),
    ensures
        step.ending() ==> step.published(outcomes) == step.asked(),
        well_ordered(step.published(outcomes), token, step.awaited()),
    decreases outcomes.len(),
{
    if outcomes.len() > 0 {
        let next = step.after(outcomes[0]);
        let rest = next.published(outcomes.drop_first());
        lemma_steps_stay_coherent(step, token, outcomes[0]);
        lemma_published_in_order(next, token, outcomes.drop_first());
        let states = step.published(outcomes);
        assert(states == step.asked() + rest);
        let shift = step.asked().len() as int;
        assert forall|i: int| 0 <= i < states.len() implies {
            &&& (#[trigger] states[i]).token == token
            &&& states[i].status == SessionStatus::Disconnected ==> i == states.len() - 1
            &&& states[i].status != SessionStatus::Disconnected ==> states[i].status == in_turn(
                step.awaited(),
                i,
            )
        } by {
            if i >= shift {
                assert(states[i] == rest[i - shift]);
            }
        }
    }
}

/// State ordering: whatever the outcomes of its steps, a session publishes `Connecting`,
/// `Connected`, `Connecting`, `Connected` and so on, each for its own token, and
/// `Disconnected` only as the last state of all.
pub proof fn lemma_state_ordering(token: String, url: String, secure: bool, outcomes: Seq<Outcome>)
    ensures
        well_ordered(
            Session::first_step(token, url, secure).published(outcomes),
            token,
            SessionStatus::Connecting,
        ),
        Session::first_step(token, url, secure).published(outcomes).len() >= 1,
        Session::first_step(token, url, secure).published(outcomes)[0] == (SessionState {
            token,
            status: SessionStatus::Connecting,
        }),
{
    lemma_published_in_order(Session::first_step(token, url, secure), token, outcomes);
}

/// From any step of a session on, the session ends only after `Disconnected` was published.
pub proof fn lemma_ends_after_disconnected(step: SessionStep, token: String, outcomes: Seq<Outcome>)
    requires
        step.coherent(token),
        !(step is Finish),
        step.run(outcomes) is Finish,
    ensures
        step.published(outcomes).len() >= 1,
        step.published(outcomes).last() == (SessionState {
            token,
            status: SessionStatus::Disconnected,
        }),
    decreases outcomes.len(),
{
    let next = step.after(outcomes[0]);
    lemma_steps_stay_coherent(step, token, outcomes[0]);
    lemma_published_in_order(next, token, outcomes.drop_first());
    if !(next is Finish) {
        lemma_ends_after_disconnected(next, token, outcomes.drop_first());
    }
}

/// Finalize always runs: a session that has ended, whatever the outcomes of its steps were
/// and so too when the connection could not be opened, has published `Disconnected`, as
/// the last of its states and only once.
pub proof fn lemma_finalize_always_runs(
    token: String,
    url: String,
    secure: bool,
    outcomes: Seq<Outcome>,
)
    requires
        Session::first_step(token, url, secure).run(outcomes) is Finish,
    ensures
        ({
            let states = Session::first_step(token, url, secure).published(outcomes);
            &&& states.len() >= 2
            &&& states.last() == (SessionState { token, status: SessionStatus::Disconnected })
            &&& forall|i: int|
                0 <= i < states.len() - 1 ==> (#[trigger] states[i]).status
                    != SessionStatus::Disconnected
        }),
{
    let first = Session::first_step(token, url, secure);
    lemma_ends_after_disconnected(first, token, outcomes);
    lemma_published_in_order(first, token, outcomes);
}

/// From any step of a session on, the session ends with the failure that it holds, else
/// with the first failure to publish a state, else well.
pub proof fn lemma_result_from(step: SessionStep, token: String, outcomes: Seq<Outcome>)
    requires
        step.coherent(token),
        !(step is Finish),
        step.run(outcomes) is Finish,
    ensures
        step.run(outcomes) == SessionStep::Finish(
            match step.held_failure() {
                Some(error) => Err(error),
                None => match step.publish_failure(outcomes) {
                    Some(error) => Err(error),
                    None => Ok(()),
                },
            },
        ),
    decreases outcomes.len(),
{
    let next = step.after(outcomes[0]);
    lemma_steps_stay_coherent(step, token, outcomes[0]);
    if next is Finish {
        lemma_finished_stays(next, outcomes.drop_first());
    } else {
        lemma_result_from(next, token, outcomes.drop_first());
    }
}

/// Nothing follows the end of a session.
pub proof fn lemma_finished_stays(step: SessionStep, outcomes: Seq<Outcome>)
    requires
        step is Finish,
    ensures
        step.run(outcomes) == step,
        step.publish_failure(outcomes) is None,
        step.published(outcomes).len() == 0,
    decreases outcomes.len(),
{
    if outcomes.len() > 0 {
        lemma_finished_stays(step, outcomes.drop_first());
    }
}

/// A failure to publish ends the session and is its result: a session ends with the
/// first failure to publish one of its states, and ends well when every state was
/// published, whether or not the connection could be opened and kept.
pub proof fn lemma_publish_failure_is_the_result(
    token: String,
    url: String,
    secure: bool,
    outcomes: Seq<Outcome>,
)
    requires
        Session::first_step(token, url, secure).run(outcomes) is Finish,
    ensures
        Session::first_step(token, url, secure).run(outcomes) == SessionStep::Finish(
            match Session::first_step(token, url, secure).publish_failure(outcomes) {
                Some(error) => Err(error),
                None => Ok(()),
            },
        ),
{
    lemma_result_from(Session::first_step(token, url, secure), token, outcomes);
}

/// From any step of a session on, the session leaves what is stored for another session.
pub proof fn lemma_leaves_other_sessions(
    step: SessionStep,
    token: String,
    outcomes: Seq<Outcome>,
    properties: Properties,
    other: Seq<char>,
)
    requires
        step.coherent(token),
        other != token@,
    ensures
        stored_status(step.properties_after(outcomes, properties), other) == stored_status(
            properties,
            other,
        ),
    decreases outcomes.len(),
{
    if outcomes.len() > 0 {
        lemma_steps_stay_coherent(step, token, outcomes[0]);
        if status_path(other) == status_path(token@) {
            lemma_status_path_tells_token(other, token@);
        }
        match (step, outcomes[0]) {
            (SessionStep::Publish(_, state), Ok(_)) => {
                lemma_leaves_other_sessions(
                    step.after(outcomes[0]),
                    token,
                    outcomes.drop_first(),
                    publish(properties, publication_of(state.token@, state.status)),
                    other,
                );
            },
            _ => {
                lemma_leaves_other_sessions(
                    step.after(outcomes[0]),
                    token,
                    outcomes.drop_first(),
                    properties,
                    other,
                );
            },
        }
    }
}

/// From any step of a session on, a session that ends well leaves no status stored for its
/// token.
pub proof fn lemma_absent_from(
    step: SessionStep,
    token: String,
    outcomes: Seq<Outcome>,
    properties: Properties,
)
    requires
        step.coherent(token),
        !(step is Finish),
        step.run(outcomes) == SessionStep::Finish(Ok(())),
    ensures
        stored_status(step.properties_after(outcomes, properties), token@) is None,
    decreases outcomes.len(),
{
    let next = step.after(outcomes[0]);
    let stored = match (step, outcomes[0]) {
        (SessionStep::Publish(_, state), Ok(_)) => publish(
            properties,
            publication_of(state.token@, state.status),
        ),
        _ => properties,
    };
    lemma_steps_stay_coherent(step, token, outcomes[0]);
    if next is Finish {
        lemma_finished_stays(next, outcomes.drop_first());
        lemma_finished_keeps_properties(next, outcomes.drop_first(), stored);
    } else {
        lemma_absent_from(next, token, outcomes.drop_first(), stored);
    }
}

/// Nothing is published after the end of a session.
pub proof fn lemma_finished_keeps_properties(
    step: SessionStep,
    outcomes: Seq<Outcome>,
    properties: Properties,
)
    requires
        step is Finish,
    ensures
        step.properties_after(outcomes, properties) == properties,
    decreases outcomes.len(),
{
    if outcomes.len() > 0 {
        lemma_finished_keeps_properties(step, outcomes.drop_first(), properties);
    }
}

/// Disconnected is absence: once a session has ended well, an observer finds no status
/// stored for its token, whatever was stored when it began and however often the
/// connection was lost. What is stored for other sessions is as it was.
pub proof fn lemma_ended_session_is_absent(
    token: String,
    url: String,
    secure: bool,
    outcomes: Seq<Outcome>,
    properties: Properties,
)
    requires
        Session::first_step(token, url, secure).run(outcomes) == SessionStep::Finish(Ok(())),
    ensures
        stored_status(
            Session::first_step(token, url, secure).properties_after(outcomes, properties),
            token@,
        ) is None,
        forall|other: Seq<char>|
            other != token@ ==> #[trigger] stored_status(
                Session::first_step(token, url, secure).properties_after(outcomes, properties),
                other,
            ) == stored_status(properties, other),
{
    let first = Session::first_step(token, url, secure);
    lemma_absent_from(first, token, outcomes, properties);
    assert forall|other: Seq<char>| other != token@ implies #[trigger] stored_status(
        first.properties_after(outcomes, properties),
        other,
    ) == stored_status(properties, other) by {
        lemma_leaves_other_sessions(first, token, outcomes, properties, other);
    }
}

} // verus!
