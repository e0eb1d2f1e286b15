use vstd::prelude::*;

verus! {

/// How far an instance has come in finding out whether it is the only one.
#[derive(Debug, Clone, Copy, PartialEq, Eq, Structural)]
pub enum Phase {
    /// Trying to reach another instance.
    Connecting,
    /// Trying to listen on the socket.
    Binding,
    /// The only instance, which listens for others.
    Listening,
    /// The only instance, which others cannot reach.
    Unreachable,
    /// One instance more: it is to quit.
    Secondary,
}

/// What came of the last step.
#[derive(Debug, Clone, Copy, PartialEq, Eq, Structural)]
pub enum Outcome {
    /// Another instance answered.
    Connected,
    /// No other instance answered.
    NotConnected,
    /// The socket could be bound.
    Bound,
    /// The socket could not be bound.
    NotBound,
    /// Another instance has called, and the window could be told or is gone.
    Called { delivered: bool },
    /// Listening has failed.
    ListenFailed,
}

/// What to do next.
#[derive(Debug, Clone, Copy, PartialEq, Eq, Structural)]
pub enum Step {
    /// Ask the other instance to come to the front, and quit.
    RequestFocus,
    /// Remove what is left of an old socket, and bind a new one.
    RemoveSocketAndBind,
    /// Wait for calls, and run.
    StartListening,
    /// Say that others cannot reach this instance, and run.
    ReportUnbound,
    /// Wait for the next call.
    Listen,
    /// Wait for no more calls.
    StopListening,
    /// Nothing: the outcome does not belong to the phase.
    Nothing,
}

/// The phase after an outcome.
pub open spec fn next_phase(phase: Phase, outcome: Outcome) -> Phase {
    match (phase, outcome) {
        (Phase::Connecting, Outcome::Connected) => Phase::Secondary,
        (Phase::Connecting, Outcome::NotConnected) => Phase::Binding,
        (Phase::Binding, Outcome::Bound) => Phase::Listening,
        (Phase::Binding, Outcome::NotBound) => Phase::Unreachable,
        (Phase::Listening, Outcome::Called { delivered: false }) => Phase::Unreachable,
        (Phase::Listening, Outcome::ListenFailed) => Phase::Unreachable,
        _ => phase,
    }
}

/// What to do after an outcome.
pub open spec fn next_step(phase: Phase, outcome: Outcome) -> Step {
    match (phase, outcome) {
        (Phase::Connecting, Outcome::Connected) => Step::RequestFocus,
        (Phase::Connecting, Outcome::NotConnected) => Step::RemoveSocketAndBind,
        (Phase::Binding, Outcome::Bound) => Step::StartListening,
        (Phase::Binding, Outcome::NotBound) => Step::ReportUnbound,
        (Phase::Listening, Outcome::Called { delivered }) => if delivered {
            Step::Listen
        } else {
            Step::StopListening
        },
        (Phase::Listening, Outcome::ListenFailed) => Step::StopListening,
        _ => Step::Nothing,
    }
}

impl Phase {
    /// What an outcome means: the next phase, and what to do.
    pub fn advance(self, outcome: Outcome) -> (r: (Phase, Step))
        ensures
            r.0 == next_phase(self, outcome),
            r.1 == next_step(self, outcome),
    {
        match (self, outcome) {
            (Phase::Connecting, Outcome::Connected) => (Phase::Secondary, Step::RequestFocus),
            (Phase::Connecting, Outcome::NotConnected) => (
                Phase::Binding,
                Step::RemoveSocketAndBind,
            ),
            (Phase::Binding, Outcome::Bound) => (Phase::Listening, Step::StartListening),
            (Phase::Binding, Outcome::NotBound) => (Phase::Unreachable, Step::ReportUnbound),
            (Phase::Listening, Outcome::Called { delivered }) => if delivered {
                (Phase::Listening, Step::Listen)
            } else {
                (Phase::Unreachable, Step::StopListening)
            },
            (Phase::Listening, Outcome::ListenFailed) => (Phase::Unreachable, Step::StopListening),
            _ => (self, Step::Nothing),
        }
    }

    /// Whether this instance is to run as the primary one.
    pub fn is_primary(self) -> (r: bool)
        ensures
            r == primary(self),
    {
        match self {
            Phase::Listening | Phase::Unreachable => true,
            _ => false,
        }
    }
}

/// The phase after a run of outcomes.
pub open spec fn phase_after(phase: Phase, outcomes: Seq<Outcome>) -> Phase
    decreases outcomes.len(),
{
    if outcomes.len() == 0 {
        phase
    } else {
        phase_after(next_phase(phase, outcomes[0]), outcomes.drop_first())
    }
}

/// Whether an instance in this phase runs as the primary one.
pub open spec fn primary(phase: Phase) -> bool {
    phase == Phase::Listening || phase == Phase::Unreachable
}

/// An instance that reaches another one asks it to come to the front and is
/// never the primary one, whatever happens afterwards.
pub proof fn a_second_instance_does_not_run(later: Seq<Outcome>)
    ensures
        next_step(Phase::Connecting, Outcome::Connected) == Step::RequestFocus,
        phase_after(next_phase(Phase::Connecting, Outcome::Connected), later) == Phase::Secondary,
    decreases later.len(),
{
    if later.len() > 0 {
        a_second_instance_does_not_run(later.drop_first());
    }
}

proof fn lemma_primary_stays(phase: Phase, later: Seq<Outcome>)
    requires
        primary(phase),
    ensures
        primary(phase_after(phase, later)),
    decreases later.len(),
{
    if later.len() > 0 {
        lemma_primary_stays(next_phase(phase, later[0]), later.drop_first());
    }
}

/// An instance that reaches no other one is the primary one, whether or not it
/// can bind the socket, and stays it whatever happens afterwards.
pub proof fn a_first_instance_runs(bind: Outcome, later: Seq<Outcome>)
    requires
        bind == Outcome::Bound || bind == Outcome::NotBound,
    ensures
        primary(
            phase_after(
                next_phase(next_phase(Phase::Connecting, Outcome::NotConnected), bind),
                later,
            ),
        ),
{
    lemma_primary_stays(
        next_phase(next_phase(Phase::Connecting, Outcome::NotConnected), bind),
        later,
    );
}

/// An instance listens for others until the window is gone or listening fails.
pub proof fn calls_are_answered_while_the_window_is_there(calls: Seq<Outcome>)
    requires
        forall|i: int|
            0 <= i < calls.len() ==> #[trigger] calls[i] == (Outcome::Called { delivered: true }),
    ensures
        phase_after(Phase::Listening, calls) == Phase::Listening,
        next_step(Phase::Listening, Outcome::Called { delivered: true }) == Step::Listen,
    decreases calls.len(),
{
    if calls.len() > 0 {
        assert(calls[0] == (Outcome::Called { delivered: true }));
        calls_are_answered_while_the_window_is_there(calls.drop_first());
    }
}

/// An instance first tries to reach another one; where it does, it asks that one
/// to come to the front, and else it takes the socket over.
pub proof fn reaching_another_instance_decides(outcome: Outcome)
    ensures
        outcome is Connected ==> next_phase(Phase::Connecting, outcome) == Phase::Secondary
            && next_step(Phase::Connecting, outcome) == Step::RequestFocus,
        outcome is NotConnected ==> next_phase(Phase::Connecting, outcome) == Phase::Binding
            && next_step(Phase::Connecting, outcome) == Step::RemoveSocketAndBind,
{
}

/// An instance that takes the socket over listens on it where it can, and says
/// so where it cannot; it is the primary one either way.
pub proof fn taking_the_socket_over_never_stops_an_instance(outcome: Outcome)
    ensures
        outcome is Bound ==> next_phase(Phase::Binding, outcome) == Phase::Listening && next_step(
            Phase::Binding,
            outcome,
        ) == Step::StartListening,
        outcome is NotBound ==> next_phase(Phase::Binding, outcome) == Phase::Unreachable
            && next_step(Phase::Binding, outcome) == Step::ReportUnbound,
{
}

/// A listening instance stops where listening fails or the window is gone, and
/// goes on otherwise.
pub proof fn listening_ends_with_the_window(outcome: Outcome)
    ensures
        outcome is ListenFailed || outcome == (Outcome::Called { delivered: false })
            ==> next_phase(Phase::Listening, outcome) == Phase::Unreachable && next_step(
            Phase::Listening,
            outcome,
        ) == Step::StopListening,
        outcome == (Outcome::Called { delivered: true }) ==> next_phase(Phase::Listening, outcome)
            == Phase::Listening && next_step(Phase::Listening, outcome) == Step::Listen,
{
}

/// Whether an outcome can come in a phase.
pub open spec fn belongs(phase: Phase, outcome: Outcome) -> bool {
    match phase {
        Phase::Connecting => outcome is Connected || outcome is NotConnected,
        Phase::Binding => outcome is Bound || outcome is NotBound,
        Phase::Listening => outcome is Called || outcome is ListenFailed,
        Phase::Unreachable | Phase::Secondary => false,
    }
}

/// An outcome that does not belong to the phase changes nothing.
pub proof fn stray_outcomes_change_nothing(phase: Phase, outcome: Outcome)
    requires
        !belongs(phase, outcome),
    ensures
        next_phase(phase, outcome) == phase,
        next_step(phase, outcome) == Step::Nothing,
{
}

/// The instances that run are those that listen and those that cannot.
pub proof fn waiting_instances_are_not_primary(phase: Phase)
    ensures
        primary(phase) <==> phase !is Connecting && phase !is Binding && phase !is Secondary,
{
}

} // verus!
