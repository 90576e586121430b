//! Evaluation from start to finish, with a host that does the outside work.
use vstd::prelude::*;
use crate::forms::expand_form;
use crate::machine::{conts, HostRequest, Machine, State};
use crate::semantics::{answered, step};
use crate::special::expand_once;
use crate::step::Rest;
use crate::text::owned;
use crate::value::{result_form, Env, ErrorKind, EvalError, Fault, Form, Scope, Value};

verus! {

/// The outside world of an evaluation: output, files, the clock, and the
/// floating-point arithmetic that is not arithmetic on whole numbers. The machine stops on a request; the host's answer is
/// the value that the request evaluates to, or its failure. Nothing is
/// assumed of an answer.
pub trait Host {
    fn answer(&mut self, request: &HostRequest) -> Result<Value, EvalError>;
}

/// One move of a driven evaluation.
pub ghost enum Event {
    /// The machine took a step.
    Step,
    /// The host answered the request in focus.
    Answer(Result<Form, Fault>),
}

/// The state after one event. An answer moves a waiting state only.
pub open spec fn after(s: State, e: Event) -> State {
    match e {
        Event::Step => step(s),
        Event::Answer(a) => if s.waiting() {
            answered(s, a)
        } else {
            s
        },
    }
}

/// The state after the events in order.
pub open spec fn replay(s: State, events: Seq<Event>) -> State
    decreases events.len(),
{
    if events.len() == 0 {
        s
    } else {
        after(replay(s, events.drop_last()), events.last())
    }
}

/// Whether each of the events is the one that is due: an answer where the
/// evaluation waits, a step where it does not.
pub open spec fn proper(s: State, events: Seq<Event>) -> bool {
    forall|j: int|
        0 <= j < events.len() ==> ((#[trigger] events[j]) is Answer) == replay(
            s,
            events.take(j),
        ).waiting()
}

/// The most moves that a driven evaluation makes.
pub const MAX_MOVES: u64 = u64::MAX;

/// The failure of an evaluation that did not finish within [`MAX_MOVES`].
pub open spec fn unfinished() -> Fault {
    Fault { kind: ErrorKind::RecursionLimit, message: "Evaluation did not finish"@ }
}

/// What a driven evaluation that ended in `t` after `moves` moves gives.
pub open spec fn verdict(t: State, moves: nat, r: Result<Form, Fault>) -> bool {
    if t.finished() {
        r == t.outcome()
    } else {
        moves == MAX_MOVES && r == Err::<Form, Fault>(unfinished())
    }
}

/// Whether an evaluation that starts in `s` may give `r` and leave `env`:
/// some course of events, each of them due, ends in a state with that
/// environment, and `r` is its outcome if it is finished, or the failure
/// to finish after [`MAX_MOVES`] events.
pub open spec fn evaluates(s: State, r: Result<Form, Fault>, env: Scope) -> bool {
    exists|events: Seq<Event>|
        {
            let t = #[trigger] replay(s, events);
            proper(s, events) && env == t.env && verdict(t, events.len(), r)
        }
}

/// Moves `m` until it is finished, answering its requests through `host`.
pub fn drive<H: Host>(m: Machine, host: &mut H) -> (r: (Result<Value, EvalError>, Env))
    ensures
        evaluates(m@, result_form(r.0), r.1@),
{
    let ghost start = m@;
    let mut m = m;
    let mut moves: u64 = 0;
    let ghost mut events: Seq<Event> = Seq::empty();
    while !m.is_finished() && moves < MAX_MOVES
        invariant
            m@ == replay(start, events),
            events.len() == moves,
            proper(start, events),
        decreases MAX_MOVES - moves,
    {
        let answer = match m.request() {
            Some(request) => Some(host.answer(request)),
            None => None,
        };
        let ghost before = events;
        match answer {
            Some(a) => {
                proof {
                    events = events.push(Event::Answer(result_form(a)));
                }
                m = m.answer(a);
            },
            None => {
                proof {
                    events = events.push(Event::Step);
                }
                m = m.step();
            },
        }
        assert(events.drop_last() =~= before);
        assert forall|j: int| 0 <= j < events.len() implies ((#[trigger] events[j]) is Answer)
            == replay(start, events.take(j)).waiting() by {
            if j < before.len() {
                assert(events.take(j) =~= before.take(j));
                assert(events[j] == before[j]);
            } else {
                assert(events.take(j) =~= before);
            }
        }
        moves += 1;
    }
    let ghost last = replay(start, events);
    if m.is_finished() {
        m.finish()
    } else {
        let Machine { env, .. } = m;
        (
            Err(
                EvalError {
                    kind: ErrorKind::RecursionLimit,
                    message: owned("Evaluation did not finish"),
                },
            ),
            env,
        )
    }
}

/// Evaluates `expr` in `env`.
///
/// The result and the environment afterwards are those of the machine
/// started on `expr` in `env` and moved to its end, a step at a time and,
/// where it waits, by the answer of `host`. An evaluation that calls on the
/// host for nothing is a run of steps alone.
pub fn eval<H: Host>(expr: &Value, env: &mut Env, host: &mut H) -> (r: Result<Value, EvalError>)
    ensures
        evaluates(State::start(expr@, old(env)@), result_form(r), final(env)@),
{
    let mut taken = Env::new();
    core::mem::swap(env, &mut taken);
    let m = Machine::start(expr.clone(), taken);
    let (r, after) = drive(m, host);
    *env = after;
    r
}

/// Expands `expr` once, without evaluating the expansion: where its head is
/// a symbol that names a macro, the result is the macro's body with the
/// arguments in the place of the parameters; else it is `expr` itself.
pub fn macroexpand<H: Host>(expr: &Value, env: &Env, host: &mut H) -> (r: Result<
    Value,
    EvalError,
>)
    ensures
        exists|after: Scope|
            evaluates(expand_once(State::start(expr@, env@), expr@), result_form(r), after),
{
    let stack: Vec<crate::machine::Frame> = Vec::new();
    assert(conts(stack@) =~= Seq::empty());
    let rest = Rest { env: env.clone(), stack, depth: 0 };
    let m = expand_form(rest, expr.clone(), Ghost(State::start(expr@, env@)));
    let (r, after) = drive(m, host);
    assert(evaluates(expand_once(State::start(expr@, env@), expr@), result_form(r), after@));
    r
}

} // verus!
