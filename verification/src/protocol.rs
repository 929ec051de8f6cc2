//! Procedures that are suspended at each call they make.
//!
//! The plugin is driven by procedures that alternate calls with decisions.
//! Here a procedure never makes a call itself. It stops with a [`Step::Call`]
//! that names the call and holds the rest of the procedure as a [`Task`]; who
//! makes the call hands the reply to [`Task::resume`] and gets the next step.
//!
//! What a procedure does is stated as a [`Protocol`], the tree of all its
//! calls and decisions, and each step of a task is proved to follow it.

use vstd::prelude::*;

use crate::call::{Call, CallSpec, Reply, ReplySpec};

verus! {

/// What a procedure does from some point on: it returns, it fails with a
/// message, or it makes a call and goes on in a way that depends on the reply.
#[verifier::reject_recursive_types(T)]
pub enum Protocol<T> {
    Return(T),
    Fail(Seq<char>),
    Call(CallSpec, spec_fn(ReplySpec) -> Protocol<T>),
}

impl<T> Protocol<T> {
    /// Goes on with `next` on the value that is returned.
    pub open spec fn and_then<U>(self, next: spec_fn(T) -> Protocol<U>) -> Protocol<U>
        decreases self,
    {
        match self {
            Protocol::Return(value) => next(value),
            Protocol::Fail(message) => Protocol::Fail(message),
            Protocol::Call(call, rest) => Protocol::Call(
                call,
                |reply: ReplySpec| rest(reply).and_then(next),
            ),
        }
    }

    /// The call that is made next.
    pub open spec fn call(self) -> CallSpec
        recommends
            self is Call,
    {
        self->Call_0
    }

    /// What is done once the call that is made next got `reply`.
    pub open spec fn after(self, reply: ReplySpec) -> Protocol<T>
        recommends
            self is Call,
    {
        (self->Call_1)(reply)
    }
}

/// How sequencing acts on each of the three kinds of protocol. A proof about
/// the steps of a procedure has this in scope with `broadcast use`.
pub broadcast proof fn lemma_and_then<T, U>(
    protocol: Protocol<T>,
    next: spec_fn(T) -> Protocol<U>,
)
    ensures
        #![trigger protocol.and_then(next)]
        match protocol {
            Protocol::Return(value) => protocol.and_then(next) == next(value),
            Protocol::Fail(message) => protocol.and_then(next) == Protocol::<U>::Fail(message),
            Protocol::Call(call, _) => {
                &&& protocol.and_then(next) is Call
                &&& protocol.and_then(next).call() == call
            },
        },
        protocol is Call ==> forall|reply: ReplySpec| #[trigger]
            protocol.and_then(next).after(reply) == protocol.after(reply).and_then(next),
{
}

/// Where a procedure stands: at a call, with the rest of it, or at its end.
pub enum Step<'a, S: Suspended> {
    Call(Call<'a>, S),
    Return(S::Output),
    Fail(String),
}

/// The rest of a procedure that waits for the reply to a call.
pub trait Suspended: Sized {
    /// What the procedure returns.
    type Output: DeepView;

    /// What the procedure does once the call got `reply`.
    spec fn after(&self, reply: ReplySpec) -> Protocol<<Self::Output as DeepView>::V>;
}

/// A suspended procedure that can be resumed.
pub trait Task<'a>: Suspended {
    /// Goes on with the reply, up to the next call or the end.
    fn resume(self, reply: Reply) -> (step: Step<'a, Self>)
        ensures
            step.follows(self.after(reply@)),
    ;
}

impl<'a, S: Suspended> Step<'a, S> {
    /// The step is the first one of `protocol`, and what is suspended at it is
    /// the rest of `protocol`.
    pub open spec fn follows(self, protocol: Protocol<<S::Output as DeepView>::V>) -> bool {
        match self {
            Step::Call(call, task) => {
                &&& protocol is Call
                &&& protocol.call() == call@
                &&& forall|reply: ReplySpec| #[trigger]
                    task.after(reply) == protocol.after(reply)
            },
            Step::Return(value) => {
                &&& protocol is Return
                &&& protocol->Return_0 == value.deep_view()
            },
            Step::Fail(message) => {
                &&& protocol is Fail
                &&& protocol->Fail_0 == message@
            },
        }
    }
}

/// A procedure together with what it must not outlive. As long as the procedure
/// is under way it borrows this, so nothing of it can be given away to be
/// freed.
pub struct Held<S, R> {
    task: S,
    held: R,
}

/// Holds on to `held` until the procedure is at its end.
pub(crate) fn hold<'a, S: Suspended, R>(step: Step<'a, S>, held: R) -> (next: Step<'a, Held<S, R>>)
    ensures
        forall|protocol: Protocol<<S::Output as DeepView>::V>| #[trigger]
            step.follows(protocol) ==> next.follows(protocol),
{
    match step {
        Step::Call(call, task) => Step::Call(call, Held { task, held }),
        Step::Return(value) => Step::Return(value),
        Step::Fail(message) => Step::Fail(message),
    }
}

impl<S: Suspended, R> Suspended for Held<S, R> {
    type Output = S::Output;

    closed spec fn after(&self, reply: ReplySpec) -> Protocol<<S::Output as DeepView>::V> {
        self.task.after(reply)
    }
}

impl<'a, S: Task<'a>, R> Task<'a> for Held<S, R> {
    fn resume(self, reply: Reply) -> (step: Step<'a, Self>) {
        hold(self.task.resume(reply), self.held)
    }
}

} // verus!
