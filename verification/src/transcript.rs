//! Transcripts: what the runs of a procedure look like from outside.

use vstd::prelude::*;

use crate::call::{CallSpec, ReplySpec};
use crate::protocol::{Protocol, Step, Suspended};

verus! {

broadcast use crate::protocol::lemma_and_then;

/// A call and the reply it got.
pub struct Exchange {
    pub call: CallSpec,
    pub reply: ReplySpec,
}

impl<T> Protocol<T> {
    /// The calls of `transcript` are the ones that are made when each gets its
    /// reply there, and what is left to do after them is `end`.
    pub open spec fn leads_to(self, transcript: Seq<Exchange>, end: Protocol<T>) -> bool
        decreases transcript.len(),
    {
        if transcript.len() == 0 {
            self == end
        } else {
            &&& self is Call
            &&& self.call() == transcript[0].call
            &&& self.after(transcript[0].reply).leads_to(transcript.drop_first(), end)
        }
    }

    /// The run that `transcript` shows ends by returning `value`.
    pub open spec fn completes(self, transcript: Seq<Exchange>, value: T) -> bool {
        self.leads_to(transcript, Protocol::Return(value))
    }

    /// The run that `transcript` shows ends by failing with `message`.
    pub open spec fn aborts(self, transcript: Seq<Exchange>, message: Seq<char>) -> bool {
        self.leads_to(transcript, Protocol::Fail(message))
    }

    /// Whatever the replies are, every call that is made is an allowed one.
    pub open spec fn only_calls(self, allowed: spec_fn(CallSpec) -> bool) -> bool
        decreases self,
    {
        match self {
            Protocol::Call(call, rest) => {
                &&& allowed(call)
                &&& forall|reply: ReplySpec| (#[trigger] rest(reply)).only_calls(allowed)
            },
            _ => true,
        }
    }
}

impl<'a, S: Suspended> Step<'a, S> {
    /// The run that goes on from this step with the exchanges of `transcript`
    /// comes to this end.
    pub open spec fn ends(
        self,
        transcript: Seq<Exchange>,
        end: Protocol<<S::Output as DeepView>::V>,
    ) -> bool {
        match self {
            Step::Call(call, task) => {
                &&& transcript.len() > 0
                &&& transcript[0].call == call@
                &&& task.after(transcript[0].reply).leads_to(transcript.drop_first(), end)
            },
            Step::Return(value) => {
                &&& transcript.len() == 0
                &&& end == Protocol::Return(value.deep_view())
            },
            Step::Fail(message) => {
                &&& transcript.len() == 0
                &&& end == Protocol::<<S::Output as DeepView>::V>::Fail(message@)
            },
        }
    }

    /// The run that goes on from this step ends by returning `value`.
    pub open spec fn completes(
        self,
        transcript: Seq<Exchange>,
        value: <S::Output as DeepView>::V,
    ) -> bool {
        self.ends(transcript, Protocol::Return(value))
    }

    /// The run that goes on from this step ends by failing with `message`.
    pub open spec fn aborts(self, transcript: Seq<Exchange>, message: Seq<char>) -> bool {
        self.ends(transcript, Protocol::Fail(message))
    }
}

/// The runs of a step are those of the protocol that it follows.
pub proof fn lemma_runs<'a, S: Suspended>(
    step: Step<'a, S>,
    protocol: Protocol<<S::Output as DeepView>::V>,
)
    requires
        step.follows(protocol),
    ensures
        forall|transcript: Seq<Exchange>, value: <S::Output as DeepView>::V| #[trigger]
            step.completes(transcript, value) ==> protocol.completes(transcript, value),
        forall|transcript: Seq<Exchange>, message: Seq<char>| #[trigger]
            step.aborts(transcript, message) ==> protocol.aborts(transcript, message),
{
}

/// Two protocols that the same step follows have the same runs: a step leaves
/// nothing open.
pub proof fn law_steps_leave_nothing_open<'a, S: Suspended>(
    step: Step<'a, S>,
    one: Protocol<<S::Output as DeepView>::V>,
    two: Protocol<<S::Output as DeepView>::V>,
    transcript: Seq<Exchange>,
    end: Protocol<<S::Output as DeepView>::V>,
)
    requires
        step.follows(one),
        step.follows(two),
        end !is Call,
    ensures
        one.leads_to(transcript, end) <==> two.leads_to(transcript, end),
        one.leads_to(transcript, end) <==> step.ends(transcript, end),
{
}

/// Each call of `transcript` got the reply that `plugin` gives to it after the
/// exchanges of `before` and those that precede it.
pub open spec fn answered_by(
    transcript: Seq<Exchange>,
    before: Seq<Exchange>,
    plugin: spec_fn(Seq<Exchange>, CallSpec) -> ReplySpec,
) -> bool
    decreases transcript.len(),
{
    transcript.len() == 0 || {
        &&& transcript[0].reply == plugin(before, transcript[0].call)
        &&& answered_by(transcript.drop_first(), before.push(transcript[0]), plugin)
    }
}

/// Every procedure comes to its end, by returning or by failing, however a
/// plugin answers, as long as it answers each call.
pub proof fn law_every_run_ends<T>(
    protocol: Protocol<T>,
    before: Seq<Exchange>,
    plugin: spec_fn(Seq<Exchange>, CallSpec) -> ReplySpec,
) -> (run: (Seq<Exchange>, Protocol<T>))
    ensures
        protocol.leads_to(run.0, run.1),
        run.1 !is Call,
        answered_by(run.0, before, plugin),
    decreases protocol,
{
    match protocol {
        Protocol::Call(call, rest) => {
            let reply = plugin(before, call);
            let exchange = Exchange { call, reply };
            let (tail, end) = law_every_run_ends(rest(reply), before.push(exchange), plugin);
            let transcript = seq![exchange] + tail;
            assert(transcript.drop_first() =~= tail);
            (transcript, end)
        },
        _ => (Seq::empty(), protocol),
    }
}

/// A run of a procedure that is at its end makes no call.
pub proof fn lemma_ended<T>(protocol: Protocol<T>, transcript: Seq<Exchange>, end: Protocol<T>)
    requires
        protocol.leads_to(transcript, end),
        protocol !is Call,
    ensures
        transcript.len() == 0,
        end == protocol,
{
}

/// A run of a procedure that is at a call stays there, or makes the call and
/// goes on after it.
pub proof fn lemma_called<T>(protocol: Protocol<T>, transcript: Seq<Exchange>, end: Protocol<T>)
    requires
        protocol.leads_to(transcript, end),
        protocol is Call,
    ensures
        transcript.len() == 0 ==> end == protocol,
        transcript.len() > 0 ==> {
            &&& transcript[0].call == protocol.call()
            &&& protocol.after(transcript[0].reply).leads_to(transcript.drop_first(), end)
        },
{
}

/// A run of two procedures in sequence is a run of the first, or a complete
/// run of the first and a run of the second on what the first returned.
pub proof fn lemma_split<T, U>(
    first: Protocol<T>,
    next: spec_fn(T) -> Protocol<U>,
    transcript: Seq<Exchange>,
    end: Protocol<U>,
) -> (split: Option<(int, T)>)
    requires
        first.and_then(next).leads_to(transcript, end),
    ensures
        match split {
            Some((at, value)) => {
                &&& 0 <= at <= transcript.len()
                &&& first.completes(transcript.take(at), value)
                &&& next(value).leads_to(transcript.skip(at), end)
            },
            None => exists|rest: Protocol<T>|
                {
                    &&& rest !is Return
                    &&& #[trigger] first.leads_to(transcript, rest)
                    &&& end == rest.and_then(next)
                },
        },
    decreases transcript.len(),
{
    match first {
        Protocol::Return(value) => {
            assert(transcript.take(0).len() == 0);
            assert(transcript.skip(0) =~= transcript);
            Some((0, value))
        },
        Protocol::Fail(message) => {
            assert(first.leads_to(transcript, first));
            None
        },
        Protocol::Call(call, rest) => {
            if transcript.len() == 0 {
                assert(first.leads_to(transcript, first));
                None
            } else {
                let reply = transcript[0].reply;
                let tail = transcript.drop_first();
                match lemma_split(first.after(reply), next, tail, end) {
                    Some((at, value)) => {
                        assert(transcript.take(at + 1).drop_first() =~= tail.take(at));
                        assert(transcript.skip(at + 1) =~= tail.skip(at));
                        Some((at + 1, value))
                    },
                    None => {
                        let left = choose|left: Protocol<T>|
                            {
                                &&& left !is Return
                                &&& #[trigger] first.after(reply).leads_to(tail, left)
                                &&& end == left.and_then(next)
                            };
                        assert(first.leads_to(transcript, left));
                        None
                    },
                }
            }
        },
    }
}

/// A complete run of the first procedure and a run of the second on what the
/// first returned make a run of both in sequence.
pub proof fn lemma_join<T, U>(
    first: Protocol<T>,
    next: spec_fn(T) -> Protocol<U>,
    head: Seq<Exchange>,
    value: T,
    tail: Seq<Exchange>,
    end: Protocol<U>,
)
    requires
        first.completes(head, value),
        next(value).leads_to(tail, end),
    ensures
        first.and_then(next).leads_to(head + tail, end),
    decreases head.len(),
{
    if head.len() == 0 {
        assert(head + tail =~= tail);
    } else {
        let reply = head[0].reply;
        lemma_join(first.after(reply), next, head.drop_first(), value, tail, end);
        assert((head + tail).drop_first() =~= head.drop_first() + tail);
        assert((head + tail)[0] == head[0]);
    }
}

/// Two procedures in sequence make only the calls that both make.
pub proof fn lemma_only_calls<T, U>(
    first: Protocol<T>,
    next: spec_fn(T) -> Protocol<U>,
    allowed: spec_fn(CallSpec) -> bool,
)
    requires
        first.only_calls(allowed),
        forall|value: T| (#[trigger] next(value)).only_calls(allowed),
    ensures
        first.and_then(next).only_calls(allowed),
    decreases first,
{
    if let Protocol::Call(call, rest) = first {
        let both = first.and_then(next);
        assert forall|reply: ReplySpec| (#[trigger] (both->Call_1)(reply)).only_calls(
            allowed,
        ) by {
            assert(both.after(reply) == first.after(reply).and_then(next));
            lemma_only_calls(rest(reply), next, allowed);
        }
    }
}

} // verus!
