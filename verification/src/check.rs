//! Calls that must succeed, and what is done when one does not.

use vstd::prelude::*;
use vstd::string::StringExecFns;

use crate::call::{Call, CallSpec, Entry, EntrySpec, HostCall, HostCallSpec, Reply, ReplySpec};
use crate::protocol::{Protocol, Step, Suspended, Task};

verus! {

broadcast use crate::protocol::lemma_and_then;

/// The text of an error message: what its bytes encode, or a stand-in when
/// they are not UTF-8.
pub open spec fn message_text(message: Seq<u8>) -> Seq<char> {
    if vstd::utf8::valid_utf8(message) {
        vstd::utf8::decode_utf8(message)
    } else {
        "<non-utf8>"@
    }
}

/// What a procedure fails with when the entry point that `context` stands for
/// returned an error with this message.
pub open spec fn error_text(context: Seq<char>, message: Seq<u8>) -> Seq<char> {
    "PJRT error in "@ + context + ": "@ + message_text(message)
}

/// What is done with an error object: its message is read, it is destroyed,
/// and the procedure fails.
pub open spec fn raise<T>(api: usize, error: usize, context: Seq<char>) -> Protocol<T> {
    Protocol::Call(
        CallSpec::Plugin { api, entry: EntrySpec::ErrorMessage { error } },
        |described: ReplySpec|
            Protocol::Call(
                CallSpec::Plugin { api, entry: EntrySpec::ErrorDestroy { error } },
                |destroyed: ReplySpec| Protocol::Fail(error_text(context, described.bytes)),
            ),
    )
}

/// A call of an entry point that returns its reply if there was no error.
pub open spec fn checked(api: usize, entry: EntrySpec, context: Seq<char>) -> Protocol<ReplySpec> {
    Protocol::Call(
        CallSpec::Plugin { api, entry },
        |reply: ReplySpec|
            if reply.error == 0 {
                Protocol::Return(reply)
            } else {
                raise(api, reply.error, context)
            },
    )
}

/// The result is nothing, whatever came back.
pub open spec fn nothing_returned() -> spec_fn(ReplySpec) -> Protocol<()> {
    |reply: ReplySpec| Protocol::Return(())
}

/// A call of an entry point of which only the success matters.
pub open spec fn acknowledged(api: usize, entry: EntrySpec, context: Seq<char>) -> Protocol<()> {
    checked(api, entry, context).and_then(nothing_returned())
}

/// A host call that returns its reply if it succeeded, and fails with
/// `context` and the reason if it did not.
pub open spec fn expected(call: HostCallSpec, context: Seq<char>) -> Protocol<ReplySpec> {
    Protocol::Call(
        CallSpec::Host(call),
        |reply: ReplySpec|
            match reply.failure {
                None => Protocol::Return(reply),
                Some(reason) => Protocol::Fail(context + ": "@ + reason),
            },
    )
}

/// `std::str::from_utf8`: the text that the bytes encode if they are valid
/// UTF-8, and nothing if they are not.
#[verifier::external_body]
fn from_utf8(bytes: &[u8]) -> (text: Option<&str>)
    ensures
        text is Some <==> vstd::utf8::valid_utf8(bytes@),
        text matches Some(text) ==> text@ == vstd::utf8::decode_utf8(bytes@),
{
    std::str::from_utf8(bytes).ok()
}

/// What a procedure fails with; see [`error_text`].
fn describe(context: &'static str, message: &[u8]) -> (text: String)
    ensures
        text@ == error_text(context@, message@),
{
    let message = match from_utf8(message) {
        Some(text) => text,
        None => "<non-utf8>",
    };
    "PJRT error in ".to_owned().concat(context).concat(": ").concat(message)
}

/// A checked call of an entry point on its way; see [`checked`].
pub struct Checked {
    api: usize,
    context: &'static str,
    stage: Stage,
}

enum Stage {
    Called,
    Describing { error: usize },
    Destroying { text: String },
}

/// Calls an entry point and fails if it returns an error.
pub(crate) fn check<'a>(api: usize, entry: Entry<'a>, context: &'static str) -> (step: Step<
    'a,
    Checked,
>)
    ensures
        step.follows(checked(api, entry@, context@)),
{
    Step::Call(Call::Plugin { api, entry }, Checked { api, context, stage: Stage::Called })
}

impl Suspended for Checked {
    type Output = Reply;

    closed spec fn after(&self, reply: ReplySpec) -> Protocol<ReplySpec> {
        match self.stage {
            Stage::Called => if reply.error == 0 {
                Protocol::Return(reply)
            } else {
                raise(self.api, reply.error, self.context@)
            },
            Stage::Describing { error } => raise::<ReplySpec>(
                self.api,
                error,
                self.context@,
            ).after(reply),
            Stage::Destroying { text } => Protocol::Fail(text@),
        }
    }
}

impl<'a> Task<'a> for Checked {
    fn resume(self, reply: Reply) -> (step: Step<'a, Self>) {
        let Checked { api, context, stage } = self;
        match stage {
            Stage::Called => {
                if reply.error == 0 {
                    return Step::Return(reply);
                }
                let error = reply.error;
                Step::Call(
                    Call::Plugin { api, entry: Entry::ErrorMessage { error } },
                    Checked { api, context, stage: Stage::Describing { error } },
                )
            },
            Stage::Describing { error } => {
                let text = describe(context, reply.bytes.as_slice());
                Step::Call(
                    Call::Plugin { api, entry: Entry::ErrorDestroy { error } },
                    Checked { api, context, stage: Stage::Destroying { text } },
                )
            },
            Stage::Destroying { text } => Step::Fail(text),
        }
    }
}

/// A checked call of which only the success matters, on its way; see
/// [`acknowledged`].
pub struct Acknowledged {
    task: Checked,
}

/// Calls an entry point and fails if it returns an error.
pub(crate) fn acknowledge<'a>(api: usize, entry: Entry<'a>, context: &'static str) -> (step: Step<
    'a,
    Acknowledged,
>)
    ensures
        step.follows(acknowledged(api, entry@, context@)),
{
    Acknowledged::calling(check(api, entry, context))
}

impl Acknowledged {
    fn calling<'a>(step: Step<'a, Checked>) -> (next: Step<'a, Acknowledged>)
        ensures
            forall|protocol: Protocol<ReplySpec>| #[trigger]
                step.follows(protocol) ==> next.follows(protocol.and_then(nothing_returned())),
    {
        match step {
            Step::Call(call, task) => Step::Call(call, Acknowledged { task }),
            Step::Return(_) => Step::Return(()),
            Step::Fail(message) => Step::Fail(message),
        }
    }
}

impl Suspended for Acknowledged {
    type Output = ();

    closed spec fn after(&self, reply: ReplySpec) -> Protocol<()> {
        self.task.after(reply).and_then(nothing_returned())
    }
}

impl<'a> Task<'a> for Acknowledged {
    fn resume(self, reply: Reply) -> (step: Step<'a, Self>) {
        Acknowledged::calling(self.task.resume(reply))
    }
}

/// A host call that must succeed, on its way; see [`expected`].
pub struct Expected {
    context: &'static str,
}

/// Makes a host call and fails if it does.
pub(crate) fn expect<'a>(call: HostCall, context: &'static str) -> (step: Step<'a, Expected>)
    ensures
        step.follows(expected(call@, context@)),
{
    Step::Call(Call::Host(call), Expected { context })
}

impl Suspended for Expected {
    type Output = Reply;

    closed spec fn after(&self, reply: ReplySpec) -> Protocol<ReplySpec> {
        match reply.failure {
            None => Protocol::Return(reply),
            Some(reason) => Protocol::Fail(self.context@ + ": "@ + reason),
        }
    }
}

impl<'a> Task<'a> for Expected {
    fn resume(self, reply: Reply) -> (step: Step<'a, Self>) {
        match reply.failure {
            None => Step::Return(reply),
            Some(reason) => {
                Step::Fail(self.context.to_owned().concat(": ").concat(reason.as_str()))
            },
        }
    }
}

} // verus!
