//! How runs fail, and that nothing else makes them fail.

use vstd::prelude::*;

use crate::call::{CallSpec, EntrySpec, HostCallSpec, ReplySpec};
use crate::handles::{ClientSpec, Pjrt};
use crate::options::SessionOptions;
use crate::protocol::Protocol;
use crate::transcript::Exchange;

verus! {

broadcast use crate::protocol::lemma_and_then;

/// What an entry point is called in a failure. The others never make a run
/// fail.
pub open spec fn called_in_failures(entry: EntrySpec) -> Option<Seq<char>> {
    match entry {
        EntrySpec::PluginInitialize => Some("Plugin_Initialize"@),
        EntrySpec::EventAwait { .. } => Some("Event_Await"@),
        EntrySpec::ClientCreate { .. } => Some("Client_Create"@),
        EntrySpec::ClientAddressableDevices { .. } => Some("AddressableDevices"@),
        EntrySpec::ClientCompile { .. } => Some("Client_Compile"@),
        EntrySpec::ClientBufferFromHostBuffer { .. } => Some("BufferFromHostBuffer"@),
        EntrySpec::LoadedExecutableExecute { .. } => Some("Execute"@),
        EntrySpec::LoadedExecutableGetExecutable { .. } => Some("GetExecutable"@),
        EntrySpec::ExecutableSerialize { .. } => Some("Executable_Serialize"@),
        EntrySpec::ExecutableDeserializeAndLoad { .. } => Some("Executable_DeserializeAndLoad"@),
        EntrySpec::BufferDestroy { .. } => Some("Buffer_Destroy"@),
        EntrySpec::BufferToHostBuffer { dst_size: None, .. } => Some("ToHostBuffer(size)"@),
        EntrySpec::BufferToHostBuffer { dst_size: Some(_), .. } => Some("ToHostBuffer(copy)"@),
        _ => None,
    }
}

/// The reply to the call at `i` lets the run go on. An error of an entry point
/// that is called in failures does not, nor does a device list that is empty,
/// a host call that failed or a function table that is null. An error to the
/// question for statistics does, and is destroyed next.
pub open spec fn lets_go_on(transcript: Seq<Exchange>, i: int) -> bool {
    let reply = transcript[i].reply;
    match transcript[i].call {
        CallSpec::Host(HostCallSpec::ReadVariable { .. }) => reply.failure is None,
        CallSpec::Host(HostCallSpec::OpenLibrary { .. }) => reply.failure is None,
        CallSpec::Host(HostCallSpec::FindSymbol { .. }) => reply.failure is None,
        CallSpec::Host(HostCallSpec::CallSymbol) => reply.object != 0,
        CallSpec::Host(_) => true,
        CallSpec::Plugin { api, entry } => {
            &&& called_in_failures(entry) is Some ==> reply.error == 0
            &&& entry is ClientAddressableDevices ==> reply.objects.len() > 0
            &&& entry is DeviceMemoryStats && reply.error != 0 ==> {
                &&& i + 1 < transcript.len()
                &&& transcript[i + 1].call == (CallSpec::Plugin {
                    api,
                    entry: EntrySpec::ErrorDestroy { error: reply.error },
                })
            }
        },
    }
}

/// The last three calls are one that got an error, the one that read its
/// message and the one that destroyed it; the failure tells the entry point
/// and the message.
pub open spec fn refused(transcript: Seq<Exchange>, message: Seq<char>) -> bool {
    let at = transcript.len() - 3;
    &&& at >= 0
    &&& transcript[at].call matches CallSpec::Plugin { api, entry }
    &&& called_in_failures(entry) matches Some(name)
    &&& {
        let error = transcript[at].reply.error;
        let told = transcript[at + 1].reply.bytes;
        &&& error != 0
        &&& transcript[at + 1].call == (CallSpec::Plugin {
            api,
            entry: EntrySpec::ErrorMessage { error },
        })
        &&& transcript[at + 2].call == (CallSpec::Plugin {
            api,
            entry: EntrySpec::ErrorDestroy { error },
        })
        &&& message == "PJRT error in "@ + name + ": "@ + if vstd::utf8::valid_utf8(told) {
            vstd::utf8::decode_utf8(told)
        } else {
            "<non-utf8>"@
        }
    }
}

/// The last call did not give what is needed to go on, and the failure tells
/// what.
pub open spec fn lacking(last: Exchange, message: Seq<char>) -> bool {
    let reply = last.reply;
    match last.call {
        CallSpec::Host(HostCallSpec::ReadVariable { .. }) => {
            &&& reply.failure matches Some(reason)
            &&& message == "set XLA_PJRT_PLUGIN to the jax-cuda12 xla_cuda_plugin.so"@ + ": "@
                + reason
        },
        CallSpec::Host(HostCallSpec::OpenLibrary { .. }) => {
            &&& reply.failure matches Some(reason)
            &&& message == "dlopen GPU plugin"@ + ": "@ + reason
        },
        CallSpec::Host(HostCallSpec::FindSymbol { .. }) => {
            &&& reply.failure matches Some(reason)
            &&& message == "GetPjrtApi symbol"@ + ": "@ + reason
        },
        CallSpec::Host(HostCallSpec::CallSymbol) => {
            &&& reply.object == 0
            &&& message == "GetPjrtApi returned null"@
        },
        CallSpec::Host(_) => false,
        CallSpec::Plugin { entry, .. } => {
            &&& entry is ClientAddressableDevices
            &&& reply.error == 0
            &&& reply.objects.len() == 0
            &&& message == "no addressable devices"@
        },
    }
}

/// A run with these exchanges has every reason to end like this: it returned
/// and every reply let it go on; or it failed with `failure`, which the last
/// exchanges account for, and every reply before them let it go on.
pub open spec fn accounted(transcript: Seq<Exchange>, failure: Option<Seq<char>>) -> bool {
    match failure {
        None => forall|i: int| 0 <= i < transcript.len() ==> #[trigger] lets_go_on(transcript, i),
        Some(message) => {
            ||| {
                &&& refused(transcript, message)
                &&& forall|i: int|
                    0 <= i < transcript.len() - 3 ==> #[trigger] lets_go_on(transcript, i)
            }
            ||| {
                &&& transcript.len() > 0
                &&& lacking(transcript.last(), message)
                &&& forall|i: int|
                    0 <= i < transcript.len() - 1 ==> #[trigger] lets_go_on(transcript, i)
            }
        },
    }
}

/// What a run failed with, if it did.
pub open spec fn failure_of<T>(end: Protocol<T>) -> Option<Seq<char>> {
    match end {
        Protocol::Fail(message) => Some(message),
        _ => None,
    }
}

/// Whatever the replies are, a run of the procedure fails if and only if one
/// of them gives it reason to, and then tells that reason.
pub open spec fn accounts<T>(protocol: Protocol<T>) -> bool {
    forall|transcript: Seq<Exchange>, end: Protocol<T>| #[trigger]
        protocol.leads_to(transcript, end) && end !is Call ==> accounted(
            transcript,
            failure_of(end),
        )
}

/// Whatever a procedure fails with is accounted for.
pub proof fn lemma_reasons<T>(protocol: Protocol<T>)
    requires
        accounts(protocol),
    ensures
        forall|transcript: Seq<Exchange>, message: Seq<char>| #[trigger]
            protocol.aborts(transcript, message) ==> accounted(transcript, Some(message)),
{
    assert forall|transcript: Seq<Exchange>, message: Seq<char>| #[trigger]
        protocol.aborts(transcript, message) implies accounted(transcript, Some(message)) by {
        let end = Protocol::<T>::Fail(message);
        assert(protocol.leads_to(transcript, end));
        assert(failure_of(end) == Some(message));
    }
}

/// What lets a part of a run go on lets the whole go on.
proof fn lemma_part(transcript: Seq<Exchange>, at: int, i: int)
    requires
        0 <= at <= transcript.len(),
        0 <= i < transcript.len(),
        i < at ==> lets_go_on(transcript.take(at), i),
        at <= i ==> lets_go_on(transcript.skip(at), i - at),
    ensures
        lets_go_on(transcript, i),
{
    if i < at {
        let part = transcript.take(at);
        assert(part[i] == transcript[i]);
        if i + 1 < part.len() {
            assert(part[i + 1] == transcript[i + 1]);
        }
    } else {
        let part = transcript.skip(at);
        assert(part[i - at] == transcript[i]);
        if i - at + 1 < part.len() {
            assert(part[i - at + 1] == transcript[i + 1]);
        }
    }
}

/// A run that goes on as another one returned is accounted for if both are.
proof fn lemma_accounted_parts(transcript: Seq<Exchange>, at: int, failure: Option<Seq<char>>)
    requires
        0 <= at <= transcript.len(),
        accounted(transcript.take(at), None),
        accounted(transcript.skip(at), failure),
    ensures
        accounted(transcript, failure),
{
    let head = transcript.take(at);
    let tail = transcript.skip(at);
    assert forall|i: int|
        0 <= i < transcript.len() && (i < at || lets_go_on(tail, i - at)) implies #[trigger]
        lets_go_on(transcript, i) by {
        if i < at {
            assert(lets_go_on(head, i));
        }
        lemma_part(transcript, at, i);
    }
    if let Some(message) = failure {
        let n = tail.len() as int;
        if refused(tail, message) {
            assert(tail[n - 3] == transcript[at + n - 3]);
            assert(tail[n - 2] == transcript[at + n - 2]);
            assert(tail[n - 1] == transcript[at + n - 1]);
            assert(refused(transcript, message));
        }
        if n > 0 {
            assert(tail.last() == transcript.last());
        }
    }
}

/// Two procedures in sequence account for their failures if each does.
pub proof fn lemma_accounts_sequence<T, U>(first: Protocol<T>, next: spec_fn(T) -> Protocol<U>)
    requires
        accounts(first),
        forall|value: T| accounts(#[trigger] next(value)),
    ensures
        accounts(first.and_then(next)),
{
    let both = first.and_then(next);
    assert forall|transcript: Seq<Exchange>, end: Protocol<U>| #[trigger]
        both.leads_to(transcript, end) && end !is Call implies accounted(
        transcript,
        failure_of(end),
    ) by {
        match crate::transcript::lemma_split(first, next, transcript, end) {
            Some((at, value)) => {
                assert(first.leads_to(transcript.take(at), Protocol::Return(value)));
                assert(accounted(
                    transcript.take(at),
                    failure_of(Protocol::<T>::Return(value)),
                ));
                assert(accounts(next(value)));
                assert(next(value).leads_to(transcript.skip(at), end));
                lemma_accounted_parts(transcript, at, failure_of(end));
            },
            None => {
                let rest = choose|rest: Protocol<T>|
                    {
                        &&& rest !is Return
                        &&& #[trigger] first.leads_to(transcript, rest)
                        &&& end == rest.and_then(next)
                    };
                assert(rest !is Call);
                assert(accounted(transcript, failure_of(rest)));
            },
        }
    }
}

/// A procedure that returns has nothing to account for.
pub proof fn lemma_accounts_return<T>(protocol: Protocol<T>)
    requires
        protocol is Return,
    ensures
        accounts(protocol),
{
    assert forall|transcript: Seq<Exchange>, end: Protocol<T>| #[trigger]
        protocol.leads_to(transcript, end) && end !is Call implies accounted(
        transcript,
        failure_of(end),
    ) by {
        crate::transcript::lemma_ended(protocol, transcript, end);
    }
}

/// A call that no run fails because of.
pub proof fn lemma_accounts_call<T>(call: CallSpec, rest: spec_fn(ReplySpec) -> Protocol<T>)
    requires
        match call {
            CallSpec::Plugin { entry, .. } => called_in_failures(entry) is None
                && entry !is DeviceMemoryStats,
            CallSpec::Host(call) => call is ReadClock || call is TakeHostBytes,
        },
        forall|reply: ReplySpec| accounts(#[trigger] rest(reply)),
    ensures
        accounts(Protocol::Call(call, rest)),
{
    let protocol = Protocol::Call(call, rest);
    assert forall|transcript: Seq<Exchange>, end: Protocol<T>| #[trigger]
        protocol.leads_to(transcript, end) && end !is Call implies accounted(
        transcript,
        failure_of(end),
    ) by {
        crate::transcript::lemma_called(protocol, transcript, end);
        let reply = transcript[0].reply;
        assert(accounts(rest(reply)));
        assert(rest(reply).leads_to(transcript.drop_first(), end));
        assert(transcript.skip(1) =~= transcript.drop_first());
        assert(transcript.take(1)[0] == transcript[0]);
        assert(lets_go_on(transcript.take(1), 0));
        lemma_accounted_parts(transcript, 1, failure_of(end));
    }
}

/// A call of an entry point whose error makes the run fail.
pub proof fn lemma_accounts_checked(api: usize, entry: EntrySpec, context: Seq<char>)
    requires
        called_in_failures(entry) == Some(context),
        entry !is ClientAddressableDevices,
    ensures
        accounts(crate::check::checked(api, entry, context)),
{
    let protocol = crate::check::checked(api, entry, context);
    assert forall|transcript: Seq<Exchange>, end: Protocol<ReplySpec>| #[trigger]
        protocol.leads_to(transcript, end) && end !is Call implies accounted(
        transcript,
        failure_of(end),
    ) by {
        crate::laws::law_errors_are_raised(api, entry, context, transcript, end);
        if end is Return {
            assert(lets_go_on(transcript, 0));
        }
    }
}

/// Looking up the device, which also fails if there is none.
pub proof fn lemma_accounts_first_device(client: ClientSpec)
    ensures
        accounts(client.first_device_protocol()),
{
    let entry = EntrySpec::ClientAddressableDevices { client: client.client };
    let context = "AddressableDevices"@;
    let first = crate::check::checked(client.api, entry, context);
    let next = crate::client::devices_listed();
    let protocol = client.first_device_protocol();
    assert forall|transcript: Seq<Exchange>, end: Protocol<usize>| #[trigger]
        protocol.leads_to(transcript, end) && end !is Call implies accounted(
        transcript,
        failure_of(end),
    ) by {
        match crate::transcript::lemma_split(first, next, transcript, end) {
            Some((at, reply)) => {
                let head = transcript.take(at);
                crate::ledger::lemma_checked(client.api, entry, context, head, reply);
                crate::transcript::lemma_ended(next(reply), transcript.skip(at), end);
                assert(transcript.take(at).len() == 1);
                assert(transcript.take(at)[0] == transcript[0]);
                assert(transcript.len() == 1);
                if end is Return {
                    assert(lets_go_on(transcript, 0));
                }
            },
            None => {
                let rest = choose|rest: Protocol<ReplySpec>|
                    {
                        &&& rest !is Return
                        &&& #[trigger] first.leads_to(transcript, rest)
                        &&& end == rest.and_then(next)
                    };
                assert(rest !is Call);
                crate::laws::law_errors_are_raised(
                    client.api,
                    entry,
                    context,
                    transcript,
                    rest,
                );
            },
        }
    }
}

/// Asking for statistics never fails.
pub proof fn lemma_accounts_statistics(client: ClientSpec, device: usize)
    ensures
        accounts(client.device_asked()(device)),
{
    let asked = client.device_asked()(device);
    assert forall|
        transcript: Seq<Exchange>,
        end: Protocol<Option<crate::memory::MemoryStats>>,
    | #[trigger] asked.leads_to(transcript, end) && end !is Call implies accounted(
        transcript,
        failure_of(end),
    ) by {
        crate::transcript::lemma_called(asked, transcript, end);
        let answered = asked.after(transcript[0].reply);
        let tail = transcript.drop_first();
        if transcript[0].reply.error != 0 {
            crate::transcript::lemma_called(answered, tail, end);
            crate::transcript::lemma_ended(answered.after(tail[0].reply), tail.drop_first(), end);
            assert(tail[0] == transcript[1]);
            assert(lets_go_on(transcript, 1));
        } else {
            crate::transcript::lemma_ended(answered, tail, end);
        }
        assert(lets_go_on(transcript, 0));
    }
}

/// A host call that must succeed.
proof fn lemma_accounts_expected(call: HostCallSpec, context: Seq<char>)
    requires
        match call {
            HostCallSpec::ReadVariable { .. } => context
                == "set XLA_PJRT_PLUGIN to the jax-cuda12 xla_cuda_plugin.so"@,
            HostCallSpec::OpenLibrary { .. } => context == "dlopen GPU plugin"@,
            HostCallSpec::FindSymbol { .. } => context == "GetPjrtApi symbol"@,
            _ => false,
        },
    ensures
        accounts(crate::check::expected(call, context)),
{
    let protocol = crate::check::expected(call, context);
    assert forall|transcript: Seq<Exchange>, end: Protocol<ReplySpec>| #[trigger]
        protocol.leads_to(transcript, end) && end !is Call implies accounted(
        transcript,
        failure_of(end),
    ) by {
        crate::transcript::lemma_called(protocol, transcript, end);
        let reply = transcript[0].reply;
        crate::transcript::lemma_ended(protocol.after(reply), transcript.drop_first(), end);
        assert(transcript.len() == 1);
        if end is Return {
            assert(lets_go_on(transcript, 0));
        }
    }
}

/// Calling the symbol, which must give a function table.
proof fn lemma_accounts_table()
    ensures
        forall|found: ReplySpec| accounts(#[trigger] Pjrt::symbol_found()(found)),
{
    assert forall|found: ReplySpec| accounts(#[trigger] Pjrt::symbol_found()(found)) by {
        let calling = Pjrt::symbol_found()(found);
        assert forall|transcript: Seq<Exchange>, end: Protocol<Pjrt>| #[trigger]
            calling.leads_to(transcript, end) && end !is Call implies accounted(
            transcript,
            failure_of(end),
        ) by {
            crate::transcript::lemma_called(calling, transcript, end);
            let reply = transcript[0].reply;
            crate::transcript::lemma_ended(calling.after(reply), transcript.drop_first(), end);
            assert(transcript.len() == 1);
            if end is Return {
                assert(lets_go_on(transcript, 0));
            }
        }
    }
}

proof fn lemma_path()
    ensures
        accounts(crate::plugin::plugin_path_protocol()),
{
    let asking = HostCallSpec::ReadVariable { name: "XLA_PJRT_PLUGIN"@ };
    let advice = "set XLA_PJRT_PLUGIN to the jax-cuda12 xla_cuda_plugin.so"@;
    lemma_accounts_expected(asking, advice);
    let text = crate::plugin::text_returned();
    assert forall|reply: ReplySpec| accounts(#[trigger] text(reply)) by {
        lemma_accounts_return(text(reply));
    }
    lemma_accounts_sequence(crate::check::expected(asking, advice), text);
}

proof fn lemma_load()
    ensures
        accounts(Pjrt::load_protocol()),
{
    lemma_path();
    let known = Pjrt::path_known();
    assert forall|path: Seq<char>| accounts(#[trigger] known(path)) by {
        let opening = HostCallSpec::OpenLibrary { path };
        lemma_accounts_expected(opening, "dlopen GPU plugin"@);
        let opened = Pjrt::library_opened();
        assert forall|library: ReplySpec| accounts(#[trigger] opened(library)) by {
            let finding = HostCallSpec::FindSymbol { name: "GetPjrtApi\0"@ };
            lemma_accounts_expected(finding, "GetPjrtApi symbol"@);
            lemma_accounts_table();
            lemma_accounts_sequence(
                crate::check::expected(finding, "GetPjrtApi symbol"@),
                Pjrt::symbol_found(),
            );
        }
        lemma_accounts_sequence(crate::check::expected(opening, "dlopen GPU plugin"@), opened);
    }
    lemma_accounts_sequence(crate::plugin::plugin_path_protocol(), known);
}

proof fn lemma_shared_pjrt(loaded: Option<Pjrt>)
    ensures
        accounts(crate::plugin::shared_pjrt_protocol(loaded)),
{
    match loaded {
        Some(pjrt) => {
            lemma_accounts_return(crate::plugin::shared_pjrt_protocol(loaded));
        },
        None => {
            lemma_load();
            let next = crate::plugin::plugin_loaded();
            assert forall|pjrt: Pjrt| accounts(#[trigger] next(pjrt)) by {
                let entry = EntrySpec::PluginInitialize;
                let context = "Plugin_Initialize"@;
                lemma_accounts_checked(pjrt.api, entry, context);
                let nothing = crate::check::nothing_returned();
                assert forall|reply: ReplySpec| accounts(#[trigger] nothing(reply)) by {
                    lemma_accounts_return(nothing(reply));
                }
                lemma_accounts_sequence(crate::check::checked(pjrt.api, entry, context), nothing);
                let started = crate::plugin::plugin_started(pjrt);
                assert forall|done: ()| accounts(#[trigger] started(done)) by {
                    lemma_accounts_return(started(done));
                }
                lemma_accounts_sequence(pjrt.plugin_initialize_protocol(), started);
            }
            lemma_accounts_sequence(Pjrt::load_protocol(), next);
        },
    }
}

/// Opening a session, and finding, loading and asking the plugin, fail if and
/// only if a reply gives reason to, and tell that reason.
pub proof fn law_opening_fails_for_a_reason(
    loaded: Option<Pjrt>,
    options: SessionOptions,
    pjrt: Pjrt,
)
    ensures
        accounts(crate::plugin::plugin_path_protocol()),
        accounts(Pjrt::load_protocol()),
        accounts(pjrt.version_protocol()),
        accounts(crate::plugin::shared_pjrt_protocol(loaded)),
        accounts(crate::session::with_options_protocol(loaded, options)),
{
    lemma_path();
    lemma_load();
    let read = crate::plugin::version_read();
    assert forall|reply: ReplySpec| accounts(#[trigger] read(reply)) by {
        lemma_accounts_return(read(reply));
    }
    lemma_accounts_call(
        CallSpec::Plugin { api: pjrt.api, entry: EntrySpec::ApiVersion },
        read,
    );
    lemma_shared_pjrt(loaded);
    let ready = crate::session::plugin_ready(options);
    assert forall|pjrt: Pjrt| accounts(#[trigger] ready(pjrt)) by {
        let entry = EntrySpec::ClientCreate { options: options.named() };
        let context = "Client_Create"@;
        lemma_accounts_checked(pjrt.api, entry, context);
        let created = pjrt.client_created();
        assert forall|reply: ReplySpec| accounts(#[trigger] created(reply)) by {
            lemma_accounts_return(created(reply));
        }
        lemma_accounts_sequence(crate::check::checked(pjrt.api, entry, context), created);
    }
    lemma_accounts_sequence(crate::plugin::shared_pjrt_protocol(loaded), ready);
}

} // verus!
