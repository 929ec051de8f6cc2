//! What holds of every run, complete or not, whatever the plugin replies.

use vstd::prelude::*;

use crate::call::{CallSpec, EntrySpec, HostCallSpec, ReplySpec};
use crate::handles::{ClientSpec, Pjrt};
use crate::ledger::Ledger;
use crate::options::SessionOptions;
use crate::protocol::Protocol;
use crate::transcript::Exchange;
use crate::transfer::InputSpec;

verus! {

broadcast use crate::protocol::lemma_and_then;

/// When a run ends, by returning or by failing, every error object that was
/// looked at has been destroyed, once, in the order in which they came.
pub open spec fn settles_errors<T>(protocol: Protocol<T>) -> bool {
    forall|transcript: Seq<Exchange>, end: Protocol<T>| #[trigger]
        protocol.leads_to(transcript, end) && end !is Call ==> Ledger::total(transcript).settled
            == Ledger::total(transcript).raised
}

/// What a call is for.
pub enum Kind {
    /// Reading and destroying an error.
    Errors,
    /// Waiting for a transfer.
    Events,
    /// Listing the devices.
    Devices,
    /// Making an executable out of code.
    Compile,
    /// Fetching the executable behind a loaded one, serializing it, and
    /// releasing what was fetched for that.
    Serialize,
    /// Making an executable out of its serialized form.
    Load,
    /// Destroying a loaded executable.
    Free,
    /// Running an executable.
    Execute,
    /// Filling a buffer from the host.
    Upload,
    /// Copying a buffer to the host.
    Copy,
    /// Destroying a buffer.
    Release,
    /// Reading the statistics of an allocator.
    Statistics,
    /// Reading the clock.
    Clock,
    /// Finding and starting the plugin, creating a client.
    Setup,
}

/// What each call is for.
pub open spec fn kind(call: CallSpec) -> Kind {
    match call {
        CallSpec::Host(call) => match call {
            HostCallSpec::ReadClock => Kind::Clock,
            HostCallSpec::TakeHostBytes { .. } => Kind::Copy,
            _ => Kind::Setup,
        },
        CallSpec::Plugin { entry, .. } => match entry {
            EntrySpec::ApiVersion => Kind::Setup,
            EntrySpec::PluginInitialize => Kind::Setup,
            EntrySpec::ClientCreate { .. } => Kind::Setup,
            EntrySpec::ErrorMessage { .. } => Kind::Errors,
            EntrySpec::ErrorDestroy { .. } => Kind::Errors,
            EntrySpec::EventAwait { .. } => Kind::Events,
            EntrySpec::EventDestroy { .. } => Kind::Events,
            EntrySpec::ClientAddressableDevices { .. } => Kind::Devices,
            EntrySpec::ClientCompile { .. } => Kind::Compile,
            EntrySpec::ClientBufferFromHostBuffer { .. } => Kind::Upload,
            EntrySpec::DeviceMemoryStats { .. } => Kind::Statistics,
            EntrySpec::LoadedExecutableExecute { .. } => Kind::Execute,
            EntrySpec::LoadedExecutableGetExecutable { .. } => Kind::Serialize,
            EntrySpec::LoadedExecutableDestroy { .. } => Kind::Free,
            EntrySpec::ExecutableSerialize { .. } => Kind::Serialize,
            EntrySpec::SerializedExecutableDelete { .. } => Kind::Serialize,
            EntrySpec::ExecutableDestroy { .. } => Kind::Serialize,
            EntrySpec::ExecutableDeserializeAndLoad { .. } => Kind::Load,
            EntrySpec::BufferDestroy { .. } => Kind::Release,
            EntrySpec::BufferToHostBuffer { .. } => Kind::Copy,
        },
    }
}

impl ClientSpec {
    /// The calls of these kinds that are this client's business: those of its
    /// own plugin, on no client but itself and on no event, error or deleter
    /// that is null.
    pub open spec fn may_call(self, kinds: Set<Kind>) -> spec_fn(CallSpec) -> bool {
        |call: CallSpec|
            {
                &&& kinds.contains(kind(call))
                &&& call matches CallSpec::Plugin { api, entry } ==> {
                    &&& api == self.api
                    &&& self.may_enter(entry)
                }
            }
    }

    /// The entry point is given no other client and no null event, error or
    /// deleter.
    pub open spec fn may_enter(self, entry: EntrySpec) -> bool {
        match entry {
            EntrySpec::ErrorMessage { error } => error != 0,
            EntrySpec::ErrorDestroy { error } => error != 0,
            EntrySpec::EventAwait { event } => event != 0,
            EntrySpec::EventDestroy { event } => event != 0,
            EntrySpec::ClientAddressableDevices { client } => client == self.client,
            EntrySpec::ClientCompile { client, .. } => client == self.client,
            EntrySpec::ClientBufferFromHostBuffer { client, .. } => client == self.client,
            EntrySpec::ExecutableDeserializeAndLoad { client, .. } => client == self.client,
            EntrySpec::SerializedExecutableDelete { deleter, .. } => deleter != 0,
            _ => true,
        }
    }

    /// A procedure that makes only this client's calls, of these kinds and of
    /// no other, settles its errors, and fails if and only if a reply gives it
    /// reason to.
    pub open spec fn disciplined<T>(self, kinds: Set<Kind>, protocol: Protocol<T>) -> bool {
        &&& protocol.only_calls(self.may_call(kinds))
        &&& settles_errors(protocol)
        &&& crate::failures::accounts(protocol)
    }
}

// Discipline is kept by sequencing.

/// Two procedures in sequence settle their errors if each does.
proof fn lemma_settles_sequence<T, U>(first: Protocol<T>, next: spec_fn(T) -> Protocol<U>)
    requires
        settles_errors(first),
        forall|value: T| settles_errors(#[trigger] next(value)),
    ensures
        settles_errors(first.and_then(next)),
{
    let both = first.and_then(next);
    assert forall|transcript: Seq<Exchange>, end: Protocol<U>| #[trigger]
        both.leads_to(transcript, end) && end !is Call implies Ledger::total(transcript).settled
        == Ledger::total(transcript).raised by {
        match crate::transcript::lemma_split(first, next, transcript, end) {
            Some((at, value)) => {
                crate::ledger::lemma_total_split(transcript, at);
                assert(first.leads_to(transcript.take(at), Protocol::Return(value)));
                assert(settles_errors(next(value)));
                assert(next(value).leads_to(transcript.skip(at), end));
            },
            None => {
                let rest = choose|rest: Protocol<T>|
                    {
                        &&& rest !is Return
                        &&& #[trigger] first.leads_to(transcript, rest)
                        &&& end == rest.and_then(next)
                    };
                assert(rest !is Call);
            },
        }
    }
}

/// Two procedures in sequence are disciplined if each is.
proof fn lemma_sequence<T, U>(
    client: ClientSpec,
    kinds: Set<Kind>,
    first: Protocol<T>,
    next: spec_fn(T) -> Protocol<U>,
)
    requires
        client.disciplined(kinds, first),
        forall|value: T| client.disciplined(kinds, #[trigger] next(value)),
    ensures
        client.disciplined(kinds, first.and_then(next)),
{
    assert forall|value: T| (#[trigger] next(value)).only_calls(client.may_call(kinds)) by {
        assert(client.disciplined(kinds, next(value)));
    }
    assert forall|value: T| settles_errors(#[trigger] next(value)) by {
        assert(client.disciplined(kinds, next(value)));
    }
    assert forall|value: T| crate::failures::accounts(#[trigger] next(value)) by {
        assert(client.disciplined(kinds, next(value)));
    }
    crate::transcript::lemma_only_calls(first, next, client.may_call(kinds));
    lemma_settles_sequence(first, next);
    crate::failures::lemma_accounts_sequence(first, next);
}

/// A procedure that is at its end has nothing to settle.
proof fn lemma_settles_end<T>(protocol: Protocol<T>)
    requires
        protocol !is Call,
    ensures
        settles_errors(protocol),
{
    assert forall|transcript: Seq<Exchange>, end: Protocol<T>| #[trigger]
        protocol.leads_to(transcript, end) && end !is Call implies Ledger::total(transcript).settled
        == Ledger::total(transcript).raised by {
        crate::transcript::lemma_ended(protocol, transcript, end);
    }
}

/// A procedure that returns is disciplined.
proof fn lemma_end<T>(client: ClientSpec, kinds: Set<Kind>, protocol: Protocol<T>)
    requires
        protocol is Return,
    ensures
        client.disciplined(kinds, protocol),
{
    lemma_settles_end(protocol);
    crate::failures::lemma_accounts_return(protocol);
}

/// A call whose error is not looked at leaves nothing to settle.
proof fn lemma_settles_call<T>(call: CallSpec, rest: spec_fn(ReplySpec) -> Protocol<T>)
    requires
        call matches CallSpec::Plugin { entry, .. } ==> !crate::ledger::looked_at(entry)
            && entry !is ErrorDestroy,
        forall|reply: ReplySpec| settles_errors(#[trigger] rest(reply)),
    ensures
        settles_errors(Protocol::Call(call, rest)),
{
    let protocol = Protocol::Call(call, rest);
    assert forall|transcript: Seq<Exchange>, end: Protocol<T>| #[trigger]
        protocol.leads_to(transcript, end) && end !is Call implies Ledger::total(transcript).settled
        == Ledger::total(transcript).raised by {
        crate::transcript::lemma_called(protocol, transcript, end);
        let reply = transcript[0].reply;
        let tail = transcript.drop_first();
        assert(settles_errors(rest(reply)));
        assert(rest(reply).leads_to(tail, end));
        assert(Ledger::of(transcript[0]).settled.len() == 0);
        assert(Ledger::of(transcript[0]).raised.len() == 0);
        assert(Ledger::total(transcript).settled =~= Ledger::total(tail).settled);
        assert(Ledger::total(transcript).raised =~= Ledger::total(tail).raised);
    }
}

/// One call of this client's whose error is not looked at, and a disciplined
/// procedure after it.
proof fn lemma_call<T>(
    client: ClientSpec,
    kinds: Set<Kind>,
    call: CallSpec,
    rest: spec_fn(ReplySpec) -> Protocol<T>,
)
    requires
        client.may_call(kinds)(call),
        call matches CallSpec::Plugin { entry, .. } ==> !crate::ledger::looked_at(entry)
            && entry !is ErrorDestroy,
        call matches CallSpec::Host(call) ==> call is ReadClock || call is TakeHostBytes,
        forall|reply: ReplySpec| client.disciplined(kinds, #[trigger] rest(reply)),
    ensures
        client.disciplined(kinds, Protocol::Call(call, rest)),
{
    assert forall|reply: ReplySpec| (#[trigger] rest(reply)).only_calls(client.may_call(kinds)) by {
        assert(client.disciplined(kinds, rest(reply)));
    }
    assert forall|reply: ReplySpec| settles_errors(#[trigger] rest(reply)) by {
        assert(client.disciplined(kinds, rest(reply)));
    }
    assert forall|reply: ReplySpec| crate::failures::accounts(#[trigger] rest(reply)) by {
        assert(client.disciplined(kinds, rest(reply)));
    }
    lemma_settles_call(call, rest);
    crate::failures::lemma_accounts_call(call, rest);
}

/// A call whose error is looked at is disciplined.
proof fn lemma_checked(client: ClientSpec, kinds: Set<Kind>, entry: EntrySpec, context: Seq<char>)
    requires
        kinds.contains(Kind::Errors),
        kinds.contains(kind(CallSpec::Plugin { api: client.api, entry })),
        client.may_enter(entry),
        crate::ledger::looked_at(entry),
        crate::failures::called_in_failures(entry) == Some(context),
        entry !is ClientAddressableDevices,
    ensures
        client.disciplined(kinds, crate::check::checked(client.api, entry, context)),
{
    lemma_settles_checked(client.api, entry, context);
    crate::failures::lemma_accounts_checked(client.api, entry, context);
    lemma_checked_calls(client, kinds, entry, context);
}

/// A call whose error is looked at makes no calls but itself and those on its
/// error.
proof fn lemma_checked_calls(
    client: ClientSpec,
    kinds: Set<Kind>,
    entry: EntrySpec,
    context: Seq<char>,
)
    requires
        kinds.contains(Kind::Errors),
        kinds.contains(kind(CallSpec::Plugin { api: client.api, entry })),
        client.may_enter(entry),
    ensures
        crate::check::checked(client.api, entry, context).only_calls(client.may_call(kinds)),
{
    let protocol = crate::check::checked(client.api, entry, context);
    let allowed = client.may_call(kinds);
    assert forall|reply: ReplySpec| (#[trigger] (protocol->Call_1)(reply)).only_calls(
        allowed,
    ) by {
        if reply.error != 0 {
            let raise = crate::check::raise::<ReplySpec>(client.api, reply.error, context);
            assert forall|described: ReplySpec| (#[trigger] (raise->Call_1)(described)).only_calls(
                allowed,
            ) by {
                let destroying = (raise->Call_1)(described);
                assert forall|destroyed: ReplySpec|
                    (#[trigger] (destroying->Call_1)(destroyed)).only_calls(allowed) by {
                }
            }
        }
    }
}

/// A call whose error is looked at settles it.
proof fn lemma_settles_checked(api: usize, entry: EntrySpec, context: Seq<char>)
    requires
        crate::ledger::looked_at(entry),
    ensures
        settles_errors(crate::check::checked(api, entry, context)),
{
    let protocol = crate::check::checked(api, entry, context);
    assert forall|transcript: Seq<Exchange>, end: Protocol<ReplySpec>| #[trigger]
        protocol.leads_to(transcript, end) && end !is Call implies Ledger::total(transcript).settled
        == Ledger::total(transcript).raised by {
        crate::laws::law_errors_are_raised(api, entry, context, transcript, end);
        reveal_with_fuel(Ledger::total, 4);
        let tail = transcript.drop_first();
        if end is Fail {
            assert(tail[0] == transcript[1]);
            assert(tail.drop_first()[0] == transcript[2]);
            assert(tail.drop_first().drop_first().len() == 0);
        }
        assert(Ledger::total(transcript).settled =~= Ledger::total(transcript).raised);
    }
}

// The procedures, one after the other.

proof fn lemma_acknowledged(
    client: ClientSpec,
    kinds: Set<Kind>,
    entry: EntrySpec,
    context: Seq<char>,
)
    requires
        kinds.contains(Kind::Errors),
        kinds.contains(kind(CallSpec::Plugin { api: client.api, entry })),
        client.may_enter(entry),
        crate::ledger::looked_at(entry),
        crate::failures::called_in_failures(entry) == Some(context),
        entry !is ClientAddressableDevices,
    ensures
        client.disciplined(kinds, crate::check::acknowledged(client.api, entry, context)),
{
    lemma_checked(client, kinds, entry, context);
    let next = crate::check::nothing_returned();
    assert forall|reply: ReplySpec| client.disciplined(kinds, #[trigger] next(reply)) by {
        lemma_end(client, kinds, next(reply));
    }
    lemma_sequence(client, kinds, crate::check::checked(client.api, entry, context), next);
}

proof fn lemma_first_device(client: ClientSpec, kinds: Set<Kind>)
    requires
        kinds.contains(Kind::Errors),
        kinds.contains(Kind::Devices),
    ensures
        client.disciplined(kinds, client.first_device_protocol()),
{
    let entry = EntrySpec::ClientAddressableDevices { client: client.client };
    let context = "AddressableDevices"@;
    let first = crate::check::checked(client.api, entry, context);
    let next = crate::client::devices_listed();
    lemma_checked_calls(client, kinds, entry, context);
    lemma_settles_checked(client.api, entry, context);
    assert forall|reply: ReplySpec| settles_errors(#[trigger] next(reply)) by {
        lemma_settles_end(next(reply));
    }
    crate::transcript::lemma_only_calls(first, next, client.may_call(kinds));
    lemma_settles_sequence(first, next);
    crate::failures::lemma_accounts_first_device(client);
}

proof fn lemma_object(client: ClientSpec, kinds: Set<Kind>, entry: EntrySpec, context: Seq<char>)
    requires
        kinds.contains(Kind::Errors),
        kinds.contains(kind(CallSpec::Plugin { api: client.api, entry })),
        client.may_enter(entry),
        crate::ledger::looked_at(entry),
        crate::failures::called_in_failures(entry) == Some(context),
        entry !is ClientAddressableDevices,
    ensures
        client.disciplined(
            kinds,
            crate::check::checked(client.api, entry, context).and_then(
                crate::client::object_returned(),
            ),
        ),
{
    lemma_checked(client, kinds, entry, context);
    let next = crate::client::object_returned();
    assert forall|reply: ReplySpec| client.disciplined(kinds, #[trigger] next(reply)) by {
        lemma_end(client, kinds, next(reply));
    }
    lemma_sequence(client, kinds, crate::check::checked(client.api, entry, context), next);
}

pub proof fn lemma_compile(client: ClientSpec, kinds: Set<Kind>, code: Seq<u8>)
    requires
        kinds.contains(Kind::Errors),
        kinds.contains(Kind::Compile),
    ensures
        client.disciplined(kinds, client.compile_protocol(code)),
{
    let entry = EntrySpec::ClientCompile {
        client: client.client,
        code,
        format: "mlir"@,
        compile_options: crate::client::compile_options(),
    };
    lemma_object(client, kinds, entry, "Client_Compile"@);
}

pub proof fn lemma_deserialize_and_load(client: ClientSpec, kinds: Set<Kind>, bytes: Seq<u8>)
    requires
        kinds.contains(Kind::Errors),
        kinds.contains(Kind::Load),
    ensures
        client.disciplined(kinds, client.deserialize_and_load_protocol(bytes)),
{
    let entry = EntrySpec::ExecutableDeserializeAndLoad { client: client.client, bytes };
    lemma_object(client, kinds, entry, "Executable_DeserializeAndLoad"@);
}

pub proof fn lemma_destroy_buffer(client: ClientSpec, kinds: Set<Kind>, buffer: usize)
    requires
        kinds.contains(Kind::Errors),
        kinds.contains(Kind::Release),
    ensures
        client.disciplined(kinds, client.destroy_buffer_protocol(buffer)),
{
    lemma_acknowledged(client, kinds, EntrySpec::BufferDestroy { buffer }, "Buffer_Destroy"@);
}

pub proof fn lemma_memory_stats(client: ClientSpec, kinds: Set<Kind>)
    requires
        kinds.contains(Kind::Errors),
        kinds.contains(Kind::Devices),
        kinds.contains(Kind::Statistics),
    ensures
        client.disciplined(kinds, client.memory_stats_protocol()),
{
    lemma_first_device(client, kinds);
    let next = client.device_asked();
    assert forall|device: usize| client.disciplined(kinds, #[trigger] next(device)) by {
        let asked = next(device);
        let allowed = client.may_call(kinds);
        assert forall|reply: ReplySpec| (#[trigger] (asked->Call_1)(reply)).only_calls(
            allowed,
        ) by {
            let answered = client.stats_answered(reply);
            assert((asked->Call_1)(reply) == answered);
            if reply.error != 0 {
                assert forall|destroyed: ReplySpec|
                    (#[trigger] (answered->Call_1)(destroyed)).only_calls(allowed) by {
                }
            }
        }
        assert forall|
            transcript: Seq<Exchange>,
            end: Protocol<Option<crate::memory::MemoryStats>>,
        | #[trigger] asked.leads_to(transcript, end) && end !is Call implies Ledger::total(
            transcript,
        ).settled == Ledger::total(transcript).raised by {
            crate::transcript::lemma_called(asked, transcript, end);
            let reply = transcript[0].reply;
            let tail = transcript.drop_first();
            let answered = asked.after(reply);
            reveal_with_fuel(Ledger::total, 3);
            if reply.error != 0 {
                crate::transcript::lemma_called(answered, tail, end);
                crate::transcript::lemma_ended(
                    answered.after(tail[0].reply),
                    tail.drop_first(),
                    end,
                );
            } else {
                crate::transcript::lemma_ended(answered, tail, end);
            }
            assert(Ledger::total(transcript).settled =~= Ledger::total(transcript).raised);
        }
        crate::failures::lemma_accounts_statistics(client, device);
    }
    lemma_sequence(client, kinds, client.first_device_protocol(), next);
}

proof fn lemma_await_event(client: ClientSpec, kinds: Set<Kind>, event: usize)
    requires
        kinds.contains(Kind::Errors),
        kinds.contains(Kind::Events),
    ensures
        client.disciplined(kinds, client.await_event_protocol(event)),
{
    if event == 0 {
        lemma_end(client, kinds, client.await_event_protocol(event));
    } else {
        let entry = EntrySpec::EventAwait { event };
        lemma_checked(client, kinds, entry, "Event_Await"@);
        let next = client.event_awaited(event);
        let nothing = crate::check::nothing_returned();
        assert forall|reply: ReplySpec| client.disciplined(kinds, #[trigger] next(reply)) by {
            assert forall|destroyed: ReplySpec| client.disciplined(
                kinds,
                #[trigger] nothing(destroyed),
            ) by {
                lemma_end(client, kinds, nothing(destroyed));
            }
            let call = CallSpec::Plugin {
                api: client.api,
                entry: EntrySpec::EventDestroy { event },
            };
            lemma_call(client, kinds, call, nothing);
        }
        lemma_sequence(
            client,
            kinds,
            crate::check::checked(client.api, entry, "Event_Await"@),
            next,
        );
    }
}

proof fn lemma_buf_from_host(client: ClientSpec, kinds: Set<Kind>, device: usize, input: InputSpec)
    requires
        kinds.contains(Kind::Errors),
        kinds.contains(Kind::Events),
        kinds.contains(Kind::Upload),
    ensures
        client.disciplined(kinds, client.buf_from_host_protocol(device, input)),
{
    let entry = EntrySpec::ClientBufferFromHostBuffer {
        client: client.client,
        data: input.data,
        dims: input.dims,
        elem_type: input.elem_type,
        semantics: crate::call::HostBufferSemantics::ImmutableUntilTransferCompletes,
        device,
    };
    let context = "BufferFromHostBuffer"@;
    lemma_checked(client, kinds, entry, context);
    let next = client.buffer_made();
    assert forall|reply: ReplySpec| client.disciplined(kinds, #[trigger] next(reply)) by {
        lemma_await_event(client, kinds, reply.event);
        let filled = crate::transfer::buffer_filled(reply.object);
        assert forall|done: ()| client.disciplined(kinds, #[trigger] filled(done)) by {
            lemma_end(client, kinds, filled(done));
        }
        lemma_sequence(client, kinds, client.await_event_protocol(reply.event), filled);
    }
    lemma_sequence(client, kinds, crate::check::checked(client.api, entry, context), next);
}

proof fn lemma_upload(
    client: ClientSpec,
    kinds: Set<Kind>,
    device: usize,
    inputs: Seq<InputSpec>,
    buffers: Seq<usize>,
)
    requires
        kinds.contains(Kind::Errors),
        kinds.contains(Kind::Events),
        kinds.contains(Kind::Upload),
    ensures
        client.disciplined(kinds, client.upload_protocol(device, inputs, buffers)),
    decreases inputs.len() - buffers.len(),
{
    if buffers.len() < inputs.len() {
        let input = inputs[buffers.len() as int];
        lemma_buf_from_host(client, kinds, device, input);
        let next = client.input_uploaded(device, inputs, buffers);
        assert forall|buffer: usize| client.disciplined(kinds, #[trigger] next(buffer)) by {
            if buffers.len() + 1 < inputs.len() {
                lemma_upload(client, kinds, device, inputs, buffers.push(buffer));
            } else {
                lemma_end(client, kinds, next(buffer));
            }
        }
        lemma_sequence(client, kinds, client.buf_from_host_protocol(device, input), next);
    } else {
        lemma_end(client, kinds, client.upload_protocol(device, inputs, buffers));
    }
}

pub proof fn lemma_to_host(client: ClientSpec, kinds: Set<Kind>, buffer: usize)
    requires
        kinds.contains(Kind::Errors),
        kinds.contains(Kind::Events),
        kinds.contains(Kind::Copy),
    ensures
        client.disciplined(kinds, client.to_host_protocol(buffer)),
{
    let sizing = EntrySpec::BufferToHostBuffer { src: buffer, dst_size: None };
    lemma_checked(client, kinds, sizing, "ToHostBuffer(size)"@);
    let sized = client.size_told(buffer);
    assert forall|told: ReplySpec| client.disciplined(kinds, #[trigger] sized(told)) by {
        let size = told.size;
        let copying = EntrySpec::BufferToHostBuffer { src: buffer, dst_size: Some(size) };
        lemma_checked(client, kinds, copying, "ToHostBuffer(copy)"@);
        let started = client.copy_started(size);
        assert forall|reply: ReplySpec| client.disciplined(kinds, #[trigger] started(reply)) by {
            lemma_await_event(client, kinds, reply.event);
            let complete = crate::transfer::copy_complete(size);
            let taken = crate::transfer::bytes_taken(size);
            assert forall|done: ()| client.disciplined(kinds, #[trigger] complete(done)) by {
                assert forall|bytes: ReplySpec| client.disciplined(
                    kinds,
                    #[trigger] taken(bytes),
                ) by {
                    lemma_end(client, kinds, taken(bytes));
                }
                lemma_call(
                    client,
                    kinds,
                    CallSpec::Host(HostCallSpec::TakeHostBytes { size }),
                    taken,
                );
            }
            lemma_sequence(client, kinds, client.await_event_protocol(reply.event), complete);
        }
        lemma_sequence(
            client,
            kinds,
            crate::check::checked(client.api, copying, "ToHostBuffer(copy)"@),
            started,
        );
    }
    lemma_sequence(
        client,
        kinds,
        crate::check::checked(client.api, sizing, "ToHostBuffer(size)"@),
        sized,
    );
}

proof fn lemma_read(client: ClientSpec, kinds: Set<Kind>, buffers: Seq<usize>, host: Seq<Seq<u8>>)
    requires
        kinds.contains(Kind::Errors),
        kinds.contains(Kind::Events),
        kinds.contains(Kind::Copy),
    ensures
        client.disciplined(kinds, client.read_protocol(buffers, host)),
    decreases buffers.len() - host.len(),
{
    if host.len() < buffers.len() {
        let buffer = buffers[host.len() as int];
        lemma_to_host(client, kinds, buffer);
        let next = client.buffer_read(buffers, host);
        assert forall|bytes: Seq<u8>| client.disciplined(kinds, #[trigger] next(bytes)) by {
            if host.len() + 1 < buffers.len() {
                lemma_read(client, kinds, buffers, host.push(bytes));
            } else {
                lemma_end(client, kinds, next(bytes));
            }
        }
        lemma_sequence(client, kinds, client.to_host_protocol(buffer), next);
    } else {
        lemma_end(client, kinds, client.read_protocol(buffers, host));
    }
}

proof fn lemma_release(client: ClientSpec, kinds: Set<Kind>, buffers: Seq<usize>, count: nat)
    requires
        kinds.contains(Kind::Errors),
        kinds.contains(Kind::Release),
    ensures
        client.disciplined(kinds, client.release_protocol(buffers, count)),
    decreases buffers.len() - count,
{
    if count < buffers.len() {
        let buffer = buffers[count as int];
        lemma_destroy_buffer(client, kinds, buffer);
        let next = client.buffer_released(buffers, count);
        assert forall|done: ()| client.disciplined(kinds, #[trigger] next(done)) by {
            if count + 1 < buffers.len() {
                lemma_release(client, kinds, buffers, count + 1);
            } else {
                lemma_end(client, kinds, next(done));
            }
        }
        lemma_sequence(client, kinds, client.destroy_buffer_protocol(buffer), next);
    } else {
        lemma_end(client, kinds, client.release_protocol(buffers, count));
    }
}

pub proof fn lemma_execute(
    client: ClientSpec,
    kinds: Set<Kind>,
    executable: usize,
    arguments: Seq<usize>,
    num_outputs: usize,
)
    requires
        kinds.contains(Kind::Errors),
        kinds.contains(Kind::Execute),
    ensures
        client.disciplined(kinds, client.execute_protocol(executable, arguments, num_outputs)),
{
    let entry = EntrySpec::LoadedExecutableExecute {
        executable,
        num_devices: 1,
        arguments,
        num_outputs,
    };
    lemma_checked(client, kinds, entry, "Execute"@);
    let next = crate::run::outputs_listed(num_outputs);
    assert forall|reply: ReplySpec| client.disciplined(kinds, #[trigger] next(reply)) by {
        lemma_end(client, kinds, next(reply));
    }
    lemma_sequence(client, kinds, crate::check::checked(client.api, entry, "Execute"@), next);
}

pub proof fn lemma_run_loaded(
    client: ClientSpec,
    kinds: Set<Kind>,
    executable: usize,
    inputs: Seq<InputSpec>,
    num_outputs: usize,
)
    requires
        kinds.contains(Kind::Errors),
        kinds.contains(Kind::Devices),
        kinds.contains(Kind::Events),
        kinds.contains(Kind::Upload),
        kinds.contains(Kind::Execute),
        kinds.contains(Kind::Copy),
    ensures
        client.disciplined(kinds, client.run_loaded_protocol(executable, inputs, num_outputs)),
{
    lemma_first_device(client, kinds);
    let found = client.device_found(executable, inputs, num_outputs);
    assert forall|device: usize| client.disciplined(kinds, #[trigger] found(device)) by {
        lemma_upload(client, kinds, device, inputs, Seq::empty());
        let uploaded = client.inputs_uploaded(executable, num_outputs);
        assert forall|buffers: Seq<usize>| client.disciplined(
            kinds,
            #[trigger] uploaded(buffers),
        ) by {
            lemma_execute(client, kinds, executable, buffers, num_outputs);
            let executed = client.executed();
            assert forall|outputs: Seq<usize>| client.disciplined(
                kinds,
                #[trigger] executed(outputs),
            ) by {
                lemma_read(client, kinds, outputs, Seq::empty());
            }
            lemma_sequence(
                client,
                kinds,
                client.execute_protocol(executable, buffers, num_outputs),
                executed,
            );
        }
        lemma_sequence(
            client,
            kinds,
            client.upload_protocol(device, inputs, Seq::empty()),
            uploaded,
        );
    }
    lemma_sequence(client, kinds, client.first_device_protocol(), found);
}

proof fn lemma_timed<T>(
    client: ClientSpec,
    kinds: Set<Kind>,
    next: spec_fn(ReplySpec) -> Protocol<T>,
)
    requires
        kinds.contains(Kind::Clock),
        forall|reply: ReplySpec| client.disciplined(kinds, #[trigger] next(reply)),
    ensures
        client.disciplined(kinds, crate::run::timed(next)),
{
    lemma_call(client, kinds, CallSpec::Host(HostCallSpec::ReadClock), next);
}

pub proof fn lemma_run_buffers_timed(
    client: ClientSpec,
    kinds: Set<Kind>,
    executable: usize,
    arguments: Seq<usize>,
    num_outputs: usize,
)
    requires
        kinds.contains(Kind::Errors),
        kinds.contains(Kind::Events),
        kinds.contains(Kind::Execute),
        kinds.contains(Kind::Copy),
        kinds.contains(Kind::Release),
        kinds.contains(Kind::Clock),
    ensures
        client.disciplined(
            kinds,
            client.run_buffers_timed_protocol(executable, arguments, num_outputs),
        ),
{
    let started = client.run_started(executable, arguments, num_outputs);
    assert forall|start: ReplySpec| client.disciplined(kinds, #[trigger] started(start)) by {
        lemma_execute(client, kinds, executable, arguments, num_outputs);
        let dispatched = client.run_dispatched(start.nanos);
        assert forall|outputs: Seq<usize>| client.disciplined(
            kinds,
            #[trigger] dispatched(outputs),
        ) by {
            let timed = client.dispatch_timed(outputs, start.nanos);
            assert forall|end: ReplySpec| client.disciplined(kinds, #[trigger] timed(end)) by {
                lemma_readback(client, kinds, outputs, crate::run::elapsed(start.nanos, end.nanos));
            }
            lemma_timed(client, kinds, timed);
        }
        lemma_sequence(
            client,
            kinds,
            client.execute_protocol(executable, arguments, num_outputs),
            dispatched,
        );
    }
    lemma_timed(client, kinds, started);
}

/// The second half of a timed run.
proof fn lemma_readback(client: ClientSpec, kinds: Set<Kind>, outputs: Seq<usize>, dispatch: u64)
    requires
        kinds.contains(Kind::Errors),
        kinds.contains(Kind::Events),
        kinds.contains(Kind::Copy),
        kinds.contains(Kind::Release),
        kinds.contains(Kind::Clock),
    ensures
        client.disciplined(kinds, crate::run::timed(client.readback_started(outputs, dispatch))),
{
    let started = client.readback_started(outputs, dispatch);
    assert forall|start: ReplySpec| client.disciplined(kinds, #[trigger] started(start)) by {
        lemma_read(client, kinds, outputs, Seq::empty());
        let read = client.outputs_read(outputs, dispatch, start.nanos);
        assert forall|host: Seq<Seq<u8>>| client.disciplined(kinds, #[trigger] read(host)) by {
            let timed = client.readback_timed(outputs, dispatch, start.nanos, host);
            assert forall|end: ReplySpec| client.disciplined(kinds, #[trigger] timed(end)) by {
                lemma_release(client, kinds, outputs, 0);
                let readback = crate::run::elapsed(start.nanos, end.nanos);
                let released = crate::run::outputs_released(host, dispatch, readback);
                assert forall|done: ()| client.disciplined(kinds, #[trigger] released(done)) by {
                    lemma_end(client, kinds, released(done));
                }
                lemma_sequence(client, kinds, client.release_protocol(outputs, 0), released);
            }
            lemma_timed(client, kinds, timed);
        }
        lemma_sequence(client, kinds, client.read_protocol(outputs, Seq::empty()), read);
    }
    lemma_timed(client, kinds, started);
}

pub proof fn lemma_run_buffers(
    client: ClientSpec,
    kinds: Set<Kind>,
    executable: usize,
    arguments: Seq<usize>,
    num_outputs: usize,
)
    requires
        kinds.contains(Kind::Errors),
        kinds.contains(Kind::Events),
        kinds.contains(Kind::Execute),
        kinds.contains(Kind::Copy),
        kinds.contains(Kind::Release),
        kinds.contains(Kind::Clock),
    ensures
        client.disciplined(kinds, client.run_buffers_protocol(executable, arguments, num_outputs)),
{
    lemma_run_buffers_timed(client, kinds, executable, arguments, num_outputs);
    let next = crate::session::times_dropped();
    assert forall|result: crate::run::TimedSpec| client.disciplined(
        kinds,
        #[trigger] next(result),
    ) by {
        lemma_end(client, kinds, next(result));
    }
    lemma_sequence(
        client,
        kinds,
        client.run_buffers_timed_protocol(executable, arguments, num_outputs),
        next,
    );
}

pub proof fn lemma_serialize(client: ClientSpec, kinds: Set<Kind>, executable: usize)
    requires
        kinds.contains(Kind::Errors),
        kinds.contains(Kind::Serialize),
    ensures
        client.disciplined(kinds, client.serialize_protocol(executable)),
{
    let fetching = EntrySpec::LoadedExecutableGetExecutable { executable };
    lemma_checked(client, kinds, fetching, "GetExecutable"@);
    let next = client.executable_fetched();
    assert forall|fetched: ReplySpec| client.disciplined(kinds, #[trigger] next(fetched)) by {
        let serializing = EntrySpec::ExecutableSerialize { executable: fetched.object };
        lemma_checked(client, kinds, serializing, "Executable_Serialize"@);
        let serialized = client.executable_serialized(fetched.object);
        assert forall|reply: ReplySpec| client.disciplined(kinds, #[trigger] serialized(reply)) by {
            lemma_fetched_destroyed(client, kinds, fetched.object, reply.bytes);
            if reply.deleter != 0 {
                let deleted = client.bytes_deleted(fetched.object, reply.bytes);
                assert forall|done: ReplySpec| client.disciplined(
                    kinds,
                    #[trigger] deleted(done),
                ) by {
                }
                let call = CallSpec::Plugin {
                    api: client.api,
                    entry: EntrySpec::SerializedExecutableDelete {
                        deleter: reply.deleter,
                        serialized: reply.object,
                    },
                };
                lemma_call(client, kinds, call, deleted);
            }
        }
        lemma_sequence(
            client,
            kinds,
            crate::check::checked(client.api, serializing, "Executable_Serialize"@),
            serialized,
        );
    }
    lemma_sequence(
        client,
        kinds,
        crate::check::checked(client.api, fetching, "GetExecutable"@),
        next,
    );
}

proof fn lemma_fetched_destroyed(
    client: ClientSpec,
    kinds: Set<Kind>,
    executable: usize,
    bytes: Seq<u8>,
)
    requires
        kinds.contains(Kind::Serialize),
    ensures
        client.disciplined(kinds, client.fetched_destroyed(executable, bytes)),
{
    let next = crate::serialize::bytes_returned(bytes);
    assert forall|done: ReplySpec| client.disciplined(kinds, #[trigger] next(done)) by {
        lemma_end(client, kinds, next(done));
    }
    let call = CallSpec::Plugin {
        api: client.api,
        entry: EntrySpec::ExecutableDestroy { executable },
    };
    lemma_call(client, kinds, call, next);
}

pub proof fn lemma_free_executable(client: ClientSpec, kinds: Set<Kind>, executable: usize)
    requires
        kinds.contains(Kind::Free),
    ensures
        client.disciplined(kinds, client.free_executable_protocol(executable)),
{
    let next = crate::check::nothing_returned();
    assert forall|done: ReplySpec| client.disciplined(kinds, #[trigger] next(done)) by {
        lemma_end(client, kinds, next(done));
    }
    let call = CallSpec::Plugin {
        api: client.api,
        entry: EntrySpec::LoadedExecutableDestroy { executable },
    };
    lemma_call(client, kinds, call, next);
}

pub proof fn lemma_input_buffer(client: ClientSpec, kinds: Set<Kind>, input: InputSpec)
    requires
        kinds.contains(Kind::Errors),
        kinds.contains(Kind::Devices),
        kinds.contains(Kind::Events),
        kinds.contains(Kind::Upload),
    ensures
        client.disciplined(kinds, client.input_buffer_protocol(input)),
{
    lemma_first_device(client, kinds);
    let next = client.device_chosen(input);
    assert forall|device: usize| client.disciplined(kinds, #[trigger] next(device)) by {
        lemma_buf_from_host(client, kinds, device, input);
    }
    lemma_sequence(client, kinds, client.first_device_protocol(), next);
}

// Before there is a client.

/// A host call that must succeed leaves nothing to settle.
proof fn lemma_settles_expected(call: HostCallSpec, context: Seq<char>)
    ensures
        settles_errors(crate::check::expected(call, context)),
{
    let protocol = crate::check::expected(call, context);
    let rest = protocol->Call_1;
    assert forall|reply: ReplySpec| settles_errors(#[trigger] rest(reply)) by {
        lemma_settles_end(rest(reply));
    }
    lemma_settles_call(CallSpec::Host(call), rest);
}

proof fn lemma_load()
    ensures
        settles_errors(Pjrt::load_protocol()),
{
    let asking = HostCallSpec::ReadVariable { name: "XLA_PJRT_PLUGIN"@ };
    let advice = "set XLA_PJRT_PLUGIN to the jax-cuda12 xla_cuda_plugin.so"@;
    lemma_settles_expected(asking, advice);
    let text = crate::plugin::text_returned();
    assert forall|reply: ReplySpec| settles_errors(#[trigger] text(reply)) by {
        lemma_settles_end(text(reply));
    }
    lemma_settles_sequence(crate::check::expected(asking, advice), text);
    let known = Pjrt::path_known();
    assert forall|path: Seq<char>| settles_errors(#[trigger] known(path)) by {
        let opening = HostCallSpec::OpenLibrary { path };
        lemma_settles_expected(opening, "dlopen GPU plugin"@);
        let opened = Pjrt::library_opened();
        assert forall|library: ReplySpec| settles_errors(#[trigger] opened(library)) by {
            let finding = HostCallSpec::FindSymbol { name: "GetPjrtApi\0"@ };
            lemma_settles_expected(finding, "GetPjrtApi symbol"@);
            let found = Pjrt::symbol_found();
            assert forall|symbol: ReplySpec| settles_errors(#[trigger] found(symbol)) by {
                let table = Pjrt::table_returned();
                assert forall|reply: ReplySpec| settles_errors(#[trigger] table(reply)) by {
                    lemma_settles_end(table(reply));
                }
                lemma_settles_call(CallSpec::Host(HostCallSpec::CallSymbol), table);
            }
            lemma_settles_sequence(
                crate::check::expected(finding, "GetPjrtApi symbol"@),
                found,
            );
        }
        lemma_settles_sequence(crate::check::expected(opening, "dlopen GPU plugin"@), opened);
    }
    lemma_settles_sequence(crate::plugin::plugin_path_protocol(), known);
}

proof fn lemma_shared_pjrt(loaded: Option<Pjrt>)
    ensures
        settles_errors(crate::plugin::shared_pjrt_protocol(loaded)),
{
    match loaded {
        Some(pjrt) => {
            lemma_settles_end(crate::plugin::shared_pjrt_protocol(loaded));
        },
        None => {
            lemma_load();
            let next = crate::plugin::plugin_loaded();
            assert forall|pjrt: Pjrt| settles_errors(#[trigger] next(pjrt)) by {
                let entry = EntrySpec::PluginInitialize;
                let context = "Plugin_Initialize"@;
                lemma_settles_checked(pjrt.api, entry, context);
                let nothing = crate::check::nothing_returned();
                assert forall|reply: ReplySpec| settles_errors(#[trigger] nothing(reply)) by {
                    lemma_settles_end(nothing(reply));
                }
                lemma_settles_sequence(crate::check::checked(pjrt.api, entry, context), nothing);
                let started = crate::plugin::plugin_started(pjrt);
                assert forall|done: ()| settles_errors(#[trigger] started(done)) by {
                    lemma_settles_end(started(done));
                }
                lemma_settles_sequence(pjrt.plugin_initialize_protocol(), started);
            }
            lemma_settles_sequence(Pjrt::load_protocol(), next);
        },
    }
}

proof fn lemma_with_options(loaded: Option<Pjrt>, options: SessionOptions)
    ensures
        settles_errors(crate::session::with_options_protocol(loaded, options)),
{
    lemma_shared_pjrt(loaded);
    let next = crate::session::plugin_ready(options);
    assert forall|pjrt: Pjrt| settles_errors(#[trigger] next(pjrt)) by {
        let entry = EntrySpec::ClientCreate { options: options.named() };
        lemma_settles_checked(pjrt.api, entry, "Client_Create"@);
        let created = pjrt.client_created();
        assert forall|reply: ReplySpec| settles_errors(#[trigger] created(reply)) by {
            lemma_settles_end(created(reply));
        }
        lemma_settles_sequence(
            crate::check::checked(pjrt.api, entry, "Client_Create"@),
            created,
        );
    }
    lemma_settles_sequence(crate::plugin::shared_pjrt_protocol(loaded), next);
}

// The laws.

/// Whatever the plugin replies, opening a session and running bytecode once
/// have destroyed, whether they return or fail, every error object that they
/// looked at, once. A run of bytecode fails if and only if a reply gives it
/// reason to.
pub proof fn law_opening_settles_errors(
    loaded: Option<Pjrt>,
    options: SessionOptions,
    code: Seq<u8>,
    inputs: Seq<InputSpec>,
    num_outputs: usize,
)
    ensures
        settles_errors(crate::plugin::shared_pjrt_protocol(loaded)),
        settles_errors(crate::session::with_options_protocol(loaded, options)),
        settles_errors(crate::session::run_bytecode_protocol(loaded, code, inputs, num_outputs)),
        crate::failures::accounts(
            crate::session::run_bytecode_protocol(loaded, code, inputs, num_outputs),
        ),
{
    let kinds = Set::<Kind>::full();
    lemma_shared_pjrt(loaded);
    lemma_with_options(loaded, options);
    lemma_with_options(loaded, SessionOptions::unset());
    let next = crate::session::client_opened(code, inputs, num_outputs);
    crate::failures::law_opening_fails_for_a_reason(
        loaded,
        SessionOptions::unset(),
        Pjrt { api: 0 },
    );
    assert forall|client: ClientSpec|
        settles_errors(#[trigger] next(client)) && crate::failures::accounts(next(client)) by {
        lemma_compile(client, kinds, code);
        let compiled = client.code_compiled(inputs, num_outputs);
        assert forall|executable: usize|
            settles_errors(#[trigger] compiled(executable)) && crate::failures::accounts(
                compiled(executable),
            ) by {
            lemma_run_loaded(client, kinds, executable, inputs, num_outputs);
        }
        lemma_settles_sequence(client.compile_protocol(code), compiled);
        crate::failures::lemma_accounts_sequence(client.compile_protocol(code), compiled);
    }
    lemma_settles_sequence(
        crate::session::with_options_protocol(loaded, SessionOptions::unset()),
        next,
    );
    crate::failures::lemma_accounts_sequence(
        crate::session::with_options_protocol(loaded, SessionOptions::unset()),
        next,
    );
}

/// Whatever the plugin replies, every method of a session calls only the
/// session's own plugin, on no client but its own, with no event or error that
/// is null, and makes no calls but those it is for; and whether it returns or
/// fails, it has destroyed every error object that it looked at, once. It fails
/// if and only if a reply gives it reason to, and tells that reason.
///
/// So no run makes or destroys an executable, only loading what was serialized
/// makes one without compiling, a run that leaves its outputs on the device
/// neither copies nor destroys anything, and nothing but a run on buffers and
/// freeing destroys a buffer.
pub proof fn law_sessions_are_disciplined(
    client: ClientSpec,
    executable: usize,
    buffer: usize,
    bytes: Seq<u8>,
    input: InputSpec,
    inputs: Seq<InputSpec>,
    arguments: Seq<usize>,
    num_outputs: usize,
)
    ensures
        client.disciplined(set![Kind::Errors, Kind::Compile], client.compile_protocol(bytes)),
        client.disciplined(
            set![Kind::Errors, Kind::Serialize],
            client.serialize_protocol(executable),
        ),
        client.disciplined(
            set![Kind::Errors, Kind::Load],
            client.deserialize_and_load_protocol(bytes),
        ),
        client.disciplined(set![Kind::Free], client.free_executable_protocol(executable)),
        client.disciplined(
            set![
                Kind::Errors,
                Kind::Devices,
                Kind::Events,
                Kind::Upload,
                Kind::Execute,
                Kind::Copy,
            ],
            client.run_loaded_protocol(executable, inputs, num_outputs),
        ),
        client.disciplined(
            set![Kind::Errors, Kind::Devices, Kind::Events, Kind::Upload],
            client.input_buffer_protocol(input),
        ),
        client.disciplined(
            set![
                Kind::Errors,
                Kind::Events,
                Kind::Execute,
                Kind::Copy,
                Kind::Release,
                Kind::Clock,
            ],
            client.run_buffers_protocol(executable, arguments, num_outputs),
        ),
        client.disciplined(
            set![
                Kind::Errors,
                Kind::Events,
                Kind::Execute,
                Kind::Copy,
                Kind::Release,
                Kind::Clock,
            ],
            client.run_buffers_timed_protocol(executable, arguments, num_outputs),
        ),
        client.disciplined(
            set![Kind::Errors, Kind::Execute],
            client.execute_protocol(executable, arguments, num_outputs),
        ),
        client.disciplined(
            set![Kind::Errors, Kind::Events, Kind::Copy],
            client.to_host_protocol(buffer),
        ),
        client.disciplined(
            set![Kind::Errors, Kind::Devices, Kind::Statistics],
            client.memory_stats_protocol(),
        ),
        client.disciplined(
            set![Kind::Errors, Kind::Release],
            client.destroy_buffer_protocol(buffer),
        ),
{
    lemma_compile(client, set![Kind::Errors, Kind::Compile], bytes);
    lemma_serialize(client, set![Kind::Errors, Kind::Serialize], executable);
    lemma_deserialize_and_load(client, set![Kind::Errors, Kind::Load], bytes);
    lemma_free_executable(client, set![Kind::Free], executable);
    let run = set![
        Kind::Errors,
        Kind::Devices,
        Kind::Events,
        Kind::Upload,
        Kind::Execute,
        Kind::Copy,
    ];
    lemma_run_loaded(client, run, executable, inputs, num_outputs);
    let upload = set![Kind::Errors, Kind::Devices, Kind::Events, Kind::Upload];
    lemma_input_buffer(client, upload, input);
    let timed = set![
        Kind::Errors,
        Kind::Events,
        Kind::Execute,
        Kind::Copy,
        Kind::Release,
        Kind::Clock,
    ];
    lemma_run_buffers(client, timed, executable, arguments, num_outputs);
    lemma_run_buffers_timed(client, timed, executable, arguments, num_outputs);
    let execute = set![Kind::Errors, Kind::Execute];
    lemma_execute(client, execute, executable, arguments, num_outputs);
    lemma_to_host(client, set![Kind::Errors, Kind::Events, Kind::Copy], buffer);
    lemma_memory_stats(client, set![Kind::Errors, Kind::Devices, Kind::Statistics]);
    lemma_destroy_buffer(client, set![Kind::Errors, Kind::Release], buffer);
}

/// No run of the procedure, complete or not, makes a call of this kind.
pub open spec fn never<T>(protocol: Protocol<T>, what: Kind) -> bool {
    forall|transcript: Seq<Exchange>, end: Protocol<T>, i: int|
        #![trigger protocol.leads_to(transcript, end), transcript[i]]
        protocol.leads_to(transcript, end) && 0 <= i < transcript.len() ==> kind(
            transcript[i].call,
        ) != what
}

/// Every call of a run is an allowed one.
proof fn lemma_allowed<T>(
    protocol: Protocol<T>,
    allowed: spec_fn(CallSpec) -> bool,
    transcript: Seq<Exchange>,
    end: Protocol<T>,
    i: int,
)
    requires
        protocol.only_calls(allowed),
        protocol.leads_to(transcript, end),
        0 <= i < transcript.len(),
    ensures
        allowed(transcript[i].call),
    decreases transcript.len(),
{
    crate::transcript::lemma_called(protocol, transcript, end);
    if i > 0 {
        let rest = protocol.after(transcript[0].reply);
        lemma_allowed(rest, allowed, transcript.drop_first(), end, i - 1);
    }
}

/// A disciplined procedure never makes a call of another kind.
proof fn lemma_never<T>(client: ClientSpec, kinds: Set<Kind>, protocol: Protocol<T>)
    requires
        client.disciplined(kinds, protocol),
    ensures
        forall|what: Kind| !kinds.contains(what) ==> #[trigger] never(protocol, what),
{
    assert forall|what: Kind| !kinds.contains(what) implies #[trigger] never(protocol, what) by {
        assert forall|transcript: Seq<Exchange>, end: Protocol<T>, i: int|
            #![trigger protocol.leads_to(transcript, end), transcript[i]]
            protocol.leads_to(transcript, end) && 0 <= i < transcript.len() implies kind(
            transcript[i].call,
        ) != what by {
            lemma_allowed(protocol, client.may_call(kinds), transcript, end, i);
        }
    }
}

/// The procedure makes and destroys no executable: it compiles none, loads
/// none, frees none, and fetches none to serialize it.
pub open spec fn leaves_executables<T>(protocol: Protocol<T>) -> bool {
    &&& never(protocol, Kind::Compile)
    &&& never(protocol, Kind::Load)
    &&& never(protocol, Kind::Free)
    &&& never(protocol, Kind::Serialize)
}

/// No run makes or destroys an executable, whatever the plugin replies and
/// whether it returns or fails: what was compiled once can be run any number
/// of times.
pub proof fn law_runs_leave_executables(
    client: ClientSpec,
    executable: usize,
    inputs: Seq<InputSpec>,
    arguments: Seq<usize>,
    num_outputs: usize,
)
    ensures
        leaves_executables(client.run_loaded_protocol(executable, inputs, num_outputs)),
        leaves_executables(client.run_buffers_protocol(executable, arguments, num_outputs)),
        leaves_executables(client.run_buffers_timed_protocol(executable, arguments, num_outputs)),
        leaves_executables(client.execute_protocol(executable, arguments, num_outputs)),
{
    let run = set![
        Kind::Errors,
        Kind::Devices,
        Kind::Events,
        Kind::Upload,
        Kind::Execute,
        Kind::Copy,
    ];
    lemma_run_loaded(client, run, executable, inputs, num_outputs);
    lemma_never(client, run, client.run_loaded_protocol(executable, inputs, num_outputs));
    let timed = set![
        Kind::Errors,
        Kind::Events,
        Kind::Execute,
        Kind::Copy,
        Kind::Release,
        Kind::Clock,
    ];
    lemma_run_buffers(client, timed, executable, arguments, num_outputs);
    lemma_never(client, timed, client.run_buffers_protocol(executable, arguments, num_outputs));
    lemma_run_buffers_timed(client, timed, executable, arguments, num_outputs);
    lemma_never(
        client,
        timed,
        client.run_buffers_timed_protocol(executable, arguments, num_outputs),
    );
    let execute = set![Kind::Errors, Kind::Execute];
    lemma_execute(client, execute, executable, arguments, num_outputs);
    lemma_never(client, execute, client.execute_protocol(executable, arguments, num_outputs));
}

/// A run that leaves its outputs on the device neither copies nor destroys a
/// buffer, reading a buffer neither destroys one nor fills one, and loading an
/// executable compiles nothing.
pub proof fn law_nothing_else_is_done(
    client: ClientSpec,
    executable: usize,
    arguments: Seq<usize>,
    num_outputs: usize,
    buffer: usize,
    bytes: Seq<u8>,
)
    ensures
        never(client.execute_protocol(executable, arguments, num_outputs), Kind::Copy),
        never(client.execute_protocol(executable, arguments, num_outputs), Kind::Release),
        never(client.to_host_protocol(buffer), Kind::Release),
        never(client.to_host_protocol(buffer), Kind::Upload),
        never(client.deserialize_and_load_protocol(bytes), Kind::Compile),
        never(client.deserialize_and_load_protocol(bytes), Kind::Free),
{
    let execute = set![Kind::Errors, Kind::Execute];
    lemma_execute(client, execute, executable, arguments, num_outputs);
    lemma_never(client, execute, client.execute_protocol(executable, arguments, num_outputs));
    let copy = set![Kind::Errors, Kind::Events, Kind::Copy];
    lemma_to_host(client, copy, buffer);
    lemma_never(client, copy, client.to_host_protocol(buffer));
    let load = set![Kind::Errors, Kind::Load];
    lemma_deserialize_and_load(client, load, bytes);
    lemma_never(client, load, client.deserialize_and_load_protocol(bytes));
}

} // verus!
