//! What a transcript says of the buffers, the events and the errors it was
//! about.

use vstd::prelude::*;

use crate::call::{CallSpec, EntrySpec, HostCallSpec, ReplySpec};
use crate::handles::ClientSpec;
use crate::protocol::Protocol;
use crate::transcript::Exchange;
use crate::transfer::InputSpec;

verus! {

broadcast use crate::protocol::lemma_and_then;

/// The objects that the calls of a transcript dealt with, in order. Of a call
/// that returned an error only the error counts.
#[verifier::ext_equal]
pub struct Ledger {
    /// The arrays that buffers were filled from.
    pub inputs: Seq<InputSpec>,
    /// The buffers that were filled from the host.
    pub uploaded: Seq<usize>,
    /// The arguments of each execution.
    pub arguments: Seq<Seq<usize>>,
    /// The outputs of the executions.
    pub outputs: Seq<usize>,
    /// The buffers that were copied to the host.
    pub copied: Seq<usize>,
    /// The bytes that were taken from those copies.
    pub taken: Seq<Seq<u8>>,
    /// The buffers that were destroyed.
    pub destroyed: Seq<usize>,
    /// The events that came with the transfers that were started.
    pub begun: Seq<usize>,
    /// The events that were awaited.
    pub awaited: Seq<usize>,
    /// The events that were destroyed.
    pub ended: Seq<usize>,
    /// The error objects that came back from calls whose errors are looked at.
    pub raised: Seq<usize>,
    /// The error objects that were destroyed.
    pub settled: Seq<usize>,
}

/// The event of a transfer, unless it is null.
pub open spec fn event_of(event: usize) -> Seq<usize> {
    if event == 0 {
        Seq::empty()
    } else {
        seq![event]
    }
}

/// An error that this entry point returns is looked at. Reading and destroying
/// an error return none, nor does reading the version or calling a deleter;
/// what destroying an event or an executable returns is dropped.
pub open spec fn looked_at(entry: EntrySpec) -> bool {
    match entry {
        EntrySpec::ApiVersion => false,
        EntrySpec::ErrorMessage { .. } => false,
        EntrySpec::ErrorDestroy { .. } => false,
        EntrySpec::EventDestroy { .. } => false,
        EntrySpec::ExecutableDestroy { .. } => false,
        EntrySpec::LoadedExecutableDestroy { .. } => false,
        EntrySpec::SerializedExecutableDelete { .. } => false,
        _ => true,
    }
}

impl Ledger {
    /// The ledger in which nothing stands.
    pub open spec fn empty() -> Ledger {
        Ledger {
            inputs: Seq::empty(),
            uploaded: Seq::empty(),
            arguments: Seq::empty(),
            outputs: Seq::empty(),
            copied: Seq::empty(),
            taken: Seq::empty(),
            destroyed: Seq::empty(),
            begun: Seq::empty(),
            awaited: Seq::empty(),
            ended: Seq::empty(),
            raised: Seq::empty(),
            settled: Seq::empty(),
        }
    }

    /// What was dealt with, and then what was dealt with later.
    pub open spec fn plus(self, later: Ledger) -> Ledger {
        Ledger {
            inputs: self.inputs + later.inputs,
            uploaded: self.uploaded + later.uploaded,
            arguments: self.arguments + later.arguments,
            outputs: self.outputs + later.outputs,
            copied: self.copied + later.copied,
            taken: self.taken + later.taken,
            destroyed: self.destroyed + later.destroyed,
            begun: self.begun + later.begun,
            awaited: self.awaited + later.awaited,
            ended: self.ended + later.ended,
            raised: self.raised + later.raised,
            settled: self.settled + later.settled,
        }
    }

    /// Every transfer that was started was waited for, and its event was
    /// destroyed, in the order in which they were started.
    pub open spec fn transfers_complete(self) -> bool {
        &&& self.awaited == self.begun
        &&& self.ended == self.begun
    }

    /// What one exchange adds.
    pub open spec fn of(exchange: Exchange) -> Ledger {
        let reply = exchange.reply;
        match exchange.call {
            CallSpec::Host(HostCallSpec::TakeHostBytes { size }) => Ledger {
                taken: seq![crate::transfer::filled(reply.bytes, size as nat, 0)],
                ..Ledger::empty()
            },
            CallSpec::Host(_) => Ledger::empty(),
            CallSpec::Plugin { api, entry } => match entry {
                EntrySpec::EventDestroy { event } => Ledger {
                    ended: seq![event],
                    ..Ledger::empty()
                },
                EntrySpec::ErrorDestroy { error } => Ledger {
                    settled: seq![error],
                    ..Ledger::empty()
                },
                _ => if reply.error != 0 {
                    if looked_at(entry) {
                        Ledger { raised: seq![reply.error], ..Ledger::empty() }
                    } else {
                        Ledger::empty()
                    }
                } else {
                    match entry {
                        EntrySpec::EventAwait { event } => Ledger {
                            awaited: seq![event],
                            ..Ledger::empty()
                        },
                        EntrySpec::ClientBufferFromHostBuffer { data, dims, elem_type, .. } =>
                            Ledger {
                            inputs: seq![InputSpec { data, dims, elem_type }],
                            uploaded: seq![reply.object],
                            begun: event_of(reply.event),
                            ..Ledger::empty()
                        },
                        EntrySpec::LoadedExecutableExecute { arguments, num_outputs, .. } =>
                            Ledger {
                            arguments: seq![arguments],
                            outputs: crate::transfer::filled(
                                reply.objects,
                                num_outputs as nat,
                                0,
                            ),
                            ..Ledger::empty()
                        },
                        EntrySpec::BufferToHostBuffer { src, dst_size: Some(_) } => Ledger {
                            copied: seq![src],
                            begun: event_of(reply.event),
                            ..Ledger::empty()
                        },
                        EntrySpec::BufferDestroy { buffer } => Ledger {
                            destroyed: seq![buffer],
                            ..Ledger::empty()
                        },
                        _ => Ledger::empty(),
                    }
                },
            },
        }
    }
}

impl Ledger {
    /// What a transcript adds up to.
    pub open spec fn total(transcript: Seq<Exchange>) -> Ledger
        decreases transcript.len(),
    {
        if transcript.len() == 0 {
            Ledger::empty()
        } else {
            Ledger::of(transcript[0]).plus(Ledger::total(transcript.drop_first()))
        }
    }
}

/// Adding nothing changes nothing.
pub proof fn lemma_plus_empty(one: Ledger)
    ensures
        one.plus(Ledger::empty()) == one,
        Ledger::empty().plus(one) == one,
{
    assert(one.plus(Ledger::empty()) =~= one);
    assert(Ledger::empty().plus(one) =~= one);
}

/// Adding is associative.
pub proof fn lemma_plus_associative(one: Ledger, two: Ledger, three: Ledger)
    ensures
        one.plus(two.plus(three)) == one.plus(two).plus(three),
{
    assert(one.plus(two.plus(three)) =~= one.plus(two).plus(three));
}

/// A transcript adds up to what its two parts add up to.
pub proof fn lemma_total_split(transcript: Seq<Exchange>, at: int)
    requires
        0 <= at <= transcript.len(),
    ensures
        Ledger::total(transcript) == Ledger::total(transcript.take(at)).plus(
            Ledger::total(transcript.skip(at)),
        ),
    decreases at,
{
    if at == 0 {
        assert(transcript.skip(0) =~= transcript);
        assert(Ledger::total(transcript.take(0)) == Ledger::empty());
        lemma_plus_empty(Ledger::total(transcript));
    } else {
        let tail = transcript.drop_first();
        lemma_total_split(tail, at - 1);
        assert(transcript.take(at).drop_first() =~= tail.take(at - 1));
        assert(transcript.skip(at) =~= tail.skip(at - 1));
        lemma_plus_associative(
            Ledger::of(transcript[0]),
            Ledger::total(tail.take(at - 1)),
            Ledger::total(tail.skip(at - 1)),
        );
    }
}

/// One exchange adds up to what it adds.
pub proof fn lemma_total_one(transcript: Seq<Exchange>)
    requires
        transcript.len() == 1,
    ensures
        Ledger::total(transcript) == Ledger::of(transcript[0]),
{
    reveal_with_fuel(Ledger::total, 2);
    lemma_plus_empty(Ledger::of(transcript[0]));
}

/// A complete run of a checked call is that call with a reply without error.
pub proof fn lemma_checked(
    api: usize,
    entry: EntrySpec,
    context: Seq<char>,
    transcript: Seq<Exchange>,
    reply: ReplySpec,
)
    requires
        crate::check::checked(api, entry, context).completes(transcript, reply),
    ensures
        transcript == seq![Exchange { call: CallSpec::Plugin { api, entry }, reply }],
        reply.error == 0,
{
    let start = crate::check::checked(api, entry, context);
    crate::transcript::lemma_called(start, transcript, Protocol::Return(reply));
    let got = transcript[0].reply;
    let tail = transcript.drop_first();
    if got.error == 0 {
        crate::transcript::lemma_ended(start.after(got), tail, Protocol::Return(reply));
        assert(transcript =~= seq![Exchange { call: CallSpec::Plugin { api, entry }, reply }]);
    } else {
        lemma_raise(api, got.error, context, tail, Protocol::Return(reply));
    }
}

/// What is done with an error never returns. If it comes to its end, it read
/// the message and destroyed the error.
pub proof fn lemma_raise<T>(
    api: usize,
    error: usize,
    context: Seq<char>,
    transcript: Seq<Exchange>,
    end: Protocol<T>,
)
    requires
        crate::check::raise::<T>(api, error, context).leads_to(transcript, end),
    ensures
        end !is Return,
        end matches Protocol::Fail(message) ==> {
            &&& transcript.len() == 2
            &&& transcript[0].call == (CallSpec::Plugin {
                api,
                entry: EntrySpec::ErrorMessage { error },
            })
            &&& transcript[1].call == (CallSpec::Plugin {
                api,
                entry: EntrySpec::ErrorDestroy { error },
            })
            &&& message == crate::check::error_text(context, transcript[0].reply.bytes)
        },
{
    let start = crate::check::raise::<T>(api, error, context);
    crate::transcript::lemma_called(start, transcript, end);
    if transcript.len() > 0 {
        let described = start.after(transcript[0].reply);
        let tail = transcript.drop_first();
        crate::transcript::lemma_called(described, tail, end);
        if tail.len() > 0 {
            crate::transcript::lemma_ended(described.after(tail[0].reply), tail.drop_first(), end);
        }
    }
}

/// A complete run of two procedures in sequence is a complete run of each.
pub proof fn lemma_sequence<T, U>(
    first: Protocol<T>,
    next: spec_fn(T) -> Protocol<U>,
    transcript: Seq<Exchange>,
    value: U,
) -> (split: (int, T))
    requires
        first.and_then(next).completes(transcript, value),
    ensures
        0 <= split.0 <= transcript.len(),
        first.completes(transcript.take(split.0), split.1),
        next(split.1).completes(transcript.skip(split.0), value),
        Ledger::total(transcript) == Ledger::total(transcript.take(split.0)).plus(
            Ledger::total(transcript.skip(split.0)),
        ),
{
    let split = crate::transcript::lemma_split(first, next, transcript, Protocol::Return(value));
    match split {
        Some((at, middle)) => {
            lemma_total_split(transcript, at);
            (at, middle)
        },
        None => {
            assert(false);
            arbitrary()
        },
    }
}

/// What a complete wait adds up to.
pub proof fn lemma_await_event(client: ClientSpec, event: usize, transcript: Seq<Exchange>)
    requires
        client.await_event_protocol(event).completes(transcript, ()),
    ensures
        Ledger::total(transcript) == (Ledger {
            awaited: event_of(event),
            ended: event_of(event),
            ..Ledger::empty()
        }),
{
    if event == 0 {
        crate::transcript::lemma_ended(
            client.await_event_protocol(event),
            transcript,
            Protocol::Return(()),
        );
    } else {
        let entry = EntrySpec::EventAwait { event };
        let first = crate::check::checked(client.api, entry, "Event_Await"@);
        let (at, reply) = lemma_sequence(first, client.event_awaited(event), transcript, ());
        lemma_checked(client.api, entry, "Event_Await"@, transcript.take(at), reply);
        lemma_total_one(transcript.take(at));
        let tail = transcript.skip(at);
        let second = client.event_awaited(event)(reply);
        crate::transcript::lemma_called(second, tail, Protocol::Return(()));
        crate::transcript::lemma_ended(
            second.after(tail[0].reply),
            tail.drop_first(),
            Protocol::Return(()),
        );
        lemma_total_one(tail);
        assert(Ledger::total(transcript) =~= Ledger {
            awaited: event_of(event),
            ended: event_of(event),
            ..Ledger::empty()
        });
    }
}

/// What a complete upload adds up to.
pub proof fn lemma_buf_from_host(
    client: ClientSpec,
    device: usize,
    input: InputSpec,
    transcript: Seq<Exchange>,
    buffer: usize,
)
    requires
        client.buf_from_host_protocol(device, input).completes(transcript, buffer),
    ensures
        Ledger::total(transcript).transfers_complete(),
        Ledger::total(transcript) == (Ledger {
            inputs: seq![input],
            uploaded: seq![buffer],
            begun: Ledger::total(transcript).begun,
            awaited: Ledger::total(transcript).awaited,
            ended: Ledger::total(transcript).ended,
            ..Ledger::empty()
        }),
{
    let entry = EntrySpec::ClientBufferFromHostBuffer {
        client: client.client,
        data: input.data,
        dims: input.dims,
        elem_type: input.elem_type,
        semantics: crate::call::HostBufferSemantics::ImmutableUntilTransferCompletes,
        device,
    };
    let context = "BufferFromHostBuffer"@;
    let first = crate::check::checked(client.api, entry, context);
    let (at, reply) = lemma_sequence(first, client.buffer_made(), transcript, buffer);
    lemma_checked(client.api, entry, context, transcript.take(at), reply);
    lemma_total_one(transcript.take(at));
    let tail = transcript.skip(at);
    let next = crate::transfer::buffer_filled(reply.object);
    let (end, done) = lemma_sequence(
        client.await_event_protocol(reply.event),
        next,
        tail,
        buffer,
    );
    lemma_await_event(client, reply.event, tail.take(end));
    crate::transcript::lemma_ended(next(()), tail.skip(end), Protocol::Return(buffer));
    assert(input =~= InputSpec {
        data: input.data,
        dims: input.dims,
        elem_type: input.elem_type,
    });
    assert(Ledger::total(tail) =~= Ledger::total(tail.take(end)));
    assert(Ledger::total(transcript) =~= Ledger {
        inputs: seq![input],
        uploaded: seq![buffer],
        begun: event_of(reply.event),
        awaited: event_of(reply.event),
        ended: event_of(reply.event),
        ..Ledger::empty()
    });
}

/// What the complete upload of several inputs adds up to.
pub proof fn lemma_upload(
    client: ClientSpec,
    device: usize,
    inputs: Seq<InputSpec>,
    buffers: Seq<usize>,
    transcript: Seq<Exchange>,
    all: Seq<usize>,
)
    requires
        buffers.len() <= inputs.len(),
        client.upload_protocol(device, inputs, buffers).completes(transcript, all),
    ensures
        all.len() == inputs.len(),
        all.take(buffers.len() as int) == buffers,
        Ledger::total(transcript).transfers_complete(),
        Ledger::total(transcript) == (Ledger {
            inputs: inputs.skip(buffers.len() as int),
            uploaded: all.skip(buffers.len() as int),
            begun: Ledger::total(transcript).begun,
            awaited: Ledger::total(transcript).awaited,
            ended: Ledger::total(transcript).ended,
            ..Ledger::empty()
        }),
    decreases inputs.len() - buffers.len(),
{
    let count = buffers.len() as int;
    if buffers.len() < inputs.len() {
        let next = client.input_uploaded(device, inputs, buffers);
        let first = client.buf_from_host_protocol(device, inputs[count]);
        let (at, buffer) = lemma_sequence(first, next, transcript, all);
        let head = transcript.take(at);
        let tail = transcript.skip(at);
        lemma_buf_from_host(client, device, inputs[count], head, buffer);
        let more = buffers.push(buffer);
        assert(next(buffer) == client.upload_protocol(device, inputs, more));
        lemma_upload(client, device, inputs, more, tail, all);
        assert(all.take(count + 1)[count] == all[count]);
        assert(all.take(count) =~= all.take(count + 1).take(count));
        assert(more.take(count) =~= buffers);
        assert(seq![inputs[count]] + inputs.skip(count + 1) =~= inputs.skip(count));
        assert(seq![buffer] + all.skip(count + 1) =~= all.skip(count));
        assert(Ledger::total(transcript) =~= Ledger {
            inputs: inputs.skip(count),
            uploaded: all.skip(count),
            begun: Ledger::total(transcript).begun,
            awaited: Ledger::total(transcript).awaited,
            ended: Ledger::total(transcript).ended,
            ..Ledger::empty()
        });
    } else {
        crate::transcript::lemma_ended(
            client.upload_protocol(device, inputs, buffers),
            transcript,
            Protocol::Return(all),
        );
        assert(all.take(count) =~= buffers);
        assert(inputs.skip(count) =~= Seq::empty());
        assert(all.skip(count) =~= Seq::empty());
    }
}

/// What a complete lookup of the device adds up to.
pub proof fn lemma_first_device(client: ClientSpec, transcript: Seq<Exchange>, device: usize)
    requires
        client.first_device_protocol().completes(transcript, device),
    ensures
        Ledger::total(transcript) == Ledger::empty(),
{
    let entry = EntrySpec::ClientAddressableDevices { client: client.client };
    let context = "AddressableDevices"@;
    let first = crate::check::checked(client.api, entry, context);
    let next = crate::client::devices_listed();
    let (at, reply) = lemma_sequence(first, next, transcript, device);
    lemma_checked(client.api, entry, context, transcript.take(at), reply);
    lemma_total_one(transcript.take(at));
    crate::transcript::lemma_ended(next(reply), transcript.skip(at), Protocol::Return(device));
    lemma_plus_empty(Ledger::empty());
}

/// What a complete execution adds up to.
pub proof fn lemma_execute(
    client: ClientSpec,
    executable: usize,
    arguments: Seq<usize>,
    num_outputs: usize,
    transcript: Seq<Exchange>,
    outputs: Seq<usize>,
)
    requires
        client.execute_protocol(executable, arguments, num_outputs).completes(transcript, outputs),
    ensures
        outputs.len() == num_outputs,
        Ledger::total(transcript) == (Ledger {
            arguments: seq![arguments],
            outputs,
            ..Ledger::empty()
        }),
{
    let entry = EntrySpec::LoadedExecutableExecute {
        executable,
        num_devices: 1,
        arguments,
        num_outputs,
    };
    let first = crate::check::checked(client.api, entry, "Execute"@);
    let next = crate::run::outputs_listed(num_outputs);
    let (at, reply) = lemma_sequence(first, next, transcript, outputs);
    lemma_checked(client.api, entry, "Execute"@, transcript.take(at), reply);
    lemma_total_one(transcript.take(at));
    crate::transcript::lemma_ended(next(reply), transcript.skip(at), Protocol::Return(outputs));
    lemma_plus_empty(Ledger::total(transcript.take(at)));
}

/// What a complete copy to the host adds up to.
pub proof fn lemma_to_host(
    client: ClientSpec,
    buffer: usize,
    transcript: Seq<Exchange>,
    bytes: Seq<u8>,
)
    requires
        client.to_host_protocol(buffer).completes(transcript, bytes),
    ensures
        Ledger::total(transcript).transfers_complete(),
        Ledger::total(transcript) == (Ledger {
            copied: seq![buffer],
            taken: seq![bytes],
            begun: Ledger::total(transcript).begun,
            awaited: Ledger::total(transcript).awaited,
            ended: Ledger::total(transcript).ended,
            ..Ledger::empty()
        }),
{
    let sizing = EntrySpec::BufferToHostBuffer { src: buffer, dst_size: None };
    let (at, told) = lemma_sequence(
        crate::check::checked(client.api, sizing, "ToHostBuffer(size)"@),
        client.size_told(buffer),
        transcript,
        bytes,
    );
    lemma_checked(client.api, sizing, "ToHostBuffer(size)"@, transcript.take(at), told);
    lemma_total_one(transcript.take(at));
    let size = told.size;
    let rest = transcript.skip(at);
    lemma_plus_empty(Ledger::total(rest));
    let copying = EntrySpec::BufferToHostBuffer { src: buffer, dst_size: Some(size) };
    let (at, started) = lemma_sequence(
        crate::check::checked(client.api, copying, "ToHostBuffer(copy)"@),
        client.copy_started(size),
        rest,
        bytes,
    );
    lemma_checked(client.api, copying, "ToHostBuffer(copy)"@, rest.take(at), started);
    lemma_total_one(rest.take(at));
    let last = rest.skip(at);
    let next = crate::transfer::copy_complete(size);
    let (at, done) = lemma_sequence(
        client.await_event_protocol(started.event),
        next,
        last,
        bytes,
    );
    lemma_await_event(client, started.event, last.take(at));
    let tail = last.skip(at);
    crate::transcript::lemma_called(next(()), tail, Protocol::Return(bytes));
    crate::transcript::lemma_ended(
        next(()).after(tail[0].reply),
        tail.drop_first(),
        Protocol::Return(bytes),
    );
    lemma_total_one(tail);
    assert(Ledger::total(transcript) =~= Ledger {
        copied: seq![buffer],
        taken: seq![bytes],
        begun: event_of(started.event),
        awaited: event_of(started.event),
        ended: event_of(started.event),
        ..Ledger::empty()
    });
}

/// What the complete copy of several buffers adds up to.
pub proof fn lemma_read(
    client: ClientSpec,
    buffers: Seq<usize>,
    host: Seq<Seq<u8>>,
    transcript: Seq<Exchange>,
    all: Seq<Seq<u8>>,
)
    requires
        host.len() <= buffers.len(),
        client.read_protocol(buffers, host).completes(transcript, all),
    ensures
        all.len() == buffers.len(),
        all.take(host.len() as int) == host,
        Ledger::total(transcript).transfers_complete(),
        Ledger::total(transcript) == (Ledger {
            copied: buffers.skip(host.len() as int),
            taken: all.skip(host.len() as int),
            begun: Ledger::total(transcript).begun,
            awaited: Ledger::total(transcript).awaited,
            ended: Ledger::total(transcript).ended,
            ..Ledger::empty()
        }),
    decreases buffers.len() - host.len(),
{
    let count = host.len() as int;
    if host.len() < buffers.len() {
        let next = client.buffer_read(buffers, host);
        let first = client.to_host_protocol(buffers[count]);
        let (at, bytes) = lemma_sequence(first, next, transcript, all);
        let head = transcript.take(at);
        let tail = transcript.skip(at);
        lemma_to_host(client, buffers[count], head, bytes);
        let more = host.push(bytes);
        assert(next(bytes) == client.read_protocol(buffers, more));
        lemma_read(client, buffers, more, tail, all);
        assert(all.take(count + 1)[count] == all[count]);
        assert(all.take(count) =~= all.take(count + 1).take(count));
        assert(more.take(count) =~= host);
        assert(seq![buffers[count]] + buffers.skip(count + 1) =~= buffers.skip(count));
        assert(seq![bytes] + all.skip(count + 1) =~= all.skip(count));
        assert(Ledger::total(transcript) =~= Ledger {
            copied: buffers.skip(count),
            taken: all.skip(count),
            begun: Ledger::total(transcript).begun,
            awaited: Ledger::total(transcript).awaited,
            ended: Ledger::total(transcript).ended,
            ..Ledger::empty()
        });
    } else {
        crate::transcript::lemma_ended(
            client.read_protocol(buffers, host),
            transcript,
            Protocol::Return(all),
        );
        assert(all.take(count) =~= host);
        assert(buffers.skip(count) =~= Seq::empty());
        assert(all.skip(count) =~= Seq::empty());
    }
}

/// What a complete release adds up to.
pub proof fn lemma_destroy_buffer(client: ClientSpec, buffer: usize, transcript: Seq<Exchange>)
    requires
        client.destroy_buffer_protocol(buffer).completes(transcript, ()),
    ensures
        Ledger::total(transcript) == (Ledger { destroyed: seq![buffer], ..Ledger::empty() }),
{
    let entry = EntrySpec::BufferDestroy { buffer };
    let context = "Buffer_Destroy"@;
    let first = crate::check::checked(client.api, entry, context);
    let next = crate::check::nothing_returned();
    let (at, reply) = lemma_sequence(first, next, transcript, ());
    lemma_checked(client.api, entry, context, transcript.take(at), reply);
    lemma_total_one(transcript.take(at));
    crate::transcript::lemma_ended(next(reply), transcript.skip(at), Protocol::Return(()));
    lemma_plus_empty(Ledger::total(transcript.take(at)));
}

/// What the complete release of several buffers adds up to.
pub proof fn lemma_release(
    client: ClientSpec,
    buffers: Seq<usize>,
    count: nat,
    transcript: Seq<Exchange>,
)
    requires
        count <= buffers.len(),
        client.release_protocol(buffers, count).completes(transcript, ()),
    ensures
        Ledger::total(transcript) == (Ledger {
            destroyed: buffers.skip(count as int),
            ..Ledger::empty()
        }),
    decreases buffers.len() - count,
{
    if count < buffers.len() {
        let buffer = buffers[count as int];
        let next = client.buffer_released(buffers, count);
        let first = client.destroy_buffer_protocol(buffer);
        let (at, done) = lemma_sequence(first, next, transcript, ());
        let head = transcript.take(at);
        let tail = transcript.skip(at);
        lemma_destroy_buffer(client, buffer, head);
        assert(next(()) == client.release_protocol(buffers, count + 1));
        lemma_release(client, buffers, count + 1, tail);
        assert(seq![buffer] + buffers.skip(count as int + 1) =~= buffers.skip(count as int));
        assert(Ledger::total(transcript) =~= Ledger {
            destroyed: buffers.skip(count as int),
            ..Ledger::empty()
        });
    } else {
        crate::transcript::lemma_ended(
            client.release_protocol(buffers, count),
            transcript,
            Protocol::Return(()),
        );
        assert(buffers.skip(count as int) =~= Seq::empty());
    }
}

} // verus!
