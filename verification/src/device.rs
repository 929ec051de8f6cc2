//! A device that keeps what it is given.
//!
//! What a plugin does with its buffers and executables is its own matter. This
//! model states what is expected of it: a buffer holds what was put into it
//! until it is destroyed, an executable computes its outputs from what its
//! arguments hold, a copy hands over what its buffer holds once its event has
//! been awaited, an allocator's peak does not fall, and a new object is none of
//! those that exist. A plugin may still answer any call with an error, and then
//! has changed nothing.

use vstd::prelude::*;

use crate::call::{CallSpec, EntrySpec, HostCallSpec, ReplySpec};
use crate::handles::{ClientSpec, Pjrt};
use crate::memory::MemoryStats;
use crate::options::SessionOptions;
use crate::protocol::Protocol;
use crate::run::TimedSpec;
use crate::transcript::Exchange;
use crate::transfer::InputSpec;

verus! {

broadcast use crate::protocol::lemma_and_then;

/// What a device computes.
pub struct Machine {
    /// The outputs of a program, numbered from 0, on what its arguments hold.
    pub output: spec_fn(Seq<u8>, Seq<InputSpec>, int) -> InputSpec,
    /// The serialized form of a program.
    pub encoded: spec_fn(Seq<u8>) -> Seq<u8>,
    /// The program that a serialized form stands for.
    pub decoded: spec_fn(Seq<u8>) -> Seq<u8>,
    /// The first device of each client, on which it allocates.
    pub first_device: spec_fn(usize) -> usize,
    /// The devices whose allocator keeps a peak.
    pub with_peak: Set<usize>,
}

/// What is on a device: programs are identified by the code they came from.
#[verifier::ext_equal]
pub struct Device {
    /// The clients.
    pub clients: Set<usize>,
    /// What each buffer holds.
    pub buffers: Map<usize, InputSpec>,
    /// The program of each loaded executable.
    pub executables: Map<usize, Seq<u8>>,
    /// The program of each executable that was fetched to be serialized.
    pub fetched: Map<usize, Seq<u8>>,
    /// What the copies on their way will have copied, by the event that tells.
    pub copies: Map<usize, Seq<u8>>,
    /// What the last copy that came to its end has copied to the host.
    pub arrived: Option<Seq<u8>>,
    /// The peak that was last reported for a device, where one was.
    pub peaks: Map<usize, i64>,
}

impl Device {
    /// Every one of the buffers exists.
    pub open spec fn has_all(self, buffers: Seq<usize>) -> bool {
        forall|i: int|
            0 <= i < buffers.len() ==> self.buffers.dom().contains(#[trigger] buffers[i])
    }

    /// What each of the buffers holds.
    pub open spec fn contents(self, buffers: Seq<usize>) -> Seq<InputSpec> {
        Seq::new(buffers.len(), |i: int| self.buffers[buffers[i]])
    }

    /// The executable and its arguments exist.
    pub open spec fn can_run(self, executable: usize, arguments: Seq<usize>) -> bool {
        &&& self.executables.dom().contains(executable)
        &&& self.has_all(arguments)
    }

    /// None of the buffers exists, and no two of them are the same.
    pub open spec fn lacks_all(self, buffers: Seq<usize>) -> bool {
        &&& buffers.no_duplicates()
        &&& forall|i: int|
            0 <= i < buffers.len() ==> !self.buffers.dom().contains(#[trigger] buffers[i])
    }

    /// The device once `buffers` have been added, the one at `i` with
    /// `content(i)` in it.
    pub open spec fn with_all(self, buffers: Seq<usize>, content: spec_fn(int) -> InputSpec) -> Map<
        usize,
        InputSpec,
    > {
        Map::new(
            |buffer: usize| self.buffers.dom().contains(buffer) || buffers.contains(buffer),
            |buffer: usize|
                if buffers.contains(buffer) {
                    content(buffers.index_of(buffer))
                } else {
                    self.buffers[buffer]
                },
        )
    }

    /// The device once an event has been awaited.
    pub open spec fn awaited(self, event: usize) -> Device {
        if self.copies.dom().contains(event) {
            Device {
                copies: self.copies.remove(event),
                arrived: Some(self.copies[event]),
                ..self
            }
        } else {
            self
        }
    }

    /// The device once a copy has been started, whose end `event` tells; with
    /// no event it has come to its end.
    pub open spec fn copying(self, bytes: Seq<u8>, event: usize) -> Device {
        if event == 0 {
            Device { arrived: Some(bytes), ..self }
        } else {
            Device { copies: self.copies.insert(event, bytes), arrived: None, ..self }
        }
    }

    /// The clients, buffers and executables are the same on both.
    pub open spec fn keeps(self, before: Device) -> bool {
        &&& self.clients == before.clients
        &&& self.buffers == before.buffers
        &&& self.executables == before.executables
        &&& self.fetched == before.fetched
    }
}

impl Machine {
    /// The outputs of an executable of the device on what its arguments hold.
    pub open spec fn outputs(
        self,
        device: Device,
        executable: usize,
        arguments: Seq<usize>,
    ) -> spec_fn(int) -> InputSpec {
        |i: int| (self.output)(device.executables[executable], device.contents(arguments), i)
    }

    /// What the reply to a call without an error has to be.
    pub open spec fn answers(self, device: Device, exchange: Exchange) -> bool {
        let reply = exchange.reply;
        match exchange.call {
            CallSpec::Host(HostCallSpec::TakeHostBytes { size }) => {
                device.arrived matches Some(bytes) ==> reply.bytes == bytes
            },
            CallSpec::Host(call) => true,
            CallSpec::Plugin { api, entry } => reply.error != 0 || match entry {
                EntrySpec::ClientCreate { .. } => !device.clients.contains(reply.object),
                EntrySpec::ClientAddressableDevices { client } => {
                    reply.objects.len() > 0 ==> reply.objects[0] == (self.first_device)(client)
                },
                EntrySpec::DeviceMemoryStats { device: target } => {
                    &&& self.with_peak.contains(target) ==> {
                        &&& reply.report.peak_bytes_in_use_is_set
                        &&& device.peaks.dom().contains(target) ==> device.peaks[target]
                            <= reply.report.peak_bytes_in_use
                    }
                    &&& reply.report.peak_bytes_in_use_is_set
                        && reply.report.peak_pool_bytes_is_set
                        ==> reply.report.peak_bytes_in_use <= reply.report.peak_pool_bytes
                },
                EntrySpec::ClientCompile { .. } => !device.executables.dom().contains(reply.object),
                EntrySpec::ExecutableDeserializeAndLoad { .. } =>
                    !device.executables.dom().contains(reply.object),
                EntrySpec::LoadedExecutableGetExecutable { .. } =>
                    !device.fetched.dom().contains(reply.object),
                EntrySpec::ExecutableSerialize { executable } => {
                    device.fetched.dom().contains(executable) ==> reply.bytes == (self.encoded)(
                        device.fetched[executable],
                    )
                },
                EntrySpec::ClientBufferFromHostBuffer { .. } =>
                    !device.buffers.dom().contains(reply.object),
                EntrySpec::LoadedExecutableExecute { executable, arguments, num_outputs, .. } => {
                    device.can_run(executable, arguments) ==> {
                        &&& reply.objects.len() == num_outputs
                        &&& device.lacks_all(reply.objects)
                    }
                },
                EntrySpec::BufferToHostBuffer { src, dst_size: None } => {
                    device.buffers.dom().contains(src) ==> reply.size
                        == device.buffers[src].data.len()
                },
                _ => true,
            },
        }
    }

    /// The device after a call.
    pub open spec fn next(self, device: Device, exchange: Exchange) -> Device {
        let reply = exchange.reply;
        match exchange.call {
            CallSpec::Host(call) => device,
            CallSpec::Plugin { api, entry } => if reply.error != 0 {
                device
            } else {
                match entry {
                    EntrySpec::ClientCreate { .. } => Device {
                        clients: device.clients.insert(reply.object),
                        ..device
                    },
                    EntrySpec::DeviceMemoryStats { device: target } => {
                        if reply.report.peak_bytes_in_use_is_set {
                            Device {
                                peaks: device.peaks.insert(
                                    target,
                                    reply.report.peak_bytes_in_use,
                                ),
                                ..device
                            }
                        } else {
                            device
                        }
                    },
                    EntrySpec::ClientCompile { code, .. } => Device {
                        executables: device.executables.insert(reply.object, code),
                        ..device
                    },
                    EntrySpec::ExecutableDeserializeAndLoad { bytes, .. } => Device {
                        executables: device.executables.insert(
                            reply.object,
                            (self.decoded)(bytes),
                        ),
                        ..device
                    },
                    EntrySpec::LoadedExecutableDestroy { executable } => Device {
                        executables: device.executables.remove(executable),
                        ..device
                    },
                    EntrySpec::LoadedExecutableGetExecutable { executable } => Device {
                        fetched: device.fetched.insert(
                            reply.object,
                            device.executables[executable],
                        ),
                        ..device
                    },
                    EntrySpec::ExecutableDestroy { executable } => Device {
                        fetched: device.fetched.remove(executable),
                        ..device
                    },
                    EntrySpec::ClientBufferFromHostBuffer { data, dims, elem_type, .. } => Device {
                        buffers: device.buffers.insert(
                            reply.object,
                            InputSpec { data, dims, elem_type },
                        ),
                        ..device
                    },
                    EntrySpec::LoadedExecutableExecute { executable, arguments, .. } => {
                        if device.can_run(executable, arguments) {
                            Device {
                                buffers: device.with_all(
                                    reply.objects,
                                    self.outputs(device, executable, arguments),
                                ),
                                ..device
                            }
                        } else {
                            device
                        }
                    },
                    EntrySpec::BufferDestroy { buffer } => Device {
                        buffers: device.buffers.remove(buffer),
                        ..device
                    },
                    EntrySpec::BufferToHostBuffer { src, dst_size: Some(size) } => {
                        if device.buffers.dom().contains(src) && size
                            == device.buffers[src].data.len() {
                            device.copying(device.buffers[src].data, reply.event)
                        } else {
                            Device { arrived: None, ..device }
                        }
                    },
                    EntrySpec::EventAwait { event } => device.awaited(event),
                    _ => device,
                }
            },
        }
    }

    /// Every call of the transcript got the reply of such a device.
    pub open spec fn served(self, device: Device, transcript: Seq<Exchange>) -> bool
        decreases transcript.len(),
    {
        transcript.len() == 0 || {
            &&& self.answers(device, transcript[0])
            &&& self.served(self.next(device, transcript[0]), transcript.drop_first())
        }
    }

    /// The device after the calls of the transcript.
    pub open spec fn left(self, device: Device, transcript: Seq<Exchange>) -> Device
        decreases transcript.len(),
    {
        if transcript.len() == 0 {
            device
        } else {
            self.left(self.next(device, transcript[0]), transcript.drop_first())
        }
    }
}

/// A transcript is served if its first part is, and the second after it.
pub proof fn lemma_served_split(
    machine: Machine,
    device: Device,
    transcript: Seq<Exchange>,
    at: int,
)
    requires
        0 <= at <= transcript.len(),
        machine.served(device, transcript),
    ensures
        machine.served(device, transcript.take(at)),
        machine.served(machine.left(device, transcript.take(at)), transcript.skip(at)),
        machine.left(device, transcript) == machine.left(
            machine.left(device, transcript.take(at)),
            transcript.skip(at),
        ),
    decreases at,
{
    if at == 0 {
        assert(transcript.skip(0) =~= transcript);
        assert(transcript.take(0).len() == 0);
    } else {
        let tail = transcript.drop_first();
        lemma_served_split(machine, machine.next(device, transcript[0]), tail, at - 1);
        assert(transcript.take(at).drop_first() =~= tail.take(at - 1));
        assert(transcript.skip(at) =~= tail.skip(at - 1));
    }
}

/// One call leaves what it leaves.
pub proof fn lemma_one(machine: Machine, device: Device, transcript: Seq<Exchange>)
    requires
        transcript.len() == 1,
        machine.served(device, transcript),
    ensures
        machine.answers(device, transcript[0]),
        machine.left(device, transcript) == machine.next(device, transcript[0]),
{
    reveal_with_fuel(Machine::left, 2);
}

/// A complete run of two procedures in sequence is a complete run of each, the
/// second on the device that the first leaves.
pub proof fn lemma_sequence<T, U>(
    machine: Machine,
    device: Device,
    first: Protocol<T>,
    next: spec_fn(T) -> Protocol<U>,
    transcript: Seq<Exchange>,
    value: U,
) -> (split: (int, T))
    requires
        first.and_then(next).completes(transcript, value),
        machine.served(device, transcript),
    ensures
        0 <= split.0 <= transcript.len(),
        first.completes(transcript.take(split.0), split.1),
        next(split.1).completes(transcript.skip(split.0), value),
        machine.served(device, transcript.take(split.0)),
        machine.served(machine.left(device, transcript.take(split.0)), transcript.skip(split.0)),
        machine.left(device, transcript) == machine.left(
            machine.left(device, transcript.take(split.0)),
            transcript.skip(split.0),
        ),
{
    let split = crate::ledger::lemma_sequence(first, next, transcript, value);
    lemma_served_split(machine, device, transcript, split.0);
    split
}

/// A complete checked call that is followed by something else.
pub proof fn lemma_checked<U>(
    machine: Machine,
    device: Device,
    api: usize,
    entry: EntrySpec,
    context: Seq<char>,
    next: spec_fn(ReplySpec) -> Protocol<U>,
    transcript: Seq<Exchange>,
    value: U,
) -> (split: (ReplySpec, Seq<Exchange>))
    requires
        crate::check::checked(api, entry, context).and_then(next).completes(transcript, value),
        machine.served(device, transcript),
    ensures
        ({
            let exchange = Exchange { call: CallSpec::Plugin { api, entry }, reply: split.0 };
            let after = machine.next(device, exchange);
            &&& split.0.error == 0
            &&& machine.answers(device, exchange)
            &&& next(split.0).completes(split.1, value)
            &&& machine.served(after, split.1)
            &&& machine.left(device, transcript) == machine.left(after, split.1)
        }),
{
    let first = crate::check::checked(api, entry, context);
    let (at, reply) = lemma_sequence(machine, device, first, next, transcript, value);
    crate::ledger::lemma_checked(api, entry, context, transcript.take(at), reply);
    lemma_one(machine, device, transcript.take(at));
    (reply, transcript.skip(at))
}

/// A complete call of which the reply is used as it is.
pub proof fn lemma_call<T>(
    machine: Machine,
    device: Device,
    protocol: Protocol<T>,
    transcript: Seq<Exchange>,
    value: T,
) -> (split: (ReplySpec, Seq<Exchange>))
    requires
        protocol is Call,
        protocol.completes(transcript, value),
        machine.served(device, transcript),
    ensures
        ({
            let exchange = Exchange { call: protocol.call(), reply: split.0 };
            let after = machine.next(device, exchange);
            &&& machine.answers(device, exchange)
            &&& protocol.after(split.0).completes(split.1, value)
            &&& machine.served(after, split.1)
            &&& machine.left(device, transcript) == machine.left(after, split.1)
        }),
{
    crate::transcript::lemma_called(protocol, transcript, Protocol::Return(value));
    assert(transcript[0] == Exchange { call: protocol.call(), reply: transcript[0].reply });
    (transcript[0].reply, transcript.drop_first())
}

/// A complete run of a procedure that returns at once.
pub proof fn lemma_return<T>(
    machine: Machine,
    device: Device,
    protocol: Protocol<T>,
    transcript: Seq<Exchange>,
    value: T,
)
    requires
        protocol is Return,
        protocol.completes(transcript, value),
    ensures
        protocol == Protocol::Return(value),
        machine.left(device, transcript) == device,
{
    crate::transcript::lemma_ended(protocol, transcript, Protocol::Return(value));
}

/// Waiting brings a copy to its end and changes nothing else.
pub proof fn lemma_await_event(
    machine: Machine,
    device: Device,
    client: ClientSpec,
    event: usize,
    transcript: Seq<Exchange>,
)
    requires
        client.await_event_protocol(event).completes(transcript, ()),
        machine.served(device, transcript),
    ensures
        machine.left(device, transcript) == if event == 0 {
            device
        } else {
            device.awaited(event)
        },
{
    if event == 0 {
        lemma_return(machine, device, client.await_event_protocol(event), transcript, ());
    } else {
        let entry = EntrySpec::EventAwait { event };
        let next = client.event_awaited(event);
        let (reply, rest) = lemma_checked(
            machine,
            device,
            client.api,
            entry,
            "Event_Await"@,
            next,
            transcript,
            (),
        );
        let after = device.awaited(event);
        let (destroyed, none) = lemma_call(machine, after, next(reply), rest, ());
        lemma_return(machine, after, next(reply).after(destroyed), none, ());
    }
}

/// Looking up the device finds the client's first one and changes nothing.
pub proof fn lemma_first_device(
    machine: Machine,
    device: Device,
    client: ClientSpec,
    transcript: Seq<Exchange>,
    found: usize,
)
    requires
        client.first_device_protocol().completes(transcript, found),
        machine.served(device, transcript),
    ensures
        found == (machine.first_device)(client.client),
        machine.left(device, transcript) == device,
{
    let entry = EntrySpec::ClientAddressableDevices { client: client.client };
    let next = crate::client::devices_listed();
    let (reply, rest) = lemma_checked(
        machine,
        device,
        client.api,
        entry,
        "AddressableDevices"@,
        next,
        transcript,
        found,
    );
    crate::transcript::lemma_ended(next(reply), rest, Protocol::Return(found));
}

/// An upload adds a buffer that holds the input.
pub proof fn lemma_buf_from_host(
    machine: Machine,
    device: Device,
    client: ClientSpec,
    target: usize,
    input: InputSpec,
    transcript: Seq<Exchange>,
    buffer: usize,
)
    requires
        client.buf_from_host_protocol(target, input).completes(transcript, buffer),
        machine.served(device, transcript),
    ensures
        !device.buffers.dom().contains(buffer),
        machine.left(device, transcript).keeps(
            (Device { buffers: device.buffers.insert(buffer, input), ..device }),
        ),
{
    let entry = EntrySpec::ClientBufferFromHostBuffer {
        client: client.client,
        data: input.data,
        dims: input.dims,
        elem_type: input.elem_type,
        semantics: crate::call::HostBufferSemantics::ImmutableUntilTransferCompletes,
        device: target,
    };
    let (reply, rest) = lemma_checked(
        machine,
        device,
        client.api,
        entry,
        "BufferFromHostBuffer"@,
        client.buffer_made(),
        transcript,
        buffer,
    );
    assert(input == InputSpec {
        data: input.data,
        dims: input.dims,
        elem_type: input.elem_type,
    });
    let filled = Device { buffers: device.buffers.insert(reply.object, input), ..device };
    let next = crate::transfer::buffer_filled(reply.object);
    let waiting = client.await_event_protocol(reply.event);
    let (at, done) = lemma_sequence(machine, filled, waiting, next, rest, buffer);
    lemma_await_event(machine, filled, client, reply.event, rest.take(at));
    let waited = machine.left(filled, rest.take(at));
    lemma_return(machine, waited, next(()), rest.skip(at), buffer);
}

/// What [`lemma_buf_from_host`] says, of the upload of a session.
pub proof fn lemma_input_buffer(
    machine: Machine,
    device: Device,
    client: ClientSpec,
    input: InputSpec,
    transcript: Seq<Exchange>,
    buffer: usize,
)
    requires
        client.input_buffer_protocol(input).completes(transcript, buffer),
        machine.served(device, transcript),
    ensures
        !device.buffers.dom().contains(buffer),
        machine.left(device, transcript).keeps(
            (Device { buffers: device.buffers.insert(buffer, input), ..device }),
        ),
{
    let next = client.device_chosen(input);
    let first = client.first_device_protocol();
    let (at, found) = lemma_sequence(machine, device, first, next, transcript, buffer);
    lemma_first_device(machine, device, client, transcript.take(at), found);
    lemma_buf_from_host(machine, device, client, found, input, transcript.skip(at), buffer);
}

/// Uploading several inputs adds a buffer for each, which holds it, and leaves
/// the others as they are.
pub proof fn lemma_upload(
    machine: Machine,
    device: Device,
    client: ClientSpec,
    target: usize,
    inputs: Seq<InputSpec>,
    buffers: Seq<usize>,
    transcript: Seq<Exchange>,
    all: Seq<usize>,
)
    requires
        buffers.len() <= inputs.len(),
        client.upload_protocol(target, inputs, buffers).completes(transcript, all),
        machine.served(device, transcript),
        device.has_all(buffers),
        device.contents(buffers) == inputs.take(buffers.len() as int),
    ensures
        machine.left(device, transcript).has_all(all),
        machine.left(device, transcript).contents(all) == inputs,
        machine.left(device, transcript).clients == device.clients,
        machine.left(device, transcript).executables == device.executables,
        machine.left(device, transcript).fetched == device.fetched,
        device.buffers.submap_of(machine.left(device, transcript).buffers),
    decreases inputs.len() - buffers.len(),
{
    let count = buffers.len() as int;
    if count < inputs.len() {
        let next = client.input_uploaded(target, inputs, buffers);
        let first = client.buf_from_host_protocol(target, inputs[count]);
        let (at, buffer) = lemma_sequence(machine, device, first, next, transcript, all);
        let head = transcript.take(at);
        lemma_buf_from_host(machine, device, client, target, inputs[count], head, buffer);
        let after = machine.left(device, head);
        let more = buffers.push(buffer);
        assert(next(buffer) == client.upload_protocol(target, inputs, more));
        assert forall|i: int| 0 <= i < more.len() implies after.buffers.dom().contains(
            #[trigger] more[i],
        ) && after.buffers[more[i]] == inputs[i] by {
            if i < count {
                assert(device.buffers.dom().contains(buffers[i]));
                assert(device.contents(buffers)[i] == inputs.take(count)[i]);
            }
        }
        assert(after.contents(more) =~= inputs.take(count + 1));
        lemma_upload(machine, after, client, target, inputs, more, transcript.skip(at), all);
        assert(device.buffers.submap_of(after.buffers));
        let left = machine.left(device, transcript);
        assert forall|key: usize| #[trigger] device.buffers.dom().contains(key) implies {
            &&& left.buffers.dom().contains(key)
            &&& left.buffers[key] == device.buffers[key]
        } by {
            assert(after.buffers.dom().contains(key));
        }
    } else {
        let done = client.upload_protocol(target, inputs, buffers);
        lemma_return(machine, device, done, transcript, all);
        assert(inputs.take(count) =~= inputs);
    }
}

/// An execution adds a buffer for each output, which holds it.
pub proof fn lemma_execute(
    machine: Machine,
    device: Device,
    client: ClientSpec,
    executable: usize,
    arguments: Seq<usize>,
    num_outputs: usize,
    transcript: Seq<Exchange>,
    outputs: Seq<usize>,
)
    requires
        client.execute_protocol(executable, arguments, num_outputs).completes(transcript, outputs),
        machine.served(device, transcript),
        device.can_run(executable, arguments),
    ensures
        outputs.len() == num_outputs,
        device.lacks_all(outputs),
        machine.left(device, transcript).keeps(
            (Device {
                buffers: device.with_all(
                    outputs,
                    machine.outputs(device, executable, arguments),
                ),
                ..device
            }),
        ),
        machine.left(device, transcript).has_all(outputs),
        forall|i: int|
            0 <= i < outputs.len() ==> machine.left(
                device,
                transcript,
            ).buffers[#[trigger] outputs[i]] == machine.outputs(device, executable, arguments)(i),
{
    let entry = EntrySpec::LoadedExecutableExecute {
        executable,
        num_devices: 1,
        arguments,
        num_outputs,
    };
    let next = crate::run::outputs_listed(num_outputs);
    let (reply, rest) = lemma_checked(
        machine,
        device,
        client.api,
        entry,
        "Execute"@,
        next,
        transcript,
        outputs,
    );
    let after = machine.left(device, transcript);
    crate::transcript::lemma_ended(next(reply), rest, Protocol::Return(outputs));
    assert(outputs =~= reply.objects);
    assert forall|i: int| 0 <= i < outputs.len() implies after.buffers.dom().contains(
        #[trigger] outputs[i],
    ) && after.buffers[outputs[i]] == machine.outputs(device, executable, arguments)(i) by {
        assert(outputs.contains(outputs[i]));
        let found = outputs.index_of(outputs[i]);
        assert(outputs[found] == outputs[i]);
        assert(found == i);
    }
}

/// A copy to the host returns what the buffer holds.
pub proof fn lemma_to_host(
    machine: Machine,
    device: Device,
    client: ClientSpec,
    buffer: usize,
    transcript: Seq<Exchange>,
    bytes: Seq<u8>,
)
    requires
        client.to_host_protocol(buffer).completes(transcript, bytes),
        machine.served(device, transcript),
        device.buffers.dom().contains(buffer),
    ensures
        bytes == device.buffers[buffer].data,
        machine.left(device, transcript).keeps(device),
{
    let data = device.buffers[buffer].data;
    let sizing = EntrySpec::BufferToHostBuffer { src: buffer, dst_size: None };
    let (told, rest) = lemma_checked(
        machine,
        device,
        client.api,
        sizing,
        "ToHostBuffer(size)"@,
        client.size_told(buffer),
        transcript,
        bytes,
    );
    let size = told.size;
    assert(size == data.len());
    let copying = EntrySpec::BufferToHostBuffer { src: buffer, dst_size: Some(size) };
    let (started, rest) = lemma_checked(
        machine,
        device,
        client.api,
        copying,
        "ToHostBuffer(copy)"@,
        client.copy_started(size),
        rest,
        bytes,
    );
    let under_way = device.copying(data, started.event);
    let waiting = client.await_event_protocol(started.event);
    let next = crate::transfer::copy_complete(size);
    let (at, done) = lemma_sequence(machine, under_way, waiting, next, rest, bytes);
    lemma_await_event(machine, under_way, client, started.event, rest.take(at));
    let waited = machine.left(under_way, rest.take(at));
    assert(waited.arrived == Some(data));
    let (taken, none) = lemma_call(machine, waited, next(()), rest.skip(at), bytes);
    lemma_return(machine, waited, next(()).after(taken), none, bytes);
    assert(taken.bytes == data);
    assert(bytes =~= data);
}

/// Reading several buffers returns what each holds.
pub proof fn lemma_read(
    machine: Machine,
    device: Device,
    client: ClientSpec,
    buffers: Seq<usize>,
    host: Seq<Seq<u8>>,
    transcript: Seq<Exchange>,
    all: Seq<Seq<u8>>,
)
    requires
        host.len() <= buffers.len(),
        client.read_protocol(buffers, host).completes(transcript, all),
        machine.served(device, transcript),
        device.has_all(buffers),
        forall|i: int|
            0 <= i < host.len() ==> #[trigger] host[i] == device.buffers[buffers[i]].data,
    ensures
        all.len() == buffers.len(),
        forall|i: int|
            0 <= i < all.len() ==> #[trigger] all[i] == device.buffers[buffers[i]].data,
        machine.left(device, transcript).keeps(device),
    decreases buffers.len() - host.len(),
{
    let count = host.len() as int;
    if count < buffers.len() {
        let next = client.buffer_read(buffers, host);
        let first = client.to_host_protocol(buffers[count]);
        let (at, bytes) = lemma_sequence(machine, device, first, next, transcript, all);
        lemma_to_host(machine, device, client, buffers[count], transcript.take(at), bytes);
        let after = machine.left(device, transcript.take(at));
        let more = host.push(bytes);
        assert(next(bytes) == client.read_protocol(buffers, more));
        lemma_read(machine, after, client, buffers, more, transcript.skip(at), all);
    } else {
        lemma_return(machine, device, client.read_protocol(buffers, host), transcript, all);
    }
}

/// Destroying a buffer removes it and no other.
pub proof fn lemma_destroy_buffer(
    machine: Machine,
    device: Device,
    client: ClientSpec,
    buffer: usize,
    transcript: Seq<Exchange>,
)
    requires
        client.destroy_buffer_protocol(buffer).completes(transcript, ()),
        machine.served(device, transcript),
    ensures
        machine.left(device, transcript).keeps(
            (Device { buffers: device.buffers.remove(buffer), ..device }),
        ),
{
    let entry = EntrySpec::BufferDestroy { buffer };
    let next = crate::check::nothing_returned();
    let (reply, rest) = lemma_checked(
        machine,
        device,
        client.api,
        entry,
        "Buffer_Destroy"@,
        next,
        transcript,
        (),
    );
    crate::transcript::lemma_ended(next(reply), rest, Protocol::Return(()));
}

/// Releasing several buffers removes them and no others.
pub proof fn lemma_release(
    machine: Machine,
    device: Device,
    client: ClientSpec,
    buffers: Seq<usize>,
    count: nat,
    transcript: Seq<Exchange>,
)
    requires
        count <= buffers.len(),
        client.release_protocol(buffers, count).completes(transcript, ()),
        machine.served(device, transcript),
    ensures
        machine.left(device, transcript).keeps(
            (Device {
                buffers: device.buffers.remove_keys(buffers.skip(count as int).to_set()),
                ..device
            }),
        ),
    decreases buffers.len() - count,
{
    let kept = device.buffers.remove_keys(buffers.skip(count as int).to_set());
    if count < buffers.len() {
        let buffer = buffers[count as int];
        let next = client.buffer_released(buffers, count);
        let first = client.destroy_buffer_protocol(buffer);
        let (at, done) = lemma_sequence(machine, device, first, next, transcript, ());
        lemma_destroy_buffer(machine, device, client, buffer, transcript.take(at));
        let after = machine.left(device, transcript.take(at));
        assert(next(()) == client.release_protocol(buffers, count + 1));
        lemma_release(machine, after, client, buffers, count + 1, transcript.skip(at));
        let others = buffers.skip(count as int + 1);
        assert(buffers.skip(count as int) =~= seq![buffer] + others);
        assert forall|key: usize|
            buffers.skip(count as int).contains(key) == (key == buffer || others.contains(key)) by {
            if others.contains(key) {
                let i = others.index_of(key);
                assert(buffers.skip(count as int)[i + 1] == key);
            }
            assert(buffers.skip(count as int)[0] == buffer);
        }
        let remaining = after.buffers.remove_keys(others.to_set());
        assert forall|key: usize| #[trigger]
            remaining.dom().contains(key) == kept.dom().contains(key) by {
            assert(others.to_set().contains(key) == others.contains(key));
            assert(buffers.skip(count as int).to_set().contains(key) == buffers.skip(
                count as int,
            ).contains(key));
        }
        assert(remaining =~= kept);
    } else {
        lemma_return(machine, device, client.release_protocol(buffers, count), transcript, ());
        assert(buffers.skip(count as int).to_set() =~= Set::empty());
        assert(kept =~= device.buffers);
    }
}

/// A timed run returns the outputs of the executable and leaves the device as
/// it was.
pub proof fn lemma_run_buffers_timed(
    machine: Machine,
    device: Device,
    client: ClientSpec,
    executable: usize,
    arguments: Seq<usize>,
    num_outputs: usize,
    transcript: Seq<Exchange>,
    value: TimedSpec,
)
    requires
        client.run_buffers_timed_protocol(executable, arguments, num_outputs).completes(
            transcript,
            value,
        ),
        machine.served(device, transcript),
        device.can_run(executable, arguments),
    ensures
        value.0 == Seq::new(
            num_outputs as nat,
            |i: int| machine.outputs(device, executable, arguments)(i).data,
        ),
        machine.left(device, transcript).keeps(device),
{
    let protocol = client.run_buffers_timed_protocol(executable, arguments, num_outputs);
    let (start, rest) = lemma_call(machine, device, protocol, transcript, value);
    let execution = client.execute_protocol(executable, arguments, num_outputs);
    let next = client.run_dispatched(start.nanos);
    let (at, outputs) = lemma_sequence(machine, device, execution, next, rest, value);
    let head = rest.take(at);
    lemma_execute(
        machine,
        device,
        client,
        executable,
        arguments,
        num_outputs,
        head,
        outputs,
    );
    let after = machine.left(device, head);
    let clock = next(outputs);
    let (end, rest) = lemma_call(machine, after, clock, rest.skip(at), value);
    let dispatch = crate::run::elapsed(start.nanos, end.nanos);
    let clock = client.dispatch_timed(outputs, start.nanos)(end);
    let (start, rest) = lemma_call(machine, after, clock, rest, value);
    let reading = client.read_protocol(outputs, Seq::empty());
    let next = client.outputs_read(outputs, dispatch, start.nanos);
    let (at, host) = lemma_sequence(machine, after, reading, next, rest, value);
    lemma_read(machine, after, client, outputs, Seq::empty(), rest.take(at), host);
    let read = machine.left(after, rest.take(at));
    let clock = next(host);
    let (end, rest) = lemma_call(machine, read, clock, rest.skip(at), value);
    let release = client.release_protocol(outputs, 0);
    let next = crate::run::outputs_released(
        host,
        dispatch,
        crate::run::elapsed(start.nanos, end.nanos),
    );
    let (at, done) = lemma_sequence(machine, read, release, next, rest, value);
    lemma_release(machine, read, client, outputs, 0, rest.take(at));
    let released = machine.left(read, rest.take(at));
    lemma_return(machine, released, next(()), rest.skip(at), value);
    assert(value.0 =~= Seq::new(
        num_outputs as nat,
        |i: int| machine.outputs(device, executable, arguments)(i).data,
    ));
    lemma_added_and_removed(device, outputs, machine.outputs(device, executable, arguments));
}

/// Adding buffers and removing them leaves the others.
proof fn lemma_added_and_removed(
    device: Device,
    buffers: Seq<usize>,
    content: spec_fn(int) -> InputSpec,
)
    requires
        device.lacks_all(buffers),
    ensures
        device.with_all(buffers, content).remove_keys(buffers.skip(0).to_set()) == device.buffers,
{
    let left = device.with_all(buffers, content).remove_keys(buffers.skip(0).to_set());
    assert(buffers.skip(0) =~= buffers);
    assert forall|key: usize| #[trigger]
        left.dom().contains(key) == device.buffers.dom().contains(key) by {
        assert(buffers.to_set().contains(key) == buffers.contains(key));
        if buffers.contains(key) {
            let i = buffers.index_of(key);
            assert(buffers[i] == key);
        }
    }
    assert(left =~= device.buffers);
}

/// What [`lemma_run_buffers_timed`] says, of the run without the times.
pub proof fn lemma_run_buffers(
    machine: Machine,
    device: Device,
    client: ClientSpec,
    executable: usize,
    arguments: Seq<usize>,
    num_outputs: usize,
    transcript: Seq<Exchange>,
    host: Seq<Seq<u8>>,
)
    requires
        client.run_buffers_protocol(executable, arguments, num_outputs).completes(
            transcript,
            host,
        ),
        machine.served(device, transcript),
        device.can_run(executable, arguments),
    ensures
        host == Seq::new(
            num_outputs as nat,
            |i: int| machine.outputs(device, executable, arguments)(i).data,
        ),
        machine.left(device, transcript).keeps(device),
{
    let first = client.run_buffers_timed_protocol(executable, arguments, num_outputs);
    let next = crate::session::times_dropped();
    let (at, value) = lemma_sequence(machine, device, first, next, transcript, host);
    lemma_run_buffers_timed(
        machine,
        device,
        client,
        executable,
        arguments,
        num_outputs,
        transcript.take(at),
        value,
    );
    let after = machine.left(device, transcript.take(at));
    lemma_return(machine, after, next(value), transcript.skip(at), host);
}

/// A run on host inputs returns the outputs of the executable on them and
/// leaves every executable, and what every buffer held, as it was.
pub proof fn lemma_run_loaded(
    machine: Machine,
    device: Device,
    client: ClientSpec,
    executable: usize,
    inputs: Seq<InputSpec>,
    num_outputs: usize,
    transcript: Seq<Exchange>,
    host: Seq<Seq<u8>>,
)
    requires
        client.run_loaded_protocol(executable, inputs, num_outputs).completes(transcript, host),
        machine.served(device, transcript),
        device.executables.dom().contains(executable),
    ensures
        host == Seq::new(
            num_outputs as nat,
            |i: int| (machine.output)(device.executables[executable], inputs, i).data,
        ),
        machine.left(device, transcript).clients == device.clients,
        machine.left(device, transcript).executables == device.executables,
        machine.left(device, transcript).fetched == device.fetched,
        device.buffers.submap_of(machine.left(device, transcript).buffers),
{
    let next = client.device_found(executable, inputs, num_outputs);
    let first = client.first_device_protocol();
    let (at, target) = lemma_sequence(machine, device, first, next, transcript, host);
    lemma_first_device(machine, device, client, transcript.take(at), target);
    let rest = transcript.skip(at);
    let uploading = client.upload_protocol(target, inputs, Seq::empty());
    let next = client.inputs_uploaded(executable, num_outputs);
    let (at, arguments) = lemma_sequence(machine, device, uploading, next, rest, host);
    assert(device.contents(Seq::empty()) =~= inputs.take(0));
    lemma_upload(machine, device, client, target, inputs, Seq::empty(), rest.take(at), arguments);
    let ready = machine.left(device, rest.take(at));
    let rest = rest.skip(at);
    let execution = client.execute_protocol(executable, arguments, num_outputs);
    let (at, outputs) = lemma_sequence(machine, ready, execution, client.executed(), rest, host);
    lemma_execute(
        machine,
        ready,
        client,
        executable,
        arguments,
        num_outputs,
        rest.take(at),
        outputs,
    );
    let after = machine.left(ready, rest.take(at));
    lemma_read(machine, after, client, outputs, Seq::empty(), rest.skip(at), host);
    assert(host =~= Seq::new(
        num_outputs as nat,
        |i: int| (machine.output)(device.executables[executable], inputs, i).data,
    ));
    lemma_added(ready, outputs, machine.outputs(ready, executable, arguments));
    assert forall|key: usize| #[trigger] device.buffers.dom().contains(key) implies {
        &&& after.buffers.dom().contains(key)
        &&& after.buffers[key] == device.buffers[key]
    } by {
        assert(ready.buffers.dom().contains(key));
    }
}

/// Adding buffers leaves what the others hold.
proof fn lemma_added(device: Device, buffers: Seq<usize>, content: spec_fn(int) -> InputSpec)
    requires
        device.lacks_all(buffers),
    ensures
        device.buffers.submap_of(device.with_all(buffers, content)),
{
    let more = device.with_all(buffers, content);
    assert forall|key: usize| #[trigger] device.buffers.dom().contains(key) implies {
        &&& more.dom().contains(key)
        &&& more[key] == device.buffers[key]
    } by {
        if buffers.contains(key) {
            let i = buffers.index_of(key);
            assert(buffers[i] == key);
        }
    }
}

/// Compiling adds an executable of the code.
pub proof fn lemma_compile(
    machine: Machine,
    device: Device,
    client: ClientSpec,
    code: Seq<u8>,
    transcript: Seq<Exchange>,
    executable: usize,
)
    requires
        client.compile_protocol(code).completes(transcript, executable),
        machine.served(device, transcript),
    ensures
        !device.executables.dom().contains(executable),
        machine.left(device, transcript).keeps(
            (Device { executables: device.executables.insert(executable, code), ..device }),
        ),
{
    let entry = EntrySpec::ClientCompile {
        client: client.client,
        code,
        format: "mlir"@,
        compile_options: crate::client::compile_options(),
    };
    let next = crate::client::object_returned();
    let (reply, rest) = lemma_checked(
        machine,
        device,
        client.api,
        entry,
        "Client_Compile"@,
        next,
        transcript,
        executable,
    );
    crate::transcript::lemma_ended(next(reply), rest, Protocol::Return(executable));
}

/// Loading adds an executable of the program that the bytes stand for.
pub proof fn lemma_deserialize_and_load(
    machine: Machine,
    device: Device,
    client: ClientSpec,
    bytes: Seq<u8>,
    transcript: Seq<Exchange>,
    executable: usize,
)
    requires
        client.deserialize_and_load_protocol(bytes).completes(transcript, executable),
        machine.served(device, transcript),
    ensures
        !device.executables.dom().contains(executable),
        machine.left(device, transcript).keeps(
            (Device {
                executables: device.executables.insert(executable, (machine.decoded)(bytes)),
                ..device
            }),
        ),
{
    let entry = EntrySpec::ExecutableDeserializeAndLoad { client: client.client, bytes };
    let next = crate::client::object_returned();
    let (reply, rest) = lemma_checked(
        machine,
        device,
        client.api,
        entry,
        "Executable_DeserializeAndLoad"@,
        next,
        transcript,
        executable,
    );
    crate::transcript::lemma_ended(next(reply), rest, Protocol::Return(executable));
}

/// Serializing returns the serialized form of the executable's program and
/// leaves the buffers and the loaded executables as they were.
pub proof fn lemma_serialize(
    machine: Machine,
    device: Device,
    client: ClientSpec,
    executable: usize,
    transcript: Seq<Exchange>,
    bytes: Seq<u8>,
)
    requires
        client.serialize_protocol(executable).completes(transcript, bytes),
        machine.served(device, transcript),
    ensures
        bytes == (machine.encoded)(device.executables[executable]),
        machine.left(device, transcript).buffers == device.buffers,
        machine.left(device, transcript).executables == device.executables,
{
    let entry = EntrySpec::LoadedExecutableGetExecutable { executable };
    let (fetched, rest) = lemma_checked(
        machine,
        device,
        client.api,
        entry,
        "GetExecutable"@,
        client.executable_fetched(),
        transcript,
        bytes,
    );
    let program = device.executables[executable];
    let open = Device { fetched: device.fetched.insert(fetched.object, program), ..device };
    let entry = EntrySpec::ExecutableSerialize { executable: fetched.object };
    let next = client.executable_serialized(fetched.object);
    let (reply, rest) = lemma_checked(
        machine,
        open,
        client.api,
        entry,
        "Executable_Serialize"@,
        next,
        rest,
        bytes,
    );
    if reply.deleter != 0 {
        let (deleted, rest) = lemma_call(machine, open, next(reply), rest, bytes);
        lemma_fetched_destroyed(machine, open, client, fetched.object, reply.bytes, rest, bytes);
    } else {
        lemma_fetched_destroyed(machine, open, client, fetched.object, reply.bytes, rest, bytes);
    }
}

/// Destroying what was fetched changes nothing else.
proof fn lemma_fetched_destroyed(
    machine: Machine,
    device: Device,
    client: ClientSpec,
    executable: usize,
    given: Seq<u8>,
    transcript: Seq<Exchange>,
    bytes: Seq<u8>,
)
    requires
        client.fetched_destroyed(executable, given).completes(transcript, bytes),
        machine.served(device, transcript),
    ensures
        bytes == given,
        machine.left(device, transcript).buffers == device.buffers,
        machine.left(device, transcript).executables == device.executables,
{
    let protocol = client.fetched_destroyed(executable, given);
    let (destroyed, none) = lemma_call(machine, device, protocol, transcript, bytes);
    crate::transcript::lemma_ended(protocol.after(destroyed), none, Protocol::Return(bytes));
}

/// Freeing an executable leaves the others and the buffers as they were.
pub proof fn lemma_free_executable(
    machine: Machine,
    device: Device,
    client: ClientSpec,
    executable: usize,
    transcript: Seq<Exchange>,
)
    requires
        client.free_executable_protocol(executable).completes(transcript, ()),
        machine.served(device, transcript),
    ensures
        transcript.len() == 1,
        machine.left(device, transcript).keeps(
            (Device {
                executables: if transcript[0].reply.error == 0 {
                    device.executables.remove(executable)
                } else {
                    device.executables
                },
                ..device
            }),
        ),
{
    let protocol = client.free_executable_protocol(executable);
    crate::transcript::lemma_called(protocol, transcript, Protocol::Return(()));
    crate::transcript::lemma_ended(
        protocol.after(transcript[0].reply),
        transcript.drop_first(),
        Protocol::Return(()),
    );
    lemma_one(machine, device, transcript);
}

/// No call of the transcript is meant to destroy the buffer.
pub open spec fn spares(transcript: Seq<Exchange>, buffer: usize) -> bool {
    forall|i: int, api: usize|
        0 <= i < transcript.len() ==> (#[trigger] transcript[i]).call != (#[trigger] destroying(
            api,
            buffer,
        ))
}

/// The call that destroys a buffer.
pub open spec fn destroying(api: usize, buffer: usize) -> CallSpec {
    CallSpec::Plugin { api, entry: EntrySpec::BufferDestroy { buffer } }
}

/// A buffer holds what it held, whatever is done, until it is destroyed.
pub proof fn lemma_spared(
    machine: Machine,
    device: Device,
    buffer: usize,
    transcript: Seq<Exchange>,
)
    requires
        machine.served(device, transcript),
        device.buffers.dom().contains(buffer),
        spares(transcript, buffer),
    ensures
        machine.left(device, transcript).buffers.dom().contains(buffer),
        machine.left(device, transcript).buffers[buffer] == device.buffers[buffer],
    decreases transcript.len(),
{
    if transcript.len() > 0 {
        let after = machine.next(device, transcript[0]);
        let reply = transcript[0].reply;
        match transcript[0].call {
            CallSpec::Host(call) => {},
            CallSpec::Plugin { api, entry } => {
                assert(transcript[0].call != destroying(api, buffer));
                if let EntrySpec::LoadedExecutableExecute { executable, arguments, .. } = entry {
                    if reply.error == 0 && device.can_run(executable, arguments) {
                        let content = machine.outputs(device, executable, arguments);
                        lemma_added(device, reply.objects, content);
                        assert(after.buffers.dom().contains(buffer));
                    }
                }
            },
        }
        assert(after.buffers.dom().contains(buffer));
        assert(after.buffers[buffer] == device.buffers[buffer]);
        let tail = transcript.drop_first();
        assert forall|i: int, api: usize| 0 <= i < tail.len() implies (#[trigger] tail[i]).call
            != (#[trigger] destroying(api, buffer)) by {
            assert(tail[i] == transcript[i + 1]);
        }
        lemma_spared(machine, after, buffer, tail);
    }
}

/// Opening a session adds its client.
pub proof fn lemma_create_client(
    machine: Machine,
    device: Device,
    pjrt: Pjrt,
    options: SessionOptions,
    transcript: Seq<Exchange>,
    client: ClientSpec,
)
    requires
        pjrt.create_client_protocol(options).completes(transcript, client),
        machine.served(device, transcript),
    ensures
        client.api == pjrt.api,
        !device.clients.contains(client.client),
        machine.left(device, transcript).keeps(
            (Device { clients: device.clients.insert(client.client), ..device }),
        ),
{
    let entry = EntrySpec::ClientCreate { options: options.named() };
    let next = pjrt.client_created();
    let (reply, rest) = lemma_checked(
        machine,
        device,
        pjrt.api,
        entry,
        "Client_Create"@,
        next,
        transcript,
        client,
    );
    crate::transcript::lemma_ended(next(reply), rest, Protocol::Return(client));
}

/// Statistics tell what the allocator of the client's device holds: where it
/// keeps a peak, one that is not below the last; and a pool that covers it.
pub proof fn lemma_memory_stats(
    machine: Machine,
    device: Device,
    client: ClientSpec,
    transcript: Seq<Exchange>,
    stats: MemoryStats,
)
    requires
        client.memory_stats_protocol().completes(transcript, Some(stats)),
        machine.served(device, transcript),
    ensures
        ({
            let target = (machine.first_device)(client.client);
            machine.with_peak.contains(target) ==> {
                &&& stats.peak_bytes_in_use is Some
                &&& device.peaks.dom().contains(target) ==> device.peaks[target]
                    <= stats.peak_bytes_in_use->0
                &&& machine.left(device, transcript).peaks.dom().contains(target)
                &&& machine.left(device, transcript).peaks[target] == stats.peak_bytes_in_use->0
            }
        }),
        stats.peak_bytes_in_use is Some && stats.peak_pool_bytes is Some
            ==> stats.peak_bytes_in_use->0 <= stats.peak_pool_bytes->0,
        machine.left(device, transcript).keeps(device),
{
    let first = client.first_device_protocol();
    let next = client.device_asked();
    let (at, target) = lemma_sequence(machine, device, first, next, transcript, Some(stats));
    lemma_first_device(machine, device, client, transcript.take(at), target);
    let rest = transcript.skip(at);
    let (reply, rest) = lemma_call(machine, device, next(target), rest, Some(stats));
    let answered = next(target).after(reply);
    if reply.error != 0 {
        crate::transcript::lemma_called(answered, rest, Protocol::Return(Some(stats)));
        crate::transcript::lemma_ended(
            answered.after(rest[0].reply),
            rest.drop_first(),
            Protocol::Return(Some(stats)),
        );
    } else {
        crate::transcript::lemma_ended(answered, rest, Protocol::Return(Some(stats)));
    }
}

/// Whatever is done, no client goes, and no peak that an allocator keeps falls.
pub proof fn lemma_grows(machine: Machine, device: Device, transcript: Seq<Exchange>)
    requires
        machine.served(device, transcript),
    ensures
        device.clients.subset_of(machine.left(device, transcript).clients),
        forall|target: usize|
            machine.with_peak.contains(target) && #[trigger] device.peaks.dom().contains(target)
                ==> {
                &&& machine.left(device, transcript).peaks.dom().contains(target)
                &&& device.peaks[target] <= machine.left(device, transcript).peaks[target]
            },
    decreases transcript.len(),
{
    if transcript.len() > 0 {
        let after = machine.next(device, transcript[0]);
        assert(device.clients.subset_of(after.clients));
        lemma_grows(machine, after, transcript.drop_first());
        let left = machine.left(device, transcript);
        assert forall|target: usize|
            machine.with_peak.contains(target) && #[trigger] device.peaks.dom().contains(
                target,
            ) implies {
            &&& left.peaks.dom().contains(target)
            &&& device.peaks[target] <= left.peaks[target]
        } by {
            assert(after.peaks.dom().contains(target));
            assert(device.peaks[target] <= after.peaks[target]);
        }
    }
}

} // verus!
