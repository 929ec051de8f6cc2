//! What is exchanged with the plugin, call by call.
//!
//! For each procedure this says what a run that returns looks like: which call
//! stands where, with which arguments, and what the result is made of. It is
//! said of the caller's own values: the buffers, the arrays, the bytes that
//! were handed in. The laws say that every run is like that.

use vstd::prelude::*;

use crate::call::{CallSpec, EntrySpec, HostBufferSemantics, HostCallSpec, ReplySpec};
use crate::handles::{Buffer, ClientSpec, Pjrt};
use crate::memory::MemoryStats;
use crate::options::SessionOptions;
use crate::protocol::Protocol;
use crate::run::TimedSpec;
use crate::transcript::Exchange;
use crate::transfer::{InputSpec, Inputs};

verus! {

broadcast use crate::protocol::lemma_and_then;

/// The call of an entry point of this client's plugin.
pub open spec fn to(client: ClientSpec, entry: EntrySpec) -> CallSpec {
    CallSpec::Plugin { api: client.api, entry }
}

// Calls that make or free one thing.

/// The code was compiled, as MLIR, with the six bytes of compile options.
pub open spec fn compiles(
    client: ClientSpec,
    code: Seq<u8>,
    transcript: Seq<Exchange>,
    executable: usize,
) -> bool {
    &&& transcript.len() == 1
    &&& transcript[0].call == to(
        client,
        EntrySpec::ClientCompile {
            client: client.client,
            code,
            format: "mlir"@,
            compile_options: seq![0x1A, 0x04, 0x20, 0x01, 0x28, 0x01],
        },
    )
    &&& transcript[0].reply.error == 0
    &&& executable == transcript[0].reply.object
}

/// The bytes were loaded.
pub open spec fn loads_bytes(
    client: ClientSpec,
    bytes: Seq<u8>,
    transcript: Seq<Exchange>,
    executable: usize,
) -> bool {
    &&& transcript.len() == 1
    &&& transcript[0].call == to(
        client,
        EntrySpec::ExecutableDeserializeAndLoad { client: client.client, bytes },
    )
    &&& transcript[0].reply.error == 0
    &&& executable == transcript[0].reply.object
}

/// The executable was destroyed.
pub open spec fn frees_executable(
    client: ClientSpec,
    executable: usize,
    transcript: Seq<Exchange>,
) -> bool {
    &&& transcript.len() == 1
    &&& transcript[0].call == to(client, EntrySpec::LoadedExecutableDestroy { executable })
}

/// The buffers were destroyed, in order.
pub open spec fn releases(
    client: ClientSpec,
    buffers: Seq<usize>,
    transcript: Seq<Exchange>,
) -> bool {
    &&& transcript.len() == buffers.len()
    &&& forall|i: int|
        0 <= i < buffers.len() ==> {
            &&& (#[trigger] transcript[i]).call == to(
                client,
                EntrySpec::BufferDestroy { buffer: buffers[i] },
            )
            &&& transcript[i].reply.error == 0
        }
}

/// The executable was fetched, serialized and given back; the bytes are those
/// that came from the plugin.
pub open spec fn serializes(
    client: ClientSpec,
    executable: usize,
    transcript: Seq<Exchange>,
    bytes: Seq<u8>,
) -> bool {
    let fetched = transcript[0].reply;
    let serialized = transcript[1].reply;
    &&& transcript.len() == if serialized.deleter != 0 {
        4
    } else {
        3int
    }
    &&& transcript[0].call == to(
        client,
        EntrySpec::LoadedExecutableGetExecutable { executable },
    )
    &&& fetched.error == 0
    &&& transcript[1].call == to(
        client,
        EntrySpec::ExecutableSerialize { executable: fetched.object },
    )
    &&& serialized.error == 0
    &&& serialized.deleter != 0 ==> transcript[2].call == to(
        client,
        EntrySpec::SerializedExecutableDelete {
            deleter: serialized.deleter,
            serialized: serialized.object,
        },
    )
    &&& transcript.last().call == to(
        client,
        EntrySpec::ExecutableDestroy { executable: fetched.object },
    )
    &&& bytes == serialized.bytes
}

/// The devices were listed, and there is a first one.
pub open spec fn finds_device(client: ClientSpec, exchange: Exchange) -> bool {
    &&& exchange.call == to(client, EntrySpec::ClientAddressableDevices { client: client.client })
    &&& exchange.reply.error == 0
    &&& exchange.reply.objects.len() > 0
}

/// The statistics of the first device were asked for. Each that the report has
/// is told in its own field; an error means that there are none, and was
/// destroyed.
pub open spec fn tells_statistics(
    client: ClientSpec,
    transcript: Seq<Exchange>,
    stats: Option<MemoryStats>,
) -> bool {
    let error = transcript[1].reply.error;
    &&& transcript.len() == if error == 0 {
        2
    } else {
        3int
    }
    &&& finds_device(client, transcript[0])
    &&& transcript[1].call == to(
        client,
        EntrySpec::DeviceMemoryStats { device: transcript[0].reply.objects[0] },
    )
    &&& error != 0 ==> {
        &&& transcript[2].call == to(client, EntrySpec::ErrorDestroy { error })
        &&& stats is None
    }
    &&& error == 0 ==> {
        &&& stats is Some
        &&& transcript[1].reply.report.told_by(stats->0)
    }
}

// Transfers.

/// The event was awaited and then destroyed; null needs no call.
pub open spec fn waits(client: ClientSpec, event: usize, transcript: Seq<Exchange>) -> bool {
    if event == 0 {
        transcript.len() == 0
    } else {
        &&& transcript.len() == 2
        &&& transcript[0].call == to(client, EntrySpec::EventAwait { event })
        &&& transcript[0].reply.error == 0
        &&& transcript[1].call == to(client, EntrySpec::EventDestroy { event })
    }
}

/// A buffer on the device was filled from this array, and its transfer was
/// waited for.
pub open spec fn fills(
    client: ClientSpec,
    device: usize,
    data: Seq<u8>,
    dims: Seq<i64>,
    elem_type: u32,
    transcript: Seq<Exchange>,
    buffer: usize,
) -> bool {
    &&& transcript.len() > 0
    &&& transcript[0].call == to(
        client,
        EntrySpec::ClientBufferFromHostBuffer {
            client: client.client,
            data,
            dims,
            elem_type,
            semantics: HostBufferSemantics::ImmutableUntilTransferCompletes,
            device,
        },
    )
    &&& transcript[0].reply.error == 0
    &&& buffer == transcript[0].reply.object
    &&& waits(client, transcript[0].reply.event, transcript.skip(1))
}

/// The array was uploaded to the first device.
pub open spec fn uploads(
    client: ClientSpec,
    data: Seq<u8>,
    dims: Seq<i64>,
    elem_type: u32,
    transcript: Seq<Exchange>,
    buffer: usize,
) -> bool {
    &&& transcript.len() > 0
    &&& finds_device(client, transcript[0])
    &&& fills(
        client,
        transcript[0].reply.objects[0],
        data,
        dims,
        elem_type,
        transcript.skip(1),
        buffer,
    )
}

/// The buffer was copied to the host: its size was asked for, a destination of
/// that size was filled and waited for, and the result is what came of it, with
/// zeros where nothing did.
pub open spec fn reads(
    client: ClientSpec,
    buffer: usize,
    transcript: Seq<Exchange>,
    bytes: Seq<u8>,
) -> bool {
    let size = transcript[0].reply.size;
    let taken = transcript.last().reply.bytes;
    &&& transcript.len() >= 3
    &&& transcript[0].call == to(
        client,
        EntrySpec::BufferToHostBuffer { src: buffer, dst_size: None },
    )
    &&& transcript[0].reply.error == 0
    &&& transcript[1].call == to(
        client,
        EntrySpec::BufferToHostBuffer { src: buffer, dst_size: Some(size) },
    )
    &&& transcript[1].reply.error == 0
    &&& waits(
        client,
        transcript[1].reply.event,
        transcript.subrange(2, transcript.len() - 1),
    )
    &&& transcript.last().call == CallSpec::Host(HostCallSpec::TakeHostBytes { size })
    &&& bytes.len() == size
    &&& forall|i: int|
        0 <= i < size ==> #[trigger] bytes[i] == if i < taken.len() {
            taken[i]
        } else {
            0
        }
}

/// A transcript that is cut into parts, one after the other.
pub open spec fn cut_up(transcript: Seq<Exchange>, cuts: Seq<int>, count: nat) -> bool {
    &&& cuts.len() == count + 1
    &&& cuts[0] == 0
    &&& cuts[count as int] == transcript.len()
    &&& forall|i: int| 0 <= i < count ==> 0 <= #[trigger] cuts[i] <= cuts[i + 1] <= transcript.len()
}

/// One of the parts.
pub open spec fn part(transcript: Seq<Exchange>, cuts: Seq<int>, i: int) -> Seq<Exchange> {
    transcript.subrange(cuts[i], cuts[i + 1])
}

/// Each of the buffers was copied to the host, one after the other.
pub open spec fn reads_each(
    client: ClientSpec,
    buffers: Seq<usize>,
    transcript: Seq<Exchange>,
    cuts: Seq<int>,
    host: Seq<Seq<u8>>,
) -> bool {
    &&& cut_up(transcript, cuts, buffers.len())
    &&& host.len() == buffers.len()
    &&& forall|i: int|
        0 <= i < buffers.len() ==> reads(
            client,
            buffers[i],
            #[trigger] part(transcript, cuts, i),
            host[i],
        )
}

/// Each of the arrays was put into a buffer on the device, one after the other.
pub open spec fn fills_each(
    client: ClientSpec,
    device: usize,
    inputs: Seq<InputSpec>,
    transcript: Seq<Exchange>,
    cuts: Seq<int>,
    buffers: Seq<usize>,
) -> bool {
    &&& cut_up(transcript, cuts, inputs.len())
    &&& buffers.len() == inputs.len()
    &&& forall|i: int|
        0 <= i < inputs.len() ==> fills(
            client,
            device,
            inputs[i].data,
            inputs[i].dims,
            inputs[i].elem_type,
            #[trigger] part(transcript, cuts, i),
            buffers[i],
        )
}

// Runs.

/// The executable was run once, on one device, on these arguments. The outputs
/// are those that came back, in order, and null where none did.
pub open spec fn executes(
    client: ClientSpec,
    executable: usize,
    arguments: Seq<usize>,
    num_outputs: usize,
    exchange: Exchange,
    outputs: Seq<usize>,
) -> bool {
    &&& exchange.call == to(
        client,
        EntrySpec::LoadedExecutableExecute { executable, num_devices: 1, arguments, num_outputs },
    )
    &&& exchange.reply.error == 0
    &&& outputs.len() == num_outputs
    &&& forall|i: int|
        0 <= i < num_outputs ==> #[trigger] outputs[i] == if i < exchange.reply.objects.len() {
            exchange.reply.objects[i]
        } else {
            0
        }
}

/// The arguments are the addresses of the buffers, as many and in their order.
pub open spec fn stand_for(arguments: Seq<usize>, buffers: Seq<&Buffer>) -> bool {
    &&& arguments.len() == buffers.len()
    &&& forall|i: int| 0 <= i < buffers.len() ==> #[trigger] arguments[i] == buffers[i]@
}

/// The executable was run on these buffers, in this order, and the outputs were
/// left on the device.
pub open spec fn runs_to_device(
    client: ClientSpec,
    executable: usize,
    buffers: Seq<&Buffer>,
    num_outputs: usize,
    transcript: Seq<Exchange>,
    outputs: Seq<usize>,
) -> bool {
    &&& transcript.len() == 1
    &&& exists|arguments: Seq<usize>|
        {
            &&& #[trigger] stand_for(arguments, buffers)
            &&& executes(client, executable, arguments, num_outputs, transcript[0], outputs)
        }
}

/// The clock was read.
pub open spec fn reads_clock(exchange: Exchange) -> bool {
    exchange.call == CallSpec::Host(HostCallSpec::ReadClock)
}

/// The time from one reading of the clock to another; none if it went back.
pub open spec fn time_between(start: Exchange, end: Exchange) -> u64 {
    if end.reply.nanos >= start.reply.nanos {
        (end.reply.nanos - start.reply.nanos) as u64
    } else {
        0
    }
}

/// What a run on buffers looks like, with the outputs and the cuts between the
/// copies: the clock is read, the executable is run, the clock is read twice,
/// the outputs are copied, the clock is read, the outputs are destroyed.
pub open spec fn runs_along(
    client: ClientSpec,
    executable: usize,
    arguments: Seq<usize>,
    num_outputs: usize,
    transcript: Seq<Exchange>,
    result: TimedSpec,
    outputs: Seq<usize>,
    cuts: Seq<int>,
) -> bool {
    let copied = 4 + cuts[num_outputs as int];
    &&& transcript.len() == copied + 1 + num_outputs
    &&& copied >= 4
    &&& reads_clock(transcript[0])
    &&& executes(client, executable, arguments, num_outputs, transcript[1], outputs)
    &&& reads_clock(transcript[2])
    &&& reads_clock(transcript[3])
    &&& reads_each(client, outputs, transcript.subrange(4, copied), cuts, result.0)
    &&& reads_clock(transcript[copied])
    &&& releases(client, outputs, transcript.skip(copied + 1))
    &&& result.1 == time_between(transcript[0], transcript[2])
    &&& result.2 == time_between(transcript[3], transcript[copied])
}

/// The executable was run on these buffers, in this order; the outputs were
/// copied to the host, each in its place, and released; and the times are
/// those around the run and around the copies.
pub open spec fn runs_timed(
    client: ClientSpec,
    executable: usize,
    buffers: Seq<&Buffer>,
    num_outputs: usize,
    transcript: Seq<Exchange>,
    result: TimedSpec,
) -> bool {
    exists|arguments: Seq<usize>, outputs: Seq<usize>, cuts: Seq<int>|
        {
            &&& stand_for(arguments, buffers)
            &&& #[trigger] runs_along(
                client,
                executable,
                arguments,
                num_outputs,
                transcript,
                result,
                outputs,
                cuts,
            )
        }
}

/// The same, without the times.
pub open spec fn runs_on_buffers(
    client: ClientSpec,
    executable: usize,
    buffers: Seq<&Buffer>,
    num_outputs: usize,
    transcript: Seq<Exchange>,
    host: Seq<Seq<u8>>,
) -> bool {
    exists|dispatch: u64, readback: u64| #[trigger]
        runs_timed(
            client,
            executable,
            buffers,
            num_outputs,
            transcript,
            (host, dispatch, readback),
        )
}

/// What a run on host arrays looks like, with the buffers that were filled, the
/// outputs and the cuts: the device is looked up, each array is uploaded, the
/// executable is run on the buffers, each output is copied.
pub open spec fn carries(
    client: ClientSpec,
    executable: usize,
    inputs: Seq<InputSpec>,
    num_outputs: usize,
    transcript: Seq<Exchange>,
    host: Seq<Seq<u8>>,
    filling: Seq<int>,
    buffers: Seq<usize>,
    outputs: Seq<usize>,
    reading: Seq<int>,
) -> bool {
    let filled = 1 + filling[inputs.len() as int];
    &&& 1 <= filled < transcript.len()
    &&& finds_device(client, transcript[0])
    &&& fills_each(
        client,
        transcript[0].reply.objects[0],
        inputs,
        transcript.subrange(1, filled),
        filling,
        buffers,
    )
    &&& executes(client, executable, buffers, num_outputs, transcript[filled], outputs)
    &&& reads_each(client, outputs, transcript.skip(filled + 1), reading, host)
}

/// The arrays are the caller's tuples, as many and in their order.
pub open spec fn arrays_of(arrays: Seq<InputSpec>, inputs: &Inputs) -> bool {
    &&& arrays.len() == inputs@.len()
    &&& forall|i: int|
        0 <= i < inputs@.len() ==> {
            &&& (#[trigger] arrays[i]).data == inputs@[i].0@
            &&& arrays[i].dims == inputs@[i].1@
            &&& arrays[i].elem_type == inputs@[i].2
        }
}

/// The executable was run on these host arrays: the one at each index was
/// uploaded with exactly its bytes, dims and element type, and its buffer is
/// the argument at that index. The outputs were copied to the host, each in its
/// place.
pub open spec fn runs_on_inputs(
    client: ClientSpec,
    executable: usize,
    inputs: &Inputs,
    num_outputs: usize,
    transcript: Seq<Exchange>,
    host: Seq<Seq<u8>>,
) -> bool {
    exists|
        arrays: Seq<InputSpec>,
        filling: Seq<int>,
        buffers: Seq<usize>,
        outputs: Seq<usize>,
        reading: Seq<int>,
    |
        {
            &&& arrays_of(arrays, inputs)
            &&& #[trigger] carries(
                client,
                executable,
                arrays,
                num_outputs,
                transcript,
                host,
                filling,
                buffers,
                outputs,
                reading,
            )
        }
}

// Opening.

/// The path was read, and is the result.
pub open spec fn finds_path(transcript: Seq<Exchange>, path: Seq<char>) -> bool {
    &&& transcript.len() == 1
    &&& transcript[0].call == CallSpec::Host(
        HostCallSpec::ReadVariable { name: "XLA_PJRT_PLUGIN"@ },
    )
    &&& transcript[0].reply.failure is None
    &&& path == transcript[0].reply.text
}

/// The version is the one in the table.
pub open spec fn tells_version(
    pjrt: Pjrt,
    transcript: Seq<Exchange>,
    version: (i32, i32),
) -> bool {
    &&& transcript.len() == 1
    &&& transcript[0].call == (CallSpec::Plugin { api: pjrt.api, entry: EntrySpec::ApiVersion })
    &&& version.0 == transcript[0].reply.version.0
    &&& version.1 == transcript[0].reply.version.1
}

/// The library at the path was opened, and the function table is what its
/// symbol gave.
pub open spec fn loads(transcript: Seq<Exchange>, pjrt: Pjrt) -> bool {
    &&& transcript.len() == 4
    &&& transcript[0].call == CallSpec::Host(
        HostCallSpec::ReadVariable { name: "XLA_PJRT_PLUGIN"@ },
    )
    &&& transcript[1].call == CallSpec::Host(
        HostCallSpec::OpenLibrary { path: transcript[0].reply.text },
    )
    &&& transcript[2].call == CallSpec::Host(HostCallSpec::FindSymbol { name: "GetPjrtApi\0"@ })
    &&& transcript[3].call == CallSpec::Host(HostCallSpec::CallSymbol)
    &&& pjrt.api == transcript[3].reply.object
    &&& pjrt.api != 0
}

/// The plugin that is kept is used without a call; otherwise one was loaded and
/// then initialized.
pub open spec fn shares(loaded: Option<Pjrt>, transcript: Seq<Exchange>, pjrt: Pjrt) -> bool {
    match loaded {
        Some(kept) => transcript.len() == 0 && pjrt == kept,
        None => {
            &&& transcript.len() == 5
            &&& loads(transcript.take(4), pjrt)
            &&& transcript[4].call == (CallSpec::Plugin {
                api: pjrt.api,
                entry: EntrySpec::PluginInitialize,
            })
            &&& transcript[4].reply.error == 0
        },
    }
}

/// The plugin was made ready, and then a client was created on it, which was
/// given what was set in the options.
pub open spec fn opens(
    loaded: Option<Pjrt>,
    options: SessionOptions,
    transcript: Seq<Exchange>,
    client: ClientSpec,
) -> bool {
    let last = transcript.last();
    &&& transcript.len() > 0
    &&& shares(loaded, transcript.drop_last(), Pjrt { api: client.api })
    &&& last.call matches CallSpec::Plugin { api, entry }
    &&& api == client.api
    &&& entry matches EntrySpec::ClientCreate { options: named }
    &&& options.given_as(named)
    &&& last.reply.error == 0
    &&& client.client == last.reply.object
}

/// The same, with nothing set: the client was given no named value.
pub open spec fn opens_unset(
    loaded: Option<Pjrt>,
    transcript: Seq<Exchange>,
    client: ClientSpec,
) -> bool {
    let last = transcript.last();
    &&& transcript.len() > 0
    &&& shares(loaded, transcript.drop_last(), Pjrt { api: client.api })
    &&& last.call matches CallSpec::Plugin { api, entry }
    &&& api == client.api
    &&& entry matches EntrySpec::ClientCreate { options: named }
    &&& named.len() == 0
    &&& last.reply.error == 0
    &&& client.client == last.reply.object
}

/// A client was opened with nothing set, the code was compiled on it, and the
/// executable was run on the host arrays.
pub open spec fn runs_bytecode(
    loaded: Option<Pjrt>,
    code: Seq<u8>,
    inputs: &Inputs,
    num_outputs: usize,
    transcript: Seq<Exchange>,
    host: Seq<Seq<u8>>,
) -> bool {
    exists|opened: int, client: ClientSpec, executable: usize|
        #![trigger runs_bytecode_from(
            loaded, code, inputs, num_outputs, transcript, host, opened, client, executable,
        )]
        runs_bytecode_from(
            loaded,
            code,
            inputs,
            num_outputs,
            transcript,
            host,
            opened,
            client,
            executable,
        )
}

/// The same, with the place where the client is open, and what was made.
pub open spec fn runs_bytecode_from(
    loaded: Option<Pjrt>,
    code: Seq<u8>,
    inputs: &Inputs,
    num_outputs: usize,
    transcript: Seq<Exchange>,
    host: Seq<Seq<u8>>,
    opened: int,
    client: ClientSpec,
    executable: usize,
) -> bool {
    &&& 0 <= opened < transcript.len()
    &&& opens_unset(loaded, transcript.take(opened), client)
    &&& compiles(client, code, transcript.subrange(opened, opened + 1), executable)
    &&& runs_on_inputs(
        client,
        executable,
        inputs,
        num_outputs,
        transcript.skip(opened + 1),
        host,
    )
}

// The laws.

/// A complete checked call that is followed by something else: the call, with
/// no error, and the rest.
proof fn lemma_checked<U>(
    client: ClientSpec,
    entry: EntrySpec,
    context: Seq<char>,
    next: spec_fn(ReplySpec) -> Protocol<U>,
    transcript: Seq<Exchange>,
    value: U,
)
    requires
        crate::check::checked(client.api, entry, context).and_then(next).completes(
            transcript,
            value,
        ),
    ensures
        transcript.len() > 0,
        transcript[0].call == to(client, entry),
        transcript[0].reply.error == 0,
        next(transcript[0].reply).completes(transcript.skip(1), value),
{
    let first = crate::check::checked(client.api, entry, context);
    let (at, reply) = crate::ledger::lemma_sequence(first, next, transcript, value);
    crate::ledger::lemma_checked(client.api, entry, context, transcript.take(at), reply);
    assert(transcript.take(at).len() == 1);
    assert(transcript.take(at)[0] == transcript[0]);
}

/// Whatever the code is, a compilation is one call, with exactly this code, the
/// format `mlir` and the six bytes of compile options, and returns the
/// executable that came back. Even one that does not return starts with it.
pub proof fn law_compilation(
    client: ClientSpec,
    code: Seq<u8>,
    transcript: Seq<Exchange>,
    end: Protocol<usize>,
)
    requires
        client.compile_protocol(code).leads_to(transcript, end),
    ensures
        client.compile_protocol(code) is Call,
        client.compile_protocol(code).call() == to(
            client,
            EntrySpec::ClientCompile {
                client: client.client,
                code,
                format: "mlir"@,
                compile_options: seq![0x1A, 0x04, 0x20, 0x01, 0x28, 0x01],
            },
        ),
        transcript.len() > 0 ==> transcript[0].call == client.compile_protocol(code).call(),
        end matches Protocol::Return(executable) ==> compiles(
            client,
            code,
            transcript,
            executable,
        ),
{
    assert(crate::client::compile_options() =~= seq![0x1A, 0x04, 0x20, 0x01, 0x28, 0x01]);
    let entry = EntrySpec::ClientCompile {
        client: client.client,
        code,
        format: "mlir"@,
        compile_options: seq![0x1A, 0x04, 0x20, 0x01, 0x28, 0x01],
    };
    crate::transcript::lemma_called(client.compile_protocol(code), transcript, end);
    if let Protocol::Return(executable) = end {
        let next = crate::client::object_returned();
        lemma_checked(client, entry, "Client_Compile"@, next, transcript, executable);
        crate::transcript::lemma_ended(next(transcript[0].reply), transcript.skip(1), end);
    }
}

/// Loading is one call, with exactly these bytes.
pub proof fn law_loading(
    client: ClientSpec,
    bytes: Seq<u8>,
    transcript: Seq<Exchange>,
    executable: usize,
)
    requires
        client.deserialize_and_load_protocol(bytes).completes(transcript, executable),
    ensures
        loads_bytes(client, bytes, transcript, executable),
{
    let entry = EntrySpec::ExecutableDeserializeAndLoad { client: client.client, bytes };
    let next = crate::client::object_returned();
    let end = Protocol::Return(executable);
    lemma_checked(
        client,
        entry,
        "Executable_DeserializeAndLoad"@,
        next,
        transcript,
        executable,
    );
    crate::transcript::lemma_ended(next(transcript[0].reply), transcript.skip(1), end);
}

/// Freeing an executable is one call on it.
pub proof fn law_freeing_an_executable(
    client: ClientSpec,
    executable: usize,
    transcript: Seq<Exchange>,
)
    requires
        client.free_executable_protocol(executable).completes(transcript, ()),
    ensures
        frees_executable(client, executable, transcript),
{
    let protocol = client.free_executable_protocol(executable);
    crate::transcript::lemma_called(protocol, transcript, Protocol::Return(()));
    crate::transcript::lemma_ended(
        protocol.after(transcript[0].reply),
        transcript.drop_first(),
        Protocol::Return(()),
    );
}

/// Freeing a buffer is one call on it.
pub proof fn law_freeing_a_buffer(client: ClientSpec, buffer: usize, transcript: Seq<Exchange>)
    requires
        client.destroy_buffer_protocol(buffer).completes(transcript, ()),
    ensures
        releases(client, seq![buffer], transcript),
{
    let next = crate::check::nothing_returned();
    let entry = EntrySpec::BufferDestroy { buffer };
    lemma_checked(client, entry, "Buffer_Destroy"@, next, transcript, ());
    crate::transcript::lemma_ended(
        next(transcript[0].reply),
        transcript.skip(1),
        Protocol::Return(()),
    );
}

/// Serializing fetches the executable, serializes it and gives back all it
/// got; the bytes are those that came from the plugin.
pub proof fn law_serialization(
    client: ClientSpec,
    executable: usize,
    transcript: Seq<Exchange>,
    bytes: Seq<u8>,
)
    requires
        client.serialize_protocol(executable).completes(transcript, bytes),
    ensures
        serializes(client, executable, transcript, bytes),
{
    crate::laws::law_serializing_cleans_up(client, executable, transcript, bytes);
    let fetching = EntrySpec::LoadedExecutableGetExecutable { executable };
    let next = client.executable_fetched();
    lemma_checked(client, fetching, "GetExecutable"@, next, transcript, bytes);
    let fetched = transcript[0].reply.object;
    let serializing = EntrySpec::ExecutableSerialize { executable: fetched };
    let next = client.executable_serialized(fetched);
    let rest = transcript.skip(1);
    lemma_checked(client, serializing, "Executable_Serialize"@, next, rest, bytes);
    assert(rest[0] == transcript[1]);
}

/// Looking up the device is one call, and finds the first one.
proof fn lemma_first_device<U>(
    client: ClientSpec,
    next: spec_fn(usize) -> Protocol<U>,
    transcript: Seq<Exchange>,
    value: U,
)
    requires
        client.first_device_protocol().and_then(next).completes(transcript, value),
    ensures
        transcript.len() > 0,
        finds_device(client, transcript[0]),
        next(transcript[0].reply.objects[0]).completes(transcript.skip(1), value),
{
    let first = client.first_device_protocol();
    let (at, device) = crate::ledger::lemma_sequence(first, next, transcript, value);
    let head = transcript.take(at);
    let entry = EntrySpec::ClientAddressableDevices { client: client.client };
    let listed = crate::client::devices_listed();
    lemma_checked(client, entry, "AddressableDevices"@, listed, head, device);
    crate::transcript::lemma_ended(
        listed(head[0].reply),
        head.skip(1),
        Protocol::Return(device),
    );
    assert(head[0] == transcript[0]);
    assert(at == 1);
}

/// Reading the statistics asks the first device, and tells each that it
/// reports in the field of its own name.
pub proof fn law_statistics(
    client: ClientSpec,
    transcript: Seq<Exchange>,
    stats: Option<MemoryStats>,
)
    requires
        client.memory_stats_protocol().completes(transcript, stats),
    ensures
        tells_statistics(client, transcript, stats),
{
    crate::laws::law_statistics_are_as_reported(client, transcript, stats);
    lemma_first_device(client, client.device_asked(), transcript, stats);
    crate::memory::law_each_statistic_is_as_reported(transcript[1].reply.report);
}

/// Waiting awaits the event and then destroys it.
proof fn lemma_waits<U>(
    client: ClientSpec,
    event: usize,
    next: spec_fn(()) -> Protocol<U>,
    transcript: Seq<Exchange>,
    value: U,
) -> (at: int)
    requires
        client.await_event_protocol(event).and_then(next).completes(transcript, value),
    ensures
        0 <= at <= transcript.len(),
        waits(client, event, transcript.take(at)),
        next(()).completes(transcript.skip(at), value),
{
    let first = client.await_event_protocol(event);
    let (at, done) = crate::ledger::lemma_sequence(first, next, transcript, value);
    let head = transcript.take(at);
    let end = Protocol::Return(());
    if event == 0 {
        crate::transcript::lemma_ended(first, head, end);
    } else {
        let entry = EntrySpec::EventAwait { event };
        let awaited = client.event_awaited(event);
        lemma_checked(client, entry, "Event_Await"@, awaited, head, ());
        let rest = head.skip(1);
        let destroying = awaited(head[0].reply);
        crate::transcript::lemma_called(destroying, rest, end);
        crate::transcript::lemma_ended(
            destroying.after(rest[0].reply),
            rest.drop_first(),
            end,
        );
        assert(rest[0] == head[1]);
    }
    at
}

/// Filling a buffer hands over the array as it is, and waits.
proof fn lemma_fills(
    client: ClientSpec,
    device: usize,
    input: InputSpec,
    transcript: Seq<Exchange>,
    buffer: usize,
)
    requires
        client.buf_from_host_protocol(device, input).completes(transcript, buffer),
    ensures
        fills(
            client,
            device,
            input.data,
            input.dims,
            input.elem_type,
            transcript,
            buffer,
        ),
{
    let entry = EntrySpec::ClientBufferFromHostBuffer {
        client: client.client,
        data: input.data,
        dims: input.dims,
        elem_type: input.elem_type,
        semantics: HostBufferSemantics::ImmutableUntilTransferCompletes,
        device,
    };
    let made = client.buffer_made();
    lemma_checked(client, entry, "BufferFromHostBuffer"@, made, transcript, buffer);
    let reply = transcript[0].reply;
    let next = crate::transfer::buffer_filled(reply.object);
    let rest = transcript.skip(1);
    let at = lemma_waits(client, reply.event, next, rest, buffer);
    crate::transcript::lemma_ended(next(()), rest.skip(at), Protocol::Return(buffer));
    assert(rest.take(at) =~= rest);
}

/// An upload looks up the first device and fills a buffer there from exactly
/// this array.
pub proof fn law_upload(
    client: ClientSpec,
    data: Seq<u8>,
    dims: Seq<i64>,
    elem_type: u32,
    transcript: Seq<Exchange>,
    buffer: usize,
)
    requires
        client.input_buffer_protocol(InputSpec { data, dims, elem_type }).completes(
            transcript,
            buffer,
        ),
    ensures
        uploads(client, data, dims, elem_type, transcript, buffer),
{
    let input = InputSpec { data, dims, elem_type };
    lemma_first_device(client, client.device_chosen(input), transcript, buffer);
    let device = transcript[0].reply.objects[0];
    lemma_fills(client, device, input, transcript.skip(1), buffer);
}

/// Reading a buffer returns exactly what was copied out of it.
pub proof fn law_reading(
    client: ClientSpec,
    buffer: usize,
    transcript: Seq<Exchange>,
    bytes: Seq<u8>,
)
    requires
        client.to_host_protocol(buffer).completes(transcript, bytes),
    ensures
        reads(client, buffer, transcript, bytes),
{
    let end = Protocol::Return(bytes);
    let sizing = EntrySpec::BufferToHostBuffer { src: buffer, dst_size: None };
    let told = client.size_told(buffer);
    lemma_checked(client, sizing, "ToHostBuffer(size)"@, told, transcript, bytes);
    let size = transcript[0].reply.size;
    let rest = transcript.skip(1);
    let copying = EntrySpec::BufferToHostBuffer { src: buffer, dst_size: Some(size) };
    let started = client.copy_started(size);
    lemma_checked(client, copying, "ToHostBuffer(copy)"@, started, rest, bytes);
    assert(rest[0] == transcript[1]);
    let last = rest.skip(1);
    let next = crate::transfer::copy_complete(size);
    let at = lemma_waits(client, rest[0].reply.event, next, last, bytes);
    let tail = last.skip(at);
    crate::transcript::lemma_called(next(()), tail, end);
    crate::transcript::lemma_ended(
        next(()).after(tail[0].reply),
        tail.drop_first(),
        end,
    );
    assert(tail[0] == transcript.last());
    assert(last.take(at) =~= transcript.subrange(2, transcript.len() - 1));
}

/// The cuts of a first part and of the rest, which is cut up.
spec fn cut_before(at: int, cuts: Seq<int>) -> Seq<int> {
    Seq::new(
        cuts.len() + 1,
        |i: int|
            if i == 0 {
                0
            } else {
                at + cuts[i - 1]
            },
    )
}

/// A first part and the parts of the rest are the parts of the whole.
proof fn lemma_cut_before(transcript: Seq<Exchange>, at: int, cuts: Seq<int>, count: nat)
    requires
        0 <= at <= transcript.len(),
        cut_up(transcript.skip(at), cuts, count),
    ensures
        cut_up(transcript, cut_before(at, cuts), count + 1),
        part(transcript, cut_before(at, cuts), 0) == transcript.take(at),
        forall|i: int|
            0 < i <= count ==> #[trigger] part(transcript, cut_before(at, cuts), i) == part(
                transcript.skip(at),
                cuts,
                i - 1,
            ),
{
    let all = cut_before(at, cuts);
    let rest = transcript.skip(at);
    assert forall|i: int| 0 <= i < count + 1 implies 0 <= #[trigger] all[i] <= all[i + 1]
        <= transcript.len() by {
        if i > 0 {
            assert(0 <= cuts[i - 1] <= cuts[i - 1 + 1] <= rest.len());
        } else if count > 0 {
            assert(0 <= cuts[0] <= cuts[1]);
        }
    }
    assert(part(transcript, all, 0) =~= transcript.take(at));
    assert forall|i: int| 0 < i <= count implies #[trigger] part(transcript, all, i) == part(
        rest,
        cuts,
        i - 1,
    ) by {
        assert(0 <= cuts[i - 1] <= cuts[i - 1 + 1] <= rest.len());
        assert(part(transcript, all, i) =~= part(rest, cuts, i - 1));
    }
}

/// Reading several buffers reads each, in order.
proof fn lemma_reads_each(
    client: ClientSpec,
    buffers: Seq<usize>,
    host: Seq<Seq<u8>>,
    transcript: Seq<Exchange>,
    all: Seq<Seq<u8>>,
) -> (cuts: Seq<int>)
    requires
        host.len() <= buffers.len(),
        client.read_protocol(buffers, host).completes(transcript, all),
    ensures
        all.len() == buffers.len(),
        all.take(host.len() as int) == host,
        reads_each(
            client,
            buffers.skip(host.len() as int),
            transcript,
            cuts,
            all.skip(host.len() as int),
        ),
    decreases buffers.len() - host.len(),
{
    let count = host.len() as int;
    if count < buffers.len() {
        let next = client.buffer_read(buffers, host);
        let first = client.to_host_protocol(buffers[count]);
        let (at, bytes) = crate::ledger::lemma_sequence(first, next, transcript, all);
        law_reading(client, buffers[count], transcript.take(at), bytes);
        let more = host.push(bytes);
        let rest = transcript.skip(at);
        assert(next(bytes) == client.read_protocol(buffers, more));
        let tail = lemma_reads_each(client, buffers, more, rest, all);
        let cuts = cut_before(at, tail);
        lemma_cut_before(transcript, at, tail, buffers.skip(count + 1).len());
        assert(all.take(count + 1)[count] == all[count]);
        assert(all.take(count) =~= all.take(count + 1).take(count));
        assert(more.take(count) =~= host);
        assert forall|i: int| 0 <= i < buffers.skip(count).len() implies reads(
            client,
            buffers.skip(count)[i],
            #[trigger] part(transcript, cuts, i),
            all.skip(count)[i],
        ) by {
            if i > 0 {
                assert(part(transcript, cuts, i) == part(rest, tail, i - 1));
                assert(buffers.skip(count)[i] == buffers.skip(count + 1)[i - 1]);
                assert(all.skip(count)[i] == all.skip(count + 1)[i - 1]);
            }
        }
        cuts
    } else {
        crate::transcript::lemma_ended(
            client.read_protocol(buffers, host),
            transcript,
            Protocol::Return(all),
        );
        assert(all.take(count) =~= host);
        seq![0]
    }
}

/// Uploading several arrays fills a buffer from each, in order.
proof fn lemma_fills_each(
    client: ClientSpec,
    device: usize,
    inputs: Seq<InputSpec>,
    buffers: Seq<usize>,
    transcript: Seq<Exchange>,
    all: Seq<usize>,
) -> (cuts: Seq<int>)
    requires
        buffers.len() <= inputs.len(),
        client.upload_protocol(device, inputs, buffers).completes(transcript, all),
    ensures
        all.len() == inputs.len(),
        all.take(buffers.len() as int) == buffers,
        fills_each(
            client,
            device,
            inputs.skip(buffers.len() as int),
            transcript,
            cuts,
            all.skip(buffers.len() as int),
        ),
    decreases inputs.len() - buffers.len(),
{
    let count = buffers.len() as int;
    if count < inputs.len() {
        let next = client.input_uploaded(device, inputs, buffers);
        let first = client.buf_from_host_protocol(device, inputs[count]);
        let (at, buffer) = crate::ledger::lemma_sequence(first, next, transcript, all);
        lemma_fills(client, device, inputs[count], transcript.take(at), buffer);
        let more = buffers.push(buffer);
        let rest = transcript.skip(at);
        assert(next(buffer) == client.upload_protocol(device, inputs, more));
        let tail = lemma_fills_each(client, device, inputs, more, rest, all);
        let cuts = cut_before(at, tail);
        lemma_cut_before(transcript, at, tail, inputs.skip(count + 1).len());
        assert(all.take(count + 1)[count] == all[count]);
        assert(all.take(count) =~= all.take(count + 1).take(count));
        assert(more.take(count) =~= buffers);
        assert forall|i: int| 0 <= i < inputs.skip(count).len() implies fills(
            client,
            device,
            inputs.skip(count)[i].data,
            inputs.skip(count)[i].dims,
            inputs.skip(count)[i].elem_type,
            #[trigger] part(transcript, cuts, i),
            all.skip(count)[i],
        ) by {
            if i > 0 {
                assert(part(transcript, cuts, i) == part(rest, tail, i - 1));
                assert(inputs.skip(count)[i] == inputs.skip(count + 1)[i - 1]);
                assert(all.skip(count)[i] == all.skip(count + 1)[i - 1]);
            }
        }
        cuts
    } else {
        crate::transcript::lemma_ended(
            client.upload_protocol(device, inputs, buffers),
            transcript,
            Protocol::Return(all),
        );
        assert(all.take(count) =~= buffers);
        seq![0]
    }
}

/// Releasing several buffers destroys each, in order.
proof fn lemma_releases(
    client: ClientSpec,
    buffers: Seq<usize>,
    count: nat,
    transcript: Seq<Exchange>,
)
    requires
        count <= buffers.len(),
        client.release_protocol(buffers, count).completes(transcript, ()),
    ensures
        releases(client, buffers.skip(count as int), transcript),
    decreases buffers.len() - count,
{
    if count < buffers.len() {
        let buffer = buffers[count as int];
        let next = client.buffer_released(buffers, count);
        let first = client.destroy_buffer_protocol(buffer);
        let (at, done) = crate::ledger::lemma_sequence(first, next, transcript, ());
        let head = transcript.take(at);
        let rest = transcript.skip(at);
        law_freeing_a_buffer(client, buffer, head);
        assert(head[0] == transcript[0]);
        assert(next(()) == client.release_protocol(buffers, count + 1));
        lemma_releases(client, buffers, count + 1, rest);
        let left = buffers.skip(count as int);
        assert forall|i: int| 0 <= i < left.len() implies {
            &&& (#[trigger] transcript[i]).call == to(
                client,
                EntrySpec::BufferDestroy { buffer: left[i] },
            )
            &&& transcript[i].reply.error == 0
        } by {
            if i == 0 {
                assert(head[0].call == to(client, EntrySpec::BufferDestroy { buffer }));
            } else {
                assert(rest[i - 1] == transcript[i]);
                assert(left[i] == buffers.skip(count as int + 1)[i - 1]);
            }
        }
    } else {
        crate::transcript::lemma_ended(
            client.release_protocol(buffers, count),
            transcript,
            Protocol::Return(()),
        );
    }
}

/// An execution is one call.
proof fn lemma_executes<U>(
    client: ClientSpec,
    executable: usize,
    arguments: Seq<usize>,
    num_outputs: usize,
    next: spec_fn(Seq<usize>) -> Protocol<U>,
    transcript: Seq<Exchange>,
    value: U,
) -> (outputs: Seq<usize>)
    requires
        client.execute_protocol(executable, arguments, num_outputs).and_then(next).completes(
            transcript,
            value,
        ),
    ensures
        transcript.len() > 0,
        executes(client, executable, arguments, num_outputs, transcript[0], outputs),
        next(outputs).completes(transcript.skip(1), value),
{
    let first = client.execute_protocol(executable, arguments, num_outputs);
    let (at, outputs) = crate::ledger::lemma_sequence(first, next, transcript, value);
    let head = transcript.take(at);
    lemma_executed(client, executable, arguments, num_outputs, head, outputs);
    assert(head[0] == transcript[0]);
    outputs
}

/// An execution that is followed by nothing.
proof fn lemma_executed(
    client: ClientSpec,
    executable: usize,
    arguments: Seq<usize>,
    num_outputs: usize,
    transcript: Seq<Exchange>,
    outputs: Seq<usize>,
)
    requires
        client.execute_protocol(executable, arguments, num_outputs).completes(transcript, outputs),
    ensures
        transcript.len() == 1,
        executes(client, executable, arguments, num_outputs, transcript[0], outputs),
{
    let entry = EntrySpec::LoadedExecutableExecute {
        executable,
        num_devices: 1,
        arguments,
        num_outputs,
    };
    let listed = crate::run::outputs_listed(num_outputs);
    lemma_checked(client, entry, "Execute"@, listed, transcript, outputs);
    crate::transcript::lemma_ended(
        listed(transcript[0].reply),
        transcript.skip(1),
        Protocol::Return(outputs),
    );
}

/// For every list of buffers: a run that leaves its outputs on the device is
/// one call, whose argument at each index is the buffer at that index, and there
/// are as many arguments as buffers.
pub proof fn law_run_to_device(
    client: ClientSpec,
    executable: usize,
    buffers: Seq<&Buffer>,
    num_outputs: usize,
    transcript: Seq<Exchange>,
    outputs: Seq<usize>,
)
    requires
        client.execute_protocol(
            executable,
            crate::session::addresses(buffers),
            num_outputs,
        ).completes(transcript, outputs),
    ensures
        runs_to_device(client, executable, buffers, num_outputs, transcript, outputs),
{
    let arguments = crate::session::addresses(buffers);
    lemma_executed(client, executable, arguments, num_outputs, transcript, outputs);
    assert(stand_for(arguments, buffers));
}

/// For every list of buffers: a timed run makes its one execution on them, the
/// argument at each index being the buffer at that index. The bytes at each
/// index are those that were copied out of the output at that index; the outputs
/// are then destroyed; the times are those between the readings of the clock.
pub proof fn law_timed_run(
    client: ClientSpec,
    executable: usize,
    buffers: Seq<&Buffer>,
    num_outputs: usize,
    transcript: Seq<Exchange>,
    result: TimedSpec,
)
    requires
        client.run_buffers_timed_protocol(
            executable,
            crate::session::addresses(buffers),
            num_outputs,
        ).completes(transcript, result),
    ensures
        runs_timed(client, executable, buffers, num_outputs, transcript, result),
{
    let arguments = crate::session::addresses(buffers);
    assert(stand_for(arguments, buffers));
    let end = Protocol::Return(result);
    let protocol = client.run_buffers_timed_protocol(executable, arguments, num_outputs);
    crate::transcript::lemma_called(protocol, transcript, end);
    let start = transcript[0].reply.nanos;
    let one = transcript.skip(1);
    assert(one =~= transcript.drop_first());
    let next = client.run_dispatched(start);
    let outputs = lemma_executes(
        client,
        executable,
        arguments,
        num_outputs,
        next,
        one,
        result,
    );
    assert(one[0] == transcript[1]);
    let two = one.skip(1);
    crate::transcript::lemma_called(next(outputs), two, end);
    assert(two[0] == transcript[2]);
    let dispatch = crate::run::elapsed(start, two[0].reply.nanos);
    let three = two.drop_first();
    let clock = client.dispatch_timed(outputs, start)(two[0].reply);
    crate::transcript::lemma_called(clock, three, end);
    assert(three[0] == transcript[3]);
    let read_start = three[0].reply.nanos;
    let four = three.drop_first();
    let next = client.outputs_read(outputs, dispatch, read_start);
    let (at, host) = crate::ledger::lemma_sequence(
        client.read_protocol(outputs, Seq::empty()),
        next,
        four,
        result,
    );
    let cuts = lemma_reads_each(client, outputs, Seq::empty(), four.take(at), host);
    assert(outputs.skip(0) =~= outputs);
    assert(host.skip(0) =~= host);
    assert(cuts[num_outputs as int] == at);
    let copied = 4 + at;
    assert(four.take(at) =~= transcript.subrange(4, copied));
    let over = four.skip(at);
    crate::transcript::lemma_called(next(host), over, end);
    assert(over[0] == transcript[copied]);
    let readback = crate::run::elapsed(read_start, over[0].reply.nanos);
    let finish = crate::run::outputs_released(host, dispatch, readback);
    let last = over.drop_first();
    let (released, done) = crate::ledger::lemma_sequence(
        client.release_protocol(outputs, 0),
        finish,
        last,
        result,
    );
    lemma_releases(client, outputs, 0, last.take(released));
    crate::transcript::lemma_ended(finish(()), last.skip(released), end);
    assert(last.take(released) =~= transcript.skip(copied + 1));
    assert(runs_along(
        client,
        executable,
        arguments,
        num_outputs,
        transcript,
        result,
        outputs,
        cuts,
    ));
}

/// For every list of buffers: a run makes its one execution on them, in their
/// order, and returns the bytes of each output in its place.
pub proof fn law_run_on_buffers(
    client: ClientSpec,
    executable: usize,
    buffers: Seq<&Buffer>,
    num_outputs: usize,
    transcript: Seq<Exchange>,
    host: Seq<Seq<u8>>,
)
    requires
        client.run_buffers_protocol(
            executable,
            crate::session::addresses(buffers),
            num_outputs,
        ).completes(transcript, host),
    ensures
        runs_on_buffers(client, executable, buffers, num_outputs, transcript, host),
{
    let arguments = crate::session::addresses(buffers);
    let timed = client.run_buffers_timed_protocol(executable, arguments, num_outputs);
    let next = crate::session::times_dropped();
    let (at, result) = crate::ledger::lemma_sequence(timed, next, transcript, host);
    crate::transcript::lemma_ended(next(result), transcript.skip(at), Protocol::Return(host));
    assert(transcript.take(at) =~= transcript);
    law_timed_run(client, executable, buffers, num_outputs, transcript, result);
    assert(result == (host, result.1, result.2));
    assert(runs_timed(
        client,
        executable,
        buffers,
        num_outputs,
        transcript,
        (host, result.1, result.2),
    ));
}

/// The call runs the executable on these buffers: there are as many arguments as
/// buffers, and the one at each index is the buffer at that index.
pub open spec fn executes_on(
    client: ClientSpec,
    executable: usize,
    buffers: Seq<&Buffer>,
    num_outputs: usize,
    call: CallSpec,
) -> bool {
    &&& call matches CallSpec::Plugin { api, entry }
    &&& api == client.api
    &&& entry is LoadedExecutableExecute
    &&& entry->LoadedExecutableExecute_executable == executable
    &&& entry->num_devices == 1
    &&& entry->num_outputs == num_outputs
    &&& entry->arguments.len() == buffers.len()
    &&& forall|i: int| 0 <= i < buffers.len() ==> #[trigger] entry->arguments[i] == buffers[i]@
}

/// For every list of buffers, and whatever is replied: the first call of a run
/// that leaves its outputs on the device, and the second call of the others,
/// after the clock is read, runs the executable on these buffers in this order.
pub proof fn law_runs_keep_the_order(
    client: ClientSpec,
    executable: usize,
    buffers: Seq<&Buffer>,
    num_outputs: usize,
    clock: ReplySpec,
)
    ensures
        ({
            let arguments = crate::session::addresses(buffers);
            let staying = client.execute_protocol(executable, arguments, num_outputs);
            let timed = client.run_buffers_timed_protocol(executable, arguments, num_outputs);
            let untimed = client.run_buffers_protocol(executable, arguments, num_outputs);
            &&& staying is Call
            &&& executes_on(client, executable, buffers, num_outputs, staying.call())
            &&& timed is Call
            &&& timed.call() == CallSpec::Host(HostCallSpec::ReadClock)
            &&& timed.after(clock) is Call
            &&& executes_on(client, executable, buffers, num_outputs, timed.after(clock).call())
            &&& untimed is Call
            &&& untimed.call() == CallSpec::Host(HostCallSpec::ReadClock)
            &&& untimed.after(clock) is Call
            &&& executes_on(client, executable, buffers, num_outputs, untimed.after(clock).call())
        }),
{
}

/// For every slice of inputs: a run on them uploads, at each index, exactly the
/// bytes, the dims and the element type of the tuple at that index, and the
/// argument at that index is the buffer that this upload returned. The bytes at
/// each index are those that were copied out of the output at that index.
pub proof fn law_run_on_inputs(
    client: ClientSpec,
    executable: usize,
    inputs: &Inputs,
    num_outputs: usize,
    transcript: Seq<Exchange>,
    host: Seq<Seq<u8>>,
)
    requires
        client.run_loaded_protocol(
            executable,
            crate::transfer::input_arrays(inputs),
            num_outputs,
        ).completes(transcript, host),
    ensures
        runs_on_inputs(client, executable, inputs, num_outputs, transcript, host),
{
    let arrays = crate::transfer::input_arrays(inputs);
    assert(arrays_of(arrays, inputs));
    let found = client.device_found(executable, arrays, num_outputs);
    lemma_first_device(client, found, transcript, host);
    let device = transcript[0].reply.objects[0];
    let rest = transcript.skip(1);
    let next = client.inputs_uploaded(executable, num_outputs);
    let (at, buffers) = crate::ledger::lemma_sequence(
        client.upload_protocol(device, arrays, Seq::empty()),
        next,
        rest,
        host,
    );
    let filling = lemma_fills_each(
        client,
        device,
        arrays,
        Seq::empty(),
        rest.take(at),
        buffers,
    );
    assert(arrays.skip(0) =~= arrays);
    assert(buffers.skip(0) =~= buffers);
    assert(filling[arrays.len() as int] == at);
    assert(rest.take(at) =~= transcript.subrange(1, 1 + at));
    let running = rest.skip(at);
    let outputs = lemma_executes(
        client,
        executable,
        buffers,
        num_outputs,
        client.executed(),
        running,
        host,
    );
    assert(running[0] == transcript[1 + at]);
    let last = running.skip(1);
    let reading = lemma_reads_each(client, outputs, Seq::empty(), last, host);
    assert(outputs.skip(0) =~= outputs);
    assert(host.skip(0) =~= host);
    assert(last =~= transcript.skip(1 + at + 1));
    assert(carries(
        client,
        executable,
        arrays,
        num_outputs,
        transcript,
        host,
        filling,
        buffers,
        outputs,
        reading,
    ));
}

/// The path is what the environment variable holds.
pub proof fn law_path(transcript: Seq<Exchange>, path: Seq<char>)
    requires
        crate::plugin::plugin_path_protocol().completes(transcript, path),
    ensures
        finds_path(transcript, path),
{
    let protocol = crate::plugin::plugin_path_protocol();
    let end = Protocol::Return(path);
    crate::transcript::lemma_called(protocol, transcript, end);
    let rest = protocol.after(transcript[0].reply);
    crate::transcript::lemma_ended(rest, transcript.drop_first(), end);
}

/// The version is read from the function table, major first.
pub proof fn law_version(pjrt: Pjrt, transcript: Seq<Exchange>, version: (i32, i32))
    requires
        pjrt.version_protocol().completes(transcript, version),
    ensures
        tells_version(pjrt, transcript, version),
{
    let protocol = pjrt.version_protocol();
    let end = Protocol::Return(version);
    crate::transcript::lemma_called(protocol, transcript, end);
    let rest = protocol.after(transcript[0].reply);
    crate::transcript::lemma_ended(rest, transcript.drop_first(), end);
}

/// Loading opens the library at the path and calls its symbol.
pub proof fn law_load(transcript: Seq<Exchange>, pjrt: Pjrt)
    requires
        Pjrt::load_protocol().completes(transcript, pjrt),
    ensures
        loads(transcript, pjrt),
{
    crate::laws::lemma_load(transcript, pjrt);
}

/// The process's plugin is the one that it keeps, or is loaded and initialized.
pub proof fn law_shared_plugin(loaded: Option<Pjrt>, transcript: Seq<Exchange>, pjrt: Pjrt)
    requires
        crate::plugin::shared_pjrt_protocol(loaded).completes(transcript, pjrt),
    ensures
        shares(loaded, transcript, pjrt),
{
    match loaded {
        Some(kept) => {
            crate::transcript::lemma_ended(
                crate::plugin::shared_pjrt_protocol(loaded),
                transcript,
                Protocol::Return(pjrt),
            );
        },
        None => {
            crate::laws::law_plugin_is_loaded_and_initialized(transcript, pjrt);
            crate::failures::law_opening_fails_for_a_reason(
                loaded,
                SessionOptions::unset(),
                pjrt,
            );
            assert(crate::failures::accounted(transcript, None));
            assert(crate::failures::lets_go_on(transcript, 4));
            let head = transcript.take(4);
            assert(head[0] == transcript[0]);
            assert(head[1] == transcript[1]);
            assert(head[2] == transcript[2]);
            assert(head[3] == transcript[3]);
        },
    }
}

/// Opening a session makes the plugin ready and creates a client, which is
/// given exactly what was set in the options.
pub proof fn law_opening(
    loaded: Option<Pjrt>,
    options: SessionOptions,
    transcript: Seq<Exchange>,
    client: ClientSpec,
)
    requires
        crate::session::with_options_protocol(loaded, options).completes(transcript, client),
    ensures
        opens(loaded, options, transcript, client),
{
    let ready = crate::session::plugin_ready(options);
    let (at, pjrt) = crate::ledger::lemma_sequence(
        crate::plugin::shared_pjrt_protocol(loaded),
        ready,
        transcript,
        client,
    );
    law_shared_plugin(loaded, transcript.take(at), pjrt);
    let creating = transcript.skip(at);
    crate::laws::law_each_session_has_its_client(pjrt, options, creating, client);
    crate::options::law_options_are_given_as_set(options);
    assert(transcript.take(at) =~= transcript.drop_last());
    assert(creating[0] == transcript.last());
}

/// Opening a session with nothing set gives the client no named value.
pub proof fn law_opening_unset(
    loaded: Option<Pjrt>,
    transcript: Seq<Exchange>,
    client: ClientSpec,
)
    requires
        crate::session::with_options_protocol(loaded, SessionOptions::unset()).completes(
            transcript,
            client,
        ),
    ensures
        opens_unset(loaded, transcript, client),
{
    law_opening(loaded, SessionOptions::unset(), transcript, client);
    crate::options::law_unset_options_name_nothing();
}

/// Bytecode that is run once is compiled on a client that was opened with
/// nothing set, and run on the host arrays.
pub proof fn law_run_of_bytecode(
    loaded: Option<Pjrt>,
    code: Seq<u8>,
    inputs: &Inputs,
    num_outputs: usize,
    transcript: Seq<Exchange>,
    host: Seq<Seq<u8>>,
)
    requires
        crate::session::run_bytecode_protocol(
            loaded,
            code,
            crate::transfer::input_arrays(inputs),
            num_outputs,
        ).completes(transcript, host),
    ensures
        runs_bytecode(loaded, code, inputs, num_outputs, transcript, host),
{
    let arrays = crate::transfer::input_arrays(inputs);
    let (opened, client, compiled, executable) =
        crate::laws::law_bytecode_runs_where_it_was_compiled(
        loaded,
        code,
        arrays,
        num_outputs,
        transcript,
        host,
    );
    law_opening_unset(loaded, transcript.take(opened), client);
    law_compilation(
        client,
        code,
        transcript.subrange(opened, compiled),
        Protocol::Return(executable),
    );
    assert(compiled == opened + 1);
    law_run_on_inputs(
        client,
        executable,
        inputs,
        num_outputs,
        transcript.skip(compiled),
        host,
    );
    assert(runs_bytecode_from(
        loaded,
        code,
        inputs,
        num_outputs,
        transcript,
        host,
        opened,
        client,
        executable,
    ));
}

} // verus!
