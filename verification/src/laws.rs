//! What holds of every complete run.
//!
//! Each law is about a transcript that a procedure can produce, whatever the
//! plugin replied, and says what its ledger adds up to.

use vstd::prelude::*;

use crate::call::{CallSpec, EntrySpec, HostCallSpec, ReplySpec};
use crate::handles::{ClientSpec, Pjrt};
use crate::ledger::Ledger;
use crate::memory::MemoryStats;
use crate::protocol::Protocol;
use crate::run::TimedSpec;
use crate::transcript::Exchange;
use crate::transfer::InputSpec;

verus! {

broadcast use crate::protocol::lemma_and_then;

// Runs on buffers.

/// A clock that is read adds nothing, and the run goes on with the reading.
proof fn lemma_timed<T>(
    next: spec_fn(ReplySpec) -> Protocol<T>,
    transcript: Seq<Exchange>,
    value: T,
)
    requires
        crate::run::timed(next).completes(transcript, value),
    ensures
        transcript.len() > 0,
        transcript[0].call == CallSpec::Host(HostCallSpec::ReadClock),
        next(transcript[0].reply).completes(transcript.drop_first(), value),
        Ledger::total(transcript) == Ledger::total(transcript.drop_first()),
{
    crate::transcript::lemma_called(crate::run::timed(next), transcript, Protocol::Return(value));
    crate::ledger::lemma_plus_empty(Ledger::total(transcript.drop_first()));
}

/// A run on buffers that returns has executed once on the given arguments,
/// has copied every output to the host, in order, waited for each copy, and
/// returned exactly what was copied, one byte vector per output. Only then, at
/// the point `at` of the transcript, it started to destroy buffers, and it
/// destroyed exactly the outputs. So it leaves no device memory behind.
pub proof fn law_timed_run_leaves_nothing_behind(
    client: ClientSpec,
    executable: usize,
    arguments: Seq<usize>,
    num_outputs: usize,
    transcript: Seq<Exchange>,
    result: TimedSpec,
) -> (at: int)
    requires
        client.run_buffers_timed_protocol(executable, arguments, num_outputs).completes(
            transcript,
            result,
        ),
    ensures
        0 <= at <= transcript.len(),
        ({
            let copying = Ledger::total(transcript.take(at));
            let all = Ledger::total(transcript);
            &&& all.arguments == seq![arguments]
            &&& all.outputs.len() == num_outputs
            &&& all.copied == all.outputs
            &&& all.destroyed == all.outputs
            &&& all.taken == result.0
            &&& result.0.len() == num_outputs
            &&& all.uploaded.len() == 0
            &&& all.transfers_complete()
            &&& copying.outputs == all.outputs
            &&& copying.copied == all.copied
            &&& copying.transfers_complete()
            &&& copying.destroyed.len() == 0
        }),
{
    let started = client.run_started(executable, arguments, num_outputs);
    lemma_timed(started, transcript, result);
    let start = transcript[0].reply.nanos;
    let running = transcript.drop_first();
    let (ran, outputs) = crate::ledger::lemma_sequence(
        client.execute_protocol(executable, arguments, num_outputs),
        client.run_dispatched(start),
        running,
        result,
    );
    crate::ledger::lemma_execute(
        client,
        executable,
        arguments,
        num_outputs,
        running.take(ran),
        outputs,
    );
    let ended = running.skip(ran);
    lemma_timed(client.dispatch_timed(outputs, start), ended, result);
    let dispatch = crate::run::elapsed(start, ended[0].reply.nanos);
    let began = ended.drop_first();
    lemma_timed(client.readback_started(outputs, dispatch), began, result);
    let reading = began.drop_first();
    let read_start = began[0].reply.nanos;
    let (read, host) = crate::ledger::lemma_sequence(
        client.read_protocol(outputs, Seq::empty()),
        client.outputs_read(outputs, dispatch, read_start),
        reading,
        result,
    );
    crate::ledger::lemma_read(client, outputs, Seq::empty(), reading.take(read), host);
    assert(outputs.skip(0) =~= outputs);
    assert(host.skip(0) =~= host);
    let over = reading.skip(read);
    lemma_timed(client.readback_timed(outputs, dispatch, read_start, host), over, result);
    let releasing = over.drop_first();
    let readback = crate::run::elapsed(read_start, over[0].reply.nanos);
    let finish = crate::run::outputs_released(host, dispatch, readback);
    let (released, done) = crate::ledger::lemma_sequence(
        client.release_protocol(outputs, 0),
        finish,
        releasing,
        result,
    );
    crate::ledger::lemma_release(client, outputs, 0, releasing.take(released));
    crate::transcript::lemma_ended(finish(()), releasing.skip(released), Protocol::Return(result));
    crate::ledger::lemma_plus_empty(Ledger::total(releasing.take(released)));
    let copying = Ledger::total(running.take(ran)).plus(Ledger::total(reading.take(read)));
    let rest = Ledger::total(over);
    crate::ledger::lemma_plus_associative(
        Ledger::total(running.take(ran)),
        Ledger::total(reading.take(read)),
        rest,
    );
    assert(Ledger::total(transcript) == copying.plus(rest));
    let at = 1 + ran + 2 + read;
    let head = transcript.take(at);
    assert(head.drop_first() =~= running.take(ran + 2 + read));
    crate::ledger::lemma_total_split(running.take(ran + 2 + read), ran);
    assert(running.take(ran + 2 + read).take(ran) =~= running.take(ran));
    let between = running.take(ran + 2 + read).skip(ran);
    assert(between =~= ended.take(2 + read));
    assert(between.drop_first().drop_first() =~= reading.take(read));
    assert(between[0] == ended[0]);
    assert(between.drop_first()[0] == began[0]);
    crate::ledger::lemma_plus_empty(Ledger::total(between.drop_first().drop_first()));
    crate::ledger::lemma_plus_empty(Ledger::total(running.take(ran + 2 + read)));
    assert(head[0] == transcript[0]);
    assert(Ledger::total(between.drop_first()) == Ledger::total(reading.take(read)));
    assert(Ledger::total(between) == Ledger::total(reading.take(read)));
    assert(Ledger::total(head) == copying);
    at
}

/// A run on buffers is a timed run whose times are dropped: it makes the same
/// calls and returns the same bytes.
pub proof fn law_run_is_a_timed_run(
    client: ClientSpec,
    executable: usize,
    arguments: Seq<usize>,
    num_outputs: usize,
    transcript: Seq<Exchange>,
    host: Seq<Seq<u8>>,
)
    ensures
        client.run_buffers_protocol(executable, arguments, num_outputs).completes(transcript, host)
            <==> exists|dispatch: u64, readback: u64|
            client.run_buffers_timed_protocol(
                executable,
                arguments,
                num_outputs,
            ).completes(transcript, (host, dispatch, readback)),
{
    let timed = client.run_buffers_timed_protocol(executable, arguments, num_outputs);
    let next = crate::session::times_dropped();
    if client.run_buffers_protocol(executable, arguments, num_outputs).completes(transcript, host) {
        let (at, result) = crate::ledger::lemma_sequence(timed, next, transcript, host);
        crate::transcript::lemma_ended(next(result), transcript.skip(at), Protocol::Return(host));
        assert(transcript.take(at) =~= transcript);
        assert(result == (host, result.1, result.2));
        assert(timed.completes(transcript, (host, result.1, result.2)));
    }
    if exists|dispatch: u64, readback: u64|
        timed.completes(transcript, (host, dispatch, readback)) {
        let (dispatch, readback) = choose|dispatch: u64, readback: u64|
            timed.completes(transcript, (host, dispatch, readback));
        let result = (host, dispatch, readback);
        crate::transcript::lemma_join(
            timed,
            next,
            transcript,
            result,
            Seq::empty(),
            Protocol::Return(host),
        );
        assert(transcript + Seq::empty() =~= transcript);
    }
}

/// A run that leaves its outputs on the device returns all of them, has
/// executed once on the given arguments, and has neither copied nor destroyed
/// anything.
pub proof fn law_outputs_stay_on_the_device(
    client: ClientSpec,
    executable: usize,
    arguments: Seq<usize>,
    num_outputs: usize,
    transcript: Seq<Exchange>,
    outputs: Seq<usize>,
)
    requires
        client.execute_protocol(executable, arguments, num_outputs).completes(transcript, outputs),
    ensures
        outputs.len() == num_outputs,
        Ledger::total(transcript) == (Ledger {
            arguments: seq![arguments],
            outputs,
            ..Ledger::empty()
        }),
{
    crate::ledger::lemma_execute(client, executable, arguments, num_outputs, transcript, outputs);
}

// Buffers.

/// A buffer that was uploaded was filled from the given array, and the plugin
/// has finished reading it: its transfer was waited for.
pub proof fn law_upload_is_complete(
    client: ClientSpec,
    input: InputSpec,
    transcript: Seq<Exchange>,
    buffer: usize,
)
    requires
        client.input_buffer_protocol(input).completes(transcript, buffer),
    ensures
        Ledger::total(transcript).inputs == seq![input],
        Ledger::total(transcript).uploaded == seq![buffer],
        Ledger::total(transcript).transfers_complete(),
        Ledger::total(transcript).destroyed.len() == 0,
{
    let next = client.device_chosen(input);
    let (at, device) = crate::ledger::lemma_sequence(
        client.first_device_protocol(),
        next,
        transcript,
        buffer,
    );
    crate::ledger::lemma_first_device(client, transcript.take(at), device);
    crate::ledger::lemma_buf_from_host(client, device, input, transcript.skip(at), buffer);
    crate::ledger::lemma_plus_empty(Ledger::total(transcript.skip(at)));
}

/// Reading a buffer is a copy, not a move: the bytes are those that were
/// copied out of this buffer and no other, the copy was waited for, and no
/// buffer was destroyed.
pub proof fn law_reading_is_a_copy(
    client: ClientSpec,
    buffer: usize,
    transcript: Seq<Exchange>,
    bytes: Seq<u8>,
)
    requires
        client.to_host_protocol(buffer).completes(transcript, bytes),
    ensures
        Ledger::total(transcript).copied == seq![buffer],
        Ledger::total(transcript).taken == seq![bytes],
        Ledger::total(transcript).transfers_complete(),
        Ledger::total(transcript).destroyed.len() == 0,
{
    crate::ledger::lemma_to_host(client, buffer, transcript, bytes);
}

/// Freeing a buffer destroys it, once, and nothing else.
pub proof fn law_free_destroys_the_buffer(
    client: ClientSpec,
    buffer: usize,
    transcript: Seq<Exchange>,
)
    requires
        client.destroy_buffer_protocol(buffer).completes(transcript, ()),
    ensures
        Ledger::total(transcript) == (Ledger { destroyed: seq![buffer], ..Ledger::empty() }),
{
    crate::ledger::lemma_destroy_buffer(client, buffer, transcript);
}

// Runs on inputs from the host.

/// A run on inputs from the host uploads each input once, in order, and waits
/// until it was read; executes once, on exactly the buffers that were filled;
/// and returns exactly what was copied out of the outputs, one byte vector per
/// output. It destroys no buffer.
pub proof fn law_run_carries_every_input(
    client: ClientSpec,
    executable: usize,
    inputs: Seq<InputSpec>,
    num_outputs: usize,
    transcript: Seq<Exchange>,
    host: Seq<Seq<u8>>,
)
    requires
        client.run_loaded_protocol(executable, inputs, num_outputs).completes(transcript, host),
    ensures
        ({
            let all = Ledger::total(transcript);
            &&& all.inputs == inputs
            &&& all.uploaded.len() == inputs.len()
            &&& all.arguments == seq![all.uploaded]
            &&& all.outputs.len() == num_outputs
            &&& all.copied == all.outputs
            &&& all.taken == host
            &&& host.len() == num_outputs
            &&& all.transfers_complete()
            &&& all.destroyed.len() == 0
        }),
{
    let (found, device) = crate::ledger::lemma_sequence(
        client.first_device_protocol(),
        client.device_found(executable, inputs, num_outputs),
        transcript,
        host,
    );
    crate::ledger::lemma_first_device(client, transcript.take(found), device);
    let uploading = transcript.skip(found);
    crate::ledger::lemma_plus_empty(Ledger::total(uploading));
    let (uploaded, buffers) = crate::ledger::lemma_sequence(
        client.upload_protocol(device, inputs, Seq::empty()),
        client.inputs_uploaded(executable, num_outputs),
        uploading,
        host,
    );
    crate::ledger::lemma_upload(
        client,
        device,
        inputs,
        Seq::empty(),
        uploading.take(uploaded),
        buffers,
    );
    assert(inputs.skip(0) =~= inputs);
    assert(buffers.skip(0) =~= buffers);
    let running = uploading.skip(uploaded);
    let (ran, outputs) = crate::ledger::lemma_sequence(
        client.execute_protocol(executable, buffers, num_outputs),
        client.executed(),
        running,
        host,
    );
    crate::ledger::lemma_execute(
        client,
        executable,
        buffers,
        num_outputs,
        running.take(ran),
        outputs,
    );
    crate::ledger::lemma_read(client, outputs, Seq::empty(), running.skip(ran), host);
    assert(outputs.skip(0) =~= outputs);
    assert(host.skip(0) =~= host);
}

/// Bytecode that is run once is compiled on a client with the plugin's default
/// options and then run on that client: the transcript is that of opening the
/// client, then that of compiling, then that of the run.
pub proof fn law_bytecode_runs_where_it_was_compiled(
    loaded: Option<Pjrt>,
    code: Seq<u8>,
    inputs: Seq<InputSpec>,
    num_outputs: usize,
    transcript: Seq<Exchange>,
    host: Seq<Seq<u8>>,
) -> (parts: (int, ClientSpec, int, usize))
    requires
        crate::session::run_bytecode_protocol(loaded, code, inputs, num_outputs).completes(
            transcript,
            host,
        ),
    ensures
        ({
            let (opened, client, compiled, executable) = parts;
            &&& 0 <= opened <= compiled <= transcript.len()
            &&& crate::session::with_options_protocol(
                loaded,
                crate::options::SessionOptions::unset(),
            ).completes(transcript.take(opened), client)
            &&& client.compile_protocol(code).completes(
                transcript.subrange(opened, compiled),
                executable,
            )
            &&& client.run_loaded_protocol(executable, inputs, num_outputs).completes(
                transcript.skip(compiled),
                host,
            )
        }),
{
    let (opened, client) = crate::ledger::lemma_sequence(
        crate::session::with_options_protocol(loaded, crate::options::SessionOptions::unset()),
        crate::session::client_opened(code, inputs, num_outputs),
        transcript,
        host,
    );
    let rest = transcript.skip(opened);
    let (at, executable) = crate::ledger::lemma_sequence(
        client.compile_protocol(code),
        client.code_compiled(inputs, num_outputs),
        rest,
        host,
    );
    assert(rest.take(at) =~= transcript.subrange(opened, opened + at));
    assert(rest.skip(at) =~= transcript.skip(opened + at));
    (opened, client, opened + at, executable)
}

// Errors.

/// A call of an entry point whose error is looked at either got a reply
/// without an error, which is the result, or it failed: then the error's
/// message was read, the error was destroyed, and the failure tells the entry
/// point and the message. There is no third way for it to end.
pub proof fn law_errors_are_raised(
    api: usize,
    entry: EntrySpec,
    context: Seq<char>,
    transcript: Seq<Exchange>,
    end: Protocol<ReplySpec>,
)
    requires
        crate::check::checked(api, entry, context).leads_to(transcript, end),
        end !is Call,
    ensures
        transcript.len() > 0,
        transcript[0].call == (CallSpec::Plugin { api, entry }),
        match end {
            Protocol::Return(reply) => {
                &&& transcript.len() == 1
                &&& transcript[0].reply == reply
                &&& reply.error == 0
            },
            Protocol::Fail(message) => {
                let error = transcript[0].reply.error;
                &&& transcript.len() == 3
                &&& error != 0
                &&& transcript[1].call == (CallSpec::Plugin {
                    api,
                    entry: EntrySpec::ErrorMessage { error },
                })
                &&& transcript[2].call == (CallSpec::Plugin {
                    api,
                    entry: EntrySpec::ErrorDestroy { error },
                })
                &&& message == crate::check::error_text(context, transcript[1].reply.bytes)
            },
            Protocol::Call(_, _) => false,
        },
{
    let start = crate::check::checked(api, entry, context);
    crate::transcript::lemma_called(start, transcript, end);
    let reply = transcript[0].reply;
    let tail = transcript.drop_first();
    if reply.error == 0 {
        crate::transcript::lemma_ended(start.after(reply), tail, end);
    } else {
        crate::ledger::lemma_raise(api, reply.error, context, tail, end);
        if end is Fail {
            assert(tail[0] == transcript[1]);
            assert(tail[1] == transcript[2]);
        }
    }
}

// Statistics.

/// Statistics are read in two calls. An error in answer to the second means
/// that none are kept: it is destroyed, and the result is `None`. Otherwise the
/// result is what the report says, in which a statistic whose flag is not set
/// is missing rather than zero.
pub proof fn law_statistics_are_as_reported(
    client: ClientSpec,
    transcript: Seq<Exchange>,
    stats: Option<MemoryStats>,
)
    requires
        client.memory_stats_protocol().completes(transcript, stats),
    ensures
        transcript.len() >= 2,
        match stats {
            Some(stats) => {
                &&& transcript.len() == 2
                &&& transcript[1].reply.error == 0
                &&& stats == transcript[1].reply.report.said()
            },
            None => {
                let error = transcript[1].reply.error;
                &&& transcript.len() == 3
                &&& error != 0
                &&& transcript[2].call == (CallSpec::Plugin {
                    api: client.api,
                    entry: EntrySpec::ErrorDestroy { error },
                })
            },
        },
        transcript[0].reply.objects.len() > 0,
        transcript[1].call == (CallSpec::Plugin {
            api: client.api,
            entry: EntrySpec::DeviceMemoryStats { device: transcript[0].reply.objects[0] },
        }),
        Ledger::total(transcript).settled == Ledger::total(transcript).raised,
{
    let (at, device) = crate::ledger::lemma_sequence(
        client.first_device_protocol(),
        client.device_asked(),
        transcript,
        stats,
    );
    let head = transcript.take(at);
    crate::ledger::lemma_first_device(client, head, device);
    let entry = EntrySpec::ClientAddressableDevices { client: client.client };
    let context = "AddressableDevices"@;
    let next = crate::client::devices_listed();
    let (listed, reply) = crate::ledger::lemma_sequence(
        crate::check::checked(client.api, entry, context),
        next,
        head,
        device,
    );
    crate::ledger::lemma_checked(client.api, entry, context, head.take(listed), reply);
    crate::transcript::lemma_ended(next(reply), head.skip(listed), Protocol::Return(device));
    assert(head.len() == 1);
    assert(head.take(listed)[0] == transcript[0]);
    let tail = transcript.skip(at);
    crate::ledger::lemma_plus_empty(Ledger::total(tail));
    let asked = client.device_asked()(device);
    crate::transcript::lemma_called(asked, tail, Protocol::Return(stats));
    assert(tail[0] == transcript[1]);
    let answered = asked.after(tail[0].reply);
    let rest = tail.drop_first();
    if tail[0].reply.error != 0 {
        crate::transcript::lemma_called(answered, rest, Protocol::Return(stats));
        assert(rest[0] == transcript[2]);
        crate::transcript::lemma_ended(
            answered.after(rest[0].reply),
            rest.drop_first(),
            Protocol::Return(stats),
        );
        crate::ledger::lemma_total_one(rest);
    } else {
        crate::transcript::lemma_ended(answered, rest, Protocol::Return(stats));
        crate::ledger::lemma_total_one(tail);
    }
}

/// Of two readings, the later one has a peak, not below the earlier one's, if
/// that is what the plugin reported.
pub proof fn law_peaks_compare_as_reported(
    client: ClientSpec,
    reading: Seq<Exchange>,
    before: MemoryStats,
    reading_again: Seq<Exchange>,
    after: MemoryStats,
)
    requires
        client.memory_stats_protocol().completes(reading, Some(before)),
        client.memory_stats_protocol().completes(reading_again, Some(after)),
        reading_again[1].reply.report.peak_bytes_in_use_is_set,
        reading[1].reply.report.peak_bytes_in_use_is_set
            ==> reading[1].reply.report.peak_bytes_in_use
            <= reading_again[1].reply.report.peak_bytes_in_use,
    ensures
        after.peak_bytes_in_use is Some,
        before.peak_bytes_in_use matches Some(peak) ==> peak <= after.peak_bytes_in_use->0,
{
    law_statistics_are_as_reported(client, reading, Some(before));
    law_statistics_are_as_reported(client, reading_again, Some(after));
}

// Executables.

/// Serializing returns the bytes that the plugin handed over, unchanged. Before
/// that the bytes were deleted in the plugin, if they came with a deleter, and
/// the executable that was fetched for it was destroyed as the last thing.
pub proof fn law_serializing_cleans_up(
    client: ClientSpec,
    executable: usize,
    transcript: Seq<Exchange>,
    bytes: Seq<u8>,
)
    requires
        client.serialize_protocol(executable).completes(transcript, bytes),
    ensures
        transcript.len() >= 3,
        ({
            let fetched = transcript[0].reply;
            let serialized = transcript[1].reply;
            &&& transcript[0].call == (CallSpec::Plugin {
                api: client.api,
                entry: EntrySpec::LoadedExecutableGetExecutable { executable },
            })
            &&& transcript[1].call == (CallSpec::Plugin {
                api: client.api,
                entry: EntrySpec::ExecutableSerialize { executable: fetched.object },
            })
            &&& serialized.bytes == bytes
            &&& serialized.deleter != 0 ==> {
                &&& transcript.len() == 4
                &&& transcript[2].call == (CallSpec::Plugin {
                    api: client.api,
                    entry: EntrySpec::SerializedExecutableDelete {
                        deleter: serialized.deleter,
                        serialized: serialized.object,
                    },
                })
            }
            &&& serialized.deleter == 0 ==> transcript.len() == 3
            &&& transcript.last().call == (CallSpec::Plugin {
                api: client.api,
                entry: EntrySpec::ExecutableDestroy { executable: fetched.object },
            })
        }),
{
    let end = Protocol::Return(bytes);
    let fetching = EntrySpec::LoadedExecutableGetExecutable { executable };
    let (one, fetched) = crate::ledger::lemma_sequence(
        crate::check::checked(client.api, fetching, "GetExecutable"@),
        client.executable_fetched(),
        transcript,
        bytes,
    );
    crate::ledger::lemma_checked(
        client.api,
        fetching,
        "GetExecutable"@,
        transcript.take(one),
        fetched,
    );
    assert(transcript.take(one).len() == 1);
    assert(transcript.take(one)[0] == transcript[0]);
    let rest = transcript.skip(one);
    let serializing = EntrySpec::ExecutableSerialize { executable: fetched.object };
    let (two, serialized) = crate::ledger::lemma_sequence(
        crate::check::checked(client.api, serializing, "Executable_Serialize"@),
        client.executable_serialized(fetched.object),
        rest,
        bytes,
    );
    crate::ledger::lemma_checked(
        client.api,
        serializing,
        "Executable_Serialize"@,
        rest.take(two),
        serialized,
    );
    assert(rest.take(two).len() == 1);
    assert(rest.take(two)[0] == transcript[1]);
    let cleaning = rest.skip(two);
    let next = client.executable_serialized(fetched.object)(serialized);
    crate::transcript::lemma_called(next, cleaning, end);
    assert(cleaning[0] == transcript[2]);
    let after = next.after(cleaning[0].reply);
    let last = cleaning.drop_first();
    if serialized.deleter != 0 {
        crate::transcript::lemma_called(after, last, end);
        assert(last[0] == transcript[3]);
        crate::transcript::lemma_ended(after.after(last[0].reply), last.drop_first(), end);
    } else {
        crate::transcript::lemma_ended(after, last, end);
    }
}

/// What an executable was serialized to is what is handed to the plugin when it
/// is loaded again: the same bytes that the plugin gave.
pub proof fn law_serialized_bytes_are_loaded(
    client: ClientSpec,
    executable: usize,
    transcript: Seq<Exchange>,
    bytes: Seq<u8>,
    loader: ClientSpec,
)
    requires
        client.serialize_protocol(executable).completes(transcript, bytes),
    ensures
        transcript.len() >= 2,
        loader.deserialize_and_load_protocol(bytes) is Call,
        loader.deserialize_and_load_protocol(bytes).call() == (CallSpec::Plugin {
            api: loader.api,
            entry: EntrySpec::ExecutableDeserializeAndLoad {
                client: loader.client,
                bytes: transcript[1].reply.bytes,
            },
        }),
{
    law_serializing_cleans_up(client, executable, transcript, bytes);
}

// The plugin.

/// A process that has no plugin yet loads one in five calls: it asks for the
/// path, opens the library there, looks up and calls the one symbol, and
/// initializes the plugin, once. The plugin's function table is not null.
pub proof fn law_plugin_is_loaded_and_initialized(transcript: Seq<Exchange>, pjrt: Pjrt)
    requires
        crate::plugin::shared_pjrt_protocol(None).completes(transcript, pjrt),
    ensures
        transcript.len() == 5,
        transcript[0].call == CallSpec::Host(
            HostCallSpec::ReadVariable { name: "XLA_PJRT_PLUGIN"@ },
        ),
        transcript[1].call == CallSpec::Host(
            HostCallSpec::OpenLibrary { path: transcript[0].reply.text },
        ),
        transcript[2].call == CallSpec::Host(HostCallSpec::FindSymbol { name: "GetPjrtApi\0"@ }),
        transcript[3].call == CallSpec::Host(HostCallSpec::CallSymbol),
        transcript[4].call == (CallSpec::Plugin {
            api: pjrt.api,
            entry: EntrySpec::PluginInitialize,
        }),
        pjrt.api == transcript[3].reply.object,
        pjrt.api != 0,
{
    let (loaded, plugin) = crate::ledger::lemma_sequence(
        Pjrt::load_protocol(),
        crate::plugin::plugin_loaded(),
        transcript,
        pjrt,
    );
    let loading = transcript.take(loaded);
    let starting = transcript.skip(loaded);
    lemma_load(loading, plugin);
    let next = crate::plugin::plugin_started(plugin);
    let (started, done) = crate::ledger::lemma_sequence(
        plugin.plugin_initialize_protocol(),
        next,
        starting,
        pjrt,
    );
    crate::transcript::lemma_ended(next(()), starting.skip(started), Protocol::Return(pjrt));
    let call = starting.take(started);
    let entry = EntrySpec::PluginInitialize;
    let context = "Plugin_Initialize"@;
    let acknowledged = crate::check::nothing_returned();
    let (at, reply) = crate::ledger::lemma_sequence(
        crate::check::checked(plugin.api, entry, context),
        acknowledged,
        call,
        (),
    );
    crate::ledger::lemma_checked(plugin.api, entry, context, call.take(at), reply);
    crate::transcript::lemma_ended(acknowledged(reply), call.skip(at), Protocol::Return(()));
    assert(call.len() == 1);
    assert(call.take(at)[0] == transcript[4]);
    assert(loading[0] == transcript[0]);
    assert(loading[1] == transcript[1]);
    assert(loading[2] == transcript[2]);
    assert(loading[3] == transcript[3]);
}

/// A complete run of a host call that must succeed is that call.
proof fn lemma_expected(
    call: HostCallSpec,
    context: Seq<char>,
    transcript: Seq<Exchange>,
    reply: ReplySpec,
)
    requires
        crate::check::expected(call, context).completes(transcript, reply),
    ensures
        transcript == seq![Exchange { call: CallSpec::Host(call), reply }],
{
    let start = crate::check::expected(call, context);
    crate::transcript::lemma_called(start, transcript, Protocol::Return(reply));
    let got = transcript[0].reply;
    crate::transcript::lemma_ended(
        start.after(got),
        transcript.drop_first(),
        Protocol::Return(reply),
    );
    assert(transcript =~= seq![Exchange { call: CallSpec::Host(call), reply }]);
}

/// What a complete load looks like.
pub proof fn lemma_load(transcript: Seq<Exchange>, pjrt: Pjrt)
    requires
        Pjrt::load_protocol().completes(transcript, pjrt),
    ensures
        transcript.len() == 4,
        transcript[0].call == CallSpec::Host(
            HostCallSpec::ReadVariable { name: "XLA_PJRT_PLUGIN"@ },
        ),
        transcript[1].call == CallSpec::Host(
            HostCallSpec::OpenLibrary { path: transcript[0].reply.text },
        ),
        transcript[2].call == CallSpec::Host(HostCallSpec::FindSymbol { name: "GetPjrtApi\0"@ }),
        transcript[3].call == CallSpec::Host(HostCallSpec::CallSymbol),
        pjrt.api == transcript[3].reply.object,
        pjrt.api != 0,
{
    let (known, path) = crate::ledger::lemma_sequence(
        crate::plugin::plugin_path_protocol(),
        Pjrt::path_known(),
        transcript,
        pjrt,
    );
    let head = transcript.take(known);
    let asking = HostCallSpec::ReadVariable { name: "XLA_PJRT_PLUGIN"@ };
    let advice = "set XLA_PJRT_PLUGIN to the jax-cuda12 xla_cuda_plugin.so"@;
    let text = crate::plugin::text_returned();
    let (at, reply) = crate::ledger::lemma_sequence(
        crate::check::expected(asking, advice),
        text,
        head,
        path,
    );
    lemma_expected(asking, advice, head.take(at), reply);
    crate::transcript::lemma_ended(text(reply), head.skip(at), Protocol::Return(path));
    assert(head.len() == 1);
    assert(head.take(at)[0] == transcript[0]);
    let rest = transcript.skip(known);
    let opening = HostCallSpec::OpenLibrary { path };
    let (opened, library) = crate::ledger::lemma_sequence(
        crate::check::expected(opening, "dlopen GPU plugin"@),
        Pjrt::library_opened(),
        rest,
        pjrt,
    );
    lemma_expected(opening, "dlopen GPU plugin"@, rest.take(opened), library);
    assert(rest.take(opened).len() == 1);
    assert(rest.take(opened)[0] == transcript[1]);
    let rest = rest.skip(opened);
    let finding = HostCallSpec::FindSymbol { name: "GetPjrtApi\0"@ };
    let (found, symbol) = crate::ledger::lemma_sequence(
        crate::check::expected(finding, "GetPjrtApi symbol"@),
        Pjrt::symbol_found(),
        rest,
        pjrt,
    );
    lemma_expected(finding, "GetPjrtApi symbol"@, rest.take(found), symbol);
    assert(rest.take(found).len() == 1);
    assert(rest.take(found)[0] == transcript[2]);
    let rest = rest.skip(found);
    let calling = Pjrt::symbol_found()(symbol);
    crate::transcript::lemma_called(calling, rest, Protocol::Return(pjrt));
    assert(rest[0] == transcript[3]);
    crate::transcript::lemma_ended(
        calling.after(rest[0].reply),
        rest.drop_first(),
        Protocol::Return(pjrt),
    );
}

/// A plugin that the process has loaded is used without any call, so a session
/// after the first makes one call, which creates its client.
pub proof fn law_plugin_is_loaded_once(pjrt: Pjrt, options: crate::options::SessionOptions)
    ensures
        crate::plugin::shared_pjrt_protocol(Some(pjrt)) == Protocol::Return(pjrt),
        crate::session::with_options_protocol(Some(pjrt), options) == pjrt.create_client_protocol(
            options,
        ),
{
}

/// The plugin that the process keeps after these runs, each given with its
/// end: the first one that was returned. A run that failed leaves nothing.
pub open spec fn plugin_kept(runs: Seq<(Seq<Exchange>, Protocol<Pjrt>)>) -> Option<Pjrt>
    decreases runs.len(),
{
    if runs.len() == 0 {
        None
    } else {
        match (plugin_kept(runs.drop_last()), runs.last().1) {
            (Some(pjrt), _) => Some(pjrt),
            (None, Protocol::Return(pjrt)) => Some(pjrt),
            _ => None,
        }
    }
}

/// The process asks for its plugin again and again, each time with what it
/// keeps by then.
pub open spec fn plugin_asked_for(runs: Seq<(Seq<Exchange>, Protocol<Pjrt>)>) -> bool
    decreases runs.len(),
{
    runs.len() > 0 ==> {
        let before = runs.drop_last();
        let (transcript, end) = runs.last();
        &&& plugin_asked_for(before)
        &&& crate::plugin::shared_pjrt_protocol(plugin_kept(before)).leads_to(transcript, end)
        &&& end !is Call
    }
}

/// However often a process asks for its plugin, it gets the same one each time
/// from the first time that it gets one, and no call is made after that. Until
/// then each time is a new attempt to load one: one that failed leaves nothing
/// behind.
pub proof fn law_one_plugin_per_process(
    runs: Seq<(Seq<Exchange>, Protocol<Pjrt>)>,
    first: int,
    later: int,
)
    requires
        plugin_asked_for(runs),
        0 <= first <= later < runs.len(),
    ensures
        runs[first].1 is Return ==> {
            &&& runs[later].1 == runs[first].1
            &&& plugin_kept(runs) == Some(runs[first].1->Return_0)
            &&& first < later ==> runs[later].0.len() == 0
        },
        (forall|i: int| 0 <= i < later ==> (#[trigger] runs[i]).1 !is Return) ==> {
            &&& Pjrt::load_protocol().and_then(crate::plugin::plugin_loaded()).leads_to(
                runs[later].0,
                runs[later].1,
            )
            &&& runs[later].0.len() > 0
            &&& runs[later].0[0].call == CallSpec::Host(
                HostCallSpec::ReadVariable { name: "XLA_PJRT_PLUGIN"@ },
            )
        },
    decreases runs.len(),
{
    let before = runs.drop_last();
    let (transcript, end) = runs.last();
    let start = crate::plugin::shared_pjrt_protocol(plugin_kept(before));
    if later < runs.len() - 1 {
        law_one_plugin_per_process(before, first, later);
        assert(before[first] == runs[first]);
        assert(before[later] == runs[later]);
        if forall|i: int| 0 <= i < later ==> (#[trigger] runs[i]).1 !is Return {
            assert forall|i: int| 0 <= i < later implies (#[trigger] before[i]).1 !is Return by {
                assert(before[i] == runs[i]);
            }
        }
    } else {
        assert(runs[later] == (transcript, end));
        if runs[first].1 is Return && first < later {
            law_one_plugin_per_process(before, first, first);
            assert(before[first] == runs[first]);
            crate::transcript::lemma_ended(start, transcript, end);
        }
        if forall|i: int| 0 <= i < later ==> (#[trigger] runs[i]).1 !is Return {
            lemma_nothing_kept(before);
            crate::transcript::lemma_called(start, transcript, end);
        } else if runs[first].1 is Return && first == later {
            let i = choose|i: int| 0 <= i < later && (#[trigger] runs[i]).1 is Return;
            law_one_plugin_per_process(before, i, i);
            assert(before[i] == runs[i]);
            crate::transcript::lemma_ended(start, transcript, end);
        }
    }
}

/// Runs that all failed leave nothing.
proof fn lemma_nothing_kept(runs: Seq<(Seq<Exchange>, Protocol<Pjrt>)>)
    requires
        forall|i: int| 0 <= i < runs.len() ==> (#[trigger] runs[i]).1 !is Return,
    ensures
        plugin_kept(runs) is None,
    decreases runs.len(),
{
    if runs.len() > 0 {
        let before = runs.drop_last();
        assert forall|i: int| 0 <= i < before.len() implies (#[trigger] before[i]).1 !is Return by {
            assert(before[i] == runs[i]);
        }
        lemma_nothing_kept(before);
        assert(runs[runs.len() - 1].1 !is Return);
    }
}

/// A session that is opened on a loaded plugin has the client that one call
/// created for it, the only call made.
pub proof fn law_each_session_has_its_client(
    pjrt: Pjrt,
    options: crate::options::SessionOptions,
    transcript: Seq<Exchange>,
    client: ClientSpec,
)
    requires
        crate::session::with_options_protocol(Some(pjrt), options).completes(transcript, client),
    ensures
        transcript.len() == 1,
        transcript[0].call == (CallSpec::Plugin {
            api: pjrt.api,
            entry: EntrySpec::ClientCreate { options: options.named() },
        }),
        transcript[0].reply.error == 0,
        client == (ClientSpec { api: pjrt.api, client: transcript[0].reply.object }),
{
    let entry = EntrySpec::ClientCreate { options: options.named() };
    let context = "Client_Create"@;
    let first = crate::check::checked(pjrt.api, entry, context);
    let next = pjrt.client_created();
    let (at, reply) = crate::ledger::lemma_sequence(first, next, transcript, client);
    crate::ledger::lemma_checked(pjrt.api, entry, context, transcript.take(at), reply);
    crate::transcript::lemma_ended(next(reply), transcript.skip(at), Protocol::Return(client));
    assert(transcript.take(at)[0] == transcript[0]);
}

} // verus!
