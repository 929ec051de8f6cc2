//! What comes back from a device that keeps what it is given.
//!
//! Each of these laws is about complete runs whose replies are those of such a
//! device; see [`device`](crate::device).

use vstd::prelude::*;

use crate::call::{CallSpec, EntrySpec};
use crate::device::{Device, Machine};
use crate::handles::{ClientSpec, Pjrt};
use crate::memory::MemoryStats;
use crate::options::SessionOptions;
use crate::protocol::Protocol;
use crate::transcript::Exchange;
use crate::transfer::InputSpec;

verus! {

broadcast use crate::protocol::lemma_and_then;

/// Reading an uploaded buffer returns the bytes that were uploaded, whatever
/// was done in between short of destroying it, and the buffer holds them
/// still: the next read returns them again.
pub proof fn law_uploaded_bytes_are_read_back(
    machine: Machine,
    device: Device,
    client: ClientSpec,
    input: InputSpec,
    uploading: Seq<Exchange>,
    buffer: usize,
    between: Seq<Exchange>,
    reading: Seq<Exchange>,
    bytes: Seq<u8>,
)
    requires
        client.input_buffer_protocol(input).completes(uploading, buffer),
        machine.served(device, uploading),
        machine.served(machine.left(device, uploading), between),
        crate::device::spares(between, buffer),
        client.to_host_protocol(buffer).completes(reading, bytes),
        machine.served(machine.left(machine.left(device, uploading), between), reading),
    ensures
        bytes == input.data,
        ({
            let used = machine.left(machine.left(device, uploading), between);
            let after = machine.left(used, reading);
            &&& after.keeps(used)
            &&& after.buffers.dom().contains(buffer)
            &&& after.buffers[buffer] == input
        }),
{
    crate::device::lemma_input_buffer(machine, device, client, input, uploading, buffer);
    let uploaded = machine.left(device, uploading);
    crate::device::lemma_spared(machine, uploaded, buffer, between);
    let used = machine.left(uploaded, between);
    crate::device::lemma_to_host(machine, used, client, buffer, reading, bytes);
}

/// Reading an output that was left on the device returns the bytes that a run
/// which reads its outputs back returns there: the same executable on
/// arguments that hold the same. Whatever is done before the output is read,
/// short of destroying it, does not matter.
pub proof fn law_kept_outputs_read_as_returned(
    machine: Machine,
    device: Device,
    client: ClientSpec,
    executable: usize,
    arguments: Seq<usize>,
    num_outputs: usize,
    running: Seq<Exchange>,
    outputs: Seq<usize>,
    between: Seq<Exchange>,
    i: int,
    reading: Seq<Exchange>,
    bytes: Seq<u8>,
    again: Device,
    running_again: Seq<Exchange>,
    host: Seq<Seq<u8>>,
)
    requires
        device.can_run(executable, arguments),
        client.execute_protocol(executable, arguments, num_outputs).completes(running, outputs),
        machine.served(device, running),
        machine.served(machine.left(device, running), between),
        0 <= i < outputs.len(),
        crate::device::spares(between, outputs[i]),
        client.to_host_protocol(outputs[i]).completes(reading, bytes),
        machine.served(machine.left(machine.left(device, running), between), reading),
        again.can_run(executable, arguments),
        again.executables[executable] == device.executables[executable],
        again.contents(arguments) == device.contents(arguments),
        client.run_buffers_protocol(executable, arguments, num_outputs).completes(
            running_again,
            host,
        ),
        machine.served(again, running_again),
    ensures
        outputs.len() == num_outputs,
        host.len() == num_outputs,
        bytes == host[i],
{
    crate::device::lemma_execute(
        machine,
        device,
        client,
        executable,
        arguments,
        num_outputs,
        running,
        outputs,
    );
    let ran = machine.left(device, running);
    assert(ran.buffers.dom().contains(outputs[i]));
    crate::device::lemma_spared(machine, ran, outputs[i], between);
    let used = machine.left(ran, between);
    crate::device::lemma_to_host(machine, used, client, outputs[i], reading, bytes);
    crate::device::lemma_run_buffers(
        machine,
        again,
        client,
        executable,
        arguments,
        num_outputs,
        running_again,
        host,
    );
}

/// Each input is uploaded after the one before it: `runs` holds the complete
/// runs, each with the buffer that it returned.
pub open spec fn uploads(
    machine: Machine,
    device: Device,
    client: ClientSpec,
    inputs: Seq<InputSpec>,
    runs: Seq<(Seq<Exchange>, usize)>,
) -> bool
    decreases runs.len(),
{
    &&& runs.len() == inputs.len()
    &&& runs.len() > 0 ==> {
        let before = uploaded(machine, device, runs.drop_last());
        &&& uploads(machine, device, client, inputs.drop_last(), runs.drop_last())
        &&& client.input_buffer_protocol(inputs.last()).completes(runs.last().0, runs.last().1)
        &&& machine.served(before, runs.last().0)
    }
}

/// The device after the uploads.
pub open spec fn uploaded(
    machine: Machine,
    device: Device,
    runs: Seq<(Seq<Exchange>, usize)>,
) -> Device
    decreases runs.len(),
{
    if runs.len() == 0 {
        device
    } else {
        machine.left(uploaded(machine, device, runs.drop_last()), runs.last().0)
    }
}

/// The buffers that the uploads returned.
pub open spec fn buffers_of(runs: Seq<(Seq<Exchange>, usize)>) -> Seq<usize> {
    Seq::new(runs.len(), |i: int| runs[i].1)
}

/// The uploads leave a buffer for each input, which holds it.
proof fn lemma_uploads(
    machine: Machine,
    device: Device,
    client: ClientSpec,
    inputs: Seq<InputSpec>,
    runs: Seq<(Seq<Exchange>, usize)>,
)
    requires
        uploads(machine, device, client, inputs, runs),
    ensures
        uploaded(machine, device, runs).has_all(buffers_of(runs)),
        uploaded(machine, device, runs).contents(buffers_of(runs)) == inputs,
        uploaded(machine, device, runs).executables == device.executables,
        device.buffers.submap_of(uploaded(machine, device, runs).buffers),
    decreases runs.len(),
{
    let after = uploaded(machine, device, runs);
    if runs.len() > 0 {
        let fewer = runs.drop_last();
        let before = uploaded(machine, device, fewer);
        let last = inputs.len() - 1;
        lemma_uploads(machine, device, client, inputs.drop_last(), fewer);
        crate::device::lemma_input_buffer(
            machine,
            before,
            client,
            inputs.last(),
            runs.last().0,
            runs.last().1,
        );
        assert forall|i: int| 0 <= i < runs.len() implies after.buffers.dom().contains(
            #[trigger] buffers_of(runs)[i],
        ) && after.buffers[buffers_of(runs)[i]] == inputs[i] by {
            if i < last {
                assert(buffers_of(fewer)[i] == buffers_of(runs)[i]);
                assert(before.buffers.dom().contains(buffers_of(fewer)[i]));
                assert(before.contents(buffers_of(fewer))[i] == inputs.drop_last()[i]);
            }
        }
        assert forall|key: usize| #[trigger] device.buffers.dom().contains(key) implies {
            &&& after.buffers.dom().contains(key)
            &&& after.buffers[key] == device.buffers[key]
        } by {
            assert(before.buffers.dom().contains(key));
        }
    }
    assert(after.contents(buffers_of(runs)) =~= inputs);
}

/// A run on host inputs returns what uploading each input and running on the
/// buffers returns, and leaves every executable and every buffer that there
/// was as it was: the executable can be run again.
pub proof fn law_run_is_upload_and_run(
    machine: Machine,
    device: Device,
    client: ClientSpec,
    executable: usize,
    inputs: Seq<InputSpec>,
    num_outputs: usize,
    runs: Seq<(Seq<Exchange>, usize)>,
    running: Seq<Exchange>,
    host: Seq<Seq<u8>>,
    again: Device,
    running_again: Seq<Exchange>,
    host_again: Seq<Seq<u8>>,
)
    requires
        device.executables.dom().contains(executable),
        uploads(machine, device, client, inputs, runs),
        client.run_buffers_protocol(executable, buffers_of(runs), num_outputs).completes(
            running,
            host,
        ),
        machine.served(uploaded(machine, device, runs), running),
        again.executables.dom().contains(executable),
        again.executables[executable] == device.executables[executable],
        client.run_loaded_protocol(executable, inputs, num_outputs).completes(
            running_again,
            host_again,
        ),
        machine.served(again, running_again),
    ensures
        host == host_again,
        host.len() == num_outputs,
        machine.left(again, running_again).executables == again.executables,
        again.buffers.submap_of(machine.left(again, running_again).buffers),
{
    lemma_uploads(machine, device, client, inputs, runs);
    let ready = uploaded(machine, device, runs);
    crate::device::lemma_run_buffers(
        machine,
        ready,
        client,
        executable,
        buffers_of(runs),
        num_outputs,
        running,
        host,
    );
    crate::device::lemma_run_loaded(
        machine,
        again,
        client,
        executable,
        inputs,
        num_outputs,
        running_again,
        host_again,
    );
    assert(host =~= host_again);
}

/// A complete run on buffers: what was run, the calls, what came back, and the
/// times if the run took them.
pub struct Run {
    pub executable: usize,
    pub arguments: Seq<usize>,
    pub num_outputs: usize,
    pub transcript: Seq<Exchange>,
    pub host: Seq<Seq<u8>>,
    pub times: Option<(u64, u64)>,
}

impl Run {
    /// The calls and what came back are those of a complete run.
    pub open spec fn complete(self, client: ClientSpec) -> bool {
        match self.times {
            Some((dispatch, readback)) => client.run_buffers_timed_protocol(
                self.executable,
                self.arguments,
                self.num_outputs,
            ).completes(self.transcript, (self.host, dispatch, readback)),
            None => client.run_buffers_protocol(
                self.executable,
                self.arguments,
                self.num_outputs,
            ).completes(self.transcript, self.host),
        }
    }

    /// What came back is what the executable computes on the device.
    pub open spec fn returned(self, machine: Machine, device: Device) -> bool {
        self.host == Seq::new(
            self.num_outputs as nat,
            |i: int| machine.outputs(device, self.executable, self.arguments)(i).data,
        )
    }
}

/// The runs were made one after another.
pub open spec fn in_a_row(
    machine: Machine,
    device: Device,
    client: ClientSpec,
    runs: Seq<Run>,
) -> bool
    decreases runs.len(),
{
    runs.len() > 0 ==> {
        &&& in_a_row(machine, device, client, runs.drop_last())
        &&& runs.last().complete(client)
        &&& machine.served(after_all(machine, device, runs.drop_last()), runs.last().transcript)
    }
}

/// The device after the runs.
pub open spec fn after_all(machine: Machine, device: Device, runs: Seq<Run>) -> Device
    decreases runs.len(),
{
    if runs.len() == 0 {
        device
    } else {
        machine.left(after_all(machine, device, runs.drop_last()), runs.last().transcript)
    }
}

/// However many runs are made in a row, timed or not, they leave the device as
/// it was: the same executables, and the same buffers with the same in them.
/// So each returns what it would have returned as the first.
pub proof fn law_runs_leave_the_device(
    machine: Machine,
    device: Device,
    client: ClientSpec,
    runs: Seq<Run>,
)
    requires
        in_a_row(machine, device, client, runs),
        forall|i: int|
            0 <= i < runs.len() ==> device.can_run(
                (#[trigger] runs[i]).executable,
                runs[i].arguments,
            ),
    ensures
        after_all(machine, device, runs).keeps(device),
        forall|i: int| 0 <= i < runs.len() ==> (#[trigger] runs[i]).returned(machine, device),
    decreases runs.len(),
{
    if runs.len() > 0 {
        let fewer = runs.drop_last();
        let run = runs.last();
        assert forall|i: int| 0 <= i < fewer.len() implies device.can_run(
            (#[trigger] fewer[i]).executable,
            fewer[i].arguments,
        ) by {
            assert(fewer[i] == runs[i]);
        }
        law_runs_leave_the_device(machine, device, client, fewer);
        let before = after_all(machine, device, fewer);
        assert(device.can_run(runs[runs.len() - 1].executable, run.arguments));
        assert(before.can_run(run.executable, run.arguments));
        match run.times {
            Some((dispatch, readback)) => {
                crate::device::lemma_run_buffers_timed(
                    machine,
                    before,
                    client,
                    run.executable,
                    run.arguments,
                    run.num_outputs,
                    run.transcript,
                    (run.host, dispatch, readback),
                );
            },
            None => {
                crate::device::lemma_run_buffers(
                    machine,
                    before,
                    client,
                    run.executable,
                    run.arguments,
                    run.num_outputs,
                    run.transcript,
                    run.host,
                );
            },
        }
        assert(before.contents(run.arguments) =~= device.contents(run.arguments));
        assert(run.host =~= Seq::new(
            run.num_outputs as nat,
            |i: int| machine.outputs(device, run.executable, run.arguments)(i).data,
        ));
        assert forall|i: int| 0 <= i < runs.len() implies (#[trigger] runs[i]).returned(
            machine,
            device,
        ) by {
            if i < fewer.len() {
                assert(fewer[i] == runs[i]);
            }
        }
    }
}

/// A run that leaves its outputs on the device adds a buffer for each, and does
/// nothing else to the device.
pub proof fn law_kept_outputs_are_added(
    machine: Machine,
    device: Device,
    client: ClientSpec,
    executable: usize,
    arguments: Seq<usize>,
    num_outputs: usize,
    running: Seq<Exchange>,
    outputs: Seq<usize>,
)
    requires
        device.can_run(executable, arguments),
        client.execute_protocol(executable, arguments, num_outputs).completes(running, outputs),
        machine.served(device, running),
    ensures
        outputs.len() == num_outputs,
        device.lacks_all(outputs),
        machine.left(device, running).keeps(
            (Device {
                buffers: device.with_all(
                    outputs,
                    machine.outputs(device, executable, arguments),
                ),
                ..device
            }),
        ),
{
    crate::device::lemma_execute(
        machine,
        device,
        client,
        executable,
        arguments,
        num_outputs,
        running,
        outputs,
    );
}

/// The outputs that a run left on the device feed the next one: run on any of
/// them, in any order, an executable returns the outputs of its program on the
/// outputs of the first. What is done in between does not matter, short of
/// destroying them.
pub proof fn law_kept_outputs_feed_the_next_run(
    machine: Machine,
    device: Device,
    client: ClientSpec,
    executable: usize,
    arguments: Seq<usize>,
    num_outputs: usize,
    running: Seq<Exchange>,
    outputs: Seq<usize>,
    between: Seq<Exchange>,
    picks: Seq<int>,
    next: usize,
    next_outputs: usize,
    running_next: Seq<Exchange>,
    host: Seq<Seq<u8>>,
)
    requires
        device.can_run(executable, arguments),
        client.execute_protocol(executable, arguments, num_outputs).completes(running, outputs),
        machine.served(device, running),
        machine.served(machine.left(device, running), between),
        forall|i: int|
            0 <= i < picks.len() ==> {
                &&& 0 <= #[trigger] picks[i] < outputs.len()
                &&& crate::device::spares(between, outputs[picks[i]])
            },
        machine.left(machine.left(device, running), between).executables.dom().contains(next),
        client.run_buffers_protocol(
            next,
            Seq::new(picks.len(), |i: int| outputs[picks[i]]),
            next_outputs,
        ).completes(running_next, host),
        machine.served(machine.left(machine.left(device, running), between), running_next),
    ensures
        ({
            let used = machine.left(machine.left(device, running), between);
            let first = machine.outputs(device, executable, arguments);
            let fed = Seq::new(picks.len(), |i: int| first(picks[i]));
            &&& host == Seq::new(
                next_outputs as nat,
                |i: int| (machine.output)(used.executables[next], fed, i).data,
            )
            &&& machine.left(used, running_next).keeps(used)
        }),
{
    crate::device::lemma_execute(
        machine,
        device,
        client,
        executable,
        arguments,
        num_outputs,
        running,
        outputs,
    );
    let ran = machine.left(device, running);
    let used = machine.left(ran, between);
    let first = machine.outputs(device, executable, arguments);
    let fed = Seq::new(picks.len(), |i: int| first(picks[i]));
    let given = Seq::new(picks.len(), |i: int| outputs[picks[i]]);
    assert forall|i: int| 0 <= i < given.len() implies used.buffers.dom().contains(
        #[trigger] given[i],
    ) && used.buffers[given[i]] == fed[i] by {
        let pick = picks[i];
        assert(ran.buffers.dom().contains(outputs[pick]));
        assert(ran.buffers[outputs[pick]] == first(pick));
        crate::device::lemma_spared(machine, ran, outputs[pick], between);
    }
    assert(used.contents(given) =~= fed);
    crate::device::lemma_run_buffers(
        machine,
        used,
        client,
        next,
        given,
        next_outputs,
        running_next,
        host,
    );
    assert(host =~= Seq::new(
        next_outputs as nat,
        |i: int| (machine.output)(used.executables[next], fed, i).data,
    ));
}

/// Two executables of the same program return the same on arguments that hold
/// the same.
pub proof fn law_same_program_same_outputs(
    machine: Machine,
    one: Device,
    one_client: ClientSpec,
    one_executable: usize,
    one_arguments: Seq<usize>,
    one_run: Seq<Exchange>,
    one_host: Seq<Seq<u8>>,
    two: Device,
    two_client: ClientSpec,
    two_executable: usize,
    two_arguments: Seq<usize>,
    two_run: Seq<Exchange>,
    two_host: Seq<Seq<u8>>,
    num_outputs: usize,
)
    requires
        one.can_run(one_executable, one_arguments),
        two.can_run(two_executable, two_arguments),
        one.executables[one_executable] == two.executables[two_executable],
        one.contents(one_arguments) == two.contents(two_arguments),
        one_client.run_buffers_protocol(one_executable, one_arguments, num_outputs).completes(
            one_run,
            one_host,
        ),
        machine.served(one, one_run),
        two_client.run_buffers_protocol(two_executable, two_arguments, num_outputs).completes(
            two_run,
            two_host,
        ),
        machine.served(two, two_run),
    ensures
        one_host == two_host,
{
    crate::device::lemma_run_buffers(
        machine,
        one,
        one_client,
        one_executable,
        one_arguments,
        num_outputs,
        one_run,
        one_host,
    );
    crate::device::lemma_run_buffers(
        machine,
        two,
        two_client,
        two_executable,
        two_arguments,
        num_outputs,
        two_run,
        two_host,
    );
    assert(one_host =~= two_host);
}

/// An executable that is loaded from what another one was serialized to is a
/// new one, of the same program if serializing loses nothing; no executable
/// that there was and no buffer is touched. So it returns what the first one
/// does, see [`law_same_program_same_outputs`].
pub proof fn law_reloaded_executable_has_the_program(
    machine: Machine,
    device: Device,
    client: ClientSpec,
    executable: usize,
    serializing: Seq<Exchange>,
    bytes: Seq<u8>,
    place: Device,
    loader: ClientSpec,
    loading: Seq<Exchange>,
    reloaded: usize,
)
    requires
        device.executables.dom().contains(executable),
        (machine.decoded)((machine.encoded)(device.executables[executable]))
            == device.executables[executable],
        client.serialize_protocol(executable).completes(serializing, bytes),
        machine.served(device, serializing),
        loader.deserialize_and_load_protocol(bytes).completes(loading, reloaded),
        machine.served(place, loading),
    ensures
        bytes == (machine.encoded)(device.executables[executable]),
        machine.left(device, serializing).executables == device.executables,
        machine.left(device, serializing).buffers == device.buffers,
        !place.executables.dom().contains(reloaded),
        machine.left(place, loading).executables == place.executables.insert(
            reloaded,
            device.executables[executable],
        ),
        machine.left(place, loading).buffers == place.buffers,
{
    crate::device::lemma_serialize(machine, device, client, executable, serializing, bytes);
    crate::device::lemma_deserialize_and_load(machine, place, loader, bytes, loading, reloaded);
}

/// Freeing an executable makes one call. Unless the plugin reports an error to
/// it, the executable is gone; every other one, and every buffer, is as it was.
pub proof fn law_executables_are_freed_on_their_own(
    machine: Machine,
    device: Device,
    client: ClientSpec,
    executable: usize,
    freeing: Seq<Exchange>,
)
    requires
        client.free_executable_protocol(executable).completes(freeing, ()),
        machine.served(device, freeing),
    ensures
        freeing.len() == 1,
        machine.left(device, freeing).executables == if freeing[0].reply.error == 0 {
            device.executables.remove(executable)
        } else {
            device.executables
        },
        machine.left(device, freeing).buffers == device.buffers,
{
    crate::device::lemma_free_executable(machine, device, client, executable, freeing);
}

/// A buffer that was freed is gone; every other one, and every executable, is
/// as it was.
pub proof fn law_buffers_are_freed_on_their_own(
    machine: Machine,
    device: Device,
    client: ClientSpec,
    buffer: usize,
    freeing: Seq<Exchange>,
)
    requires
        client.destroy_buffer_protocol(buffer).completes(freeing, ()),
        machine.served(device, freeing),
    ensures
        machine.left(device, freeing).buffers == device.buffers.remove(buffer),
        machine.left(device, freeing).executables == device.executables,
{
    crate::device::lemma_destroy_buffer(machine, device, client, buffer, freeing);
}

/// Bytecode is run on what it was compiled to: the outputs are those of its
/// program on the inputs.
pub proof fn law_compiled_code_is_what_runs(
    machine: Machine,
    device: Device,
    client: ClientSpec,
    code: Seq<u8>,
    compiling: Seq<Exchange>,
    executable: usize,
    inputs: Seq<InputSpec>,
    num_outputs: usize,
    running: Seq<Exchange>,
    host: Seq<Seq<u8>>,
)
    requires
        client.compile_protocol(code).completes(compiling, executable),
        machine.served(device, compiling),
        client.run_loaded_protocol(executable, inputs, num_outputs).completes(running, host),
        machine.served(machine.left(device, compiling), running),
    ensures
        !device.executables.dom().contains(executable),
        machine.left(device, compiling).executables == device.executables.insert(executable, code),
        host == Seq::new(num_outputs as nat, |i: int| (machine.output)(code, inputs, i).data),
{
    crate::device::lemma_compile(machine, device, client, code, compiling, executable);
    let compiled = machine.left(device, compiling);
    crate::device::lemma_run_loaded(
        machine,
        compiled,
        client,
        executable,
        inputs,
        num_outputs,
        running,
        host,
    );
    assert(host =~= Seq::new(
        num_outputs as nat,
        |i: int| (machine.output)(code, inputs, i).data,
    ));
}

/// Two sessions that are opened one after the other, whatever was done in
/// between, have different clients. Opening the second one, on the plugin that
/// the first one has, is a single call; it leaves the first client, and every
/// buffer and executable, as they were.
pub proof fn law_sessions_have_distinct_clients(
    machine: Machine,
    device: Device,
    loaded: Option<Pjrt>,
    one_options: SessionOptions,
    one_opening: Seq<Exchange>,
    one: ClientSpec,
    between: Seq<Exchange>,
    two_options: SessionOptions,
    two_opening: Seq<Exchange>,
    two: ClientSpec,
)
    requires
        crate::session::with_options_protocol(loaded, one_options).completes(one_opening, one),
        machine.served(device, one_opening),
        machine.served(machine.left(device, one_opening), between),
        crate::session::with_options_protocol(
            Some(Pjrt { api: one.api }),
            two_options,
        ).completes(two_opening, two),
        machine.served(machine.left(machine.left(device, one_opening), between), two_opening),
    ensures
        one.client != two.client,
        two.api == one.api,
        two_opening.len() == 1,
        two_opening[0].call == (CallSpec::Plugin {
            api: one.api,
            entry: EntrySpec::ClientCreate { options: two_options.named() },
        }),
        ({
            let used = machine.left(machine.left(device, one_opening), between);
            &&& used.clients.contains(one.client)
            &&& machine.left(used, two_opening).keeps(
                Device { clients: used.clients.insert(two.client), ..used },
            )
        }),
{
    let ready = crate::session::plugin_ready(one_options);
    let (at, pjrt) = crate::device::lemma_sequence(
        machine,
        device,
        crate::plugin::shared_pjrt_protocol(loaded),
        ready,
        one_opening,
        one,
    );
    let found = machine.left(device, one_opening.take(at));
    let creating = one_opening.skip(at);
    crate::device::lemma_create_client(machine, found, pjrt, one_options, creating, one);
    let opened = machine.left(device, one_opening);
    assert(opened.clients.contains(one.client));
    crate::device::lemma_grows(machine, opened, between);
    let used = machine.left(opened, between);
    let shared = Pjrt { api: one.api };
    crate::laws::law_each_session_has_its_client(shared, two_options, two_opening, two);
    crate::laws::law_plugin_is_loaded_once(shared, two_options);
    crate::device::lemma_create_client(machine, used, shared, two_options, two_opening, two);
}

/// The peak that a session's allocator reports never falls: where it keeps one,
/// a reading has it, and it is not below the one of an earlier reading,
/// whatever was done in between.
pub proof fn law_peak_never_falls(
    machine: Machine,
    device: Device,
    client: ClientSpec,
    reading: Seq<Exchange>,
    before: MemoryStats,
    between: Seq<Exchange>,
    reading_again: Seq<Exchange>,
    after: MemoryStats,
)
    requires
        machine.with_peak.contains((machine.first_device)(client.client)),
        client.memory_stats_protocol().completes(reading, Some(before)),
        machine.served(device, reading),
        machine.served(machine.left(device, reading), between),
        client.memory_stats_protocol().completes(reading_again, Some(after)),
        machine.served(machine.left(machine.left(device, reading), between), reading_again),
    ensures
        before.peak_bytes_in_use is Some,
        after.peak_bytes_in_use is Some,
        before.peak_bytes_in_use->0 <= after.peak_bytes_in_use->0,
{
    crate::device::lemma_memory_stats(machine, device, client, reading, before);
    let read = machine.left(device, reading);
    crate::device::lemma_grows(machine, read, between);
    let used = machine.left(read, between);
    crate::device::lemma_memory_stats(machine, used, client, reading_again, after);
    assert(read.peaks.dom().contains((machine.first_device)(client.client)));
}

/// What a session's allocator held from the driver at its peak is not less
/// than what was live in it, where both are told. Reading the statistics
/// changes no buffer and no executable.
pub proof fn law_pool_covers_the_peak(
    machine: Machine,
    device: Device,
    client: ClientSpec,
    reading: Seq<Exchange>,
    stats: MemoryStats,
)
    requires
        client.memory_stats_protocol().completes(reading, Some(stats)),
        machine.served(device, reading),
    ensures
        stats.peak_bytes_in_use matches Some(peak) ==> (stats.peak_pool_bytes matches Some(pool)
            ==> peak <= pool),
        machine.left(device, reading).keeps(device),
{
    crate::device::lemma_memory_stats(machine, device, client, reading, stats);
}

/// The two transcripts hold the same replies, as far as both go.
pub open spec fn same_replies(one: Seq<Exchange>, two: Seq<Exchange>) -> bool {
    forall|i: int|
        0 <= i < one.len() && i < two.len() ==> (#[trigger] one[i]).reply == (
        #[trigger] two[i]).reply
}

/// A procedure that gets the same replies does the same and comes to the same
/// end.
pub proof fn law_equal_replies_equal_runs<T>(
    protocol: Protocol<T>,
    one: Seq<Exchange>,
    one_end: Protocol<T>,
    two: Seq<Exchange>,
    two_end: Protocol<T>,
)
    requires
        protocol.leads_to(one, one_end),
        protocol.leads_to(two, two_end),
        one_end !is Call,
        two_end !is Call,
        same_replies(one, two),
    ensures
        one == two,
        one_end == two_end,
    decreases one.len(),
{
    if protocol is Call {
        crate::transcript::lemma_called(protocol, one, one_end);
        crate::transcript::lemma_called(protocol, two, two_end);
        assert(one[0].reply == two[0].reply);
        let (one_tail, two_tail) = (one.drop_first(), two.drop_first());
        assert forall|i: int|
            0 <= i < one_tail.len() && i < two_tail.len() implies (#[trigger] one_tail[i]).reply
            == (#[trigger] two_tail[i]).reply by {
            assert(one[i + 1].reply == two[i + 1].reply);
        }
        let rest = protocol.after(one[0].reply);
        law_equal_replies_equal_runs(rest, one_tail, one_end, two_tail, two_end);
        assert(one =~= seq![one[0]] + one_tail);
        assert(two =~= seq![two[0]] + two_tail);
    } else {
        crate::transcript::lemma_ended(protocol, one, one_end);
        crate::transcript::lemma_ended(protocol, two, two_end);
        assert(one =~= two);
    }
}

/// Two executables that the plugin answers alike return alike: which
/// executable is run decides nothing but what the plugin is asked to run.
pub proof fn law_equal_replies_equal_outputs(
    client: ClientSpec,
    one_executable: usize,
    two_executable: usize,
    arguments: Seq<usize>,
    num_outputs: usize,
    one: Seq<Exchange>,
    one_host: Seq<Seq<u8>>,
    two: Seq<Exchange>,
    two_host: Seq<Seq<u8>>,
)
    requires
        client.run_buffers_protocol(one_executable, arguments, num_outputs).completes(
            one,
            one_host,
        ),
        client.run_buffers_protocol(two_executable, arguments, num_outputs).completes(
            two,
            two_host,
        ),
        same_replies(one, two),
    ensures
        one_host == two_host,
        one.len() == two.len(),
        one.len() >= 2,
        one[0] == two[0],
        one.skip(2) == two.skip(2),
{
    let one_start = client.run_buffers_protocol(one_executable, arguments, num_outputs);
    let two_start = client.run_buffers_protocol(two_executable, arguments, num_outputs);
    let one_end = Protocol::Return(one_host);
    let two_end = Protocol::Return(two_host);
    crate::transcript::lemma_called(one_start, one, one_end);
    crate::transcript::lemma_called(two_start, two, two_end);
    assert(one[0].reply == two[0].reply);
    let clock = one[0].reply;
    let one_run = one_start.after(clock);
    let two_run = two_start.after(clock);
    crate::transcript::lemma_called(one_run, one.drop_first(), one_end);
    crate::transcript::lemma_called(two_run, two.drop_first(), two_end);
    assert(one.drop_first()[0] == one[1]);
    assert(two.drop_first()[0] == two[1]);
    assert(one[1].reply == two[1].reply);
    let reply = one[1].reply;
    assert(one_run.after(reply) == two_run.after(reply));
    let (one_tail, two_tail) = (one.drop_first().drop_first(), two.drop_first().drop_first());
    assert forall|i: int|
        0 <= i < one_tail.len() && i < two_tail.len() implies (#[trigger] one_tail[i]).reply
        == (#[trigger] two_tail[i]).reply by {
        assert(one[i + 2].reply == two[i + 2].reply);
    }
    law_equal_replies_equal_runs(one_run.after(reply), one_tail, one_end, two_tail, two_end);
    assert(one.skip(2) =~= one_tail);
    assert(two.skip(2) =~= two_tail);
}

} // verus!
