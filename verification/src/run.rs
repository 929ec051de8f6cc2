//! Executions: running an executable on inputs from the host or on buffers.

use vstd::prelude::*;

use crate::call::{Call, CallSpec, Entry, EntrySpec, HostCall, HostCallSpec, Reply, ReplySpec};
use crate::check::{check, Checked};
use crate::client::FirstDevice;
use crate::handles::{Client, ClientSpec};
use crate::protocol::{Protocol, Step, Suspended, Task};
use crate::transfer::{InputSpec, Inputs, Read, Release, Upload};

verus! {

broadcast use crate::protocol::lemma_and_then;

// Executing.

impl ClientSpec {
    /// One call, on one device.
    pub open spec fn execute_protocol(
        self,
        executable: usize,
        arguments: Seq<usize>,
        num_outputs: usize,
    ) -> Protocol<Seq<usize>> {
        crate::check::checked(
            self.api,
            EntrySpec::LoadedExecutableExecute {
                executable,
                num_devices: 1,
                arguments,
                num_outputs,
            },
            "Execute"@,
        ).and_then(outputs_listed(num_outputs))
    }
}

/// The result is the list of `num_outputs` null addresses, of which the plugin
/// filled what it did.
pub open spec fn outputs_listed(num_outputs: usize) -> spec_fn(ReplySpec) -> Protocol<Seq<usize>> {
    |reply: ReplySpec|
        Protocol::Return(crate::transfer::filled(reply.objects, num_outputs as nat, 0))
}

impl Client {
    /// Starts an execution; the outputs are the addresses of their buffers.
    pub(crate) fn execute<'a>(
        &self,
        executable: usize,
        arguments: Vec<usize>,
        num_outputs: usize,
    ) -> (step: Step<'a, Execute>)
        ensures
            step.follows(self@.execute_protocol(executable, arguments@, num_outputs)),
    {
        let entry = Entry::LoadedExecutableExecute {
            executable,
            num_devices: 1,
            arguments,
            num_outputs,
        };
        Execute::calling(num_outputs, check(self.api(), entry, "Execute"))
    }
}

/// An execution that is being started.
pub struct Execute {
    num_outputs: usize,
    task: Checked,
}

impl Execute {
    fn calling<'a>(num_outputs: usize, step: Step<'a, Checked>) -> (next: Step<'a, Execute>)
        ensures
            forall|protocol: Protocol<ReplySpec>| #[trigger]
                step.follows(protocol) ==> next.follows(
                    protocol.and_then(outputs_listed(num_outputs)),
                ),
    {
        match step {
            Step::Call(call, task) => Step::Call(call, Execute { num_outputs, task }),
            Step::Return(reply) => {
                let mut outputs = reply.objects;
                outputs.resize(num_outputs, 0);
                proof {
                    crate::transfer::lemma_addresses(outputs);
                    assert(outputs@ =~= crate::transfer::filled(
                        reply@.objects,
                        num_outputs as nat,
                        0,
                    ));
                }
                Step::Return(outputs)
            },
            Step::Fail(message) => Step::Fail(message),
        }
    }
}

impl Suspended for Execute {
    type Output = Vec<usize>;

    closed spec fn after(&self, reply: ReplySpec) -> Protocol<Seq<usize>> {
        self.task.after(reply).and_then(outputs_listed(self.num_outputs))
    }
}

impl<'a> Task<'a> for Execute {
    fn resume(self, reply: Reply) -> (step: Step<'a, Self>) {
        Execute::calling(self.num_outputs, self.task.resume(reply))
    }
}

// Running on inputs from the host.

impl ClientSpec {
    /// The device is looked up, the inputs are uploaded to it, the executable
    /// is run on them, and the outputs are copied back.
    pub open spec fn run_loaded_protocol(
        self,
        executable: usize,
        inputs: Seq<InputSpec>,
        num_outputs: usize,
    ) -> Protocol<Seq<Seq<u8>>> {
        self.first_device_protocol().and_then(self.device_found(executable, inputs, num_outputs))
    }

    pub open spec fn device_found(
        self,
        executable: usize,
        inputs: Seq<InputSpec>,
        num_outputs: usize,
    ) -> spec_fn(usize) -> Protocol<Seq<Seq<u8>>> {
        |device: usize|
            self.upload_protocol(device, inputs, Seq::empty()).and_then(
                self.inputs_uploaded(executable, num_outputs),
            )
    }

    pub open spec fn inputs_uploaded(self, executable: usize, num_outputs: usize) -> spec_fn(
        Seq<usize>,
    ) -> Protocol<Seq<Seq<u8>>> {
        |buffers: Seq<usize>|
            self.execute_protocol(executable, buffers, num_outputs).and_then(self.executed())
    }

    pub open spec fn executed(self) -> spec_fn(Seq<usize>) -> Protocol<Seq<Seq<u8>>> {
        |outputs: Seq<usize>| self.read_protocol(outputs, Seq::empty())
    }
}

/// Runs a loaded executable. Returns one byte vector per output.
pub(crate) fn run_loaded<'a>(
    client: &Client,
    executable: usize,
    inputs: &'a Inputs<'a>,
    num_outputs: usize,
) -> (step: Step<'a, RunLoaded<'a>>)
    ensures
        step.follows(
            client@.run_loaded_protocol(
                executable,
                crate::transfer::input_arrays(inputs),
                num_outputs,
            ),
        ),
{
    RunLoaded::looking_up(
        client.duplicate(),
        executable,
        inputs,
        num_outputs,
        client.first_device(),
    )
}

/// A run on inputs from the host.
pub struct RunLoaded<'a> {
    client: Client,
    stage: RunStage<'a>,
}

enum RunStage<'a> {
    LookingUp {
        executable: usize,
        inputs: &'a Inputs<'a>,
        num_outputs: usize,
        lookup: FirstDevice,
    },
    Uploading { executable: usize, num_outputs: usize, upload: Upload<'a> },
    Executing(Execute),
    Reading(Read),
}

impl<'a> RunLoaded<'a> {
    fn looking_up(
        client: Client,
        executable: usize,
        inputs: &'a Inputs<'a>,
        num_outputs: usize,
        step: Step<'a, FirstDevice>,
    ) -> (next: Step<'a, RunLoaded<'a>>)
        ensures
            forall|protocol: Protocol<usize>| #[trigger]
                step.follows(protocol) ==> next.follows(
                    protocol.and_then(
                        client@.device_found(
                            executable,
                            crate::transfer::input_arrays(inputs),
                            num_outputs,
                        ),
                    ),
                ),
    {
        match step {
            Step::Call(call, lookup) => {
                let stage = RunStage::LookingUp { executable, inputs, num_outputs, lookup };
                Step::Call(call, RunLoaded { client, stage })
            },
            Step::Return(device) => {
                let step = Upload::start(client.duplicate(), device, inputs, Vec::new());
                RunLoaded::uploading(client, executable, num_outputs, step)
            },
            Step::Fail(message) => Step::Fail(message),
        }
    }

    fn uploading(
        client: Client,
        executable: usize,
        num_outputs: usize,
        step: Step<'a, Upload<'a>>,
    ) -> (next: Step<'a, RunLoaded<'a>>)
        ensures
            forall|protocol: Protocol<Seq<usize>>| #[trigger]
                step.follows(protocol) ==> next.follows(
                    protocol.and_then(client@.inputs_uploaded(executable, num_outputs)),
                ),
    {
        match step {
            Step::Call(call, upload) => {
                let stage = RunStage::Uploading { executable, num_outputs, upload };
                Step::Call(call, RunLoaded { client, stage })
            },
            Step::Return(buffers) => {
                proof {
                    crate::transfer::lemma_addresses(buffers);
                }
                let step = client.execute(executable, buffers, num_outputs);
                RunLoaded::executing(client, step)
            },
            Step::Fail(message) => Step::Fail(message),
        }
    }

    fn executing(client: Client, step: Step<'a, Execute>) -> (next: Step<'a, RunLoaded<'a>>)
        ensures
            forall|protocol: Protocol<Seq<usize>>| #[trigger]
                step.follows(protocol) ==> next.follows(protocol.and_then(client@.executed())),
    {
        match step {
            Step::Call(call, task) => {
                Step::Call(call, RunLoaded { client, stage: RunStage::Executing(task) })
            },
            Step::Return(outputs) => {
                proof {
                    crate::transfer::lemma_addresses(outputs);
                }
                let host: Vec<Vec<u8>> = Vec::new();
                assert(host.deep_view() =~= Seq::empty());
                let step = Read::start(client.duplicate(), outputs, host);
                RunLoaded::reading(client, step)
            },
            Step::Fail(message) => Step::Fail(message),
        }
    }

    fn reading(client: Client, step: Step<'a, Read>) -> (next: Step<'a, RunLoaded<'a>>)
        ensures
            forall|protocol: Protocol<Seq<Seq<u8>>>| #[trigger]
                step.follows(protocol) ==> next.follows(protocol),
    {
        match step {
            Step::Call(call, task) => {
                Step::Call(call, RunLoaded { client, stage: RunStage::Reading(task) })
            },
            Step::Return(host) => Step::Return(host),
            Step::Fail(message) => Step::Fail(message),
        }
    }
}

impl<'a> Suspended for RunLoaded<'a> {
    type Output = Vec<Vec<u8>>;

    closed spec fn after(&self, reply: ReplySpec) -> Protocol<Seq<Seq<u8>>> {
        match self.stage {
            RunStage::LookingUp { executable, inputs, num_outputs, lookup } => lookup.after(
                reply,
            ).and_then(
                self.client@.device_found(
                    executable,
                    crate::transfer::input_arrays(inputs),
                    num_outputs,
                ),
            ),
            RunStage::Uploading { executable, num_outputs, upload } => upload.after(reply).and_then(
                self.client@.inputs_uploaded(executable, num_outputs),
            ),
            RunStage::Executing(task) => task.after(reply).and_then(self.client@.executed()),
            RunStage::Reading(task) => task.after(reply),
        }
    }
}

impl<'a> Task<'a> for RunLoaded<'a> {
    fn resume(self, reply: Reply) -> (step: Step<'a, Self>) {
        let RunLoaded { client, stage } = self;
        match stage {
            RunStage::LookingUp { executable, inputs, num_outputs, lookup } => {
                let step = lookup.resume(reply);
                RunLoaded::looking_up(client, executable, inputs, num_outputs, step)
            },
            RunStage::Uploading { executable, num_outputs, upload } => {
                RunLoaded::uploading(client, executable, num_outputs, upload.resume(reply))
            },
            RunStage::Executing(task) => RunLoaded::executing(client, task.resume(reply)),
            RunStage::Reading(task) => RunLoaded::reading(client, task.resume(reply)),
        }
    }
}

// Running on buffers, with the outputs copied to the host.

/// The time between two readings of the clock, in nanoseconds.
pub open spec fn elapsed(start: u64, end: u64) -> u64 {
    if start <= end {
        (end - start) as u64
    } else {
        0
    }
}

fn time_between(start: u64, end: u64) -> (nanos: u64)
    ensures
        nanos == elapsed(start, end),
{
    if start <= end {
        end - start
    } else {
        0
    }
}

/// Reads the clock and goes on with the reading.
pub open spec fn timed<T>(next: spec_fn(ReplySpec) -> Protocol<T>) -> Protocol<T> {
    Protocol::Call(CallSpec::Host(HostCallSpec::ReadClock), next)
}

/// The outputs of a run as bytes, and its dispatch and readback times.
pub type TimedSpec = (Seq<Seq<u8>>, u64, u64);

impl ClientSpec {
    /// The executable is run, its outputs are copied back, and only then
    /// released, one by one. The clock is read around the run and around the
    /// copies.
    pub open spec fn run_buffers_timed_protocol(
        self,
        executable: usize,
        arguments: Seq<usize>,
        num_outputs: usize,
    ) -> Protocol<TimedSpec> {
        timed(self.run_started(executable, arguments, num_outputs))
    }

    pub open spec fn run_started(
        self,
        executable: usize,
        arguments: Seq<usize>,
        num_outputs: usize,
    ) -> spec_fn(ReplySpec) -> Protocol<TimedSpec> {
        |start: ReplySpec|
            self.execute_protocol(executable, arguments, num_outputs).and_then(
                self.run_dispatched(start.nanos),
            )
    }

    pub open spec fn run_dispatched(self, start: u64) -> spec_fn(Seq<usize>) -> Protocol<
        TimedSpec,
    > {
        |outputs: Seq<usize>| timed(self.dispatch_timed(outputs, start))
    }

    pub open spec fn dispatch_timed(self, outputs: Seq<usize>, start: u64) -> spec_fn(
        ReplySpec,
    ) -> Protocol<TimedSpec> {
        |end: ReplySpec| timed(self.readback_started(outputs, elapsed(start, end.nanos)))
    }

    pub open spec fn readback_started(self, outputs: Seq<usize>, dispatch: u64) -> spec_fn(
        ReplySpec,
    ) -> Protocol<TimedSpec> {
        |start: ReplySpec|
            self.read_protocol(outputs, Seq::empty()).and_then(
                self.outputs_read(outputs, dispatch, start.nanos),
            )
    }

    pub open spec fn outputs_read(
        self,
        outputs: Seq<usize>,
        dispatch: u64,
        start: u64,
    ) -> spec_fn(Seq<Seq<u8>>) -> Protocol<TimedSpec> {
        |host: Seq<Seq<u8>>| timed(self.readback_timed(outputs, dispatch, start, host))
    }

    pub open spec fn readback_timed(
        self,
        outputs: Seq<usize>,
        dispatch: u64,
        start: u64,
        host: Seq<Seq<u8>>,
    ) -> spec_fn(ReplySpec) -> Protocol<TimedSpec> {
        |end: ReplySpec|
            self.release_protocol(outputs, 0).and_then(
                outputs_released(host, dispatch, elapsed(start, end.nanos)),
            )
    }
}

pub open spec fn outputs_released(host: Seq<Seq<u8>>, dispatch: u64, readback: u64) -> spec_fn(
    (),
) -> Protocol<TimedSpec> {
    |released: ()| Protocol::Return((host, dispatch, readback))
}

impl Client {
    /// Runs on buffers; the outputs are copied to the host and released.
    pub(crate) fn run_buffers_timed<'a>(
        &self,
        executable: usize,
        arguments: Vec<usize>,
        num_outputs: usize,
    ) -> (step: Step<'a, RunTimed>)
        ensures
            step.follows(
                self@.run_buffers_timed_protocol(executable, arguments@, num_outputs),
            ),
    {
        let stage = TimedStage::Starting { executable, arguments, num_outputs };
        RunTimed::clock(self.duplicate(), stage)
    }
}

/// A timed run on buffers.
pub struct RunTimed {
    client: Client,
    stage: TimedStage,
}

enum TimedStage {
    Starting { executable: usize, arguments: Vec<usize>, num_outputs: usize },
    Executing { start: u64, execute: Execute },
    Dispatched { start: u64, outputs: Vec<usize> },
    StartingRead { dispatch: u64, outputs: Vec<usize> },
    Reading { dispatch: u64, start: u64, outputs: Vec<usize>, read: Read },
    EndingRead { dispatch: u64, start: u64, outputs: Vec<usize>, host: Vec<Vec<u8>> },
    Releasing { dispatch: u64, readback: u64, host: Vec<Vec<u8>>, release: Release },
}

impl RunTimed {
    spec fn rest(client: ClientSpec, stage: TimedStage) -> spec_fn(ReplySpec) -> Protocol<
        TimedSpec,
    > {
        match stage {
            TimedStage::Starting { executable, arguments, num_outputs } => client.run_started(
                executable,
                arguments@,
                num_outputs,
            ),
            TimedStage::Executing { start, execute } => |reply: ReplySpec|
                execute.after(reply).and_then(client.run_dispatched(start)),
            TimedStage::Dispatched { start, outputs } => client.dispatch_timed(outputs@, start),
            TimedStage::StartingRead { dispatch, outputs } => client.readback_started(
                outputs@,
                dispatch,
            ),
            TimedStage::Reading { dispatch, start, outputs, read } => |reply: ReplySpec|
                read.after(reply).and_then(client.outputs_read(outputs@, dispatch, start)),
            TimedStage::EndingRead { dispatch, start, outputs, host } => client.readback_timed(
                outputs@,
                dispatch,
                start,
                host.deep_view(),
            ),
            TimedStage::Releasing { dispatch, readback, host, release } => |reply: ReplySpec|
                release.after(reply).and_then(
                    outputs_released(host.deep_view(), dispatch, readback),
                ),
        }
    }

    fn clock<'a>(client: Client, stage: TimedStage) -> (next: Step<'a, RunTimed>)
        ensures
            next.follows(timed(RunTimed::rest(client@, stage))),
    {
        Step::Call(Call::Host(HostCall::ReadClock), RunTimed { client, stage })
    }

    fn executing<'a>(client: Client, start: u64, step: Step<'a, Execute>) -> (next: Step<
        'a,
        RunTimed,
    >)
        ensures
            forall|protocol: Protocol<Seq<usize>>| #[trigger]
                step.follows(protocol) ==> next.follows(
                    protocol.and_then(client@.run_dispatched(start)),
                ),
    {
        match step {
            Step::Call(call, execute) => {
                let stage = TimedStage::Executing { start, execute };
                Step::Call(call, RunTimed { client, stage })
            },
            Step::Return(outputs) => {
                proof {
                    crate::transfer::lemma_addresses(outputs);
                }
                RunTimed::clock(client, TimedStage::Dispatched { start, outputs })
            },
            Step::Fail(message) => Step::Fail(message),
        }
    }

    fn reading<'a>(
        client: Client,
        dispatch: u64,
        start: u64,
        outputs: Vec<usize>,
        step: Step<'a, Read>,
    ) -> (next: Step<'a, RunTimed>)
        ensures
            forall|protocol: Protocol<Seq<Seq<u8>>>| #[trigger]
                step.follows(protocol) ==> next.follows(
                    protocol.and_then(client@.outputs_read(outputs@, dispatch, start)),
                ),
    {
        match step {
            Step::Call(call, read) => {
                let stage = TimedStage::Reading { dispatch, start, outputs, read };
                Step::Call(call, RunTimed { client, stage })
            },
            Step::Return(host) => {
                let stage = TimedStage::EndingRead { dispatch, start, outputs, host };
                RunTimed::clock(client, stage)
            },
            Step::Fail(message) => Step::Fail(message),
        }
    }

    fn releasing<'a>(
        client: Client,
        dispatch: u64,
        readback: u64,
        host: Vec<Vec<u8>>,
        step: Step<'a, Release>,
    ) -> (next: Step<'a, RunTimed>)
        ensures
            forall|protocol: Protocol<()>| #[trigger]
                step.follows(protocol) ==> next.follows(
                    protocol.and_then(outputs_released(host.deep_view(), dispatch, readback)),
                ),
    {
        match step {
            Step::Call(call, release) => {
                let stage = TimedStage::Releasing { dispatch, readback, host, release };
                Step::Call(call, RunTimed { client, stage })
            },
            Step::Return(_) => Step::Return((host, dispatch, readback)),
            Step::Fail(message) => Step::Fail(message),
        }
    }
}

impl Suspended for RunTimed {
    type Output = (Vec<Vec<u8>>, u64, u64);

    closed spec fn after(&self, reply: ReplySpec) -> Protocol<TimedSpec> {
        RunTimed::rest(self.client@, self.stage)(reply)
    }
}

impl<'a> Task<'a> for RunTimed {
    fn resume(self, reply: Reply) -> (step: Step<'a, Self>) {
        let RunTimed { client, stage } = self;
        match stage {
            TimedStage::Starting { executable, arguments, num_outputs } => {
                let step = client.execute(executable, arguments, num_outputs);
                RunTimed::executing(client, reply.nanos, step)
            },
            TimedStage::Executing { start, execute } => {
                RunTimed::executing(client, start, execute.resume(reply))
            },
            TimedStage::Dispatched { start, outputs } => {
                let dispatch = time_between(start, reply.nanos);
                RunTimed::clock(client, TimedStage::StartingRead { dispatch, outputs })
            },
            TimedStage::StartingRead { dispatch, outputs } => {
                let host: Vec<Vec<u8>> = Vec::new();
                assert(host.deep_view() =~= Seq::empty());
                let copy = outputs.clone();
                assert(copy@ =~= outputs@);
                let step = Read::start(client.duplicate(), copy, host);
                RunTimed::reading(client, dispatch, reply.nanos, outputs, step)
            },
            TimedStage::Reading { dispatch, start, outputs, read } => {
                RunTimed::reading(client, dispatch, start, outputs, read.resume(reply))
            },
            TimedStage::EndingRead { dispatch, start, outputs, host } => {
                let readback = time_between(start, reply.nanos);
                let step = Release::start(client.duplicate(), outputs, 0);
                RunTimed::releasing(client, dispatch, readback, host, step)
            },
            TimedStage::Releasing { dispatch, readback, host, release } => {
                RunTimed::releasing(client, dispatch, readback, host, release.resume(reply))
            },
        }
    }
}

} // verus!
