//! Sessions: what a caller does with the plugin.

use vstd::prelude::*;

use crate::call::{Reply, ReplySpec};
use crate::check::Acknowledged;
use crate::client::{Compile, CreateClient, FirstDevice, ReadStats};
use crate::handles::{Buffer, Client, ClientSpec, Executable, Pjrt, Session};
use crate::memory::MemoryStats;
use crate::options::SessionOptions;
use crate::plugin::{shared_pjrt, SharedPjrt};
use crate::protocol::{hold, Held, Protocol, Step, Suspended, Task};
use crate::run::{run_loaded, Execute, RunLoaded, RunTimed, TimedSpec};
use crate::serialize::{FreeExecutable, Serialize};
use crate::transcript::Exchange;
use crate::transfer::{BufFromHost, InputSpec, Inputs, ToHost};

verus! {

broadcast use crate::protocol::lemma_and_then;

// Opening a session.

/// The process's plugin is made ready, and a client is created on it.
pub open spec fn with_options_protocol(
    loaded: Option<Pjrt>,
    options: SessionOptions,
) -> Protocol<ClientSpec> {
    crate::plugin::shared_pjrt_protocol(loaded).and_then(plugin_ready(options))
}

pub open spec fn plugin_ready(options: SessionOptions) -> spec_fn(Pjrt) -> Protocol<ClientSpec> {
    |pjrt: Pjrt| pjrt.create_client_protocol(options)
}

impl Session {
    /// Loads the plugin (once per process) and creates a client with the
    /// plugin's default options.
    pub fn new<'a>(loaded: Option<Pjrt>) -> (step: Step<'a, OpenSession>)
        ensures
            step.follows(with_options_protocol(loaded, SessionOptions::unset())),
            forall|transcript: Seq<Exchange>, client: ClientSpec| #[trigger]
                step.completes(transcript, client) ==> crate::exchanges::opens_unset(
                    loaded,
                    transcript,
                    client,
                ),
            forall|transcript: Seq<Exchange>, message: Seq<char>| #[trigger]
                step.aborts(transcript, message) ==> crate::failures::accounted(
                    transcript,
                    Some(message),
                ),
    {
        let step = Session::with_options(loaded, SessionOptions::default());
        proof {
            let protocol = with_options_protocol(loaded, SessionOptions::unset());
            crate::transcript::lemma_runs(step, protocol);
            assert forall|transcript: Seq<Exchange>, client: ClientSpec| #[trigger]
                step.completes(transcript, client) implies crate::exchanges::opens_unset(
                    loaded,
                    transcript,
                    client,
                ) by {
                crate::exchanges::law_opening_unset(loaded, transcript, client);
            }
            crate::failures::law_opening_fails_for_a_reason(
                loaded,
                SessionOptions::unset(),
                Pjrt { api: 0 },
            );
            crate::failures::lemma_reasons(protocol);
        }
        step
    }

    /// Loads the plugin (once per process) and creates a client with
    /// `options`.
    pub fn with_options<'a>(loaded: Option<Pjrt>, options: SessionOptions) -> (step: Step<
        'a,
        OpenSession,
    >)
        ensures
            step.follows(with_options_protocol(loaded, options)),
            forall|transcript: Seq<Exchange>, client: ClientSpec| #[trigger]
                step.completes(transcript, client) ==> crate::exchanges::opens(
                    loaded,
                    options,
                    transcript,
                    client,
                ),
            forall|transcript: Seq<Exchange>, message: Seq<char>| #[trigger]
                step.aborts(transcript, message) ==> crate::failures::accounted(
                    transcript,
                    Some(message),
                ),
    {
        let step = OpenSession::preparing(options, shared_pjrt(loaded));
        proof {
            let protocol = with_options_protocol(loaded, options);
            crate::transcript::lemma_runs(step, protocol);
            assert forall|transcript: Seq<Exchange>, client: ClientSpec| #[trigger]
                step.completes(transcript, client) implies crate::exchanges::opens(
                    loaded,
                    options,
                    transcript,
                    client,
                ) by {
                crate::exchanges::law_opening(loaded, options, transcript, client);
            }
            crate::failures::law_opening_fails_for_a_reason(loaded, options, Pjrt { api: 0 });
            crate::failures::lemma_reasons(protocol);
        }
        step
    }
}

/// A session that is being opened.
pub struct OpenSession {
    stage: OpenStage,
}

enum OpenStage {
    Preparing { options: SessionOptions, task: SharedPjrt },
    Creating(CreateClient),
}

impl OpenSession {
    fn preparing<'a>(options: SessionOptions, step: Step<'a, SharedPjrt>) -> (next: Step<
        'a,
        OpenSession,
    >)
        ensures
            forall|protocol: Protocol<Pjrt>| #[trigger]
                step.follows(protocol) ==> next.follows(protocol.and_then(plugin_ready(options))),
    {
        match step {
            Step::Call(call, task) => {
                Step::Call(call, OpenSession { stage: OpenStage::Preparing { options, task } })
            },
            Step::Return(pjrt) => OpenSession::creating(pjrt.create_client(&options)),
            Step::Fail(message) => Step::Fail(message),
        }
    }

    fn creating<'a>(step: Step<'a, CreateClient>) -> (next: Step<'a, OpenSession>)
        ensures
            forall|protocol: Protocol<ClientSpec>| #[trigger]
                step.follows(protocol) ==> next.follows(protocol),
    {
        match step {
            Step::Call(call, task) => {
                Step::Call(call, OpenSession { stage: OpenStage::Creating(task) })
            },
            Step::Return(client) => Step::Return(Session::over(client)),
            Step::Fail(message) => Step::Fail(message),
        }
    }
}

impl Suspended for OpenSession {
    type Output = Session;

    closed spec fn after(&self, reply: ReplySpec) -> Protocol<ClientSpec> {
        match self.stage {
            OpenStage::Preparing { options, task } => task.after(reply).and_then(
                plugin_ready(options),
            ),
            OpenStage::Creating(task) => task.after(reply),
        }
    }
}

impl<'a> Task<'a> for OpenSession {
    fn resume(self, reply: Reply) -> (step: Step<'a, Self>) {
        match self.stage {
            OpenStage::Preparing { options, task } => {
                OpenSession::preparing(options, task.resume(reply))
            },
            OpenStage::Creating(task) => OpenSession::creating(task.resume(reply)),
        }
    }
}

// Executables.

impl Session {
    /// The executable's serialized form, which [`Session::deserialize_and_load`]
    /// turns back into a loaded executable without recompiling. Plugin-version
    /// specific: a cache keyed on it must be dropped with the plugin.
    pub fn serialize<'a>(&self, exe: &'a Executable) -> (step: Step<
        'a,
        Held<Serialize, &'a Executable>,
    >)
        ensures
            step.follows(self@.serialize_protocol(exe@)),
            forall|transcript: Seq<Exchange>, bytes: Seq<u8>| #[trigger]
                step.completes(transcript, bytes) ==> crate::exchanges::serializes(
                    self@,
                    exe@,
                    transcript,
                    bytes,
                ),
            forall|transcript: Seq<Exchange>, message: Seq<char>| #[trigger]
                step.aborts(transcript, message) ==> crate::failures::accounted(
                    transcript,
                    Some(message),
                ),
    {
        let step = hold(self.client().serialize(exe.address()), exe);
        proof {
            let protocol = self@.serialize_protocol(exe@);
            crate::transcript::lemma_runs(step, protocol);
            assert forall|transcript: Seq<Exchange>, bytes: Seq<u8>| #[trigger]
                step.completes(transcript, bytes) implies crate::exchanges::serializes(
                    self@,
                    exe@,
                    transcript,
                    bytes,
                ) by {
                crate::exchanges::law_serialization(self@, exe@, transcript, bytes);
            }
            crate::discipline::lemma_serialize(self@, Set::full(), exe@);
            crate::failures::lemma_reasons(protocol);
        }
        step
    }

    /// Loads an executable that `serialize` produced on this plugin version.
    pub fn deserialize_and_load<'a>(&self, bytes: &'a [u8]) -> (step: Step<'a, Compile>)
        ensures
            step.follows(self@.deserialize_and_load_protocol(bytes@)),
            forall|transcript: Seq<Exchange>, executable: usize| #[trigger]
                step.completes(transcript, executable) ==> crate::exchanges::loads_bytes(
                    self@,
                    bytes@,
                    transcript,
                    executable,
                ),
            forall|transcript: Seq<Exchange>, message: Seq<char>| #[trigger]
                step.aborts(transcript, message) ==> crate::failures::accounted(
                    transcript,
                    Some(message),
                ),
    {
        let step = self.client().deserialize_and_load(bytes);
        proof {
            let protocol = self@.deserialize_and_load_protocol(bytes@);
            crate::transcript::lemma_runs(step, protocol);
            assert forall|transcript: Seq<Exchange>, executable: usize| #[trigger]
                step.completes(transcript, executable) implies crate::exchanges::loads_bytes(
                    self@,
                    bytes@,
                    transcript,
                    executable,
                ) by {
                crate::exchanges::law_loading(self@, bytes@, transcript, executable);
            }
            crate::discipline::lemma_deserialize_and_load(self@, Set::full(), bytes@);
            crate::failures::lemma_reasons(protocol);
        }
        step
    }

    /// Releases a compiled executable's device state.
    pub fn free_executable<'a>(&self, exe: Executable) -> (step: Step<'a, FreeExecutable>)
        ensures
            step.follows(self@.free_executable_protocol(exe@)),
            forall|transcript: Seq<Exchange>, done: ()| #[trigger]
                step.completes(transcript, done) ==> crate::exchanges::frees_executable(
                    self@,
                    exe@,
                    transcript,
                ),
            forall|transcript: Seq<Exchange>, message: Seq<char>| #[trigger]
                step.aborts(transcript, message) ==> crate::failures::accounted(
                    transcript,
                    Some(message),
                ),
    {
        let step = self.client().free_executable(exe.address());
        proof {
            let protocol = self@.free_executable_protocol(exe@);
            crate::transcript::lemma_runs(step, protocol);
            assert forall|transcript: Seq<Exchange>, done: ()| #[trigger]
                step.completes(transcript, done) implies crate::exchanges::frees_executable(
                    self@,
                    exe@,
                    transcript,
                ) by {
                crate::exchanges::law_freeing_an_executable(self@, exe@, transcript);
            }
            crate::discipline::lemma_free_executable(self@, Set::full(), exe@);
            crate::failures::lemma_reasons(protocol);
        }
        step
    }

    /// Compiles MLIR bytecode once on the persistent client.
    pub fn compile<'a>(&self, code: &'a [u8]) -> (step: Step<'a, Compile>)
        ensures
            step.follows(self@.compile_protocol(code@)),
            forall|transcript: Seq<Exchange>, executable: usize| #[trigger]
                step.completes(transcript, executable) ==> crate::exchanges::compiles(
                    self@,
                    code@,
                    transcript,
                    executable,
                ),
            forall|transcript: Seq<Exchange>, message: Seq<char>| #[trigger]
                step.aborts(transcript, message) ==> crate::failures::accounted(
                    transcript,
                    Some(message),
                ),
    {
        let step = self.client().compile(code);
        proof {
            let protocol = self@.compile_protocol(code@);
            crate::transcript::lemma_runs(step, protocol);
            assert forall|transcript: Seq<Exchange>, executable: usize| #[trigger]
                step.completes(transcript, executable) implies crate::exchanges::compiles(
                    self@,
                    code@,
                    transcript,
                    executable,
                ) by {
                crate::exchanges::law_compilation(
                    self@,
                    code@,
                    transcript,
                    Protocol::Return(executable),
                );
            }
            crate::discipline::lemma_compile(self@, Set::full(), code@);
            crate::failures::lemma_reasons(protocol);
        }
        step
    }

    /// Runs a pre-compiled executable.
    pub fn run<'a>(
        &self,
        exe: &'a Executable,
        inputs: &'a Inputs<'a>,
        num_outputs: usize,
    ) -> (step: Step<'a, Held<RunLoaded<'a>, &'a Executable>>)
        ensures
            step.follows(
                self@.run_loaded_protocol(
                    exe@,
                    crate::transfer::input_arrays(inputs),
                    num_outputs,
                ),
            ),
            forall|transcript: Seq<Exchange>, host: Seq<Seq<u8>>| #[trigger]
                step.completes(transcript, host) ==> crate::exchanges::runs_on_inputs(
                    self@,
                    exe@,
                    inputs,
                    num_outputs,
                    transcript,
                    host,
                ),
            forall|transcript: Seq<Exchange>, message: Seq<char>| #[trigger]
                step.aborts(transcript, message) ==> crate::failures::accounted(
                    transcript,
                    Some(message),
                ),
    {
        let step = hold(run_loaded(self.client(), exe.address(), inputs, num_outputs), exe);
        proof {
            let protocol = self@.run_loaded_protocol(
                exe@,
                crate::transfer::input_arrays(inputs),
                num_outputs,
            );
            crate::transcript::lemma_runs(step, protocol);
            assert forall|transcript: Seq<Exchange>, host: Seq<Seq<u8>>| #[trigger]
                step.completes(transcript, host) implies crate::exchanges::runs_on_inputs(
                    self@,
                    exe@,
                    inputs,
                    num_outputs,
                    transcript,
                    host,
                ) by {
                crate::exchanges::law_run_on_inputs(
                    self@,
                    exe@,
                    inputs,
                    num_outputs,
                    transcript,
                    host,
                );
            }
            crate::discipline::lemma_run_loaded(
                self@,
                Set::full(),
                exe@,
                crate::transfer::input_arrays(inputs),
                num_outputs,
            );
            crate::failures::lemma_reasons(protocol);
        }
        step
    }
}

// Uploading one input.

impl ClientSpec {
    /// The device is looked up, and a buffer on it is filled.
    pub open spec fn input_buffer_protocol(self, input: InputSpec) -> Protocol<usize> {
        self.first_device_protocol().and_then(self.device_chosen(input))
    }

    pub open spec fn device_chosen(self, input: InputSpec) -> spec_fn(usize) -> Protocol<usize> {
        |device: usize| self.buf_from_host_protocol(device, input)
    }
}

impl Session {
    /// Uploads a host array to a persistent device buffer (reuse across runs).
    pub fn input_buffer<'a>(&self, data: &'a [u8], dims: &'a [i64], elem_type: u32) -> (step: Step<
        'a,
        InputBuffer<'a>,
    >)
        ensures
            step.follows(
                self@.input_buffer_protocol(InputSpec { data: data@, dims: dims@, elem_type }),
            ),
            forall|transcript: Seq<Exchange>, buffer: usize| #[trigger]
                step.completes(transcript, buffer) ==> crate::exchanges::uploads(
                    self@,
                    data@,
                    dims@,
                    elem_type,
                    transcript,
                    buffer,
                ),
            forall|transcript: Seq<Exchange>, message: Seq<char>| #[trigger]
                step.aborts(transcript, message) ==> crate::failures::accounted(
                    transcript,
                    Some(message),
                ),
    {
        let client = self.client().duplicate();
        let device = self.client().first_device();
        let step = InputBuffer::looking_up(client, data, dims, elem_type, device);
        proof {
            let protocol = self@.input_buffer_protocol(
                InputSpec { data: data@, dims: dims@, elem_type },
            );
            crate::transcript::lemma_runs(step, protocol);
            assert forall|transcript: Seq<Exchange>, buffer: usize| #[trigger]
                step.completes(transcript, buffer) implies crate::exchanges::uploads(
                    self@,
                    data@,
                    dims@,
                    elem_type,
                    transcript,
                    buffer,
                ) by {
                crate::exchanges::law_upload(self@, data@, dims@, elem_type, transcript, buffer);
            }
            crate::discipline::lemma_input_buffer(
                self@,
                Set::full(),
                InputSpec { data: data@, dims: dims@, elem_type },
            );
            crate::failures::lemma_reasons(protocol);
        }
        step
    }
}

/// An input that is being uploaded.
pub struct InputBuffer<'a> {
    client: Client,
    stage: InputStage<'a>,
}

enum InputStage<'a> {
    LookingUp { data: &'a [u8], dims: &'a [i64], elem_type: u32, task: FirstDevice },
    Filling(BufFromHost),
}

impl<'a> InputBuffer<'a> {
    fn looking_up(
        client: Client,
        data: &'a [u8],
        dims: &'a [i64],
        elem_type: u32,
        step: Step<'a, FirstDevice>,
    ) -> (next: Step<'a, InputBuffer<'a>>)
        ensures
            forall|protocol: Protocol<usize>| #[trigger]
                step.follows(protocol) ==> next.follows(
                    protocol.and_then(
                        client@.device_chosen(
                            InputSpec { data: data@, dims: dims@, elem_type },
                        ),
                    ),
                ),
    {
        match step {
            Step::Call(call, task) => {
                let stage = InputStage::LookingUp { data, dims, elem_type, task };
                Step::Call(call, InputBuffer { client, stage })
            },
            Step::Return(device) => {
                let step = client.buf_from_host(device, data, dims, elem_type);
                InputBuffer::filling(client, step)
            },
            Step::Fail(message) => Step::Fail(message),
        }
    }

    fn filling(client: Client, step: Step<'a, BufFromHost>) -> (next: Step<'a, InputBuffer<'a>>)
        ensures
            forall|protocol: Protocol<usize>| #[trigger]
                step.follows(protocol) ==> next.follows(protocol),
    {
        match step {
            Step::Call(call, task) => {
                Step::Call(call, InputBuffer { client, stage: InputStage::Filling(task) })
            },
            Step::Return(buffer) => Step::Return(buffer),
            Step::Fail(message) => Step::Fail(message),
        }
    }
}

impl<'a> Suspended for InputBuffer<'a> {
    type Output = Buffer;

    closed spec fn after(&self, reply: ReplySpec) -> Protocol<usize> {
        match self.stage {
            InputStage::LookingUp { data, dims, elem_type, task } => task.after(reply).and_then(
                self.client@.device_chosen(InputSpec { data: data@, dims: dims@, elem_type }),
            ),
            InputStage::Filling(task) => task.after(reply),
        }
    }
}

impl<'a> Task<'a> for InputBuffer<'a> {
    fn resume(self, reply: Reply) -> (step: Step<'a, Self>) {
        let InputBuffer { client, stage } = self;
        match stage {
            InputStage::LookingUp { data, dims, elem_type, task } => {
                InputBuffer::looking_up(client, data, dims, elem_type, task.resume(reply))
            },
            InputStage::Filling(task) => InputBuffer::filling(client, task.resume(reply)),
        }
    }
}

// Running on buffers.

/// The addresses of the buffers.
pub open spec fn addresses(buffers: Seq<&Buffer>) -> Seq<usize> {
    Seq::new(buffers.len(), |i: int| buffers[i]@)
}

fn addresses_of(buffers: &[&Buffer]) -> (list: Vec<usize>)
    ensures
        list@ == addresses(buffers@),
{
    let mut list: Vec<usize> = Vec::new();
    let mut i: usize = 0;
    while i < buffers.len()
        invariant
            i <= buffers@.len(),
            list@ == addresses(buffers@).take(i as int),
        decreases buffers@.len() - i,
    {
        list.push(buffers[i].address());
        i += 1;
        assert(list@ =~= addresses(buffers@).take(i as int));
    }
    assert(list@ =~= addresses(buffers@));
    list
}

impl ClientSpec {
    /// A timed run whose times are dropped.
    pub open spec fn run_buffers_protocol(
        self,
        executable: usize,
        arguments: Seq<usize>,
        num_outputs: usize,
    ) -> Protocol<Seq<Seq<u8>>> {
        self.run_buffers_timed_protocol(executable, arguments, num_outputs).and_then(
            times_dropped(),
        )
    }
}

pub open spec fn times_dropped() -> spec_fn(TimedSpec) -> Protocol<Seq<Seq<u8>>> {
    |timed: TimedSpec| Protocol::Return(timed.0)
}

/// What a run on buffers borrows.
pub type Borrowed<'a> = (&'a Executable, &'a [&'a Buffer]);

impl Session {
    /// Executes with already-uploaded input buffers (in the executable's
    /// parameter order). Returns one byte vector per output. Lets a caller
    /// reuse resident buffers (e.g. a proving key) across many runs while only
    /// uploading the per-run inputs.
    pub fn run_buffers<'a>(
        &self,
        exe: &'a Executable,
        inputs: &'a [&'a Buffer],
        num_outputs: usize,
    ) -> (step: Step<'a, Held<RunBuffers, Borrowed<'a>>>)
        ensures
            step.follows(self@.run_buffers_protocol(exe@, addresses(inputs@), num_outputs)),
            forall|transcript: Seq<Exchange>, host: Seq<Seq<u8>>| #[trigger]
                step.completes(transcript, host) ==> crate::exchanges::runs_on_buffers(
                    self@,
                    exe@,
                    inputs@,
                    num_outputs,
                    transcript,
                    host,
                ),
            forall|transcript: Seq<Exchange>, message: Seq<char>| #[trigger]
                step.aborts(transcript, message) ==> crate::failures::accounted(
                    transcript,
                    Some(message),
                ),
    {
        let list = addresses_of(inputs);
        let step = self.client().run_buffers_timed(exe.address(), list, num_outputs);
        let step = hold(RunBuffers::running(step), (exe, inputs));
        proof {
            let protocol = self@.run_buffers_protocol(exe@, addresses(inputs@), num_outputs);
            crate::transcript::lemma_runs(step, protocol);
            assert forall|transcript: Seq<Exchange>, host: Seq<Seq<u8>>| #[trigger]
                step.completes(transcript, host) implies crate::exchanges::runs_on_buffers(
                    self@,
                    exe@,
                    inputs@,
                    num_outputs,
                    transcript,
                    host,
                ) by {
                crate::exchanges::law_run_on_buffers(
                    self@,
                    exe@,
                    inputs@,
                    num_outputs,
                    transcript,
                    host,
                );
            }
            crate::discipline::lemma_run_buffers(
                self@,
                Set::full(),
                exe@,
                addresses(inputs@),
                num_outputs,
            );
            crate::failures::lemma_reasons(protocol);
        }
        step
    }

    /// Like [`Session::run_buffers`], but also returns the dispatch and the
    /// readback time in nanoseconds: the execute (enqueue) time and the
    /// to-host time. The host transfer for the outputs is small, so the
    /// readback time is dominated by waiting on the computation. For
    /// profiling.
    pub fn run_buffers_timed<'a>(
        &self,
        exe: &'a Executable,
        inputs: &'a [&'a Buffer],
        num_outputs: usize,
    ) -> (step: Step<'a, Held<RunTimed, Borrowed<'a>>>)
        ensures
            step.follows(self@.run_buffers_timed_protocol(exe@, addresses(inputs@), num_outputs)),
            forall|transcript: Seq<Exchange>, result: TimedSpec| #[trigger]
                step.completes(transcript, result) ==> crate::exchanges::runs_timed(
                    self@,
                    exe@,
                    inputs@,
                    num_outputs,
                    transcript,
                    result,
                ),
            forall|transcript: Seq<Exchange>, message: Seq<char>| #[trigger]
                step.aborts(transcript, message) ==> crate::failures::accounted(
                    transcript,
                    Some(message),
                ),
    {
        let list = addresses_of(inputs);
        let step = self.client().run_buffers_timed(exe.address(), list, num_outputs);
        let step = hold(step, (exe, inputs));
        proof {
            let protocol = self@.run_buffers_timed_protocol(exe@, addresses(inputs@), num_outputs);
            crate::transcript::lemma_runs(step, protocol);
            assert forall|transcript: Seq<Exchange>, result: TimedSpec| #[trigger]
                step.completes(transcript, result) implies crate::exchanges::runs_timed(
                    self@,
                    exe@,
                    inputs@,
                    num_outputs,
                    transcript,
                    result,
                ) by {
                crate::exchanges::law_timed_run(
                    self@,
                    exe@,
                    inputs@,
                    num_outputs,
                    transcript,
                    result,
                );
            }
            crate::discipline::lemma_run_buffers_timed(
                self@,
                Set::full(),
                exe@,
                addresses(inputs@),
                num_outputs,
            );
            crate::failures::lemma_reasons(protocol);
        }
        step
    }

    /// Like [`Session::run_buffers`], but leaves the outputs on the device.
    ///
    /// The other `run_*` methods copy every output to host, which is the right
    /// default for a result the caller is about to read. It is the wrong one
    /// for an intermediate: a pipeline whose stages are separate executables
    /// otherwise pays a round trip per stage boundary for data neither side
    /// looks at.
    ///
    /// Unlike with the copying variants, the returned buffers own device
    /// memory: pass each to [`Session::free_buffer`] when done, or the
    /// allocation lives until the plugin unloads.
    pub fn run_buffers_to_device<'a>(
        &self,
        exe: &'a Executable,
        inputs: &'a [&'a Buffer],
        num_outputs: usize,
    ) -> (step: Step<'a, Held<RunToDevice, Borrowed<'a>>>)
        ensures
            step.follows(self@.execute_protocol(exe@, addresses(inputs@), num_outputs)),
            forall|transcript: Seq<Exchange>, outputs: Seq<usize>| #[trigger]
                step.completes(transcript, outputs) ==> crate::exchanges::runs_to_device(
                    self@,
                    exe@,
                    inputs@,
                    num_outputs,
                    transcript,
                    outputs,
                ),
            forall|transcript: Seq<Exchange>, message: Seq<char>| #[trigger]
                step.aborts(transcript, message) ==> crate::failures::accounted(
                    transcript,
                    Some(message),
                ),
    {
        let step = self.client().execute(exe.address(), addresses_of(inputs), num_outputs);
        let step = hold(RunToDevice::running(step), (exe, inputs));
        proof {
            let protocol = self@.execute_protocol(exe@, addresses(inputs@), num_outputs);
            crate::transcript::lemma_runs(step, protocol);
            assert forall|transcript: Seq<Exchange>, outputs: Seq<usize>| #[trigger]
                step.completes(transcript, outputs) implies crate::exchanges::runs_to_device(
                    self@,
                    exe@,
                    inputs@,
                    num_outputs,
                    transcript,
                    outputs,
                ) by {
                crate::exchanges::law_run_to_device(
                    self@,
                    exe@,
                    inputs@,
                    num_outputs,
                    transcript,
                    outputs,
                );
            }
            crate::discipline::lemma_execute(
                self@,
                Set::full(),
                exe@,
                addresses(inputs@),
                num_outputs,
            );
            crate::failures::lemma_reasons(protocol);
        }
        step
    }
}

/// A run on buffers.
pub struct RunBuffers {
    task: RunTimed,
}

impl RunBuffers {
    fn running<'a>(step: Step<'a, RunTimed>) -> (next: Step<'a, RunBuffers>)
        ensures
            forall|protocol: Protocol<TimedSpec>| #[trigger]
                step.follows(protocol) ==> next.follows(protocol.and_then(times_dropped())),
    {
        match step {
            Step::Call(call, task) => Step::Call(call, RunBuffers { task }),
            Step::Return((host, _, _)) => Step::Return(host),
            Step::Fail(message) => Step::Fail(message),
        }
    }
}

impl Suspended for RunBuffers {
    type Output = Vec<Vec<u8>>;

    closed spec fn after(&self, reply: ReplySpec) -> Protocol<Seq<Seq<u8>>> {
        self.task.after(reply).and_then(times_dropped())
    }
}

impl<'a> Task<'a> for RunBuffers {
    fn resume(self, reply: Reply) -> (step: Step<'a, Self>) {
        RunBuffers::running(self.task.resume(reply))
    }
}

/// A run on buffers whose outputs stay on the device.
pub struct RunToDevice {
    task: Execute,
}

impl RunToDevice {
    fn running<'a>(step: Step<'a, Execute>) -> (next: Step<'a, RunToDevice>)
        ensures
            forall|protocol: Protocol<Seq<usize>>| #[trigger]
                step.follows(protocol) ==> next.follows(protocol),
    {
        match step {
            Step::Call(call, task) => Step::Call(call, RunToDevice { task }),
            Step::Return(outputs) => Step::Return(buffers_at(outputs)),
            Step::Fail(message) => Step::Fail(message),
        }
    }
}

fn buffers_at(outputs: Vec<usize>) -> (buffers: Vec<Buffer>)
    ensures
        buffers.deep_view() == outputs.deep_view(),
{
    let mut buffers: Vec<Buffer> = Vec::new();
    let mut i: usize = 0;
    while i < outputs.len()
        invariant
            i <= outputs@.len(),
            buffers@.len() == i,
            forall|j: int| 0 <= j < i ==> (#[trigger] buffers@[j])@ == outputs@[j],
        decreases outputs@.len() - i,
    {
        buffers.push(Buffer::at(outputs[i]));
        i += 1;
    }
    assert(buffers.deep_view() =~= outputs.deep_view());
    buffers
}

impl Suspended for RunToDevice {
    type Output = Vec<Buffer>;

    closed spec fn after(&self, reply: ReplySpec) -> Protocol<Seq<usize>> {
        self.task.after(reply)
    }
}

impl<'a> Task<'a> for RunToDevice {
    fn resume(self, reply: Reply) -> (step: Step<'a, Self>) {
        RunToDevice::running(self.task.resume(reply))
    }
}

// Buffers and statistics.

impl Session {
    /// Copies one buffer to the host.
    ///
    /// The companion to [`Session::run_buffers_to_device`]: keeping an
    /// execution's outputs on the device is only useful if the few the host
    /// *does* need can be fetched without dragging the rest back.
    pub fn buffer_to_host<'a>(&self, buffer: &'a Buffer) -> (step: Step<
        'a,
        Held<ToHost, &'a Buffer>,
    >)
        ensures
            step.follows(self@.to_host_protocol(buffer@)),
            forall|transcript: Seq<Exchange>, bytes: Seq<u8>| #[trigger]
                step.completes(transcript, bytes) ==> crate::exchanges::reads(
                    self@,
                    buffer@,
                    transcript,
                    bytes,
                ),
            forall|transcript: Seq<Exchange>, message: Seq<char>| #[trigger]
                step.aborts(transcript, message) ==> crate::failures::accounted(
                    transcript,
                    Some(message),
                ),
    {
        let step = hold(self.client().to_host(buffer.address()), buffer);
        proof {
            let protocol = self@.to_host_protocol(buffer@);
            crate::transcript::lemma_runs(step, protocol);
            assert forall|transcript: Seq<Exchange>, bytes: Seq<u8>| #[trigger]
                step.completes(transcript, bytes) implies crate::exchanges::reads(
                    self@,
                    buffer@,
                    transcript,
                    bytes,
                ) by {
                crate::exchanges::law_reading(self@, buffer@, transcript, bytes);
            }
            crate::discipline::lemma_to_host(self@, Set::full(), buffer@);
            crate::failures::lemma_reasons(protocol);
        }
        step
    }

    /// What this session's device allocator holds and has held; `None` when
    /// the plugin keeps no statistics for the kind it built.
    pub fn memory_stats<'a>(&self) -> (step: Step<'a, ReadStats>)
        ensures
            step.follows(self@.memory_stats_protocol()),
            forall|transcript: Seq<Exchange>, stats: Option<MemoryStats>| #[trigger]
                step.completes(transcript, stats) ==> crate::exchanges::tells_statistics(
                    self@,
                    transcript,
                    stats,
                ),
            forall|transcript: Seq<Exchange>, message: Seq<char>| #[trigger]
                step.aborts(transcript, message) ==> crate::failures::accounted(
                    transcript,
                    Some(message),
                ),
    {
        let step = self.client().memory_stats();
        proof {
            let protocol = self@.memory_stats_protocol();
            crate::transcript::lemma_runs(step, protocol);
            assert forall|transcript: Seq<Exchange>, stats: Option<MemoryStats>| #[trigger]
                step.completes(transcript, stats) implies crate::exchanges::tells_statistics(
                    self@,
                    transcript,
                    stats,
                ) by {
                crate::exchanges::law_statistics(self@, transcript, stats);
            }
            crate::discipline::lemma_memory_stats(self@, Set::full());
            crate::failures::lemma_reasons(protocol);
        }
        step
    }

    /// Releases a buffer's device memory.
    ///
    /// Takes ownership so a freed buffer cannot be executed against: a run
    /// borrows its buffers until it is at its end.
    pub fn free_buffer<'a>(&self, buffer: Buffer) -> (step: Step<'a, Acknowledged>)
        ensures
            step.follows(self@.destroy_buffer_protocol(buffer@)),
            forall|transcript: Seq<Exchange>, done: ()| #[trigger]
                step.completes(transcript, done) ==> crate::exchanges::releases(
                    self@,
                    seq![buffer@],
                    transcript,
                ),
            forall|transcript: Seq<Exchange>, message: Seq<char>| #[trigger]
                step.aborts(transcript, message) ==> crate::failures::accounted(
                    transcript,
                    Some(message),
                ),
    {
        let step = self.client().destroy_buffer(buffer.address());
        proof {
            let protocol = self@.destroy_buffer_protocol(buffer@);
            crate::transcript::lemma_runs(step, protocol);
            assert forall|transcript: Seq<Exchange>, done: ()| #[trigger]
                step.completes(transcript, done) implies crate::exchanges::releases(
                    self@,
                    seq![buffer@],
                    transcript,
                ) by {
                crate::exchanges::law_freeing_a_buffer(self@, buffer@, transcript);
            }
            crate::discipline::lemma_destroy_buffer(self@, Set::full(), buffer@);
            crate::failures::lemma_reasons(protocol);
        }
        step
    }
}

// Running bytecode once.

/// The process's plugin is made ready, a client is created on it with the
/// plugin's default options, the bytecode is compiled and run.
pub open spec fn run_bytecode_protocol(
    loaded: Option<Pjrt>,
    code: Seq<u8>,
    inputs: Seq<InputSpec>,
    num_outputs: usize,
) -> Protocol<Seq<Seq<u8>>> {
    with_options_protocol(loaded, SessionOptions::unset()).and_then(
        client_opened(code, inputs, num_outputs),
    )
}

pub open spec fn client_opened(
    code: Seq<u8>,
    inputs: Seq<InputSpec>,
    num_outputs: usize,
) -> spec_fn(ClientSpec) -> Protocol<Seq<Seq<u8>>> {
    |client: ClientSpec|
        client.compile_protocol(code).and_then(client.code_compiled(inputs, num_outputs))
}

impl ClientSpec {
    pub open spec fn code_compiled(self, inputs: Seq<InputSpec>, num_outputs: usize) -> spec_fn(
        usize,
    ) -> Protocol<Seq<Seq<u8>>> {
        |executable: usize| self.run_loaded_protocol(executable, inputs, num_outputs)
    }
}

/// Compiles MLIR bytecode and runs it. Returns one byte vector per output.
pub fn run_bytecode<'a>(
    loaded: Option<Pjrt>,
    code: &'a [u8],
    inputs: &'a Inputs<'a>,
    num_outputs: usize,
) -> (step: Step<'a, RunBytecode<'a>>)
    ensures
        step.follows(
            run_bytecode_protocol(
                loaded,
                code@,
                crate::transfer::input_arrays(inputs),
                num_outputs,
            ),
        ),
        forall|transcript: Seq<Exchange>, host: Seq<Seq<u8>>| #[trigger]
            step.completes(transcript, host) ==> crate::exchanges::runs_bytecode(
                loaded,
                code@,
                inputs,
                num_outputs,
                transcript,
                host,
            ),
        forall|transcript: Seq<Exchange>, message: Seq<char>| #[trigger]
            step.aborts(transcript, message) ==> crate::failures::accounted(
                transcript,
                Some(message),
            ),
{
    let step = RunBytecode::opening(code, inputs, num_outputs, Session::new(loaded));
    proof {
        let protocol = run_bytecode_protocol(
            loaded,
            code@,
            crate::transfer::input_arrays(inputs),
            num_outputs,
        );
        crate::transcript::lemma_runs(step, protocol);
        assert forall|transcript: Seq<Exchange>, host: Seq<Seq<u8>>| #[trigger]
            step.completes(transcript, host) implies crate::exchanges::runs_bytecode(
                loaded,
                code@,
                inputs,
                num_outputs,
                transcript,
                host,
            ) by {
            crate::exchanges::law_run_of_bytecode(
                loaded,
                code@,
                inputs,
                num_outputs,
                transcript,
                host,
            );
        }
        crate::discipline::law_opening_settles_errors(
            loaded,
            SessionOptions::unset(),
            code@,
            crate::transfer::input_arrays(inputs),
            num_outputs,
        );
        crate::failures::lemma_reasons(protocol);
    }
    step
}

/// A run of bytecode.
pub struct RunBytecode<'a> {
    stage: BytecodeStage<'a>,
}

enum BytecodeStage<'a> {
    Opening { code: &'a [u8], inputs: &'a Inputs<'a>, num_outputs: usize, open: OpenSession },
    Compiling { session: Session, inputs: &'a Inputs<'a>, num_outputs: usize, compile: Compile },
    Running(RunLoaded<'a>),
}

impl<'a> RunBytecode<'a> {
    fn opening(
        code: &'a [u8],
        inputs: &'a Inputs<'a>,
        num_outputs: usize,
        step: Step<'a, OpenSession>,
    ) -> (next: Step<'a, RunBytecode<'a>>)
        ensures
            forall|protocol: Protocol<ClientSpec>| #[trigger]
                step.follows(protocol) ==> next.follows(
                    protocol.and_then(
                        client_opened(code@, crate::transfer::input_arrays(inputs), num_outputs),
                    ),
                ),
    {
        match step {
            Step::Call(call, open) => {
                let stage = BytecodeStage::Opening { code, inputs, num_outputs, open };
                Step::Call(call, RunBytecode { stage })
            },
            Step::Return(session) => {
                let step = session.compile(code);
                RunBytecode::compiling(session, inputs, num_outputs, step)
            },
            Step::Fail(message) => Step::Fail(message),
        }
    }

    fn compiling(
        session: Session,
        inputs: &'a Inputs<'a>,
        num_outputs: usize,
        step: Step<'a, Compile>,
    ) -> (next: Step<'a, RunBytecode<'a>>)
        ensures
            forall|protocol: Protocol<usize>| #[trigger]
                step.follows(protocol) ==> next.follows(
                    protocol.and_then(
                        session@.code_compiled(
                            crate::transfer::input_arrays(inputs),
                            num_outputs,
                        ),
                    ),
                ),
    {
        match step {
            Step::Call(call, compile) => {
                let stage = BytecodeStage::Compiling { session, inputs, num_outputs, compile };
                Step::Call(call, RunBytecode { stage })
            },
            Step::Return(exe) => {
                let client = session.client();
                RunBytecode::running(run_loaded(client, exe.address(), inputs, num_outputs))
            },
            Step::Fail(message) => Step::Fail(message),
        }
    }

    fn running(step: Step<'a, RunLoaded<'a>>) -> (next: Step<'a, RunBytecode<'a>>)
        ensures
            forall|protocol: Protocol<Seq<Seq<u8>>>| #[trigger]
                step.follows(protocol) ==> next.follows(protocol),
    {
        match step {
            Step::Call(call, task) => {
                Step::Call(call, RunBytecode { stage: BytecodeStage::Running(task) })
            },
            Step::Return(host) => Step::Return(host),
            Step::Fail(message) => Step::Fail(message),
        }
    }
}

impl<'a> Suspended for RunBytecode<'a> {
    type Output = Vec<Vec<u8>>;

    closed spec fn after(&self, reply: ReplySpec) -> Protocol<Seq<Seq<u8>>> {
        match self.stage {
            BytecodeStage::Opening { code, inputs, num_outputs, open } => open.after(
                reply,
            ).and_then(
                client_opened(code@, crate::transfer::input_arrays(inputs), num_outputs),
            ),
            BytecodeStage::Compiling { session, inputs, num_outputs, compile } => compile.after(
                reply,
            ).and_then(
                session@.code_compiled(crate::transfer::input_arrays(inputs), num_outputs),
            ),
            BytecodeStage::Running(task) => task.after(reply),
        }
    }
}

impl<'a> Task<'a> for RunBytecode<'a> {
    fn resume(self, reply: Reply) -> (step: Step<'a, Self>) {
        match self.stage {
            BytecodeStage::Opening { code, inputs, num_outputs, open } => {
                RunBytecode::opening(code, inputs, num_outputs, open.resume(reply))
            },
            BytecodeStage::Compiling { session, inputs, num_outputs, compile } => {
                RunBytecode::compiling(session, inputs, num_outputs, compile.resume(reply))
            },
            BytecodeStage::Running(task) => RunBytecode::running(task.resume(reply)),
        }
    }
}

} // verus!
