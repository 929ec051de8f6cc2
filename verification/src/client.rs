//! Clients: making one, compiling on it, asking about its device.

use vstd::prelude::*;

use crate::call::{Call, CallSpec, Entry, EntrySpec, Reply, ReplySpec};
use crate::check::{check, Checked};
use crate::handles::{Client, ClientSpec, Executable, Pjrt};
use crate::memory::MemoryStats;
use crate::options::SessionOptions;
use crate::protocol::{Protocol, Step, Suspended, Task};

verus! {

broadcast use crate::protocol::lemma_and_then;

// Creating a client.

impl Pjrt {
    /// One call, with the named values of the options that are set.
    pub open spec fn create_client_protocol(self, options: SessionOptions) -> Protocol<ClientSpec> {
        crate::check::checked(
            self.api,
            EntrySpec::ClientCreate { options: options.named() },
            "Client_Create"@,
        ).and_then(self.client_created())
    }

    /// The client is the one at the address that came back.
    pub open spec fn client_created(self) -> spec_fn(ReplySpec) -> Protocol<ClientSpec> {
        |reply: ReplySpec| Protocol::Return(ClientSpec { api: self.api, client: reply.object })
    }

    /// Creates a client.
    pub(crate) fn create_client<'a>(&self, options: &SessionOptions) -> (step: Step<
        'a,
        CreateClient,
    >)
        ensures
            step.follows(self.create_client_protocol(*options)),
    {
        let entry = Entry::ClientCreate { options: options.named_values() };
        CreateClient::calling(*self, check(self.api, entry, "Client_Create"))
    }
}

/// A client that is being created.
pub struct CreateClient {
    pjrt: Pjrt,
    task: Checked,
}

impl CreateClient {
    fn calling<'a>(pjrt: Pjrt, step: Step<'a, Checked>) -> (next: Step<'a, CreateClient>)
        ensures
            forall|protocol: Protocol<ReplySpec>| #[trigger]
                step.follows(protocol) ==> next.follows(protocol.and_then(pjrt.client_created())),
    {
        match step {
            Step::Call(call, task) => Step::Call(call, CreateClient { pjrt, task }),
            Step::Return(reply) => Step::Return(Client::new(pjrt.api, reply.object)),
            Step::Fail(message) => Step::Fail(message),
        }
    }
}

impl Suspended for CreateClient {
    type Output = Client;

    closed spec fn after(&self, reply: ReplySpec) -> Protocol<ClientSpec> {
        self.task.after(reply).and_then(self.pjrt.client_created())
    }
}

impl<'a> Task<'a> for CreateClient {
    fn resume(self, reply: Reply) -> (step: Step<'a, Self>) {
        CreateClient::calling(self.pjrt, self.task.resume(reply))
    }
}

// Compiling.

/// A protobuf field that holds a small number: its key, which is the field's
/// number times 8 and the wire type 0, and the number.
pub open spec fn number_field(field: nat, value: nat) -> Seq<u8>
    recommends
        field < 16,
        value < 128,
{
    seq![(field * 8) as u8, value as u8]
}

/// A protobuf field that holds a short message: its key, which is the field's
/// number times 8 and the wire type 2, the message's length and the message.
pub open spec fn message_field(field: nat, message: Seq<u8>) -> Seq<u8>
    recommends
        field < 16,
        message.len() < 128,
{
    seq![(field * 8 + 2) as u8, message.len() as u8] + message
}

/// The compile options: a message whose field 3, the executable build options,
/// sets field 4, the number of replicas, and field 5, the number of
/// partitions, to 1 each.
pub open spec fn compile_options() -> Seq<u8> {
    message_field(3, number_field(4, 1) + number_field(5, 1))
}

/// The compile options. Without them the GPU client builds an empty device
/// assignment and aborts.
fn encoded_compile_options() -> (options: Vec<u8>)
    ensures
        options@ == compile_options(),
{
    let options: Vec<u8> = vec![0x1A, 0x04, 0x20, 0x01, 0x28, 0x01];
    assert(options@ =~= compile_options());
    options
}

impl ClientSpec {
    /// One call, with the bytecode as MLIR and the compile options.
    pub open spec fn compile_protocol(self, code: Seq<u8>) -> Protocol<usize> {
        crate::check::checked(
            self.api,
            EntrySpec::ClientCompile {
                client: self.client,
                code,
                format: "mlir"@,
                compile_options: compile_options(),
            },
            "Client_Compile"@,
        ).and_then(object_returned())
    }
}

/// The result is the object that came back.
pub open spec fn object_returned() -> spec_fn(ReplySpec) -> Protocol<usize> {
    |reply: ReplySpec| Protocol::Return(reply.object)
}

impl Client {
    /// Compiles MLIR bytecode in this plugin's context. On a matched xla stack
    /// the core's `stablehlo.ntt`/`stablehlo.msm` are registered, so the full
    /// core compiles (a version-skewed plugin instead fails on unregistered
    /// ops).
    pub(crate) fn compile<'a>(&self, code: &'a [u8]) -> (step: Step<'a, Compile>)
        ensures
            step.follows(self@.compile_protocol(code@)),
    {
        let entry = Entry::ClientCompile {
            client: self.client(),
            code,
            format: "mlir",
            compile_options: encoded_compile_options(),
        };
        Compile::calling(check(self.api(), entry, "Client_Compile"))
    }
}

/// A compilation, or another call that makes an executable.
pub struct Compile {
    task: Checked,
}

impl Compile {
    pub(crate) fn calling<'a>(step: Step<'a, Checked>) -> (next: Step<'a, Compile>)
        ensures
            forall|protocol: Protocol<ReplySpec>| #[trigger]
                step.follows(protocol) ==> next.follows(protocol.and_then(object_returned())),
    {
        match step {
            Step::Call(call, task) => Step::Call(call, Compile { task }),
            Step::Return(reply) => Step::Return(Executable::at(reply.object)),
            Step::Fail(message) => Step::Fail(message),
        }
    }
}

impl Suspended for Compile {
    type Output = Executable;

    closed spec fn after(&self, reply: ReplySpec) -> Protocol<usize> {
        self.task.after(reply).and_then(object_returned())
    }
}

impl<'a> Task<'a> for Compile {
    fn resume(self, reply: Reply) -> (step: Step<'a, Self>) {
        Compile::calling(self.task.resume(reply))
    }
}

// The device of a client.

impl ClientSpec {
    /// One call, which lists the addressable devices.
    pub open spec fn first_device_protocol(self) -> Protocol<usize> {
        crate::check::checked(
            self.api,
            EntrySpec::ClientAddressableDevices { client: self.client },
            "AddressableDevices"@,
        ).and_then(devices_listed())
    }
}

/// The result is the first device, and there must be one.
pub open spec fn devices_listed() -> spec_fn(ReplySpec) -> Protocol<usize> {
    |reply: ReplySpec|
        if reply.objects.len() > 0 {
            Protocol::Return(reply.objects[0])
        } else {
            Protocol::Fail("no addressable devices"@)
        }
}

impl Client {
    /// The device that everything is placed on.
    pub(crate) fn first_device<'a>(&self) -> (step: Step<'a, FirstDevice>)
        ensures
            step.follows(self@.first_device_protocol()),
    {
        let entry = Entry::ClientAddressableDevices { client: self.client() };
        FirstDevice::calling(check(self.api(), entry, "AddressableDevices"))
    }
}

/// A lookup of a client's device.
pub struct FirstDevice {
    task: Checked,
}

impl FirstDevice {
    fn calling<'a>(step: Step<'a, Checked>) -> (next: Step<'a, FirstDevice>)
        ensures
            forall|protocol: Protocol<ReplySpec>| #[trigger]
                step.follows(protocol) ==> next.follows(protocol.and_then(devices_listed())),
    {
        match step {
            Step::Call(call, task) => Step::Call(call, FirstDevice { task }),
            Step::Return(reply) => {
                if reply.objects.len() > 0 {
                    Step::Return(reply.objects[0])
                } else {
                    Step::Fail("no addressable devices".to_owned())
                }
            },
            Step::Fail(message) => Step::Fail(message),
        }
    }
}

impl Suspended for FirstDevice {
    type Output = usize;

    closed spec fn after(&self, reply: ReplySpec) -> Protocol<usize> {
        self.task.after(reply).and_then(devices_listed())
    }
}

impl<'a> Task<'a> for FirstDevice {
    fn resume(self, reply: Reply) -> (step: Step<'a, Self>) {
        FirstDevice::calling(self.task.resume(reply))
    }
}

// The statistics of a client's allocator.

impl ClientSpec {
    /// The device is looked up, then asked for its statistics. An error there
    /// is destroyed and means that none are kept.
    pub open spec fn memory_stats_protocol(self) -> Protocol<Option<MemoryStats>> {
        self.first_device_protocol().and_then(self.device_asked())
    }

    pub open spec fn device_asked(self) -> spec_fn(usize) -> Protocol<Option<MemoryStats>> {
        |device: usize|
            Protocol::Call(
                CallSpec::Plugin {
                    api: self.api,
                    entry: EntrySpec::DeviceMemoryStats { device },
                },
                |reply: ReplySpec| self.stats_answered(reply),
            )
    }

    pub open spec fn stats_answered(self, reply: ReplySpec) -> Protocol<Option<MemoryStats>> {
        if reply.error != 0 {
            Protocol::Call(
                CallSpec::Plugin {
                    api: self.api,
                    entry: EntrySpec::ErrorDestroy { error: reply.error },
                },
                |destroyed: ReplySpec| Protocol::Return(None),
            )
        } else {
            Protocol::Return(Some(reply.report.said()))
        }
    }
}

impl Client {
    /// What the client's device allocator holds and has held, or `None` when
    /// the plugin does not keep the statistics for this allocator kind (the
    /// platform allocator has none to report, and the plugin's answer there
    /// is an error rather than zeros).
    pub(crate) fn memory_stats<'a>(&self) -> (step: Step<'a, ReadStats>)
        ensures
            step.follows(self@.memory_stats_protocol()),
    {
        ReadStats::looking_up(self.duplicate(), self.first_device())
    }
}

/// Statistics that are being read.
pub struct ReadStats {
    client: Client,
    stage: StatsStage,
}

enum StatsStage {
    LookingUp(FirstDevice),
    Asking,
    Destroying,
}

impl ReadStats {
    fn looking_up<'a>(client: Client, step: Step<'a, FirstDevice>) -> (next: Step<'a, ReadStats>)
        ensures
            forall|protocol: Protocol<usize>| #[trigger]
                step.follows(protocol) ==> next.follows(protocol.and_then(client@.device_asked())),
    {
        match step {
            Step::Call(call, task) => {
                Step::Call(call, ReadStats { client, stage: StatsStage::LookingUp(task) })
            },
            Step::Return(device) => Step::Call(
                Call::Plugin { api: client.api(), entry: Entry::DeviceMemoryStats { device } },
                ReadStats { client, stage: StatsStage::Asking },
            ),
            Step::Fail(message) => Step::Fail(message),
        }
    }
}

impl Suspended for ReadStats {
    type Output = Option<MemoryStats>;

    closed spec fn after(&self, reply: ReplySpec) -> Protocol<Option<MemoryStats>> {
        match self.stage {
            StatsStage::LookingUp(task) => task.after(reply).and_then(self.client@.device_asked()),
            StatsStage::Asking => self.client@.stats_answered(reply),
            StatsStage::Destroying => Protocol::Return(None),
        }
    }
}

impl<'a> Task<'a> for ReadStats {
    fn resume(self, reply: Reply) -> (step: Step<'a, Self>) {
        let ReadStats { client, stage } = self;
        match stage {
            StatsStage::LookingUp(task) => ReadStats::looking_up(client, task.resume(reply)),
            StatsStage::Asking => {
                if reply.error != 0 {
                    let entry = Entry::ErrorDestroy { error: reply.error };
                    return Step::Call(
                        Call::Plugin { api: client.api(), entry },
                        ReadStats { client, stage: StatsStage::Destroying },
                    );
                }
                Step::Return(Some(reply.report.stats()))
            },
            StatsStage::Destroying => {
                assert(None::<MemoryStats>.deep_view() is None);
                Step::Return(None)
            },
        }
    }
}

} // verus!
