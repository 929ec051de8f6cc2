//! Buffers: filling one from the host, copying one back, releasing one.

use vstd::prelude::*;

use crate::call::{
    Call, CallSpec, Entry, EntrySpec, HostBufferSemantics, HostCall, HostCallSpec, Reply, ReplySpec,
};
use crate::check::{acknowledge, check, Acknowledged, Checked};
use crate::handles::{Buffer, Client, ClientSpec};
use crate::protocol::{Protocol, Step, Suspended, Task};

verus! {

broadcast use crate::protocol::lemma_and_then;

/// What the plugin filled of `size` blank places: what it handed over, cut off
/// at `size`, and `blank` wherever it handed over nothing.
pub open spec fn filled<T>(given: Seq<T>, size: nat, blank: T) -> Seq<T> {
    Seq::new(
        size,
        |i: int|
            if i < given.len() {
                given[i]
            } else {
                blank
            },
    )
}

/// Addresses have no further structure.
pub(crate) proof fn lemma_addresses(addresses: Vec<usize>)
    ensures
        addresses.deep_view() == addresses@,
{
    assert(addresses.deep_view() =~= addresses@);
}

/// Bytes have no further structure.
pub(crate) proof fn lemma_bytes(bytes: Vec<u8>)
    ensures
        bytes.deep_view() == bytes@,
{
    assert(bytes.deep_view() =~= bytes@);
}

// Waiting for a transfer.

impl ClientSpec {
    /// An event is awaited and then destroyed; null needs no waiting.
    pub open spec fn await_event_protocol(self, event: usize) -> Protocol<()> {
        if event == 0 {
            Protocol::Return(())
        } else {
            crate::check::checked(
                self.api,
                EntrySpec::EventAwait { event },
                "Event_Await"@,
            ).and_then(self.event_awaited(event))
        }
    }

    pub open spec fn event_awaited(self, event: usize) -> spec_fn(ReplySpec) -> Protocol<()> {
        |reply: ReplySpec|
            Protocol::Call(
                CallSpec::Plugin { api: self.api, entry: EntrySpec::EventDestroy { event } },
                crate::check::nothing_returned(),
            )
    }
}

impl Client {
    /// Waits until the transfer that `event` stands for is complete.
    pub(crate) fn await_event<'a>(&self, event: usize) -> (step: Step<'a, AwaitEvent>)
        ensures
            step.follows(self@.await_event_protocol(event)),
    {
        if event == 0 {
            return Step::Return(());
        }
        let step = check(self.api(), Entry::EventAwait { event }, "Event_Await");
        AwaitEvent::awaiting(self.duplicate(), event, step)
    }
}

/// An event that is being awaited.
pub struct AwaitEvent {
    client: Client,
    event: usize,
    stage: AwaitStage,
}

enum AwaitStage {
    Awaiting(Checked),
    Destroying,
}

impl AwaitEvent {
    fn awaiting<'a>(client: Client, event: usize, step: Step<'a, Checked>) -> (next: Step<
        'a,
        AwaitEvent,
    >)
        ensures
            forall|protocol: Protocol<ReplySpec>| #[trigger]
                step.follows(protocol) ==> next.follows(
                    protocol.and_then(client@.event_awaited(event)),
                ),
    {
        match step {
            Step::Call(call, task) => {
                Step::Call(call, AwaitEvent { client, event, stage: AwaitStage::Awaiting(task) })
            },
            Step::Return(_) => Step::Call(
                Call::Plugin { api: client.api(), entry: Entry::EventDestroy { event } },
                AwaitEvent { client, event, stage: AwaitStage::Destroying },
            ),
            Step::Fail(message) => Step::Fail(message),
        }
    }
}

impl Suspended for AwaitEvent {
    type Output = ();

    closed spec fn after(&self, reply: ReplySpec) -> Protocol<()> {
        match self.stage {
            AwaitStage::Awaiting(task) => task.after(reply).and_then(
                self.client@.event_awaited(self.event),
            ),
            AwaitStage::Destroying => Protocol::Return(()),
        }
    }
}

impl<'a> Task<'a> for AwaitEvent {
    fn resume(self, reply: Reply) -> (step: Step<'a, Self>) {
        let AwaitEvent { client, event, stage } = self;
        match stage {
            AwaitStage::Awaiting(task) => AwaitEvent::awaiting(client, event, task.resume(reply)),
            AwaitStage::Destroying => Step::Return(()),
        }
    }
}

// Filling a buffer from the host.

/// A host array: its bytes, its logical element counts and its element type,
/// which carries the byte size.
pub struct InputSpec {
    pub data: Seq<u8>,
    pub dims: Seq<i64>,
    pub elem_type: u32,
}

/// `(bytes, dims, elem_type)` per input; `dims` are logical element counts
/// (the element type carries byte size).
pub type Inputs<'a> = [(&'a [u8], Vec<i64>, u32)];

/// The arrays that are given as inputs.
pub open spec fn input_arrays<'a>(inputs: &Inputs<'a>) -> Seq<InputSpec> {
    Seq::new(
        inputs@.len(),
        |i: int|
            InputSpec { data: inputs@[i].0@, dims: inputs@[i].1@, elem_type: inputs@[i].2 },
    )
}

impl ClientSpec {
    /// One call, after which the plugin may read the array until the event
    /// that came back is complete, so that is awaited.
    pub open spec fn buf_from_host_protocol(self, device: usize, input: InputSpec) -> Protocol<
        usize,
    > {
        crate::check::checked(
            self.api,
            EntrySpec::ClientBufferFromHostBuffer {
                client: self.client,
                data: input.data,
                dims: input.dims,
                elem_type: input.elem_type,
                semantics: HostBufferSemantics::ImmutableUntilTransferCompletes,
                device,
            },
            "BufferFromHostBuffer"@,
        ).and_then(self.buffer_made())
    }

    pub open spec fn buffer_made(self) -> spec_fn(ReplySpec) -> Protocol<usize> {
        |reply: ReplySpec|
            self.await_event_protocol(reply.event).and_then(buffer_filled(reply.object))
    }
}

pub open spec fn buffer_filled(buffer: usize) -> spec_fn(()) -> Protocol<usize> {
    |transferred: ()| Protocol::Return(buffer)
}

impl Client {
    /// Fills a new buffer on the device. When it returns, the runtime has
    /// finished reading `data`.
    pub(crate) fn buf_from_host<'a>(
        &self,
        device: usize,
        data: &'a [u8],
        dims: &'a [i64],
        elem_type: u32,
    ) -> (step: Step<'a, BufFromHost>)
        ensures
            step.follows(
                self@.buf_from_host_protocol(
                    device,
                    InputSpec { data: data@, dims: dims@, elem_type },
                ),
            ),
    {
        let entry = Entry::ClientBufferFromHostBuffer {
            client: self.client(),
            data,
            dims,
            elem_type,
            semantics: HostBufferSemantics::ImmutableUntilTransferCompletes,
            device,
        };
        BufFromHost::making(self.duplicate(), check(self.api(), entry, "BufferFromHostBuffer"))
    }
}

/// A buffer that is being filled from the host.
pub struct BufFromHost {
    client: Client,
    stage: BufStage,
}

enum BufStage {
    Making(Checked),
    Filling { buffer: usize, task: AwaitEvent },
}

impl BufFromHost {
    fn making<'a>(client: Client, step: Step<'a, Checked>) -> (next: Step<'a, BufFromHost>)
        ensures
            forall|protocol: Protocol<ReplySpec>| #[trigger]
                step.follows(protocol) ==> next.follows(protocol.and_then(client@.buffer_made())),
    {
        match step {
            Step::Call(call, task) => {
                Step::Call(call, BufFromHost { client, stage: BufStage::Making(task) })
            },
            Step::Return(reply) => {
                let step = client.await_event(reply.event);
                BufFromHost::filling(client, reply.object, step)
            },
            Step::Fail(message) => Step::Fail(message),
        }
    }

    fn filling<'a>(client: Client, buffer: usize, step: Step<'a, AwaitEvent>) -> (next: Step<
        'a,
        BufFromHost,
    >)
        ensures
            forall|protocol: Protocol<()>| #[trigger]
                step.follows(protocol) ==> next.follows(protocol.and_then(buffer_filled(buffer))),
    {
        match step {
            Step::Call(call, task) => {
                Step::Call(call, BufFromHost { client, stage: BufStage::Filling { buffer, task } })
            },
            Step::Return(_) => Step::Return(Buffer::at(buffer)),
            Step::Fail(message) => Step::Fail(message),
        }
    }
}

impl Suspended for BufFromHost {
    type Output = Buffer;

    closed spec fn after(&self, reply: ReplySpec) -> Protocol<usize> {
        match self.stage {
            BufStage::Making(task) => task.after(reply).and_then(self.client@.buffer_made()),
            BufStage::Filling { buffer, task } => task.after(reply).and_then(
                buffer_filled(buffer),
            ),
        }
    }
}

impl<'a> Task<'a> for BufFromHost {
    fn resume(self, reply: Reply) -> (step: Step<'a, Self>) {
        let BufFromHost { client, stage } = self;
        match stage {
            BufStage::Making(task) => BufFromHost::making(client, task.resume(reply)),
            BufStage::Filling { buffer, task } => {
                BufFromHost::filling(client, buffer, task.resume(reply))
            },
        }
    }
}

// Filling one buffer for each input.

impl ClientSpec {
    /// The inputs after the first `buffers.len()` are uploaded one by one; the
    /// result is all the buffers, in the order of the inputs.
    pub open spec fn upload_protocol(
        self,
        device: usize,
        inputs: Seq<InputSpec>,
        buffers: Seq<usize>,
    ) -> Protocol<Seq<usize>>
        decreases inputs.len() - buffers.len(), 1int,
    {
        if buffers.len() < inputs.len() {
            self.buf_from_host_protocol(device, inputs[buffers.len() as int]).and_then(
                self.input_uploaded(device, inputs, buffers),
            )
        } else {
            Protocol::Return(buffers)
        }
    }

    pub open spec fn input_uploaded(
        self,
        device: usize,
        inputs: Seq<InputSpec>,
        buffers: Seq<usize>,
    ) -> spec_fn(usize) -> Protocol<Seq<usize>>
        decreases inputs.len() - buffers.len(), 0int,
    {
        |buffer: usize|
            if buffers.len() + 1 < inputs.len() {
                self.upload_protocol(device, inputs, buffers.push(buffer))
            } else {
                Protocol::Return(buffers.push(buffer))
            }
    }
}

/// The inputs of an execution that are being uploaded.
pub struct Upload<'a> {
    client: Client,
    device: usize,
    inputs: &'a Inputs<'a>,
    buffers: Vec<usize>,
    task: BufFromHost,
}

impl<'a> Upload<'a> {
    /// Uploads the inputs that have no buffer yet.
    pub(crate) fn start(
        client: Client,
        device: usize,
        inputs: &'a Inputs<'a>,
        buffers: Vec<usize>,
    ) -> (next: Step<'a, Upload<'a>>)
        ensures
            next.follows(client@.upload_protocol(device, input_arrays(inputs), buffers@)),
        decreases inputs@.len() - buffers@.len(), 1int,
    {
        if buffers.len() < inputs.len() {
            let (data, dims, elem_type) = &inputs[buffers.len()];
            let step = client.buf_from_host(device, data, dims.as_slice(), *elem_type);
            Upload::uploading(client, device, inputs, buffers, step)
        } else {
            proof {
                lemma_addresses(buffers);
            }
            Step::Return(buffers)
        }
    }

    fn uploading(
        client: Client,
        device: usize,
        inputs: &'a Inputs<'a>,
        buffers: Vec<usize>,
        step: Step<'a, BufFromHost>,
    ) -> (next: Step<'a, Upload<'a>>)
        ensures
            forall|protocol: Protocol<usize>| #[trigger]
                step.follows(protocol) ==> next.follows(
                    protocol.and_then(
                        client@.input_uploaded(device, input_arrays(inputs), buffers@),
                    ),
                ),
        decreases inputs@.len() - buffers@.len(), 0int,
    {
        match step {
            Step::Call(call, task) => {
                Step::Call(call, Upload { client, device, inputs, buffers, task })
            },
            Step::Return(buffer) => {
                let mut buffers = buffers;
                buffers.push(buffer.address());
                proof {
                    lemma_addresses(buffers);
                }
                if buffers.len() < inputs.len() {
                    Upload::start(client, device, inputs, buffers)
                } else {
                    Step::Return(buffers)
                }
            },
            Step::Fail(message) => Step::Fail(message),
        }
    }
}

impl<'a> Suspended for Upload<'a> {
    type Output = Vec<usize>;

    closed spec fn after(&self, reply: ReplySpec) -> Protocol<Seq<usize>> {
        self.task.after(reply).and_then(
            self.client@.input_uploaded(self.device, input_arrays(self.inputs), self.buffers@),
        )
    }
}

impl<'a> Task<'a> for Upload<'a> {
    fn resume(self, reply: Reply) -> (step: Step<'a, Self>) {
        let Upload { client, device, inputs, buffers, task } = self;
        Upload::uploading(client, device, inputs, buffers, task.resume(reply))
    }
}

// Copying a buffer to the host.

impl ClientSpec {
    /// The size is asked for first; then a destination of that size is filled,
    /// waited for and taken. The buffer stays as it is.
    pub open spec fn to_host_protocol(self, buffer: usize) -> Protocol<Seq<u8>> {
        crate::check::checked(
            self.api,
            EntrySpec::BufferToHostBuffer { src: buffer, dst_size: None },
            "ToHostBuffer(size)"@,
        ).and_then(self.size_told(buffer))
    }

    pub open spec fn size_told(self, buffer: usize) -> spec_fn(ReplySpec) -> Protocol<Seq<u8>> {
        |reply: ReplySpec|
            crate::check::checked(
                self.api,
                EntrySpec::BufferToHostBuffer { src: buffer, dst_size: Some(reply.size) },
                "ToHostBuffer(copy)"@,
            ).and_then(self.copy_started(reply.size))
    }

    pub open spec fn copy_started(self, size: usize) -> spec_fn(ReplySpec) -> Protocol<Seq<u8>> {
        |reply: ReplySpec| self.await_event_protocol(reply.event).and_then(copy_complete(size))
    }
}

pub open spec fn copy_complete(size: usize) -> spec_fn(()) -> Protocol<Seq<u8>> {
    |transferred: ()|
        Protocol::Call(CallSpec::Host(HostCallSpec::TakeHostBytes { size }), bytes_taken(size))
}

/// The result is the destination, of which the copy filled what it did.
pub open spec fn bytes_taken(size: usize) -> spec_fn(ReplySpec) -> Protocol<Seq<u8>> {
    |reply: ReplySpec| Protocol::Return(filled(reply.bytes, size as nat, 0))
}

impl Client {
    /// Copies one buffer to the host.
    pub(crate) fn to_host<'a>(&self, buffer: usize) -> (step: Step<'a, ToHost>)
        ensures
            step.follows(self@.to_host_protocol(buffer)),
    {
        let entry = Entry::BufferToHostBuffer { src: buffer, dst_size: None };
        let step = check(self.api(), entry, "ToHostBuffer(size)");
        ToHost::sizing(self.duplicate(), buffer, step)
    }
}

/// A buffer that is being copied to the host.
pub struct ToHost {
    client: Client,
    stage: CopyStage,
}

enum CopyStage {
    Sizing { buffer: usize, task: Checked },
    Starting { size: usize, task: Checked },
    Completing { size: usize, wait: AwaitEvent },
    Taking { size: usize },
}

impl ToHost {
    fn sizing<'a>(client: Client, buffer: usize, step: Step<'a, Checked>) -> (next: Step<
        'a,
        ToHost,
    >)
        ensures
            forall|protocol: Protocol<ReplySpec>| #[trigger]
                step.follows(protocol) ==> next.follows(
                    protocol.and_then(client@.size_told(buffer)),
                ),
    {
        match step {
            Step::Call(call, task) => {
                Step::Call(call, ToHost { client, stage: CopyStage::Sizing { buffer, task } })
            },
            Step::Return(reply) => {
                let size = reply.size;
                let entry = Entry::BufferToHostBuffer { src: buffer, dst_size: Some(size) };
                let step = check(client.api(), entry, "ToHostBuffer(copy)");
                ToHost::starting(client, size, step)
            },
            Step::Fail(message) => Step::Fail(message),
        }
    }

    fn starting<'a>(client: Client, size: usize, step: Step<'a, Checked>) -> (next: Step<
        'a,
        ToHost,
    >)
        ensures
            forall|protocol: Protocol<ReplySpec>| #[trigger]
                step.follows(protocol) ==> next.follows(
                    protocol.and_then(client@.copy_started(size)),
                ),
    {
        match step {
            Step::Call(call, task) => {
                Step::Call(call, ToHost { client, stage: CopyStage::Starting { size, task } })
            },
            Step::Return(reply) => {
                let step = client.await_event(reply.event);
                ToHost::completing(client, size, step)
            },
            Step::Fail(message) => Step::Fail(message),
        }
    }

    fn completing<'a>(client: Client, size: usize, step: Step<'a, AwaitEvent>) -> (next: Step<
        'a,
        ToHost,
    >)
        ensures
            forall|protocol: Protocol<()>| #[trigger]
                step.follows(protocol) ==> next.follows(protocol.and_then(copy_complete(size))),
    {
        match step {
            Step::Call(call, wait) => {
                Step::Call(call, ToHost { client, stage: CopyStage::Completing { size, wait } })
            },
            Step::Return(_) => Step::Call(
                Call::Host(HostCall::TakeHostBytes { size }),
                ToHost { client, stage: CopyStage::Taking { size } },
            ),
            Step::Fail(message) => Step::Fail(message),
        }
    }
}

impl Suspended for ToHost {
    type Output = Vec<u8>;

    closed spec fn after(&self, reply: ReplySpec) -> Protocol<Seq<u8>> {
        match self.stage {
            CopyStage::Sizing { buffer, task } => task.after(reply).and_then(
                self.client@.size_told(buffer),
            ),
            CopyStage::Starting { size, task } => task.after(reply).and_then(
                self.client@.copy_started(size),
            ),
            CopyStage::Completing { size, wait } => wait.after(reply).and_then(
                copy_complete(size),
            ),
            CopyStage::Taking { size } => bytes_taken(size)(reply),
        }
    }
}

impl<'a> Task<'a> for ToHost {
    fn resume(self, reply: Reply) -> (step: Step<'a, Self>) {
        let ToHost { client, stage } = self;
        match stage {
            CopyStage::Sizing { buffer, task } => {
                ToHost::sizing(client, buffer, task.resume(reply))
            },
            CopyStage::Starting { size, task } => {
                ToHost::starting(client, size, task.resume(reply))
            },
            CopyStage::Completing { size, wait } => {
                ToHost::completing(client, size, wait.resume(reply))
            },
            CopyStage::Taking { size } => {
                let mut bytes = reply.bytes;
                bytes.resize(size, 0);
                proof {
                    lemma_bytes(bytes);
                    assert(bytes@ =~= filled(reply@.bytes, size as nat, 0));
                }
                Step::Return(bytes)
            },
        }
    }
}

// Copying several buffers to the host.

impl ClientSpec {
    /// The buffers after the first `host.len()` are copied one by one; the
    /// result is all the copies, in the order of the buffers.
    pub open spec fn read_protocol(self, buffers: Seq<usize>, host: Seq<Seq<u8>>) -> Protocol<
        Seq<Seq<u8>>,
    >
        decreases buffers.len() - host.len(), 1int,
    {
        if host.len() < buffers.len() {
            self.to_host_protocol(buffers[host.len() as int]).and_then(
                self.buffer_read(buffers, host),
            )
        } else {
            Protocol::Return(host)
        }
    }

    pub open spec fn buffer_read(self, buffers: Seq<usize>, host: Seq<Seq<u8>>) -> spec_fn(
        Seq<u8>,
    ) -> Protocol<Seq<Seq<u8>>>
        decreases buffers.len() - host.len(), 0int,
    {
        |bytes: Seq<u8>|
            if host.len() + 1 < buffers.len() {
                self.read_protocol(buffers, host.push(bytes))
            } else {
                Protocol::Return(host.push(bytes))
            }
    }
}

/// The outputs of an execution that are being copied to the host.
pub struct Read {
    client: Client,
    buffers: Vec<usize>,
    host: Vec<Vec<u8>>,
    task: ToHost,
}

impl Read {
    /// Copies the buffers that were not copied yet.
    pub(crate) fn start<'a>(client: Client, buffers: Vec<usize>, host: Vec<Vec<u8>>) -> (next: Step<
        'a,
        Read,
    >)
        ensures
            next.follows(client@.read_protocol(buffers@, host.deep_view())),
        decreases buffers@.len() - host@.len(), 1int,
    {
        if host.len() < buffers.len() {
            let step = client.to_host(buffers[host.len()]);
            Read::reading(client, buffers, host, step)
        } else {
            Step::Return(host)
        }
    }

    fn reading<'a>(
        client: Client,
        buffers: Vec<usize>,
        host: Vec<Vec<u8>>,
        step: Step<'a, ToHost>,
    ) -> (next: Step<'a, Read>)
        ensures
            forall|protocol: Protocol<Seq<u8>>| #[trigger]
                step.follows(protocol) ==> next.follows(
                    protocol.and_then(client@.buffer_read(buffers@, host.deep_view())),
                ),
        decreases buffers@.len() - host@.len(), 0int,
    {
        match step {
            Step::Call(call, task) => Step::Call(call, Read { client, buffers, host, task }),
            Step::Return(bytes) => {
                let ghost copied = bytes.deep_view();
                let ghost before = host.deep_view();
                let mut host = host;
                host.push(bytes);
                assert(host.deep_view() =~= before.push(copied));
                if host.len() < buffers.len() {
                    Read::start(client, buffers, host)
                } else {
                    Step::Return(host)
                }
            },
            Step::Fail(message) => Step::Fail(message),
        }
    }
}

impl Suspended for Read {
    type Output = Vec<Vec<u8>>;

    closed spec fn after(&self, reply: ReplySpec) -> Protocol<Seq<Seq<u8>>> {
        self.task.after(reply).and_then(
            self.client@.buffer_read(self.buffers@, self.host.deep_view()),
        )
    }
}

impl<'a> Task<'a> for Read {
    fn resume(self, reply: Reply) -> (step: Step<'a, Self>) {
        let Read { client, buffers, host, task } = self;
        Read::reading(client, buffers, host, task.resume(reply))
    }
}

// Releasing a buffer.

impl ClientSpec {
    /// One call.
    pub open spec fn destroy_buffer_protocol(self, buffer: usize) -> Protocol<()> {
        crate::check::acknowledged(
            self.api,
            EntrySpec::BufferDestroy { buffer },
            "Buffer_Destroy"@,
        )
    }
}

impl Client {
    /// Releases a buffer's device memory.
    pub(crate) fn destroy_buffer<'a>(&self, buffer: usize) -> (step: Step<'a, Acknowledged>)
        ensures
            step.follows(self@.destroy_buffer_protocol(buffer)),
    {
        acknowledge(self.api(), Entry::BufferDestroy { buffer }, "Buffer_Destroy")
    }
}

// Releasing several buffers.

impl ClientSpec {
    /// The buffers after the first `count` are destroyed one by one.
    pub open spec fn release_protocol(self, buffers: Seq<usize>, count: nat) -> Protocol<()>
        decreases buffers.len() - count, 1int,
    {
        if count < buffers.len() {
            self.destroy_buffer_protocol(buffers[count as int]).and_then(
                self.buffer_released(buffers, count),
            )
        } else {
            Protocol::Return(())
        }
    }

    pub open spec fn buffer_released(self, buffers: Seq<usize>, count: nat) -> spec_fn(
        (),
    ) -> Protocol<()>
        decreases buffers.len() - count, 0int,
    {
        |released: ()|
            if count + 1 < buffers.len() {
                self.release_protocol(buffers, count + 1)
            } else {
                Protocol::Return(())
            }
    }
}

/// The outputs of an execution that are being released.
pub struct Release {
    client: Client,
    buffers: Vec<usize>,
    count: usize,
    task: Acknowledged,
}

impl Release {
    /// Releases the buffers after the first `count`.
    pub(crate) fn start<'a>(client: Client, buffers: Vec<usize>, count: usize) -> (next: Step<
        'a,
        Release,
    >)
        ensures
            next.follows(client@.release_protocol(buffers@, count as nat)),
        decreases buffers@.len() - count, 1int,
    {
        if count < buffers.len() {
            let step = client.destroy_buffer(buffers[count]);
            Release::releasing(client, buffers, count, step)
        } else {
            Step::Return(())
        }
    }

    fn releasing<'a>(
        client: Client,
        buffers: Vec<usize>,
        count: usize,
        step: Step<'a, Acknowledged>,
    ) -> (next: Step<'a, Release>)
        ensures
            forall|protocol: Protocol<()>| #[trigger]
                step.follows(protocol) ==> next.follows(
                    protocol.and_then(client@.buffer_released(buffers@, count as nat)),
                ),
        decreases buffers@.len() - count, 0int,
    {
        match step {
            Step::Call(call, task) => Step::Call(call, Release { client, buffers, count, task }),
            Step::Return(_) => {
                if count < buffers.len() && count + 1 < buffers.len() {
                    Release::start(client, buffers, count + 1)
                } else {
                    Step::Return(())
                }
            },
            Step::Fail(message) => Step::Fail(message),
        }
    }
}

impl Suspended for Release {
    type Output = ();

    closed spec fn after(&self, reply: ReplySpec) -> Protocol<()> {
        self.task.after(reply).and_then(
            self.client@.buffer_released(self.buffers@, self.count as nat),
        )
    }
}

impl<'a> Task<'a> for Release {
    fn resume(self, reply: Reply) -> (step: Step<'a, Self>) {
        let Release { client, buffers, count, task } = self;
        Release::releasing(client, buffers, count, task.resume(reply))
    }
}

} // verus!
