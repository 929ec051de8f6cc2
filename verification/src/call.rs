//! The calls a procedure makes and the replies it gets.
//!
//! Objects that live in the plugin (clients, devices, executables, buffers,
//! events, errors) are named by their addresses; address 0 is the null
//! pointer.

use vstd::prelude::*;

use crate::memory::MemoryReport;
use crate::options::{NamedValue, NamedValueSpec};

verus! {

/// How long the plugin may read the caller's memory while a buffer is filled
/// from it.
#[derive(Clone, Copy, Debug, PartialEq, Eq)]
pub enum HostBufferSemantics {
    ImmutableOnlyDuringCall,
    ImmutableUntilTransferCompletes,
    ImmutableZeroCopy,
    MutableZeroCopy,
}

/// One entry point of the plugin's function table, with the arguments it is
/// given. Fields that are not listed are left zero.
#[derive(Debug)]
pub enum Entry<'a> {
    /// The version pair that stands in the table itself.
    ApiVersion,
    ErrorMessage { error: usize },
    ErrorDestroy { error: usize },
    PluginInitialize,
    EventAwait { event: usize },
    EventDestroy { event: usize },
    ClientCreate { options: Vec<NamedValue> },
    ClientAddressableDevices { client: usize },
    ClientCompile { client: usize, code: &'a [u8], format: &'static str, compile_options: Vec<u8> },
    ClientBufferFromHostBuffer {
        client: usize,
        data: &'a [u8],
        dims: &'a [i64],
        elem_type: u32,
        semantics: HostBufferSemantics,
        device: usize,
    },
    DeviceMemoryStats { device: usize },
    /// Runs on `num_devices` devices, each with the one list of arguments and
    /// with room for `num_outputs` output buffers.
    LoadedExecutableExecute {
        executable: usize,
        num_devices: usize,
        arguments: Vec<usize>,
        num_outputs: usize,
    },
    LoadedExecutableGetExecutable { executable: usize },
    LoadedExecutableDestroy { executable: usize },
    ExecutableSerialize { executable: usize },
    /// The deleter that came with a serialized executable, called on it.
    SerializedExecutableDelete { deleter: usize, serialized: usize },
    ExecutableDestroy { executable: usize },
    ExecutableDeserializeAndLoad { client: usize, bytes: &'a [u8] },
    BufferDestroy { buffer: usize },
    /// Without a destination this asks only for the size that one needs; with
    /// one of `dst_size` zeroed bytes it starts the copy into it.
    BufferToHostBuffer { src: usize, dst_size: Option<usize> },
}

/// Work that is asked of the surrounding process rather than of the plugin.
#[derive(Debug)]
pub enum HostCall {
    /// The value of an environment variable.
    ReadVariable { name: &'static str },
    /// Opens a shared library and keeps it resident.
    OpenLibrary { path: String },
    /// Looks a NUL-terminated symbol up in the library that was opened.
    FindSymbol { name: &'static str },
    /// Calls the symbol that was found, which returns the function table.
    CallSymbol,
    /// Reads a monotonic clock, in nanoseconds.
    ReadClock,
    /// Hands over the `size` bytes that the last copy to the host filled.
    TakeHostBytes { size: usize },
}

/// One call.
#[derive(Debug)]
pub enum Call<'a> {
    /// The entry point `entry` of the function table at `api`.
    Plugin { api: usize, entry: Entry<'a> },
    Host(HostCall),
}

/// What came back from a call. Each call fills the fields that belong to it;
/// the others stay as [`Reply::default`] leaves them, zero or empty.
#[derive(Debug)]
pub struct Reply {
    /// The error object that an entry point returned, null on success.
    pub error: usize,
    /// The object that was made or found.
    pub object: usize,
    /// The objects that were listed: addressable devices, output buffers.
    pub objects: Vec<usize>,
    /// The event that completes when a transfer does, or null.
    pub event: usize,
    /// The deleter that came with a serialized executable, or null.
    pub deleter: usize,
    /// The size that a destination on the host needs.
    pub size: usize,
    /// Bytes: an error's message, a serialized executable, a copied buffer.
    pub bytes: Vec<u8>,
    /// The allocator statistics of a device.
    pub report: MemoryReport,
    /// The version pair, major first.
    pub version: (i32, i32),
    /// The reading of the clock.
    pub nanos: u64,
    /// The value of an environment variable.
    pub text: String,
    /// Why a host call failed, as its error describes itself.
    pub failure: Option<String>,
}

impl Default for Reply {
    fn default() -> (reply: Reply)
        ensures
            reply@ == ReplySpec::empty(),
            reply.error == 0 && reply.object == 0 && reply.objects@.len() == 0,
            reply.event == 0 && reply.deleter == 0 && reply.size == 0 && reply.bytes@.len() == 0,
            reply.version.0 == 0 && reply.version.1 == 0 && reply.nanos == 0,
            reply.text@.len() == 0 && reply.failure is None,
            reply.report == MemoryReport::all_zero(),
    {
        Reply {
            error: 0,
            object: 0,
            objects: Vec::new(),
            event: 0,
            deleter: 0,
            size: 0,
            bytes: Vec::new(),
            report: MemoryReport::zeroed(),
            version: (0, 0),
            nanos: 0,
            text: String::new(),
            failure: None,
        }
    }
}

/// The mathematical value of an [`Entry`].
pub enum EntrySpec {
    ApiVersion,
    ErrorMessage { error: usize },
    ErrorDestroy { error: usize },
    PluginInitialize,
    EventAwait { event: usize },
    EventDestroy { event: usize },
    ClientCreate { options: Seq<NamedValueSpec> },
    ClientAddressableDevices { client: usize },
    ClientCompile { client: usize, code: Seq<u8>, format: Seq<char>, compile_options: Seq<u8> },
    ClientBufferFromHostBuffer {
        client: usize,
        data: Seq<u8>,
        dims: Seq<i64>,
        elem_type: u32,
        semantics: HostBufferSemantics,
        device: usize,
    },
    DeviceMemoryStats { device: usize },
    LoadedExecutableExecute {
        executable: usize,
        num_devices: usize,
        arguments: Seq<usize>,
        num_outputs: usize,
    },
    LoadedExecutableGetExecutable { executable: usize },
    LoadedExecutableDestroy { executable: usize },
    ExecutableSerialize { executable: usize },
    SerializedExecutableDelete { deleter: usize, serialized: usize },
    ExecutableDestroy { executable: usize },
    ExecutableDeserializeAndLoad { client: usize, bytes: Seq<u8> },
    BufferDestroy { buffer: usize },
    BufferToHostBuffer { src: usize, dst_size: Option<usize> },
}

/// The mathematical value of a [`HostCall`].
pub enum HostCallSpec {
    ReadVariable { name: Seq<char> },
    OpenLibrary { path: Seq<char> },
    FindSymbol { name: Seq<char> },
    CallSymbol,
    ReadClock,
    TakeHostBytes { size: usize },
}

/// The mathematical value of a [`Call`].
pub enum CallSpec {
    Plugin { api: usize, entry: EntrySpec },
    Host(HostCallSpec),
}

/// The mathematical value of a [`Reply`].
pub struct ReplySpec {
    pub error: usize,
    pub object: usize,
    pub objects: Seq<usize>,
    pub event: usize,
    pub deleter: usize,
    pub size: usize,
    pub bytes: Seq<u8>,
    pub report: MemoryReport,
    pub version: (i32, i32),
    pub nanos: u64,
    pub text: Seq<char>,
    pub failure: Option<Seq<char>>,
}

impl ReplySpec {
    /// The reply in which nothing was filled.
    pub open spec fn empty() -> ReplySpec {
        ReplySpec {
            error: 0,
            object: 0,
            objects: Seq::empty(),
            event: 0,
            deleter: 0,
            size: 0,
            bytes: Seq::empty(),
            report: MemoryReport::all_zero(),
            version: (0, 0),
            nanos: 0,
            text: Seq::empty(),
            failure: None,
        }
    }
}

impl<'a> View for Entry<'a> {
    type V = EntrySpec;

    open spec fn view(&self) -> EntrySpec {
        match *self {
            Entry::ApiVersion => EntrySpec::ApiVersion,
            Entry::ErrorMessage { error } => EntrySpec::ErrorMessage { error },
            Entry::ErrorDestroy { error } => EntrySpec::ErrorDestroy { error },
            Entry::PluginInitialize => EntrySpec::PluginInitialize,
            Entry::EventAwait { event } => EntrySpec::EventAwait { event },
            Entry::EventDestroy { event } => EntrySpec::EventDestroy { event },
            Entry::ClientCreate { options } => EntrySpec::ClientCreate {
                options: options.deep_view(),
            },
            Entry::ClientAddressableDevices { client } => EntrySpec::ClientAddressableDevices {
                client,
            },
            Entry::ClientCompile { client, code, format, compile_options } =>
                EntrySpec::ClientCompile {
                client,
                code: code@,
                format: format@,
                compile_options: compile_options@,
            },
            Entry::ClientBufferFromHostBuffer {
                client,
                data,
                dims,
                elem_type,
                semantics,
                device,
            } => EntrySpec::ClientBufferFromHostBuffer {
                client,
                data: data@,
                dims: dims@,
                elem_type,
                semantics,
                device,
            },
            Entry::DeviceMemoryStats { device } => EntrySpec::DeviceMemoryStats { device },
            Entry::LoadedExecutableExecute { executable, num_devices, arguments, num_outputs } =>
                EntrySpec::LoadedExecutableExecute {
                executable,
                num_devices,
                arguments: arguments@,
                num_outputs,
            },
            Entry::LoadedExecutableGetExecutable { executable } =>
                EntrySpec::LoadedExecutableGetExecutable { executable },
            Entry::LoadedExecutableDestroy { executable } => EntrySpec::LoadedExecutableDestroy {
                executable,
            },
            Entry::ExecutableSerialize { executable } => EntrySpec::ExecutableSerialize {
                executable,
            },
            Entry::SerializedExecutableDelete { deleter, serialized } =>
                EntrySpec::SerializedExecutableDelete { deleter, serialized },
            Entry::ExecutableDestroy { executable } => EntrySpec::ExecutableDestroy { executable },
            Entry::ExecutableDeserializeAndLoad { client, bytes } =>
                EntrySpec::ExecutableDeserializeAndLoad { client, bytes: bytes@ },
            Entry::BufferDestroy { buffer } => EntrySpec::BufferDestroy { buffer },
            Entry::BufferToHostBuffer { src, dst_size } => EntrySpec::BufferToHostBuffer {
                src,
                dst_size,
            },
        }
    }
}

impl View for HostCall {
    type V = HostCallSpec;

    open spec fn view(&self) -> HostCallSpec {
        match *self {
            HostCall::ReadVariable { name } => HostCallSpec::ReadVariable { name: name@ },
            HostCall::OpenLibrary { path } => HostCallSpec::OpenLibrary { path: path@ },
            HostCall::FindSymbol { name } => HostCallSpec::FindSymbol { name: name@ },
            HostCall::CallSymbol => HostCallSpec::CallSymbol,
            HostCall::ReadClock => HostCallSpec::ReadClock,
            HostCall::TakeHostBytes { size } => HostCallSpec::TakeHostBytes { size },
        }
    }
}

impl<'a> View for Call<'a> {
    type V = CallSpec;

    open spec fn view(&self) -> CallSpec {
        match *self {
            Call::Plugin { api, entry } => CallSpec::Plugin { api, entry: entry@ },
            Call::Host(call) => CallSpec::Host(call@),
        }
    }
}

impl View for Reply {
    type V = ReplySpec;

    open spec fn view(&self) -> ReplySpec {
        ReplySpec {
            error: self.error,
            object: self.object,
            objects: self.objects@,
            event: self.event,
            deleter: self.deleter,
            size: self.size,
            bytes: self.bytes@,
            report: self.report,
            version: self.version,
            nanos: self.nanos,
            text: self.text@,
            failure: match self.failure {
                Some(text) => Some(text@),
                None => None,
            },
        }
    }
}

impl DeepView for Reply {
    type V = ReplySpec;

    open spec fn deep_view(&self) -> ReplySpec {
        self@
    }
}

// What is stated of a call or a reply is stated of what is in it.

/// The entry point and every one of its arguments are the same in both.
pub open spec fn same_entry<'a>(entry: Entry<'a>, seen: EntrySpec) -> bool {
    match (entry, seen) {
        (Entry::ApiVersion, EntrySpec::ApiVersion) => true,
        (Entry::ErrorMessage { error }, EntrySpec::ErrorMessage { error: same }) => error == same,
        (Entry::ErrorDestroy { error }, EntrySpec::ErrorDestroy { error: same }) => error == same,
        (Entry::PluginInitialize, EntrySpec::PluginInitialize) => true,
        (Entry::EventAwait { event }, EntrySpec::EventAwait { event: same }) => event == same,
        (Entry::EventDestroy { event }, EntrySpec::EventDestroy { event: same }) => event == same,
        (Entry::ClientCreate { options }, EntrySpec::ClientCreate { options: same }) => {
            &&& options@.len() == same.len()
            &&& forall|i: int|
                0 <= i < same.len() ==> #[trigger] same[i] == options@[i].deep_view()
        },
        (
            Entry::ClientAddressableDevices { client },
            EntrySpec::ClientAddressableDevices { client: same },
        ) => client == same,
        (Entry::ClientCompile { client, code, format, compile_options }, _) => {
            &&& seen is ClientCompile
            &&& seen->ClientCompile_client == client
            &&& seen->code == code@
            &&& seen->format == format@
            &&& seen->compile_options == compile_options@
        },
        (
            Entry::ClientBufferFromHostBuffer { client, data, dims, elem_type, semantics, device },
            _,
        ) => {
            &&& seen is ClientBufferFromHostBuffer
            &&& seen->ClientBufferFromHostBuffer_client == client
            &&& seen->data == data@
            &&& seen->dims == dims@
            &&& seen->elem_type == elem_type
            &&& seen->semantics == semantics
            &&& seen->ClientBufferFromHostBuffer_device == device
        },
        (Entry::DeviceMemoryStats { device }, EntrySpec::DeviceMemoryStats { device: same }) =>
            device == same,
        (Entry::LoadedExecutableExecute { executable, num_devices, arguments, num_outputs }, _) => {
            &&& seen is LoadedExecutableExecute
            &&& seen->LoadedExecutableExecute_executable == executable
            &&& seen->num_devices == num_devices
            &&& seen->arguments.len() == arguments@.len()
            &&& forall|i: int|
                0 <= i < arguments@.len() ==> #[trigger] seen->arguments[i] == arguments@[i]
            &&& seen->num_outputs == num_outputs
        },
        (
            Entry::LoadedExecutableGetExecutable { executable },
            EntrySpec::LoadedExecutableGetExecutable { executable: same },
        ) => executable == same,
        (
            Entry::LoadedExecutableDestroy { executable },
            EntrySpec::LoadedExecutableDestroy { executable: same },
        ) => executable == same,
        (
            Entry::ExecutableSerialize { executable },
            EntrySpec::ExecutableSerialize { executable: same },
        ) => executable == same,
        (Entry::SerializedExecutableDelete { deleter, serialized }, _) => {
            &&& seen is SerializedExecutableDelete
            &&& seen->deleter == deleter
            &&& seen->serialized == serialized
        },
        (
            Entry::ExecutableDestroy { executable },
            EntrySpec::ExecutableDestroy { executable: same },
        ) => executable == same,
        (Entry::ExecutableDeserializeAndLoad { client, bytes }, _) => {
            &&& seen is ExecutableDeserializeAndLoad
            &&& seen->ExecutableDeserializeAndLoad_client == client
            &&& seen->bytes == bytes@
        },
        (Entry::BufferDestroy { buffer }, EntrySpec::BufferDestroy { buffer: same }) => buffer
            == same,
        (Entry::BufferToHostBuffer { src, dst_size }, _) => {
            &&& seen is BufferToHostBuffer
            &&& seen->src == src
            &&& seen->dst_size == dst_size
        },
        _ => false,
    }
}

/// The host call and what is in it are the same in both.
pub open spec fn same_host_call(call: HostCall, seen: HostCallSpec) -> bool {
    match (call, seen) {
        (HostCall::ReadVariable { name }, HostCallSpec::ReadVariable { name: same }) => name@
            == same,
        (HostCall::OpenLibrary { path }, HostCallSpec::OpenLibrary { path: same }) => path@ == same,
        (HostCall::FindSymbol { name }, HostCallSpec::FindSymbol { name: same }) => name@ == same,
        (HostCall::CallSymbol, HostCallSpec::CallSymbol) => true,
        (HostCall::ReadClock, HostCallSpec::ReadClock) => true,
        (HostCall::TakeHostBytes { size }, HostCallSpec::TakeHostBytes { size: same }) => size
            == same,
        _ => false,
    }
}

/// A call is seen with exactly what is in it: the entry point and its arguments
/// as they are handed over, each in its order.
pub proof fn law_calls_are_seen_as_they_are<'a>(call: Call<'a>)
    ensures
        match (call, call@) {
            (Call::Plugin { api, entry }, CallSpec::Plugin { api: same, entry: seen }) => {
                &&& api == same
                &&& same_entry(entry, seen)
            },
            (Call::Host(call), CallSpec::Host(seen)) => same_host_call(call, seen),
            _ => false,
        },
{
}

/// A reply is seen with exactly what is in it, and one in which nothing was
/// filled is all zero and empty.
pub proof fn law_replies_are_seen_as_they_are(reply: Reply)
    ensures
        reply@.error == reply.error,
        reply@.object == reply.object,
        reply@.objects == reply.objects@,
        reply@.event == reply.event,
        reply@.deleter == reply.deleter,
        reply@.size == reply.size,
        reply@.bytes == reply.bytes@,
        reply@.report == reply.report,
        reply@.version == reply.version,
        reply@.nanos == reply.nanos,
        reply@.text == reply.text@,
        reply@.failure is Some <==> reply.failure is Some,
        reply.failure matches Some(reason) ==> reply@.failure->0 == reason@,
        reply.deep_view() == reply@,
        ReplySpec::empty().error == 0,
        ReplySpec::empty().object == 0,
        ReplySpec::empty().objects.len() == 0,
        ReplySpec::empty().event == 0,
        ReplySpec::empty().deleter == 0,
        ReplySpec::empty().size == 0,
        ReplySpec::empty().bytes.len() == 0,
        ReplySpec::empty().version.0 == 0 && ReplySpec::empty().version.1 == 0,
        ReplySpec::empty().nanos == 0,
        ReplySpec::empty().text.len() == 0,
        ReplySpec::empty().failure is None,
{
}

} // verus!
