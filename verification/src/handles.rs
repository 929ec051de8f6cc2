//! What a caller holds of the objects that live in the plugin.

use vstd::prelude::*;

verus! {

/// A loaded plugin: the address of its function table.
#[derive(Clone, Copy, Debug, PartialEq, Eq)]
pub struct Pjrt {
    pub api: usize,
}

/// A client of the plugin whose function table is at `api`.
#[derive(Debug)]
pub struct Client {
    api: usize,
    client: usize,
}

/// The addresses that a [`Client`] or a [`Session`] stands for.
pub struct ClientSpec {
    pub api: usize,
    pub client: usize,
}

/// A persistent GPU client over the process-global plugin. With the plugin's
/// default allocator a second client in one process aborts, so a caller that
/// runs several executables must reuse one session; with
/// `preallocate: Some(false)` several sessions coexist, each with its own
/// allocator and stream.
#[derive(Debug)]
pub struct Session {
    client: Client,
}

/// A compiled executable bound to a [`Session`]'s client. Compile once and
/// reuse across runs to avoid recompiling the same module on every call.
#[derive(Debug)]
pub struct Executable(usize);

/// Device-resident data: an uploaded input, or an output kept on the device.
///
/// Upload once and reuse across executions to avoid re-transferring a constant
/// input (e.g. a proving key), or carry one stage's output into the next
/// without a round trip (see [`Session::run_buffers_to_device`]).
///
/// A buffer from [`Session::input_buffer`] or `run_buffers_to_device` owns
/// device memory until passed to [`Session::free_buffer`]. It does not free on
/// drop: it holds only an address, and the function table needed to release
/// what is there belongs to the session.
#[derive(Debug)]
pub struct Buffer(usize);

impl Client {
    pub(crate) fn new(api: usize, client: usize) -> (handle: Client)
        ensures
            handle@ == (ClientSpec { api, client }),
    {
        Client { api, client }
    }

    pub(crate) fn api(&self) -> (api: usize)
        ensures
            api == self@.api,
    {
        self.api
    }

    pub(crate) fn client(&self) -> (client: usize)
        ensures
            client == self@.client,
    {
        self.client
    }

    pub(crate) fn duplicate(&self) -> (copy: Client)
        ensures
            copy@ == self@,
    {
        Client { api: self.api, client: self.client }
    }
}

impl Session {
    pub(crate) fn over(client: Client) -> (session: Session)
        ensures
            session@ == client@,
    {
        Session { client }
    }

    pub(crate) fn client(&self) -> (client: &Client)
        ensures
            client@ == self@,
    {
        &self.client
    }
}

impl Executable {
    pub(crate) fn at(address: usize) -> (handle: Executable)
        ensures
            handle@ == address,
    {
        Executable(address)
    }

    pub(crate) fn address(&self) -> (address: usize)
        ensures
            address == self@,
    {
        self.0
    }
}

impl Buffer {
    pub(crate) fn at(address: usize) -> (handle: Buffer)
        ensures
            handle@ == address,
    {
        Buffer(address)
    }

    pub(crate) fn address(&self) -> (address: usize)
        ensures
            address == self@,
    {
        self.0
    }
}

impl View for Client {
    type V = ClientSpec;

    closed spec fn view(&self) -> ClientSpec {
        ClientSpec { api: self.api, client: self.client }
    }
}

impl View for Session {
    type V = ClientSpec;

    closed spec fn view(&self) -> ClientSpec {
        self.client@
    }
}

impl View for Executable {
    type V = usize;

    closed spec fn view(&self) -> usize {
        self.0
    }
}

impl View for Buffer {
    type V = usize;

    closed spec fn view(&self) -> usize {
        self.0
    }
}

impl DeepView for Pjrt {
    type V = Pjrt;

    open spec fn deep_view(&self) -> Pjrt {
        *self
    }
}

impl DeepView for Client {
    type V = ClientSpec;

    open spec fn deep_view(&self) -> ClientSpec {
        self@
    }
}

impl DeepView for Session {
    type V = ClientSpec;

    open spec fn deep_view(&self) -> ClientSpec {
        self@
    }
}

impl DeepView for Executable {
    type V = usize;

    open spec fn deep_view(&self) -> usize {
        self@
    }
}

impl DeepView for Buffer {
    type V = usize;

    open spec fn deep_view(&self) -> usize {
        self@
    }
}

} // verus!
