//! The plugin: finding it, loading it, starting it.

use vstd::prelude::*;

use crate::call::{Call, CallSpec, Entry, EntrySpec, HostCall, HostCallSpec, Reply, ReplySpec};
use crate::check::{acknowledge, expect, Acknowledged, Expected};
use crate::handles::Pjrt;
use crate::options::SessionOptions;
use crate::protocol::{Protocol, Step, Suspended, Task};
use crate::transcript::Exchange;

verus! {

broadcast use crate::protocol::lemma_and_then;

// Finding the plugin.

/// The environment is asked for the path, which must be set.
pub open spec fn plugin_path_protocol() -> Protocol<Seq<char>> {
    crate::check::expected(
        HostCallSpec::ReadVariable { name: "XLA_PJRT_PLUGIN"@ },
        "set XLA_PJRT_PLUGIN to the jax-cuda12 xla_cuda_plugin.so"@,
    ).and_then(text_returned())
}

pub open spec fn text_returned() -> spec_fn(ReplySpec) -> Protocol<Seq<char>> {
    |reply: ReplySpec| Protocol::Return(reply.text)
}

/// Path to the GPU plugin `.so`, from env `XLA_PJRT_PLUGIN`. The plugin ships
/// in the matched jax-cuda12 wheel (`jax_plugins/xla_cuda12/xla_cuda_plugin.so`).
pub fn plugin_path<'a>() -> (step: Step<'a, PluginPath>)
    ensures
        step.follows(plugin_path_protocol()),
        forall|transcript: Seq<Exchange>, path: Seq<char>| #[trigger]
            step.completes(transcript, path) ==> crate::exchanges::finds_path(transcript, path),
        forall|transcript: Seq<Exchange>, message: Seq<char>| #[trigger]
            step.aborts(transcript, message) ==> crate::failures::accounted(
                transcript,
                Some(message),
            ),
{
    let call = HostCall::ReadVariable { name: "XLA_PJRT_PLUGIN" };
    let missing = "set XLA_PJRT_PLUGIN to the jax-cuda12 xla_cuda_plugin.so";
    let step = PluginPath::calling(expect(call, missing));
    proof {
        let protocol = plugin_path_protocol();
        crate::transcript::lemma_runs(step, protocol);
        assert forall|transcript: Seq<Exchange>, path: Seq<char>| #[trigger]
            step.completes(transcript, path) implies crate::exchanges::finds_path(
                transcript,
                path,
            ) by {
            crate::exchanges::law_path(transcript, path);
        }
        crate::failures::law_opening_fails_for_a_reason(
            None,
            SessionOptions::unset(),
            Pjrt { api: 0 },
        );
        crate::failures::lemma_reasons(protocol);
    }
    step
}

/// A lookup of the plugin's path.
pub struct PluginPath {
    task: Expected,
}

impl PluginPath {
    fn calling<'a>(step: Step<'a, Expected>) -> (next: Step<'a, PluginPath>)
        ensures
            forall|protocol: Protocol<ReplySpec>| #[trigger]
                step.follows(protocol) ==> next.follows(protocol.and_then(text_returned())),
    {
        match step {
            Step::Call(call, task) => Step::Call(call, PluginPath { task }),
            Step::Return(reply) => Step::Return(reply.text),
            Step::Fail(message) => Step::Fail(message),
        }
    }
}

impl Suspended for PluginPath {
    type Output = String;

    closed spec fn after(&self, reply: ReplySpec) -> Protocol<Seq<char>> {
        self.task.after(reply).and_then(text_returned())
    }
}

impl<'a> Task<'a> for PluginPath {
    fn resume(self, reply: Reply) -> (step: Step<'a, Self>) {
        PluginPath::calling(self.task.resume(reply))
    }
}

// Loading the plugin.

impl Pjrt {
    /// The library at the path is opened, its one symbol is looked up and
    /// called, and the function table that this gives must not be null.
    pub open spec fn load_protocol() -> Protocol<Pjrt> {
        plugin_path_protocol().and_then(Pjrt::path_known())
    }

    pub open spec fn path_known() -> spec_fn(Seq<char>) -> Protocol<Pjrt> {
        |path: Seq<char>|
            crate::check::expected(
                HostCallSpec::OpenLibrary { path },
                "dlopen GPU plugin"@,
            ).and_then(Pjrt::library_opened())
    }

    pub open spec fn library_opened() -> spec_fn(ReplySpec) -> Protocol<Pjrt> {
        |opened: ReplySpec|
            crate::check::expected(
                HostCallSpec::FindSymbol { name: "GetPjrtApi\0"@ },
                "GetPjrtApi symbol"@,
            ).and_then(Pjrt::symbol_found())
    }

    pub open spec fn symbol_found() -> spec_fn(ReplySpec) -> Protocol<Pjrt> {
        |found: ReplySpec|
            Protocol::Call(CallSpec::Host(HostCallSpec::CallSymbol), Pjrt::table_returned())
    }

    pub open spec fn table_returned() -> spec_fn(ReplySpec) -> Protocol<Pjrt> {
        |reply: ReplySpec|
            if reply.object == 0 {
                Protocol::Fail("GetPjrtApi returned null"@)
            } else {
                Protocol::Return(Pjrt { api: reply.object })
            }
    }

    /// Opens the plugin and fetches its function table.
    pub fn load<'a>() -> (step: Step<'a, Load>)
        ensures
            step.follows(Pjrt::load_protocol()),
            forall|transcript: Seq<Exchange>, pjrt: Pjrt| #[trigger]
                step.completes(transcript, pjrt) ==> crate::exchanges::loads(transcript, pjrt),
            forall|transcript: Seq<Exchange>, message: Seq<char>| #[trigger]
                step.aborts(transcript, message) ==> crate::failures::accounted(
                    transcript,
                    Some(message),
                ),
    {
        let step = Load::finding(plugin_path());
        proof {
            let protocol = Pjrt::load_protocol();
            crate::transcript::lemma_runs(step, protocol);
            assert forall|transcript: Seq<Exchange>, pjrt: Pjrt| #[trigger]
                step.completes(transcript, pjrt) implies crate::exchanges::loads(
                    transcript,
                    pjrt,
                ) by {
                crate::exchanges::law_load(transcript, pjrt);
            }
            crate::failures::law_opening_fails_for_a_reason(
                None,
                SessionOptions::unset(),
                Pjrt { api: 0 },
            );
            crate::failures::lemma_reasons(protocol);
        }
        step
    }
}

/// A plugin that is being loaded.
pub struct Load {
    stage: LoadStage,
}

enum LoadStage {
    Finding(PluginPath),
    Opening(Expected),
    LookingUp(Expected),
    Calling,
}

impl Load {
    fn finding<'a>(step: Step<'a, PluginPath>) -> (next: Step<'a, Load>)
        ensures
            forall|protocol: Protocol<Seq<char>>| #[trigger]
                step.follows(protocol) ==> next.follows(protocol.and_then(Pjrt::path_known())),
    {
        match step {
            Step::Call(call, task) => Step::Call(call, Load { stage: LoadStage::Finding(task) }),
            Step::Return(path) => {
                Load::opening(expect(HostCall::OpenLibrary { path }, "dlopen GPU plugin"))
            },
            Step::Fail(message) => Step::Fail(message),
        }
    }

    fn opening<'a>(step: Step<'a, Expected>) -> (next: Step<'a, Load>)
        ensures
            forall|protocol: Protocol<ReplySpec>| #[trigger]
                step.follows(protocol) ==> next.follows(protocol.and_then(Pjrt::library_opened())),
    {
        match step {
            Step::Call(call, task) => Step::Call(call, Load { stage: LoadStage::Opening(task) }),
            Step::Return(_) => {
                let call = HostCall::FindSymbol { name: "GetPjrtApi\0" };
                Load::looking_up(expect(call, "GetPjrtApi symbol"))
            },
            Step::Fail(message) => Step::Fail(message),
        }
    }

    fn looking_up<'a>(step: Step<'a, Expected>) -> (next: Step<'a, Load>)
        ensures
            forall|protocol: Protocol<ReplySpec>| #[trigger]
                step.follows(protocol) ==> next.follows(protocol.and_then(Pjrt::symbol_found())),
    {
        match step {
            Step::Call(call, task) => Step::Call(call, Load { stage: LoadStage::LookingUp(task) }),
            Step::Return(_) => {
                Step::Call(Call::Host(HostCall::CallSymbol), Load { stage: LoadStage::Calling })
            },
            Step::Fail(message) => Step::Fail(message),
        }
    }
}

impl Suspended for Load {
    type Output = Pjrt;

    closed spec fn after(&self, reply: ReplySpec) -> Protocol<Pjrt> {
        match self.stage {
            LoadStage::Finding(task) => task.after(reply).and_then(Pjrt::path_known()),
            LoadStage::Opening(task) => task.after(reply).and_then(Pjrt::library_opened()),
            LoadStage::LookingUp(task) => task.after(reply).and_then(Pjrt::symbol_found()),
            LoadStage::Calling => Pjrt::table_returned()(reply),
        }
    }
}

impl<'a> Task<'a> for Load {
    fn resume(self, reply: Reply) -> (step: Step<'a, Self>) {
        match self.stage {
            LoadStage::Finding(task) => Load::finding(task.resume(reply)),
            LoadStage::Opening(task) => Load::opening(task.resume(reply)),
            LoadStage::LookingUp(task) => Load::looking_up(task.resume(reply)),
            LoadStage::Calling => {
                if reply.object == 0 {
                    Step::Fail("GetPjrtApi returned null".to_owned())
                } else {
                    Step::Return(Pjrt { api: reply.object })
                }
            },
        }
    }
}

// The version of the plugin.

impl Pjrt {
    /// The pair is read from the function table.
    pub open spec fn version_protocol(self) -> Protocol<(i32, i32)> {
        Protocol::Call(
            CallSpec::Plugin { api: self.api, entry: EntrySpec::ApiVersion },
            version_read(),
        )
    }

    /// `(major, minor)` version reported by the plugin.
    pub fn version<'a>(&self) -> (step: Step<'a, Version>)
        ensures
            step.follows(self.version_protocol()),
            forall|transcript: Seq<Exchange>, version: (i32, i32)| #[trigger]
                step.completes(transcript, version) ==> crate::exchanges::tells_version(
                    *self,
                    transcript,
                    version,
                ),
            forall|transcript: Seq<Exchange>, message: Seq<char>| #[trigger]
                step.aborts(transcript, message) ==> crate::failures::accounted(
                    transcript,
                    Some(message),
                ),
    {
        let call = Call::Plugin { api: self.api, entry: Entry::ApiVersion };
        let step = Step::Call(call, Version { });
        proof {
            let protocol = self.version_protocol();
            crate::transcript::lemma_runs(step, protocol);
            assert forall|transcript: Seq<Exchange>, version: (i32, i32)| #[trigger]
                step.completes(transcript, version) implies crate::exchanges::tells_version(
                    *self,
                    transcript,
                    version,
                ) by {
                crate::exchanges::law_version(*self, transcript, version);
            }
            crate::failures::law_opening_fails_for_a_reason(None, SessionOptions::unset(), *self);
            crate::failures::lemma_reasons(protocol);
        }
        step
    }
}

pub open spec fn version_read() -> spec_fn(ReplySpec) -> Protocol<(i32, i32)> {
    |reply: ReplySpec| Protocol::Return(reply.version)
}

/// A version that is being read.
pub struct Version {}

impl Suspended for Version {
    type Output = (i32, i32);

    closed spec fn after(&self, reply: ReplySpec) -> Protocol<(i32, i32)> {
        version_read()(reply)
    }
}

impl<'a> Task<'a> for Version {
    fn resume(self, reply: Reply) -> (step: Step<'a, Self>) {
        Step::Return(reply.version)
    }
}

// The plugin of the process.

impl Pjrt {
    /// One call.
    pub open spec fn plugin_initialize_protocol(self) -> Protocol<()> {
        crate::check::acknowledged(
            self.api,
            EntrySpec::PluginInitialize,
            "Plugin_Initialize"@,
        )
    }

    /// Initializes the plugin, which is done once after it is loaded.
    pub(crate) fn plugin_initialize<'a>(&self) -> (step: Step<'a, Acknowledged>)
        ensures
            step.follows(self.plugin_initialize_protocol()),
    {
        acknowledge(self.api, Entry::PluginInitialize, "Plugin_Initialize")
    }
}

/// A plugin that the process has loaded is used as it is; otherwise one is
/// loaded and initialized.
pub open spec fn shared_pjrt_protocol(loaded: Option<Pjrt>) -> Protocol<Pjrt> {
    match loaded {
        Some(pjrt) => Protocol::Return(pjrt),
        None => Pjrt::load_protocol().and_then(plugin_loaded()),
    }
}

pub open spec fn plugin_loaded() -> spec_fn(Pjrt) -> Protocol<Pjrt> {
    |pjrt: Pjrt| pjrt.plugin_initialize_protocol().and_then(plugin_started(pjrt))
}

pub open spec fn plugin_started(pjrt: Pjrt) -> spec_fn(()) -> Protocol<Pjrt> {
    |initialized: ()| Protocol::Return(pjrt)
}

/// The plugin that every session of the process shares. It is process-global:
/// it initializes once and keeps threads alive past any client, so the caller
/// keeps what this returns and passes it the next time.
pub fn shared_pjrt<'a>(loaded: Option<Pjrt>) -> (step: Step<'a, SharedPjrt>)
    ensures
        step.follows(shared_pjrt_protocol(loaded)),
        forall|transcript: Seq<Exchange>, pjrt: Pjrt| #[trigger]
            step.completes(transcript, pjrt) ==> crate::exchanges::shares(loaded, transcript, pjrt),
        forall|transcript: Seq<Exchange>, message: Seq<char>| #[trigger]
            step.aborts(transcript, message) ==> crate::failures::accounted(
                transcript,
                Some(message),
            ),
{
    let step = match loaded {
        Some(pjrt) => Step::Return(pjrt),
        None => SharedPjrt::loading(Pjrt::load()),
    };
    proof {
        let protocol = shared_pjrt_protocol(loaded);
        crate::transcript::lemma_runs(step, protocol);
        assert forall|transcript: Seq<Exchange>, pjrt: Pjrt| #[trigger]
            step.completes(transcript, pjrt) implies crate::exchanges::shares(
                loaded,
                transcript,
                pjrt,
            ) by {
            crate::exchanges::law_shared_plugin(loaded, transcript, pjrt);
        }
        crate::failures::law_opening_fails_for_a_reason(
            loaded,
            SessionOptions::unset(),
            Pjrt { api: 0 },
        );
        crate::failures::lemma_reasons(protocol);
    }
    step
}

/// The process's plugin, on its way.
pub struct SharedPjrt {
    stage: SharedStage,
}

enum SharedStage {
    Loading(Load),
    Starting { pjrt: Pjrt, task: Acknowledged },
}

impl SharedPjrt {
    fn loading<'a>(step: Step<'a, Load>) -> (next: Step<'a, SharedPjrt>)
        ensures
            forall|protocol: Protocol<Pjrt>| #[trigger]
                step.follows(protocol) ==> next.follows(protocol.and_then(plugin_loaded())),
    {
        match step {
            Step::Call(call, task) => {
                Step::Call(call, SharedPjrt { stage: SharedStage::Loading(task) })
            },
            Step::Return(pjrt) => SharedPjrt::starting(pjrt, pjrt.plugin_initialize()),
            Step::Fail(message) => Step::Fail(message),
        }
    }

    fn starting<'a>(pjrt: Pjrt, step: Step<'a, Acknowledged>) -> (next: Step<'a, SharedPjrt>)
        ensures
            forall|protocol: Protocol<()>| #[trigger]
                step.follows(protocol) ==> next.follows(protocol.and_then(plugin_started(pjrt))),
    {
        match step {
            Step::Call(call, task) => {
                Step::Call(call, SharedPjrt { stage: SharedStage::Starting { pjrt, task } })
            },
            Step::Return(_) => Step::Return(pjrt),
            Step::Fail(message) => Step::Fail(message),
        }
    }
}

impl Suspended for SharedPjrt {
    type Output = Pjrt;

    closed spec fn after(&self, reply: ReplySpec) -> Protocol<Pjrt> {
        match self.stage {
            SharedStage::Loading(task) => task.after(reply).and_then(plugin_loaded()),
            SharedStage::Starting { pjrt, task } => task.after(reply).and_then(
                plugin_started(pjrt),
            ),
        }
    }
}

impl<'a> Task<'a> for SharedPjrt {
    fn resume(self, reply: Reply) -> (step: Step<'a, Self>) {
        match self.stage {
            SharedStage::Loading(task) => SharedPjrt::loading(task.resume(reply)),
            SharedStage::Starting { pjrt, task } => {
                SharedPjrt::starting(pjrt, task.resume(reply))
            },
        }
    }
}

} // verus!
