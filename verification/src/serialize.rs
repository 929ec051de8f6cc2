//! Executables: their serialized form, and releasing them.

use vstd::prelude::*;

use crate::call::{Call, CallSpec, Entry, EntrySpec, Reply, ReplySpec};
use crate::check::{check, Checked};
use crate::client::Compile;
use crate::handles::{Client, ClientSpec};
use crate::protocol::{Protocol, Step, Suspended, Task};

verus! {

broadcast use crate::protocol::lemma_and_then;

// Serializing.

impl ClientSpec {
    /// The executable behind the loaded one is fetched and serialized. Then
    /// what holds the bytes is deleted, if it comes with a deleter, and the
    /// executable that was fetched is destroyed.
    pub open spec fn serialize_protocol(self, executable: usize) -> Protocol<Seq<u8>> {
        crate::check::checked(
            self.api,
            EntrySpec::LoadedExecutableGetExecutable { executable },
            "GetExecutable"@,
        ).and_then(self.executable_fetched())
    }

    pub open spec fn executable_fetched(self) -> spec_fn(ReplySpec) -> Protocol<Seq<u8>> {
        |fetched: ReplySpec|
            crate::check::checked(
                self.api,
                EntrySpec::ExecutableSerialize { executable: fetched.object },
                "Executable_Serialize"@,
            ).and_then(self.executable_serialized(fetched.object))
    }

    pub open spec fn executable_serialized(self, executable: usize) -> spec_fn(
        ReplySpec,
    ) -> Protocol<Seq<u8>> {
        |reply: ReplySpec|
            if reply.deleter != 0 {
                Protocol::Call(
                    CallSpec::Plugin {
                        api: self.api,
                        entry: EntrySpec::SerializedExecutableDelete {
                            deleter: reply.deleter,
                            serialized: reply.object,
                        },
                    },
                    self.bytes_deleted(executable, reply.bytes),
                )
            } else {
                self.fetched_destroyed(executable, reply.bytes)
            }
    }

    pub open spec fn bytes_deleted(self, executable: usize, bytes: Seq<u8>) -> spec_fn(
        ReplySpec,
    ) -> Protocol<Seq<u8>> {
        |deleted: ReplySpec| self.fetched_destroyed(executable, bytes)
    }

    pub open spec fn fetched_destroyed(self, executable: usize, bytes: Seq<u8>) -> Protocol<
        Seq<u8>,
    > {
        Protocol::Call(
            CallSpec::Plugin { api: self.api, entry: EntrySpec::ExecutableDestroy { executable } },
            bytes_returned(bytes),
        )
    }
}

pub open spec fn bytes_returned(bytes: Seq<u8>) -> spec_fn(ReplySpec) -> Protocol<Seq<u8>> {
    |destroyed: ReplySpec| Protocol::Return(bytes)
}

impl Client {
    /// The serialized form of an executable.
    pub(crate) fn serialize<'a>(&self, executable: usize) -> (step: Step<'a, Serialize>)
        ensures
            step.follows(self@.serialize_protocol(executable)),
    {
        let entry = Entry::LoadedExecutableGetExecutable { executable };
        Serialize::fetching(self.duplicate(), check(self.api(), entry, "GetExecutable"))
    }
}

/// An executable that is being serialized.
pub struct Serialize {
    client: Client,
    stage: SerializeStage,
}

enum SerializeStage {
    Fetching(Checked),
    Serializing { executable: usize, task: Checked },
    Deleting { executable: usize, bytes: Vec<u8> },
    Destroying { bytes: Vec<u8> },
}

impl Serialize {
    fn fetching<'a>(client: Client, step: Step<'a, Checked>) -> (next: Step<'a, Serialize>)
        ensures
            forall|protocol: Protocol<ReplySpec>| #[trigger]
                step.follows(protocol) ==> next.follows(
                    protocol.and_then(client@.executable_fetched()),
                ),
    {
        match step {
            Step::Call(call, task) => {
                Step::Call(call, Serialize { client, stage: SerializeStage::Fetching(task) })
            },
            Step::Return(reply) => {
                let executable = reply.object;
                let entry = Entry::ExecutableSerialize { executable };
                let step = check(client.api(), entry, "Executable_Serialize");
                Serialize::serializing(client, executable, step)
            },
            Step::Fail(message) => Step::Fail(message),
        }
    }

    fn serializing<'a>(client: Client, executable: usize, step: Step<'a, Checked>) -> (next: Step<
        'a,
        Serialize,
    >)
        ensures
            forall|protocol: Protocol<ReplySpec>| #[trigger]
                step.follows(protocol) ==> next.follows(
                    protocol.and_then(client@.executable_serialized(executable)),
                ),
    {
        match step {
            Step::Call(call, task) => {
                let stage = SerializeStage::Serializing { executable, task };
                Step::Call(call, Serialize { client, stage })
            },
            Step::Return(reply) => {
                if reply.deleter != 0 {
                    let entry = Entry::SerializedExecutableDelete {
                        deleter: reply.deleter,
                        serialized: reply.object,
                    };
                    let stage = SerializeStage::Deleting { executable, bytes: reply.bytes };
                    let api = client.api();
                    Step::Call(Call::Plugin { api, entry }, Serialize { client, stage })
                } else {
                    Serialize::destroying(client, executable, reply.bytes)
                }
            },
            Step::Fail(message) => Step::Fail(message),
        }
    }

    fn destroying<'a>(client: Client, executable: usize, bytes: Vec<u8>) -> (next: Step<
        'a,
        Serialize,
    >)
        ensures
            next.follows(client@.fetched_destroyed(executable, bytes@)),
    {
        let api = client.api();
        Step::Call(
            Call::Plugin { api, entry: Entry::ExecutableDestroy { executable } },
            Serialize { client, stage: SerializeStage::Destroying { bytes } },
        )
    }
}

impl Suspended for Serialize {
    type Output = Vec<u8>;

    closed spec fn after(&self, reply: ReplySpec) -> Protocol<Seq<u8>> {
        match self.stage {
            SerializeStage::Fetching(task) => task.after(reply).and_then(
                self.client@.executable_fetched(),
            ),
            SerializeStage::Serializing { executable, task } => task.after(reply).and_then(
                self.client@.executable_serialized(executable),
            ),
            SerializeStage::Deleting { executable, bytes } => self.client@.bytes_deleted(
                executable,
                bytes@,
            )(reply),
            SerializeStage::Destroying { bytes } => bytes_returned(bytes@)(reply),
        }
    }
}

impl<'a> Task<'a> for Serialize {
    fn resume(self, reply: Reply) -> (step: Step<'a, Self>) {
        let Serialize { client, stage } = self;
        match stage {
            SerializeStage::Fetching(task) => Serialize::fetching(client, task.resume(reply)),
            SerializeStage::Serializing { executable, task } => {
                Serialize::serializing(client, executable, task.resume(reply))
            },
            SerializeStage::Deleting { executable, bytes } => {
                Serialize::destroying(client, executable, bytes)
            },
            SerializeStage::Destroying { bytes } => {
                proof {
                    crate::transfer::lemma_bytes(bytes);
                }
                Step::Return(bytes)
            },
        }
    }
}

// Loading what was serialized.

impl ClientSpec {
    /// One call, with the bytes.
    pub open spec fn deserialize_and_load_protocol(self, bytes: Seq<u8>) -> Protocol<usize> {
        crate::check::checked(
            self.api,
            EntrySpec::ExecutableDeserializeAndLoad { client: self.client, bytes },
            "Executable_DeserializeAndLoad"@,
        ).and_then(crate::client::object_returned())
    }
}

impl Client {
    /// Loads an executable from its serialized form.
    pub(crate) fn deserialize_and_load<'a>(&self, bytes: &'a [u8]) -> (step: Step<'a, Compile>)
        ensures
            step.follows(self@.deserialize_and_load_protocol(bytes@)),
    {
        let entry = Entry::ExecutableDeserializeAndLoad { client: self.client(), bytes };
        Compile::calling(check(self.api(), entry, "Executable_DeserializeAndLoad"))
    }
}

// Releasing an executable.

impl ClientSpec {
    /// One call, whose reply is not looked at.
    pub open spec fn free_executable_protocol(self, executable: usize) -> Protocol<()> {
        Protocol::Call(
            CallSpec::Plugin {
                api: self.api,
                entry: EntrySpec::LoadedExecutableDestroy { executable },
            },
            crate::check::nothing_returned(),
        )
    }
}

impl Client {
    /// Releases a compiled executable's device state.
    pub(crate) fn free_executable<'a>(&self, executable: usize) -> (step: Step<'a, FreeExecutable>)
        ensures
            step.follows(self@.free_executable_protocol(executable)),
    {
        let entry = Entry::LoadedExecutableDestroy { executable };
        Step::Call(Call::Plugin { api: self.api(), entry }, FreeExecutable {  })
    }
}

/// An executable that is being released.
pub struct FreeExecutable {}

impl Suspended for FreeExecutable {
    type Output = ();

    closed spec fn after(&self, reply: ReplySpec) -> Protocol<()> {
        Protocol::Return(())
    }
}

impl<'a> Task<'a> for FreeExecutable {
    fn resume(self, _reply: Reply) -> (step: Step<'a, Self>) {
        Step::Return(())
    }
}

} // verus!
