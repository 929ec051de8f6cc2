//! Sessions on a plugin that is simulated call by call.

use std::collections::BTreeMap;
use xla_pjrt::call::{Call, Entry, HostBufferSemantics, HostCall, Reply};
use xla_pjrt::memory::MemoryReport;
use xla_pjrt::options::{FloatBits, NamedValue, OptionValue};
use xla_pjrt::plugin::shared_pjrt;
use xla_pjrt::protocol::{Step, Task};
use xla_pjrt::{
    plugin_path, run_bytecode, AllocatorKind, Buffer, Executable, Pjrt, Session, SessionOptions,
};

const F32: u32 = 11;
const API: usize = 0x1000;
const CLIENT: usize = 0x2000;
const DEVICE: usize = 0x3000;

/// `f(x) = x + x`.
const DOUBLE: &str = r#"
module {
  func.func @main(%arg0: tensor<4xf32>) -> tensor<4xf32> {
    %0 = stablehlo.add %arg0, %arg0 : tensor<4xf32>
    return %0 : tensor<4xf32>
  }
}
"#;

/// `f(x, y) = x - y`.
const SUB: &str = r#"
module {
  func.func @main(%arg0: tensor<4xf32>, %arg1: tensor<4xf32>) -> tensor<4xf32> {
    %0 = stablehlo.subtract %arg0, %arg1 : tensor<4xf32>
    return %0 : tensor<4xf32>
  }
}
"#;

/// `f() = 7`.
const SEVEN: &str = r#"
module {
  func.func @main() -> tensor<1xf32> {
    %0 = stablehlo.constant dense<7.0> : tensor<1xf32>
    return %0 : tensor<1xf32>
  }
}
"#;

fn as_bytes(v: &[f32]) -> Vec<u8> {
    v.iter().flat_map(|x| x.to_le_bytes()).collect()
}

fn as_f32(bytes: &[u8]) -> Vec<f32> {
    bytes.chunks_exact(4).map(|c| f32::from_le_bytes(c.try_into().unwrap())).collect()
}

#[derive(Default)]
struct Plugin {
    next: usize,
    clients: Vec<usize>,
    /// The client whose devices were last asked for.
    asked: usize,
    buffers: BTreeMap<usize, Vec<u8>>,
    executables: BTreeMap<usize, Vec<u8>>,
    fetched: BTreeMap<usize, Vec<u8>>,
    events: Vec<usize>,
    errors: BTreeMap<usize, Vec<u8>>,
    serialized: Vec<usize>,
    host: Vec<u8>,
    clock: u64,
    options: Vec<NamedValue>,
    initialized: usize,
    /// The entry point that fails, and with which message.
    refuse: Option<(&'static str, Vec<u8>)>,
    /// The host call that fails, and why.
    deny: Option<(&'static str, &'static str)>,
    no_table: bool,
    no_devices: bool,
    no_deleter: bool,
    no_events: bool,
    /// How many of an execution's outputs are filled in.
    outputs: Option<usize>,
    peak: i64,
    log: Vec<String>,
}

impl Plugin {
    fn fresh(&mut self) -> usize {
        self.next += 1;
        0x10000 + self.next
    }

    fn event(&mut self) -> usize {
        if self.no_events {
            return 0;
        }
        let event = self.fresh();
        self.events.push(event);
        event
    }

    fn held(&self) -> i64 {
        self.buffers.values().map(|b| b.len() as i64).sum()
    }

    fn keep(&mut self, bytes: Vec<u8>) -> usize {
        let buffer = self.fresh();
        self.buffers.insert(buffer, bytes);
        self.peak = self.peak.max(self.held());
        buffer
    }

    fn name(entry: &Entry) -> &'static str {
        match entry {
            Entry::ApiVersion => "ApiVersion",
            Entry::ErrorMessage { .. } => "ErrorMessage",
            Entry::ErrorDestroy { .. } => "ErrorDestroy",
            Entry::PluginInitialize => "PluginInitialize",
            Entry::EventAwait { .. } => "EventAwait",
            Entry::EventDestroy { .. } => "EventDestroy",
            Entry::ClientCreate { .. } => "ClientCreate",
            Entry::ClientAddressableDevices { .. } => "ClientAddressableDevices",
            Entry::ClientCompile { .. } => "ClientCompile",
            Entry::ClientBufferFromHostBuffer { .. } => "ClientBufferFromHostBuffer",
            Entry::DeviceMemoryStats { .. } => "DeviceMemoryStats",
            Entry::LoadedExecutableExecute { .. } => "LoadedExecutableExecute",
            Entry::LoadedExecutableGetExecutable { .. } => "LoadedExecutableGetExecutable",
            Entry::LoadedExecutableDestroy { .. } => "LoadedExecutableDestroy",
            Entry::ExecutableSerialize { .. } => "ExecutableSerialize",
            Entry::SerializedExecutableDelete { .. } => "SerializedExecutableDelete",
            Entry::ExecutableDestroy { .. } => "ExecutableDestroy",
            Entry::ExecutableDeserializeAndLoad { .. } => "ExecutableDeserializeAndLoad",
            Entry::BufferDestroy { .. } => "BufferDestroy",
            Entry::BufferToHostBuffer { dst_size: None, .. } => "BufferToHostBuffer(size)",
            Entry::BufferToHostBuffer { .. } => "BufferToHostBuffer",
        }
    }

    fn enter(&mut self, api: usize, entry: Entry) -> Reply {
        assert_eq!(api, API);
        let name = Plugin::name(&entry);
        self.log.push(name.to_string());
        let mut reply = Reply::default();
        if let Some((refused, message)) = self.refuse.clone() {
            if refused == name {
                reply.error = self.fresh();
                self.errors.insert(reply.error, message);
                return reply;
            }
        }
        match entry {
            Entry::ApiVersion => reply.version = (0, 104),
            Entry::ErrorMessage { error } => reply.bytes = self.errors[&error].clone(),
            Entry::ErrorDestroy { error } => assert!(self.errors.remove(&error).is_some()),
            Entry::PluginInitialize => self.initialized += 1,
            Entry::EventAwait { event } => assert!(self.events.contains(&event)),
            Entry::EventDestroy { event } => {
                let at = self.events.iter().position(|e| *e == event).unwrap();
                self.events.remove(at);
            }
            Entry::ClientCreate { options } => {
                self.options = options;
                reply.object = CLIENT + self.clients.len();
                self.clients.push(reply.object);
            }
            Entry::ClientAddressableDevices { client } => {
                assert!(self.clients.contains(&client));
                self.asked = client;
                reply.objects = if self.no_devices { vec![] } else { vec![DEVICE, 77] };
            }
            Entry::ClientCompile { client, code, format, compile_options } => {
                assert!(self.clients.contains(&client));
                assert_eq!(format, "mlir");
                assert_eq!(compile_options, vec![0x1A, 0x04, 0x20, 0x01, 0x28, 0x01]);
                reply.object = self.fresh();
                self.executables.insert(reply.object, code.to_vec());
            }
            Entry::ClientBufferFromHostBuffer {
                client,
                data,
                dims,
                elem_type,
                semantics,
                device,
            } => {
                assert!(self.clients.contains(&client));
                assert_eq!((device, elem_type), (DEVICE, F32));
                assert_eq!(semantics, HostBufferSemantics::ImmutableUntilTransferCompletes);
                assert_eq!(dims.iter().product::<i64>() * 4, data.len() as i64);
                reply.object = self.keep(data.to_vec());
                reply.event = self.event();
            }
            Entry::DeviceMemoryStats { device } => {
                assert_eq!(device, DEVICE);
                reply.report = MemoryReport {
                    bytes_in_use: self.held(),
                    peak_bytes_in_use: self.peak,
                    peak_bytes_in_use_is_set: true,
                    peak_pool_bytes: self.peak + 64,
                    peak_pool_bytes_is_set: true,
                    ..MemoryReport::zeroed()
                };
            }
            Entry::LoadedExecutableExecute { executable, num_devices, arguments, num_outputs } => {
                assert_eq!(num_devices, 1);
                assert!(self.events.is_empty(), "a transfer is still under way");
                let code = String::from_utf8(self.executables[&executable].clone()).unwrap();
                let given: Vec<Vec<f32>> =
                    arguments.iter().map(|b| as_f32(&self.buffers[b])).collect();
                let result: Vec<f32> = if code.contains("stablehlo.constant") {
                    assert!(given.is_empty());
                    vec![7.0]
                } else if code.contains("stablehlo.add") {
                    given[0].iter().map(|x| x + x).collect()
                } else {
                    given[0].iter().zip(&given[1]).map(|(x, y)| x - y).collect()
                };
                for _ in 0..self.outputs.unwrap_or(num_outputs) {
                    let output = self.keep(as_bytes(&result));
                    reply.objects.push(output);
                }
            }
            Entry::LoadedExecutableGetExecutable { executable } => {
                reply.object = self.fresh();
                self.fetched.insert(reply.object, self.executables[&executable].clone());
            }
            Entry::LoadedExecutableDestroy { executable } => {
                assert!(self.executables.remove(&executable).is_some());
            }
            Entry::ExecutableSerialize { executable } => {
                reply.bytes = self.fetched[&executable].iter().rev().copied().collect();
                reply.object = self.fresh();
                if !self.no_deleter {
                    reply.deleter = 0x4000;
                    self.serialized.push(reply.object);
                }
            }
            Entry::SerializedExecutableDelete { deleter, serialized } => {
                assert_eq!(deleter, 0x4000);
                assert_eq!(self.serialized.pop(), Some(serialized));
            }
            Entry::ExecutableDestroy { executable } => {
                assert!(self.fetched.remove(&executable).is_some());
            }
            Entry::ExecutableDeserializeAndLoad { client, bytes } => {
                assert!(self.clients.contains(&client));
                reply.object = self.fresh();
                self.executables.insert(reply.object, bytes.iter().rev().copied().collect());
            }
            Entry::BufferDestroy { buffer } => {
                assert!(self.buffers.remove(&buffer).is_some());
            }
            Entry::BufferToHostBuffer { src, dst_size: None } => {
                reply.size = self.buffers[&src].len();
            }
            Entry::BufferToHostBuffer { src, dst_size: Some(size) } => {
                assert_eq!(size, self.buffers[&src].len());
                self.host = self.buffers[&src].clone();
                reply.event = self.event();
            }
        }
        reply
    }

    fn ask(&mut self, call: HostCall) -> Reply {
        let mut reply = Reply::default();
        let name = match &call {
            HostCall::ReadVariable { .. } => "ReadVariable",
            HostCall::OpenLibrary { .. } => "OpenLibrary",
            HostCall::FindSymbol { .. } => "FindSymbol",
            HostCall::CallSymbol => "CallSymbol",
            HostCall::ReadClock => "ReadClock",
            HostCall::TakeHostBytes { .. } => "TakeHostBytes",
        };
        self.log.push(name.to_string());
        if let Some((denied, reason)) = self.deny {
            if denied == name {
                reply.failure = Some(reason.to_string());
                return reply;
            }
        }
        match call {
            HostCall::ReadVariable { name } => {
                assert_eq!(name, "XLA_PJRT_PLUGIN");
                reply.text = "/plugin.so".to_string();
            }
            HostCall::OpenLibrary { path } => assert_eq!(path, "/plugin.so"),
            HostCall::FindSymbol { name } => assert_eq!(name.as_bytes(), b"GetPjrtApi\0"),
            HostCall::CallSymbol => reply.object = if self.no_table { 0 } else { API },
            HostCall::ReadClock => {
                self.clock = self.clock * 2 + 100;
                reply.nanos = self.clock;
            }
            HostCall::TakeHostBytes { size } => {
                assert!(self.events.is_empty(), "the copy is still under way");
                assert_eq!(size, self.host.len());
                reply.bytes = std::mem::take(&mut self.host);
            }
        }
        reply
    }

    fn drive<'a, T: Task<'a>>(&mut self, step: Step<'a, T>) -> Result<T::Output, String> {
        let mut step = step;
        loop {
            step = match step {
                Step::Call(Call::Plugin { api, entry }, task) => {
                    let reply = self.enter(api, entry);
                    task.resume(reply)
                }
                Step::Call(Call::Host(call), task) => {
                    let reply = self.ask(call);
                    task.resume(reply)
                }
                Step::Return(value) => return Ok(value),
                Step::Fail(message) => return Err(message),
            };
        }
    }

    fn session(&mut self) -> Session {
        let session = self.drive(Session::new(None)).unwrap();
        self.log.clear();
        session
    }

    fn compile(&mut self, session: &Session, code: &str) -> Executable {
        self.drive(session.compile(code.as_bytes())).unwrap()
    }

    fn upload(&mut self, session: &Session, values: &[f32]) -> Buffer {
        let data = as_bytes(values);
        let dims = [values.len() as i64];
        self.drive(session.input_buffer(&data, &dims, F32)).unwrap()
    }

    fn refuse(&mut self, entry: &'static str, message: &[u8]) {
        self.refuse = Some((entry, message.to_vec()));
    }

    fn settled(&self) -> bool {
        self.errors.is_empty()
    }
}

// What sessions are for.

#[test]
fn an_executable_runs_on_a_client_that_allocates_asynchronously() {
    let mut plugin = Plugin::default();
    let session = plugin
        .drive(Session::with_options(
            None,
            SessionOptions {
                preallocate: Some(true),
                memory_fraction: Some(FloatBits(0.1f32.to_bits())),
                eager_load_executable_modules: None,
                staging_threshold_bytes: None,
                allocator: Some(AllocatorKind::CudaAsync),
            },
        ))
        .unwrap();
    let names: Vec<&str> = plugin.options.iter().map(|o| o.name).collect();
    assert_eq!(names, vec!["preallocate", "memory_fraction", "allocator"]);
    assert_eq!(plugin.options[2].value, OptionValue::Text("cuda_async"));

    let compiled = plugin.compile(&session, DOUBLE);
    let input = plugin.upload(&session, &[1.0, 2.0, 3.0, 4.0]);
    let out = plugin.drive(session.run_buffers(&compiled, &[&input], 1)).unwrap();

    assert_eq!(as_f32(&out[0]), vec![2.0, 4.0, 6.0, 8.0]);

    plugin.drive(session.free_buffer(input)).unwrap();
    plugin.drive(session.free_executable(compiled)).unwrap();
    assert!(plugin.buffers.is_empty());
    assert!(plugin.executables.is_empty());
}

#[test]
fn device_output_feeds_the_next_execution() {
    let mut plugin = Plugin::default();
    let session = plugin.session();
    let exe = plugin.compile(&session, DOUBLE);

    let input = plugin.upload(&session, &[1.0, 2.0, 3.0, 4.0]);

    let mut mid = plugin.drive(session.run_buffers_to_device(&exe, &[&input], 1)).unwrap();
    assert_eq!(mid.len(), 1);
    let mid = mid.pop().unwrap();

    let out = plugin.drive(session.run_buffers(&exe, &[&mid], 1)).unwrap();
    assert_eq!(as_f32(&out[0]), vec![4.0, 8.0, 12.0, 16.0]);

    plugin.drive(session.free_buffer(mid)).unwrap();
    plugin.drive(session.free_buffer(input)).unwrap();
    assert!(plugin.buffers.is_empty());
}

#[test]
fn one_output_reads_back_without_the_others() {
    let mut plugin = Plugin::default();
    let session = plugin.session();
    let exe = plugin.compile(&session, DOUBLE);
    let input = plugin.upload(&session, &[1.0, 2.0, 3.0, 4.0]);

    let mut outs = plugin.drive(session.run_buffers_to_device(&exe, &[&input], 1)).unwrap();
    let out = outs.pop().unwrap();
    let bytes = plugin.drive(session.buffer_to_host(&out)).unwrap();
    assert_eq!(as_f32(&bytes), vec![2.0, 4.0, 6.0, 8.0]);

    // Still usable afterwards: reading is a copy, not a move.
    let again = plugin.drive(session.run_buffers(&exe, &[&out], 1)).unwrap();
    assert_eq!(as_f32(&again[0]), vec![4.0, 8.0, 12.0, 16.0]);

    plugin.drive(session.free_buffer(out)).unwrap();
    plugin.drive(session.free_buffer(input)).unwrap();
}

#[test]
fn a_deserialized_executable_runs_under_eager_module_loads() {
    let mut plugin = Plugin::default();
    let session = plugin
        .drive(Session::with_options(
            None,
            SessionOptions {
                preallocate: Some(false),
                memory_fraction: None,
                eager_load_executable_modules: Some(true),
                staging_threshold_bytes: None,
                allocator: None,
            },
        ))
        .unwrap();
    assert_eq!(plugin.options.len(), 2);
    assert_eq!(plugin.options[1].name, "eager_load_executable_modules");
    assert_eq!(plugin.options[1].value, OptionValue::Bool(true));

    let compiled = plugin.compile(&session, DOUBLE);
    let bytes = plugin.drive(session.serialize(&compiled)).unwrap();
    let exe = plugin.drive(session.deserialize_and_load(&bytes)).unwrap();

    let input = plugin.upload(&session, &[1.0, 2.0, 3.0, 4.0]);
    let out = plugin.drive(session.run_buffers(&exe, &[&input], 1)).unwrap();
    assert_eq!(as_f32(&out[0]), vec![2.0, 4.0, 6.0, 8.0]);

    plugin.drive(session.free_buffer(input)).unwrap();
    plugin.drive(session.free_executable(exe)).unwrap();
    plugin.drive(session.free_executable(compiled)).unwrap();
}

#[test]
fn repeated_runs_leave_no_device_memory_behind() {
    let mut plugin = Plugin::default();
    let session = plugin.session();
    let exe = plugin.compile(&session, DOUBLE);
    let input = plugin.upload(&session, &[1.0, 2.0]);
    for _ in 0..64 {
        let out = plugin.drive(session.run_buffers(&exe, &[&input], 3)).unwrap();
        assert_eq!(out.len(), 3);
        assert_eq!(plugin.buffers.len(), 1);
    }
}

#[test]
fn a_session_that_has_run_tells_what_its_allocator_held() {
    let mut plugin = Plugin::default();
    let session = plugin.session();
    let exe = plugin.compile(&session, DOUBLE);
    let input = plugin.upload(&session, &[1.0, 2.0, 3.0, 4.0]);
    let _ = plugin.drive(session.run_buffers(&exe, &[&input], 1)).unwrap();
    let stats = plugin.drive(session.memory_stats()).unwrap().unwrap();
    assert_eq!(stats.bytes_in_use, 16);
    assert_eq!(stats.peak_bytes_in_use, Some(32));
    assert_eq!(stats.pool_bytes, None);
}

#[test]
fn the_peak_never_falls_and_the_pool_covers_it() {
    let mut plugin = Plugin::default();
    let session = plugin.session();
    let exe = plugin.compile(&session, DOUBLE);
    let before = plugin.drive(session.memory_stats()).unwrap().unwrap();
    let input = plugin.upload(&session, &[1.0, 2.0, 3.0, 4.0]);
    let _ = plugin.drive(session.run_buffers(&exe, &[&input], 1)).unwrap();
    plugin.drive(session.free_buffer(input)).unwrap();
    let after = plugin.drive(session.memory_stats()).unwrap().unwrap();
    assert_eq!(before.peak_bytes_in_use, Some(0));
    assert_eq!((after.bytes_in_use, after.peak_bytes_in_use), (0, Some(32)));
    assert_eq!(after.peak_pool_bytes, Some(96));
    assert!(after.peak_bytes_in_use.unwrap() >= before.peak_bytes_in_use.unwrap_or(0));
    assert!(after.peak_pool_bytes >= after.peak_bytes_in_use);
}

#[test]
fn an_allocator_without_statistics_has_none_to_tell() {
    let mut plugin = Plugin::default();
    let session = plugin.session();
    plugin.refuse("DeviceMemoryStats", b"UNIMPLEMENTED");
    assert_eq!(plugin.drive(session.memory_stats()), Ok(None));
    assert_eq!(plugin.log, vec!["ClientAddressableDevices", "DeviceMemoryStats", "ErrorDestroy"]);
    assert!(plugin.settled());
}

#[test]
fn inputs_arrive_in_their_order() {
    let mut plugin = Plugin::default();
    let session = plugin.session();
    let exe = plugin.compile(&session, SUB);
    let lhs = as_bytes(&[10.0, 20.0, 30.0, 40.0]);
    let rhs = as_bytes(&[1.0, 2.0, 3.0, 4.0]);
    let inputs: Vec<(&[u8], Vec<i64>, u32)> =
        vec![(&lhs, vec![4], F32), (&rhs, vec![2, 2], F32)];
    let out = plugin.drive(session.run(&exe, &inputs, 1)).unwrap();
    assert_eq!(as_f32(&out[0]), vec![9.0, 18.0, 27.0, 36.0]);
    // The buffers of such a run are kept.
    assert_eq!(plugin.buffers.len(), 3);
    assert!(plugin.events.is_empty());
}

#[test]
fn a_run_without_inputs_or_outputs_returns_nothing() {
    let mut plugin = Plugin::default();
    let session = plugin.session();
    let exe = plugin.compile(&session, SEVEN);
    let out = plugin.drive(session.run_buffers(&exe, &[], 0)).unwrap();
    assert!(out.is_empty());
    let out = plugin.drive(session.run(&exe, &[], 0)).unwrap();
    assert!(out.is_empty());
    let kept = plugin.drive(session.run_buffers_to_device(&exe, &[], 0)).unwrap();
    assert!(kept.is_empty());
    assert!(plugin.buffers.is_empty());
}

#[test]
fn a_run_without_inputs_returns_its_outputs() {
    let mut plugin = Plugin::default();
    let session = plugin.session();
    let exe = plugin.compile(&session, SEVEN);
    assert_eq!(plugin.drive(session.run_buffers(&exe, &[], 1)), Ok(vec![as_bytes(&[7.0])]));
    assert_eq!(plugin.drive(session.run(&exe, &[], 1)), Ok(vec![as_bytes(&[7.0])]));
}

#[test]
fn a_run_without_outputs_returns_nothing() {
    let mut plugin = Plugin::default();
    let session = plugin.session();
    let exe = plugin.compile(&session, DOUBLE);
    let input = plugin.upload(&session, &[1.0]);
    let out = plugin.drive(session.run_buffers(&exe, &[&input], 0)).unwrap();
    assert!(out.is_empty());
    let kept = plugin.drive(session.run_buffers_to_device(&exe, &[&input], 0)).unwrap();
    assert!(kept.is_empty());
    assert_eq!(plugin.buffers.len(), 1);
}

#[test]
fn bytecode_is_loaded_compiled_and_run() {
    let mut plugin = Plugin::default();
    let data = as_bytes(&[1.0, 2.0]);
    let inputs: Vec<(&[u8], Vec<i64>, u32)> = vec![(&data, vec![2], F32)];
    let out = plugin.drive(run_bytecode(None, DOUBLE.as_bytes(), &inputs, 2)).unwrap();
    assert_eq!(out.len(), 2);
    assert_eq!(as_f32(&out[1]), vec![2.0, 4.0]);
    assert!(plugin.options.is_empty());
    assert_eq!(
        plugin.log,
        vec![
            "ReadVariable",
            "OpenLibrary",
            "FindSymbol",
            "CallSymbol",
            "PluginInitialize",
            "ClientCreate",
            "ClientCompile",
            "ClientAddressableDevices",
            "ClientBufferFromHostBuffer",
            "EventAwait",
            "EventDestroy",
            "LoadedExecutableExecute",
            "BufferToHostBuffer(size)",
            "BufferToHostBuffer",
            "EventAwait",
            "EventDestroy",
            "TakeHostBytes",
            "BufferToHostBuffer(size)",
            "BufferToHostBuffer",
            "EventAwait",
            "EventDestroy",
            "TakeHostBytes",
        ]
    );
}

// What a device gives back.

#[test]
fn what_was_uploaded_is_read_back_until_it_is_freed() {
    let mut plugin = Plugin::default();
    let session = plugin.session();
    let exe = plugin.compile(&session, DOUBLE);
    let input = plugin.upload(&session, &[1.5, -2.0]);
    let other = plugin.upload(&session, &[7.0, 7.0]);
    assert_eq!(plugin.drive(session.buffer_to_host(&input)), Ok(as_bytes(&[1.5, -2.0])));
    let _ = plugin.drive(session.run_buffers(&exe, &[&input], 1)).unwrap();
    plugin.drive(session.free_buffer(other)).unwrap();
    assert_eq!(plugin.drive(session.buffer_to_host(&input)), Ok(as_bytes(&[1.5, -2.0])));
    assert_eq!(plugin.drive(session.buffer_to_host(&input)), Ok(as_bytes(&[1.5, -2.0])));
    plugin.drive(session.free_buffer(input)).unwrap();
    assert!(plugin.buffers.is_empty());
}

#[test]
fn outputs_left_on_the_device_read_as_a_run_returns_them() {
    let mut plugin = Plugin::default();
    let session = plugin.session();
    let exe = plugin.compile(&session, SUB);
    let lhs = plugin.upload(&session, &[5.0, 9.0]);
    let rhs = plugin.upload(&session, &[1.0, 2.0]);
    plugin.log.clear();
    let kept = plugin.drive(session.run_buffers_to_device(&exe, &[&lhs, &rhs], 2)).unwrap();
    assert_eq!(plugin.log, vec!["LoadedExecutableExecute"]);
    let host = plugin.drive(session.run_buffers(&exe, &[&lhs, &rhs], 2)).unwrap();
    assert_eq!(as_f32(&host[1]), vec![4.0, 7.0]);
    for (buffer, bytes) in kept.iter().zip(&host) {
        assert_eq!(&plugin.drive(session.buffer_to_host(buffer)).unwrap(), bytes);
    }
}

#[test]
fn kept_outputs_feed_a_run_in_any_order() {
    let mut plugin = Plugin::default();
    let session = plugin.session();
    let double = plugin.compile(&session, DOUBLE);
    let sub = plugin.compile(&session, SUB);
    let one = plugin.upload(&session, &[1.0, 2.0]);
    let two = plugin.upload(&session, &[10.0, 20.0]);
    let small = plugin.drive(session.run_buffers_to_device(&double, &[&one], 1)).unwrap();
    let large = plugin.drive(session.run_buffers_to_device(&double, &[&two], 1)).unwrap();
    plugin.log.clear();
    let out = plugin.drive(session.run_buffers(&sub, &[&large[0], &small[0]], 1)).unwrap();
    assert_eq!(as_f32(&out[0]), vec![18.0, 36.0]);
    assert!(!plugin.log.contains(&"ClientBufferFromHostBuffer".to_string()));
}

#[test]
fn a_run_returns_what_uploading_and_running_returns() {
    let mut plugin = Plugin::default();
    let session = plugin.session();
    let exe = plugin.compile(&session, SUB);
    let lhs = [5.0, 9.0];
    let rhs = [1.0, 2.0];
    let first = plugin.upload(&session, &lhs);
    let second = plugin.upload(&session, &rhs);
    let on_buffers = plugin.drive(session.run_buffers(&exe, &[&first, &second], 1)).unwrap();
    let (lhs, rhs) = (as_bytes(&lhs), as_bytes(&rhs));
    let inputs: Vec<(&[u8], Vec<i64>, u32)> = vec![(&lhs, vec![2], F32), (&rhs, vec![2], F32)];
    let on_inputs = plugin.drive(session.run(&exe, &inputs, 1)).unwrap();
    assert_eq!(as_f32(&on_inputs[0]), vec![4.0, 7.0]);
    assert_eq!(on_buffers, on_inputs);
    assert_eq!(plugin.drive(session.run(&exe, &inputs, 1)), Ok(on_inputs));
}

#[test]
fn no_run_makes_or_destroys_an_executable() {
    let mut plugin = Plugin::default();
    let session = plugin.session();
    let exe = plugin.compile(&session, DOUBLE);
    let before = plugin.executables.clone();
    let input = plugin.upload(&session, &[1.0]);
    let data = as_bytes(&[1.0]);
    let inputs: Vec<(&[u8], Vec<i64>, u32)> = vec![(&data, vec![1], F32)];
    plugin.log.clear();
    let _ = plugin.drive(session.run(&exe, &inputs, 1)).unwrap();
    let _ = plugin.drive(session.run_buffers(&exe, &[&input], 1)).unwrap();
    let _ = plugin.drive(session.run_buffers_timed(&exe, &[&input], 1)).unwrap();
    let _ = plugin.drive(session.run_buffers_to_device(&exe, &[&input], 1)).unwrap();
    let _ = plugin.drive(session.buffer_to_host(&input)).unwrap();
    let _ = plugin.drive(session.memory_stats()).unwrap();
    let others = [
        "ClientCompile",
        "ExecutableDeserializeAndLoad",
        "LoadedExecutableGetExecutable",
        "ExecutableSerialize",
        "ExecutableDestroy",
        "LoadedExecutableDestroy",
    ];
    assert!(plugin.log.iter().all(|name| !others.contains(&name.as_str())));
    assert_eq!(plugin.executables, before);
}

#[test]
fn a_reloaded_executable_runs_alike_and_is_freed_on_its_own() {
    let mut plugin = Plugin::default();
    let session = plugin.session();
    let compiled = plugin.compile(&session, DOUBLE);
    let input = plugin.upload(&session, &[1.0, 2.0]);
    let bytes = plugin.drive(session.serialize(&compiled)).unwrap();
    plugin.log.clear();
    let reloaded = plugin.drive(session.deserialize_and_load(&bytes)).unwrap();
    assert_eq!(plugin.log, vec!["ExecutableDeserializeAndLoad"]);
    assert_eq!(plugin.executables.len(), 2);
    let out = plugin.drive(session.run_buffers(&compiled, &[&input], 1)).unwrap();
    assert_eq!(plugin.drive(session.run_buffers(&reloaded, &[&input], 1)), Ok(out.clone()));
    plugin.drive(session.free_executable(compiled)).unwrap();
    assert_eq!(plugin.drive(session.run_buffers(&reloaded, &[&input], 1)), Ok(out));
    plugin.drive(session.free_executable(reloaded)).unwrap();
    assert!(plugin.executables.is_empty());
    assert_eq!(plugin.buffers.len(), 1);
}

#[test]
fn executables_that_are_answered_alike_return_alike() {
    let run = |spare: bool| {
        let mut plugin = Plugin::default();
        let session = plugin.session();
        let first = plugin.compile(&session, DOUBLE);
        let second = plugin.compile(&session, DOUBLE);
        let input = plugin.upload(&session, &[3.0]);
        plugin.log.clear();
        let exe = if spare { &second } else { &first };
        let host = plugin.drive(session.run_buffers(exe, &[&input], 2)).unwrap();
        (host, plugin.log)
    };
    assert_eq!(run(false), run(true));
    assert_eq!(run(false).0, vec![as_bytes(&[6.0]); 2]);
}

// The order of the calls.

#[test]
fn outputs_are_destroyed_only_after_all_were_copied() {
    let mut plugin = Plugin::default();
    let session = plugin.session();
    let exe = plugin.compile(&session, DOUBLE);
    let input = plugin.upload(&session, &[1.0]);
    plugin.no_events = true;
    plugin.log.clear();
    let (host, dispatch, readback) =
        plugin.drive(session.run_buffers_timed(&exe, &[&input], 2)).unwrap();
    assert_eq!(host.len(), 2);
    assert_eq!(as_f32(&host[0]), vec![2.0]);
    // The clock reads 100, 300, 700, 1500.
    assert_eq!((dispatch, readback), (200, 800));
    assert_eq!(
        plugin.log,
        vec![
            "ReadClock",
            "LoadedExecutableExecute",
            "ReadClock",
            "ReadClock",
            "BufferToHostBuffer(size)",
            "BufferToHostBuffer",
            "TakeHostBytes",
            "BufferToHostBuffer(size)",
            "BufferToHostBuffer",
            "TakeHostBytes",
            "ReadClock",
            "BufferDestroy",
            "BufferDestroy",
        ]
    );
}

#[test]
fn an_untimed_run_makes_the_calls_of_a_timed_one() {
    let mut plugin = Plugin::default();
    let session = plugin.session();
    let exe = plugin.compile(&session, DOUBLE);
    let input = plugin.upload(&session, &[1.0, 5.0]);
    plugin.log.clear();
    let timed = plugin.drive(session.run_buffers_timed(&exe, &[&input], 1)).unwrap().0;
    let calls = std::mem::take(&mut plugin.log);
    let untimed = plugin.drive(session.run_buffers(&exe, &[&input], 1)).unwrap();
    assert_eq!(timed, untimed);
    assert_eq!(calls, plugin.log);
}

#[test]
fn an_output_that_was_not_filled_in_is_null() {
    let mut plugin = Plugin::default();
    let session = plugin.session();
    let exe = plugin.compile(&session, DOUBLE);
    let input = plugin.upload(&session, &[1.0]);
    plugin.outputs = Some(1);
    let outs = plugin.drive(session.run_buffers_to_device(&exe, &[&input], 2)).unwrap();
    assert_eq!(outs.len(), 2);
    let source = |buffer: &Buffer| match session.buffer_to_host(buffer) {
        Step::Call(Call::Plugin { entry: Entry::BufferToHostBuffer { src, .. }, .. }, _) => src,
        _ => panic!("reading a buffer starts with asking for its size"),
    };
    assert!(plugin.buffers.contains_key(&source(&outs[0])));
    assert_eq!(source(&outs[1]), 0);
}

#[test]
fn serializing_deletes_the_bytes_and_destroys_what_it_fetched() {
    let mut plugin = Plugin::default();
    let session = plugin.session();
    let exe = plugin.compile(&session, "abc");
    plugin.log.clear();
    assert_eq!(plugin.drive(session.serialize(&exe)).unwrap(), b"cba".to_vec());
    assert_eq!(
        plugin.log,
        vec![
            "LoadedExecutableGetExecutable",
            "ExecutableSerialize",
            "SerializedExecutableDelete",
            "ExecutableDestroy",
        ]
    );
    assert!(plugin.fetched.is_empty() && plugin.serialized.is_empty());

    plugin.no_deleter = true;
    plugin.log.clear();
    assert_eq!(plugin.drive(session.serialize(&exe)).unwrap(), b"cba".to_vec());
    assert_eq!(
        plugin.log,
        vec!["LoadedExecutableGetExecutable", "ExecutableSerialize", "ExecutableDestroy"]
    );
}

#[test]
fn an_error_of_a_call_that_is_not_checked_is_dropped() {
    let mut plugin = Plugin::default();
    let session = plugin.session();
    let exe = plugin.compile(&session, DOUBLE);
    plugin.refuse("LoadedExecutableDestroy", b"busy");
    plugin.log.clear();
    assert_eq!(plugin.drive(session.free_executable(exe)), Ok(()));
    assert_eq!(plugin.log, vec!["LoadedExecutableDestroy"]);
}

// The plugin.

#[test]
fn the_plugin_is_loaded_and_initialized_once() {
    let mut plugin = Plugin::default();
    let pjrt = plugin.drive(shared_pjrt(None)).unwrap();
    assert_eq!(pjrt, Pjrt { api: API });
    assert_eq!(plugin.initialized, 1);
    plugin.log.clear();
    assert_eq!(plugin.drive(shared_pjrt(Some(pjrt))).unwrap(), pjrt);
    assert!(plugin.log.is_empty());
    let _ = plugin.drive(Session::new(Some(pjrt))).unwrap();
    assert_eq!(plugin.log, vec!["ClientCreate"]);
    assert_eq!(plugin.initialized, 1);
}

#[test]
fn a_load_that_failed_leaves_nothing_and_is_tried_again() {
    let mut plugin = Plugin { deny: Some(("OpenLibrary", "busy")), ..Plugin::default() };
    assert_eq!(
        plugin.drive(shared_pjrt(None)),
        Err("dlopen GPU plugin: busy".to_string())
    );
    assert_eq!(plugin.initialized, 0);
    plugin.deny = None;
    plugin.log.clear();
    assert_eq!(plugin.drive(shared_pjrt(None)), Ok(Pjrt { api: API }));
    assert_eq!(plugin.log[0], "ReadVariable");
    assert_eq!(plugin.initialized, 1);
}

#[test]
fn each_session_has_a_client_of_its_own() {
    let mut plugin = Plugin::default();
    let pjrt = plugin.drive(shared_pjrt(None)).unwrap();
    plugin.log.clear();
    let first = plugin.drive(Session::new(Some(pjrt))).unwrap();
    let second = plugin.drive(Session::new(Some(pjrt))).unwrap();
    assert_eq!(plugin.log, vec!["ClientCreate", "ClientCreate"]);
    let _ = plugin.upload(&first, &[1.0]);
    assert_eq!(plugin.asked, CLIENT);
    let _ = plugin.upload(&second, &[1.0]);
    assert_eq!(plugin.asked, CLIENT + 1);
}

#[test]
fn the_version_is_the_pair_in_the_table() {
    let mut plugin = Plugin::default();
    let pjrt = plugin.drive(Pjrt::load()).unwrap();
    assert_eq!(plugin.drive(pjrt.version()).unwrap(), (0, 104));
    assert_eq!(plugin.initialized, 0);
}

#[test]
fn the_path_comes_from_the_environment() {
    let mut plugin = Plugin::default();
    assert_eq!(plugin.drive(plugin_path()).unwrap(), "/plugin.so");
    plugin.deny = Some(("ReadVariable", "NotPresent"));
    assert_eq!(
        plugin.drive(plugin_path()),
        Err("set XLA_PJRT_PLUGIN to the jax-cuda12 xla_cuda_plugin.so: NotPresent".to_string())
    );
}

#[test]
fn a_library_that_does_not_open_fails_the_load() {
    let mut plugin = Plugin { deny: Some(("OpenLibrary", "no such file")), ..Plugin::default() };
    assert_eq!(
        plugin.drive(Pjrt::load()),
        Err("dlopen GPU plugin: no such file".to_string())
    );
    assert_eq!(plugin.log, vec!["ReadVariable", "OpenLibrary"]);
}

#[test]
fn a_library_without_the_symbol_fails_the_load() {
    let mut plugin = Plugin { deny: Some(("FindSymbol", "undefined")), ..Plugin::default() };
    assert_eq!(plugin.drive(Pjrt::load()), Err("GetPjrtApi symbol: undefined".to_string()));
}

#[test]
fn a_null_table_fails_the_load() {
    let mut plugin = Plugin { no_table: true, ..Plugin::default() };
    assert_eq!(plugin.drive(Pjrt::load()), Err("GetPjrtApi returned null".to_string()));
}

// Errors.

#[test]
fn an_error_is_read_destroyed_and_raised() {
    let mut plugin = Plugin::default();
    let session = plugin.session();
    plugin.refuse("ClientCompile", b"unregistered op");
    assert_eq!(
        plugin.drive(session.compile(b"x")).err(),
        Some("PJRT error in Client_Compile: unregistered op".to_string())
    );
    assert_eq!(plugin.log, vec!["ClientCompile", "ErrorMessage", "ErrorDestroy"]);
    assert!(plugin.settled());
}

#[test]
fn a_message_in_utf8_is_decoded() {
    let mut plugin = Plugin::default();
    let session = plugin.session();
    plugin.refuse("ClientCompile", "größer als Ω".as_bytes());
    assert_eq!(
        plugin.drive(session.compile(b"x")).err(),
        Some("PJRT error in Client_Compile: größer als Ω".to_string())
    );
}

#[test]
fn a_message_that_is_not_utf8_is_replaced() {
    let mut plugin = Plugin::default();
    let session = plugin.session();
    plugin.refuse("ClientCompile", &[0xff, 0xfe]);
    assert_eq!(
        plugin.drive(session.compile(b"x")).err(),
        Some("PJRT error in Client_Compile: <non-utf8>".to_string())
    );
    assert!(plugin.settled());
}

#[test]
fn a_client_without_devices_fails() {
    let mut plugin = Plugin::default();
    let session = plugin.session();
    plugin.no_devices = true;
    let data = as_bytes(&[1.0]);
    assert_eq!(
        plugin.drive(session.input_buffer(&data, &[1], F32)).err(),
        Some("no addressable devices".to_string())
    );
    assert_eq!(
        plugin.drive(session.memory_stats()).err(),
        Some("no addressable devices".to_string())
    );
}

#[test]
fn opening_a_session_tells_which_call_was_refused() {
    let mut plugin = Plugin::default();
    plugin.refuse("PluginInitialize", b"m");
    assert_eq!(
        plugin.drive(Session::new(None)).err(),
        Some("PJRT error in Plugin_Initialize: m".to_string())
    );
    plugin.refuse("ClientCreate", b"unknown option");
    assert_eq!(
        plugin.drive(Session::new(None)).err(),
        Some("PJRT error in Client_Create: unknown option".to_string())
    );
    assert!(plugin.settled());
}

#[test]
fn every_checked_call_is_named_in_its_failure() {
    let cases = [
        ("ClientAddressableDevices", "AddressableDevices"),
        ("ClientBufferFromHostBuffer", "BufferFromHostBuffer"),
        ("EventAwait", "Event_Await"),
        ("LoadedExecutableExecute", "Execute"),
        ("BufferToHostBuffer(size)", "ToHostBuffer(size)"),
        ("BufferToHostBuffer", "ToHostBuffer(copy)"),
    ];
    for (entry, context) in cases {
        let mut plugin = Plugin::default();
        let session = plugin.session();
        let exe = plugin.compile(&session, DOUBLE);
        let data = as_bytes(&[1.0]);
        let inputs: Vec<(&[u8], Vec<i64>, u32)> = vec![(&data, vec![1], F32)];
        plugin.refuse(entry, b"no");
        assert_eq!(
            plugin.drive(session.run(&exe, &inputs, 1)),
            Err(format!("PJRT error in {context}: no"))
        );
        assert!(plugin.settled());
    }
}

#[test]
fn the_other_checked_calls_are_named_too() {
    let mut plugin = Plugin::default();
    let session = plugin.session();
    let exe = plugin.compile(&session, DOUBLE);
    let input = plugin.upload(&session, &[1.0]);
    plugin.refuse("LoadedExecutableGetExecutable", b"1");
    assert_eq!(
        plugin.drive(session.serialize(&exe)),
        Err("PJRT error in GetExecutable: 1".to_string())
    );
    plugin.refuse("ExecutableSerialize", b"2");
    assert_eq!(
        plugin.drive(session.serialize(&exe)),
        Err("PJRT error in Executable_Serialize: 2".to_string())
    );
    plugin.refuse("ExecutableDeserializeAndLoad", b"3");
    assert_eq!(
        plugin.drive(session.deserialize_and_load(b"x")).err(),
        Some("PJRT error in Executable_DeserializeAndLoad: 3".to_string())
    );
    plugin.refuse("BufferDestroy", b"4");
    assert_eq!(
        plugin.drive(session.free_buffer(input)),
        Err("PJRT error in Buffer_Destroy: 4".to_string())
    );
    assert!(plugin.settled());
}
