use xla_pjrt::options::{FloatBits, NamedValue, OptionValue};
use xla_pjrt::{AllocatorKind, SessionOptions};

fn value<'a>(named: &'a [NamedValue], name: &str) -> Option<&'a NamedValue> {
    named.iter().find(|nv| nv.name == name)
}

#[test]
fn unset_options_name_nothing() {
    assert!(SessionOptions::default().named_values().is_empty());
}

#[test]
fn every_option_rides_with_its_type_and_size() {
    let options = SessionOptions {
        preallocate: Some(true),
        memory_fraction: Some(FloatBits(0.1f32.to_bits())),
        eager_load_executable_modules: Some(false),
        staging_threshold_bytes: Some(2 << 30),
        allocator: Some(AllocatorKind::CudaAsync),
    };
    let named = options.named_values();
    assert_eq!(
        named,
        vec![
            NamedValue {
                name: "preallocate",
                name_size: 11,
                value: OptionValue::Bool(true),
                value_size: 1,
            },
            NamedValue {
                name: "memory_fraction",
                name_size: 15,
                value: OptionValue::Float(FloatBits(0.1f32.to_bits())),
                value_size: 1,
            },
            NamedValue {
                name: "eager_load_executable_modules",
                name_size: 29,
                value: OptionValue::Bool(false),
                value_size: 1,
            },
            NamedValue {
                name: "allocator",
                name_size: 9,
                value: OptionValue::Text("cuda_async"),
                value_size: 10,
            },
            NamedValue {
                name: "staging_threshold_bytes",
                name_size: 23,
                value: OptionValue::Int64(2147483648),
                value_size: 1,
            },
        ]
    );
}

#[test]
fn an_option_that_is_not_set_is_not_named() {
    let options = SessionOptions {
        allocator: Some(AllocatorKind::Vmm),
        ..SessionOptions::default()
    };
    let named = options.named_values();
    assert_eq!(named.len(), 1);
    assert_eq!(value(&named, "allocator").unwrap().value, OptionValue::Text("vmm"));
    assert_eq!(value(&named, "allocator").unwrap().value_size, 3);
    assert!(value(&named, "preallocate").is_none());
}

#[test]
fn different_options_are_named_differently() {
    let off = SessionOptions { preallocate: Some(false), ..SessionOptions::default() };
    let on = SessionOptions { preallocate: Some(true), ..SessionOptions::default() };
    let eager = SessionOptions {
        eager_load_executable_modules: Some(true),
        ..SessionOptions::default()
    };
    assert_ne!(off.named_values(), on.named_values());
    assert_ne!(on.named_values(), eager.named_values());
    assert_ne!(off.named_values(), SessionOptions::default().named_values());
}
