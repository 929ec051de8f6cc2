use xla_pjrt::AllocatorKind;

#[test]
fn every_kind_spells_itself_as_the_plugin_parses_it() {
    assert_eq!(AllocatorKind::Default.as_str(), "default");
    assert_eq!(AllocatorKind::Platform.as_str(), "platform");
    assert_eq!(AllocatorKind::Bfc.as_str(), "bfc");
    assert_eq!(AllocatorKind::CudaAsync.as_str(), "cuda_async");
    assert_eq!(AllocatorKind::Vmm.as_str(), "vmm");
}

#[test]
fn no_two_kinds_share_a_spelling() {
    let kinds = [
        AllocatorKind::Default,
        AllocatorKind::Platform,
        AllocatorKind::Bfc,
        AllocatorKind::CudaAsync,
        AllocatorKind::Vmm,
    ];
    for (i, one) in kinds.iter().enumerate() {
        for (j, two) in kinds.iter().enumerate() {
            assert_eq!(one.as_str() == two.as_str(), i == j);
        }
    }
}
