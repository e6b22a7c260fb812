use test_utils::error::ErrorKind;
use test_utils::options::{CreateContainerOptionsBuilder, Size, StopContainerOptionsBuilder, Unit};

#[test]
fn build_without_image_is_a_configuration_error() {
    let r = CreateContainerOptionsBuilder::default().with_environment("A", "1").build();
    let e = r.unwrap_err();
    assert_eq!(e.kind, ErrorKind::Configuration);
    assert_eq!(e.to_string(), "Image is required");
}

#[test]
fn build_renders_environment_and_volumes() {
    let c = CreateContainerOptionsBuilder::default()
        .with_image("alpine:3")
        .with_environment("A", "1")
        .with_environment("B", "2")
        .with_environment("A", "3")
        .with_volume("/host", "/container")
        .build()
        .unwrap();
    assert_eq!(c.image, "alpine:3");
    assert_eq!(c.env, Some(vec!["A=3".to_string(), "B=2".to_string()]));
    assert_eq!(c.binds, Some(vec!["/host:/container".to_string()]));
    assert_eq!(c.labels, None);
    assert_eq!(c.entrypoint, None);
    assert_eq!(c.healthcheck, None);
}

#[test]
fn entrypoint_words_accumulate() {
    let c = CreateContainerOptionsBuilder::default()
        .with_image("i")
        .with_entrypoint("sh -c")
        .with_entrypoint("sleep  1")
        .build()
        .unwrap();
    let words: Vec<String> = ["sh", "-c", "sleep", "", "1"].iter().map(|s| s.to_string()).collect();
    assert_eq!(c.entrypoint, Some(words));
}

#[test]
fn healthcheck_forms_replace_each_other() {
    let b = CreateContainerOptionsBuilder::default().with_image("i").with_healthcheck_command("true");
    assert_eq!(b.clone().build().unwrap().healthcheck, Some(vec!["CMD".to_string(), "true".to_string()]));
    let c = b.with_healthcheck_command_shell("pw-cli info 0 || exit 1").build().unwrap();
    assert_eq!(c.healthcheck, Some(vec!["CMD-SHELL".to_string(), "pw-cli info 0 || exit 1".to_string()]));
}

#[test]
fn finalize_adds_test_label() {
    let c = CreateContainerOptionsBuilder::default()
        .with_image("i")
        .with_label("owner", "me")
        .finalize()
        .unwrap();
    assert_eq!(
        c.labels,
        Some(vec![("owner".to_string(), "me".to_string()), ("test.container".to_string(), "true".to_string())])
    );
    let c = CreateContainerOptionsBuilder::default().with_image("i").finalize().unwrap();
    assert_eq!(c.labels, Some(vec![("test.container".to_string(), "true".to_string())]));
    assert_eq!(CreateContainerOptionsBuilder::default().finalize().unwrap_err().kind, ErrorKind::Configuration);
}

#[test]
fn limits_are_passed_in_engine_units() {
    let c = CreateContainerOptionsBuilder::default()
        .with_image("i")
        .with_cpus(1_500_000_000)
        .with_memory(Size::from_mb(512))
        .with_memory_swap(Size::from_gb(1))
        .build()
        .unwrap();
    assert_eq!(c.nano_cpus, Some(1_500_000_000));
    assert_eq!(c.memory, Some(512 * 1024 * 1024));
    assert_eq!(c.memory_swap, Some(1024 * 1024 * 1024));
}

#[test]
fn size_converts_to_bytes() {
    assert_eq!(Size::from_bytes(7).bytes(), 7);
    assert_eq!(Size::from_kb(2).bytes(), 2048);
    assert_eq!(Size::from_mb(1).bytes(), 1048576);
    assert_eq!(Size::from_gb(3).bytes(), 3 * 1073741824);
    assert_eq!(Size::from_gb(u64::MAX).bytes(), u64::MAX);
    assert_eq!(Size::from_kb(5).unit, Unit::KB);
}

#[test]
fn huge_memory_is_capped_for_engine() {
    let c = CreateContainerOptionsBuilder::default().with_image("i").with_memory(Size::from_gb(u64::MAX)).build().unwrap();
    assert_eq!(c.memory, Some(i64::MAX));
}

#[test]
fn stop_options_default_to_no_grace() {
    assert_eq!(StopContainerOptionsBuilder::default().build(), 0);
    assert_eq!(StopContainerOptionsBuilder::default().with_wait(10).build(), 10);
    assert_eq!(StopContainerOptionsBuilder::default().with_wait(u64::MAX).build(), i64::MAX);
}
