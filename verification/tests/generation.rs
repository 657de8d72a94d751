use lanzatool::error::Failure;
use lanzatool::generation::{BootSpec, Extension, Generation};
use lanzatool::link::GenerationLink;

fn descriptor(rest: &str) -> Vec<u8> {
    format!(
        r#"{{
    "org.nixos.bootspec.v1": {{
        "init": "/nix/store/xxx-nixos-system-xxx/init",
        "initrd": "/nix/store/xxx-initrd-linux/initrd",
        "initrdSecrets": "/nix/store/xxx-append-secrets/bin/append-initrd-secrets",
        "kernel": "/nix/store/xxx-linux/bzImage",
        "kernelParams": ["amd_iommu=on", "loglevel=4"],
        "label": "NixOS 21.11.20210810.dirty (Linux 5.15.30)",
        "system": "x86_64-linux",
        "toplevel": "/nix/store/xxx-nixos-system-xxx"
    }},
    "org.nixos.specialisation.v1": {{}}{}
}}"#,
        rest
    )
    .into_bytes()
}

fn link() -> GenerationLink {
    GenerationLink::from_path("/nix/var/nix/profiles/system-7-link").unwrap()
}

fn bootspec(extension: Option<Extension>) -> BootSpec {
    BootSpec {
        kernel: "/nix/store/xxx-linux/bzImage".to_string(),
        initrd: None,
        extension,
    }
}

#[test]
fn link_resolves_to_its_generation() {
    let bytes = descriptor(r#", "lanzaboote": { "osRelease": "/nix/store/xxx-etc/os-release" }"#);
    let generation = Generation::from_link(&link(), Some(&bytes)).unwrap();
    assert_eq!(generation.version(), 7);
    assert_eq!(generation.is_specialized(), None);
    assert_eq!(generation.spec().bootspec.kernel, "/nix/store/xxx-linux/bzImage");
    assert_eq!(generation.spec().bootspec.initrd.as_deref(), Some("/nix/store/xxx-initrd-linux/initrd"));
    assert_eq!(generation.spec().extensions.os_release, "/nix/store/xxx-etc/os-release");
    assert_eq!(generation.to_string(), "7");
}

#[test]
fn other_members_of_the_extension_are_passed_over() {
    let bytes = descriptor(
        r#", "lanzaboote": { "extra": 1, "osRelease": "/etc/os-release" }, "org.test": { "key": "hello" }"#,
    );
    let generation = Generation::from_link(&link(), Some(&bytes)).unwrap();
    assert_eq!(generation.spec().extensions.os_release, "/etc/os-release");
}

#[test]
fn descriptor_without_initrd_resolves() {
    let bytes = br#"{
        "org.nixos.bootspec.v1": {
            "init": "/nix/store/xxx-nixos-system-xxx/init",
            "kernel": "/nix/store/xxx-linux/bzImage",
            "kernelParams": [],
            "label": "NixOS",
            "system": "x86_64-linux",
            "toplevel": "/nix/store/xxx-nixos-system-xxx"
        },
        "lanzaboote": { "osRelease": "/etc/os-release" }
    }"#;
    let generation = Generation::from_link(&link(), Some(bytes)).unwrap();
    assert_eq!(generation.spec().bootspec.initrd, None);
}

#[test]
fn unread_descriptor_is_a_read_failure() {
    assert_eq!(Generation::from_link(&link(), None).unwrap_err(), Failure::DescriptorRead);
}

#[test]
fn malformed_descriptor_is_a_parse_failure() {
    for bytes in [&b"not json"[..], b"", b"{}", b"[1, 2]", b"\xff\xfe", br#"{"org.nixos.bootspec.v1": 3}"#] {
        match Generation::from_link(&link(), Some(bytes)).unwrap_err() {
            Failure::DescriptorParse { reason } => assert!(!reason.is_empty()),
            other => panic!("{:?}", other),
        }
    }
}

#[test]
fn parse_failure_carries_the_decoder_message() {
    let failure = Generation::from_link(&link(), Some(b"{")).unwrap_err();
    let expected = serde_json::from_slice::<serde_json::Value>(b"{").unwrap_err().to_string();
    assert_eq!(failure, Failure::DescriptorParse { reason: expected });
}

#[test]
fn descriptor_of_an_unknown_version_is_refused() {
    let text = String::from_utf8(descriptor("")).unwrap().replace(".v1", ".v2");
    match Generation::from_link(&link(), Some(text.as_bytes())).unwrap_err() {
        Failure::DescriptorParse { .. } => {}
        other => panic!("{:?}", other),
    }
}

#[test]
fn descriptor_without_the_extension_is_refused() {
    let bytes = descriptor("");
    assert_eq!(
        Generation::from_link(&link(), Some(&bytes)).unwrap_err(),
        Failure::MissingExtension
    );
    let bytes = descriptor(r#", "org.test": { "osRelease": "/etc/os-release" }"#);
    assert_eq!(
        Generation::from_link(&link(), Some(&bytes)).unwrap_err(),
        Failure::MissingExtension
    );
}

#[test]
fn extension_of_another_shape_is_refused() {
    for extension in [
        r#"{}"#,
        r#"{ "os_release": "/etc/os-release" }"#,
        r#"{ "osRelease": 3 }"#,
        r#"{ "osRelease": null }"#,
        r#"{ "osRelease": ["/etc/os-release"] }"#,
    ] {
        let bytes = descriptor(&format!(r#", "lanzaboote": {}"#, extension));
        assert_eq!(
            Generation::from_link(&link(), Some(&bytes)).unwrap_err(),
            Failure::ExtensionSchema,
            "{}",
            extension
        );
    }
}

#[test]
fn extension_is_found_in_a_descriptor() {
    let found = Generation::extract_extensions(&bootspec(Some(Extension {
        os_release: Some("/etc/os-release".to_string()),
    })))
    .unwrap();
    assert_eq!(found.os_release, "/etc/os-release");
    assert_eq!(
        Generation::extract_extensions(&bootspec(None)).unwrap_err(),
        Failure::MissingExtension
    );
    assert_eq!(
        Generation::extract_extensions(&bootspec(Some(Extension { os_release: None }))).unwrap_err(),
        Failure::ExtensionSchema
    );
}

#[test]
fn generation_is_made_from_a_descriptor() {
    let generation = Generation::from_bootspec(
        3,
        bootspec(Some(Extension { os_release: Some("/etc/os-release".to_string()) })),
    )
    .unwrap();
    assert_eq!(generation.version(), 3);
    assert_eq!(generation.is_specialized(), None);
    assert_eq!(generation.to_string(), "3");
    assert_eq!(
        Generation::from_bootspec(3, bootspec(None)).unwrap_err(),
        Failure::MissingExtension
    );
}

#[test]
fn specialisation_shares_the_version_and_has_its_own_descriptor() {
    let base = Generation::from_bootspec(
        12,
        bootspec(Some(Extension { os_release: Some("/etc/os-release".to_string()) })),
    )
    .unwrap();
    let sub = BootSpec {
        kernel: "/nix/store/yyy-linux-rt/bzImage".to_string(),
        initrd: Some("/nix/store/yyy-initrd/initrd".to_string()),
        extension: Some(Extension { os_release: Some("/nix/store/yyy/os-release".to_string()) }),
    };
    let special = base.specialise("realtime", &sub).unwrap();
    assert_eq!(special.version(), 12);
    assert_eq!(special.is_specialized(), Some("realtime".to_string()));
    assert_eq!(special.spec().bootspec.kernel, "/nix/store/yyy-linux-rt/bzImage");
    assert_eq!(special.spec().bootspec.initrd.as_deref(), Some("/nix/store/yyy-initrd/initrd"));
    assert_eq!(special.spec().extensions.os_release, "/nix/store/yyy/os-release");
    assert_eq!(special.to_string(), "12");
    assert_eq!(base.is_specialized(), None);
    assert_eq!(base.spec().extensions.os_release, "/etc/os-release");
}

#[test]
fn specialisation_does_not_inherit_the_extension() {
    let base = Generation::from_bootspec(
        12,
        bootspec(Some(Extension { os_release: Some("/etc/os-release".to_string()) })),
    )
    .unwrap();
    assert_eq!(base.specialise("bare", &bootspec(None)).unwrap_err(), Failure::MissingExtension);
    assert_eq!(
        base.specialise("odd", &bootspec(Some(Extension { os_release: None }))).unwrap_err(),
        Failure::ExtensionSchema
    );
}

#[test]
fn descriptor_copy_is_equal() {
    let first = BootSpec {
        kernel: "/nix/store/k/bzImage".to_string(),
        initrd: Some("/nix/store/i/initrd".to_string()),
        extension: Some(Extension { os_release: Some("/etc/os-release".to_string()) }),
    };
    let copy = first.copy();
    assert_eq!(copy.kernel, first.kernel);
    assert_eq!(copy.initrd, first.initrd);
    assert_eq!(copy.extension.unwrap().os_release, first.extension.unwrap().os_release);
}
