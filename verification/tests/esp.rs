use lanzatool::error::Failure;
use lanzatool::esp::{generation_path, nixos_path, EspPaths};
use lanzatool::generation::{BootSpec, Extension, Generation};
use lanzatool::link::GenerationLink;
use std::path::{Path, PathBuf};

fn bootspec(kernel: &str, initrd: Option<&str>) -> BootSpec {
    BootSpec {
        kernel: kernel.to_string(),
        initrd: initrd.map(String::from),
        extension: Some(Extension { os_release: Some("/etc/os-release".to_string()) }),
    }
}

fn generation(version: u64, kernel: &str, initrd: Option<&str>) -> Generation {
    Generation::from_bootspec(version, bootspec(kernel, initrd)).unwrap()
}

fn not_in_store(path: &str) -> Failure {
    Failure::NotInStore { path: path.to_string() }
}

/// The name as the standard path functions make it.
fn standard_name(resolved: &str, kind: &str) -> Option<PathBuf> {
    let parent = Path::new(resolved).parent()?;
    let without_store = parent.strip_prefix("/nix/store").ok()?;
    Some(PathBuf::from(format!("{}-{}.efi", without_store.display(), kind)))
}

#[test]
fn store_prefix_is_stripped() {
    assert_eq!(
        nixos_path("/nix/store/abcd-kernel-5.10/bzImage", None, "bzImage"),
        Ok("abcd-kernel-5.10-bzImage.efi".to_string())
    );
    assert_eq!(
        nixos_path("/run/current-system/kernel", Some("/nix/store/abcd-kernel-5.10/bzImage"), "bzImage"),
        Ok("abcd-kernel-5.10-bzImage.efi".to_string())
    );
    assert_eq!(
        nixos_path("/nix/store/xyz-initrd/initrd", None, "initrd"),
        Ok("xyz-initrd-initrd.efi".to_string())
    );
}

#[test]
fn name_is_made_from_where_the_link_points() {
    assert_eq!(
        nixos_path("/nix/store/link/kernel", Some("/nix/store/real-linux/bzImage"), "bzImage"),
        Ok("real-linux-bzImage.efi".to_string())
    );
    assert_eq!(
        nixos_path("/nix/store/link/kernel", Some("../real-linux/bzImage"), "bzImage"),
        Err(not_in_store("/nix/store/link/kernel"))
    );
}

#[test]
fn unreadable_link_falls_back_to_the_path() {
    assert_eq!(
        nixos_path("/nix/store/abc-linux/bzImage", None, "bzImage"),
        Ok("abc-linux-bzImage.efi".to_string())
    );
}

#[test]
fn artifact_outside_the_store_is_refused() {
    for path in [
        "/boot/bzImage",
        "/nix/storefoo/abc/bzImage",
        "/nix/store",
        "/nix",
        "/",
        "",
        "bzImage",
        "nix/store/abc/bzImage",
        "/var/nix/store/abc/bzImage",
        "/nix/stor/e/bzImage",
    ] {
        assert_eq!(nixos_path(path, None, "bzImage"), Err(not_in_store(path)), "{}", path);
        assert_eq!(standard_name(path, "bzImage"), None, "{}", path);
    }
    assert_eq!(
        nixos_path("/nix/store/abc/bzImage", Some("/boot/bzImage"), "bzImage"),
        Err(not_in_store("/nix/store/abc/bzImage"))
    );
}

#[test]
fn deeper_directories_keep_their_separators() {
    assert_eq!(
        nixos_path("/nix/store/abc-linux/boot/x86/bzImage", None, "bzImage"),
        Ok("abc-linux/boot/x86-bzImage.efi".to_string())
    );
}

#[test]
fn artifact_right_in_the_store_has_an_empty_suffix() {
    assert_eq!(nixos_path("/nix/store/bzImage", None, "bzImage"), Ok("-bzImage.efi".to_string()));
}

#[test]
fn names_agree_with_the_standard_path() {
    for path in [
        "/nix/store/abcd-kernel-5.10/bzImage",
        "/nix/store/xyz-initrd/initrd",
        "/nix/store/a/b/c/d",
        "/nix/store/a/..",
        "/nix/store/a/../b",
        "/nix/store/abc",
        "/nix/store/abc/bzImage/",
        "/nix/store/é-linux/bzImage",
    ] {
        for kind in ["bzImage", "initrd"] {
            let expected = standard_name(path, kind).unwrap();
            assert_eq!(PathBuf::from(nixos_path(path, None, kind).unwrap()), expected, "{}", path);
            assert_eq!(nixos_path(path, None, kind).unwrap(), expected.to_str().unwrap(), "{}", path);
        }
    }
}

#[test]
fn names_of_untidy_paths_are_the_same_paths_as_the_standard_ones() {
    for path in [
        "//nix//store//abc//bzImage",
        "/nix/./store/abc/./bzImage",
        "/nix/store/a//b/./c/bzImage/.",
        "/./nix/store/abc/x",
    ] {
        let expected = standard_name(path, "bzImage").unwrap();
        assert_eq!(PathBuf::from(nixos_path(path, None, "bzImage").unwrap()), expected, "{}", path);
    }
    assert_eq!(
        nixos_path("/nix/store/a//b/./c/bzImage/.", None, "bzImage"),
        Ok("a/b/c-bzImage.efi".to_string())
    );
}

#[test]
fn image_is_named_after_version_and_specialisation() {
    let base = generation(7, "/nix/store/k/bzImage", Some("/nix/store/i/initrd"));
    assert_eq!(generation_path(&base), "nixos-generation-7.efi");
    let special = base.specialise("gaming", &bootspec("/nix/store/k/bzImage", None)).unwrap();
    assert_eq!(generation_path(&special), "nixos-generation-7-specialisation-gaming.efi");
    let other = base.specialise("gamin", &bootspec("/nix/store/k/bzImage", None)).unwrap();
    assert_ne!(generation_path(&special), generation_path(&other));
    assert_ne!(generation_path(&special), generation_path(&base));
    let big = generation(u64::MAX, "/nix/store/k/bzImage", None);
    assert_eq!(generation_path(&big), "nixos-generation-18446744073709551615.efi");
}

#[test]
fn paths_of_a_generation() {
    let generation = generation(42, "/nix/store/abc-linux/bzImage", Some("/nix/store/def-initrd/initrd"));
    let paths = EspPaths::new("/boot", &generation, None, None).unwrap();
    assert_eq!(paths.esp, "/boot");
    assert_eq!(paths.efi, "/boot/EFI");
    assert_eq!(paths.nixos, "/boot/EFI/nixos");
    assert_eq!(paths.kernel, "/boot/EFI/nixos/abc-linux-bzImage.efi");
    assert_eq!(paths.initrd, "/boot/EFI/nixos/def-initrd-initrd.efi");
    assert_eq!(paths.linux, "/boot/EFI/Linux");
    assert_eq!(paths.lanzaboote_image, "/boot/EFI/Linux/nixos-generation-42.efi");
    assert_eq!(paths.efi_fallback_dir, "/boot/EFI/BOOT");
    assert_eq!(paths.efi_fallback, "/boot/EFI/BOOT/BOOTX64.EFI");
    assert_eq!(paths.systemd, "/boot/EFI/systemd");
    assert_eq!(paths.systemd_boot, "/boot/EFI/systemd/systemd-bootx64.efi");
}

#[test]
fn link_to_paths_from_end_to_end() {
    let link = GenerationLink::from_path("/nix/var/nix/profiles/system-7-link").unwrap();
    let descriptor = br#"{
        "org.nixos.bootspec.v1": {
            "init": "/nix/store/xxx-nixos-system-xxx/init",
            "initrd": "/nix/store/xxx-nixos-system-xxx/initrd",
            "kernel": "/nix/store/xxx-nixos-system-xxx/kernel",
            "kernelParams": ["loglevel=4"],
            "label": "NixOS",
            "system": "x86_64-linux",
            "toplevel": "/nix/store/xxx-nixos-system-xxx"
        },
        "org.nixos.specialisation.v1": {},
        "lanzaboote": { "osRelease": "/nix/store/xxx-nixos-system-xxx/etc/os-release" }
    }"#;
    let generation = Generation::from_link(&link, Some(descriptor)).unwrap();
    let paths = EspPaths::new(
        "",
        &generation,
        Some("/nix/store/xyz-kernel/bzImage"),
        Some("/nix/store/xyz-initrd/initrd"),
    )
    .unwrap();
    assert_eq!(paths.kernel, "EFI/nixos/xyz-kernel-bzImage.efi");
    assert_eq!(paths.initrd, "EFI/nixos/xyz-initrd-initrd.efi");
    assert_eq!(paths.lanzaboote_image, "EFI/Linux/nixos-generation-7.efi");

    let mounted = EspPaths::new(
        "/boot",
        &generation,
        Some("/nix/store/xyz-kernel/bzImage"),
        Some("/nix/store/xyz-initrd/initrd"),
    )
    .unwrap();
    assert_eq!(mounted.kernel, "/boot/EFI/nixos/xyz-kernel-bzImage.efi");
    assert_eq!(mounted.initrd, "/boot/EFI/nixos/xyz-initrd-initrd.efi");
}

#[test]
fn same_arguments_give_the_same_paths() {
    let one = generation(3, "/nix/store/abc-linux/bzImage", Some("/nix/store/def-initrd/initrd"));
    let same = generation(3, "/nix/store/abc-linux/bzImage", Some("/nix/store/def-initrd/initrd"));
    let first = EspPaths::new("/boot", &one, Some("/nix/store/k/bzImage"), None).unwrap();
    let second = EspPaths::new("/boot", &one, Some("/nix/store/k/bzImage"), None).unwrap();
    let third = EspPaths::new("/boot", &same, Some("/nix/store/k/bzImage"), None).unwrap();
    assert_eq!(first.to_iter(), second.to_iter());
    assert_eq!(first.to_iter(), third.to_iter());
}

#[test]
fn different_kernels_get_different_files() {
    let one = generation(1, "/nix/store/aaa-linux/bzImage", Some("/nix/store/i/initrd"));
    let other = generation(2, "/nix/store/bbb-linux/bzImage", Some("/nix/store/i/initrd"));
    let first = EspPaths::new("/boot", &one, None, None).unwrap();
    let second = EspPaths::new("/boot", &other, None, None).unwrap();
    assert_ne!(first.kernel, second.kernel);
    assert_eq!(first.initrd, second.initrd);
    assert_ne!(first.lanzaboote_image, second.lanzaboote_image);
}

#[test]
fn same_kernel_is_shared_between_generations() {
    let one = generation(1, "/nix/store/aaa-linux/bzImage", Some("/nix/store/i/initrd"));
    let other = generation(2, "/run/booted/kernel", Some("/nix/store/i/initrd"));
    let first = EspPaths::new("/boot", &one, None, None).unwrap();
    let second =
        EspPaths::new("/boot", &other, Some("/nix/store/aaa-linux/bzImage"), None).unwrap();
    assert_eq!(first.kernel, second.kernel);
}

#[test]
fn specialisations_get_different_images() {
    let base = generation(5, "/nix/store/k/bzImage", Some("/nix/store/i/initrd"));
    let spec = bootspec("/nix/store/k/bzImage", Some("/nix/store/i/initrd"));
    let one = base.specialise("one", &spec).unwrap();
    let two = base.specialise("two", &spec).unwrap();
    let base_paths = EspPaths::new("/boot", &base, None, None).unwrap();
    let one_paths = EspPaths::new("/boot", &one, None, None).unwrap();
    let two_paths = EspPaths::new("/boot", &two, None, None).unwrap();
    assert_eq!(one_paths.lanzaboote_image, "/boot/EFI/Linux/nixos-generation-5-specialisation-one.efi");
    assert_ne!(one_paths.lanzaboote_image, two_paths.lanzaboote_image);
    assert_ne!(one_paths.lanzaboote_image, base_paths.lanzaboote_image);
    assert_eq!(one_paths.kernel, two_paths.kernel);
}

#[test]
fn missing_initrd_is_refused() {
    let generation = generation(1, "/nix/store/abc-linux/bzImage", None);
    assert_eq!(EspPaths::new("/boot", &generation, None, None).unwrap_err(), Failure::MissingInitrd);
    assert_eq!(
        EspPaths::new("/boot", &generation, None, Some("/nix/store/i/initrd")).unwrap_err(),
        Failure::MissingInitrd
    );
}

#[test]
fn first_obstacle_is_reported() {
    let no_kernel = generation(1, "/boot/bzImage", None);
    assert_eq!(
        EspPaths::new("/boot", &no_kernel, None, None).unwrap_err(),
        not_in_store("/boot/bzImage")
    );
    let no_initrd = generation(1, "/nix/store/k/bzImage", Some("/boot/initrd"));
    assert_eq!(
        EspPaths::new("/boot", &no_initrd, None, None).unwrap_err(),
        not_in_store("/boot/initrd")
    );
    assert_eq!(
        EspPaths::new("/boot", &no_initrd, Some("/elsewhere/bzImage"), Some("/nix/store/i/initrd"))
            .unwrap_err(),
        not_in_store("/nix/store/k/bzImage")
    );
}

#[test]
fn roots_are_all_eleven_paths_in_order() {
    let generation = generation(42, "/nix/store/abc-linux/bzImage", Some("/nix/store/def-initrd/initrd"));
    let paths = EspPaths::new("/boot/", &generation, None, None).unwrap();
    assert_eq!(
        paths.to_iter(),
        vec![
            "/boot/",
            "/boot/EFI",
            "/boot/EFI/nixos",
            "/boot/EFI/nixos/abc-linux-bzImage.efi",
            "/boot/EFI/nixos/def-initrd-initrd.efi",
            "/boot/EFI/Linux",
            "/boot/EFI/Linux/nixos-generation-42.efi",
            "/boot/EFI/BOOT",
            "/boot/EFI/BOOT/BOOTX64.EFI",
            "/boot/EFI/systemd",
            "/boot/EFI/systemd/systemd-bootx64.efi",
        ]
    );
}
