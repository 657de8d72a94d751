//! The files that a generation needs on the EFI System Partition, and their
//! names there.

use crate::error::{outcome, Failure, FailureModel};
use crate::generation::{Generation, GenerationModel};
use crate::path::{absolute, components, components_of, is_absolute, join, joined};
use crate::text::{concat, decimal, texts};
use vstd::prelude::*;

verus! {

/// The characters of an optional string slice.
pub open spec fn text_of(s: Option<&str>) -> Option<Seq<char>> {
    match s {
        Some(s) => Some(s@),
        None => None,
    }
}

/// What is left of the directory of a boot artifact once the store's own
/// path is taken off its front: the components between `/nix/store` and the
/// artifact's own name, with a separator between neighbours. There is none
/// where the artifact has no directory or does not lie under `/nix/store`.
pub open spec fn store_suffix(resolved: Seq<char>) -> Option<Seq<char>> {
    let parts = components_of(resolved);
    if absolute(resolved) && parts.len() >= 3 && parts[0] == "nix"@ && parts[1] == "store"@ {
        Some(concat(parts.subrange(2, parts.len() - 1), '/'))
    } else {
        None
    }
}

/// The name on the partition of an artifact of the given kind whose
/// directory in the store is `suffix`.
pub open spec fn artifact_name(suffix: Seq<char>, kind: Seq<char>) -> Seq<char> {
    suffix + "-"@ + kind + ".efi"@
}

/// Where the artifact at `path` lies: where the link points, or the path
/// itself where no target is known.
pub open spec fn resolved(path: Seq<char>, target: Option<Seq<char>>) -> Seq<char> {
    match target {
        Some(target) => target,
        None => path,
    }
}

/// The name on the partition of the artifact at `path`, which is a symbolic
/// link to `target` where that is given: the name is made from where the
/// link points, or from the path itself where no target is known.
pub open spec fn nixos_name(path: Seq<char>, target: Option<Seq<char>>, kind: Seq<char>) -> Result<
    Seq<char>,
    FailureModel,
> {
    match store_suffix(resolved(path, target)) {
        Some(suffix) => Ok(artifact_name(suffix, kind)),
        None => Err(FailureModel::NotInStore { path }),
    }
}

/// The name of the boot image of a generation or of one of its
/// specialisations.
pub open spec fn generation_name(version: u64, specialisation: Option<Seq<char>>) -> Seq<char> {
    match specialisation {
        Some(name) => "nixos-generation-"@ + decimal(version as nat) + "-specialisation-"@ + name
            + ".efi"@,
        None => "nixos-generation-"@ + decimal(version as nat) + ".efi"@,
    }
}

/// The paths of a generation on the partition, as sequences of characters.
pub ghost struct EspPathsModel {
    pub esp: Seq<char>,
    pub efi: Seq<char>,
    pub nixos: Seq<char>,
    pub kernel: Seq<char>,
    pub initrd: Seq<char>,
    pub linux: Seq<char>,
    pub lanzaboote_image: Seq<char>,
    pub efi_fallback_dir: Seq<char>,
    pub efi_fallback: Seq<char>,
    pub systemd: Seq<char>,
    pub systemd_boot: Seq<char>,
}

impl EspPathsModel {
    /// All the paths, directories included, in the order of the fields.
    pub open spec fn all(self) -> Seq<Seq<char>> {
        seq![
            self.esp,
            self.efi,
            self.nixos,
            self.kernel,
            self.initrd,
            self.linux,
            self.lanzaboote_image,
            self.efi_fallback_dir,
            self.efi_fallback,
            self.systemd,
            self.systemd_boot,
        ]
    }
}

/// The directory `EFI` of the partition at `esp`.
pub open spec fn efi_dir(esp: Seq<char>) -> Seq<char> {
    joined(esp, "EFI"@)
}

/// The directory of kernels and initrds.
pub open spec fn nixos_dir(esp: Seq<char>) -> Seq<char> {
    joined(efi_dir(esp), "nixos"@)
}

/// The directory of boot images.
pub open spec fn linux_dir(esp: Seq<char>) -> Seq<char> {
    joined(efi_dir(esp), "Linux"@)
}

/// The directory of the boot manager.
pub open spec fn systemd_dir(esp: Seq<char>) -> Seq<char> {
    joined(efi_dir(esp), "systemd"@)
}

/// The directory of the fallback loader.
pub open spec fn fallback_dir(esp: Seq<char>) -> Seq<char> {
    joined(efi_dir(esp), "BOOT"@)
}

/// The paths on the partition at `esp` for a kernel, an initrd and a boot
/// image of the given names.
pub open spec fn layout(esp: Seq<char>, kernel: Seq<char>, initrd: Seq<char>, image: Seq<char>)
    -> EspPathsModel {
    EspPathsModel {
        esp,
        efi: efi_dir(esp),
        nixos: nixos_dir(esp),
        kernel: joined(nixos_dir(esp), kernel),
        initrd: joined(nixos_dir(esp), initrd),
        linux: linux_dir(esp),
        lanzaboote_image: joined(linux_dir(esp), image),
        efi_fallback_dir: fallback_dir(esp),
        efi_fallback: joined(fallback_dir(esp), "BOOTX64.EFI"@),
        systemd: systemd_dir(esp),
        systemd_boot: joined(systemd_dir(esp), "systemd-bootx64.efi"@),
    }
}

/// The paths that a generation needs on the partition at `esp`, where its
/// kernel and initrd are symbolic links to the given targets; or the first
/// thing that stands in the way: a kernel outside the store, then a missing
/// initrd, then an initrd outside the store.
pub open spec fn derived(
    esp: Seq<char>,
    generation: GenerationModel,
    kernel_target: Option<Seq<char>>,
    initrd_target: Option<Seq<char>>,
) -> Result<EspPathsModel, FailureModel> {
    match nixos_name(generation.bootspec.kernel, kernel_target, "bzImage"@) {
        Err(failure) => Err(failure),
        Ok(kernel) => match generation.bootspec.initrd {
            None => Err(FailureModel::MissingInitrd),
            Some(path) => match nixos_name(path, initrd_target, "initrd"@) {
                Err(failure) => Err(failure),
                Ok(initrd) => Ok(
                    layout(
                        esp,
                        kernel,
                        initrd,
                        generation_name(generation.version, generation.specialisation),
                    ),
                ),
            },
        },
    }
}

/// The paths of a generation are determined by the partition, the version,
/// the specialisation and the store suffixes of kernel and initrd: two
/// generations that agree in these get the same paths, whatever else their
/// descriptors hold and however their artifacts are reached.
pub proof fn lemma_paths_are_determined(
    esp: Seq<char>,
    first: GenerationModel,
    first_kernel_target: Option<Seq<char>>,
    first_initrd_target: Option<Seq<char>>,
    second: GenerationModel,
    second_kernel_target: Option<Seq<char>>,
    second_initrd_target: Option<Seq<char>>,
)
    requires
        derived(esp, first, first_kernel_target, first_initrd_target) is Ok,
        derived(esp, second, second_kernel_target, second_initrd_target) is Ok,
        first.version == second.version,
        first.specialisation == second.specialisation,
        store_suffix(resolved(first.bootspec.kernel, first_kernel_target)) == store_suffix(
            resolved(second.bootspec.kernel, second_kernel_target),
        ),
        store_suffix(resolved(first.bootspec.initrd->0, first_initrd_target)) == store_suffix(
            resolved(second.bootspec.initrd->0, second_initrd_target),
        ),
    ensures
        derived(esp, first, first_kernel_target, first_initrd_target) == derived(
            esp,
            second,
            second_kernel_target,
            second_initrd_target,
        ),
{
}

/// What is left of a store path never starts at the root.
pub proof fn lemma_suffix_is_relative(path: Seq<char>)
    requires
        store_suffix(path) is Some,
    ensures
        !absolute(store_suffix(path)->0),
{
    let parts = components_of(path);
    let inner = parts.subrange(2, parts.len() - 1);
    if inner.len() > 0 {
        assert forall|k: int| 0 <= k < inner.len() implies (#[trigger] inner[k]).len() > 0 by {
            crate::path::lemma_components_are_names(path, k + 2);
        }
        crate::text::lemma_concat_starts_with_first(inner, '/');
        crate::path::lemma_components_are_names(path, 2);
        assert(inner[0] == parts[2]);
        assert(parts[2][0] != '/') by {
            if parts[2][0] == '/' {
                assert(parts[2].contains('/'));
            }
        }
    }
}

/// The name of an artifact never starts at the root, where its store
/// suffix does not.
pub proof fn lemma_artifact_name_is_relative(suffix: Seq<char>, kind: Seq<char>)
    requires
        !absolute(suffix),
    ensures
        !absolute(artifact_name(suffix, kind)),
{
    reveal_strlit("-");
    let name = artifact_name(suffix, kind);
    if suffix.len() == 0 {
        assert(name[0] == '-');
    } else {
        assert(name[0] == suffix[0]);
    }
}

/// Two generations whose kernels have different store suffixes never get
/// the same kernel path on one partition.
pub proof fn lemma_kernel_paths_differ(
    esp: Seq<char>,
    first: GenerationModel,
    first_kernel_target: Option<Seq<char>>,
    first_initrd_target: Option<Seq<char>>,
    second: GenerationModel,
    second_kernel_target: Option<Seq<char>>,
    second_initrd_target: Option<Seq<char>>,
)
    requires
        derived(esp, first, first_kernel_target, first_initrd_target) is Ok,
        derived(esp, second, second_kernel_target, second_initrd_target) is Ok,
        store_suffix(resolved(first.bootspec.kernel, first_kernel_target)) != store_suffix(
            resolved(second.bootspec.kernel, second_kernel_target),
        ),
    ensures
        derived(esp, first, first_kernel_target, first_initrd_target)->Ok_0.kernel != derived(
            esp,
            second,
            second_kernel_target,
            second_initrd_target,
        )->Ok_0.kernel,
{
    let one = resolved(first.bootspec.kernel, first_kernel_target);
    let other = resolved(second.bootspec.kernel, second_kernel_target);
    let kind = "bzImage"@;
    lemma_suffix_is_relative(one);
    lemma_suffix_is_relative(other);
    lemma_artifact_name_is_relative(store_suffix(one)->0, kind);
    lemma_artifact_name_is_relative(store_suffix(other)->0, kind);
    assert(artifact_name(store_suffix(one)->0, kind) == store_suffix(one)->0 + ("-"@ + kind
        + ".efi"@));
    assert(artifact_name(store_suffix(other)->0, kind) == store_suffix(other)->0 + ("-"@ + kind
        + ".efi"@));
    crate::text::lemma_common_end(
        store_suffix(one)->0,
        store_suffix(other)->0,
        "-"@ + kind + ".efi"@,
    );
    crate::path::lemma_join_keeps_apart(
        nixos_dir(esp),
        artifact_name(store_suffix(one)->0, kind),
        artifact_name(store_suffix(other)->0, kind),
    );
}

/// The name of a boot image never starts at the root.
pub proof fn lemma_generation_name_is_relative(version: u64, specialisation: Option<Seq<char>>)
    ensures
        !absolute(generation_name(version, specialisation)),
{
    reveal_strlit("nixos-generation-");
    assert(generation_name(version, specialisation)[0] == 'n');
}

/// The names of the boot images of one version differ wherever the
/// specialisations do: two specialisations of different names never share
/// one, nor does the generation itself share one with a specialisation.
pub proof fn lemma_generation_names_differ(
    version: u64,
    first: Option<Seq<char>>,
    second: Option<Seq<char>>,
)
    requires
        first != second,
    ensures
        generation_name(version, first) != generation_name(version, second),
{
    reveal_strlit("-specialisation-");
    reveal_strlit(".efi");
    let front = "nixos-generation-"@ + decimal(version as nat);
    let mark = "-specialisation-"@;
    let end = ".efi"@;
    let tail_of = |name: Option<Seq<char>>|
        match name {
            Some(name) => mark + name + end,
            None => end,
        };
    assert(generation_name(version, first) == front + tail_of(first));
    assert(generation_name(version, second) == front + tail_of(second));
    if tail_of(first) == tail_of(second) {
        match (first, second) {
            (Some(a), Some(b)) => {
                assert(mark + a + end == mark + (a + end));
                assert(mark + b + end == mark + (b + end));
                crate::text::lemma_common_end(a, b, end);
                crate::text::lemma_common_front(mark, a + end, b + end);
            },
            (Some(a), None) => {
                assert((mark + a + end).len() == mark.len() + a.len() + end.len());
            },
            (None, Some(b)) => {
                assert((mark + b + end).len() == mark.len() + b.len() + end.len());
            },
            (None, None) => {},
        }
    }
    crate::text::lemma_common_front(front, tail_of(first), tail_of(second));
}

/// The name of a boot image tells the version and the specialisation:
/// images of different versions, or of different specialisations of one
/// version, or of a generation and one of its specialisations, have
/// different names.
pub proof fn lemma_generation_name_tells_all(
    first_version: u64,
    first: Option<Seq<char>>,
    second_version: u64,
    second: Option<Seq<char>>,
)
    requires
        generation_name(first_version, first) == generation_name(second_version, second),
    ensures
        first_version == second_version,
        first == second,
{
    reveal_strlit("-specialisation-");
    reveal_strlit(".efi");
    let front = "nixos-generation-"@;
    let mark = "-specialisation-"@;
    let end = ".efi"@;
    let tail_of = |name: Option<Seq<char>>|
        match name {
            Some(name) => mark + name + end,
            None => end,
        };
    let one = decimal(first_version as nat);
    let other = decimal(second_version as nat);
    let rest = one + tail_of(first);
    let other_rest = other + tail_of(second);
    assert(generation_name(first_version, first) == front + rest);
    assert(generation_name(second_version, second) == front + other_rest);
    if rest != other_rest {
        crate::text::lemma_common_front(front, rest, other_rest);
    }
    crate::text::lemma_decimal_reads_back(first_version as nat);
    crate::text::lemma_decimal_reads_back(second_version as nat);
    assert(!crate::text::is_digit(tail_of(first)[0]));
    assert(!crate::text::is_digit(tail_of(second)[0]));
    if one.len() < other.len() {
        assert(rest[one.len() as int] == tail_of(first)[0]);
        assert(other_rest[one.len() as int] == other[one.len() as int]);
    } else if other.len() < one.len() {
        assert(other_rest[other.len() as int] == tail_of(second)[0]);
        assert(rest[other.len() as int] == one[other.len() as int]);
    }
    assert(rest.take(one.len() as int) == one);
    assert(other_rest.take(other.len() as int) == other);
    crate::text::lemma_decimal_injective(first_version as nat, second_version as nat);
    if first != second {
        lemma_generation_names_differ(first_version, first, second);
    }
}

/// Two generations that differ in version or in specialisation (two
/// specialisations of different names, or a generation and one of its
/// specialisations) never get the same boot image path on one partition.
pub proof fn lemma_image_paths_differ(
    esp: Seq<char>,
    first: GenerationModel,
    first_kernel_target: Option<Seq<char>>,
    first_initrd_target: Option<Seq<char>>,
    second: GenerationModel,
    second_kernel_target: Option<Seq<char>>,
    second_initrd_target: Option<Seq<char>>,
)
    requires
        derived(esp, first, first_kernel_target, first_initrd_target) is Ok,
        derived(esp, second, second_kernel_target, second_initrd_target) is Ok,
        first.version != second.version || first.specialisation != second.specialisation,
    ensures
        derived(esp, first, first_kernel_target, first_initrd_target)->Ok_0.lanzaboote_image
            != derived(
            esp,
            second,
            second_kernel_target,
            second_initrd_target,
        )->Ok_0.lanzaboote_image,
{
    let image = generation_name(first.version, first.specialisation);
    let other = generation_name(second.version, second.specialisation);
    if image == other {
        lemma_generation_name_tells_all(
            first.version,
            first.specialisation,
            second.version,
            second.specialisation,
        );
    }
    lemma_generation_name_is_relative(first.version, first.specialisation);
    lemma_generation_name_is_relative(second.version, second.specialisation);
    crate::path::lemma_join_keeps_apart(
        linux_dir(esp),
        generation_name(first.version, first.specialisation),
        generation_name(second.version, second.specialisation),
    );
}

/// The paths of one generation on the EFI System Partition.
#[derive(Debug, Clone)]
pub struct EspPaths {
    pub esp: String,
    pub efi: String,
    pub nixos: String,
    pub kernel: String,
    pub initrd: String,
    pub linux: String,
    pub lanzaboote_image: String,
    pub efi_fallback_dir: String,
    pub efi_fallback: String,
    pub systemd: String,
    pub systemd_boot: String,
}

impl View for EspPaths {
    type V = EspPathsModel;

    open spec fn view(&self) -> EspPathsModel {
        EspPathsModel {
            esp: self.esp@,
            efi: self.efi@,
            nixos: self.nixos@,
            kernel: self.kernel@,
            initrd: self.initrd@,
            linux: self.linux@,
            lanzaboote_image: self.lanzaboote_image@,
            efi_fallback_dir: self.efi_fallback_dir@,
            efi_fallback: self.efi_fallback@,
            systemd: self.systemd@,
            systemd_boot: self.systemd_boot@,
        }
    }
}

/// Names the file on the partition for the artifact at `path`.
///
/// `target` is where `path` points if it is a symbolic link that could be
/// read, and nothing otherwise; `name` is the kind of artifact.
pub fn nixos_path(path: &str, target: Option<&str>, name: &str) -> (r: Result<String, Failure>)
    ensures
        outcome(r) == nixos_name(path@, text_of(target), name@),
{
    let resolved = match target {
        Some(target) => target,
        None => path,
    };
    if !is_absolute(resolved) {
        return Err(Failure::NotInStore { path: path.to_owned() });
    }
    let parts = components(resolved);
    proof {
        reveal_strlit("nix");
        reveal_strlit("store");
        assert(texts(parts@).len() == parts.len());
    }
    if parts.len() < 3 {
        return Err(Failure::NotInStore { path: path.to_owned() });
    }
    proof {
        assert(texts(parts@)[0] == parts[0]@);
        assert(texts(parts@)[1] == parts[1]@);
    }
    let nix = String::from_str("nix");
    let store = String::from_str("store");
    if !(parts[0] == nix) || !(parts[1] == store) {
        return Err(Failure::NotInStore { path: path.to_owned() });
    }
    let last = parts.len() - 1;
    let mut file = String::new();
    let mut i: usize = 2;
    proof {
        assert(texts(parts@).subrange(2, 2).len() == 0);
    }
    while i < last
        invariant
            2 <= i <= last,
            last == parts.len() - 1,
            file@ == concat(texts(parts@).subrange(2, i as int), '/'),
        decreases last - i,
    {
        let ghost done = texts(parts@).subrange(2, i as int);
        let ghost next = texts(parts@).subrange(2, i + 1);
        proof {
            reveal_strlit("/");
            assert(next.drop_last() == done);
            assert(next.last() == parts[i as int]@);
        }
        if i > 2 {
            file.append("/");
            proof {
                assert(file@ == concat(done, '/').push('/'));
            }
        } else {
            proof {
                assert(next.len() == 1);
                assert(file@ + parts[i as int]@ == parts[i as int]@);
            }
        }
        file.append(parts[i].as_str());
        i += 1;
    }
    file.append("-");
    file.append(name);
    file.append(".efi");
    Ok(file)
}

/// Names the boot image of `generation`.
pub fn generation_path(generation: &Generation) -> (r: String)
    ensures
        r@ == generation_name(generation@.version, generation@.specialisation),
{
    let mut name = String::from_str("nixos-generation-");
    name.append(generation.to_string().as_str());
    match generation.is_specialized() {
        Some(specialisation) => {
            name.append("-specialisation-");
            name.append(specialisation.as_str());
        },
        None => {},
    }
    name.append(".efi");
    name
}

impl EspPaths {
    /// The paths that `generation` needs on the partition at `esp`.
    ///
    /// `kernel_target` and `initrd_target` are where the kernel and the
    /// initrd of the generation point if they are symbolic links that could
    /// be read, and nothing otherwise. The result is a function of the
    /// arguments alone: the same arguments give the same paths.
    pub fn new(
        esp: &str,
        generation: &Generation,
        kernel_target: Option<&str>,
        initrd_target: Option<&str>,
    ) -> (r: Result<EspPaths, Failure>)
        ensures
            outcome(r) == derived(
                esp@,
                generation@,
                text_of(kernel_target),
                text_of(initrd_target),
            ),
    {
        let efi = join(esp, "EFI");
        let efi_nixos = join(efi.as_str(), "nixos");
        let efi_linux = join(efi.as_str(), "Linux");
        let efi_systemd = join(efi.as_str(), "systemd");
        let efi_efi_fallback_dir = join(efi.as_str(), "BOOT");

        let bootspec = &generation.spec().bootspec;

        let kernel = match nixos_path(bootspec.kernel.as_str(), kernel_target, "bzImage") {
            Ok(name) => name,
            Err(failure) => {
                return Err(failure);
            },
        };
        let initrd_path = match &bootspec.initrd {
            Some(path) => path,
            None => {
                return Err(Failure::MissingInitrd);
            },
        };
        let initrd = match nixos_path(initrd_path.as_str(), initrd_target, "initrd") {
            Ok(name) => name,
            Err(failure) => {
                return Err(failure);
            },
        };
        let image = generation_path(generation);

        Ok(
            EspPaths {
                esp: esp.to_owned(),
                kernel: join(efi_nixos.as_str(), kernel.as_str()),
                initrd: join(efi_nixos.as_str(), initrd.as_str()),
                lanzaboote_image: join(efi_linux.as_str(), image.as_str()),
                efi_fallback: join(efi_efi_fallback_dir.as_str(), "BOOTX64.EFI"),
                systemd_boot: join(efi_systemd.as_str(), "systemd-bootx64.efi"),
                efi,
                nixos: efi_nixos,
                linux: efi_linux,
                efi_fallback_dir: efi_efi_fallback_dir,
                systemd: efi_systemd,
            },
        )
    }

    /// Return the used file paths to store as garbage collection roots
    pub fn to_iter(&self) -> (r: Vec<String>)
        ensures
            texts(r@) == self@.all(),
    {
        let mut r: Vec<String> = Vec::new();
        r.push(self.esp.clone());
        r.push(self.efi.clone());
        r.push(self.nixos.clone());
        r.push(self.kernel.clone());
        r.push(self.initrd.clone());
        r.push(self.linux.clone());
        r.push(self.lanzaboote_image.clone());
        r.push(self.efi_fallback_dir.clone());
        r.push(self.efi_fallback.clone());
        r.push(self.systemd.clone());
        r.push(self.systemd_boot.clone());
        proof {
            assert(texts(r@) =~= self@.all());
        }
        r
    }
}

} // verus!
