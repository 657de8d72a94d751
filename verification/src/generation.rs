//! Generations and the boot descriptors they are resolved from.

use crate::error::{outcome, Failure, FailureModel};
use crate::link::GenerationLink;
use crate::text::{decimal, decimal_text, optional_text};
use vstd::prelude::*;

verus! {

/// `bootspec::BootJson`, a decoded boot descriptor. Nothing is known of
/// what one holds but through the functions below.
#[verifier::external_type_specification]
#[verifier::external_body]
pub struct ExBootJson(bootspec::BootJson);

/// `serde_json::Error`, the reason why bytes could not be decoded.
#[verifier::external_type_specification]
#[verifier::external_body]
pub struct ExJsonError(serde_json::Error);

/// What `serde_json::from_slice` makes of `bytes` when it is asked for a
/// `bootspec::BootJson`.
pub uninterp spec fn decoded(bytes: Seq<u8>) -> Result<bootspec::BootJson, serde_json::Error>;

/// The message of a decoding error, as its `Display` writes it.
pub uninterp spec fn error_message(error: serde_json::Error) -> Seq<char>;

/// The kernel path and the initrd path that a descriptor of the schema's
/// first version holds; nothing for a descriptor of any other version.
pub uninterp spec fn boot_artifacts(boot: bootspec::BootJson) -> Option<
    (Seq<char>, Option<Seq<char>>),
>;

/// What the extension map of a descriptor holds for `extension` and
/// `member`. Outer: whether the map has an entry under the key `extension`;
/// inner: the text of the entry's member `member`, where it has one that is
/// a JSON string.
pub uninterp spec fn extension_text(
    boot: bootspec::BootJson,
    extension: Seq<char>,
    member: Seq<char>,
) -> Option<Option<Seq<char>>>;

/// Decodes a boot descriptor from JSON with `serde_json::from_slice`. The
/// result depends on the bytes alone.
#[verifier::external_body]
fn decode(bytes: &[u8]) -> (r: Result<bootspec::BootJson, serde_json::Error>)
    ensures
        r == decoded(bytes@),
{
    serde_json::from_slice::<bootspec::BootJson>(bytes)
}

/// The message of a `serde_json::Error`, through its `Display`.
#[verifier::external_body]
fn message(error: &serde_json::Error) -> (r: String)
    ensures
        r@ == error_message(*error),
{
    error.to_string()
}

/// Picks the kernel and the initrd out of a `bootspec::BootJson` whose
/// generation is of the first schema version, as text
/// (`Path::to_string_lossy`: a path out of a JSON text is Unicode, and comes
/// out as it is).
#[verifier::external_body]
fn artifacts(boot: &bootspec::BootJson) -> (r: Option<(String, Option<String>)>)
    ensures
        artifact_texts(r) == boot_artifacts(*boot),
{
    match &boot.generation {
        bootspec::generation::Generation::V1(v1) => Some(
            (
                v1.bootspec.kernel.to_string_lossy().into_owned(),
                v1.bootspec.initrd.as_ref().map(|path| path.to_string_lossy().into_owned()),
            ),
        ),
        _ => None,
    }
}

/// Looks up `extension` in the extension map of a `bootspec::BootJson`, and
/// `member` in the entry found, and hands the member out if it is a JSON
/// string (`serde_json::Value::as_str`).
#[verifier::external_body]
fn extension_member(boot: &bootspec::BootJson, extension: &str, member: &str) -> (r: Option<
    Option<String>,
>)
    ensures
        entry_text(r) == extension_text(*boot, extension@, member@),
{
    boot.extensions.get(extension).map(
        |entry| entry.get(member).and_then(|value| value.as_str()).map(String::from),
    )
}

/// The characters of a kernel path and an optional initrd path.
pub open spec fn artifact_texts(found: Option<(String, Option<String>)>) -> Option<
    (Seq<char>, Option<Seq<char>>),
> {
    match found {
        Some((kernel, initrd)) => Some((kernel@, optional_text(initrd))),
        None => None,
    }
}

/// The characters of what a lookup in the extension map found.
pub open spec fn entry_text(found: Option<Option<String>>) -> Option<Option<Seq<char>>> {
    match found {
        Some(member) => Some(optional_text(member)),
        None => None,
    }
}

/// The bytes of an optional slice.
pub open spec fn bytes_of(bytes: Option<&[u8]>) -> Option<Seq<u8>> {
    match bytes {
        Some(bytes) => Some(bytes@),
        None => None,
    }
}

/// What this tool adds to a boot descriptor for secure boot.
#[derive(Debug, Clone)]
pub struct SecureBootExtension {
    pub os_release: String,
}

/// The entry of a boot descriptor's extension map under this tool's key.
#[derive(Debug, Clone)]
pub struct Extension {
    /// The text of its `osRelease` member, where it has one that is a string.
    pub os_release: Option<String>,
}

/// What this tool reads of a boot descriptor.
#[derive(Debug, Clone)]
pub struct BootSpec {
    /// The path of the kernel.
    pub kernel: String,
    /// The path of the initrd, where the generation has one.
    pub initrd: Option<String>,
    /// The entry under this tool's extension key, where there is one.
    pub extension: Option<Extension>,
}

/// A boot descriptor together with the secure-boot extension found in it.
#[derive(Debug, Clone)]
pub struct ExtendedBootJson {
    pub bootspec: BootSpec,
    pub extensions: SecureBootExtension,
}

/// A generation is the resolved boot specification that a generation link
/// points to, or one of its specialisations. The link gives the version, the
/// boot descriptor the rest.
#[derive(Debug)]
pub struct Generation {
    /// Profile symlink index
    version: u64,
    /// Top-level specialisation name
    specialisation_name: Option<String>,
    /// Top-level extended boot specification
    spec: ExtendedBootJson,
}

/// A boot descriptor, with its texts as sequences of characters.
pub ghost struct BootSpecModel {
    pub kernel: Seq<char>,
    pub initrd: Option<Seq<char>>,
    /// Outer: whether there is an entry under this tool's key; inner: the
    /// text of its `osRelease` member.
    pub extension: Option<Option<Seq<char>>>,
}

impl View for BootSpec {
    type V = BootSpecModel;

    open spec fn view(&self) -> BootSpecModel {
        BootSpecModel {
            kernel: self.kernel@,
            initrd: optional_text(self.initrd),
            extension: match self.extension {
                Some(entry) => Some(optional_text(entry.os_release)),
                None => None,
            },
        }
    }
}

/// A generation, with its texts as sequences of characters.
pub ghost struct GenerationModel {
    pub version: u64,
    pub specialisation: Option<Seq<char>>,
    pub bootspec: BootSpecModel,
    pub os_release: Seq<char>,
}

impl View for Generation {
    type V = GenerationModel;

    closed spec fn view(&self) -> GenerationModel {
        GenerationModel {
            version: self.version,
            specialisation: optional_text(self.specialisation_name),
            bootspec: self.spec.bootspec@,
            os_release: self.spec.extensions.os_release@,
        }
    }
}

/// The secure-boot extension that a boot descriptor holds: the text of the
/// `osRelease` member of the entry under this tool's key. A descriptor
/// without the entry fails in one way, an entry without such a text in
/// another.
pub open spec fn extension_in(bootspec: BootSpecModel) -> Result<Seq<char>, FailureModel> {
    match bootspec.extension {
        None => Err(FailureModel::MissingExtension),
        Some(None) => Err(FailureModel::ExtensionSchema),
        Some(Some(os_release)) => Ok(os_release),
    }
}

/// The generation of the given version and specialisation that a boot
/// descriptor makes, if the descriptor holds the secure-boot extension.
pub open spec fn assembled(
    version: u64,
    specialisation: Option<Seq<char>>,
    bootspec: BootSpecModel,
) -> Result<GenerationModel, FailureModel> {
    match extension_in(bootspec) {
        Err(failure) => Err(failure),
        Ok(os_release) => Ok(GenerationModel { version, specialisation, bootspec, os_release }),
    }
}

/// What this tool reads of a decoded descriptor: the artifacts of a
/// descriptor of the first schema version, and the entry under `lanzaboote`
/// with its member `osRelease`.
pub open spec fn read_from(boot: bootspec::BootJson) -> Result<BootSpecModel, FailureModel> {
    match boot_artifacts(boot) {
        None => Err(FailureModel::SchemaConversion { reason: "Unsupported bootspec schema"@ }),
        Some((kernel, initrd)) => Ok(
            BootSpecModel {
                kernel,
                initrd,
                extension: extension_text(boot, "lanzaboote"@, "osRelease"@),
            },
        ),
    }
}

/// What this tool reads of a descriptor file, where `descriptor` is what the
/// file holds, or nothing if it could not be read.
pub open spec fn described_by(descriptor: Option<Seq<u8>>) -> Result<BootSpecModel, FailureModel> {
    match descriptor {
        None => Err(FailureModel::DescriptorRead),
        Some(bytes) => match decoded(bytes) {
            Err(error) => Err(FailureModel::DescriptorParse { reason: error_message(error) }),
            Ok(boot) => read_from(boot),
        },
    }
}

/// The generation that a link of the given version resolves to, where
/// `descriptor` is what the descriptor file of the link holds, or nothing if
/// the file could not be read.
pub open spec fn resolved_from(version: u64, descriptor: Option<Seq<u8>>) -> Result<
    GenerationModel,
    FailureModel,
> {
    match described_by(descriptor) {
        Err(failure) => Err(failure),
        Ok(bootspec) => assembled(version, None, bootspec),
    }
}

impl BootSpec {
    /// Reads out of a decoded descriptor what this tool needs of it.
    fn read(boot: &bootspec::BootJson) -> (r: Result<BootSpec, Failure>)
        ensures
            outcome(r) == read_from(*boot),
    {
        match artifacts(boot) {
            None => Err(
                Failure::SchemaConversion {
                    reason: String::from_str("Unsupported bootspec schema"),
                },
            ),
            Some((kernel, initrd)) => {
                let extension = match extension_member(boot, "lanzaboote", "osRelease") {
                    Some(os_release) => Some(Extension { os_release }),
                    None => None,
                };
                Ok(BootSpec { kernel, initrd, extension })
            },
        }
    }

    /// Reads a boot descriptor, given what its file holds; `descriptor` is
    /// nothing where the file could not be read.
    pub fn from_descriptor(descriptor: Option<&[u8]>) -> (r: Result<BootSpec, Failure>)
        ensures
            outcome(r) == described_by(bytes_of(descriptor)),
    {
        let bytes = match descriptor {
            Some(bytes) => bytes,
            None => {
                return Err(Failure::DescriptorRead);
            },
        };
        match decode(bytes) {
            Ok(boot) => BootSpec::read(&boot),
            Err(error) => Err(Failure::DescriptorParse { reason: message(&error) }),
        }
    }

    /// A copy of the descriptor.
    pub fn copy(&self) -> (r: BootSpec)
        ensures
            r@ == self@,
    {
        let extension = match &self.extension {
            Some(entry) => Some(Extension { os_release: entry.os_release.clone() }),
            None => None,
        };
        BootSpec { kernel: self.kernel.clone(), initrd: self.initrd.clone(), extension }
    }
}

impl Generation {
    /// The secure-boot extension of a generation is the one that its boot
    /// descriptor holds.
    #[verifier::type_invariant]
    spec fn consistent(&self) -> bool {
        extension_in(self.spec.bootspec@) == Ok::<Seq<char>, FailureModel>(
            self.spec.extensions.os_release@,
        )
    }

    /// Resolves a generation link, given what its descriptor file holds.
    ///
    /// The file is the one at [`GenerationLink::descriptor_path`];
    /// `descriptor` is nothing where it could not be read. The generation
    /// has the link's version and is no specialisation.
    pub fn from_link(link: &GenerationLink, descriptor: Option<&[u8]>) -> (r: Result<
        Generation,
        Failure,
    >)
        ensures
            outcome(r) == resolved_from(link.version, bytes_of(descriptor)),
    {
        match BootSpec::from_descriptor(descriptor) {
            Ok(bootspec) => Generation::from_bootspec(link.version, bootspec),
            Err(failure) => Err(failure),
        }
    }

    /// The generation of the given version that `bootspec` describes.
    pub fn from_bootspec(version: u64, bootspec: BootSpec) -> (r: Result<Generation, Failure>)
        ensures
            outcome(r) == assembled(version, None, bootspec@),
    {
        match Generation::extract_extensions(&bootspec) {
            Ok(extensions) => Ok(
                Generation {
                    version,
                    specialisation_name: None,
                    spec: ExtendedBootJson { bootspec, extensions },
                },
            ),
            Err(failure) => Err(failure),
        }
    }

    /// Finds the secure-boot extension in a boot descriptor.
    pub fn extract_extensions(bootspec: &BootSpec) -> (r: Result<SecureBootExtension, Failure>)
        ensures
            match extension_in(bootspec@) {
                Ok(os_release) => r matches Ok(extension) && extension.os_release@ == os_release,
                Err(failure) => r matches Err(found) && found@ == failure,
            },
    {
        match &bootspec.extension {
            None => Err(Failure::MissingExtension),
            Some(entry) => match &entry.os_release {
                None => Err(Failure::ExtensionSchema),
                Some(os_release) => Ok(SecureBootExtension { os_release: os_release.clone() }),
            },
        }
    }

    /// The specialisation `name` of this generation, which `bootspec`
    /// describes. It has this generation's version; the secure-boot
    /// extension is looked for in `bootspec` anew.
    pub fn specialise(&self, name: &str, bootspec: &BootSpec) -> (r: Result<Generation, Failure>)
        ensures
            outcome(r) == assembled(self@.version, Some(name@), bootspec@),
    {
        match Generation::extract_extensions(bootspec) {
            Ok(extensions) => Ok(
                Generation {
                    version: self.version,
                    specialisation_name: Some(name.to_owned()),
                    spec: ExtendedBootJson { bootspec: bootspec.copy(), extensions },
                },
            ),
            Err(failure) => Err(failure),
        }
    }

    /// The version of the generation.
    pub fn version(&self) -> (r: u64)
        ensures
            r == self@.version,
    {
        self.version
    }

    /// The name of the specialisation, for a generation that is one.
    pub fn is_specialized(&self) -> (r: Option<String>)
        ensures
            optional_text(r) == self@.specialisation,
    {
        self.specialisation_name.clone()
    }

    /// The extended boot specification of the generation: its boot
    /// descriptor, and the secure-boot extension that the descriptor holds.
    pub fn spec(&self) -> (r: &ExtendedBootJson)
        ensures
            r.bootspec@ == self@.bootspec,
            r.extensions.os_release@ == self@.os_release,
            extension_in(self@.bootspec) == Ok::<Seq<char>, FailureModel>(self@.os_release),
    {
        proof {
            use_type_invariant(self);
        }
        &self.spec
    }

    /// The generation as text: its version in base ten.
    pub fn to_string(&self) -> (r: String)
        ensures
            r@ == decimal(self@.version as nat),
    {
        decimal_text(self.version)
    }
}

} // verus!
