//! Generation links: the entries of a profile's history.

use crate::error::{outcome, Failure, FailureModel};
use crate::path::{file_name, file_name_of, join, joined};
use crate::text::{parse_u64, parsed_u64, split, split_fields, texts};
use std::cmp::Ordering;
use vstd::prelude::*;
use vstd::std_specs::cmp::{PartialEqSpecImpl, PartialOrdSpecImpl};

verus! {

/// The version that the name of a generation link holds: the second of the
/// fields of the path's last component that `-` separates, read as an
/// unsigned decimal number.
pub open spec fn version_of(path: Seq<char>) -> Option<u64> {
    match file_name_of(path) {
        None => None,
        Some(name) => {
            let fields = split(name, '-');
            if fields.len() < 2 {
                None
            } else {
                parsed_u64(fields[1])
            }
        },
    }
}

/// How two versions compare.
pub open spec fn version_order(a: u64, b: u64) -> Ordering {
    if a < b {
        Ordering::Less
    } else if a == b {
        Ordering::Equal
    } else {
        Ordering::Greater
    }
}

/// The version of the link at `path`, or why its name gives none.
pub open spec fn parsed_version(path: Seq<char>) -> Result<u64, FailureModel> {
    match version_of(path) {
        Some(version) => Ok(version),
        None => Err(FailureModel::VersionFormat { path }),
    }
}

/// Reads the version out of the name of a generation link.
pub fn parse_version(path: &str) -> (r: Result<u64, Failure>)
    ensures
        outcome(r) == parsed_version(path@),
{
    let name = match file_name(path) {
        Some(name) => name,
        None => {
            return Err(Failure::VersionFormat { path: path.to_owned() });
        },
    };
    let fields = split_fields(name.as_str(), '-');
    proof {
        assert(texts(fields@).len() == fields.len());
    }
    if fields.len() < 2 {
        return Err(Failure::VersionFormat { path: path.to_owned() });
    }
    proof {
        assert(texts(fields@)[1] == fields[1]@);
    }
    match parse_u64(fields[1].as_str()) {
        Some(version) => Ok(version),
        None => Err(Failure::VersionFormat { path: path.to_owned() }),
    }
}

/// A generation link points to a generation. Its name alone gives the
/// generation's version.
#[derive(Debug)]
pub struct GenerationLink {
    pub version: u64,
    pub path: String,
}

/// A generation link, with its path as a sequence of characters.
pub ghost struct GenerationLinkModel {
    pub version: u64,
    pub path: Seq<char>,
}

impl View for GenerationLink {
    type V = GenerationLinkModel;

    open spec fn view(&self) -> GenerationLinkModel {
        GenerationLinkModel { version: self.version, path: self.path@ }
    }
}

/// The link at `path`, or why its name makes none.
pub open spec fn link_at(path: Seq<char>) -> Result<GenerationLinkModel, FailureModel> {
    match parsed_version(path) {
        Ok(version) => Ok(GenerationLinkModel { version, path }),
        Err(failure) => Err(failure),
    }
}

impl GenerationLink {
    /// Whether the version is the one that the path's name holds.
    pub open spec fn wf(&self) -> bool {
        version_of(self.path@) == Some(self.version)
    }

    /// The link at `path`, with the version that its name holds.
    pub fn from_path(path: &str) -> (r: Result<GenerationLink, Failure>)
        ensures
            outcome(r) == link_at(path@),
            r matches Ok(link) ==> link.wf(),
    {
        match parse_version(path) {
            Ok(version) => Ok(GenerationLink { version, path: path.to_owned() }),
            Err(e) => Err(e),
        }
    }

    /// The path of the boot descriptor of the generation: the file
    /// `boot.json` in the directory that the link points to.
    pub fn descriptor_path(&self) -> (r: String)
        ensures
            r@ == joined(self.path@, "boot.json"@),
    {
        join(self.path.as_str(), "boot.json")
    }

    /// Orders two links by their versions, whatever their paths.
    pub fn compare(&self, other: &GenerationLink) -> (r: Ordering)
        ensures
            r == version_order(self.version, other.version),
    {
        if self.version < other.version {
            Ordering::Less
        } else if self.version == other.version {
            Ordering::Equal
        } else {
            Ordering::Greater
        }
    }
}

impl PartialEq for GenerationLink {
    fn eq(&self, other: &Self) -> (r: bool) {
        self.version == other.version
    }
}

impl PartialEqSpecImpl for GenerationLink {
    open spec fn obeys_eq_spec() -> bool {
        true
    }

    open spec fn eq_spec(&self, other: &Self) -> bool {
        self.version == other.version
    }
}

impl Eq for GenerationLink {

}

impl PartialOrd for GenerationLink {
    fn partial_cmp(&self, other: &Self) -> (r: Option<Ordering>) {
        Some(self.compare(other))
    }
}

impl PartialOrdSpecImpl for GenerationLink {
    open spec fn obeys_partial_cmp_spec() -> bool {
        true
    }

    open spec fn partial_cmp_spec(&self, other: &Self) -> Option<Ordering> {
        Some(version_order(self.version, other.version))
    }
}

/// The order of links is a total order on versions: two links compare equal
/// exactly when their versions are equal, swapping them swaps less and
/// greater, and less carries over from link to link.
pub proof fn lemma_order_is_total(a: u64, b: u64, c: u64)
    ensures
        version_order(a, b) == Ordering::Equal <==> a == b,
        version_order(a, b) == Ordering::Less <==> version_order(b, a) == Ordering::Greater,
        version_order(a, b) == Ordering::Less && version_order(b, c) == Ordering::Less
            ==> version_order(a, c) == Ordering::Less,
{
}

} // verus!
