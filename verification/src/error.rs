//! What can go wrong while a generation is resolved, its files are named, or
//! the partition is swept.

use vstd::prelude::*;

verus! {

/// The failures of this library, each with what identifies its cause.
#[derive(Debug, Clone, PartialEq, Eq)]
pub enum Failure {
    /// The boot descriptor of a generation could not be read.
    DescriptorRead,
    /// The boot descriptor is not a descriptor of a known schema; `reason`
    /// is the decoder's message.
    DescriptorParse { reason: String },
    /// The boot descriptor cannot be brought into the current schema.
    SchemaConversion { reason: String },
    /// The boot descriptor has no entry under this tool's extension key.
    MissingExtension,
    /// The entry under this tool's extension key has not the expected shape.
    ExtensionSchema,
    /// The generation has no initrd.
    MissingInitrd,
    /// The boot artifact at `path` does not lie in the store.
    NotInStore { path: String },
    /// The name of the generation link at `path` holds no version.
    VersionFormat { path: String },
    /// Walking or changing the partition failed during a sweep.
    SweepIo { reason: String },
}

/// A failure, with its texts as sequences of characters.
pub ghost enum FailureModel {
    DescriptorRead,
    DescriptorParse { reason: Seq<char> },
    SchemaConversion { reason: Seq<char> },
    MissingExtension,
    ExtensionSchema,
    MissingInitrd,
    NotInStore { path: Seq<char> },
    VersionFormat { path: Seq<char> },
    SweepIo { reason: Seq<char> },
}

impl View for Failure {
    type V = FailureModel;

    open spec fn view(&self) -> FailureModel {
        match self {
            Failure::DescriptorRead => FailureModel::DescriptorRead,
            Failure::DescriptorParse { reason } => FailureModel::DescriptorParse {
                reason: reason@,
            },
            Failure::SchemaConversion { reason } => FailureModel::SchemaConversion {
                reason: reason@,
            },
            Failure::MissingExtension => FailureModel::MissingExtension,
            Failure::ExtensionSchema => FailureModel::ExtensionSchema,
            Failure::MissingInitrd => FailureModel::MissingInitrd,
            Failure::NotInStore { path } => FailureModel::NotInStore { path: path@ },
            Failure::VersionFormat { path } => FailureModel::VersionFormat { path: path@ },
            Failure::SweepIo { reason } => FailureModel::SweepIo { reason: reason@ },
        }
    }
}

/// A result as contracts speak of it: the view of the value, or of the
/// failure.
pub open spec fn outcome<T: View>(r: Result<T, Failure>) -> Result<T::V, FailureModel> {
    match r {
        Ok(value) => Ok(value@),
        Err(failure) => Err(failure@),
    }
}

} // verus!
