//! Typed errors for every failure the engine can diagnose.
//!
//! Malformed tool output and policy violations are recoverable values,
//! never panics: the backing tool's output is an external, unverified
//! input.  Each variant carries the offending line or name verbatim so
//! a caller can diagnose without re-running.

use vstd::prelude::*;

verus! {

/// One stage of the three-process transfer pipeline.
#[derive(Debug, Clone, Copy, PartialEq, Eq, Structural)]
pub enum Stage {
    /// The process extracting the snapshot range as a byte stream.
    Extract,
    /// The rate/progress monitor in the middle.
    Monitor,
    /// The process applying the stream at the destination.
    Ingest,
}

#[derive(Debug, Clone, PartialEq, Eq)]
pub enum Error {
    /// A listing line did not hold two tab-separated fields.
    MalformedListingLine { line: String },
    /// A snapshot line arrived before any volume line.
    SnapshotBeforeVolume { snapshot: String },
    /// A snapshot line named a volume other than the most recent one.
    SnapshotVolumeMismatch { volume: String, snapshot: String },
    /// A dry-run estimate line did not hold two tab-separated fields.
    MalformedEstimateLine { line: String },
    /// The byte count on a `size` estimate line was not a number.
    BadEstimateSize { line: String },
    /// A property listing line did not hold four tab-separated fields.
    MalformedPropertyLine { line: String },
    /// The destination's newest snapshot is absent from the source
    /// history; the pair cannot be reconciled automatically.
    DivergedDestination { source: String, dest: String },
    /// The source volume has no snapshots to clone from.
    NoSourceSnapshots { source: String },
    /// The named volume is not present in the inventory.
    VolumeNotFound { name: String },
    /// A transfer pipeline stage exited unsuccessfully.
    StageFailed { stage: Stage },
    /// A volume's snapshot convention is not declared in the config.
    UnknownConvention { convention: String, volume: String },
    /// No backup volume is configured for the given filesystem.
    NoBindFound { name: String },
    /// Several backup volumes for one filesystem disagree on the bind
    /// path.
    BindMismatch { name: String },
    /// A configured auth entry was not of the form `KEY=value`.
    MalformedAuth { entry: String },
    /// A record listing line was not a well-formed sequence of
    /// `KEY='value'` pairs.
    MalformedRecordLine { line: String },
    /// Two records described the same logical volume.
    DuplicateRecord { name: String },
    /// No record described the requested volume.
    RecordNotFound { name: String },
}

} // verus!
