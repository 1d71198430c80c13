//! Error taxonomy of the pipeline. No error is recovered internally: each
//! one aborts the enclosing top-level operation.

use vstd::prelude::*;

verus! {

/// Why extraction failed. Extraction is all-or-nothing: any of these aborts
/// the run and no partial schema is ever returned.
#[derive(Clone, Copy, PartialEq, Eq, Structural, Debug)]
pub enum ExtractionError {
    /// The catalog connection could not be established.
    Connection,
    /// A catalog query failed or returned malformed rows.
    Query,
    /// The engine variant is declared but its catalog dialect is not
    /// implemented.
    UnsupportedEngine,
}

/// Why a snapshot could not be saved or restored.
#[derive(Clone, Copy, PartialEq, Eq, Structural, Debug)]
pub enum SnapshotError {
    /// The snapshot file could not be read or written.
    Io,
    /// The snapshot text does not hold a schema.
    Parse,
}

/// Why the rendering fan-out aborted.
#[derive(Clone, Copy, PartialEq, Eq, Structural, Debug)]
pub enum RenderError {
    /// A template names a language with no type-map definition.
    UnknownLanguage,
    /// The template source is missing, unreadable, or failed to render.
    Template,
    /// An output directory or file could not be written.
    OutputIo,
}

} // verus!
