//! Error types of the library's parts.

use vstd::prelude::*;

verus! {

/// An I/O error of the standard library, carried through unread.
#[verifier::external_type_specification]
#[verifier::external_body]
pub struct ExIoError(std::io::Error);

/// Errors that can occur during configuration operations.
#[derive(Debug)]
pub enum ConfigError {
    ReadError(std::io::Error),
    ParseError(String),
    SerializeError(String),
    InvalidConfig(String),
}

/// Error types for viewer connection operations.
#[derive(Debug)]
pub enum RerunError {
    SpawnFailed(String),
    ConnectionFailed(String),
    LogError(String),
    NotConnected,
}

/// Mesh loading errors.
#[derive(Debug)]
pub enum MeshError {
    FileReadError(std::io::Error),
    ParseError(String),
    UnsupportedFormat(String),
    InvalidMesh(String),
}

/// Robot description parsing errors.
#[derive(Debug)]
pub enum UrdfError {
    FileReadError(std::io::Error),
    ParseError(String),
    InvalidStructure(String),
    MissingElement(String),
}

/// Errors that can occur during bag playback.
#[derive(Debug)]
pub enum RosBagError {
    OpenError(String),
    ReadError(String),
    ParseError(String),
    TransformError(String, String),
    UnsupportedType(String),
    IoError(std::io::Error),
}

} // verus!
