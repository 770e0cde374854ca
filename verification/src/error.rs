//! Error taxonomy of the host framework.
//!
//! Every failure the host can report carries one of these variants; the
//! numeric code of each variant is the only part of an error that crosses
//! the native boundary as a primitive.

use vstd::prelude::*;

verus! {

/// A failure reported by the host or relayed from a plugin.
#[derive(Debug, Clone, PartialEq)]
pub enum Error {
    /// A required argument was absent at the native boundary.
    NullPointer { param: String },
    /// A text argument or protocol field was not valid UTF-8.
    InvalidUTF8,
    /// An options entry held a value of another type than requested.
    WrongType { expected: String },
    /// An options entry was absent.
    ValueNotFound,
    /// A caller-supplied output buffer was smaller than the result.
    InsufficientBuffer,
    /// No provider of this name is registered.
    UnknownProvider { name: String },
    /// No candidate path for the plugin library could be opened.
    PluginLoadFailed { name: String },
    /// The plugin advertised an entry point that does not resolve.
    PluginSymbolError { name: String, symbol: String },
    /// The plugin's ABI generation is unknown to this host.
    PluginInterfaceVersionUnsupported { name: String },
    /// A provider of this name is already registered.
    PluginNameCollision { name: String },
    /// The targeted provider never advertised the requested capability.
    PluginMissingInterface { name: String, ifname: String },
    /// The plugin itself reported a non-zero status.
    PluginInternalError { name: String, code: u32 },
    /// No candidate provider produced a handle for the algorithm.
    UnsupportedAlgorithm { name: String },
}

/// The stable numeric codes, one per kind of failure.
#[allow(non_camel_case_types)]
#[derive(Debug, Clone, Copy, PartialEq, Eq, Structural)]
pub enum ErrorCode {
    UNKNOWN,
    NULL_POINTER,
    INVALID_UTF8,
    WRONG_TYPE,
    VALUE_NOT_FOUND,
    INSUFFICIENT_BUFFER,
    UNKNOWN_PROVIDER,
    PLUGIN_LOAD_FAILED,
    PLUGIN_SYMBOL_ERROR,
    PLUGIN_INITIALIZATION_FAILED,
    PLUGIN_INTERFACE_VERSION_UNSUPPORTED,
    PLUGIN_NAME_COLLISION,
    PLUGIN_MISSING_INTERFACE,
    PLUGIN_INTERNAL_ERROR,
    UNSUPPORTED_ALGORITHM,
}

impl ErrorCode {
    /// The numeric value of this code, as it crosses the native boundary.
    pub open spec fn spec_as_u32(self) -> u32 {
        match self {
            ErrorCode::UNKNOWN => 1,
            ErrorCode::NULL_POINTER => 2,
            ErrorCode::INVALID_UTF8 => 3,
            ErrorCode::WRONG_TYPE => 10,
            ErrorCode::VALUE_NOT_FOUND => 11,
            ErrorCode::INSUFFICIENT_BUFFER => 12,
            ErrorCode::UNKNOWN_PROVIDER => 13,
            ErrorCode::PLUGIN_LOAD_FAILED => 20,
            ErrorCode::PLUGIN_SYMBOL_ERROR => 21,
            ErrorCode::PLUGIN_INITIALIZATION_FAILED => 22,
            ErrorCode::PLUGIN_INTERFACE_VERSION_UNSUPPORTED => 23,
            ErrorCode::PLUGIN_NAME_COLLISION => 24,
            ErrorCode::PLUGIN_MISSING_INTERFACE => 25,
            ErrorCode::PLUGIN_INTERNAL_ERROR => 26,
            ErrorCode::UNSUPPORTED_ALGORITHM => 50,
        }
    }

    #[verifier::when_used_as_spec(spec_as_u32)]
    pub fn as_u32(self) -> (c: u32)
        ensures
            c == self.spec_as_u32(),
    {
        match self {
            ErrorCode::UNKNOWN => 1,
            ErrorCode::NULL_POINTER => 2,
            ErrorCode::INVALID_UTF8 => 3,
            ErrorCode::WRONG_TYPE => 10,
            ErrorCode::VALUE_NOT_FOUND => 11,
            ErrorCode::INSUFFICIENT_BUFFER => 12,
            ErrorCode::UNKNOWN_PROVIDER => 13,
            ErrorCode::PLUGIN_LOAD_FAILED => 20,
            ErrorCode::PLUGIN_SYMBOL_ERROR => 21,
            ErrorCode::PLUGIN_INITIALIZATION_FAILED => 22,
            ErrorCode::PLUGIN_INTERFACE_VERSION_UNSUPPORTED => 23,
            ErrorCode::PLUGIN_NAME_COLLISION => 24,
            ErrorCode::PLUGIN_MISSING_INTERFACE => 25,
            ErrorCode::PLUGIN_INTERNAL_ERROR => 26,
            ErrorCode::UNSUPPORTED_ALGORITHM => 50,
        }
    }
}

impl Error {
    /// The code that classifies this error.
    pub open spec fn spec_error_code(self) -> ErrorCode {
        match self {
            Error::NullPointer { .. } => ErrorCode::NULL_POINTER,
            Error::InvalidUTF8 => ErrorCode::INVALID_UTF8,
            Error::WrongType { .. } => ErrorCode::WRONG_TYPE,
            Error::ValueNotFound => ErrorCode::VALUE_NOT_FOUND,
            Error::InsufficientBuffer => ErrorCode::INSUFFICIENT_BUFFER,
            Error::UnknownProvider { .. } => ErrorCode::UNKNOWN_PROVIDER,
            Error::PluginLoadFailed { .. } => ErrorCode::PLUGIN_LOAD_FAILED,
            Error::PluginSymbolError { .. } => ErrorCode::PLUGIN_SYMBOL_ERROR,
            Error::PluginInterfaceVersionUnsupported { .. } => {
                ErrorCode::PLUGIN_INTERFACE_VERSION_UNSUPPORTED
            },
            Error::PluginNameCollision { .. } => ErrorCode::PLUGIN_NAME_COLLISION,
            Error::PluginMissingInterface { .. } => ErrorCode::PLUGIN_MISSING_INTERFACE,
            Error::PluginInternalError { .. } => ErrorCode::PLUGIN_INTERNAL_ERROR,
            Error::UnsupportedAlgorithm { .. } => ErrorCode::UNSUPPORTED_ALGORITHM,
        }
    }

    /// The numeric code of this error.
    pub open spec fn spec_code(self) -> u32 {
        self.spec_error_code().spec_as_u32()
    }

    pub fn error_code(&self) -> (c: ErrorCode)
        ensures
            c == self.spec_error_code(),
    {
        match self {
            Error::NullPointer { .. } => ErrorCode::NULL_POINTER,
            Error::InvalidUTF8 => ErrorCode::INVALID_UTF8,
            Error::WrongType { .. } => ErrorCode::WRONG_TYPE,
            Error::ValueNotFound => ErrorCode::VALUE_NOT_FOUND,
            Error::InsufficientBuffer => ErrorCode::INSUFFICIENT_BUFFER,
            Error::UnknownProvider { .. } => ErrorCode::UNKNOWN_PROVIDER,
            Error::PluginLoadFailed { .. } => ErrorCode::PLUGIN_LOAD_FAILED,
            Error::PluginSymbolError { .. } => ErrorCode::PLUGIN_SYMBOL_ERROR,
            Error::PluginInterfaceVersionUnsupported { .. } => {
                ErrorCode::PLUGIN_INTERFACE_VERSION_UNSUPPORTED
            },
            Error::PluginNameCollision { .. } => ErrorCode::PLUGIN_NAME_COLLISION,
            Error::PluginMissingInterface { .. } => ErrorCode::PLUGIN_MISSING_INTERFACE,
            Error::PluginInternalError { .. } => ErrorCode::PLUGIN_INTERNAL_ERROR,
            Error::UnsupportedAlgorithm { .. } => ErrorCode::UNSUPPORTED_ALGORITHM,
        }
    }

    /// The numeric code of this error.
    pub fn code(&self) -> (c: u32)
        ensures
            c == self.spec_code(),
    {
        self.error_code().as_u32()
    }
}

} // verus!
