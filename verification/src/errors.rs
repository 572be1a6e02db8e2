//! Errors of reading packet fields.
use vstd::prelude::*;
use std::string::{FromUtf16Error, FromUtf8Error};

verus! {

/// Why a read from the byte stream failed.
#[derive(Debug, Clone, Copy, PartialEq, Eq, Structural)]
pub enum ReadError {
    /// The stream ended before the field was complete (or a varint did not fit its type).
    UnexpectedEof,
    /// The bytes cannot be what the protocol expects.
    InvalidData,
}

/// Why a string field could not be read.
#[derive(Debug)]
pub enum MinecraftStringError {
    FromUtf8Error(FromUtf8Error),
    FromUtf16Error(FromUtf16Error),
    IoError(ReadError),
}

impl From<FromUtf8Error> for MinecraftStringError {
    fn from(err: FromUtf8Error) -> (e: MinecraftStringError) {
        MinecraftStringError::FromUtf8Error(err)
    }
}

impl vstd::std_specs::convert::FromSpecImpl<FromUtf8Error> for MinecraftStringError {
    open spec fn obeys_from_spec() -> bool {
        true
    }

    open spec fn from_spec(err: FromUtf8Error) -> MinecraftStringError {
        MinecraftStringError::FromUtf8Error(err)
    }
}

impl From<FromUtf16Error> for MinecraftStringError {
    fn from(err: FromUtf16Error) -> (e: MinecraftStringError) {
        MinecraftStringError::FromUtf16Error(err)
    }
}

impl vstd::std_specs::convert::FromSpecImpl<FromUtf16Error> for MinecraftStringError {
    open spec fn obeys_from_spec() -> bool {
        true
    }

    open spec fn from_spec(err: FromUtf16Error) -> MinecraftStringError {
        MinecraftStringError::FromUtf16Error(err)
    }
}

impl From<ReadError> for MinecraftStringError {
    fn from(err: ReadError) -> (e: MinecraftStringError) {
        MinecraftStringError::IoError(err)
    }
}

impl vstd::std_specs::convert::FromSpecImpl<ReadError> for MinecraftStringError {
    open spec fn obeys_from_spec() -> bool {
        true
    }

    open spec fn from_spec(err: ReadError) -> MinecraftStringError {
        MinecraftStringError::IoError(err)
    }
}

} // verus!
