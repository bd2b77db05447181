//! The error codes of HTTP/3, and the one that a bad frame closes the
//! connection with.
use crate::frame::FrameProtocolError;
use vstd::prelude::*;

verus! {

/// An error code of HTTP/3.
#[allow(non_camel_case_types)]
#[derive(Clone, Copy, Debug, PartialEq, Eq, Structural)]
pub enum Code {
    /// Datagram or Capsule Protocol parse error
    H3_DATAGRAM_ERROR,
    /// No error
    H3_NO_ERROR,
    /// The peer broke the protocol in a way no other code is for.
    H3_GENERAL_PROTOCOL_ERROR,
    /// Something went wrong on this side.
    H3_INTERNAL_ERROR,
    /// The peer opened a stream that is not accepted.
    H3_STREAM_CREATION_ERROR,
    /// A stream that the connection needs was closed.
    H3_CLOSED_CRITICAL_STREAM,
    /// A frame that may not stand where it stood.
    H3_FRAME_UNEXPECTED,
    /// A frame that breaks the layout of its type or has the wrong size.
    H3_FRAME_ERROR,
    /// The peer makes for too much work.
    H3_EXCESSIVE_LOAD,
    /// An identifier that cannot be used.
    H3_ID_ERROR,
    /// An error in the payload of a SETTINGS frame.
    H3_SETTINGS_ERROR,
    /// No SETTINGS frame at the start of the control stream.
    H3_MISSING_SETTINGS,
    /// A request was not looked at.
    H3_REQUEST_REJECTED,
    /// A request or its response is no longer wanted.
    H3_REQUEST_CANCELLED,
    /// The stream of a request ended before the request did.
    H3_REQUEST_INCOMPLETE,
    /// A message that is not well-formed.
    H3_MESSAGE_ERROR,
    /// A CONNECT request whose connection was lost.
    H3_CONNECT_ERROR,
    /// The request has to be made over HTTP/1.1.
    H3_VERSION_FALLBACK,
    /// A field section that could not be decoded.
    QPACK_DECOMPRESSION_FAILED,
    /// An instruction on the encoder stream that could not be understood.
    QPACK_ENCODER_STREAM_ERROR,
    /// An instruction on the decoder stream that could not be understood.
    QPACK_DECODER_STREAM_ERROR,
}

impl Code {
    /// The number that stands for the code on the wire.
    pub open spec fn number(self) -> u64 {
        match self {
            Code::H3_DATAGRAM_ERROR => 0x33,
            Code::H3_NO_ERROR => 0x100,
            Code::H3_GENERAL_PROTOCOL_ERROR => 0x101,
            Code::H3_INTERNAL_ERROR => 0x102,
            Code::H3_STREAM_CREATION_ERROR => 0x103,
            Code::H3_CLOSED_CRITICAL_STREAM => 0x104,
            Code::H3_FRAME_UNEXPECTED => 0x105,
            Code::H3_FRAME_ERROR => 0x106,
            Code::H3_EXCESSIVE_LOAD => 0x107,
            Code::H3_ID_ERROR => 0x108,
            Code::H3_SETTINGS_ERROR => 0x109,
            Code::H3_MISSING_SETTINGS => 0x10a,
            Code::H3_REQUEST_REJECTED => 0x10b,
            Code::H3_REQUEST_CANCELLED => 0x10c,
            Code::H3_REQUEST_INCOMPLETE => 0x10d,
            Code::H3_MESSAGE_ERROR => 0x10e,
            Code::H3_CONNECT_ERROR => 0x10f,
            Code::H3_VERSION_FALLBACK => 0x110,
            Code::QPACK_DECOMPRESSION_FAILED => 0x200,
            Code::QPACK_ENCODER_STREAM_ERROR => 0x201,
            Code::QPACK_DECODER_STREAM_ERROR => 0x202,
        }
    }

    pub fn value(self) -> (number: u64)
        ensures
            number == self.number(),
            match self {
                Code::H3_DATAGRAM_ERROR => number == 0x33,
                Code::H3_NO_ERROR => number == 0x100,
                Code::H3_GENERAL_PROTOCOL_ERROR => number == 0x101,
                Code::H3_INTERNAL_ERROR => number == 0x102,
                Code::H3_STREAM_CREATION_ERROR => number == 0x103,
                Code::H3_CLOSED_CRITICAL_STREAM => number == 0x104,
                Code::H3_FRAME_UNEXPECTED => number == 0x105,
                Code::H3_FRAME_ERROR => number == 0x106,
                Code::H3_EXCESSIVE_LOAD => number == 0x107,
                Code::H3_ID_ERROR => number == 0x108,
                Code::H3_SETTINGS_ERROR => number == 0x109,
                Code::H3_MISSING_SETTINGS => number == 0x10a,
                Code::H3_REQUEST_REJECTED => number == 0x10b,
                Code::H3_REQUEST_CANCELLED => number == 0x10c,
                Code::H3_REQUEST_INCOMPLETE => number == 0x10d,
                Code::H3_MESSAGE_ERROR => number == 0x10e,
                Code::H3_CONNECT_ERROR => number == 0x10f,
                Code::H3_VERSION_FALLBACK => number == 0x110,
                Code::QPACK_DECOMPRESSION_FAILED => number == 0x200,
                Code::QPACK_ENCODER_STREAM_ERROR => number == 0x201,
                Code::QPACK_DECODER_STREAM_ERROR => number == 0x202,
            },
    {
        match self {
            Code::H3_DATAGRAM_ERROR => 0x33,
            Code::H3_NO_ERROR => 0x100,
            Code::H3_GENERAL_PROTOCOL_ERROR => 0x101,
            Code::H3_INTERNAL_ERROR => 0x102,
            Code::H3_STREAM_CREATION_ERROR => 0x103,
            Code::H3_CLOSED_CRITICAL_STREAM => 0x104,
            Code::H3_FRAME_UNEXPECTED => 0x105,
            Code::H3_FRAME_ERROR => 0x106,
            Code::H3_EXCESSIVE_LOAD => 0x107,
            Code::H3_ID_ERROR => 0x108,
            Code::H3_SETTINGS_ERROR => 0x109,
            Code::H3_MISSING_SETTINGS => 0x10a,
            Code::H3_REQUEST_REJECTED => 0x10b,
            Code::H3_REQUEST_CANCELLED => 0x10c,
            Code::H3_REQUEST_INCOMPLETE => 0x10d,
            Code::H3_MESSAGE_ERROR => 0x10e,
            Code::H3_CONNECT_ERROR => 0x10f,
            Code::H3_VERSION_FALLBACK => 0x110,
            Code::QPACK_DECOMPRESSION_FAILED => 0x200,
            Code::QPACK_ENCODER_STREAM_ERROR => 0x201,
            Code::QPACK_DECODER_STREAM_ERROR => 0x202,
        }
    }
}

/// What a connection is closed with.
#[derive(Clone, Copy, Debug, PartialEq, Eq, Structural)]
pub struct InternalConnectionError {
    pub code: Code,
}

impl InternalConnectionError {
    /// The code for a frame that was refused.
    pub open spec fn frame_error_code(e: FrameProtocolError) -> Code {
        match e {
            FrameProtocolError::TooLarge { .. } => Code::H3_EXCESSIVE_LOAD,
            FrameProtocolError::Malformed => Code::H3_FRAME_ERROR,
            FrameProtocolError::InvalidFrameValue => Code::H3_FRAME_ERROR,
            FrameProtocolError::ForbiddenFrame(_) => Code::H3_FRAME_UNEXPECTED,
            FrameProtocolError::Settings(_) => Code::H3_SETTINGS_ERROR,
            FrameProtocolError::InvalidStreamId(_) => Code::H3_ID_ERROR,
            FrameProtocolError::InvalidPushId(_) => Code::H3_ID_ERROR,
        }
    }

    /// What a refused frame closes the connection with.
    pub fn got_frame_error(value: FrameProtocolError) -> (error: InternalConnectionError)
        ensures
            error.code == Self::frame_error_code(value),
            value is TooLarge ==> error.code == Code::H3_EXCESSIVE_LOAD,
            value is Malformed || value is InvalidFrameValue ==> error.code
                == Code::H3_FRAME_ERROR,
            value is ForbiddenFrame ==> error.code == Code::H3_FRAME_UNEXPECTED,
            value is Settings ==> error.code == Code::H3_SETTINGS_ERROR,
            value is InvalidStreamId || value is InvalidPushId ==> error.code == Code::H3_ID_ERROR,
    {
        let code = match value {
            FrameProtocolError::TooLarge { .. } => Code::H3_EXCESSIVE_LOAD,
            FrameProtocolError::Malformed => Code::H3_FRAME_ERROR,
            FrameProtocolError::InvalidFrameValue => Code::H3_FRAME_ERROR,
            FrameProtocolError::ForbiddenFrame(_) => Code::H3_FRAME_UNEXPECTED,
            FrameProtocolError::Settings(_) => Code::H3_SETTINGS_ERROR,
            FrameProtocolError::InvalidStreamId(_) => Code::H3_ID_ERROR,
            FrameProtocolError::InvalidPushId(_) => Code::H3_ID_ERROR,
        };
        InternalConnectionError { code }
    }
}

} // verus!
