//! What can go wrong when messages are exchanged over the serial port.
use vstd::prelude::*;

use crate::text::usize_to_string;

verus! {

use crate::text::decimal;

/// A failure of the serial port.
#[derive(Debug)]
pub enum SerialError {
    /// The serial port accepted or delivered no bytes at all.
    UnexpectedEof,
    /// The operating system reported an error, described by the text.
    Io(String),
}

/// A failure to send or receive a message.
#[derive(Debug)]
pub enum Error {
    /// The serial port failed.
    SerialPort(SerialError),
    /// The message was not sent or received in time.
    TimeoutElapsed,
    /// The incoming message is damaged.
    InvalidMessagePayload { reason: &'static str },
    /// Payload of outgoing message is too large.
    MessagePayloadTooLarge { actual: usize, max_payload_size: usize },
    /// Payload of incoming message is too large:
    /// the buffer is full before we found the end, or the payload is larger than allowed.
    BufferFull { max_payload_size: usize },
}

/// A failure of the serial port, with its text as a sequence of characters.
pub enum SerialErrorView {
    UnexpectedEof,
    Io(Seq<char>),
}

/// A failure to send or receive a message, with its texts as sequences of characters.
pub enum ErrorView {
    SerialPort(SerialErrorView),
    TimeoutElapsed,
    InvalidMessagePayload { reason: Seq<char> },
    MessagePayloadTooLarge { actual: usize, max_payload_size: usize },
    BufferFull { max_payload_size: usize },
}

impl View for SerialError {
    type V = SerialErrorView;

    open spec fn view(&self) -> SerialErrorView {
        match self {
            SerialError::UnexpectedEof => SerialErrorView::UnexpectedEof,
            SerialError::Io(text) => SerialErrorView::Io(text@),
        }
    }
}

impl View for Error {
    type V = ErrorView;

    open spec fn view(&self) -> ErrorView {
        match self {
            Error::SerialPort(error) => ErrorView::SerialPort(error@),
            Error::TimeoutElapsed => ErrorView::TimeoutElapsed,
            Error::InvalidMessagePayload { reason } => ErrorView::InvalidMessagePayload {
                reason: reason@,
            },
            Error::MessagePayloadTooLarge {
                actual,
                max_payload_size,
            } => ErrorView::MessagePayloadTooLarge {
                actual: *actual,
                max_payload_size: *max_payload_size,
            },
            Error::BufferFull { max_payload_size } => ErrorView::BufferFull {
                max_payload_size: *max_payload_size,
            },
        }
    }
}

/// The description of a failure of the serial port.
pub open spec fn serial_error_text(error: SerialErrorView) -> Seq<char> {
    match error {
        SerialErrorView::UnexpectedEof => "unexpected end of file"@,
        SerialErrorView::Io(text) => text,
    }
}

/// The description of a failure to send or receive a message.
pub open spec fn error_text(error: ErrorView) -> Seq<char> {
    match error {
        ErrorView::SerialPort(error) => "I/O error on serial port: "@ + serial_error_text(error),
        ErrorView::TimeoutElapsed => "timeout elapsed"@,
        ErrorView::InvalidMessagePayload { reason } => "invalid message payload: "@ + reason,
        ErrorView::MessagePayloadTooLarge { actual, max_payload_size } => {
            "message payload too large: "@ + decimal(actual as nat)
                + " bytes, maximum allowed is "@ + decimal(max_payload_size as nat)
        },
        ErrorView::BufferFull { max_payload_size } => {
            "incoming message too large: receive buffer is already full ("@ + decimal(
                max_payload_size as nat,
            ) + " bytes)"@
        },
    }
}

impl SerialError {
    /// The description of the failure.
    pub fn message(&self) -> (text: String)
        ensures
            text@ == serial_error_text(self@),
    {
        match self {
            SerialError::UnexpectedEof => "unexpected end of file".to_string(),
            SerialError::Io(text) => text.clone(),
        }
    }
}

impl Error {
    /// The description of the failure.
    pub fn message(&self) -> (text: String)
        ensures
            text@ == error_text(self@),
    {
        match self {
            Error::SerialPort(error) => "I/O error on serial port: ".to_string().concat(
                error.message().as_str(),
            ),
            Error::TimeoutElapsed => "timeout elapsed".to_string(),
            Error::InvalidMessagePayload { reason } => "invalid message payload: ".to_string()
                .concat(reason),
            Error::MessagePayloadTooLarge { actual, max_payload_size } => {
                "message payload too large: ".to_string()
                    .concat(usize_to_string(*actual).as_str())
                    .concat(" bytes, maximum allowed is ")
                    .concat(usize_to_string(*max_payload_size).as_str())
            },
            Error::BufferFull { max_payload_size } => {
                "incoming message too large: receive buffer is already full (".to_string()
                    .concat(usize_to_string(*max_payload_size).as_str())
                    .concat(" bytes)")
            },
        }
    }
}

/// The type that `tokio::time::timeout` reports an elapsed timeout with.
#[verifier::external_type_specification]
#[verifier::external_body]
pub struct ExElapsed(tokio::time::error::Elapsed);

impl From<tokio::time::error::Elapsed> for Error {
    fn from(elapsed: tokio::time::error::Elapsed) -> (error: Self) {
        Error::TimeoutElapsed
    }
}

impl vstd::std_specs::convert::FromSpecImpl<tokio::time::error::Elapsed> for Error {
    open spec fn obeys_from_spec() -> bool {
        true
    }

    open spec fn from_spec(elapsed: tokio::time::error::Elapsed) -> Self {
        Error::TimeoutElapsed
    }
}

/// An error is spoken of as it is.
pub proof fn law_error_is_spoken_of_as_it_is(error: Error)
    ensures
        error matches Error::SerialPort(SerialError::UnexpectedEof) ==> error@
            == ErrorView::SerialPort(SerialErrorView::UnexpectedEof),
        error matches Error::SerialPort(SerialError::Io(text)) ==> error@ == ErrorView::SerialPort(
            SerialErrorView::Io(text@),
        ),
        error is TimeoutElapsed ==> error@ is TimeoutElapsed,
        error matches Error::InvalidMessagePayload { reason } ==> error@ == (
        ErrorView::InvalidMessagePayload { reason: reason@ }),
        error matches Error::MessagePayloadTooLarge { actual, max_payload_size } ==> error@ == (
        ErrorView::MessagePayloadTooLarge { actual, max_payload_size }),
        error matches Error::BufferFull { max_payload_size } ==> error@ == (ErrorView::BufferFull {
            max_payload_size,
        }),
{
}

/// The description of an error names its kind and shows every text and number in it, whole.
pub proof fn law_description_shows_what_is_known(
    text: Seq<char>,
    actual: usize,
    max_payload_size: usize,
)
    ensures
        error_text(ErrorView::SerialPort(SerialErrorView::Io(text)))
            == "I/O error on serial port: "@ + text,
        error_text(ErrorView::SerialPort(SerialErrorView::UnexpectedEof))
            == "I/O error on serial port: "@ + "unexpected end of file"@,
        serial_error_text(SerialErrorView::Io(text)) == text,
        serial_error_text(SerialErrorView::UnexpectedEof) == "unexpected end of file"@,
        error_text(ErrorView::TimeoutElapsed) == "timeout elapsed"@,
        error_text(ErrorView::InvalidMessagePayload { reason: text })
            == "invalid message payload: "@ + text,
        error_text(ErrorView::MessagePayloadTooLarge { actual, max_payload_size })
            == "message payload too large: "@ + decimal(actual as nat)
            + " bytes, maximum allowed is "@ + decimal(max_payload_size as nat),
        error_text(ErrorView::BufferFull { max_payload_size })
            == "incoming message too large: receive buffer is already full ("@ + decimal(
            max_payload_size as nat,
        ) + " bytes)"@,
{
}

} // verus!
