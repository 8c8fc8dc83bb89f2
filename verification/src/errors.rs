//! Error types shared by the format converters.

use vstd::prelude::*;

verus! {

/// Errors to be expected while parsing.
#[derive(Debug)]
pub enum ParsingError {
    /// Binary format error: the frame does not start with the magic header.
    InvalidMagicHeader,
    /// Binary format error: there is not enough data for a record, or the
    /// declared sizes are inconsistent.
    WrongRecordData,
    /// Wrong transaction id type, e.g. not a `u64`.
    WrongTxId,
    /// Wrong transaction type (not a `TxType`).
    WrongTxType,
    /// Wrong transaction status (not a `TxStatus`).
    WrongStatusType,
    /// Empty file where a header was required.
    EmptyFile,
    /// Sheet format error: a row whose field count differs from the header's.
    WrongColumnCount {
        /// 1-based row number in the input
        line_number: usize,
        /// number of columns the header declares
        header: usize,
        /// number of fields the row actually has
        values: usize,
    },
    /// Sheet and text format error: a required key is absent.
    MissingKey {
        /// the absent key
        key: String,
    },
    /// Sheet and text format error: a key is present but its value does not parse.
    WrongKey {
        /// the offending key
        key: String,
    },
    /// Failure of the underlying stream, wrapped by the caller that did the reading.
    IoError {
        /// description of the stream failure
        message: String,
    },
    /// Invalid byte sequence where UTF-8 encoded text was expected.
    Utf8Error,
}

/// The mathematical value of a [`ParsingError`]: the same variants with
/// strings abstracted to character sequences and the io message dropped.
pub ghost enum ParsingErrorV {
    InvalidMagicHeader,
    WrongRecordData,
    WrongTxId,
    WrongTxType,
    WrongStatusType,
    EmptyFile,
    WrongColumnCount { line_number: int, header: int, values: int },
    MissingKey { key: Seq<char> },
    WrongKey { key: Seq<char> },
    IoError,
    Utf8Error,
}

impl View for ParsingError {
    type V = ParsingErrorV;

    open spec fn view(&self) -> ParsingErrorV {
        match self {
            ParsingError::InvalidMagicHeader => ParsingErrorV::InvalidMagicHeader,
            ParsingError::WrongRecordData => ParsingErrorV::WrongRecordData,
            ParsingError::WrongTxId => ParsingErrorV::WrongTxId,
            ParsingError::WrongTxType => ParsingErrorV::WrongTxType,
            ParsingError::WrongStatusType => ParsingErrorV::WrongStatusType,
            ParsingError::EmptyFile => ParsingErrorV::EmptyFile,
            ParsingError::WrongColumnCount { line_number, header, values } => {
                ParsingErrorV::WrongColumnCount {
                    line_number: *line_number as int,
                    header: *header as int,
                    values: *values as int,
                }
            },
            ParsingError::MissingKey { key } => ParsingErrorV::MissingKey { key: key@ },
            ParsingError::WrongKey { key } => ParsingErrorV::WrongKey { key: key@ },
            ParsingError::IoError { message: _ } => ParsingErrorV::IoError,
            ParsingError::Utf8Error => ParsingErrorV::Utf8Error,
        }
    }
}

impl ParsingError {
    /// The printed description of the error.
    pub open spec fn spec_message(&self) -> Seq<char> {
        match self {
            ParsingError::InvalidMagicHeader => "Invalid magic header"@,
            ParsingError::WrongRecordData => "Corrupted record data"@,
            ParsingError::WrongTxId => "Invalid transaction ID"@,
            ParsingError::WrongTxType => "Invalid transaction type"@,
            ParsingError::WrongStatusType => "Invalid transaction status"@,
            ParsingError::EmptyFile => "File is empty"@,
            ParsingError::WrongColumnCount { line_number, header, values } => "Error in row "@
                + crate::num::spec_u64_str(*line_number as u64) + ": expected "@
                + crate::num::spec_u64_str(*header as u64) + " columns, found "@
                + crate::num::spec_u64_str(*values as u64),
            ParsingError::MissingKey { key } => "Missing key "@ + key@,
            ParsingError::WrongKey { key } => "Error parsing key "@ + key@,
            ParsingError::IoError { message } => "IO error: "@ + message@,
            ParsingError::Utf8Error => "Invalid UTF-8 data"@,
        }
    }

    /// Renders the error for display.
    pub fn message(&self) -> (s: String)
        ensures
            s@ == self.spec_message(),
    {
        let mut out: Vec<char> = Vec::new();
        match self {
            ParsingError::InvalidMagicHeader => {
                let t = crate::text::string_to_chars("Invalid magic header");
                crate::text::push_chars(&mut out, &t);
            },
            ParsingError::WrongRecordData => {
                let t = crate::text::string_to_chars("Corrupted record data");
                crate::text::push_chars(&mut out, &t);
            },
            ParsingError::WrongTxId => {
                let t = crate::text::string_to_chars("Invalid transaction ID");
                crate::text::push_chars(&mut out, &t);
            },
            ParsingError::WrongTxType => {
                let t = crate::text::string_to_chars("Invalid transaction type");
                crate::text::push_chars(&mut out, &t);
            },
            ParsingError::WrongStatusType => {
                let t = crate::text::string_to_chars("Invalid transaction status");
                crate::text::push_chars(&mut out, &t);
            },
            ParsingError::EmptyFile => {
                let t = crate::text::string_to_chars("File is empty");
                crate::text::push_chars(&mut out, &t);
            },
            ParsingError::WrongColumnCount { line_number, header, values } => {
                let t = crate::text::string_to_chars("Error in row ");
                crate::text::push_chars(&mut out, &t);
                let n = crate::num::u64_to_chars(*line_number as u64);
                crate::text::push_chars(&mut out, &n);
                let t2 = crate::text::string_to_chars(": expected ");
                crate::text::push_chars(&mut out, &t2);
                let n2 = crate::num::u64_to_chars(*header as u64);
                crate::text::push_chars(&mut out, &n2);
                let t3 = crate::text::string_to_chars(" columns, found ");
                crate::text::push_chars(&mut out, &t3);
                let n3 = crate::num::u64_to_chars(*values as u64);
                crate::text::push_chars(&mut out, &n3);
            },
            ParsingError::MissingKey { key } => {
                let t = crate::text::string_to_chars("Missing key ");
                crate::text::push_chars(&mut out, &t);
                let k = crate::text::string_to_chars(key.as_str());
                crate::text::push_chars(&mut out, &k);
            },
            ParsingError::WrongKey { key } => {
                let t = crate::text::string_to_chars("Error parsing key ");
                crate::text::push_chars(&mut out, &t);
                let k = crate::text::string_to_chars(key.as_str());
                crate::text::push_chars(&mut out, &k);
            },
            ParsingError::IoError { message } => {
                let t = crate::text::string_to_chars("IO error: ");
                crate::text::push_chars(&mut out, &t);
                let m = crate::text::string_to_chars(message.as_str());
                crate::text::push_chars(&mut out, &m);
            },
            ParsingError::Utf8Error => {
                let t = crate::text::string_to_chars("Invalid UTF-8 data");
                crate::text::push_chars(&mut out, &t);
            },
        }
        crate::text::chars_to_string(&out)
    }
}

/// Errors to be expected while converting.
#[derive(Debug)]
pub enum ConvertingError {
    /// Failure of the underlying stream, wrapped by the caller that did the writing.
    IoError {
        /// description of the stream failure
        message: String,
    },
    /// A parsing error, wrapped.
    Parsing(ParsingError),
    /// Unexpected errors, such as a record no output frame can carry.
    Unknown,
}

/// The mathematical value of a [`ConvertingError`].
pub ghost enum ConvertingErrorV {
    IoError,
    Parsing(ParsingErrorV),
    Unknown,
}

impl View for ConvertingError {
    type V = ConvertingErrorV;

    open spec fn view(&self) -> ConvertingErrorV {
        match self {
            ConvertingError::IoError { message: _ } => ConvertingErrorV::IoError,
            ConvertingError::Parsing(e) => ConvertingErrorV::Parsing(e@),
            ConvertingError::Unknown => ConvertingErrorV::Unknown,
        }
    }
}

impl ConvertingError {
    /// The printed description of the error.
    pub open spec fn spec_message(&self) -> Seq<char> {
        match self {
            ConvertingError::IoError { message } => "IO error: "@ + message@,
            ConvertingError::Parsing(e) => "Parsing error: "@ + e.spec_message(),
            ConvertingError::Unknown => "Unknown error occurred"@,
        }
    }

    /// Renders the error for display.
    pub fn message(&self) -> (s: String)
        ensures
            s@ == self.spec_message(),
    {
        let mut out: Vec<char> = Vec::new();
        match self {
            ConvertingError::IoError { message } => {
                let t = crate::text::string_to_chars("IO error: ");
                crate::text::push_chars(&mut out, &t);
                let m = crate::text::string_to_chars(message.as_str());
                crate::text::push_chars(&mut out, &m);
            },
            ConvertingError::Parsing(e) => {
                let t = crate::text::string_to_chars("Parsing error: ");
                crate::text::push_chars(&mut out, &t);
                let inner = e.message();
                let m = crate::text::string_to_chars(inner.as_str());
                crate::text::push_chars(&mut out, &m);
            },
            ConvertingError::Unknown => {
                let t = crate::text::string_to_chars("Unknown error occurred");
                crate::text::push_chars(&mut out, &t);
            },
        }
        crate::text::chars_to_string(&out)
    }
}

/// Main logic error in an application built on the converters.
#[derive(Debug)]
pub enum AppError {
    /// Failure of the underlying stream while reading or converting.
    Io {
        /// description of the stream failure
        message: String,
    },
    /// Converting errors, wrapped.
    Convert(ConvertingError),
    /// Parsing errors, wrapped.
    Parse(ParsingError),
}

impl From<ParsingError> for ConvertingError {
    fn from(e: ParsingError) -> (r: ConvertingError) {
        ConvertingError::Parsing(e)
    }
}

impl vstd::std_specs::convert::FromSpecImpl<ParsingError> for ConvertingError {
    open spec fn obeys_from_spec() -> bool {
        true
    }

    open spec fn from_spec(e: ParsingError) -> ConvertingError {
        ConvertingError::Parsing(e)
    }
}

impl From<ParsingError> for AppError {
    fn from(e: ParsingError) -> (r: AppError) {
        AppError::Parse(e)
    }
}

impl vstd::std_specs::convert::FromSpecImpl<ParsingError> for AppError {
    open spec fn obeys_from_spec() -> bool {
        true
    }

    open spec fn from_spec(e: ParsingError) -> AppError {
        AppError::Parse(e)
    }
}

impl From<ConvertingError> for AppError {
    fn from(e: ConvertingError) -> (r: AppError) {
        AppError::Convert(e)
    }
}

impl vstd::std_specs::convert::FromSpecImpl<ConvertingError> for AppError {
    open spec fn obeys_from_spec() -> bool {
        true
    }

    open spec fn from_spec(e: ConvertingError) -> AppError {
        AppError::Convert(e)
    }
}

} // verus!
