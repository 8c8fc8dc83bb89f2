//! YPBank transaction records and the converters between their three
//! on-disk representations: a length-framed binary format, a comma-separated
//! sheet format, and a block-structured key/value text format.
//!
//! Every converter parses from and serialises to in-memory byte vectors;
//! reading and writing actual files is left to the callers.

use vstd::prelude::*;

/// Binary format reader/writer implementation
pub mod bin_format;

/// CSV format reader/writer implementation
pub mod csv_format;

/// Common error types for parsing and converting
pub mod errors;

/// Decimal rendering and parsing helpers
pub mod num;

/// Character-level text helpers
pub mod text;

/// Facts about the formats' fixed names and separators
pub mod tokens;

/// TXT format reader/writer implementation
pub mod txt_format;

use errors::{ConvertingError, ParsingError, ParsingErrorV};

verus! {

/// Byte size of the fixed-width fields of a binary record body, without the
/// variable-length description.
pub const MIN_FIXED_SIZE: u32 = 8 + 1 + 8 + 8 + 8 + 8 + 1 + 4;

/// Transaction kinds.
#[allow(non_camel_case_types)]
#[derive(Debug, Clone, Copy, PartialEq, Eq, Structural)]
pub enum TxType {
    /// User deposited funds
    DEPOSIT,
    /// User withdrew funds
    WITHDRAWAL,
    /// Transfer from one user to another
    TRANSFER,
}

/// Transaction statuses.
#[allow(non_camel_case_types)]
#[derive(Debug, Clone, Copy, PartialEq, Eq, Structural)]
pub enum TxStatus {
    /// Failed transaction
    FAILURE,
    /// Pending transaction
    PENDING,
    /// Successful transaction
    SUCCESS,
}

/// One transaction record, the common in-memory form all converters share.
#[derive(Debug)]
pub struct Record {
    /// Transaction type
    pub tx_type: TxType,
    /// Transaction status
    pub tx_status: TxStatus,
    /// User which receives the funds
    pub to_user_id: u64,
    /// Transaction initiator
    pub from_user_id: u64,
    /// Timestamp of the transaction, in milliseconds
    pub timestamp: u64,
    /// Free-text description
    pub description: String,
    /// Transaction id
    pub tx_id: u64,
    /// Transaction amount in $USD
    pub amount: u64,
}

/// The mathematical value of a [`Record`]: the same fields, with the
/// description abstracted to its character sequence.
#[verifier::ext_equal]
pub ghost struct RecordV {
    pub tx_type: TxType,
    pub tx_status: TxStatus,
    pub to_user_id: u64,
    pub from_user_id: u64,
    pub timestamp: u64,
    pub description: Seq<char>,
    pub tx_id: u64,
    pub amount: u64,
}

impl View for Record {
    type V = RecordV;

    open spec fn view(&self) -> RecordV {
        RecordV {
            tx_type: self.tx_type,
            tx_status: self.tx_status,
            to_user_id: self.to_user_id,
            from_user_id: self.from_user_id,
            timestamp: self.timestamp,
            description: self.description@,
            tx_id: self.tx_id,
            amount: self.amount,
        }
    }
}

impl DeepView for Record {
    type V = RecordV;

    open spec fn deep_view(&self) -> RecordV {
        self.view()
    }
}

impl PartialEq for Record {
    fn eq(&self, other: &Record) -> (r: bool) {
        let fields_eq = self.tx_type == other.tx_type && self.tx_status == other.tx_status
            && self.to_user_id == other.to_user_id && self.from_user_id == other.from_user_id
            && self.timestamp == other.timestamp && self.tx_id == other.tx_id
            && self.amount == other.amount && self.description == other.description;
        proof {
            if fields_eq {
                assert(self@ =~= other@);
            }
        }
        fields_eq
    }
}

impl vstd::std_specs::cmp::PartialEqSpecImpl for Record {
    open spec fn obeys_eq_spec() -> bool {
        true
    }

    open spec fn eq_spec(&self, other: &Record) -> bool {
        self@ == other@
    }
}

/// Supported file formats for converting.
#[derive(Debug, Clone, Copy, PartialEq, Eq, Structural)]
pub enum Format {
    /// Binary format (`.bin`)
    Bin,
    /// Text format (`.txt`)
    Txt,
    /// Sheet format (`.csv`)
    Csv,
}

impl Format {
    /// The lowercase name of the format, as a character sequence.
    pub open spec fn spec_str(&self) -> Seq<char> {
        match self {
            Format::Bin => seq!['b', 'i', 'n'],
            Format::Txt => seq!['t', 'x', 't'],
            Format::Csv => seq!['c', 's', 'v'],
        }
    }

    /// Returns the lowercase string representation of the format.
    pub fn as_str(&self) -> (s: &'static str)
        ensures
            s@ == self.spec_str(),
    {
        proof {
            reveal_strlit("bin");
            reveal_strlit("txt");
            reveal_strlit("csv");
        }
        match self {
            Format::Bin => "bin",
            Format::Txt => "txt",
            Format::Csv => "csv",
        }
    }
}

/// A main interface for reading and writing transaction data in various
/// formats.
///
/// Each format is specified by three mathematical functions: what parsing a
/// byte stream yields, what bytes encoding a record set yields, and which
/// record sets the format can frame at all.  The executable operations are
/// bound to those functions by their contracts.
pub trait Converter: Sized {
    /// The records a successful parse of `data` yields, or the first error
    /// parsing runs into.
    spec fn spec_parse(data: Seq<u8>) -> Result<Seq<RecordV>, ParsingErrorV>;

    /// The bytes that encode `records` in this format.
    spec fn spec_encode(records: Seq<RecordV>) -> Seq<u8>;

    /// Whether every record of `records` fits the format's frames.
    spec fn spec_encodable(records: Seq<RecordV>) -> bool;

    /// The decoded records this converter holds.
    spec fn records_view(&self) -> Seq<RecordV>;

    /// Reads and parses records from the provided bytes.
    fn from_read(data: &Vec<u8>) -> (res: Result<Self, ParsingError>)
        ensures
            match res {
                Ok(c) => Self::spec_parse(data@) == Ok::<Seq<RecordV>, ParsingErrorV>(
                    c.records_view(),
                ),
                Err(e) => Self::spec_parse(data@) == Err::<Seq<RecordV>, ParsingErrorV>(e@),
            },
    ;

    /// Appends the encoding of `records` to `out`; on failure nothing is
    /// appended.
    fn write_to(records: &Vec<Record>, out: &mut Vec<u8>) -> (res: Result<(), ConvertingError>)
        ensures
            match res {
                Ok(_) => Self::spec_encodable(records.deep_view()) && final(out)@ == old(out)@
                    + Self::spec_encode(records.deep_view()),
                Err(_) => !Self::spec_encodable(records.deep_view()) && final(out)@ == old(out)@,
            },
    ;

    /// Returns the internal records.
    fn as_records(&self) -> (r: &Vec<Record>)
        ensures
            r.deep_view() == self.records_view(),
    ;
}

/// Whether `a` and `b` hold equal records in the same order; comparison is
/// index-paired, field by field.
pub fn records_equal(a: &Vec<Record>, b: &Vec<Record>) -> (r: bool)
    ensures
        r == (a.deep_view() == b.deep_view()),
{
    if a.len() != b.len() {
        proof {
            assert(a.deep_view().len() != b.deep_view().len());
        }
        return false;
    }
    let mut i: usize = 0;
    while i < a.len()
        invariant
            i <= a@.len(),
            a@.len() == b@.len(),
            forall|j: int| 0 <= j < i ==> a.deep_view()[j] == b.deep_view()[j],
        decreases a@.len() - i,
    {
        if !(a[i] == b[i]) {
            proof {
                assert(a.deep_view()[i as int] != b.deep_view()[i as int]);
            }
            return false;
        }
        i = i + 1;
    }
    proof {
        assert(a.deep_view() =~= b.deep_view());
    }
    true
}

/// Decodes `data` as format `F` and encodes the decoded records as format
/// `T`; the records pass through unchanged.
pub fn convert<F: Converter, T: Converter>(data: &Vec<u8>) -> (res: Result<
    Vec<u8>,
    ConvertingError,
>)
    ensures
        match res {
            Ok(out) => {
                &&& F::spec_parse(data@) is Ok
                &&& T::spec_encodable(F::spec_parse(data@)->Ok_0)
                &&& out@ == T::spec_encode(F::spec_parse(data@)->Ok_0)
            },
            Err(e) => match F::spec_parse(data@) {
                Err(pe) => e@ == errors::ConvertingErrorV::Parsing(pe),
                Ok(rs) => !T::spec_encodable(rs),
            },
        },
{
    let parsed = match F::from_read(data) {
        Ok(c) => c,
        Err(e) => {
            return Err(ConvertingError::from(e));
        },
    };
    let records = parsed.as_records();
    let mut out: Vec<u8> = Vec::new();
    match T::write_to(records, &mut out) {
        Ok(_) => Ok(out),
        Err(e) => Err(e),
    }
}


/// Cross-format equivalence: encoding to binary, decoding, and re-encoding
/// to the sheet format yields the same sheet parse as encoding to the sheet
/// format directly; both decode to the original records.
pub proof fn lemma_cross_format_equivalence(rs: Seq<RecordV>)
    requires
        forall|i: int| 0 <= i < rs.len() ==> bin_format::spec_bin_lossless(#[trigger] rs[i]),
        forall|i: int| 0 <= i < rs.len() ==> csv_format::spec_csv_lossless(#[trigger] rs[i]),
    ensures
        bin_format::spec_parse_bin(bin_format::spec_encode_bin(rs)) == Ok::<
            Seq<RecordV>,
            ParsingErrorV,
        >(rs),
        ({
            let via_bin = bin_format::spec_parse_bin(bin_format::spec_encode_bin(rs))->Ok_0;
            csv_format::spec_parse_csv(
                vstd::utf8::encode_utf8(csv_format::spec_csv_text(via_bin)),
            ) == csv_format::spec_parse_csv(
                vstd::utf8::encode_utf8(csv_format::spec_csv_text(rs)),
            )
        }),
        csv_format::spec_parse_csv(vstd::utf8::encode_utf8(csv_format::spec_csv_text(rs))) == Ok::<
            Seq<RecordV>,
            ParsingErrorV,
        >(rs),
{
    bin_format::lemma_bin_round_trip(rs);
    csv_format::lemma_csv_round_trip(rs);
}

} // verus!
