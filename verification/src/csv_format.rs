//! The comma-separated sheet format.
//!
//! The first line is a fixed eight-column header; every further non-blank
//! line carries one record, its fields matched to the header's column names.
//! Fields are trimmed and stripped of surrounding double quotes; enum fields
//! match their names up to ASCII case; a row whose field count differs from
//! the header's is rejected with its 1-based line number.

use vstd::prelude::*;

use crate::errors::{ConvertingError, ParsingError, ParsingErrorV};
use crate::num::{parse_u64, spec_parse_u64, spec_u64_str, u64_to_chars};
use crate::text::{
    chars_to_string, eq_ignore_case_str, lines_of, push_chars, spec_eq_ignore_case, spec_lines,
    spec_split, spec_trim, spec_trim_quotes, split_char, string_to_chars, string_utf8_bytes,
    trim_in, trim_quotes_in, utf8_to_string,
};
use crate::{Converter, Record, RecordV, TxStatus, TxType};
use vstd::utf8::{decode_utf8, encode_utf8, valid_utf8};

verus! {

broadcast use crate::text::lemma_vec_char_deep_view;

/// The fixed header line: the eight column names, comma-separated.
pub open spec fn spec_csv_header() -> Seq<char> {
    "TX_TYPE"@ + seq![','] + "STATUS"@ + seq![','] + "TO_USER_ID"@ + seq![','] + "FROM_USER_ID"@
        + seq![','] + "TIMESTAMP"@ + seq![','] + "DESCRIPTION"@ + seq![','] + "TX_ID"@ + seq![',']
        + "AMOUNT"@
}

/// The names of the header's columns, in order.
pub open spec fn spec_header_names() -> Seq<Seq<char>> {
    seq![
        "TX_TYPE"@,
        "STATUS"@,
        "TO_USER_ID"@,
        "FROM_USER_ID"@,
        "TIMESTAMP"@,
        "DESCRIPTION"@,
        "TX_ID"@,
        "AMOUNT"@,
    ]
}

/// The printed name of a transaction type.
pub open spec fn spec_type_name(t: TxType) -> Seq<char> {
    match t {
        TxType::DEPOSIT => "DEPOSIT"@,
        TxType::WITHDRAWAL => "WITHDRAWAL"@,
        TxType::TRANSFER => "TRANSFER"@,
    }
}

/// The printed name of a transaction status.
pub open spec fn spec_status_name(t: TxStatus) -> Seq<char> {
    match t {
        TxStatus::FAILURE => "FAILURE"@,
        TxStatus::PENDING => "PENDING"@,
        TxStatus::SUCCESS => "SUCCESS"@,
    }
}

/// The transaction type a sheet token denotes: its name, up to ASCII case.
pub open spec fn spec_tx_type_csv(t: Seq<char>) -> Option<TxType> {
    if spec_eq_ignore_case(t, "DEPOSIT"@) {
        Some(TxType::DEPOSIT)
    } else if spec_eq_ignore_case(t, "WITHDRAWAL"@) {
        Some(TxType::WITHDRAWAL)
    } else if spec_eq_ignore_case(t, "TRANSFER"@) {
        Some(TxType::TRANSFER)
    } else {
        None
    }
}

/// The transaction status a sheet token denotes: its name, up to ASCII case.
pub open spec fn spec_tx_status_csv(t: Seq<char>) -> Option<TxStatus> {
    if spec_eq_ignore_case(t, "FAILURE"@) {
        Some(TxStatus::FAILURE)
    } else if spec_eq_ignore_case(t, "PENDING"@) {
        Some(TxStatus::PENDING)
    } else if spec_eq_ignore_case(t, "SUCCESS"@) {
        Some(TxStatus::SUCCESS)
    } else {
        None
    }
}

/// The value the last column named `key` carries, if any; a later column of
/// the same name shadows an earlier one.
pub open spec fn spec_lookup(keys: Seq<Seq<char>>, vals: Seq<Seq<char>>, key: Seq<char>) -> Option<
    Seq<char>,
>
    recommends
        keys.len() == vals.len(),
    decreases keys.len(),
{
    if keys.len() == 0 {
        None
    } else if keys.last() == key {
        Some(vals[keys.len() - 1])
    } else {
        spec_lookup(keys.drop_last(), vals.take(keys.len() - 1), key)
    }
}

/// The record one row denotes, its fields matched to the header by name, or
/// the first error: unknown type, unknown status, then each numeric column
/// either missing or unparseable, in field order.
pub open spec fn spec_parse_record_csv(header: Seq<Seq<char>>, values: Seq<Seq<char>>) -> Result<
    RecordV,
    ParsingErrorV,
> {
    let ty = spec_lookup(header, values, "TX_TYPE"@);
    if ty is None || spec_tx_type_csv(ty->0) is None {
        Err(ParsingErrorV::WrongTxType)
    } else {
        let st = spec_lookup(header, values, "STATUS"@);
        if st is None || spec_tx_status_csv(st->0) is None {
            Err(ParsingErrorV::WrongStatusType)
        } else {
            let to = spec_num_field(header, values, "TO_USER_ID"@);
            let from = spec_num_field(header, values, "FROM_USER_ID"@);
            let ts = spec_num_field(header, values, "TIMESTAMP"@);
            let id = spec_num_field(header, values, "TX_ID"@);
            let amount = spec_num_field(header, values, "AMOUNT"@);
            if to is Err {
                Err(to->Err_0)
            } else if from is Err {
                Err(from->Err_0)
            } else if ts is Err {
                Err(ts->Err_0)
            } else if id is Err {
                Err(id->Err_0)
            } else if amount is Err {
                Err(amount->Err_0)
            } else {
                Ok(
                    RecordV {
                        tx_type: spec_tx_type_csv(ty->0)->0,
                        tx_status: spec_tx_status_csv(st->0)->0,
                        to_user_id: to->Ok_0,
                        from_user_id: from->Ok_0,
                        timestamp: ts->Ok_0,
                        description: match spec_lookup(header, values, "DESCRIPTION"@) {
                            Some(d) => d,
                            None => Seq::empty(),
                        },
                        tx_id: id->Ok_0,
                        amount: amount->Ok_0,
                    },
                )
            }
        }
    }
}

/// A numeric column: absent is a missing key, unparseable a wrong key.
pub open spec fn spec_num_field(
    header: Seq<Seq<char>>,
    values: Seq<Seq<char>>,
    key: Seq<char>,
) -> Result<u64, ParsingErrorV> {
    match spec_lookup(header, values, key) {
        None => Err(ParsingErrorV::MissingKey { key }),
        Some(v) => match spec_parse_u64(v) {
            None => Err(ParsingErrorV::WrongKey { key }),
            Some(x) => Ok(x),
        },
    }
}

/// The fields of the header line: the line trimmed, split on commas, each
/// name trimmed.
pub open spec fn spec_header_fields(l: Seq<char>) -> Seq<Seq<char>> {
    spec_split(spec_trim(l), ',').map_values(|f: Seq<char>| spec_trim(f))
}

/// The fields of a data row: split on commas, each trimmed and stripped of
/// surrounding double quotes.
pub open spec fn spec_row_fields(l: Seq<char>) -> Seq<Seq<char>> {
    spec_split(l, ',').map_values(|f: Seq<char>| spec_trim_quotes(spec_trim(f)))
}

/// What parsing the data rows from line `i` on yields.
pub open spec fn spec_parse_csv_lines(
    ls: Seq<Seq<char>>,
    i: int,
    header: Seq<Seq<char>>,
) -> Result<Seq<RecordV>, ParsingErrorV>
    decreases ls.len() - i,
{
    if i < 0 || i >= ls.len() {
        Ok(Seq::empty())
    } else {
        let line = spec_trim(ls[i]);
        if line.len() == 0 {
            spec_parse_csv_lines(ls, i + 1, header)
        } else {
            let values = spec_row_fields(line);
            if values.len() != header.len() {
                Err(
                    ParsingErrorV::WrongColumnCount {
                        line_number: i + 1,
                        header: header.len() as int,
                        values: values.len() as int,
                    },
                )
            } else {
                match spec_parse_record_csv(header, values) {
                    Err(e) => Err(e),
                    Ok(r) => match spec_parse_csv_lines(ls, i + 1, header) {
                        Err(e) => Err(e),
                        Ok(rest) => Ok(seq![r] + rest),
                    },
                }
            }
        }
    }
}

/// What parsing a sheet byte stream yields: invalid UTF-8 is rejected, an
/// input without a single line is empty, and the rows after the header line
/// are parsed in order.
pub open spec fn spec_parse_csv(bytes: Seq<u8>) -> Result<Seq<RecordV>, ParsingErrorV> {
    if !valid_utf8(bytes) {
        Err(ParsingErrorV::Utf8Error)
    } else {
        let ls = spec_lines(decode_utf8(bytes));
        if ls.len() == 0 {
            Err(ParsingErrorV::EmptyFile)
        } else {
            spec_parse_csv_lines(ls, 1, spec_header_fields(ls[0]))
        }
    }
}

/// The sheet line of one record: the fields in header order, the description
/// wrapped in double quotes.
pub open spec fn spec_csv_line(r: RecordV) -> Seq<char> {
    spec_type_name(r.tx_type) + seq![','] + spec_status_name(r.tx_status) + seq![',']
        + spec_u64_str(r.to_user_id) + seq![','] + spec_u64_str(r.from_user_id) + seq![',']
        + spec_u64_str(r.timestamp) + seq![',', '"'] + r.description + seq!['"', ',']
        + spec_u64_str(r.tx_id) + seq![','] + spec_u64_str(r.amount)
}

/// The data lines of `rs`, each ended by a line feed.
pub open spec fn spec_csv_body(rs: Seq<RecordV>) -> Seq<char>
    decreases rs.len(),
{
    if rs.len() == 0 {
        Seq::empty()
    } else {
        spec_csv_line(rs[0]) + seq!['\n'] + spec_csv_body(rs.drop_first())
    }
}

/// The whole sheet text of `rs`: header line, then one line per record.
pub open spec fn spec_csv_text(rs: Seq<RecordV>) -> Seq<char> {
    spec_csv_header() + seq!['\n'] + spec_csv_body(rs)
}

/// Encoding one more record appends one more line.
pub proof fn lemma_csv_body_snoc(rs: Seq<RecordV>, r: RecordV)
    ensures
        spec_csv_body(rs.push(r)) == spec_csv_body(rs) + spec_csv_line(r) + seq!['\n'],
    decreases rs.len(),
{
    if rs.len() == 0 {
        assert(rs.push(r)[0] == r);
        assert(rs.push(r).drop_first() =~= Seq::<RecordV>::empty());
        assert(spec_csv_body(Seq::<RecordV>::empty()) =~= Seq::<char>::empty());
        assert(spec_csv_body(rs.push(r)) =~= spec_csv_body(rs) + spec_csv_line(r) + seq!['\n']);
    } else {
        assert(rs.push(r).drop_first() =~= rs.drop_first().push(r));
        lemma_csv_body_snoc(rs.drop_first(), r);
        assert(rs.push(r)[0] == rs[0]);
        assert(spec_csv_body(rs.push(r)) =~= spec_csv_body(rs) + spec_csv_line(r) + seq!['\n']);
    }
}

/// A parse already holding `prefix`, continued by `rest`.
pub open spec fn spec_compose_csv(
    prefix: Seq<RecordV>,
    rest: Result<Seq<RecordV>, ParsingErrorV>,
) -> Result<Seq<RecordV>, ParsingErrorV> {
    match rest {
        Ok(t) => Ok(prefix + t),
        Err(e) => Err(e),
    }
}

/// Parsing one more row moves its record from the remainder to the prefix.
proof fn lemma_csv_step(
    ls: Seq<Seq<char>>,
    i: int,
    header: Seq<Seq<char>>,
    prefix: Seq<RecordV>,
    rv: RecordV,
)
    requires
        1 <= i < ls.len(),
        spec_trim(ls[i]).len() > 0,
        spec_row_fields(spec_trim(ls[i])).len() == header.len(),
        spec_parse_record_csv(header, spec_row_fields(spec_trim(ls[i]))) == Ok::<
            RecordV,
            ParsingErrorV,
        >(rv),
    ensures
        spec_compose_csv(prefix, spec_parse_csv_lines(ls, i, header)) == spec_compose_csv(
            prefix.push(rv),
            spec_parse_csv_lines(ls, i + 1, header),
        ),
{
    match spec_parse_csv_lines(ls, i + 1, header) {
        Ok(rest) => {
            assert(prefix + (seq![rv] + rest) =~= prefix.push(rv) + rest);
        },
        Err(_) => {},
    }
}

/// Records structure for the sheet format.
pub struct CSVRecords {
    /// Records
    pub records: Vec<Record>,
}

/// Looks up the value of the last column named `key`.
fn lookup(keys: &Vec<Vec<char>>, vals: &Vec<Vec<char>>, key: &str) -> (res: Option<Vec<char>>)
    requires
        keys@.len() == vals@.len(),
    ensures
        match res {
            Some(v) => spec_lookup(keys.deep_view(), vals.deep_view(), key@) == Some(v@),
            None => spec_lookup(keys.deep_view(), vals.deep_view(), key@) is None,
        },
{
    let mut j: usize = keys.len();
    proof {
        assert(keys.deep_view().take(j as int) =~~= keys.deep_view());
        assert(vals.deep_view().take(j as int) =~~= vals.deep_view());
    }
    while j > 0
        invariant
            j <= keys@.len(),
            keys@.len() == vals@.len(),
            spec_lookup(keys.deep_view(), vals.deep_view(), key@) == spec_lookup(
                keys.deep_view().take(j as int),
                vals.deep_view().take(j as int),
                key@,
            ),
        decreases j,
    {
        let ghost ks = keys.deep_view().take(j as int);
        let ghost vs = vals.deep_view().take(j as int);
        proof {
            assert(ks.len() == j);
            assert(ks.last() == keys.deep_view()[j - 1]);
            assert(keys.deep_view()[j - 1] == keys@[j - 1].deep_view());
            assert(ks.drop_last() =~~= keys.deep_view().take(j - 1));
            assert(vs.take(j - 1) =~~= vals.deep_view().take(j - 1));
            assert(vs[j - 1] == vals@[j - 1].deep_view());
        }
        if crate::text::eq_chars_str(&keys[j - 1], key) {
            let out = crate::text::copy_range(&vals[j - 1], 0, vals[j - 1].len());
            proof {
                assert(out@ =~= vals@[j - 1]@);
            }
            return Some(out);
        }
        j = j - 1;
    }
    proof {
        assert(keys.deep_view().take(0) =~~= Seq::<Seq<char>>::empty());
    }
    None
}

/// Parses one data row, already split into `values`, against `header`.
#[verifier::rlimit(50)]
pub fn parse_record(header: &Vec<Vec<char>>, values: &Vec<Vec<char>>) -> (res: Result<
    Record,
    ParsingError,
>)
    requires
        header@.len() == values@.len(),
    ensures
        match res {
            Ok(rec) => spec_parse_record_csv(header.deep_view(), values.deep_view()) == Ok::<
                RecordV,
                ParsingErrorV,
            >(rec@),
            Err(e) => spec_parse_record_csv(header.deep_view(), values.deep_view()) == Err::<
                RecordV,
                ParsingErrorV,
            >(e@),
        },
{
    let ty_tok = match lookup(header, values, "TX_TYPE") {
        Some(t) => t,
        None => {
            return Err(ParsingError::WrongTxType);
        },
    };
    let tx_type = if eq_ignore_case_str(&ty_tok, "DEPOSIT") {
        TxType::DEPOSIT
    } else if eq_ignore_case_str(&ty_tok, "WITHDRAWAL") {
        TxType::WITHDRAWAL
    } else if eq_ignore_case_str(&ty_tok, "TRANSFER") {
        TxType::TRANSFER
    } else {
        return Err(ParsingError::WrongTxType);
    };
    let st_tok = match lookup(header, values, "STATUS") {
        Some(t) => t,
        None => {
            return Err(ParsingError::WrongStatusType);
        },
    };
    let tx_status = if eq_ignore_case_str(&st_tok, "FAILURE") {
        TxStatus::FAILURE
    } else if eq_ignore_case_str(&st_tok, "PENDING") {
        TxStatus::PENDING
    } else if eq_ignore_case_str(&st_tok, "SUCCESS") {
        TxStatus::SUCCESS
    } else {
        return Err(ParsingError::WrongStatusType);
    };
    let to_user_id = match num_field(header, values, "TO_USER_ID") {
        Ok(x) => x,
        Err(e) => {
            return Err(e);
        },
    };
    let from_user_id = match num_field(header, values, "FROM_USER_ID") {
        Ok(x) => x,
        Err(e) => {
            return Err(e);
        },
    };
    let timestamp = match num_field(header, values, "TIMESTAMP") {
        Ok(x) => x,
        Err(e) => {
            return Err(e);
        },
    };
    let tx_id = match num_field(header, values, "TX_ID") {
        Ok(x) => x,
        Err(e) => {
            return Err(e);
        },
    };
    let amount = match num_field(header, values, "AMOUNT") {
        Ok(x) => x,
        Err(e) => {
            return Err(e);
        },
    };
    let description = match lookup(header, values, "DESCRIPTION") {
        Some(d) => chars_to_string(&d),
        None => chars_to_string(&Vec::new()),
    };
    let rec = Record {
        tx_type,
        tx_status,
        to_user_id,
        from_user_id,
        timestamp,
        description,
        tx_id,
        amount,
    };
    proof {
        assert(rec@ =~= spec_parse_record_csv(header.deep_view(), values.deep_view())->Ok_0);
    }
    Ok(rec)
}

/// Reads one numeric column of a row.
fn num_field(header: &Vec<Vec<char>>, values: &Vec<Vec<char>>, key: &str) -> (res: Result<
    u64,
    ParsingError,
>)
    requires
        header@.len() == values@.len(),
    ensures
        match res {
            Ok(x) => spec_num_field(header.deep_view(), values.deep_view(), key@) == Ok::<
                u64,
                ParsingErrorV,
            >(x),
            Err(e) => spec_num_field(header.deep_view(), values.deep_view(), key@) == Err::<
                u64,
                ParsingErrorV,
            >(e@),
        },
{
    match lookup(header, values, key) {
        None => Err(
            ParsingError::MissingKey { key: chars_to_string(&string_to_chars(key)) },
        ),
        Some(v) => match parse_u64(&v) {
            None => Err(ParsingError::WrongKey { key: chars_to_string(&string_to_chars(key)) }),
            Some(x) => Ok(x),
        },
    }
}

impl Converter for CSVRecords {
    open spec fn spec_parse(data: Seq<u8>) -> Result<Seq<RecordV>, ParsingErrorV> {
        spec_parse_csv(data)
    }

    open spec fn spec_encode(records: Seq<RecordV>) -> Seq<u8> {
        encode_utf8(spec_csv_text(records))
    }

    open spec fn spec_encodable(records: Seq<RecordV>) -> bool {
        true
    }

    open spec fn records_view(&self) -> Seq<RecordV> {
        self.records.deep_view()
    }

    #[verifier::rlimit(100)]
    fn from_read(data: &Vec<u8>) -> (res: Result<Self, ParsingError>) {
        let text = match utf8_to_string(data) {
            Some(s) => s,
            None => {
                return Err(ParsingError::Utf8Error);
            },
        };
        let chars = string_to_chars(text.as_str());
        let ls = lines_of(&chars);
        let ghost lsv = spec_lines(decode_utf8(data@));
        proof {
            assert(ls.deep_view() == lsv);
        }
        if ls.len() == 0 {
            return Err(ParsingError::EmptyFile);
        }
        let l0 = trim_in(&ls[0]);
        let header_raw = split_char(&l0, ',');
        let mut header: Vec<Vec<char>> = Vec::new();
        let mut h: usize = 0;
        let ghost hv = spec_header_fields(lsv[0]);
        proof {
            assert(ls@[0]@ == lsv[0]);
            assert(header_raw.deep_view() == spec_split(spec_trim(lsv[0]), ','));
            assert(header.deep_view() =~~= hv.take(0));
        }
        while h < header_raw.len()
            invariant
                h <= header_raw@.len(),
                hv == header_raw.deep_view().map_values(|f: Seq<char>| spec_trim(f)),
                header.deep_view() == hv.take(h as int),
            decreases header_raw@.len() - h,
        {
            let f = trim_in(&header_raw[h]);
            let ghost old_header = header.deep_view();
            header.push(f);
            proof {
                assert(hv[h as int] == spec_trim(header_raw.deep_view()[h as int]));
                assert(header.deep_view() =~~= old_header.push(spec_trim(header_raw@[h as int]@)));
                assert(header.deep_view() =~~= hv.take(h + 1 as int));
            }
            h = h + 1;
        }
        proof {
            assert(hv.take(hv.len() as int) =~~= hv);
        }
        let mut records: Vec<Record> = Vec::new();
        let mut i: usize = 1;
        proof {
            assert(records.deep_view() =~~= Seq::<RecordV>::empty());
            assert(spec_parse_csv(data@) == spec_parse_csv_lines(lsv, 1, hv));
            if spec_parse_csv_lines(lsv, 1, hv) is Ok {
                assert(records.deep_view() + spec_parse_csv_lines(lsv, 1, hv)->Ok_0
                    =~= spec_parse_csv_lines(lsv, 1, hv)->Ok_0);
            }
        }
        while i < ls.len()
            invariant
                1 <= i <= ls@.len(),
                ls.deep_view() == lsv,
                header.deep_view() == hv,
                header@.len() == hv.len(),
                spec_parse_csv(data@) == spec_compose_csv(
                    records.deep_view(),
                    spec_parse_csv_lines(lsv, i as int, hv),
                ),
            decreases ls@.len() - i,
        {
            let line = trim_in(&ls[i]);
            proof {
                assert(ls@[i as int]@ == lsv[i as int]);
                assert(line@ == spec_trim(lsv[i as int]));
            }
            if line.len() == 0 {
                i = i + 1;
                continue ;
            }
            let values_raw = split_char(&line, ',');
            let mut values: Vec<Vec<char>> = Vec::new();
            let mut k: usize = 0;
            let ghost vv = spec_row_fields(line@);
            proof {
                assert(values_raw.deep_view() == spec_split(line@, ','));
                assert(values.deep_view() =~~= vv.take(0));
            }
            while k < values_raw.len()
                invariant
                    k <= values_raw@.len(),
                    vv == values_raw.deep_view().map_values(
                        |f: Seq<char>| spec_trim_quotes(spec_trim(f)),
                    ),
                    values.deep_view() == vv.take(k as int),
                decreases values_raw@.len() - k,
            {
                let t = trim_in(&values_raw[k]);
                let f = trim_quotes_in(&t);
                let ghost old_values = values.deep_view();
                values.push(f);
                proof {
                    assert(vv[k as int] == spec_trim_quotes(
                        spec_trim(values_raw.deep_view()[k as int]),
                    ));
                    assert(values.deep_view() =~~= old_values.push(
                        spec_trim_quotes(spec_trim(values_raw@[k as int]@)),
                    ));
                    assert(values.deep_view() =~~= vv.take(k + 1 as int));
                }
                k = k + 1;
            }
            proof {
                assert(vv.take(vv.len() as int) =~~= vv);
                assert(values.deep_view() == vv);
            }
            if values.len() != header.len() {
                let e = ParsingError::WrongColumnCount {
                    line_number: i + 1,
                    header: header.len(),
                    values: values.len(),
                };
                proof {
                    assert(spec_parse_csv_lines(lsv, i as int, hv) == Err::<
                        Seq<RecordV>,
                        ParsingErrorV,
                    >(e@));
                }
                return Err(e);
            }
            let rec = match parse_record(&header, &values) {
                Ok(rec) => rec,
                Err(e) => {
                    proof {
                        assert(spec_parse_csv_lines(lsv, i as int, hv) == Err::<
                            Seq<RecordV>,
                            ParsingErrorV,
                        >(e@));
                    }
                    return Err(e);
                },
            };
            let ghost rv = rec@;
            let ghost old_recs = records.deep_view();
            records.push(rec);
            proof {
                assert(records.deep_view() =~~= old_recs.push(rv));
                lemma_csv_step(lsv, i as int, hv, old_recs, rv);
            }
            i = i + 1;
        }
        proof {
            assert(spec_parse_csv_lines(lsv, ls@.len() as int, hv) == Ok::<
                Seq<RecordV>,
                ParsingErrorV,
            >(Seq::<RecordV>::empty()));
            assert(records.deep_view() + Seq::<RecordV>::empty() =~= records.deep_view());
        }
        Ok(CSVRecords { records })
    }

    #[verifier::rlimit(100)]
    fn write_to(records: &Vec<Record>, out: &mut Vec<u8>) -> (res: Result<(), ConvertingError>) {
        let mut text: Vec<char> = Vec::new();
        let h0 = string_to_chars("TX_TYPE");
        push_chars(&mut text, &h0);
        text.push(',');
        let h1 = string_to_chars("STATUS");
        push_chars(&mut text, &h1);
        text.push(',');
        let h2 = string_to_chars("TO_USER_ID");
        push_chars(&mut text, &h2);
        text.push(',');
        let h3 = string_to_chars("FROM_USER_ID");
        push_chars(&mut text, &h3);
        text.push(',');
        let h4 = string_to_chars("TIMESTAMP");
        push_chars(&mut text, &h4);
        text.push(',');
        let h5 = string_to_chars("DESCRIPTION");
        push_chars(&mut text, &h5);
        text.push(',');
        let h6 = string_to_chars("TX_ID");
        push_chars(&mut text, &h6);
        text.push(',');
        let h7 = string_to_chars("AMOUNT");
        push_chars(&mut text, &h7);
        text.push('\n');
        proof {
            assert(text@ =~= spec_csv_header() + seq!['\n'] + spec_csv_body(
                records.deep_view().take(0),
            ));
        }
        let mut i: usize = 0;
        while i < records.len()
            invariant
                i <= records@.len(),
                text@ == spec_csv_header() + seq!['\n'] + spec_csv_body(
                    records.deep_view().take(i as int),
                ),
            decreases records@.len() - i,
        {
            let r = &records[i];
            let ghost rv = records.deep_view()[i as int];
            let ghost text0 = text@;
            let ty = string_to_chars(
                match r.tx_type {
                    TxType::DEPOSIT => "DEPOSIT",
                    TxType::WITHDRAWAL => "WITHDRAWAL",
                    TxType::TRANSFER => "TRANSFER",
                },
            );
            push_chars(&mut text, &ty);
            text.push(',');
            let st = string_to_chars(
                match r.tx_status {
                    TxStatus::FAILURE => "FAILURE",
                    TxStatus::PENDING => "PENDING",
                    TxStatus::SUCCESS => "SUCCESS",
                },
            );
            push_chars(&mut text, &st);
            text.push(',');
            let to = u64_to_chars(r.to_user_id);
            push_chars(&mut text, &to);
            text.push(',');
            let from = u64_to_chars(r.from_user_id);
            push_chars(&mut text, &from);
            text.push(',');
            let ts = u64_to_chars(r.timestamp);
            push_chars(&mut text, &ts);
            text.push(',');
            text.push('"');
            let desc = string_to_chars(r.description.as_str());
            push_chars(&mut text, &desc);
            text.push('"');
            text.push(',');
            let id = u64_to_chars(r.tx_id);
            push_chars(&mut text, &id);
            text.push(',');
            let amount = u64_to_chars(r.amount);
            push_chars(&mut text, &amount);
            text.push('\n');
            proof {
                assert(text@ =~= text0 + spec_csv_line(rv) + seq!['\n']);
                lemma_csv_body_snoc(records.deep_view().take(i as int), rv);
                assert(records.deep_view().take(i + 1 as int) =~= records.deep_view().take(
                    i as int,
                ).push(rv));
                assert(text@ =~= spec_csv_header() + seq!['\n'] + spec_csv_body(
                    records.deep_view().take(i + 1 as int),
                ));
            }
            i = i + 1;
        }
        proof {
            assert(records.deep_view().take(records@.len() as int) =~= records.deep_view());
        }
        let s = chars_to_string(&text);
        let bytes = string_utf8_bytes(&s);
        crate::bin_format::push_bytes(out, &bytes);
        Ok(())
    }

    fn as_records(&self) -> (r: &Vec<Record>) {
        &self.records
    }
}


/// Whether the sheet format carries `r` without loss: the description holds
/// no comma, double quote or line break.
pub open spec fn spec_csv_lossless(r: RecordV) -> bool {
    forall|i: int|
        0 <= i < r.description.len() ==> #[trigger] r.description[i] != ',' && r.description[i]
            != '"' && r.description[i] != '\n' && r.description[i] != '\r'
}

/// The printed type names denote their own types, up to ASCII case, and no
/// other name does.
pub proof fn lemma_type_tokens()
    ensures
        forall|t: TxType| spec_tx_type_csv(#[trigger] spec_type_name(t)) == Some(t),
{
    crate::tokens::lemma_token_deposit();
    crate::tokens::lemma_token_withdrawal();
    crate::tokens::lemma_token_transfer();
    assert forall|t: TxType| spec_tx_type_csv(#[trigger] spec_type_name(t)) == Some(t) by {
        match t {
            TxType::DEPOSIT => {},
            TxType::WITHDRAWAL => {},
            TxType::TRANSFER => {},
        }
    }
}

/// The printed status names denote their own statuses, up to ASCII case, and
/// no other name does.
pub proof fn lemma_status_tokens()
    ensures
        forall|t: TxStatus| spec_tx_status_csv(#[trigger] spec_status_name(t)) == Some(t),
{
    crate::tokens::lemma_token_failure();
    crate::tokens::lemma_token_pending();
    crate::tokens::lemma_token_success();
    reveal_strlit("FAILURE");
    reveal_strlit("PENDING");
    reveal_strlit("SUCCESS");
    assert(!spec_eq_ignore_case("PENDING"@, "FAILURE"@)) by {
        assert("PENDING"@[0] == 'P');
        assert("FAILURE"@[0] == 'F');
    }
    assert(!spec_eq_ignore_case("SUCCESS"@, "FAILURE"@)) by {
        assert("SUCCESS"@[0] == 'S');
        assert("FAILURE"@[0] == 'F');
    }
    assert(!spec_eq_ignore_case("SUCCESS"@, "PENDING"@)) by {
        assert("SUCCESS"@[0] == 'S');
        assert("PENDING"@[0] == 'P');
    }
    assert forall|t: TxStatus| spec_tx_status_csv(#[trigger] spec_status_name(t)) == Some(t) by {
        match t {
            TxStatus::FAILURE => {},
            TxStatus::PENDING => {},
            TxStatus::SUCCESS => {},
        }
    }
}

/// The header line parses to exactly the eight column names.
pub proof fn lemma_header_fields()
    ensures
        spec_header_fields(spec_csv_header()) == spec_header_names(),
{
    crate::tokens::lemma_token_k_tx_type();
    crate::tokens::lemma_token_k_status();
    crate::tokens::lemma_token_k_to();
    crate::tokens::lemma_token_k_from();
    crate::tokens::lemma_token_k_ts();
    crate::tokens::lemma_token_k_desc();
    crate::tokens::lemma_token_k_tx_id();
    crate::tokens::lemma_token_k_amount();
    let hdr = spec_csv_header();
    assert(hdr[0] == "TX_TYPE"@[0]);
    assert(hdr.last() == "AMOUNT"@["AMOUNT"@.len() - 1]);
    crate::tokens::lemma_trim_id(hdr);
    let r7 = "AMOUNT"@;
    let r6 = "TX_ID"@ + seq![','] + r7;
    let r5 = "DESCRIPTION"@ + seq![','] + r6;
    let r4 = "TIMESTAMP"@ + seq![','] + r5;
    let r3 = "FROM_USER_ID"@ + seq![','] + r4;
    let r2 = "TO_USER_ID"@ + seq![','] + r3;
    let r1 = "STATUS"@ + seq![','] + r2;
    assert(hdr =~= "TX_TYPE"@ + seq![','] + r1);
    crate::tokens::lemma_split_prepend("TX_TYPE"@, r1);
    crate::tokens::lemma_split_prepend("STATUS"@, r2);
    crate::tokens::lemma_split_prepend("TO_USER_ID"@, r3);
    crate::tokens::lemma_split_prepend("FROM_USER_ID"@, r4);
    crate::tokens::lemma_split_prepend("TIMESTAMP"@, r5);
    crate::tokens::lemma_split_prepend("DESCRIPTION"@, r6);
    crate::tokens::lemma_split_prepend("TX_ID"@, r7);
    crate::tokens::lemma_split_one("AMOUNT"@);
    assert(spec_split(hdr, ',') =~= spec_header_names());
    crate::tokens::lemma_trim_id("TX_TYPE"@);
    crate::tokens::lemma_trim_id("STATUS"@);
    crate::tokens::lemma_trim_id("TO_USER_ID"@);
    crate::tokens::lemma_trim_id("FROM_USER_ID"@);
    crate::tokens::lemma_trim_id("TIMESTAMP"@);
    crate::tokens::lemma_trim_id("DESCRIPTION"@);
    crate::tokens::lemma_trim_id("TX_ID"@);
    crate::tokens::lemma_trim_id("AMOUNT"@);
    assert(spec_header_fields(hdr) =~= spec_header_names());
}

/// Looking a column name up in the fixed header finds its own column.
pub proof fn lemma_lookup_header(values: Seq<Seq<char>>)
    requires
        values.len() == 8,
    ensures
        spec_lookup(spec_header_names(), values, "TX_TYPE"@) == Some(values[0]),
        spec_lookup(spec_header_names(), values, "STATUS"@) == Some(values[1]),
        spec_lookup(spec_header_names(), values, "TO_USER_ID"@) == Some(values[2]),
        spec_lookup(spec_header_names(), values, "FROM_USER_ID"@) == Some(values[3]),
        spec_lookup(spec_header_names(), values, "TIMESTAMP"@) == Some(values[4]),
        spec_lookup(spec_header_names(), values, "DESCRIPTION"@) == Some(values[5]),
        spec_lookup(spec_header_names(), values, "TX_ID"@) == Some(values[6]),
        spec_lookup(spec_header_names(), values, "AMOUNT"@) == Some(values[7]),
{
    crate::tokens::lemma_token_k_tx_type();
    crate::tokens::lemma_token_k_status();
    crate::tokens::lemma_token_k_to();
    crate::tokens::lemma_token_k_from();
    crate::tokens::lemma_token_k_ts();
    crate::tokens::lemma_token_k_desc();
    crate::tokens::lemma_token_k_tx_id();
    crate::tokens::lemma_token_k_amount();
    assert("AMOUNT"@ != "STATUS"@) by {
        reveal_strlit("AMOUNT");
        reveal_strlit("STATUS");
        assert("AMOUNT"@[0] == 'A');
        assert("STATUS"@[0] == 'S');
    }
    reveal_with_fuel(spec_lookup, 10);
}


/// The fields of the line written for a lossless record are the record's
/// rendered fields.
#[verifier::rlimit(100)]
pub proof fn lemma_csv_line_fields(r: RecordV)
    requires
        spec_csv_lossless(r),
    ensures
        spec_row_fields(spec_csv_line(r)) == seq![
            spec_type_name(r.tx_type),
            spec_status_name(r.tx_status),
            spec_u64_str(r.to_user_id),
            spec_u64_str(r.from_user_id),
            spec_u64_str(r.timestamp),
            r.description,
            spec_u64_str(r.tx_id),
            spec_u64_str(r.amount),
        ],
{
    lemma_name_tokens_pub();
    crate::tokens::lemma_digits_token(r.to_user_id);
    crate::tokens::lemma_digits_token(r.from_user_id);
    crate::tokens::lemma_digits_token(r.timestamp);
    crate::tokens::lemma_digits_token(r.tx_id);
    crate::tokens::lemma_digits_token(r.amount);
    let line = spec_csv_line(r);
    let p0 = spec_type_name(r.tx_type);
    let p1 = spec_status_name(r.tx_status);
    let p2 = spec_u64_str(r.to_user_id);
    let p3 = spec_u64_str(r.from_user_id);
    let p4 = spec_u64_str(r.timestamp);
    let p5 = seq!['"'] + r.description + seq!['"'];
    let p6 = spec_u64_str(r.tx_id);
    let p7 = spec_u64_str(r.amount);
    let r7 = p7;
    let r6 = p6 + seq![','] + r7;
    let r5 = p5 + seq![','] + r6;
    let r4 = p4 + seq![','] + r5;
    let r3 = p3 + seq![','] + r4;
    let r2 = p2 + seq![','] + r3;
    let r1 = p1 + seq![','] + r2;
    assert(line =~= p0 + seq![','] + r1);
    assert(forall|i: int| 0 <= i < p5.len() ==> #[trigger] p5[i] != ',');
    crate::tokens::lemma_split_prepend(p0, r1);
    crate::tokens::lemma_split_prepend(p1, r2);
    crate::tokens::lemma_split_prepend(p2, r3);
    crate::tokens::lemma_split_prepend(p3, r4);
    crate::tokens::lemma_split_prepend(p4, r5);
    crate::tokens::lemma_split_prepend(p5, r6);
    crate::tokens::lemma_split_prepend(p6, r7);
    crate::tokens::lemma_split_one(p7);
    assert(spec_split(line, ',') =~= seq![p0, p1, p2, p3, p4, p5, p6, p7]);
    crate::tokens::lemma_trim_id(p0);
    crate::tokens::lemma_trim_id(p1);
    crate::tokens::lemma_trim_id(p2);
    crate::tokens::lemma_trim_id(p3);
    crate::tokens::lemma_trim_id(p4);
    assert(p5[0] == '"');
    assert(p5.last() == '"');
    assert(!crate::text::is_space_char('"'));
    crate::tokens::lemma_trim_id(p5);
    crate::tokens::lemma_trim_id(p6);
    crate::tokens::lemma_trim_id(p7);
    crate::tokens::lemma_trimq_id(p0);
    crate::tokens::lemma_trimq_id(p1);
    crate::tokens::lemma_trimq_id(p2);
    crate::tokens::lemma_trimq_id(p3);
    crate::tokens::lemma_trimq_id(p4);
    crate::tokens::lemma_trimq_wrap(r.description);
    crate::tokens::lemma_trimq_id(p6);
    crate::tokens::lemma_trimq_id(p7);
    assert(spec_row_fields(line) =~= seq![p0, p1, p2, p3, p4, r.description, p6, p7]);
}

/// Collects the token facts for all six enum names.
pub proof fn lemma_name_tokens_pub()
    ensures
        crate::tokens::spec_token("DEPOSIT"@),
        crate::tokens::spec_token("WITHDRAWAL"@),
        crate::tokens::spec_token("TRANSFER"@),
        crate::tokens::spec_token("FAILURE"@),
        crate::tokens::spec_token("PENDING"@),
        crate::tokens::spec_token("SUCCESS"@),
        forall|t: TxType| crate::tokens::spec_token(#[trigger] spec_type_name(t)),
        forall|t: TxStatus| crate::tokens::spec_token(#[trigger] spec_status_name(t)),
{
    crate::tokens::lemma_token_deposit();
    crate::tokens::lemma_token_withdrawal();
    crate::tokens::lemma_token_transfer();
    crate::tokens::lemma_token_failure();
    crate::tokens::lemma_token_pending();
    crate::tokens::lemma_token_success();
    assert forall|t: TxType| crate::tokens::spec_token(#[trigger] spec_type_name(t)) by {
        match t {
            TxType::DEPOSIT => {},
            TxType::WITHDRAWAL => {},
            TxType::TRANSFER => {},
        }
    }
    assert forall|t: TxStatus| crate::tokens::spec_token(#[trigger] spec_status_name(t)) by {
        match t {
            TxStatus::FAILURE => {},
            TxStatus::PENDING => {},
            TxStatus::SUCCESS => {},
        }
    }
}

/// The line written for a lossless record holds no line break.
pub proof fn lemma_csv_line_clean(r: RecordV)
    requires
        spec_csv_lossless(r),
    ensures
        crate::tokens::spec_nl_free(spec_csv_line(r)),
{
    lemma_name_tokens_pub();
    crate::tokens::lemma_digits_token(r.to_user_id);
    crate::tokens::lemma_digits_token(r.from_user_id);
    crate::tokens::lemma_digits_token(r.timestamp);
    crate::tokens::lemma_digits_token(r.tx_id);
    crate::tokens::lemma_digits_token(r.amount);
    let line = spec_csv_line(r);
    assert forall|i: int| 0 <= i < line.len() implies #[trigger] line[i] != '\n' && line[i]
        != '\r' by {
    }
}

/// The row written for a lossless record parses back to the record.
pub proof fn lemma_csv_parse_line(r: RecordV)
    requires
        spec_csv_lossless(r),
    ensures
        spec_parse_record_csv(spec_header_names(), spec_row_fields(spec_csv_line(r))) == Ok::<
            RecordV,
            ParsingErrorV,
        >(r),
{
    lemma_csv_line_fields(r);
    let values = spec_row_fields(spec_csv_line(r));
    lemma_lookup_header(values);
    lemma_type_tokens();
    lemma_status_tokens();
    crate::num::lemma_parse_u64_str(r.to_user_id);
    crate::num::lemma_parse_u64_str(r.from_user_id);
    crate::num::lemma_parse_u64_str(r.timestamp);
    crate::num::lemma_parse_u64_str(r.tx_id);
    crate::num::lemma_parse_u64_str(r.amount);
    assert(spec_parse_record_csv(spec_header_names(), values)->Ok_0 =~= r);
}

/// The lines of the data part are the records' lines, in order.
pub proof fn lemma_csv_body_lines(rs: Seq<RecordV>)
    requires
        forall|i: int| 0 <= i < rs.len() ==> spec_csv_lossless(#[trigger] rs[i]),
    ensures
        spec_lines(spec_csv_body(rs)) == rs.map_values(|r: RecordV| spec_csv_line(r)),
    decreases rs.len(),
{
    if rs.len() == 0 {
        assert(spec_csv_body(rs).len() == 0);
        assert(spec_lines(spec_csv_body(rs)) =~= rs.map_values(|r: RecordV| spec_csv_line(r)));
    } else {
        lemma_csv_line_clean(rs[0]);
        assert(spec_csv_body(rs) =~= spec_csv_line(rs[0]) + seq!['\n'] + spec_csv_body(
            rs.drop_first(),
        ));
        crate::tokens::lemma_lines_prepend(spec_csv_line(rs[0]), spec_csv_body(rs.drop_first()));
        lemma_csv_body_lines(rs.drop_first());
        assert(spec_lines(spec_csv_body(rs)) =~= rs.map_values(|r: RecordV| spec_csv_line(r)));
    }
}

/// Parsing the data lines written for lossless records yields the records.
pub proof fn lemma_csv_parse_lines(ls: Seq<Seq<char>>, i: int, rs: Seq<RecordV>)
    requires
        forall|j: int| 0 <= j < rs.len() ==> spec_csv_lossless(#[trigger] rs[j]),
        0 <= i <= ls.len(),
        ls.len() - i == rs.len(),
        forall|j: int| 0 <= j < rs.len() ==> ls[i + j] == spec_csv_line(#[trigger] rs[j]),
    ensures
        spec_parse_csv_lines(ls, i, spec_header_names()) == Ok::<Seq<RecordV>, ParsingErrorV>(rs),
    decreases rs.len(),
{
    if rs.len() == 0 {
        assert(rs =~= Seq::<RecordV>::empty());
    } else {
        let r = rs[0];
        let line = spec_csv_line(r);
        assert(ls[i] == line);
        lemma_name_tokens_pub();
        crate::tokens::lemma_digits_token(r.amount);
        assert(line[0] == spec_type_name(r.tx_type)[0]);
        assert(line.last() == spec_u64_str(r.amount).last());
        crate::tokens::lemma_trim_id(line);
        assert(line.len() > 0);
        lemma_csv_line_fields(r);
        assert(spec_row_fields(line).len() == 8);
        lemma_csv_parse_line(r);
        assert(forall|j: int|
            0 <= j < rs.drop_first().len() ==> spec_csv_lossless(#[trigger] rs.drop_first()[j]));
        assert(forall|j: int|
            0 <= j < rs.drop_first().len() ==> ls[i + 1 + j] == spec_csv_line(
                #[trigger] rs.drop_first()[j],
            ));
        lemma_csv_parse_lines(ls, i + 1, rs.drop_first());
        assert(seq![r] + rs.drop_first() =~= rs);
    }
}

/// Round trip: parsing what encoding produced yields the original records,
/// for every record set the sheet format carries without loss.
pub proof fn lemma_csv_round_trip(rs: Seq<RecordV>)
    requires
        forall|i: int| 0 <= i < rs.len() ==> spec_csv_lossless(#[trigger] rs[i]),
    ensures
        spec_parse_csv(encode_utf8(spec_csv_text(rs))) == Ok::<Seq<RecordV>, ParsingErrorV>(rs),
{
    let text = spec_csv_text(rs);
    let bytes = encode_utf8(text);
    vstd::utf8::encode_utf8_valid_utf8(text);
    vstd::utf8::encode_utf8_decode_utf8(text);
    let hdr = spec_csv_header();
    crate::tokens::lemma_token_k_tx_type();
    crate::tokens::lemma_token_k_status();
    crate::tokens::lemma_token_k_to();
    crate::tokens::lemma_token_k_from();
    crate::tokens::lemma_token_k_ts();
    crate::tokens::lemma_token_k_desc();
    crate::tokens::lemma_token_k_tx_id();
    crate::tokens::lemma_token_k_amount();
    assert(crate::tokens::spec_nl_free(hdr)) by {
        assert forall|i: int| 0 <= i < hdr.len() implies #[trigger] hdr[i] != '\n' && hdr[i]
            != '\r' by {
        }
    }
    assert(text =~= hdr + seq!['\n'] + spec_csv_body(rs));
    crate::tokens::lemma_lines_prepend(hdr, spec_csv_body(rs));
    lemma_csv_body_lines(rs);
    let ls = spec_lines(text);
    assert(ls == seq![hdr] + rs.map_values(|r: RecordV| spec_csv_line(r)));
    assert(ls.len() == 1 + rs.len());
    assert(ls[0] == hdr);
    lemma_header_fields();
    assert(forall|j: int|
        0 <= j < rs.len() ==> ls[1 + j] == spec_csv_line(#[trigger] rs[j]));
    lemma_csv_parse_lines(ls, 1, rs);
}


/// Enum tokens are matched up to ASCII case: two tokens that agree up to
/// case decode to the same type and the same status.
pub proof fn lemma_enum_case_insensitive(a: Seq<char>, b: Seq<char>)
    requires
        spec_eq_ignore_case(a, b),
    ensures
        spec_tx_type_csv(a) == spec_tx_type_csv(b),
        spec_tx_status_csv(a) == spec_tx_status_csv(b),
{
    assert forall|n: Seq<char>| spec_eq_ignore_case(a, n) == spec_eq_ignore_case(b, n) by {
        if spec_eq_ignore_case(a, n) {
            assert forall|i: int|
                0 <= i < b.len() implies crate::text::spec_ascii_lower(#[trigger] b[i])
                == crate::text::spec_ascii_lower(n[i]) by {
                assert(crate::text::spec_ascii_lower(a[i]) == crate::text::spec_ascii_lower(b[i]));
                assert(crate::text::spec_ascii_lower(a[i]) == crate::text::spec_ascii_lower(n[i]));
            }
        }
        if spec_eq_ignore_case(b, n) {
            assert forall|i: int|
                0 <= i < a.len() implies crate::text::spec_ascii_lower(#[trigger] a[i])
                == crate::text::spec_ascii_lower(n[i]) by {
                assert(crate::text::spec_ascii_lower(a[i]) == crate::text::spec_ascii_lower(b[i]));
                assert(crate::text::spec_ascii_lower(b[i]) == crate::text::spec_ascii_lower(n[i]));
            }
        }
    }
}


/// Column-count mismatch: when row parsing reaches a non-blank line whose
/// field count differs from the header's, the parse fails with exactly that
/// mismatch, naming the line by its 1-based number in the input.
pub proof fn lemma_csv_column_mismatch(ls: Seq<Seq<char>>, k: int, i: int, header: Seq<Seq<char>>)
    requires
        1 <= k <= i < ls.len(),
        forall|j: int|
            k <= j < i ==> #[trigger] spec_trim(ls[j]).len() == 0 || (spec_row_fields(
                spec_trim(ls[j]),
            ).len() == header.len() && spec_parse_record_csv(
                header,
                spec_row_fields(spec_trim(ls[j])),
            ) is Ok),
        spec_trim(ls[i]).len() > 0,
        spec_row_fields(spec_trim(ls[i])).len() != header.len(),
    ensures
        spec_parse_csv_lines(ls, k, header) == Err::<Seq<RecordV>, ParsingErrorV>(
            ParsingErrorV::WrongColumnCount {
                line_number: i + 1,
                header: header.len() as int,
                values: spec_row_fields(spec_trim(ls[i])).len() as int,
            },
        ),
    decreases i - k,
{
    if k == i {
    } else {
        lemma_csv_column_mismatch(ls, k + 1, i, header);
    }
}

} // verus!
