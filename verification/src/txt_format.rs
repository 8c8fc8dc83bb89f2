//! The block-structured key/value text format.
//!
//! Each record is one block: a `# Record` heading, then `KEY: value` lines.
//! A heading finalises the pairs gathered so far into a record; so does the
//! end of the stream.  Values may be wrapped in one pair of double quotes;
//! keys and values are trimmed; enum tokens must match their names exactly.

use vstd::prelude::*;

use crate::csv_format::{spec_status_name, spec_type_name};
use crate::errors::{ConvertingError, ParsingError, ParsingErrorV};
use crate::num::{parse_u64, spec_parse_u64, spec_u64_str, u64_to_chars};
use crate::text::{
    chars_to_string, copy_range, eq_chars_str, lines_of, push_chars, spec_lines,
    spec_strip_quote_pair, spec_trim, starts_with_str, string_to_chars, string_utf8_bytes, strip_quote_pair,
    trim_in, utf8_to_string,
};
use crate::{Converter, Record, RecordV, TxStatus, TxType};
use vstd::utf8::{decode_utf8, encode_utf8, valid_utf8};

verus! {

broadcast use crate::text::lemma_vec_char_deep_view;

/// The transaction type a text token denotes: the exact name only.
pub open spec fn spec_tx_type_txt(t: Seq<char>) -> Option<TxType> {
    if t == "DEPOSIT"@ {
        Some(TxType::DEPOSIT)
    } else if t == "WITHDRAWAL"@ {
        Some(TxType::WITHDRAWAL)
    } else if t == "TRANSFER"@ {
        Some(TxType::TRANSFER)
    } else {
        None
    }
}

/// The transaction status a text token denotes: the exact name only.
pub open spec fn spec_tx_status_txt(t: Seq<char>) -> Option<TxStatus> {
    if t == "FAILURE"@ {
        Some(TxStatus::FAILURE)
    } else if t == "PENDING"@ {
        Some(TxStatus::PENDING)
    } else if t == "SUCCESS"@ {
        Some(TxStatus::SUCCESS)
    } else {
        None
    }
}

/// The value of the last pair with key `key`, if any; a later line with the
/// same key shadows an earlier one.
pub open spec fn spec_lookup_pairs(pairs: Seq<(Seq<char>, Seq<char>)>, key: Seq<char>) -> Option<
    Seq<char>,
>
    decreases pairs.len(),
{
    if pairs.len() == 0 {
        None
    } else if pairs.last().0 == key {
        Some(pairs.last().1)
    } else {
        spec_lookup_pairs(pairs.drop_last(), key)
    }
}

/// A numeric key of a block: absent is a missing key, unparseable a wrong key.
pub open spec fn spec_num_pair(pairs: Seq<(Seq<char>, Seq<char>)>, key: Seq<char>) -> Result<
    u64,
    ParsingErrorV,
> {
    match spec_lookup_pairs(pairs, key) {
        None => Err(ParsingErrorV::MissingKey { key }),
        Some(v) => match spec_parse_u64(v) {
            None => Err(ParsingErrorV::WrongKey { key }),
            Some(x) => Ok(x),
        },
    }
}

/// The record one block of pairs denotes, or the first error: unknown type,
/// unknown status, then each numeric key in field order.
pub open spec fn spec_parse_record_txt(pairs: Seq<(Seq<char>, Seq<char>)>) -> Result<
    RecordV,
    ParsingErrorV,
> {
    let ty = spec_lookup_pairs(pairs, "TX_TYPE"@);
    if ty is None || spec_tx_type_txt(ty->0) is None {
        Err(ParsingErrorV::WrongTxType)
    } else {
        let st = spec_lookup_pairs(pairs, "STATUS"@);
        if st is None || spec_tx_status_txt(st->0) is None {
            Err(ParsingErrorV::WrongStatusType)
        } else {
            let to = spec_num_pair(pairs, "TO_USER_ID"@);
            let from = spec_num_pair(pairs, "FROM_USER_ID"@);
            let ts = spec_num_pair(pairs, "TIMESTAMP"@);
            let id = spec_num_pair(pairs, "TX_ID"@);
            let amount = spec_num_pair(pairs, "AMOUNT"@);
            if to is Err {
                Err(to->Err_0)
            } else if from is Err {
                Err(from->Err_0)
            } else if ts is Err {
                Err(ts->Err_0)
            } else if id is Err {
                Err(id->Err_0)
            } else if amount is Err {
                Err(amount->Err_0)
            } else {
                Ok(
                    RecordV {
                        tx_type: spec_tx_type_txt(ty->0)->0,
                        tx_status: spec_tx_status_txt(st->0)->0,
                        to_user_id: to->Ok_0,
                        from_user_id: from->Ok_0,
                        timestamp: ts->Ok_0,
                        description: match spec_lookup_pairs(pairs, "DESCRIPTION"@) {
                            Some(d) => d,
                            None => Seq::empty(),
                        },
                        tx_id: id->Ok_0,
                        amount: amount->Ok_0,
                    },
                )
            }
        }
    }
}

/// The key/value pair a line carries: split at the first colon, both halves
/// trimmed, the value stripped of one enclosing pair of double quotes.  A
/// line without a colon carries none.
pub open spec fn spec_key_value(l: Seq<char>) -> Option<(Seq<char>, Seq<char>)> {
    let i = crate::text::spec_find(l, ':');
    if i < 0 {
        None
    } else {
        Some(
            (
                spec_trim(l.take(i)),
                spec_strip_quote_pair(spec_trim(l.skip(i + 1))),
            ),
        )
    }
}

/// Whether a trimmed line opens a new record block.
pub open spec fn spec_is_heading(line: Seq<char>) -> bool {
    line.len() >= 8 && line.take(8) == "# Record"@
}

/// What parsing the lines from `i` on yields, with `cur` the pairs of the
/// block still open.
pub open spec fn spec_parse_txt_lines(
    ls: Seq<Seq<char>>,
    i: int,
    cur: Seq<(Seq<char>, Seq<char>)>,
) -> Result<Seq<RecordV>, ParsingErrorV>
    decreases ls.len() - i,
{
    if i < 0 || i >= ls.len() {
        if cur.len() == 0 {
            Ok(Seq::empty())
        } else {
            match spec_parse_record_txt(cur) {
                Err(e) => Err(e),
                Ok(r) => Ok(seq![r]),
            }
        }
    } else {
        let line = spec_trim(ls[i]);
        if line.len() == 0 {
            spec_parse_txt_lines(ls, i + 1, cur)
        } else if spec_is_heading(line) {
            if cur.len() == 0 {
                spec_parse_txt_lines(ls, i + 1, Seq::empty())
            } else {
                match spec_parse_record_txt(cur) {
                    Err(e) => Err(e),
                    Ok(r) => match spec_parse_txt_lines(ls, i + 1, Seq::empty()) {
                        Err(e) => Err(e),
                        Ok(rest) => Ok(seq![r] + rest),
                    },
                }
            }
        } else {
            match spec_key_value(line) {
                None => spec_parse_txt_lines(ls, i + 1, cur),
                Some(p) => spec_parse_txt_lines(ls, i + 1, cur.push(p)),
            }
        }
    }
}

/// What parsing a text byte stream yields: invalid UTF-8 is rejected; an
/// empty stream holds no records and is not an error.
pub open spec fn spec_parse_txt(bytes: Seq<u8>) -> Result<Seq<RecordV>, ParsingErrorV> {
    if !valid_utf8(bytes) {
        Err(ParsingErrorV::Utf8Error)
    } else {
        spec_parse_txt_lines(spec_lines(decode_utf8(bytes)), 0, Seq::empty())
    }
}

/// The heading line of one block.
pub open spec fn spec_txt_heading(r: RecordV, n: u64) -> Seq<char> {
    "# Record"@ + seq![' '] + spec_u64_str(n) + seq![' ', '('] + spec_type_name(r.tx_type) + seq![
        ')',
    ]
}

/// One `KEY: value` line, without its line feed.
pub open spec fn spec_txt_kv(key: Seq<char>, value: Seq<char>) -> Seq<char> {
    key + seq![':', ' '] + value
}

/// The lines of one block, in order: heading, eight key lines, one blank.
pub open spec fn spec_txt_block_lines(r: RecordV, n: u64) -> Seq<Seq<char>> {
    seq![
        spec_txt_heading(r, n),
        spec_txt_kv("TX_TYPE"@, spec_type_name(r.tx_type)),
        spec_txt_kv("TO_USER_ID"@, spec_u64_str(r.to_user_id)),
        spec_txt_kv("FROM_USER_ID"@, spec_u64_str(r.from_user_id)),
        spec_txt_kv("TIMESTAMP"@, spec_u64_str(r.timestamp)),
        spec_txt_kv("DESCRIPTION"@, seq!['"'] + r.description + seq!['"']),
        spec_txt_kv("TX_ID"@, spec_u64_str(r.tx_id)),
        spec_txt_kv("AMOUNT"@, spec_u64_str(r.amount)),
        spec_txt_kv("STATUS"@, spec_status_name(r.tx_status)),
        Seq::<char>::empty(),
    ]
}

/// The text block of one record, numbered `n`.
pub open spec fn spec_txt_block(r: RecordV, n: u64) -> Seq<char> {
    spec_txt_heading(r, n) + seq!['\n'] + spec_txt_kv("TX_TYPE"@, spec_type_name(r.tx_type))
        + seq!['\n'] + spec_txt_kv("TO_USER_ID"@, spec_u64_str(r.to_user_id)) + seq!['\n']
        + spec_txt_kv("FROM_USER_ID"@, spec_u64_str(r.from_user_id)) + seq!['\n'] + spec_txt_kv(
        "TIMESTAMP"@,
        spec_u64_str(r.timestamp),
    ) + seq!['\n'] + spec_txt_kv("DESCRIPTION"@, seq!['"'] + r.description + seq!['"']) + seq![
        '\n',
    ] + spec_txt_kv("TX_ID"@, spec_u64_str(r.tx_id)) + seq!['\n'] + spec_txt_kv(
        "AMOUNT"@,
        spec_u64_str(r.amount),
    ) + seq!['\n'] + spec_txt_kv("STATUS"@, spec_status_name(r.tx_status)) + seq!['\n'] + seq![
        '\n',
    ]
}

/// The text of the records of `rs`, their blocks numbered from `idx + 1` on.
pub open spec fn spec_txt_text_from(rs: Seq<RecordV>, idx: int) -> Seq<char>
    decreases rs.len(),
{
    if rs.len() == 0 {
        Seq::empty()
    } else {
        spec_txt_block(rs[0], (idx + 1) as u64) + spec_txt_text_from(rs.drop_first(), idx + 1)
    }
}

/// The whole text of `rs`.
pub open spec fn spec_txt_text(rs: Seq<RecordV>) -> Seq<char> {
    spec_txt_text_from(rs, 0)
}

/// Encoding one more record appends one more block.
pub proof fn lemma_txt_text_snoc(rs: Seq<RecordV>, r: RecordV, idx: int)
    ensures
        spec_txt_text_from(rs.push(r), idx) == spec_txt_text_from(rs, idx) + spec_txt_block(
            r,
            (idx + rs.len() + 1) as u64,
        ),
    decreases rs.len(),
{
    if rs.len() == 0 {
        assert(rs.push(r)[0] == r);
        assert(rs.push(r).drop_first() =~= Seq::<RecordV>::empty());
        assert(spec_txt_text_from(Seq::<RecordV>::empty(), idx + 1) =~= Seq::<char>::empty());
        assert(spec_txt_text_from(rs.push(r), idx) =~= spec_txt_text_from(rs, idx)
            + spec_txt_block(r, (idx + 1) as u64));
    } else {
        assert(rs.push(r).drop_first() =~= rs.drop_first().push(r));
        lemma_txt_text_snoc(rs.drop_first(), r, idx + 1);
        assert(rs.push(r)[0] == rs[0]);
        assert(spec_txt_text_from(rs.push(r), idx) =~= spec_txt_text_from(rs, idx)
            + spec_txt_block(r, (idx + rs.len() + 1) as u64));
    }
}

/// A parse already holding `prefix`, continued by `rest`.
pub open spec fn spec_compose_txt(
    prefix: Seq<RecordV>,
    rest: Result<Seq<RecordV>, ParsingErrorV>,
) -> Result<Seq<RecordV>, ParsingErrorV> {
    match rest {
        Ok(t) => Ok(prefix + t),
        Err(e) => Err(e),
    }
}

/// Finalising a block at a heading moves its record to the prefix.
proof fn lemma_txt_step(
    ls: Seq<Seq<char>>,
    i: int,
    cur: Seq<(Seq<char>, Seq<char>)>,
    prefix: Seq<RecordV>,
    rv: RecordV,
)
    requires
        0 <= i < ls.len(),
        spec_trim(ls[i]).len() > 0,
        spec_is_heading(spec_trim(ls[i])),
        cur.len() > 0,
        spec_parse_record_txt(cur) == Ok::<RecordV, ParsingErrorV>(rv),
    ensures
        spec_compose_txt(prefix, spec_parse_txt_lines(ls, i, cur)) == spec_compose_txt(
            prefix.push(rv),
            spec_parse_txt_lines(ls, i + 1, Seq::empty()),
        ),
{
    match spec_parse_txt_lines(ls, i + 1, Seq::<(Seq<char>, Seq<char>)>::empty()) {
        Ok(rest) => {
            assert(prefix + (seq![rv] + rest) =~= prefix.push(rv) + rest);
        },
        Err(_) => {},
    }
}

/// Records structure for the text format.
pub struct TXTRecords {
    /// Records
    pub records: Vec<Record>,
}

/// Looks up the value of the last pair with key `key`.
fn lookup_pairs(pairs: &Vec<(Vec<char>, Vec<char>)>, key: &str) -> (res: Option<Vec<char>>)
    ensures
        match res {
            Some(v) => spec_lookup_pairs(pairs.deep_view(), key@) == Some(v@),
            None => spec_lookup_pairs(pairs.deep_view(), key@) is None,
        },
{
    let mut j: usize = pairs.len();
    proof {
        assert(pairs.deep_view().take(j as int) =~~= pairs.deep_view());
    }
    while j > 0
        invariant
            j <= pairs@.len(),
            spec_lookup_pairs(pairs.deep_view(), key@) == spec_lookup_pairs(
                pairs.deep_view().take(j as int),
                key@,
            ),
        decreases j,
    {
        let ghost ps = pairs.deep_view().take(j as int);
        proof {
            assert(ps.last() == pairs.deep_view()[j - 1]);
            assert(pairs.deep_view()[j - 1] == pairs@[j - 1].deep_view());
            assert(ps.drop_last() =~~= pairs.deep_view().take(j - 1));
        }
        if eq_chars_str(&pairs[j - 1].0, key) {
            let out = copy_range(&pairs[j - 1].1, 0, pairs[j - 1].1.len());
            proof {
                assert(out@ =~= pairs@[j - 1].1@);
            }
            return Some(out);
        }
        j = j - 1;
    }
    proof {
        assert(pairs.deep_view().take(0) =~~= Seq::<(Seq<char>, Seq<char>)>::empty());
    }
    None
}

/// Reads one numeric key of a block.
fn num_pair(pairs: &Vec<(Vec<char>, Vec<char>)>, key: &str) -> (res: Result<u64, ParsingError>)
    ensures
        match res {
            Ok(x) => spec_num_pair(pairs.deep_view(), key@) == Ok::<u64, ParsingErrorV>(x),
            Err(e) => spec_num_pair(pairs.deep_view(), key@) == Err::<u64, ParsingErrorV>(e@),
        },
{
    match lookup_pairs(pairs, key) {
        None => Err(ParsingError::MissingKey { key: chars_to_string(&string_to_chars(key)) }),
        Some(v) => match parse_u64(&v) {
            None => Err(ParsingError::WrongKey { key: chars_to_string(&string_to_chars(key)) }),
            Some(x) => Ok(x),
        },
    }
}

/// Finalises the pairs of one block into a record.
#[verifier::rlimit(50)]
pub fn parse_record(pairs: &Vec<(Vec<char>, Vec<char>)>) -> (res: Result<Record, ParsingError>)
    ensures
        match res {
            Ok(rec) => spec_parse_record_txt(pairs.deep_view()) == Ok::<RecordV, ParsingErrorV>(
                rec@,
            ),
            Err(e) => spec_parse_record_txt(pairs.deep_view()) == Err::<RecordV, ParsingErrorV>(
                e@,
            ),
        },
{
    let ty_tok = match lookup_pairs(pairs, "TX_TYPE") {
        Some(t) => t,
        None => {
            return Err(ParsingError::WrongTxType);
        },
    };
    let tx_type = if eq_chars_str(&ty_tok, "DEPOSIT") {
        TxType::DEPOSIT
    } else if eq_chars_str(&ty_tok, "WITHDRAWAL") {
        TxType::WITHDRAWAL
    } else if eq_chars_str(&ty_tok, "TRANSFER") {
        TxType::TRANSFER
    } else {
        return Err(ParsingError::WrongTxType);
    };
    let st_tok = match lookup_pairs(pairs, "STATUS") {
        Some(t) => t,
        None => {
            return Err(ParsingError::WrongStatusType);
        },
    };
    let tx_status = if eq_chars_str(&st_tok, "FAILURE") {
        TxStatus::FAILURE
    } else if eq_chars_str(&st_tok, "PENDING") {
        TxStatus::PENDING
    } else if eq_chars_str(&st_tok, "SUCCESS") {
        TxStatus::SUCCESS
    } else {
        return Err(ParsingError::WrongStatusType);
    };
    let to_user_id = match num_pair(pairs, "TO_USER_ID") {
        Ok(x) => x,
        Err(e) => {
            return Err(e);
        },
    };
    let from_user_id = match num_pair(pairs, "FROM_USER_ID") {
        Ok(x) => x,
        Err(e) => {
            return Err(e);
        },
    };
    let timestamp = match num_pair(pairs, "TIMESTAMP") {
        Ok(x) => x,
        Err(e) => {
            return Err(e);
        },
    };
    let tx_id = match num_pair(pairs, "TX_ID") {
        Ok(x) => x,
        Err(e) => {
            return Err(e);
        },
    };
    let amount = match num_pair(pairs, "AMOUNT") {
        Ok(x) => x,
        Err(e) => {
            return Err(e);
        },
    };
    let description = match lookup_pairs(pairs, "DESCRIPTION") {
        Some(d) => chars_to_string(&d),
        None => chars_to_string(&Vec::new()),
    };
    let rec = Record {
        tx_type,
        tx_status,
        to_user_id,
        from_user_id,
        timestamp,
        description,
        tx_id,
        amount,
    };
    proof {
        assert(rec@ =~= spec_parse_record_txt(pairs.deep_view())->Ok_0);
    }
    Ok(rec)
}

/// Index of the first `sep` in `v`, if any.
fn find_char(v: &Vec<char>, sep: char) -> (res: Option<usize>)
    ensures
        match res {
            Some(k) => k < v@.len() && crate::text::spec_find(v@, sep) == k as int,
            None => crate::text::spec_find(v@, sep) < 0,
        },
{
    let mut i: usize = 0;
    while i < v.len()
        invariant
            i <= v@.len(),
            forall|j: int| 0 <= j < i ==> v@[j] != sep,
        decreases v@.len() - i,
    {
        if v[i] == sep {
            proof {
                crate::text::lemma_find_at(v@, sep, i as int);
            }
            return Some(i);
        }
        i = i + 1;
    }
    proof {
        crate::text::lemma_find_none(v@, sep);
    }
    None
}

impl Converter for TXTRecords {
    open spec fn spec_parse(data: Seq<u8>) -> Result<Seq<RecordV>, ParsingErrorV> {
        spec_parse_txt(data)
    }

    open spec fn spec_encode(records: Seq<RecordV>) -> Seq<u8> {
        encode_utf8(spec_txt_text(records))
    }

    open spec fn spec_encodable(records: Seq<RecordV>) -> bool {
        true
    }

    open spec fn records_view(&self) -> Seq<RecordV> {
        self.records.deep_view()
    }

    #[verifier::rlimit(100)]
    fn from_read(data: &Vec<u8>) -> (res: Result<Self, ParsingError>) {
        let text = match utf8_to_string(data) {
            Some(s) => s,
            None => {
                return Err(ParsingError::Utf8Error);
            },
        };
        let chars = string_to_chars(text.as_str());
        let ls = lines_of(&chars);
        let ghost lsv = spec_lines(decode_utf8(data@));
        proof {
            assert(ls.deep_view() == lsv);
        }
        let mut records: Vec<Record> = Vec::new();
        let mut cur: Vec<(Vec<char>, Vec<char>)> = Vec::new();
        let mut i: usize = 0;
        proof {
            assert(records.deep_view() =~~= Seq::<RecordV>::empty());
            assert(cur.deep_view() =~~= Seq::<(Seq<char>, Seq<char>)>::empty());
            assert(spec_parse_txt(data@) == spec_parse_txt_lines(lsv, 0, cur.deep_view()));
            if spec_parse_txt_lines(lsv, 0, cur.deep_view()) is Ok {
                assert(records.deep_view() + spec_parse_txt_lines(lsv, 0, cur.deep_view())->Ok_0
                    =~= spec_parse_txt_lines(lsv, 0, cur.deep_view())->Ok_0);
            }
        }
        while i < ls.len()
            invariant
                i <= ls@.len(),
                ls.deep_view() == lsv,
                spec_parse_txt(data@) == spec_compose_txt(
                    records.deep_view(),
                    spec_parse_txt_lines(lsv, i as int, cur.deep_view()),
                ),
            decreases ls@.len() - i,
        {
            let line = trim_in(&ls[i]);
            proof {
                assert(ls@[i as int]@ == lsv[i as int]);
                assert(line@ == spec_trim(lsv[i as int]));
            }
            if line.len() == 0 {
                i = i + 1;
                continue ;
            }
            let heading = starts_with_str(&line, "# Record");
            proof {
                reveal_strlit("# Record");
                assert(heading == spec_is_heading(line@));
            }
            if heading {
                if cur.len() > 0 {
                    let rec = match parse_record(&cur) {
                        Ok(rec) => rec,
                        Err(e) => {
                            return Err(e);
                        },
                    };
                    let ghost rv = rec@;
                    let ghost old_recs = records.deep_view();
                    let ghost old_cur = cur.deep_view();
                    records.push(rec);
                    cur = Vec::new();
                    proof {
                        assert(records.deep_view() =~~= old_recs.push(rv));
                        assert(cur.deep_view() =~~= Seq::<(Seq<char>, Seq<char>)>::empty());
                        lemma_txt_step(lsv, i as int, old_cur, old_recs, rv);
                    }
                } else {
                    proof {
                        assert(cur.deep_view() =~~= Seq::<(Seq<char>, Seq<char>)>::empty());
                    }
                }
                i = i + 1;
                continue ;
            }
            match find_char(&line, ':') {
                Some(k) => {
                    let key = trim_in(&copy_range(&line, 0, k));
                    let v0 = trim_in(&copy_range(&line, k + 1, line.len()));
                    let value = strip_quote_pair(&v0);
                    let ghost old_cur = cur.deep_view();
                    proof {
                        assert(line@.take(k as int) =~= line@.subrange(0, k as int));
                        assert(line@.skip(k + 1) =~= line@.subrange(k + 1, line@.len() as int));
                        assert(spec_key_value(line@) == Some((key@, value@)));
                    }
                    cur.push((key, value));
                    proof {
                        assert(cur.deep_view() =~~= old_cur.push((key@, value@)));
                    }
                },
                None => {
                },
            }
            i = i + 1;
        }
        if cur.len() > 0 {
            let rec = match parse_record(&cur) {
                Ok(rec) => rec,
                Err(e) => {
                    return Err(e);
                },
            };
            let ghost rv = rec@;
            let ghost old_recs = records.deep_view();
            records.push(rec);
            proof {
                assert(records.deep_view() =~~= old_recs.push(rv));
                assert(spec_parse_txt_lines(lsv, ls@.len() as int, cur.deep_view()) == Ok::<
                    Seq<RecordV>,
                    ParsingErrorV,
                >(seq![rv]));
                assert(old_recs + seq![rv] =~= records.deep_view());
            }
        } else {
            proof {
                assert(spec_parse_txt_lines(lsv, ls@.len() as int, cur.deep_view()) == Ok::<
                    Seq<RecordV>,
                    ParsingErrorV,
                >(Seq::<RecordV>::empty()));
                assert(records.deep_view() + Seq::<RecordV>::empty() =~= records.deep_view());
            }
        }
        Ok(TXTRecords { records })
    }

    #[verifier::rlimit(100)]
    fn write_to(records: &Vec<Record>, out: &mut Vec<u8>) -> (res: Result<(), ConvertingError>) {
        let mut text: Vec<char> = Vec::new();
        proof {
            assert(text@ =~= spec_txt_text_from(records.deep_view().take(0), 0));
        }
        let mut i: usize = 0;
        while i < records.len()
            invariant
                i <= records@.len(),
                text@ == spec_txt_text_from(records.deep_view().take(i as int), 0),
            decreases records@.len() - i,
        {
            let r = &records[i];
            let ghost rv = records.deep_view()[i as int];
            let ghost text0 = text@;
            push_txt_block(&mut text, r, (i as u64) + 1);
            proof {
                lemma_txt_text_snoc(records.deep_view().take(i as int), rv, 0);
                assert(records.deep_view().take(i + 1 as int) =~= records.deep_view().take(
                    i as int,
                ).push(rv));
            }
            i = i + 1;
        }
        proof {
            assert(records.deep_view().take(records@.len() as int) =~= records.deep_view());
        }
        let s = chars_to_string(&text);
        let bytes = string_utf8_bytes(&s);
        crate::bin_format::push_bytes(out, &bytes);
        Ok(())
    }

    fn as_records(&self) -> (r: &Vec<Record>) {
        &self.records
    }
}

/// Appends the text block of `r`, numbered `n`, to `text`.
#[verifier::rlimit(100)]
fn push_txt_block(text: &mut Vec<char>, r: &Record, n: u64)
    ensures
        final(text)@ == old(text)@ + spec_txt_block(r@, n),
{
    let num = u64_to_chars(n);
    let ty = string_to_chars(
        match r.tx_type {
            TxType::DEPOSIT => "DEPOSIT",
            TxType::WITHDRAWAL => "WITHDRAWAL",
            TxType::TRANSFER => "TRANSFER",
        },
    );
    let st = string_to_chars(
        match r.tx_status {
            TxStatus::FAILURE => "FAILURE",
            TxStatus::PENDING => "PENDING",
            TxStatus::SUCCESS => "SUCCESS",
        },
    );
    let desc = string_to_chars(r.description.as_str());
    let head = string_to_chars("# Record");
    push_chars(text, &head);
    text.push(' ');
    push_chars(text, &num);
    text.push(' ');
    text.push('(');
    push_chars(text, &ty);
    text.push(')');
    text.push('\n');
    let k_type = string_to_chars("TX_TYPE");
    push_chars(text, &k_type);
    text.push(':');
    text.push(' ');
    push_chars(text, &ty);
    text.push('\n');
    let k_to = string_to_chars("TO_USER_ID");
    push_chars(text, &k_to);
    text.push(':');
    text.push(' ');
    let to = u64_to_chars(r.to_user_id);
    push_chars(text, &to);
    text.push('\n');
    let k_from = string_to_chars("FROM_USER_ID");
    push_chars(text, &k_from);
    text.push(':');
    text.push(' ');
    let from = u64_to_chars(r.from_user_id);
    push_chars(text, &from);
    text.push('\n');
    let k_ts = string_to_chars("TIMESTAMP");
    push_chars(text, &k_ts);
    text.push(':');
    text.push(' ');
    let ts = u64_to_chars(r.timestamp);
    push_chars(text, &ts);
    text.push('\n');
    let k_desc = string_to_chars("DESCRIPTION");
    push_chars(text, &k_desc);
    text.push(':');
    text.push(' ');
    text.push('"');
    push_chars(text, &desc);
    text.push('"');
    text.push('\n');
    let k_id = string_to_chars("TX_ID");
    push_chars(text, &k_id);
    text.push(':');
    text.push(' ');
    let id = u64_to_chars(r.tx_id);
    push_chars(text, &id);
    text.push('\n');
    let k_amount = string_to_chars("AMOUNT");
    push_chars(text, &k_amount);
    text.push(':');
    text.push(' ');
    let amount = u64_to_chars(r.amount);
    push_chars(text, &amount);
    text.push('\n');
    let k_status = string_to_chars("STATUS");
    push_chars(text, &k_status);
    text.push(':');
    text.push(' ');
    push_chars(text, &st);
    text.push('\n');
    text.push('\n');
    proof {
        assert(text@ =~= old(text)@ + spec_txt_block(r@, n));
    }
}


/// Whether the text format carries `r` without loss: the description holds
/// no line break.
pub open spec fn spec_txt_lossless(r: RecordV) -> bool {
    forall|i: int|
        0 <= i < r.description.len() ==> #[trigger] r.description[i] != '\n' && r.description[i]
            != '\r'
}

/// The pairs a block's key lines accumulate, in written order.
pub open spec fn spec_block_pairs(r: RecordV) -> Seq<(Seq<char>, Seq<char>)> {
    seq![
        ("TX_TYPE"@, spec_type_name(r.tx_type)),
        ("TO_USER_ID"@, spec_u64_str(r.to_user_id)),
        ("FROM_USER_ID"@, spec_u64_str(r.from_user_id)),
        ("TIMESTAMP"@, spec_u64_str(r.timestamp)),
        ("DESCRIPTION"@, r.description),
        ("TX_ID"@, spec_u64_str(r.tx_id)),
        ("AMOUNT"@, spec_u64_str(r.amount)),
        ("STATUS"@, spec_status_name(r.tx_status)),
    ]
}

/// The printed names denote their own types and statuses under exact
/// matching, and no other name does.
pub proof fn lemma_exact_tokens()
    ensures
        forall|t: TxType| spec_tx_type_txt(#[trigger] spec_type_name(t)) == Some(t),
        forall|t: TxStatus| spec_tx_status_txt(#[trigger] spec_status_name(t)) == Some(t),
{
    crate::tokens::lemma_token_deposit();
    crate::tokens::lemma_token_withdrawal();
    crate::tokens::lemma_token_transfer();
    crate::tokens::lemma_token_failure();
    crate::tokens::lemma_token_pending();
    crate::tokens::lemma_token_success();
    assert("PENDING"@ != "FAILURE"@);
    assert("SUCCESS"@ != "FAILURE"@);
    assert("SUCCESS"@ != "PENDING"@);
    assert forall|t: TxType| spec_tx_type_txt(#[trigger] spec_type_name(t)) == Some(t) by {
        match t {
            TxType::DEPOSIT => {},
            TxType::WITHDRAWAL => {},
            TxType::TRANSFER => {},
        }
    }
    assert forall|t: TxStatus| spec_tx_status_txt(#[trigger] spec_status_name(t)) == Some(t) by {
        match t {
            TxStatus::FAILURE => {},
            TxStatus::PENDING => {},
            TxStatus::SUCCESS => {},
        }
    }
}

/// A block's pairs finalise to the block's record.
pub proof fn lemma_parse_block_pairs(r: RecordV)
    ensures
        spec_parse_record_txt(spec_block_pairs(r)) == Ok::<RecordV, ParsingErrorV>(r),
{
    crate::tokens::lemma_token_k_tx_type();
    crate::tokens::lemma_token_k_status();
    crate::tokens::lemma_token_k_to();
    crate::tokens::lemma_token_k_from();
    crate::tokens::lemma_token_k_ts();
    crate::tokens::lemma_token_k_desc();
    crate::tokens::lemma_token_k_tx_id();
    crate::tokens::lemma_token_k_amount();
    assert("AMOUNT"@ != "STATUS"@) by {
        reveal_strlit("AMOUNT");
        reveal_strlit("STATUS");
        assert("AMOUNT"@[0] == 'A');
        assert("STATUS"@[0] == 'S');
    }
    reveal_with_fuel(spec_lookup_pairs, 10);
    lemma_exact_tokens();
    crate::num::lemma_parse_u64_str(r.to_user_id);
    crate::num::lemma_parse_u64_str(r.from_user_id);
    crate::num::lemma_parse_u64_str(r.timestamp);
    crate::num::lemma_parse_u64_str(r.tx_id);
    crate::num::lemma_parse_u64_str(r.amount);
    assert(spec_parse_record_txt(spec_block_pairs(r))->Ok_0 =~= r);
}

/// A key line with a plain token value parses to its pair and is no heading.
pub proof fn lemma_kv_line_plain(key: Seq<char>, val: Seq<char>)
    requires
        crate::tokens::spec_token(key),
        crate::tokens::spec_token(val),
        key[0] != '#',
    ensures
        spec_trim(spec_txt_kv(key, val)) == spec_txt_kv(key, val),
        spec_txt_kv(key, val).len() > 0,
        !spec_is_heading(spec_txt_kv(key, val)),
        spec_key_value(spec_txt_kv(key, val)) == Some((key, val)),
{
    let line = spec_txt_kv(key, val);
    assert(line[0] == key[0]);
    assert(line.last() == val.last());
    crate::tokens::lemma_trim_id(line);
    crate::tokens::lemma_token_heading();
    assert(!spec_is_heading(line)) by {
        if line.len() >= 8 && line.take(8) == "# Record"@ {
            assert(line.take(8)[0] == key[0]);
            assert("# Record"@[0] == '#');
        }
    }
    assert(line[key.len() as int] == ':');
    assert(forall|j: int| 0 <= j < key.len() ==> line[j] == key[j]);
    crate::text::lemma_find_at(line, ':', key.len() as int);
    assert(line.take(key.len() as int) =~= key);
    crate::tokens::lemma_trim_id(key);
    assert(line.skip(key.len() as int + 1) =~= seq![' '] + val);
    crate::tokens::lemma_trim_space_prefix(val);
    crate::tokens::lemma_trim_id(val);
    assert(val[0] != '"');
    assert(spec_strip_quote_pair(val) == val);
}

/// The description line parses to its pair, with the quotes stripped, and is
/// no heading.
pub proof fn lemma_kv_line_desc(desc: Seq<char>)
    ensures
        spec_trim(spec_txt_kv("DESCRIPTION"@, seq!['"'] + desc + seq!['"'])) == spec_txt_kv(
            "DESCRIPTION"@,
            seq!['"'] + desc + seq!['"'],
        ),
        spec_txt_kv("DESCRIPTION"@, seq!['"'] + desc + seq!['"']).len() > 0,
        !spec_is_heading(spec_txt_kv("DESCRIPTION"@, seq!['"'] + desc + seq!['"'])),
        spec_key_value(spec_txt_kv("DESCRIPTION"@, seq!['"'] + desc + seq!['"'])) == Some(
            ("DESCRIPTION"@, desc),
        ),
{
    crate::tokens::lemma_token_k_desc();
    let key = "DESCRIPTION"@;
    let w = seq!['"'] + desc + seq!['"'];
    let line = spec_txt_kv(key, w);
    assert(line[0] == key[0]);
    assert(line.last() == '"');
    assert(!crate::text::is_space_char('"'));
    assert(!crate::text::is_space_char(key[0]));
    crate::tokens::lemma_trim_id(line);
    crate::tokens::lemma_token_heading();
    assert(!spec_is_heading(line)) by {
        if line.len() >= 8 && line.take(8) == "# Record"@ {
            assert(line.take(8)[0] == key[0]);
            assert("# Record"@[0] == '#');
        }
    }
    assert(line[key.len() as int] == ':');
    assert(forall|j: int| 0 <= j < key.len() ==> line[j] == key[j]);
    crate::text::lemma_find_at(line, ':', key.len() as int);
    assert(line.take(key.len() as int) =~= key);
    crate::tokens::lemma_trim_id(key);
    assert(line.skip(key.len() as int + 1) =~= seq![' '] + w);
    crate::tokens::lemma_trim_space_prefix(w);
    assert(w[0] == '"');
    assert(w.last() == '"');
    crate::tokens::lemma_trim_id(w);
    assert(w.len() >= 2);
    assert(spec_strip_quote_pair(w) =~= desc);
}

/// The heading line of a block is recognised as one.
pub proof fn lemma_heading_line(r: RecordV, n: u64)
    ensures
        spec_trim(spec_txt_heading(r, n)) == spec_txt_heading(r, n),
        spec_txt_heading(r, n).len() > 0,
        spec_is_heading(spec_txt_heading(r, n)),
{
    let h = spec_txt_heading(r, n);
    crate::tokens::lemma_token_heading();
    assert(h[0] == '#');
    assert(h.last() == ')');
    assert(!crate::text::is_space_char('#'));
    assert(!crate::text::is_space_char(')'));
    crate::tokens::lemma_trim_id(h);
    assert(h.take(8) =~= "# Record"@);
}

/// Every line of a block is free of line breaks.
pub proof fn lemma_block_lines_clean(r: RecordV, n: u64)
    requires
        spec_txt_lossless(r),
    ensures
        forall|k: int|
            0 <= k < 10 ==> crate::tokens::spec_nl_free(#[trigger] spec_txt_block_lines(r, n)[k]),
{
    crate::tokens::lemma_token_heading();
    crate::tokens::lemma_token_k_tx_type();
    crate::tokens::lemma_token_k_status();
    crate::tokens::lemma_token_k_to();
    crate::tokens::lemma_token_k_from();
    crate::tokens::lemma_token_k_ts();
    crate::tokens::lemma_token_k_desc();
    crate::tokens::lemma_token_k_tx_id();
    crate::tokens::lemma_token_k_amount();
    crate::csv_format::lemma_name_tokens_pub();
    crate::tokens::lemma_digits_token(n);
    crate::tokens::lemma_digits_token(r.to_user_id);
    crate::tokens::lemma_digits_token(r.from_user_id);
    crate::tokens::lemma_digits_token(r.timestamp);
    crate::tokens::lemma_digits_token(r.tx_id);
    crate::tokens::lemma_digits_token(r.amount);
    assert forall|k: int|
        0 <= k < 10 implies crate::tokens::spec_nl_free(
        #[trigger] spec_txt_block_lines(r, n)[k],
    ) by {
        let l = spec_txt_block_lines(r, n)[k];
        assert forall|i: int| 0 <= i < l.len() implies #[trigger] l[i] != '\n' && l[i] != '\r' by {
        }
    }
}

/// The lines of one block followed by more text are the block's ten lines,
/// then the lines of the rest.
#[verifier::rlimit(100)]
pub proof fn lemma_txt_block_split(r: RecordV, n: u64, rest: Seq<char>)
    requires
        spec_txt_lossless(r),
    ensures
        spec_lines(spec_txt_block(r, n) + rest) == spec_txt_block_lines(r, n) + spec_lines(rest),
{
    lemma_block_lines_clean(r, n);
    let bl = spec_txt_block_lines(r, n);
    let a9 = Seq::<char>::empty() + seq!['\n'] + rest;
    let a8 = bl[8] + seq!['\n'] + a9;
    let a7 = bl[7] + seq!['\n'] + a8;
    let a6 = bl[6] + seq!['\n'] + a7;
    let a5 = bl[5] + seq!['\n'] + a6;
    let a4 = bl[4] + seq!['\n'] + a5;
    let a3 = bl[3] + seq!['\n'] + a4;
    let a2 = bl[2] + seq!['\n'] + a3;
    let a1 = bl[1] + seq!['\n'] + a2;
    let a0 = bl[0] + seq!['\n'] + a1;
    assert(spec_txt_block(r, n) + rest =~= a0);
    crate::tokens::lemma_lines_prepend(bl[0], a1);
    crate::tokens::lemma_lines_prepend(bl[1], a2);
    crate::tokens::lemma_lines_prepend(bl[2], a3);
    crate::tokens::lemma_lines_prepend(bl[3], a4);
    crate::tokens::lemma_lines_prepend(bl[4], a5);
    crate::tokens::lemma_lines_prepend(bl[5], a6);
    crate::tokens::lemma_lines_prepend(bl[6], a7);
    crate::tokens::lemma_lines_prepend(bl[7], a8);
    crate::tokens::lemma_lines_prepend(bl[8], a9);
    assert(crate::tokens::spec_nl_free(Seq::<char>::empty()));
    crate::tokens::lemma_lines_prepend(Seq::<char>::empty(), rest);
    assert(spec_lines(spec_txt_block(r, n) + rest) =~= bl + spec_lines(rest));
}


/// Parsing the lines of blocks written for records yields the records.
#[verifier::rlimit(100)]
pub proof fn lemma_txt_parse_blocks(ls: Seq<Seq<char>>, i: int, rs: Seq<RecordV>, idx: int)
    requires
        forall|j: int| 0 <= j < rs.len() ==> spec_txt_lossless(#[trigger] rs[j]),
        0 <= i <= ls.len(),
        ls.len() - i == 10 * rs.len(),
        0 <= idx,
        idx + rs.len() <= u64::MAX,
        forall|j: int|
            0 <= j < rs.len() ==> ls.subrange(i + 10 * j, i + 10 * j + 10)
                == spec_txt_block_lines(#[trigger] rs[j], (idx + j + 1) as u64),
    ensures
        spec_parse_txt_lines(ls, i, Seq::empty()) == Ok::<Seq<RecordV>, ParsingErrorV>(rs),
    decreases rs.len(),
{
    if rs.len() == 0 {
        assert(rs =~= Seq::<RecordV>::empty());
    } else {
        let r = rs[0];
        let n = (idx + 1) as u64;
        let bl = spec_txt_block_lines(r, n);
        assert(ls.subrange(i, i + 10) == bl);
        assert(forall|k: int| 0 <= k < 10 ==> ls[i + k] == bl[k]);
        crate::csv_format::lemma_name_tokens_pub();
        crate::tokens::lemma_token_k_tx_type();
        crate::tokens::lemma_token_k_status();
        crate::tokens::lemma_token_k_to();
        crate::tokens::lemma_token_k_from();
        crate::tokens::lemma_token_k_ts();
        crate::tokens::lemma_token_k_desc();
        crate::tokens::lemma_token_k_tx_id();
        crate::tokens::lemma_token_k_amount();
        crate::tokens::lemma_digits_token(r.to_user_id);
        crate::tokens::lemma_digits_token(r.from_user_id);
        crate::tokens::lemma_digits_token(r.timestamp);
        crate::tokens::lemma_digits_token(r.tx_id);
        crate::tokens::lemma_digits_token(r.amount);
        lemma_heading_line(r, n);
        let c0 = Seq::<(Seq<char>, Seq<char>)>::empty();
        assert(spec_parse_txt_lines(ls, i, c0) == spec_parse_txt_lines(ls, i + 1, c0));
        lemma_kv_line_plain("TX_TYPE"@, spec_type_name(r.tx_type));
        let c1 = c0.push(("TX_TYPE"@, spec_type_name(r.tx_type)));
        assert(spec_parse_txt_lines(ls, i + 1, c0) == spec_parse_txt_lines(ls, i + 2, c1));
        lemma_kv_line_plain("TO_USER_ID"@, spec_u64_str(r.to_user_id));
        let c2 = c1.push(("TO_USER_ID"@, spec_u64_str(r.to_user_id)));
        assert(spec_parse_txt_lines(ls, i + 2, c1) == spec_parse_txt_lines(ls, i + 3, c2));
        lemma_kv_line_plain("FROM_USER_ID"@, spec_u64_str(r.from_user_id));
        let c3 = c2.push(("FROM_USER_ID"@, spec_u64_str(r.from_user_id)));
        assert(spec_parse_txt_lines(ls, i + 3, c2) == spec_parse_txt_lines(ls, i + 4, c3));
        lemma_kv_line_plain("TIMESTAMP"@, spec_u64_str(r.timestamp));
        let c4 = c3.push(("TIMESTAMP"@, spec_u64_str(r.timestamp)));
        assert(spec_parse_txt_lines(ls, i + 4, c3) == spec_parse_txt_lines(ls, i + 5, c4));
        lemma_kv_line_desc(r.description);
        let c5 = c4.push(("DESCRIPTION"@, r.description));
        assert(spec_parse_txt_lines(ls, i + 5, c4) == spec_parse_txt_lines(ls, i + 6, c5));
        lemma_kv_line_plain("TX_ID"@, spec_u64_str(r.tx_id));
        let c6 = c5.push(("TX_ID"@, spec_u64_str(r.tx_id)));
        assert(spec_parse_txt_lines(ls, i + 6, c5) == spec_parse_txt_lines(ls, i + 7, c6));
        lemma_kv_line_plain("AMOUNT"@, spec_u64_str(r.amount));
        let c7 = c6.push(("AMOUNT"@, spec_u64_str(r.amount)));
        assert(spec_parse_txt_lines(ls, i + 7, c6) == spec_parse_txt_lines(ls, i + 8, c7));
        lemma_kv_line_plain("STATUS"@, spec_status_name(r.tx_status));
        let c8 = c7.push(("STATUS"@, spec_status_name(r.tx_status)));
        assert(spec_parse_txt_lines(ls, i + 8, c7) == spec_parse_txt_lines(ls, i + 9, c8));
        assert(ls[i + 9] == Seq::<char>::empty());
        assert(spec_trim(Seq::<char>::empty()).len() == 0);
        assert(spec_parse_txt_lines(ls, i + 9, c8) == spec_parse_txt_lines(ls, i + 10, c8));
        assert(c8 =~= spec_block_pairs(r));
        lemma_parse_block_pairs(r);
        assert(forall|j: int|
            0 <= j < rs.drop_first().len() ==> spec_txt_lossless(#[trigger] rs.drop_first()[j]));
        assert(forall|j: int|
            0 <= j < rs.drop_first().len() ==> ls.subrange(
                (i + 10) + 10 * j,
                (i + 10) + 10 * j + 10,
            ) == spec_txt_block_lines(#[trigger] rs.drop_first()[j], (idx + 1 + j + 1) as u64)) by {
            assert forall|j: int|
                0 <= j < rs.drop_first().len() implies ls.subrange(
                (i + 10) + 10 * j,
                (i + 10) + 10 * j + 10,
            ) == spec_txt_block_lines(#[trigger] rs.drop_first()[j], (idx + 1 + j + 1) as u64) by {
                assert(rs.drop_first()[j] == rs[j + 1]);
                assert(ls.subrange(i + 10 * (j + 1), i + 10 * (j + 1) + 10) == spec_txt_block_lines(
                    rs[j + 1],
                    (idx + j + 2) as u64,
                ));
            }
        }
        lemma_txt_parse_blocks(ls, i + 10, rs.drop_first(), idx + 1);
        if rs.len() == 1 {
            assert(i + 10 == ls.len());
            assert(spec_parse_txt_lines(ls, i + 10, c8) == Ok::<Seq<RecordV>, ParsingErrorV>(
                seq![r],
            ));
            assert(seq![r] =~= rs);
        } else {
            let h2 = spec_txt_block_lines(rs[1], (idx + 2) as u64)[0];
            assert(ls.subrange(i + 10, i + 20) == spec_txt_block_lines(rs[1], (idx + 2) as u64));
            assert(ls[i + 10] == h2);
            lemma_heading_line(rs[1], (idx + 2) as u64);
            assert(spec_parse_txt_lines(ls, i + 10, Seq::empty()) == spec_parse_txt_lines(
                ls,
                i + 11,
                Seq::empty(),
            ));
            assert(spec_parse_txt_lines(ls, i + 11, Seq::<(Seq<char>, Seq<char>)>::empty()) == Ok::<
                Seq<RecordV>,
                ParsingErrorV,
            >(rs.drop_first()));
            assert(spec_parse_txt_lines(ls, i + 10, c8) == Ok::<Seq<RecordV>, ParsingErrorV>(
                seq![r] + rs.drop_first(),
            ));
            assert(seq![r] + rs.drop_first() =~= rs);
        }
    }
}

/// The lines of the whole text are the blocks' lines, in order.
pub proof fn lemma_txt_text_lines(rs: Seq<RecordV>, idx: int)
    requires
        forall|j: int| 0 <= j < rs.len() ==> spec_txt_lossless(#[trigger] rs[j]),
        0 <= idx,
        idx + rs.len() <= u64::MAX,
    ensures
        spec_lines(spec_txt_text_from(rs, idx)).len() == 10 * rs.len(),
        forall|j: int|
            0 <= j < rs.len() ==> spec_lines(spec_txt_text_from(rs, idx)).subrange(
                10 * j,
                10 * j + 10,
            ) == spec_txt_block_lines(#[trigger] rs[j], (idx + j + 1) as u64),
    decreases rs.len(),
{
    if rs.len() == 0 {
    } else {
        let r = rs[0];
        let n = (idx + 1) as u64;
        let rest = spec_txt_text_from(rs.drop_first(), idx + 1);
        lemma_txt_block_split(r, n, rest);
        lemma_txt_text_lines(rs.drop_first(), idx + 1);
        let bl = spec_txt_block_lines(r, n);
        let ls = spec_lines(spec_txt_text_from(rs, idx));
        assert(ls == bl + spec_lines(rest));
        assert(ls.len() == 10 * rs.len());
        assert forall|j: int|
            0 <= j < rs.len() implies ls.subrange(10 * j, 10 * j + 10) == spec_txt_block_lines(
            #[trigger] rs[j],
            (idx + j + 1) as u64,
        ) by {
            if j == 0 {
                assert(ls.subrange(0, 10) =~= bl);
            } else {
                assert(rs[j] == rs.drop_first()[j - 1]);
                assert(spec_lines(rest).subrange(10 * (j - 1), 10 * (j - 1) + 10)
                    == spec_txt_block_lines(rs.drop_first()[j - 1], (idx + 1 + j) as u64));
                assert(ls.subrange(10 * j, 10 * j + 10) =~= spec_lines(rest).subrange(
                    10 * (j - 1),
                    10 * (j - 1) + 10,
                ));
            }
        }
    }
}

/// Round trip: parsing what encoding produced yields the original records,
/// for every record set the text format carries without loss.
pub proof fn lemma_txt_round_trip(rs: Seq<RecordV>)
    requires
        forall|i: int| 0 <= i < rs.len() ==> spec_txt_lossless(#[trigger] rs[i]),
        rs.len() <= u64::MAX,
    ensures
        spec_parse_txt(encode_utf8(spec_txt_text(rs))) == Ok::<Seq<RecordV>, ParsingErrorV>(rs),
{
    let text = spec_txt_text(rs);
    vstd::utf8::encode_utf8_valid_utf8(text);
    vstd::utf8::encode_utf8_decode_utf8(text);
    lemma_txt_text_lines(rs, 0);
    lemma_txt_parse_blocks(spec_lines(text), 0, rs, 0);
}


/// The text format requires the exact uppercase names: the lowercase token
/// for a deposit is rejected, though the sheet format accepts it.
pub proof fn lemma_txt_exact_case()
    ensures
        spec_tx_type_txt("deposit"@) is None,
        crate::csv_format::spec_tx_type_csv("deposit"@) == Some(TxType::DEPOSIT),
{
    reveal_strlit("deposit");
    reveal_strlit("DEPOSIT");
    crate::tokens::lemma_token_deposit();
    crate::tokens::lemma_token_withdrawal();
    crate::tokens::lemma_token_transfer();
    assert("deposit"@.len() == 7);
    assert("deposit"@ != "DEPOSIT"@) by {
        assert("deposit"@[0] == 'd');
        assert("DEPOSIT"@[0] == 'D');
    }
    assert(crate::text::spec_eq_ignore_case("deposit"@, "DEPOSIT"@)) by {
        assert forall|i: int|
            0 <= i < 7 implies crate::text::spec_ascii_lower(#[trigger] "deposit"@[i])
            == crate::text::spec_ascii_lower("DEPOSIT"@[i]) by {
            if i == 0 {
                assert("deposit"@[0] == 'd');
                assert("DEPOSIT"@[0] == 'D');
            } else if i == 1 {
                assert("deposit"@[1] == 'e');
                assert("DEPOSIT"@[1] == 'E');
            } else if i == 2 {
                assert("deposit"@[2] == 'p');
                assert("DEPOSIT"@[2] == 'P');
            } else if i == 3 {
                assert("deposit"@[3] == 'o');
                assert("DEPOSIT"@[3] == 'O');
            } else if i == 4 {
                assert("deposit"@[4] == 's');
                assert("DEPOSIT"@[4] == 'S');
            } else if i == 5 {
                assert("deposit"@[5] == 'i');
                assert("DEPOSIT"@[5] == 'I');
            } else {
                assert("deposit"@[6] == 't');
                assert("DEPOSIT"@[6] == 'T');
            }
        }
    }
}

} // verus!
