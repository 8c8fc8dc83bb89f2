//! Facts about the fixed names the sheet and text formats write, and about
//! splitting and trimming the texts built from them.

use vstd::prelude::*;

use crate::num::{is_digit_char, lemma_u64_str_digits, spec_u64_str};
use crate::text::{
    is_space_char, spec_find, spec_lines, spec_split, spec_strip_cr, spec_trim, spec_trim_end,
    spec_trim_q_end, spec_trim_q_start, spec_trim_quotes, spec_trim_start,
};

verus! {

/// A token character: not whitespace and none of the separators the formats
/// give meaning to.
pub open spec fn spec_token_char(c: char) -> bool {
    &&& !crate::text::is_space_char(c)
    &&& c != ','
    &&& c != '"'
    &&& c != ':'
}

/// A non-empty string of token characters.
pub open spec fn spec_token(s: Seq<char>) -> bool {
    s.len() > 0 && forall|i: int| 0 <= i < s.len() ==> spec_token_char(#[trigger] s[i])
}


/// The name `DEPOSIT` consists of token characters.
pub proof fn lemma_token_deposit()
    ensures
        spec_token("DEPOSIT"@),
        "DEPOSIT"@.len() == 7,
        "DEPOSIT"@[0] == 'D',
{
    reveal_strlit("DEPOSIT");
    assert forall|i: int| 0 <= i < "DEPOSIT"@.len() implies spec_token_char("DEPOSIT"@[i]) by {
        if i == 0 {
            assert("DEPOSIT"@[0] == 'D');
        } else if i == 1 {
            assert("DEPOSIT"@[1] == 'E');
        } else if i == 2 {
            assert("DEPOSIT"@[2] == 'P');
        } else if i == 3 {
            assert("DEPOSIT"@[3] == 'O');
        } else if i == 4 {
            assert("DEPOSIT"@[4] == 'S');
        } else if i == 5 {
            assert("DEPOSIT"@[5] == 'I');
        } else if i == 6 {
            assert("DEPOSIT"@[6] == 'T');
        } else {
        }
    }
}


/// The name `WITHDRAWAL` consists of token characters.
pub proof fn lemma_token_withdrawal()
    ensures
        spec_token("WITHDRAWAL"@),
        "WITHDRAWAL"@.len() == 10,
        "WITHDRAWAL"@[0] == 'W',
{
    reveal_strlit("WITHDRAWAL");
    assert forall|i: int| 0 <= i < "WITHDRAWAL"@.len() implies spec_token_char("WITHDRAWAL"@[i]) by {
        if i == 0 {
            assert("WITHDRAWAL"@[0] == 'W');
        } else if i == 1 {
            assert("WITHDRAWAL"@[1] == 'I');
        } else if i == 2 {
            assert("WITHDRAWAL"@[2] == 'T');
        } else if i == 3 {
            assert("WITHDRAWAL"@[3] == 'H');
        } else if i == 4 {
            assert("WITHDRAWAL"@[4] == 'D');
        } else if i == 5 {
            assert("WITHDRAWAL"@[5] == 'R');
        } else if i == 6 {
            assert("WITHDRAWAL"@[6] == 'A');
        } else if i == 7 {
            assert("WITHDRAWAL"@[7] == 'W');
        } else if i == 8 {
            assert("WITHDRAWAL"@[8] == 'A');
        } else if i == 9 {
            assert("WITHDRAWAL"@[9] == 'L');
        } else {
        }
    }
}


/// The name `TRANSFER` consists of token characters.
pub proof fn lemma_token_transfer()
    ensures
        spec_token("TRANSFER"@),
        "TRANSFER"@.len() == 8,
        "TRANSFER"@[0] == 'T',
{
    reveal_strlit("TRANSFER");
    assert forall|i: int| 0 <= i < "TRANSFER"@.len() implies spec_token_char("TRANSFER"@[i]) by {
        if i == 0 {
            assert("TRANSFER"@[0] == 'T');
        } else if i == 1 {
            assert("TRANSFER"@[1] == 'R');
        } else if i == 2 {
            assert("TRANSFER"@[2] == 'A');
        } else if i == 3 {
            assert("TRANSFER"@[3] == 'N');
        } else if i == 4 {
            assert("TRANSFER"@[4] == 'S');
        } else if i == 5 {
            assert("TRANSFER"@[5] == 'F');
        } else if i == 6 {
            assert("TRANSFER"@[6] == 'E');
        } else if i == 7 {
            assert("TRANSFER"@[7] == 'R');
        } else {
        }
    }
}


/// The name `FAILURE` consists of token characters.
pub proof fn lemma_token_failure()
    ensures
        spec_token("FAILURE"@),
        "FAILURE"@.len() == 7,
        "FAILURE"@[0] == 'F',
{
    reveal_strlit("FAILURE");
    assert forall|i: int| 0 <= i < "FAILURE"@.len() implies spec_token_char("FAILURE"@[i]) by {
        if i == 0 {
            assert("FAILURE"@[0] == 'F');
        } else if i == 1 {
            assert("FAILURE"@[1] == 'A');
        } else if i == 2 {
            assert("FAILURE"@[2] == 'I');
        } else if i == 3 {
            assert("FAILURE"@[3] == 'L');
        } else if i == 4 {
            assert("FAILURE"@[4] == 'U');
        } else if i == 5 {
            assert("FAILURE"@[5] == 'R');
        } else if i == 6 {
            assert("FAILURE"@[6] == 'E');
        } else {
        }
    }
}


/// The name `PENDING` consists of token characters.
pub proof fn lemma_token_pending()
    ensures
        spec_token("PENDING"@),
        "PENDING"@.len() == 7,
        "PENDING"@[0] == 'P',
{
    reveal_strlit("PENDING");
    assert forall|i: int| 0 <= i < "PENDING"@.len() implies spec_token_char("PENDING"@[i]) by {
        if i == 0 {
            assert("PENDING"@[0] == 'P');
        } else if i == 1 {
            assert("PENDING"@[1] == 'E');
        } else if i == 2 {
            assert("PENDING"@[2] == 'N');
        } else if i == 3 {
            assert("PENDING"@[3] == 'D');
        } else if i == 4 {
            assert("PENDING"@[4] == 'I');
        } else if i == 5 {
            assert("PENDING"@[5] == 'N');
        } else if i == 6 {
            assert("PENDING"@[6] == 'G');
        } else {
        }
    }
}


/// The name `SUCCESS` consists of token characters.
pub proof fn lemma_token_success()
    ensures
        spec_token("SUCCESS"@),
        "SUCCESS"@.len() == 7,
        "SUCCESS"@[0] == 'S',
{
    reveal_strlit("SUCCESS");
    assert forall|i: int| 0 <= i < "SUCCESS"@.len() implies spec_token_char("SUCCESS"@[i]) by {
        if i == 0 {
            assert("SUCCESS"@[0] == 'S');
        } else if i == 1 {
            assert("SUCCESS"@[1] == 'U');
        } else if i == 2 {
            assert("SUCCESS"@[2] == 'C');
        } else if i == 3 {
            assert("SUCCESS"@[3] == 'C');
        } else if i == 4 {
            assert("SUCCESS"@[4] == 'E');
        } else if i == 5 {
            assert("SUCCESS"@[5] == 'S');
        } else if i == 6 {
            assert("SUCCESS"@[6] == 'S');
        } else {
        }
    }
}


/// The name `TX_TYPE` consists of token characters.
pub proof fn lemma_token_k_tx_type()
    ensures
        spec_token("TX_TYPE"@),
        "TX_TYPE"@.len() == 7,
        "TX_TYPE"@[0] == 'T',
{
    reveal_strlit("TX_TYPE");
    assert forall|i: int| 0 <= i < "TX_TYPE"@.len() implies spec_token_char("TX_TYPE"@[i]) by {
        if i == 0 {
            assert("TX_TYPE"@[0] == 'T');
        } else if i == 1 {
            assert("TX_TYPE"@[1] == 'X');
        } else if i == 2 {
            assert("TX_TYPE"@[2] == '_');
        } else if i == 3 {
            assert("TX_TYPE"@[3] == 'T');
        } else if i == 4 {
            assert("TX_TYPE"@[4] == 'Y');
        } else if i == 5 {
            assert("TX_TYPE"@[5] == 'P');
        } else if i == 6 {
            assert("TX_TYPE"@[6] == 'E');
        } else {
        }
    }
}


/// The name `STATUS` consists of token characters.
pub proof fn lemma_token_k_status()
    ensures
        spec_token("STATUS"@),
        "STATUS"@.len() == 6,
        "STATUS"@[0] == 'S',
{
    reveal_strlit("STATUS");
    assert forall|i: int| 0 <= i < "STATUS"@.len() implies spec_token_char("STATUS"@[i]) by {
        if i == 0 {
            assert("STATUS"@[0] == 'S');
        } else if i == 1 {
            assert("STATUS"@[1] == 'T');
        } else if i == 2 {
            assert("STATUS"@[2] == 'A');
        } else if i == 3 {
            assert("STATUS"@[3] == 'T');
        } else if i == 4 {
            assert("STATUS"@[4] == 'U');
        } else if i == 5 {
            assert("STATUS"@[5] == 'S');
        } else {
        }
    }
}


/// The name `TO_USER_ID` consists of token characters.
pub proof fn lemma_token_k_to()
    ensures
        spec_token("TO_USER_ID"@),
        "TO_USER_ID"@.len() == 10,
        "TO_USER_ID"@[0] == 'T',
{
    reveal_strlit("TO_USER_ID");
    assert forall|i: int| 0 <= i < "TO_USER_ID"@.len() implies spec_token_char("TO_USER_ID"@[i]) by {
        if i == 0 {
            assert("TO_USER_ID"@[0] == 'T');
        } else if i == 1 {
            assert("TO_USER_ID"@[1] == 'O');
        } else if i == 2 {
            assert("TO_USER_ID"@[2] == '_');
        } else if i == 3 {
            assert("TO_USER_ID"@[3] == 'U');
        } else if i == 4 {
            assert("TO_USER_ID"@[4] == 'S');
        } else if i == 5 {
            assert("TO_USER_ID"@[5] == 'E');
        } else if i == 6 {
            assert("TO_USER_ID"@[6] == 'R');
        } else if i == 7 {
            assert("TO_USER_ID"@[7] == '_');
        } else if i == 8 {
            assert("TO_USER_ID"@[8] == 'I');
        } else if i == 9 {
            assert("TO_USER_ID"@[9] == 'D');
        } else {
        }
    }
}


/// The name `FROM_USER_ID` consists of token characters.
pub proof fn lemma_token_k_from()
    ensures
        spec_token("FROM_USER_ID"@),
        "FROM_USER_ID"@.len() == 12,
        "FROM_USER_ID"@[0] == 'F',
{
    reveal_strlit("FROM_USER_ID");
    assert forall|i: int| 0 <= i < "FROM_USER_ID"@.len() implies spec_token_char("FROM_USER_ID"@[i]) by {
        if i == 0 {
            assert("FROM_USER_ID"@[0] == 'F');
        } else if i == 1 {
            assert("FROM_USER_ID"@[1] == 'R');
        } else if i == 2 {
            assert("FROM_USER_ID"@[2] == 'O');
        } else if i == 3 {
            assert("FROM_USER_ID"@[3] == 'M');
        } else if i == 4 {
            assert("FROM_USER_ID"@[4] == '_');
        } else if i == 5 {
            assert("FROM_USER_ID"@[5] == 'U');
        } else if i == 6 {
            assert("FROM_USER_ID"@[6] == 'S');
        } else if i == 7 {
            assert("FROM_USER_ID"@[7] == 'E');
        } else if i == 8 {
            assert("FROM_USER_ID"@[8] == 'R');
        } else if i == 9 {
            assert("FROM_USER_ID"@[9] == '_');
        } else if i == 10 {
            assert("FROM_USER_ID"@[10] == 'I');
        } else if i == 11 {
            assert("FROM_USER_ID"@[11] == 'D');
        } else {
        }
    }
}


/// The name `TIMESTAMP` consists of token characters.
pub proof fn lemma_token_k_ts()
    ensures
        spec_token("TIMESTAMP"@),
        "TIMESTAMP"@.len() == 9,
        "TIMESTAMP"@[0] == 'T',
{
    reveal_strlit("TIMESTAMP");
    assert forall|i: int| 0 <= i < "TIMESTAMP"@.len() implies spec_token_char("TIMESTAMP"@[i]) by {
        if i == 0 {
            assert("TIMESTAMP"@[0] == 'T');
        } else if i == 1 {
            assert("TIMESTAMP"@[1] == 'I');
        } else if i == 2 {
            assert("TIMESTAMP"@[2] == 'M');
        } else if i == 3 {
            assert("TIMESTAMP"@[3] == 'E');
        } else if i == 4 {
            assert("TIMESTAMP"@[4] == 'S');
        } else if i == 5 {
            assert("TIMESTAMP"@[5] == 'T');
        } else if i == 6 {
            assert("TIMESTAMP"@[6] == 'A');
        } else if i == 7 {
            assert("TIMESTAMP"@[7] == 'M');
        } else if i == 8 {
            assert("TIMESTAMP"@[8] == 'P');
        } else {
        }
    }
}


/// The name `DESCRIPTION` consists of token characters.
pub proof fn lemma_token_k_desc()
    ensures
        spec_token("DESCRIPTION"@),
        "DESCRIPTION"@.len() == 11,
        "DESCRIPTION"@[0] == 'D',
{
    reveal_strlit("DESCRIPTION");
    assert forall|i: int| 0 <= i < "DESCRIPTION"@.len() implies spec_token_char("DESCRIPTION"@[i]) by {
        if i == 0 {
            assert("DESCRIPTION"@[0] == 'D');
        } else if i == 1 {
            assert("DESCRIPTION"@[1] == 'E');
        } else if i == 2 {
            assert("DESCRIPTION"@[2] == 'S');
        } else if i == 3 {
            assert("DESCRIPTION"@[3] == 'C');
        } else if i == 4 {
            assert("DESCRIPTION"@[4] == 'R');
        } else if i == 5 {
            assert("DESCRIPTION"@[5] == 'I');
        } else if i == 6 {
            assert("DESCRIPTION"@[6] == 'P');
        } else if i == 7 {
            assert("DESCRIPTION"@[7] == 'T');
        } else if i == 8 {
            assert("DESCRIPTION"@[8] == 'I');
        } else if i == 9 {
            assert("DESCRIPTION"@[9] == 'O');
        } else if i == 10 {
            assert("DESCRIPTION"@[10] == 'N');
        } else {
        }
    }
}


/// The name `TX_ID` consists of token characters.
pub proof fn lemma_token_k_tx_id()
    ensures
        spec_token("TX_ID"@),
        "TX_ID"@.len() == 5,
        "TX_ID"@[0] == 'T',
{
    reveal_strlit("TX_ID");
    assert forall|i: int| 0 <= i < "TX_ID"@.len() implies spec_token_char("TX_ID"@[i]) by {
        if i == 0 {
            assert("TX_ID"@[0] == 'T');
        } else if i == 1 {
            assert("TX_ID"@[1] == 'X');
        } else if i == 2 {
            assert("TX_ID"@[2] == '_');
        } else if i == 3 {
            assert("TX_ID"@[3] == 'I');
        } else if i == 4 {
            assert("TX_ID"@[4] == 'D');
        } else {
        }
    }
}


/// The name `AMOUNT` consists of token characters.
pub proof fn lemma_token_k_amount()
    ensures
        spec_token("AMOUNT"@),
        "AMOUNT"@.len() == 6,
        "AMOUNT"@[0] == 'A',
{
    reveal_strlit("AMOUNT");
    assert forall|i: int| 0 <= i < "AMOUNT"@.len() implies spec_token_char("AMOUNT"@[i]) by {
        if i == 0 {
            assert("AMOUNT"@[0] == 'A');
        } else if i == 1 {
            assert("AMOUNT"@[1] == 'M');
        } else if i == 2 {
            assert("AMOUNT"@[2] == 'O');
        } else if i == 3 {
            assert("AMOUNT"@[3] == 'U');
        } else if i == 4 {
            assert("AMOUNT"@[4] == 'N');
        } else if i == 5 {
            assert("AMOUNT"@[5] == 'T');
        } else {
        }
    }
}

/// A string free of line breaks.
pub open spec fn spec_nl_free(s: Seq<char>) -> bool {
    forall|i: int| 0 <= i < s.len() ==> #[trigger] s[i] != '\n' && s[i] != '\r'
}


/// The decimal rendering of a number consists of token characters.
pub proof fn lemma_digits_token(n: u64)
    ensures
        spec_token(spec_u64_str(n)),
{
    lemma_u64_str_digits(n);
    assert forall|i: int| 0 <= i < spec_u64_str(n).len() implies spec_token_char(
        #[trigger] spec_u64_str(n)[i],
    ) by {
        assert(is_digit_char(spec_u64_str(n)[i]));
    }
}

/// Trimming does nothing to a string whose edges are not whitespace.
pub proof fn lemma_trim_id(s: Seq<char>)
    requires
        s.len() > 0,
        !is_space_char(s[0]),
        !is_space_char(s.last()),
    ensures
        spec_trim(s) == s,
{
    assert(spec_trim_start(s) == s);
    assert(spec_trim_end(s) == s);
}

/// Removing edge quotes does nothing to a string whose edges are not quotes.
pub proof fn lemma_trimq_id(s: Seq<char>)
    requires
        s.len() > 0,
        s[0] != '"',
        s.last() != '"',
    ensures
        spec_trim_quotes(s) == s,
{
    assert(spec_trim_q_start(s) == s);
    assert(spec_trim_q_end(s) == s);
}

/// Removing edge quotes from a quote-wrapped, quote-free string yields the
/// string.
pub proof fn lemma_trimq_wrap(d: Seq<char>)
    requires
        forall|i: int| 0 <= i < d.len() ==> #[trigger] d[i] != '"',
    ensures
        spec_trim_quotes(seq!['"'] + d + seq!['"']) == d,
{
    let s = seq!['"'] + d + seq!['"'];
    assert(s[0] == '"');
    assert(s.len() > 0);
    assert(spec_trim_q_start(s) == spec_trim_q_start(s.drop_first()));
    assert(s.drop_first() =~= d + seq!['"']);
    if d.len() == 0 {
        assert(s.drop_first() =~= seq!['"']);
        assert(seq!['"'][0] == '"');
        assert(seq!['"'].drop_first() =~= Seq::<char>::empty());
        assert(spec_trim_q_start(seq!['"']) == spec_trim_q_start(Seq::<char>::empty()));
        assert(spec_trim_q_start(Seq::<char>::empty()) =~= Seq::<char>::empty());
        assert(spec_trim_q_start(s) =~= Seq::<char>::empty());
        assert(spec_trim_q_end(Seq::<char>::empty()) =~= Seq::<char>::empty());
        assert(spec_trim_quotes(s) =~= d);
    } else {
        assert((d + seq!['"'])[0] == d[0]);
        assert(d[0] != '"');
        assert(spec_trim_q_start(d + seq!['"']) == d + seq!['"']);
        assert(spec_trim_q_start(s) == d + seq!['"']);
        assert((d + seq!['"']).last() == '"');
        assert((d + seq!['"']).drop_last() =~= d);
        assert(spec_trim_q_end(d + seq!['"']) == spec_trim_q_end(d));
        assert(d.last() != '"');
        assert(spec_trim_q_end(d) == d);
        assert(spec_trim_quotes(s) == d);
    }
}

/// Trimming skips one leading space.
pub proof fn lemma_trim_space_prefix(v: Seq<char>)
    ensures
        spec_trim(seq![' '] + v) == spec_trim(v),
{
    let s = seq![' '] + v;
    assert(is_space_char(' '));
    assert(s[0] == ' ');
    assert(s.drop_first() =~= v);
}

/// A comma-free string splits into itself alone.
pub proof fn lemma_split_one(s: Seq<char>)
    requires
        forall|i: int| 0 <= i < s.len() ==> #[trigger] s[i] != ',',
    ensures
        spec_split(s, ',') == seq![s],
{
    crate::text::lemma_find_none(s, ',');
}

/// Splitting takes a comma-free head off at its comma.
pub proof fn lemma_split_prepend(a: Seq<char>, rest: Seq<char>)
    requires
        forall|i: int| 0 <= i < a.len() ==> #[trigger] a[i] != ',',
    ensures
        spec_split(a + seq![','] + rest, ',') == seq![a] + spec_split(rest, ','),
{
    let s = a + seq![','] + rest;
    assert(s[a.len() as int] == ',');
    assert(forall|j: int| 0 <= j < a.len() ==> s[j] == a[j]);
    crate::text::lemma_find_at(s, ',', a.len() as int);
    assert(s.take(a.len() as int) =~= a);
    assert(s.skip(a.len() as int + 1) =~= rest);
}

/// Line splitting takes a break-free head off at its line feed.
pub proof fn lemma_lines_prepend(l: Seq<char>, rest: Seq<char>)
    requires
        spec_nl_free(l),
    ensures
        spec_lines(l + seq!['\n'] + rest) == seq![l] + spec_lines(rest),
{
    let s = l + seq!['\n'] + rest;
    assert(s.len() > 0);
    assert(s[l.len() as int] == '\n');
    assert(forall|j: int| 0 <= j < l.len() ==> s[j] == l[j]);
    crate::text::lemma_find_at(s, '\n', l.len() as int);
    assert(s.take(l.len() as int) =~= l);
    if l.len() > 0 {
        assert(l.last() != '\r');
    }
    assert(spec_strip_cr(l) == l);
    assert(s.skip(l.len() as int + 1) =~= rest);
}


/// Facts about the `# Record` block heading prefix.
pub proof fn lemma_token_heading()
    ensures
        "# Record"@.len() == 8,
        "# Record"@[0] == '#',
        spec_nl_free("# Record"@),
        forall|i: int| 0 <= i < 8 ==> !is_space_char(#[trigger] "# Record"@[i]) || "# Record"@[i] == ' ',
{
    reveal_strlit("# Record");
    assert forall|i: int| 0 <= i < "# Record"@.len() implies #[trigger] "# Record"@[i] != '\n'
        && "# Record"@[i] != '\r' && (!is_space_char("# Record"@[i]) || "# Record"@[i] == ' ') by {
        if i == 0 {
            assert("# Record"@[0] == '#');
        } else if i == 1 {
            assert("# Record"@[1] == ' ');
        } else if i == 2 {
            assert("# Record"@[2] == 'R');
        } else if i == 3 {
            assert("# Record"@[3] == 'e');
        } else if i == 4 {
            assert("# Record"@[4] == 'c');
        } else if i == 5 {
            assert("# Record"@[5] == 'o');
        } else if i == 6 {
            assert("# Record"@[6] == 'r');
        } else if i == 7 {
            assert("# Record"@[7] == 'd');
        } else {
        }
    }
}

} // verus!
