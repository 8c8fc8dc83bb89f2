//! Character-level helpers shared by the sheet and text converters:
//! whitespace trimming, line and field splitting, and conversions between
//! `String` values and character vectors.

use vstd::prelude::*;

verus! {

/// True of the characters the Unicode `White_Space` property covers; these
/// are exactly the characters that trimming removes.
pub open spec fn is_space_char(c: char) -> bool {
    let x = c as u32;
    (0x09 <= x <= 0x0d) || x == 0x20 || x == 0x85 || x == 0xa0 || x == 0x1680 || (0x2000 <= x
        <= 0x200a) || x == 0x2028 || x == 0x2029 || x == 0x202f || x == 0x205f || x == 0x3000
}

/// Whether `c` has the Unicode `White_Space` property.
pub fn is_space(c: char) -> (r: bool)
    ensures
        r == is_space_char(c),
{
    let x = c as u32;
    (0x09 <= x && x <= 0x0d) || x == 0x20 || x == 0x85 || x == 0xa0 || x == 0x1680 || (0x2000 <= x
        && x <= 0x200a) || x == 0x2028 || x == 0x2029 || x == 0x202f || x == 0x205f || x == 0x3000
}

/// `s` with its leading whitespace removed.
pub open spec fn spec_trim_start(s: Seq<char>) -> Seq<char>
    decreases s.len(),
{
    if s.len() > 0 && is_space_char(s[0]) {
        spec_trim_start(s.drop_first())
    } else {
        s
    }
}

/// `s` with its trailing whitespace removed.
pub open spec fn spec_trim_end(s: Seq<char>) -> Seq<char>
    decreases s.len(),
{
    if s.len() > 0 && is_space_char(s.last()) {
        spec_trim_end(s.drop_last())
    } else {
        s
    }
}

/// `s` with leading and trailing whitespace removed, as `str::trim` does.
pub open spec fn spec_trim(s: Seq<char>) -> Seq<char> {
    spec_trim_end(spec_trim_start(s))
}

/// Index of the first occurrence of `sep` in `s`, or `-1` when absent.
pub open spec fn spec_find(s: Seq<char>, sep: char) -> int
    decreases s.len(),
{
    if s.len() == 0 {
        -1
    } else if s[0] == sep {
        0
    } else {
        let r = spec_find(s.drop_first(), sep);
        if r < 0 {
            -1
        } else {
            r + 1
        }
    }
}

/// What `spec_find` returns: the first index holding `sep`, or `-1` when no
/// index does.
pub proof fn lemma_find_props(s: Seq<char>, sep: char)
    ensures
        spec_find(s, sep) >= 0 ==> {
            &&& spec_find(s, sep) < s.len()
            &&& s[spec_find(s, sep)] == sep
            &&& forall|j: int| 0 <= j < spec_find(s, sep) ==> s[j] != sep
        },
        spec_find(s, sep) < 0 ==> forall|j: int| 0 <= j < s.len() ==> s[j] != sep,
    decreases s.len(),
{
    if s.len() == 0 {
    } else if s[0] == sep {
    } else {
        lemma_find_props(s.drop_first(), sep);
        let t = s.drop_first();
        assert(forall|j: int| 0 <= j < t.len() ==> t[j] == s[j + 1]);
        if spec_find(t, sep) >= 0 {
            assert forall|j: int| 0 <= j < spec_find(s, sep) implies s[j] != sep by {
                if j > 0 {
                    assert(t[j - 1] != sep);
                }
            }
        } else {
            assert forall|j: int| 0 <= j < s.len() implies s[j] != sep by {
                if j > 0 {
                    assert(t[j - 1] != sep);
                }
            }
        }
    }
}

/// `spec_find` agrees with an index known to hold the first occurrence.
pub proof fn lemma_find_at(s: Seq<char>, sep: char, k: int)
    requires
        0 <= k < s.len(),
        s[k] == sep,
        forall|j: int| 0 <= j < k ==> s[j] != sep,
    ensures
        spec_find(s, sep) == k,
    decreases s.len(),
{
    if k == 0 {
    } else {
        lemma_find_at(s.drop_first(), sep, k - 1);
    }
}

/// `spec_find` reports absence when no index holds `sep`.
pub proof fn lemma_find_none(s: Seq<char>, sep: char)
    requires
        forall|j: int| 0 <= j < s.len() ==> s[j] != sep,
    ensures
        spec_find(s, sep) < 0,
    decreases s.len(),
{
    if s.len() == 0 {
    } else {
        lemma_find_none(s.drop_first(), sep);
    }
}

/// The pieces of `s` between occurrences of `sep`, in order; always at least
/// one piece, as `str::split` yields.
pub open spec fn spec_split(s: Seq<char>, sep: char) -> Seq<Seq<char>>
    decreases s.len(),
    via spec_split_decreases
{
    let i = spec_find(s, sep);
    if i < 0 {
        seq![s]
    } else {
        seq![s.take(i)] + spec_split(s.skip(i + 1), sep)
    }
}

#[via_fn]
proof fn spec_split_decreases(s: Seq<char>, sep: char) {
    lemma_find_props(s, sep);
}

/// A line piece with a single trailing carriage return removed, as `str::lines`
/// strips one before each line feed.
pub open spec fn spec_strip_cr(l: Seq<char>) -> Seq<char> {
    if l.len() > 0 && l.last() == '\r' {
        l.drop_last()
    } else {
        l
    }
}

/// The lines of `s`, split at line feeds, each stripped of one carriage
/// return before the line feed; a final piece after the last line feed is a
/// line only when non-empty, as with `str::lines`.
pub open spec fn spec_lines(s: Seq<char>) -> Seq<Seq<char>>
    decreases s.len(),
    via spec_lines_decreases
{
    if s.len() == 0 {
        Seq::empty()
    } else {
        let i = spec_find(s, '\n');
        if i < 0 {
            seq![s]
        } else {
            seq![spec_strip_cr(s.take(i))] + spec_lines(s.skip(i + 1))
        }
    }
}

#[via_fn]
proof fn spec_lines_decreases(s: Seq<char>) {
    lemma_find_props(s, '\n');
}

/// `s` with all leading double quotes removed.
pub open spec fn spec_trim_q_start(s: Seq<char>) -> Seq<char>
    decreases s.len(),
{
    if s.len() > 0 && s[0] == '"' {
        spec_trim_q_start(s.drop_first())
    } else {
        s
    }
}

/// `s` with all trailing double quotes removed.
pub open spec fn spec_trim_q_end(s: Seq<char>) -> Seq<char>
    decreases s.len(),
{
    if s.len() > 0 && s.last() == '"' {
        spec_trim_q_end(s.drop_last())
    } else {
        s
    }
}

/// `s` with all leading and trailing double quotes removed, as
/// `str::trim_matches('"')` does.
pub open spec fn spec_trim_quotes(s: Seq<char>) -> Seq<char> {
    spec_trim_q_end(spec_trim_q_start(s))
}

/// `s` with one enclosing pair of double quotes removed, when both are present.
pub open spec fn spec_strip_quote_pair(s: Seq<char>) -> Seq<char> {
    if s.len() >= 2 && s[0] == '"' && s.last() == '"' {
        s.subrange(1, s.len() - 1)
    } else {
        s
    }
}

/// Copies the characters of `v` between `from` and `to` into a fresh vector.
pub fn copy_range(v: &Vec<char>, from: usize, to: usize) -> (out: Vec<char>)
    requires
        from <= to <= v@.len(),
    ensures
        out@ == v@.subrange(from as int, to as int),
{
    let mut out: Vec<char> = Vec::new();
    let mut i: usize = from;
    while i < to
        invariant
            from <= i <= to <= v@.len(),
            out@ == v@.subrange(from as int, i as int),
        decreases to - i,
    {
        out.push(v[i]);
        proof {
            assert(out@ =~= v@.subrange(from as int, i + 1 as int));
        }
        i = i + 1;
    }
    out
}

/// `v` with leading and trailing whitespace removed, as `str::trim` does.
pub fn trim_in(v: &Vec<char>) -> (out: Vec<char>)
    ensures
        out@ == spec_trim(v@),
{
    let mut i: usize = 0;
    proof {
        assert(v@.skip(0) =~= v@);
    }
    while i < v.len() && is_space(v[i])
        invariant
            i <= v@.len(),
            spec_trim_start(v@) == spec_trim_start(v@.skip(i as int)),
        decreases v@.len() - i,
    {
        proof {
            let t = v@.skip(i as int);
            assert(t[0] == v@[i as int]);
            assert(t.drop_first() =~= v@.skip(i + 1 as int));
        }
        i = i + 1;
    }
    proof {
        if i < v@.len() {
            assert(v@.skip(i as int)[0] == v@[i as int]);
        }
        assert(spec_trim_start(v@) == v@.skip(i as int));
    }
    let mut j: usize = v.len();
    proof {
        assert(v@.skip(i as int) =~= v@.subrange(i as int, v@.len() as int));
    }
    while j > i && is_space(v[j - 1])
        invariant
            i <= j <= v@.len(),
            spec_trim_start(v@) == v@.skip(i as int),
            spec_trim_end(v@.skip(i as int)) == spec_trim_end(v@.subrange(i as int, j as int)),
        decreases j,
    {
        proof {
            let t = v@.subrange(i as int, j as int);
            assert(t.last() == v@[j - 1]);
            assert(t.drop_last() =~= v@.subrange(i as int, j - 1));
        }
        j = j - 1;
    }
    proof {
        let t = v@.subrange(i as int, j as int);
        if j > i {
            assert(t.last() == v@[j - 1]);
        }
        assert(spec_trim_end(t) == t);
        assert(v@.skip(i as int) =~= v@.subrange(i as int, v@.len() as int));
    }
    copy_range(v, i, j)
}

/// `v` with all leading and trailing double quotes removed, as
/// `str::trim_matches('"')` does.
pub fn trim_quotes_in(v: &Vec<char>) -> (out: Vec<char>)
    ensures
        out@ == spec_trim_quotes(v@),
{
    let mut i: usize = 0;
    proof {
        assert(v@.skip(0) =~= v@);
    }
    while i < v.len() && v[i] == '"'
        invariant
            i <= v@.len(),
            spec_trim_q_start(v@) == spec_trim_q_start(v@.skip(i as int)),
        decreases v@.len() - i,
    {
        proof {
            let t = v@.skip(i as int);
            assert(t[0] == v@[i as int]);
            assert(t.drop_first() =~= v@.skip(i + 1 as int));
        }
        i = i + 1;
    }
    proof {
        if i < v@.len() {
            assert(v@.skip(i as int)[0] == v@[i as int]);
        }
        assert(spec_trim_q_start(v@) == v@.skip(i as int));
    }
    let mut j: usize = v.len();
    proof {
        assert(v@.skip(i as int) =~= v@.subrange(i as int, v@.len() as int));
    }
    while j > i && v[j - 1] == '"'
        invariant
            i <= j <= v@.len(),
            spec_trim_q_start(v@) == v@.skip(i as int),
            spec_trim_q_end(v@.skip(i as int)) == spec_trim_q_end(v@.subrange(i as int, j as int)),
        decreases j,
    {
        proof {
            let t = v@.subrange(i as int, j as int);
            assert(t.last() == v@[j - 1]);
            assert(t.drop_last() =~= v@.subrange(i as int, j - 1));
        }
        j = j - 1;
    }
    proof {
        let t = v@.subrange(i as int, j as int);
        if j > i {
            assert(t.last() == v@[j - 1]);
        }
        assert(spec_trim_q_end(t) == t);
        assert(v@.skip(i as int) =~= v@.subrange(i as int, v@.len() as int));
    }
    copy_range(v, i, j)
}

/// `v` with one enclosing pair of double quotes removed, when both are present.
pub fn strip_quote_pair(v: &Vec<char>) -> (out: Vec<char>)
    ensures
        out@ == spec_strip_quote_pair(v@),
{
    if v.len() >= 2 && v[0] == '"' && v[v.len() - 1] == '"' {
        copy_range(v, 1, v.len() - 1)
    } else {
        copy_range(v, 0, v.len())
    }
}

/// Splits `v` at every occurrence of `sep`, as `str::split` does.
pub fn split_char(v: &Vec<char>, sep: char) -> (out: Vec<Vec<char>>)
    ensures
        out.deep_view() == spec_split(v@, sep),
{
    let mut out: Vec<Vec<char>> = Vec::new();
    let mut cur: Vec<char> = Vec::new();
    let mut start: usize = 0;
    let mut i: usize = 0;
    proof {
        assert(v@.skip(0) =~= v@);
        assert(cur@ =~= v@.subrange(0, 0));
        assert(out.deep_view() =~~= Seq::<Seq<char>>::empty());
        assert(out.deep_view() + spec_split(v@, sep) =~= spec_split(v@, sep));
    }
    while i < v.len()
        invariant
            start <= i <= v@.len(),
            cur@ == v@.subrange(start as int, i as int),
            forall|j: int| start <= j < i ==> v@[j] != sep,
            out.deep_view() + spec_split(v@.skip(start as int), sep) == spec_split(v@, sep),
        decreases v@.len() - i,
    {
        let c = v[i];
        if c == sep {
            proof {
                let rest = v@.skip(start as int);
                assert(forall|j: int| 0 <= j < rest.len() ==> rest[j] == v@[j + start]);
                lemma_find_at(rest, sep, i - start as int);
                assert(rest.take(i - start as int) =~= v@.subrange(start as int, i as int));
                assert(rest.skip(i - start + 1) =~= v@.skip(i + 1 as int));
            }
            let ghost old_out = out.deep_view();
            let ghost cur_v = cur@;
            out.push(cur);
            proof {
                assert(out.deep_view() =~~= old_out.push(cur_v));
                assert(out.deep_view() + spec_split(v@.skip(i + 1 as int), sep) =~= old_out + (seq![
                    cur_v,
                ] + spec_split(v@.skip(i + 1 as int), sep)));
            }
            cur = Vec::new();
            start = i + 1;
            proof {
                assert(cur@ =~= v@.subrange(start as int, start as int));
            }
        } else {
            cur.push(c);
            proof {
                assert(cur@ =~= v@.subrange(start as int, i + 1 as int));
            }
        }
        i = i + 1;
    }
    proof {
        let rest = v@.skip(start as int);
        assert(forall|j: int| 0 <= j < rest.len() ==> rest[j] == v@[j + start]);
        lemma_find_none(rest, sep);
        assert(cur@ =~= rest);
    }
    let ghost old_out = out.deep_view();
    let ghost cur_v = cur@;
    out.push(cur);
    proof {
        assert(out.deep_view() =~~= old_out.push(cur_v));
        assert(out.deep_view() =~= old_out + seq![cur_v]);
    }
    out
}

/// Splits `v` into lines, as `str::lines` does.
pub fn lines_of(v: &Vec<char>) -> (out: Vec<Vec<char>>)
    ensures
        out.deep_view() == spec_lines(v@),
{
    let mut out: Vec<Vec<char>> = Vec::new();
    let mut cur: Vec<char> = Vec::new();
    let mut start: usize = 0;
    let mut i: usize = 0;
    proof {
        assert(v@.skip(0) =~= v@);
        assert(cur@ =~= v@.subrange(0, 0));
        assert(out.deep_view() =~~= Seq::<Seq<char>>::empty());
        assert(out.deep_view() + spec_lines(v@) =~= spec_lines(v@));
    }
    while i < v.len()
        invariant
            start <= i <= v@.len(),
            cur@ == v@.subrange(start as int, i as int),
            forall|j: int| start <= j < i ==> v@[j] != '\n',
            out.deep_view() + spec_lines(v@.skip(start as int)) == spec_lines(v@),
        decreases v@.len() - i,
    {
        let c = v[i];
        if c == '\n' {
            proof {
                let rest = v@.skip(start as int);
                assert(rest.len() > 0);
                assert(forall|j: int| 0 <= j < rest.len() ==> rest[j] == v@[j + start]);
                lemma_find_at(rest, '\n', i - start as int);
                assert(rest.take(i - start as int) =~= v@.subrange(start as int, i as int));
                assert(rest.skip(i - start + 1) =~= v@.skip(i + 1 as int));
            }
            let line = if cur.len() > 0 && cur[cur.len() - 1] == '\r' {
                let r = copy_range(&cur, 0, cur.len() - 1);
                proof {
                    assert(cur@.drop_last() =~= cur@.subrange(0, cur@.len() - 1));
                }
                r
            } else {
                cur
            };
            proof {
                assert(line@ == spec_strip_cr(v@.subrange(start as int, i as int)));
            }
            let ghost old_out = out.deep_view();
            let ghost line_v = line@;
            out.push(line);
            proof {
                assert(out.deep_view() =~~= old_out.push(line_v));
                assert(out.deep_view() + spec_lines(v@.skip(i + 1 as int)) =~= old_out + (seq![
                    line_v,
                ] + spec_lines(v@.skip(i + 1 as int))));
            }
            cur = Vec::new();
            start = i + 1;
            proof {
                assert(cur@ =~= v@.subrange(start as int, start as int));
            }
        } else {
            cur.push(c);
            proof {
                assert(cur@ =~= v@.subrange(start as int, i + 1 as int));
            }
        }
        i = i + 1;
    }
    proof {
        let rest = v@.skip(start as int);
        assert(forall|j: int| 0 <= j < rest.len() ==> rest[j] == v@[j + start]);
        lemma_find_none(rest, '\n');
        assert(cur@ =~= rest);
    }
    if cur.len() > 0 {
        let ghost old_out = out.deep_view();
        let ghost cur_v = cur@;
        out.push(cur);
        proof {
            assert(out.deep_view() =~~= old_out.push(cur_v));
            assert(out.deep_view() =~= old_out + seq![cur_v]);
        }
    }
    out
}

/// The characters of `s`, collected into a vector.
pub fn string_to_chars(s: &str) -> (out: Vec<char>)
    ensures
        out@ == s@,
{
    let n = s.unicode_len();
    let mut out: Vec<char> = Vec::new();
    let mut i: usize = 0;
    while i < n
        invariant
            i <= n,
            n == s@.len(),
            out@ == s@.take(i as int),
        decreases n - i,
    {
        out.push(s.get_char(i));
        proof {
            assert(out@ =~= s@.take(i + 1 as int));
        }
        i = i + 1;
    }
    proof {
        assert(s@.take(n as int) =~= s@);
    }
    out
}

/// Relies on `String: FromIterator<char>`: collecting characters yields the
/// string made of exactly those characters, in order.
#[verifier::external_body]
pub fn chars_to_string(v: &Vec<char>) -> (out: String)
    ensures
        out@ == v@,
{
    v.iter().collect()
}

/// Relies on `String::from_utf8`: it succeeds exactly on valid UTF-8 input,
/// and then returns the string whose characters the bytes encode.
#[verifier::external_body]
pub fn utf8_to_string(v: &Vec<u8>) -> (out: Option<String>)
    ensures
        match out {
            Some(s) => vstd::utf8::valid_utf8(v@) && s@ == vstd::utf8::decode_utf8(v@),
            None => !vstd::utf8::valid_utf8(v@),
        },
{
    String::from_utf8(v.clone()).ok()
}

/// The UTF-8 bytes of `s`.
pub fn string_utf8_bytes(s: &String) -> (out: Vec<u8>)
    ensures
        out@ == vstd::utf8::encode_utf8(s@),
{
    vstd::string::StrSliceExecFns::as_bytes_vec(s.as_str())
}


/// `c` with an ASCII uppercase letter folded to lowercase.
pub open spec fn spec_ascii_lower(c: char) -> int {
    let x = c as u32;
    if 0x41 <= x <= 0x5a {
        x + 0x20
    } else {
        x as int
    }
}

/// Whether `a` and `b` agree up to ASCII case, as
/// `str::eq_ignore_ascii_case` compares.
pub open spec fn spec_eq_ignore_case(a: Seq<char>, b: Seq<char>) -> bool {
    a.len() == b.len() && forall|i: int|
        0 <= i < a.len() ==> spec_ascii_lower(#[trigger] a[i]) == spec_ascii_lower(b[i])
}

/// Appends all characters of `src` to `out`.
pub fn push_chars(out: &mut Vec<char>, src: &Vec<char>)
    ensures
        final(out)@ == old(out)@ + src@,
{
    let mut i: usize = 0;
    proof {
        assert(out@ =~= old(out)@ + src@.take(0));
    }
    while i < src.len()
        invariant
            i <= src@.len(),
            out@ == old(out)@ + src@.take(i as int),
        decreases src@.len() - i,
    {
        out.push(src[i]);
        proof {
            assert(out@ =~= old(out)@ + src@.take(i + 1 as int));
        }
        i = i + 1;
    }
    proof {
        assert(src@.take(src@.len() as int) =~= src@);
    }
}

/// Whether `v` holds exactly the characters of `s`.
pub fn eq_chars_str(v: &Vec<char>, s: &str) -> (r: bool)
    ensures
        r == (v@ == s@),
{
    let n = s.unicode_len();
    if v.len() != n {
        proof {
            assert(v@ != s@);
        }
        return false;
    }
    let mut i: usize = 0;
    while i < n
        invariant
            i <= n,
            n == s@.len(),
            n == v@.len(),
            forall|j: int| 0 <= j < i ==> v@[j] == s@[j],
        decreases n - i,
    {
        if v[i] != s.get_char(i) {
            proof {
                assert(v@[i as int] != s@[i as int]);
            }
            return false;
        }
        i = i + 1;
    }
    proof {
        assert(v@ =~= s@);
    }
    true
}

/// Folds an ASCII uppercase letter, given as its scalar value, to lowercase.
fn lower_u32(x: u32) -> (r: u32)
    ensures
        r == (if 0x41 <= x && x <= 0x5a {
            x + 0x20
        } else {
            x as int
        }),
{
    if 0x41 <= x && x <= 0x5a {
        x + 0x20
    } else {
        x
    }
}

/// Whether `v` and `s` agree up to ASCII case.
pub fn eq_ignore_case_str(v: &Vec<char>, s: &str) -> (r: bool)
    ensures
        r == spec_eq_ignore_case(v@, s@),
{
    let n = s.unicode_len();
    if v.len() != n {
        return false;
    }
    let mut i: usize = 0;
    while i < n
        invariant
            i <= n,
            n == s@.len(),
            n == v@.len(),
            forall|j: int| 0 <= j < i ==> spec_ascii_lower(v@[j]) == spec_ascii_lower(s@[j]),
        decreases n - i,
    {
        let a = v[i] as u32;
        let b = s.get_char(i) as u32;
        if lower_u32(a) != lower_u32(b) {
            proof {
                assert(spec_ascii_lower(v@[i as int]) != spec_ascii_lower(s@[i as int]));
            }
            return false;
        }
        i = i + 1;
    }
    true
}

/// Whether `v` starts with the characters of `p`.
pub fn starts_with_str(v: &Vec<char>, p: &str) -> (r: bool)
    ensures
        r == (v@.len() >= p@.len() && v@.take(p@.len() as int) == p@),
{
    let n = p.unicode_len();
    if v.len() < n {
        return false;
    }
    let mut i: usize = 0;
    while i < n
        invariant
            i <= n,
            n == p@.len(),
            n <= v@.len(),
            forall|j: int| 0 <= j < i ==> v@[j] == p@[j],
        decreases n - i,
    {
        if v[i] != p.get_char(i) {
            proof {
                assert(v@.take(n as int)[i as int] != p@[i as int]);
            }
            return false;
        }
        i = i + 1;
    }
    proof {
        assert(v@.take(n as int) =~= p@);
    }
    true
}


/// A vector of characters views the same sequence deeply and shallowly.
pub broadcast proof fn lemma_vec_char_deep_view(v: Vec<char>)
    ensures
        #[trigger] v.deep_view() == v@,
{
    assert(v.deep_view() =~= v@);
}

} // verus!
