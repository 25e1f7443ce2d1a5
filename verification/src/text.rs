//! Character and string primitives that the rest of the crate is built on.
use vstd::prelude::*;
use vstd::string::*;
use vstd::utf8::{encode_utf8, decode_utf8, valid_utf8};
use crate::types::template::{all_digits, decimal_value, is_digit, lemma_decimal_prefix_le};

verus! {

/// Whether `c` has the Unicode `White_Space` property (what `char::is_whitespace`
/// computes): tab to carriage return, space, next line, no-break space, ogham
/// space mark, en quad to hair space, line and paragraph separators, narrow
/// no-break space, medium mathematical space and ideographic space.
pub open spec fn char_is_whitespace(c: char) -> bool {
    let u = c as u32;
    ||| 0x09 <= u <= 0x0d
    ||| u == 0x20
    ||| u == 0x85
    ||| u == 0xa0
    ||| u == 0x1680
    ||| 0x2000 <= u <= 0x200a
    ||| u == 0x2028
    ||| u == 0x2029
    ||| u == 0x202f
    ||| u == 0x205f
    ||| u == 0x3000
}

/// An ASCII letter or digit.
pub open spec fn is_ascii_alphanumeric(c: char) -> bool {
    ('a' <= c <= 'z') || ('A' <= c <= 'Z') || ('0' <= c <= '9')
}

/// Whether `c` is Unicode alphabetic or numeric (what `char::is_alphanumeric` computes).
pub uninterp spec fn char_is_alphanumeric(c: char) -> bool;

/// Whether `c` has the Unicode `White_Space` property, as `char::is_whitespace`
/// answers it.
pub(crate) fn is_whitespace(c: char) -> (b: bool)
    ensures
        b == char_is_whitespace(c),
{
    let u = c as u32;
    (0x09 <= u && u <= 0x0d) || u == 0x20 || u == 0x85 || u == 0xa0 || u == 0x1680
        || (0x2000 <= u && u <= 0x200a) || u == 0x2028 || u == 0x2029 || u == 0x202f
        || u == 0x205f || u == 0x3000
}

/// Calls `char::is_alphanumeric`; the result is named by `char_is_alphanumeric`.
/// Among ASCII characters exactly the letters and digits are alphanumeric.
#[verifier::external_body]
pub(crate) fn is_alphanumeric(c: char) -> (b: bool)
    ensures
        b == char_is_alphanumeric(c),
        (c as u32) < 128 ==> (b <==> is_ascii_alphanumeric(c)),
{
    c.is_alphanumeric()
}

/// Collects the characters of `s` (through `Iterator::collect` on `str::chars`):
/// the result holds the characters of `s` in order.
#[verifier::external_body]
pub(crate) fn str_chars(s: &str) -> (r: Vec<char>)
    ensures
        r@ == s@,
{
    s.chars().collect()
}

/// Builds a `String` from characters (through `Iterator::collect`): the result
/// holds exactly the characters of `v`, in order.
#[verifier::external_body]
pub(crate) fn string_from_chars(v: &[char]) -> (r: String)
    ensures
        r@ == v@,
{
    v.iter().collect()
}

/// Copies `v[from..to]` into a new vector.
pub fn sub_chars(v: &Vec<char>, from: usize, to: usize) -> (r: Vec<char>)
    requires
        from <= to <= v.len(),
    ensures
        r@ == v@.subrange(from as int, to as int),
{
    let mut r: Vec<char> = Vec::new();
    let mut i: usize = from;
    while i < to
        invariant
            from <= i <= to <= v.len(),
            r@ == v@.subrange(from as int, i as int),
        decreases to - i,
    {
        r.push(v[i]);
        i = i + 1;
        assert(r@ =~= v@.subrange(from as int, i as int));
    }
    r
}

/// The string made of `v[from..to]`.
pub fn substring(v: &Vec<char>, from: usize, to: usize) -> (r: String)
    requires
        from <= to <= v.len(),
    ensures
        r@ == v@.subrange(from as int, to as int),
{
    let part = sub_chars(v, from, to);
    string_from_chars(part.as_slice())
}

/// The decimal text of a number.
pub open spec fn decimal_string(n: nat) -> Seq<char>
    decreases n,
{
    if n < 10 {
        seq![(('0' as nat) + n) as char]
    } else {
        decimal_string(n / 10).push((('0' as nat) + n % 10) as char)
    }
}

/// Writes `n` in decimal.
pub fn usize_to_decimal(n: usize) -> (r: String)
    ensures
        r@ == decimal_string(n as nat),
    decreases n,
{
    let digit = char_of_digit((n % 10) as u32);
    if n < 10 {
        let v: Vec<char> = vec![digit];
        assert(v@ =~= seq![digit]);
        string_from_chars(v.as_slice())
    } else {
        let prefix = usize_to_decimal(n / 10);
        let v: Vec<char> = vec![digit];
        let last = string_from_chars(v.as_slice());
        let r = prefix.concat(last.as_str());
        assert(r@ =~= decimal_string((n / 10) as nat).push(digit));
        r
    }
}

fn char_of_digit(d: u32) -> (c: char)
    requires
        d < 10,
    ensures
        c == (('0' as nat) + d) as char,
{
    if d == 0 { '0' } else if d == 1 { '1' } else if d == 2 { '2' } else if d == 3 { '3' }
    else if d == 4 { '4' } else if d == 5 { '5' } else if d == 6 { '6' } else if d == 7 { '7' }
    else if d == 8 { '8' } else { '9' }
}


/// Writes `n` in decimal.
pub fn u64_to_decimal(n: u64) -> (r: String)
    ensures
        r@ == decimal_string(n as nat),
    decreases n,
{
    let digit = char_of_digit((n % 10) as u32);
    if n < 10 {
        let v: Vec<char> = vec![digit];
        assert(v@ =~= seq![digit]);
        string_from_chars(v.as_slice())
    } else {
        let prefix = u64_to_decimal(n / 10);
        let v: Vec<char> = vec![digit];
        let last = string_from_chars(v.as_slice());
        let r = prefix.concat(last.as_str());
        assert(r@ =~= decimal_string((n / 10) as nat).push(digit));
        r
    }
}

/// The decimal text of a signed number: a `-` before the digits of a negative one.
pub open spec fn signed_decimal(n: int) -> Seq<char> {
    if n < 0 { "-"@ + decimal_string((-n) as nat) } else { decimal_string(n as nat) }
}

/// Writes `n` in decimal, with a `-` when it is negative.
pub fn i64_to_decimal(n: i64) -> (r: String)
    ensures
        r@ == signed_decimal(n as int),
{
    if n < 0 {
        let magnitude: u64 = (-(n + 1)) as u64 + 1;
        let r = String::from_str("-").concat(u64_to_decimal(magnitude).as_str());
        proof {
            reveal_strlit("-");
        }
        r
    } else {
        u64_to_decimal(n as u64)
    }
}

/// What `i64::from_str` accepts: an optional `+` or `-`, then one or more
/// decimal digits whose signed value fits in an `i64`.
pub open spec fn spec_parse_i64(s: Seq<char>) -> Option<int> {
    let negative = s.len() > 0 && s[0] == '-';
    let body = if s.len() > 0 && (s[0] == '-' || s[0] == '+') { s.drop_first() } else { s };
    let value: int = if negative { -(decimal_value(body) as int) } else { decimal_value(body) as int };
    if body.len() > 0 && all_digits(body) && i64::MIN <= value <= i64::MAX {
        Some(value)
    } else {
        None
    }
}

/// Parses a decimal `i64` the way `i64::from_str` does.
pub fn parse_i64(text: &str) -> (r: Option<i64>)
    ensures
        match r {
            Some(n) => spec_parse_i64(text@) == Some(n as int),
            None => spec_parse_i64(text@).is_none(),
        },
{
    let v = str_chars(text);
    let ghost s = v@;
    let negative = v.len() > 0 && v[0] == '-';
    let start: usize = if v.len() > 0 && (v[0] == '-' || v[0] == '+') { 1 } else { 0 };
    let ghost body = if s.len() > 0 && (s[0] == '-' || s[0] == '+') { s.drop_first() } else { s };
    assert(body =~= s.subrange(start as int, s.len() as int));
    if start >= v.len() {
        return None;
    }
    let limit: u64 = if negative { 0x8000_0000_0000_0000 } else { 0x7fff_ffff_ffff_ffff };
    let mut value: u64 = 0;
    let mut i = start;
    while i < v.len()
        invariant
            start <= i <= v.len(),
            s == v@,
            s == text@,
            body == (if s.len() > 0 && (s[0] == '-' || s[0] == '+') { s.drop_first() } else { s }),
            negative == (s.len() > 0 && s[0] == '-'),
            body =~= s.subrange(start as int, s.len() as int),
            forall|k: int| start <= k < i ==> is_digit(#[trigger] s[k]),
            value as nat == decimal_value(s.subrange(start as int, i as int)),
            value <= limit,
            limit == if negative { 0x8000_0000_0000_0000u64 } else { 0x7fff_ffff_ffff_ffffu64 },
        decreases v.len() - i,
    {
        let c = v[i];
        if !('0' <= c && c <= '9') {
            assert(!is_digit(body[i - start]));
            assert(!all_digits(body));
            return None;
        }
        let d = (c as u32 - '0' as u32) as u64;
        assert(s.subrange(start as int, i + 1).drop_last() =~= s.subrange(start as int, i as int));
        if value > (limit - d) / 10 {
            proof {
                if all_digits(body) {
                    lemma_decimal_prefix_le(body, i + 1 - start);
                    assert(body.subrange(0, i + 1 - start) =~= s.subrange(start as int, i + 1));
                    assert(decimal_value(s.subrange(start as int, i + 1)) == value * 10 + d);
                }
            }
            return None;
        }
        value = value * 10 + d;
        i = i + 1;
    }
    assert(s.subrange(start as int, i as int) =~= body);
    if negative {
        if value == 0x8000_0000_0000_0000 {
            Some(i64::MIN)
        } else {
            Some(-(value as i64))
        }
    } else {
        Some(value as i64)
    }
}

/// `m` occurs in `s` at `j`.
pub open spec fn occurs_at(s: Seq<char>, m: Seq<char>, j: int) -> bool {
    0 <= j && j + m.len() <= s.len() && s.subrange(j, j + m.len()) == m
}

/// The first place at or after `i` where `m` occurs in `s`.
pub open spec fn first_occurrence(s: Seq<char>, m: Seq<char>, i: int) -> Option<int>
    decreases s.len() + 1 - i,
{
    if i < 0 || i + m.len() > s.len() {
        None
    } else if occurs_at(s, m, i) {
        Some(i)
    } else {
        first_occurrence(s, m, i + 1)
    }
}

/// Where `m` is first found from `i` lies within `s`, at or after `i`.
pub proof fn lemma_first_occurrence_bounds(s: Seq<char>, m: Seq<char>, i: int)
    ensures
        first_occurrence(s, m, i) matches Some(j) ==> i <= j && j + m.len() <= s.len(),
    decreases s.len() + 1 - i,
{
    if !(i < 0 || i + m.len() > s.len()) && !occurs_at(s, m, i) {
        lemma_first_occurrence_bounds(s, m, i + 1);
    }
}

/// The pieces of `s` from `i` between the occurrences of `m` (what `str::split` yields).
pub open spec fn split_pieces(s: Seq<char>, m: Seq<char>, i: int) -> Seq<Seq<char>>
    decreases s.len() + 1 - i,
{
    if m.len() == 0 || i < 0 || i > s.len() {
        Seq::empty()
    } else {
        match first_occurrence(s, m, i) {
            Some(j) => if i <= j && j + m.len() <= s.len() {
                seq![s.subrange(i, j)] + split_pieces(s, m, j + m.len())
            } else {
                Seq::empty()
            },
            None => seq![s.subrange(i, s.len() as int)],
        }
    }
}

/// `parts` with `sep` between each two.
pub open spec fn join_text(parts: Seq<Seq<char>>, sep: Seq<char>) -> Seq<char>
    decreases parts.len(),
{
    if parts.len() == 0 {
        Seq::empty()
    } else if parts.len() == 1 {
        parts[0]
    } else {
        parts[0] + sep + join_text(parts.drop_first(), sep)
    }
}

proof fn lemma_first_occurrence_occurs(s: Seq<char>, m: Seq<char>, i: int)
    ensures
        first_occurrence(s, m, i) matches Some(j) ==> occurs_at(s, m, j),
    decreases s.len() + 1 - i,
{
    if !(i < 0 || i + m.len() > s.len()) && !occurs_at(s, m, i) {
        lemma_first_occurrence_occurs(s, m, i + 1);
    }
}

proof fn lemma_split_rejoins_from(s: Seq<char>, m: Seq<char>, i: int)
    requires
        m.len() > 0,
        0 <= i <= s.len(),
    ensures
        split_pieces(s, m, i).len() >= 1,
        join_text(split_pieces(s, m, i), m) == s.subrange(i, s.len() as int),
    decreases s.len() + 1 - i,
{
    lemma_first_occurrence_bounds(s, m, i);
    lemma_first_occurrence_occurs(s, m, i);
    match first_occurrence(s, m, i) {
        Some(j) => {
            lemma_split_rejoins_from(s, m, j + m.len());
            let rest = split_pieces(s, m, j + m.len());
            let ps = split_pieces(s, m, i);
            assert(ps == seq![s.subrange(i, j)] + rest);
            assert(ps.drop_first() =~= rest);
            assert(ps[0] == s.subrange(i, j));
            assert(s.subrange(j, j + m.len()) == m);
            assert(s.subrange(i, j) + m + s.subrange(j + m.len(), s.len() as int) =~= s.subrange(i, s.len() as int));
        },
        None => {},
    }
}

/// Splitting at a non-empty separator loses nothing: the pieces, joined again
/// with the separator, give back the text.
pub proof fn law_split_rejoins(s: Seq<char>, m: Seq<char>)
    requires
        m.len() > 0,
    ensures
        split_pieces(s, m, 0).len() >= 1,
        join_text(split_pieces(s, m, 0), m) == s,
{
    lemma_split_rejoins_from(s, m, 0);
    assert(s.subrange(0, s.len() as int) =~= s);
}

pub fn occurs_at_exec(s: &Vec<char>, m: &Vec<char>, j: usize) -> (r: bool)
    requires
        m@.len() > 0,
    ensures
        r == occurs_at(s@, m@, j as int),
{
    if j > s.len() || m.len() > s.len() - j {
        return false;
    }
    let end = j + m.len();
    let mut p = j;
    while p < end
        invariant
            j <= p <= end,
            end == j + m@.len(),
            end <= s@.len(),
            forall|x: int| 0 <= x < p - j ==> s@[j + x] == m@[x],
        decreases end - p,
    {
        if s[p] != m[p - j] {
            assert(s@.subrange(j as int, end as int)[p - j] != m@[p - j]);
            return false;
        }
        p = p + 1;
    }
    assert(s@.subrange(j as int, end as int) =~= m@);
    true
}

pub fn first_occurrence_exec(s: &Vec<char>, m: &Vec<char>, i: usize) -> (r: Option<usize>)
    requires
        m@.len() > 0,
        i <= s@.len(),
    ensures
        match r {
            Some(j) => first_occurrence(s@, m@, i as int) == Some(j as int) && i <= j && j + m@.len() <= s@.len(),
            None => first_occurrence(s@, m@, i as int).is_none(),
        },
{
    let mut j = i;
    while j <= s.len() && m.len() <= s.len() - j
        invariant
            i <= j,
            j <= s@.len() + 1,
            m@.len() > 0,
            first_occurrence(s@, m@, i as int) == first_occurrence(s@, m@, j as int),
        decreases s.len() + 1 - j,
    {
        if occurs_at_exec(s, m, j) {
            return Some(j);
        }
        j = j + 1;
    }
    None
}

/// The pieces of `s` between the occurrences of `sep` (what `str::split` yields).
pub fn split_text(s: &str, sep: &str) -> (r: Vec<String>)
    requires
        sep@.len() > 0,
    ensures
        r@.len() == split_pieces(s@, sep@, 0).len(),
        forall|i: int| 0 <= i < r@.len() ==> #[trigger] r@[i]@ == split_pieces(s@, sep@, 0)[i],
{
    let v = str_chars(s);
    let m = str_chars(sep);
    let ghost sv = v@;
    let mut out: Vec<String> = Vec::new();
    let mut i: usize = 0;
    let mut done = false;
    let ghost mut consumed: Seq<Seq<char>> = Seq::empty();
    while !done
        invariant
            sv == v@,
            sv == s@,
            m@ == sep@,
            m@.len() > 0,
            i <= v@.len(),
            !done ==> split_pieces(sv, m@, 0) == consumed + split_pieces(sv, m@, i as int),
            done ==> split_pieces(sv, m@, 0) == consumed,
            out@.len() == consumed.len(),
            forall|x: int| 0 <= x < out@.len() ==> #[trigger] out@[x]@ == consumed[x],
        decreases v@.len() - i + (if done { 0int } else { 1int }),
    {
        let next = first_occurrence_exec(&v, &m, i);
        let end = match next {
            Some(j) => j,
            None => v.len(),
        };
        let piece = substring(&v, i, end);
        let ghost old_consumed = consumed;
        out.push(piece);
        proof {
            consumed = consumed.push(piece@);
            match next {
                Some(j) => {
                    assert(split_pieces(sv, m@, i as int) =~= seq![piece@] + split_pieces(sv, m@, j + m@.len()));
                    assert(old_consumed + split_pieces(sv, m@, i as int) =~= consumed + split_pieces(sv, m@, j + m@.len()));
                },
                None => {
                    assert(split_pieces(sv, m@, i as int) =~= seq![piece@]);
                    assert(old_consumed + split_pieces(sv, m@, i as int) =~= consumed);
                },
            }
        }
        match next {
            Some(j) => {
                let step = m.len();
                assert(j + step <= v.len());
                i = j + step;
            },
            None => {
                done = true;
            },
        }
    }
    out
}


/// What `u64::from_str` accepts: an optional `+`, then one or more decimal digits
/// whose value fits in a `u64`.
pub open spec fn spec_parse_u64(s: Seq<char>) -> Option<nat> {
    let body = if s.len() > 0 && s[0] == '+' { s.drop_first() } else { s };
    if body.len() > 0 && all_digits(body) && decimal_value(body) <= u64::MAX {
        Some(decimal_value(body))
    } else {
        None
    }
}

/// Parses a decimal `u64` the way `u64::from_str` does.
pub fn parse_u64(v: &Vec<char>) -> (r: Option<u64>)
    ensures
        match r {
            Some(n) => spec_parse_u64(v@) == Some(n as nat),
            None => spec_parse_u64(v@).is_none(),
        },
{
    let ghost s = v@;
    let start: usize = if v.len() > 0 && v[0] == '+' { 1 } else { 0 };
    let ghost body = if s.len() > 0 && s[0] == '+' { s.drop_first() } else { s };
    assert(body =~= s.subrange(start as int, s.len() as int));
    if start >= v.len() {
        return None;
    }
    let mut value: u64 = 0;
    let mut i = start;
    while i < v.len()
        invariant
            start <= i <= v.len(),
            s == v@,
            body == (if s.len() > 0 && s[0] == '+' { s.drop_first() } else { s }),
            body =~= s.subrange(start as int, s.len() as int),
            forall|k: int| start <= k < i ==> is_digit(#[trigger] s[k]),
            value as nat == decimal_value(s.subrange(start as int, i as int)),
        decreases v.len() - i,
    {
        let c = v[i];
        if !('0' <= c && c <= '9') {
            assert(!is_digit(body[i - start]));
            assert(!all_digits(body));
            return None;
        }
        let d = (c as u32 - '0' as u32) as u64;
        assert(s.subrange(start as int, i + 1).drop_last() =~= s.subrange(start as int, i as int));
        if value > (u64::MAX - d) / 10 {
            proof {
                if all_digits(body) {
                    lemma_decimal_prefix_le(body, i + 1 - start);
                    assert(body.subrange(0, i + 1 - start) =~= s.subrange(start as int, i + 1));
                    assert(decimal_value(s.subrange(start as int, i + 1)) == value * 10 + d);
                }
            }
            return None;
        }
        value = value * 10 + d;
        i = i + 1;
    }
    assert(s.subrange(start as int, i as int) =~= body);
    Some(value)
}

/// The bytes of the UTF-8 encoding of `s`.
pub fn utf8_bytes(s: &str) -> (r: Vec<u8>)
    ensures
        r@ == encode_utf8(s@),
{
    vstd::slice::slice_to_vec(s.as_bytes())
}

/// What `String::from_utf8_lossy` makes of some bytes.
pub uninterp spec fn utf8_lossy(b: Seq<u8>) -> Seq<char>;

/// Calls `String::from_utf8_lossy`: valid UTF-8 is decoded as it is (invalid
/// sequences become U+FFFD, which is left unsaid), and no bytes give no text.
#[verifier::external_body]
pub(crate) fn lossy_string(b: &[u8]) -> (r: String)
    ensures
        r@ == utf8_lossy(b@),
        valid_utf8(b@) ==> r@ == decode_utf8(b@),
        (r@.len() == 0) == (b@.len() == 0),
{
    String::from_utf8_lossy(b).to_string()
}

} // verus!
