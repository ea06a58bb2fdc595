use vstd::prelude::*;

use crate::domain::CompOp;

verus! {

/// Why a parser did not succeed.
/// `Incomplete`: the input ran out while it was still a prefix of what was
/// required, and more input may follow. `Mismatch`: the input is wrong here;
/// an enclosing alternative may try something else. `Cut`: the input is wrong
/// and no alternative may be tried.
#[derive(Clone, Copy, Debug, PartialEq, Eq, Structural)]
pub enum ParseError {
    Incomplete,
    Mismatch,
    Cut,
}

/// An exec result (an end position) agrees with a spec result.
pub open spec fn lifts(r: Result<usize, ParseError>, t: Result<int, ParseError>) -> bool {
    match r {
        Ok(e) => t == Ok::<int, ParseError>(e as int),
        Err(k) => t == Err::<int, ParseError>(k),
    }
}

pub open spec fn lower(b: u8) -> u8 {
    if 65 <= b && b <= 90 {
        (b + 32) as u8
    } else {
        b
    }
}

pub open spec fn same_byte(a: u8, b: u8, caseless: bool) -> bool {
    if caseless {
        lower(a) == lower(b)
    } else {
        a == b
    }
}

/// The first `n` bytes of `lit` agree with `s` from `pos` on.
pub open spec fn agrees(s: Seq<u8>, pos: int, lit: Seq<u8>, n: int, caseless: bool) -> bool {
    forall|i: int| 0 <= i < n ==> same_byte(s[pos + i], #[trigger] lit[i], caseless)
}

/// Matching the literal `lit` at `pos`: success when it is there; `Incomplete`
/// when the rest of a partial input is a strict prefix of it.
pub open spec fn literal_spec(
    s: Seq<u8>,
    pos: int,
    lit: Seq<u8>,
    caseless: bool,
    partial: bool,
) -> Result<int, ParseError> {
    if pos + lit.len() <= s.len() && agrees(s, pos, lit, lit.len() as int, caseless) {
        Ok(pos + lit.len())
    } else if partial && s.len() < pos + lit.len() && agrees(
        s,
        pos,
        lit,
        s.len() - pos,
        caseless,
    ) {
        Err(ParseError::Incomplete)
    } else {
        Err(ParseError::Mismatch)
    }
}

/// Two names are equal up to ASCII case.
pub open spec fn caseless_eq(a: Seq<u8>, b: Seq<u8>) -> bool {
    a.len() == b.len() && agrees(a, 0, b, b.len() as int, true)
}

pub fn lower_byte(b: u8) -> (r: u8)
    ensures
        r == lower(b),
{
    if 65 <= b && b <= 90 {
        b + 32
    } else {
        b
    }
}

fn byte_matches(a: u8, b: u8, caseless: bool) -> (r: bool)
    ensures
        r == same_byte(a, b, caseless),
{
    if caseless {
        lower_byte(a) == lower_byte(b)
    } else {
        a == b
    }
}

/// Matches the literal `lit` at `pos`.
pub fn literal(s: &[u8], pos: usize, lit: &[u8], caseless: bool, partial: bool) -> (r: Result<
    usize,
    ParseError,
>)
    requires
        pos <= s@.len(),
    ensures
        lifts(r, literal_spec(s@, pos as int, lit@, caseless, partial)),
{
    let slen = s.len();
    let avail = slen - pos;
    let n = if avail < lit.len() {
        avail
    } else {
        lit.len()
    };
    let mut i: usize = 0;
    while i < n
        invariant
            i <= n,
            n <= lit@.len(),
            n <= avail,
            avail == s@.len() - pos,
            pos + n <= s@.len(),
            slen == s@.len(),
            agrees(s@, pos as int, lit@, i as int, caseless),
        decreases n - i,
    {
        if !byte_matches(s[pos + i], lit[i], caseless) {
            assert(!same_byte(s@[pos + i], lit@[i as int], caseless));
            return Err(ParseError::Mismatch);
        }
        i += 1;
    }
    if n == lit.len() {
        Ok(pos + n)
    } else if partial {
        Err(ParseError::Incomplete)
    } else {
        Err(ParseError::Mismatch)
    }
}

/// Case-insensitive (ASCII) equality of two names.
pub fn eq_caseless(a: &[u8], b: &[u8]) -> (r: bool)
    ensures
        r == caseless_eq(a@, b@),
{
    if a.len() != b.len() {
        return false;
    }
    let mut i: usize = 0;
    while i < b.len()
        invariant
            i <= b@.len(),
            a@.len() == b@.len(),
            agrees(a@, 0, b@, i as int, true),
        decreases b@.len() - i,
    {
        if !byte_matches(a[i], b[i], true) {
            assert(!same_byte(a@[0 + i], b@[i as int], true));
            return false;
        }
        i += 1;
    }
    true
}

/// Exact equality of two byte strings.
pub fn eq_bytes(a: &[u8], b: &[u8]) -> (r: bool)
    ensures
        r == (a@ == b@),
{
    if a.len() != b.len() {
        return false;
    }
    let mut i: usize = 0;
    while i < b.len()
        invariant
            i <= b@.len(),
            a@.len() == b@.len(),
            forall|j: int| 0 <= j < i ==> a@[j] == b@[j],
        decreases b@.len() - i,
    {
        if a[i] != b[i] {
            return false;
        }
        i += 1;
    }
    assert(a@ =~= b@);
    true
}

/// `s` begins with `p`, byte for byte.
pub fn starts_with(s: &[u8], p: &[u8]) -> (r: bool)
    ensures
        r == (p@.len() <= s@.len() && s@.subrange(0, p@.len() as int) == p@),
{
    if p.len() > s.len() {
        return false;
    }
    let mut i: usize = 0;
    while i < p.len()
        invariant
            i <= p@.len(),
            p@.len() <= s@.len(),
            forall|j: int| 0 <= j < i ==> s@[j] == p@[j],
        decreases p@.len() - i,
    {
        if s[i] != p[i] {
            assert(s@.subrange(0, p@.len() as int)[i as int] != p@[i as int]);
            return false;
        }
        i += 1;
    }
    assert(s@.subrange(0, p@.len() as int) =~= p@);
    true
}

/// Character classes used by the lexer.
#[derive(Clone, Copy, PartialEq, Eq, Structural)]
pub enum Class {
    Space,
    Digit,
    Alnum,
    NotQuote,
}

pub open spec fn is_digit(b: u8) -> bool {
    48 <= b && b <= 57
}

pub open spec fn in_class(c: Class, b: u8) -> bool {
    match c {
        Class::Space => b == 32 || b == 9 || b == 10 || b == 13,
        Class::Digit => is_digit(b),
        Class::Alnum => is_digit(b) || (65 <= b && b <= 90) || (97 <= b && b <= 122),
        Class::NotQuote => b != 39,
    }
}

fn in_class_exec(c: Class, b: u8) -> (r: bool)
    ensures
        r == in_class(c, b),
{
    match c {
        Class::Space => b == 32 || b == 9 || b == 10 || b == 13,
        Class::Digit => 48 <= b && b <= 57,
        Class::Alnum => (48 <= b && b <= 57) || (65 <= b && b <= 90) || (97 <= b && b <= 122),
        Class::NotQuote => b != 39,
    }
}

/// `s[pos..e]` is the longest run of class `c` starting at `pos`.
pub open spec fn is_run(s: Seq<u8>, pos: int, e: int, c: Class) -> bool {
    &&& pos <= e <= s.len()
    &&& forall|i: int| pos <= i < e ==> in_class(c, #[trigger] s[i])
    &&& (e == s.len() || !in_class(c, s[e]))
}

/// The end of the run of class `c` that starts at `p`.
pub open spec fn run_end_spec(s: Seq<u8>, p: int, c: Class) -> int
    decreases s.len() - p,
{
    if p < 0 || p >= s.len() || !in_class(c, s[p]) {
        p
    } else {
        run_end_spec(s, p + 1, c)
    }
}

proof fn lemma_run_unique(s: Seq<u8>, p: int, e: int, c: Class)
    requires
        0 <= p,
        is_run(s, p, e, c),
    ensures
        e == run_end_spec(s, p, c),
    decreases e - p,
{
    if p < e {
        lemma_run_unique(s, p + 1, e, c);
    }
}

/// Zero or more bytes of class `c`; on an open input a run that reaches the
/// end is `Incomplete`.
pub open spec fn take_while0_spec(s: Seq<u8>, p: int, c: Class, partial: bool) -> Result<
    int,
    ParseError,
> {
    let e = run_end_spec(s, p, c);
    if e == s.len() && partial {
        Err(ParseError::Incomplete)
    } else {
        Ok(e)
    }
}

/// One or more bytes of class `c`.
pub open spec fn take_while1_spec(s: Seq<u8>, p: int, c: Class, partial: bool) -> Result<
    int,
    ParseError,
> {
    let e = run_end_spec(s, p, c);
    if e == s.len() && partial {
        Err(ParseError::Incomplete)
    } else if e == p {
        Err(ParseError::Mismatch)
    } else {
        Ok(e)
    }
}

pub fn run_end(s: &[u8], pos: usize, c: Class) -> (e: usize)
    requires
        pos <= s@.len(),
    ensures
        is_run(s@, pos as int, e as int, c),
{
    let mut e = pos;
    while e < s.len()
        invariant
            pos <= e <= s@.len(),
            forall|i: int| pos <= i < e ==> in_class(c, #[trigger] s@[i]),
        decreases s@.len() - e,
    {
        if !in_class_exec(c, s[e]) {
            return e;
        }
        e += 1;
    }
    e
}

/// Zero or more bytes of class `c`; on a partial input a run that reaches the
/// end is `Incomplete`.
pub fn take_while0(s: &[u8], pos: usize, c: Class, partial: bool) -> (r: Result<usize, ParseError>)
    requires
        pos <= s@.len(),
    ensures
        match r {
            Ok(e) => is_run(s@, pos as int, e as int, c) && (e == s@.len() ==> !partial),
            Err(k) => k == ParseError::Incomplete && partial && is_run(
                s@,
                pos as int,
                s@.len() as int,
                c,
            ),
        },
        lifts(r, take_while0_spec(s@, pos as int, c, partial)),
{
    let e = run_end(s, pos, c);
    proof {
        lemma_run_unique(s@, pos as int, e as int, c);
    }
    if e == s.len() && partial {
        Err(ParseError::Incomplete)
    } else {
        Ok(e)
    }
}

/// One or more bytes of class `c`.
pub fn take_while1(s: &[u8], pos: usize, c: Class, partial: bool) -> (r: Result<usize, ParseError>)
    requires
        pos <= s@.len(),
    ensures
        match r {
            Ok(e) => is_run(s@, pos as int, e as int, c) && pos < e && (e == s@.len()
                ==> !partial),
            Err(ParseError::Incomplete) => partial && is_run(s@, pos as int, s@.len() as int, c),
            Err(ParseError::Mismatch) => pos == s@.len() || !in_class(c, s@[pos as int]),
            Err(ParseError::Cut) => false,
        },
        lifts(r, take_while1_spec(s@, pos as int, c, partial)),
{
    let e = run_end(s, pos, c);
    proof {
        lemma_run_unique(s@, pos as int, e as int, c);
    }
    if e == s.len() && partial {
        Err(ParseError::Incomplete)
    } else if e == pos {
        Err(ParseError::Mismatch)
    } else {
        Ok(e)
    }
}

/// Optional whitespace.
pub fn multispace0(s: &[u8], pos: usize, partial: bool) -> (r: Result<usize, ParseError>)
    requires
        pos <= s@.len(),
    ensures
        match r {
            Ok(e) => is_run(s@, pos as int, e as int, Class::Space) && (e == s@.len()
                ==> !partial),
            Err(k) => k == ParseError::Incomplete && partial,
        },
        lifts(r, take_while0_spec(s@, pos as int, Class::Space, partial)),
{
    take_while0(s, pos, Class::Space, partial)
}

/// The value of a string of decimal digits.
pub open spec fn dec_value(d: Seq<u8>) -> nat
    decreases d.len(),
{
    if d.len() == 0 {
        0
    } else {
        dec_value(d.drop_last()) * 10 + (d.last() - 48) as nat
    }
}

/// An unsigned decimal integer: `0`, or a nonzero digit and more digits;
/// its value and end. One that does not fit in `usize` is a mismatch.
pub open spec fn dec_uint_spec(s: Seq<u8>, pos: int, partial: bool) -> Result<(nat, int), ParseError> {
    if pos == s.len() {
        if partial {
            Err(ParseError::Incomplete)
        } else {
            Err(ParseError::Mismatch)
        }
    } else if s[pos] == 48u8 {
        Ok((0, pos + 1))
    } else if 49u8 <= s[pos] && s[pos] <= 57u8 {
        match take_while0_spec(s, pos + 1, Class::Digit, partial) {
            Ok(e) => if dec_value(s.subrange(pos, e)) > usize::MAX {
                Err(ParseError::Mismatch)
            } else {
                Ok((dec_value(s.subrange(pos, e)), e))
            },
            Err(k) => Err(k),
        }
    } else {
        Err(ParseError::Mismatch)
    }
}

/// A value only grows as digits are appended.
proof fn lemma_dec_value_grows(s: Seq<u8>, a: int, i: int, e: int)
    requires
        0 <= a <= i <= e <= s.len(),
        forall|j: int| a <= j < e ==> is_digit(#[trigger] s[j]),
    ensures
        dec_value(s.subrange(a, i)) <= dec_value(s.subrange(a, e)),
    decreases e - i,
{
    if i < e {
        lemma_dec_value_grows(s, a, i + 1, e);
        assert(s.subrange(a, i + 1).drop_last() =~= s.subrange(a, i));
    }
}

/// An unsigned decimal integer (see `dec_uint_spec`).
pub fn dec_uint(s: &[u8], pos: usize, partial: bool) -> (r: Result<(usize, usize), ParseError>)
    requires
        pos <= s@.len(),
    ensures
        match r {
            Ok((v, e)) => dec_uint_spec(s@, pos as int, partial) == Ok::<(nat, int), ParseError>(
                (v as nat, e as int),
            ) && pos < e <= s@.len() && v == dec_value(s@.subrange(pos as int, e as int))
                && forall|i: int| pos <= i < e ==> is_digit(#[trigger] s@[i]),
            Err(k) => dec_uint_spec(s@, pos as int, partial) == Err::<(nat, int), ParseError>(k),
        },
{
    if pos == s.len() {
        return if partial {
            Err(ParseError::Incomplete)
        } else {
            Err(ParseError::Mismatch)
        };
    }
    let b = s[pos];
    if b == 48 {
        assert(s@.subrange(pos as int, pos + 1).drop_last() =~= Seq::<u8>::empty());
        assert(dec_value(Seq::<u8>::empty()) == 0);
        assert(dec_value(s@.subrange(pos as int, pos + 1)) == 0);
        return Ok((0, pos + 1));
    }
    if !(49 <= b && b <= 57) {
        return Err(ParseError::Mismatch);
    }
    let e = match take_while0(s, pos + 1, Class::Digit, partial) {
        Ok(e) => e,
        Err(k) => {
            return Err(k);
        },
    };
    let mut v: usize = 0;
    let mut i = pos;
    while i < e
        invariant
            pos <= i <= e,
            e <= s@.len(),
            forall|j: int| pos <= j < e ==> is_digit(#[trigger] s@[j]),
            v == dec_value(s@.subrange(pos as int, i as int)),
            take_while0_spec(s@, pos + 1, Class::Digit, partial) == Ok::<int, ParseError>(e as int),
            49u8 <= s@[pos as int] <= 57u8,
            pos < s@.len(),
        decreases e - i,
    {
        let d = (s[i] - 48) as usize;
        assert(d <= 9);
        assert(s@.subrange(pos as int, i + 1).drop_last() =~= s@.subrange(pos as int, i as int));
        if v > (usize::MAX - d) / 10 {
            assert(v * 10 + d > usize::MAX) by (nonlinear_arith)
                requires
                    v > (usize::MAX - d) / 10,
                    d <= 9,
            ;
            assert(dec_value(s@.subrange(pos as int, i + 1)) == v * 10 + d);
            proof {
                lemma_dec_value_grows(s@, pos as int, i + 1, e as int);
            }
            assert(dec_value(s@.subrange(pos as int, e as int)) > usize::MAX);
            return Err(ParseError::Mismatch);
        }
        assert(v * 10 + d <= usize::MAX) by (nonlinear_arith)
            requires
                v <= (usize::MAX - d) / 10,
                d <= 9,
        ;
        v = v * 10 + d;
        i += 1;
    }
    Ok((v, e))
}

/// Decimal digits of a number, most significant first.
pub open spec fn dec_digits(n: nat) -> Seq<u8>
    decreases n,
{
    if n < 10 {
        seq![(48 + n) as u8]
    } else {
        dec_digits(n / 10).push((48 + n % 10) as u8)
    }
}

/// The decimal text of `n`.
pub fn usize_digits(n: usize) -> (r: Vec<u8>)
    ensures
        r@ == dec_digits(n as nat),
    decreases n,
{
    if n < 10 {
        let r = vec![(48 + n) as u8];
        assert(r@ =~= dec_digits(n as nat));
        r
    } else {
        let mut r = usize_digits(n / 10);
        r.push((48 + n % 10) as u8);
        r
    }
}

/// A run of ASCII letters and digits.
pub fn alphanumeric1(s: &[u8], pos: usize, partial: bool) -> (r: Result<usize, ParseError>)
    requires
        pos <= s@.len(),
    ensures
        match r {
            Ok(e) => is_run(s@, pos as int, e as int, Class::Alnum) && pos < e,
            Err(k) => k != ParseError::Cut,
        },
        lifts(r, take_while1_spec(s@, pos as int, Class::Alnum, partial)),
{
    take_while1(s, pos, Class::Alnum, partial)
}

/// A single-quoted string without quotes inside: the end after the closing
/// quote.
pub open spec fn quoted_spec(s: Seq<u8>, pos: int, partial: bool) -> Result<int, ParseError> {
    if pos == s.len() {
        if partial {
            Err(ParseError::Incomplete)
        } else {
            Err(ParseError::Mismatch)
        }
    } else if s[pos] != 39u8 {
        Err(ParseError::Mismatch)
    } else {
        match take_while0_spec(s, pos + 1, Class::NotQuote, partial) {
            Ok(e) => if e == s.len() {
                Err(ParseError::Mismatch)
            } else {
                Ok(e + 1)
            },
            Err(k) => Err(k),
        }
    }
}

/// A single-quoted string without quotes inside; gives its content.
pub fn quoted(s: &[u8], pos: usize, partial: bool) -> (r: Result<(Vec<u8>, usize), ParseError>)
    requires
        pos <= s@.len(),
    ensures
        match r {
            Ok((content, e)) => quoted_spec(s@, pos as int, partial) == Ok::<int, ParseError>(
                e as int,
            ) && pos + 2 <= e <= s@.len() && s@[pos as int] == 39u8 && s@[e - 1] == 39u8
                && content@ == s@.subrange(pos + 1, e - 1) && forall|i: int|
                pos + 1 <= i < e - 1 ==> #[trigger] s@[i] != 39u8,
            Err(k) => quoted_spec(s@, pos as int, partial) == Err::<int, ParseError>(k) && k
                != ParseError::Cut,
        },
{
    if pos == s.len() {
        return if partial {
            Err(ParseError::Incomplete)
        } else {
            Err(ParseError::Mismatch)
        };
    }
    if s[pos] != 39 {
        return Err(ParseError::Mismatch);
    }
    let e = match take_while0(s, pos + 1, Class::NotQuote, partial) {
        Ok(e) => e,
        Err(k) => {
            return Err(k);
        },
    };
    if e == s.len() {
        return Err(ParseError::Mismatch);
    }
    let content = copy_range(s, pos + 1, e);
    Ok((content, e + 1))
}

/// The bytes `s[a..b]`.
pub fn copy_range(s: &[u8], a: usize, b: usize) -> (r: Vec<u8>)
    requires
        a <= b <= s@.len(),
    ensures
        r@ == s@.subrange(a as int, b as int),
{
    let mut r: Vec<u8> = Vec::new();
    let mut i = a;
    while i < b
        invariant
            a <= i <= b,
            b <= s@.len(),
            r@ == s@.subrange(a as int, i as int),
        decreases b - i,
    {
        r.push(s[i]);
        assert(r@ =~= s@.subrange(a as int, i + 1));
        i += 1;
    }
    r
}

/// The boolean literals `0` and `1`.
pub open spec fn boolean_spec(s: Seq<u8>, pos: int, partial: bool) -> Result<(bool, int), ParseError> {
    if pos == s.len() {
        if partial {
            Err(ParseError::Incomplete)
        } else {
            Err(ParseError::Mismatch)
        }
    } else if s[pos] == 48u8 {
        Ok((false, pos + 1))
    } else if s[pos] == 49u8 {
        Ok((true, pos + 1))
    } else {
        Err(ParseError::Mismatch)
    }
}

pub fn boolean(s: &[u8], pos: usize, partial: bool) -> (r: Result<(bool, usize), ParseError>)
    requires
        pos <= s@.len(),
    ensures
        match r {
            Ok((b, e)) => e == pos + 1 && e <= s@.len() && s@[pos as int] == (if b {
                49u8
            } else {
                48u8
            }),
            Err(ParseError::Incomplete) => partial && pos == s@.len(),
            Err(ParseError::Mismatch) => pos == s@.len() || (s@[pos as int] != 48u8
                && s@[pos as int] != 49u8),
            Err(ParseError::Cut) => false,
        },
        match r {
            Ok((b, e)) => boolean_spec(s@, pos as int, partial) == Ok::<(bool, int), ParseError>((b, e as int)),
            Err(k) => boolean_spec(s@, pos as int, partial) == Err::<(bool, int), ParseError>(k),
        },
{
    if pos == s.len() {
        if partial {
            Err(ParseError::Incomplete)
        } else {
            Err(ParseError::Mismatch)
        }
    } else if s[pos] == 48 {
        Ok((false, pos + 1))
    } else if s[pos] == 49 {
        Ok((true, pos + 1))
    } else {
        Err(ParseError::Mismatch)
    }
}

/// An optional sign, `+` or `-`.
pub open spec fn opt_sign_spec(s: Seq<u8>, p: int, partial: bool) -> Result<int, ParseError> {
    if p == s.len() {
        if partial {
            Err(ParseError::Incomplete)
        } else {
            Ok(p)
        }
    } else if s[p] == 43u8 || s[p] == 45u8 {
        Ok(p + 1)
    } else {
        Ok(p)
    }
}

fn opt_sign(s: &[u8], pos: usize, partial: bool) -> (r: Result<usize, ParseError>)
    requires
        pos <= s@.len(),
    ensures
        lifts(r, opt_sign_spec(s@, pos as int, partial)),
        match r {
            Ok(e) => pos <= e <= pos + 1 && e <= s@.len(),
            Err(k) => k == ParseError::Incomplete,
        },
{
    if pos == s.len() {
        if partial {
            Err(ParseError::Incomplete)
        } else {
            Ok(pos)
        }
    } else if s[pos] == 43 || s[pos] == 45 {
        Ok(pos + 1)
    } else {
        Ok(pos)
    }
}

/// The mantissa: digits with an optional `.` and more digits, or `.` and
/// digits.
pub open spec fn mantissa_spec(s: Seq<u8>, p: int, partial: bool) -> Result<int, ParseError> {
    match take_while1_spec(s, p, Class::Digit, partial) {
        Ok(d) => if d == s.len() {
            if partial {
                Err(ParseError::Incomplete)
            } else {
                Ok(d)
            }
        } else if s[d] == 46u8 {
            if d + 1 == s.len() {
                if partial {
                    Err(ParseError::Incomplete)
                } else {
                    Ok(d + 1)
                }
            } else if is_digit(s[d + 1]) {
                take_while0_spec(s, d + 1, Class::Digit, partial)
            } else {
                Ok(d + 1)
            }
        } else {
            Ok(d)
        },
        Err(ParseError::Mismatch) => match literal_spec(s, p, seq![46u8], false, partial) {
            Ok(d) => take_while1_spec(s, d, Class::Digit, partial),
            Err(k) => Err(k),
        },
        Err(k) => Err(k),
    }
}

/// A decimal floating-point literal: optional sign, mantissa, optional
/// exponent; an exponent marker without digits is a `Cut`.
pub open spec fn float_spec(s: Seq<u8>, pos: int, partial: bool) -> Result<int, ParseError> {
    match opt_sign_spec(s, pos, partial) {
        Err(k) => Err(k),
        Ok(p) => match mantissa_spec(s, p, partial) {
            Err(k) => Err(k),
            Ok(q) => if q == s.len() {
                if partial {
                    Err(ParseError::Incomplete)
                } else {
                    Ok(q)
                }
            } else if s[q] != 101u8 && s[q] != 69u8 {
                Ok(q)
            } else {
                match opt_sign_spec(s, q + 1, partial) {
                    Err(k) => Err(k),
                    Ok(x) => match take_while1_spec(s, x, Class::Digit, partial) {
                        Ok(e) => Ok(e),
                        Err(ParseError::Mismatch) => Err(ParseError::Cut),
                        Err(k) => Err(k),
                    },
                }
            },
        },
    }
}

pub open spec fn nan_text() -> Seq<u8> {
    seq![110u8, 97u8, 110u8]
}

pub open spec fn inf_text() -> Seq<u8> {
    seq![105u8, 110u8, 102u8]
}

pub open spec fn infinity_text() -> Seq<u8> {
    seq![105u8, 110u8, 102u8, 105u8, 110u8, 105u8, 116u8, 121u8]
}

/// A number: a decimal literal, else `nan`, else a signed `infinity` or
/// `inf` (the words in any case). Gives the end of its text.
pub open spec fn number_spec(s: Seq<u8>, pos: int, partial: bool) -> Result<int, ParseError> {
    let r = match float_spec(s, pos, partial) {
        Err(ParseError::Mismatch) => match literal_spec(s, pos, nan_text(), true, partial) {
            Err(ParseError::Mismatch) => match opt_sign_spec(s, pos, partial) {
                Err(k) => Err(k),
                Ok(p) => match literal_spec(s, p, infinity_text(), true, partial) {
                    Err(ParseError::Mismatch) => match opt_sign_spec(s, pos, partial) {
                        Err(k) => Err(k),
                        Ok(p2) => literal_spec(s, p2, inf_text(), true, partial),
                    },
                    other => other,
                },
            },
            other => other,
        },
        other => other,
    };
    match r {
        Ok(e) => if e <= pos {
            Err(ParseError::Mismatch)
        } else {
            Ok(e)
        },
        Err(k) => Err(k),
    }
}

fn mantissa(s: &[u8], p: usize, partial: bool) -> (r: Result<usize, ParseError>)
    requires
        p <= s@.len(),
    ensures
        lifts(r, mantissa_spec(s@, p as int, partial)),
        r is Ok ==> p <= r->Ok_0 <= s@.len(),
{
    match take_while1(s, p, Class::Digit, partial) {
        Ok(d) => {
            if d == s.len() {
                if partial {
                    Err(ParseError::Incomplete)
                } else {
                    Ok(d)
                }
            } else if s[d] == 46 {
                if d + 1 == s.len() {
                    if partial {
                        Err(ParseError::Incomplete)
                    } else {
                        Ok(d + 1)
                    }
                } else if in_class_exec(Class::Digit, s[d + 1]) {
                    take_while0(s, d + 1, Class::Digit, partial)
                } else {
                    Ok(d + 1)
                }
            } else {
                Ok(d)
            }
        },
        Err(ParseError::Mismatch) => {
            let dot: Vec<u8> = vec![46u8];
            assert(dot@ =~= seq![46u8]);
            match literal(s, p, dot.as_slice(), false, partial) {
                Ok(d) => take_while1(s, d, Class::Digit, partial),
                Err(k) => Err(k),
            }
        },
        Err(k) => Err(k),
    }
}

fn take_float(s: &[u8], pos: usize, partial: bool) -> (r: Result<usize, ParseError>)
    requires
        pos <= s@.len(),
    ensures
        lifts(r, float_spec(s@, pos as int, partial)),
        r is Ok ==> pos <= r->Ok_0 <= s@.len(),
{
    let p = opt_sign(s, pos, partial)?;
    let q = mantissa(s, p, partial)?;
    if q == s.len() {
        return if partial {
            Err(ParseError::Incomplete)
        } else {
            Ok(q)
        };
    }
    if s[q] != 101 && s[q] != 69 {
        return Ok(q);
    }
    let x = opt_sign(s, q + 1, partial)?;
    match take_while1(s, x, Class::Digit, partial) {
        Ok(e) => Ok(e),
        Err(ParseError::Mismatch) => Err(ParseError::Cut),
        Err(k) => Err(k),
    }
}

/// A number (see `number_spec`); gives its text and its end.
pub fn number(s: &[u8], pos: usize, partial: bool) -> (r: Result<(Vec<u8>, usize), ParseError>)
    requires
        pos <= s@.len(),
    ensures
        match r {
            Ok((text, e)) => number_spec(s@, pos as int, partial) == Ok::<int, ParseError>(e as int)
                && pos < e <= s@.len() && text@ == s@.subrange(pos as int, e as int),
            Err(k) => number_spec(s@, pos as int, partial) == Err::<int, ParseError>(k),
        },
{
    let nan: Vec<u8> = vec![110u8, 97u8, 110u8];
    let inf: Vec<u8> = vec![105u8, 110u8, 102u8];
    let infinity: Vec<u8> = vec![105u8, 110u8, 102u8, 105u8, 110u8, 105u8, 116u8, 121u8];
    assert(nan@ =~= nan_text());
    assert(inf@ =~= inf_text());
    assert(infinity@ =~= infinity_text());
    let e = match take_float(s, pos, partial) {
        Ok(e) => e,
        Err(ParseError::Mismatch) => {
            match literal(s, pos, nan.as_slice(), true, partial) {
                Ok(e) => e,
                Err(ParseError::Mismatch) => {
                    let p = opt_sign(s, pos, partial)?;
                    match literal(s, p, infinity.as_slice(), true, partial) {
                        Ok(e) => e,
                        Err(ParseError::Mismatch) => {
                            let p2 = opt_sign(s, pos, partial)?;
                            literal(s, p2, inf.as_slice(), true, partial)?
                        },
                        Err(k) => {
                            return Err(k);
                        },
                    }
                },
                Err(k) => {
                    return Err(k);
                },
            }
        },
        Err(k) => {
            return Err(k);
        },
    };
    if e <= pos {
        return Err(ParseError::Mismatch);
    }
    Ok((copy_range(s, pos, e), e))
}

/// The bytes of `NULL`.
pub open spec fn null_text() -> Seq<u8> {
    seq![78u8, 85u8, 76u8, 76u8]
}

/// The literal `NULL`.
pub fn null(s: &[u8], pos: usize, partial: bool) -> (r: Result<usize, ParseError>)
    requires
        pos <= s@.len(),
    ensures
        lifts(r, literal_spec(s@, pos as int, null_text(), false, partial)),
{
    let lit: Vec<u8> = vec![78u8, 85u8, 76u8, 76u8];
    assert(lit@ =~= null_text());
    literal(s, pos, lit.as_slice(), false, partial)
}

/// The order in which comparison operators are tried: two-character and
/// two-word spellings before their one-part prefixes.
pub open spec fn op_order() -> Seq<CompOp> {
    seq![
        CompOp::NotEqual,
        CompOp::LessThanOrEqual,
        CompOp::GreaterThanOrEqual,
        CompOp::IsNot,
        CompOp::Is,
        CompOp::Like,
        CompOp::NotLike,
        CompOp::LessThan,
        CompOp::GreaterThan,
        CompOp::Equal,
    ]
}

/// How an operator is spelled: `<>`, `<=`, `>=`, `is not`, `is`, `like`,
/// `not like`, `<`, `>`, `=`.
pub open spec fn op_text(op: CompOp) -> Seq<u8> {
    match op {
        CompOp::NotEqual => seq![60u8, 62u8],
        CompOp::LessThanOrEqual => seq![60u8, 61u8],
        CompOp::GreaterThanOrEqual => seq![62u8, 61u8],
        CompOp::IsNot => seq![105u8, 115u8, 32u8, 110u8, 111u8, 116u8],
        CompOp::Is => seq![105u8, 115u8],
        CompOp::Like => seq![108u8, 105u8, 107u8, 101u8],
        CompOp::NotLike => seq![110u8, 111u8, 116u8, 32u8, 108u8, 105u8, 107u8, 101u8],
        CompOp::LessThan => seq![60u8],
        CompOp::GreaterThan => seq![62u8],
        CompOp::Equal => seq![61u8],
    }
}

/// Word operators match regardless of case.
pub open spec fn op_caseless(op: CompOp) -> bool {
    op == CompOp::IsNot || op == CompOp::Is || op == CompOp::Like || op == CompOp::NotLike
}

pub open spec fn op_match(s: Seq<u8>, pos: int, op: CompOp, partial: bool) -> Result<int, ParseError> {
    literal_spec(s, pos, op_text(op), op_caseless(op), partial)
}

/// Trying the operators in order: the first whose match is not a plain
/// mismatch decides.
pub open spec fn comparison_op_spec(s: Seq<u8>, pos: int, partial: bool, i: int) -> Result<
    (CompOp, int),
    ParseError,
>
    decreases 10 - i,
{
    if i >= 10 || i < 0 {
        Err(ParseError::Mismatch)
    } else {
        match op_match(s, pos, op_order()[i], partial) {
            Ok(e) => Ok((op_order()[i], e)),
            Err(ParseError::Mismatch) => comparison_op_spec(s, pos, partial, i + 1),
            Err(k) => Err(k),
        }
    }
}

fn op_text_exec(op: CompOp) -> (r: Vec<u8>)
    ensures
        r@ == op_text(op),
{
    let r = match op {
        CompOp::NotEqual => vec![60u8, 62u8],
        CompOp::LessThanOrEqual => vec![60u8, 61u8],
        CompOp::GreaterThanOrEqual => vec![62u8, 61u8],
        CompOp::IsNot => vec![105u8, 115u8, 32u8, 110u8, 111u8, 116u8],
        CompOp::Is => vec![105u8, 115u8],
        CompOp::Like => vec![108u8, 105u8, 107u8, 101u8],
        CompOp::NotLike => vec![110u8, 111u8, 116u8, 32u8, 108u8, 105u8, 107u8, 101u8],
        CompOp::LessThan => vec![60u8],
        CompOp::GreaterThan => vec![62u8],
        CompOp::Equal => vec![61u8],
    };
    assert(r@ =~= op_text(op));
    r
}

fn op_order_exec() -> (r: Vec<CompOp>)
    ensures
        r@ == op_order(),
{
    let r = vec![
        CompOp::NotEqual,
        CompOp::LessThanOrEqual,
        CompOp::GreaterThanOrEqual,
        CompOp::IsNot,
        CompOp::Is,
        CompOp::Like,
        CompOp::NotLike,
        CompOp::LessThan,
        CompOp::GreaterThan,
        CompOp::Equal,
    ];
    assert(r@ =~= op_order());
    r
}

/// A comparison operator, tried in `op_order`.
pub fn comparison_op(s: &[u8], pos: usize, partial: bool) -> (r: Result<(CompOp, usize), ParseError>)
    requires
        pos <= s@.len(),
    ensures
        match r {
            Ok((op, e)) => comparison_op_spec(s@, pos as int, partial, 0) == Ok::<
                (CompOp, int),
                ParseError,
            >((op, e as int)) && pos <= e <= s@.len(),
            Err(k) => comparison_op_spec(s@, pos as int, partial, 0) == Err::<(CompOp, int), ParseError>(
                k,
            ) && k != ParseError::Cut,
        },
{
    let order = op_order_exec();
    let mut i: usize = 0;
    while i < 10
        invariant
            i <= 10,
            order@ == op_order(),
            pos <= s@.len(),
            comparison_op_spec(s@, pos as int, partial, 0) == comparison_op_spec(
                s@,
                pos as int,
                partial,
                i as int,
            ),
        decreases 10 - i,
    {
        let op = order[i];
        let text = op_text_exec(op);
        let caseless = op == CompOp::IsNot || op == CompOp::Is || op == CompOp::Like || op
            == CompOp::NotLike;
        match literal(s, pos, text.as_slice(), caseless, partial) {
            Ok(e) => {
                return Ok((op, e));
            },
            Err(ParseError::Mismatch) => {},
            Err(k) => {
                return Err(k);
            },
        }
        i += 1;
    }
    Err(ParseError::Mismatch)
}

/// A comparison operator with optional whitespace around it.
pub open spec fn spaced_op_spec(s: Seq<u8>, pos: int, partial: bool) -> Result<(CompOp, int), ParseError> {
    match take_while0_spec(s, pos, Class::Space, partial) {
        Err(k) => Err(k),
        Ok(p) => match comparison_op_spec(s, p, partial, 0) {
            Err(k) => Err(k),
            Ok((op, q)) => match take_while0_spec(s, q, Class::Space, partial) {
                Err(k) => Err(k),
                Ok(e) => Ok((op, e)),
            },
        },
    }
}

pub fn spaced_comparison_op(s: &[u8], pos: usize, partial: bool) -> (r: Result<
    (CompOp, usize),
    ParseError,
>)
    requires
        pos <= s@.len(),
    ensures
        match r {
            Ok((_, e)) => pos <= e <= s@.len(),
            Err(k) => k != ParseError::Cut,
        },
        match r {
            Ok((op, e)) => spaced_op_spec(s@, pos as int, partial) == Ok::<(CompOp, int), ParseError>((op, e as int)),
            Err(k) => spaced_op_spec(s@, pos as int, partial) == Err::<(CompOp, int), ParseError>(k),
        },
{
    let p = multispace0(s, pos, partial)?;
    let (op, q) = comparison_op(s, p, partial)?;
    let e = multispace0(s, q, partial)?;
    Ok((op, e))
}

} // verus!
