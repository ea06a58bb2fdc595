use vstd::prelude::*;

use crate::lexer::{agrees, literal_spec, ParseError};
use crate::names::{choice_spec, pick};

verus! {

/// A literal that matches in a complete input is, on any prefix of that
/// input that is still open, matched or `Incomplete`, never a mismatch.
pub proof fn lemma_literal_prefix_not_failed(
    s: Seq<u8>,
    pos: int,
    lit: Seq<u8>,
    caseless: bool,
    m: int,
)
    requires
        0 <= pos <= m <= s.len(),
        literal_spec(s, pos, lit, caseless, false) is Ok,
    ensures
        literal_spec(s.subrange(0, m), pos, lit, caseless, true) is Ok || literal_spec(
            s.subrange(0, m),
            pos,
            lit,
            caseless,
            true,
        ) == Err::<int, ParseError>(ParseError::Incomplete),
{
    let p = s.subrange(0, m);
    if pos + lit.len() <= m {
        assert(agrees(p, pos, lit, lit.len() as int, caseless)) by {
            assert forall|i: int| 0 <= i < lit.len() implies crate::lexer::same_byte(
                p[pos + i],
                #[trigger] lit[i],
                caseless,
            ) by {
                assert(p[pos + i] == s[pos + i]);
            }
        }
    } else {
        assert(agrees(p, pos, lit, m - pos, caseless)) by {
            assert forall|i: int| 0 <= i < m - pos implies crate::lexer::same_byte(
                p[pos + i],
                #[trigger] lit[i],
                caseless,
            ) by {
                assert(p[pos + i] == s[pos + i]);
            }
        }
    }
}

/// A literal that plainly mismatches an open input mismatches every
/// extension of it, open or complete.
pub proof fn lemma_literal_mismatch_sticks(
    p: Seq<u8>,
    x: Seq<u8>,
    pos: int,
    lit: Seq<u8>,
    caseless: bool,
    partial: bool,
)
    requires
        0 <= pos <= p.len(),
        literal_spec(p, pos, lit, caseless, true) == Err::<int, ParseError>(ParseError::Mismatch),
    ensures
        literal_spec(p + x, pos, lit, caseless, partial) == Err::<int, ParseError>(
            ParseError::Mismatch,
        ),
{
    let s = p + x;
    let n = if p.len() < pos + lit.len() {
        p.len() - pos
    } else {
        lit.len() as int
    };
    // some byte within what `p` holds disagrees
    assert(!agrees(p, pos, lit, n, caseless));
    let i = choose|i: int| 0 <= i < n && !crate::lexer::same_byte(p[pos + i], lit[i], caseless);
    assert(s[pos + i] == p[pos + i]);
    assert(!agrees(s, pos, lit, lit.len() as int, caseless));
    if s.len() < pos + lit.len() {
        assert(i < s.len() - pos);
        assert(!agrees(s, pos, lit, s.len() - pos, caseless));
    }
}

proof fn lemma_pick_some(c: Seq<Seq<u8>>, s: Seq<u8>, pos: int, partial: bool, n: int, k: int)
    requires
        0 <= k < n <= c.len(),
        literal_spec(s, pos, c[k], true, partial) != Err::<int, ParseError>(ParseError::Mismatch),
    ensures
        pick(c, s, pos, partial, n) is Some,
    decreases n,
{
    if k < n - 1 {
        lemma_pick_some(c, s, pos, partial, n - 1, k);
    }
}

proof fn lemma_pick_none(c: Seq<Seq<u8>>, s: Seq<u8>, pos: int, partial: bool, n: int)
    requires
        0 <= n <= c.len(),
        pick(c, s, pos, partial, n) is None,
    ensures
        forall|k: int|
            0 <= k < n ==> literal_spec(s, pos, #[trigger] c[k], true, partial) == Err::<
                int,
                ParseError,
            >(ParseError::Mismatch),
    decreases n,
{
    if n > 0 {
        lemma_pick_none(c, s, pos, partial, n - 1);
    }
}

proof fn lemma_pick_result(c: Seq<Seq<u8>>, s: Seq<u8>, pos: int, partial: bool, n: int)
    requires
        0 <= n <= c.len(),
    ensures
        match pick(c, s, pos, partial, n) {
            Some(j) => 0 <= j < n && literal_spec(s, pos, c[j], true, partial) != Err::<
                int,
                ParseError,
            >(ParseError::Mismatch),
            None => true,
        },
    decreases n,
{
    if n > 0 {
        lemma_pick_result(c, s, pos, partial, n - 1);
    }
}

/// A longest-first choice that succeeds in a complete input is, on any
/// prefix of that input that is still open, a success or `Incomplete`.
pub proof fn lemma_choice_prefix_not_failed(c: Seq<Seq<u8>>, s: Seq<u8>, pos: int, m: int)
    requires
        0 <= pos <= m <= s.len(),
        choice_spec(c, s, pos, false) is Ok,
    ensures
        choice_spec(c, s.subrange(0, m), pos, true) is Ok || choice_spec(
            c,
            s.subrange(0, m),
            pos,
            true,
        ) == Err::<(int, int), ParseError>(ParseError::Incomplete),
{
    let p = s.subrange(0, m);
    lemma_pick_result(c, s, pos, false, c.len() as int);
    let j = pick(c, s, pos, false, c.len() as int)->Some_0;
    lemma_literal_prefix_not_failed(s, pos, c[j], true, m);
    lemma_pick_some(c, p, pos, true, c.len() as int, j);
    lemma_pick_result(c, p, pos, true, c.len() as int);
}

/// A longest-first choice that plainly fails on an open input fails on
/// every extension of it.
pub proof fn lemma_choice_mismatch_sticks(
    c: Seq<Seq<u8>>,
    p: Seq<u8>,
    x: Seq<u8>,
    pos: int,
    partial: bool,
)
    requires
        0 <= pos <= p.len(),
        choice_spec(c, p, pos, true) == Err::<(int, int), ParseError>(ParseError::Mismatch),
    ensures
        choice_spec(c, p + x, pos, partial) == Err::<(int, int), ParseError>(ParseError::Mismatch),
{
    lemma_pick_result(c, p, pos, true, c.len() as int);
    if pick(c, p, pos, true, c.len() as int) is Some {
        let j = pick(c, p, pos, true, c.len() as int)->Some_0;
        assert(literal_spec(p, pos, c[j], true, true) is Err);
        assert(false);
    }
    lemma_pick_none(c, p, pos, true, c.len() as int);
    if pick(c, p + x, pos, partial, c.len() as int) is Some {
        lemma_pick_result(c, p + x, pos, partial, c.len() as int);
        let j = pick(c, p + x, pos, partial, c.len() as int)->Some_0;
        lemma_literal_mismatch_sticks(p, x, pos, c[j], true, partial);
    }
}

} // verus!
