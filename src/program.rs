use vstd::prelude::*;

use crate::domain::{Line, SchemaView, SqlSchema};
use crate::lexer::{dec_digits, literal, literal_spec, usize_digits, ParseError};
use crate::ops::{op_end_spec, operation};
use crate::state::{distinct_names, QplState};

verus! {

/// Lines `1..=current_idx` are exactly the completed ones, and line `i + 1`
/// is bound, in order, to a derived table without repeated column names.
pub open spec fn state_wf(st: QplState) -> bool {
    &&& st.seen@.len() == st.current_idx
    &&& forall|i: int| 0 <= i < st.seen@.len() ==> #[trigger] st.seen@[i] == i + 1
    &&& st.idx_to_table@.len() == st.current_idx
    &&& forall|i: int|
        0 <= i < st.idx_to_table@.len() ==> (#[trigger] st.idx_to_table@[i]).0 == i + 1
            && distinct_names(st.idx_to_table@[i].1.columns_spec())
}

/// Lines are numbered `1, 2, …, n` in order, and each reads only earlier lines.
pub open spec fn lines_indexed(lines: Seq<Line>) -> bool {
    forall|i: int|
        0 <= i < lines.len() ==> (#[trigger] lines[i]).idx == i + 1 && forall|j: int|
            0 <= j < lines[i].operation.inputs_spec().len() ==> 1 <= #[trigger] lines[i].operation.inputs_spec()[j]
                < lines[i].idx
}

proof fn lemma_seen_below(st: QplState, k: usize)
    requires
        state_wf(st),
        st.has_seen(k),
    ensures
        1 <= k <= st.current_idx,
{
    let i = choose|i: int| 0 <= i < st.seen@.len() && st.seen@[i] == k;
    assert(st.seen@[i] == i + 1);
}

/// `#<k> = `.
pub open spec fn line_prefix(k: nat) -> Seq<u8> {
    seq![35u8] + dec_digits(k) + seq![32u8, 61u8, 32u8]
}

/// A line after the completed ones: `#<k> = ` with `k` the next index, then
/// an operation parsed while line `k` is the current one; its end.
pub open spec fn line_spec(st: QplState, sv: SchemaView, tc: bool, s: Seq<u8>, pos: int, partial: bool) -> Result<int, ParseError> {
    if st.current_idx == usize::MAX {
        Err(ParseError::Mismatch)
    } else {
        let k = (st.current_idx + 1) as usize;
        match literal_spec(s, pos, line_prefix(k as nat), false, partial) {
            Err(x) => Err(x),
            Ok(p) => op_end_spec(
                QplState { current_idx: k, seen: st.seen, idx_to_table: st.idx_to_table },
                sv,
                tc,
                s,
                p,
                partial,
                0,
            ),
        }
    }
}

/// One line `#<k> = <operation>` where `k` follows the last completed line;
/// on success the line is completed and its derived table bound.
pub fn qpl_line(st: &mut QplState, sc: &SqlSchema, tc: bool, s: &[u8], pos: usize, partial: bool) -> (r:
    Result<(Line, usize), ParseError>)
    requires
        pos <= s@.len(),
        sc.wf(),
        state_wf(*old(st)),
    ensures
        match r {
            Ok((line, e)) => pos <= e <= s@.len() && line.idx == old(st).current_idx + 1
                && final(st).current_idx == line.idx && state_wf(*final(st)) && forall|j: int|
                0 <= j < line.operation.inputs_spec().len() ==> 1 <= #[trigger] line.operation.inputs_spec()[j]
                    < line.idx,
            Err(_) => true,
        },
        match r {
            Ok((_, e)) => line_spec(*old(st), sc@, tc, s@, pos as int, partial) == Ok::<int, ParseError>(e as int),
            Err(x) => line_spec(*old(st), sc@, tc, s@, pos as int, partial) == Err::<int, ParseError>(x),
        },
        // earlier lines keep their tables; a failed line changes nothing
        r is Ok ==> final(st).idx_to_table@.drop_last() == old(st).idx_to_table@ && final(st).seen@
            == old(st).seen@.push(final(st).current_idx),
        r is Err ==> final(st).current_idx == old(st).current_idx && final(st).seen@ == old(
            st,
        ).seen@ && final(st).idx_to_table@ == old(st).idx_to_table@,
{
    if st.current_idx == usize::MAX {
        return Err(ParseError::Mismatch);
    }
    let k = st.current_idx + 1;
    let mut prefix: Vec<u8> = vec![35u8];
    let digits = usize_digits(k);
    let mut i: usize = 0;
    while i < digits.len()
        invariant
            i <= digits@.len(),
            prefix@ == seq![35u8] + digits@.subrange(0, i as int),
        decreases digits@.len() - i,
    {
        prefix.push(digits[i]);
        assert(prefix@ =~= seq![35u8] + digits@.subrange(0, i + 1));
        i += 1;
    }
    prefix.push(32u8);
    prefix.push(61u8);
    prefix.push(32u8);
    assert(digits@.subrange(0, digits@.len() as int) =~= digits@);
    assert(prefix@ =~= line_prefix(k as nat));
    let p = literal(s, pos, prefix.as_slice(), false, partial)?;
    let ghost before = *st;
    let previous = st.current_idx;
    // the line being parsed
    st.current_idx = k;
    assert(*st == QplState { current_idx: k, seen: before.seen, idx_to_table: before.idx_to_table });
    let (op, table, e) = match operation(st, sc, tc, s, p, partial) {
        Ok(v) => v,
        Err(err) => {
            st.current_idx = previous;
            return Err(err);
        },
    };
    proof {
        assert forall|j: int| 0 <= j < op.inputs_spec().len() implies 1 <= #[trigger] op.inputs_spec()[j]
            < k by {
            assert(before.has_seen(op.inputs_spec()[j]));
            lemma_seen_below(before, op.inputs_spec()[j]);
        }
    }
    st.bind(k, table);
    st.mark_seen(k);
    assert(st.idx_to_table@.drop_last() =~= before.idx_to_table@);
    proof {
        assert forall|i: int| 0 <= i < st.idx_to_table@.len() implies (#[trigger] st.idx_to_table@[i]).0
            == i + 1 && distinct_names(st.idx_to_table@[i].1.columns_spec()) by {
            if i < before.idx_to_table@.len() {
                assert(st.idx_to_table@[i] == before.idx_to_table@[i]);
            }
        }
        assert forall|i: int| 0 <= i < st.seen@.len() implies #[trigger] st.seen@[i] == i + 1 by {
            if i < before.seen@.len() {
                assert(st.seen@[i] == before.seen@[i]);
            }
        }
    }
    Ok((Line { idx: k, operation: op }, e))
}

/// A program: lines separated by exactly ` ; `, then the end of the input.
pub fn qpl(st: &mut QplState, sc: &SqlSchema, tc: bool, s: &[u8], pos: usize, partial: bool) -> (r:
    Result<Vec<Line>, ParseError>)
    requires
        pos <= s@.len(),
        sc.wf(),
        state_wf(*old(st)),
        old(st).current_idx == 0,
    ensures
        match r {
            Ok(lines) => lines@.len() >= 1 && lines_indexed(lines@) && state_wf(*final(st))
                && final(st).current_idx == lines@.len() && !partial,
            Err(_) => true,
        },
{
    let sep: Vec<u8> = vec![32u8, 59u8, 32u8];
    let (first, first_end) = qpl_line(st, sc, tc, s, pos, partial)?;
    let mut lines: Vec<Line> = vec![first];
    let mut p = first_end;
    loop
        invariant
            pos <= p <= s@.len(),
            sc.wf(),
            state_wf(*st),
            st.current_idx == lines@.len(),
            lines@.len() >= 1,
            lines_indexed(lines@),
            sep@ == seq![32u8, 59u8, 32u8],
        decreases s@.len() - p,
    {
        let q = match literal(s, p, sep.as_slice(), false, partial) {
            Ok(q) => q,
            Err(ParseError::Mismatch) => {
                // the end of a partial input would have been `Incomplete`
                return if p == s.len() {
                    Ok(lines)
                } else {
                    Err(ParseError::Mismatch)
                };
            },
            Err(k) => {
                return Err(k);
            },
        };
        if q <= p {
            return Err(ParseError::Cut);
        }
        let ghost n = lines@.len();
        match qpl_line(st, sc, tc, s, q, partial) {
            Ok((line, e)) => {
                let ghost before = lines@;
                lines.push(line);
                proof {
                    assert forall|i: int| 0 <= i < lines@.len() implies (#[trigger] lines@[i]).idx == i + 1
                        && forall|j: int|
                        0 <= j < lines@[i].operation.inputs_spec().len() ==> 1
                            <= #[trigger] lines@[i].operation.inputs_spec()[j] < lines@[i].idx by {
                        if i < n {
                            assert(lines@[i] == before[i]);
                        }
                    }
                }
                p = e;
            },
            Err(ParseError::Mismatch) => {
                return Err(ParseError::Mismatch);
            },
            Err(k) => {
                return Err(k);
            },
        }
    }
}

} // verus!
