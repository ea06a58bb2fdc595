use vstd::prelude::*;

use crate::domain::{columns_view, copy_bytes, dummy_name, names_view, Column, ColumnView, SchemaView, SqlSchema};
use crate::lexer::{copy_range, literal, literal_spec, multispace0, take_while0_spec, Class, ParseError};
use crate::names::{column_in_table, column_in_table_spec, column_name, is_agg_name, name_choice_spec};
use crate::shared::{
    aliased_column, column_in_index, column_in_index_spec, indexed_column, indexed_column_spec,
    list_sep, list_sep_spec,
};
use crate::state::{
    aliases_of, count_star_name, line_first, names_at, synthesize, synthesized, table_at, QplState,
};

verus! {

/// Every column is the dummy, an aggregate result, or carries the name of a
/// column of one of the `inputs`.
pub open spec fn provenance_ok(st: QplState, inputs: Seq<usize>, cs: Seq<ColumnView>) -> bool {
    forall|i: int|
        0 <= i < cs.len() ==> (#[trigger] cs[i] is Dummy || is_agg_name(cs[i].name()) || exists|
            j: int,
        |
            0 <= j < inputs.len() && names_at(st, inputs[j]).contains(cs[i].name()))
}

proof fn lemma_synthesized_named(out: Seq<u8>)
    requires
        synthesized(out) is Some,
    ensures
        synthesized(out)->Some_0 is Dummy || is_agg_name(synthesized(out)->Some_0.name()),
{
    let n = count_star_name();
    assert(n.subrange(0, 6) =~= seq![67u8, 111u8, 117u8, 110u8, 116u8, 95u8]);
}

/// Line `k` has a derived table with a column named `out`.
pub open spec fn line_has(st: QplState, k: usize, out: Seq<u8>) -> bool {
    names_at(st, k).contains(out)
}

/// `c` is one of the columns of line `k`'s derived table.
pub open spec fn column_of_line(st: QplState, k: usize, c: ColumnView) -> bool {
    match table_at(st.idx_to_table@, k) {
        Some(t) => t.columns_spec().contains(c),
        None => false,
    }
}

/// An output spelling can be derived over `inputs`: it is synthesized, or
/// some input line has a column of that name.
pub open spec fn derivable(st: QplState, inputs: Seq<usize>, out: Seq<u8>) -> bool {
    synthesized(out) is Some || exists|j: int| 0 <= j < inputs.len() && line_has(st, inputs[j], out)
}

/// The first column named `out` among the input lines from the `j`-th on,
/// input lines in order.
pub open spec fn first_in_inputs(st: QplState, inputs: Seq<usize>, out: Seq<u8>, j: int) -> Option<ColumnView>
    decreases inputs.len() - j,
{
    if j < 0 || j >= inputs.len() {
        None
    } else {
        match line_first(st, inputs[j], out) {
            Some(c) => Some(c),
            None => first_in_inputs(st, inputs, out, j + 1),
        }
    }
}

/// `c` is the column derived for `out`: the synthesized one, or a copy of the
/// first column named `out` among the input lines (in order), with its type
/// and keys.
pub open spec fn derived_column(st: QplState, inputs: Seq<usize>, out: Seq<u8>, c: ColumnView) -> bool {
    match synthesized(out) {
        Some(x) => c == x,
        None => c.name() == out && (exists|j: int|
            0 <= j < inputs.len() && column_of_line(st, inputs[j], c)) && first_in_inputs(st, inputs, out, 0) == Some(c),
    }
}

/// The derived column for each output name: a synthesized one, or a copy of
/// the first column so named among the `inputs` (in order). `None` exactly
/// when some name is neither synthesized nor found.
pub(crate) fn derive_from_names(st: &QplState, inputs: &Vec<usize>, outs: &Vec<Vec<u8>>) -> (r: Option<
    Vec<Column>,
>)
    ensures
        r is Some <==> forall|k: int| 0 <= k < outs@.len() ==> derivable(*st, inputs@, #[trigger] outs@[k]@),
        match r {
            Some(cs) => cs@.len() == outs@.len() && provenance_ok(*st, inputs@, columns_view(cs@))
                && forall|k: int|
                0 <= k < cs@.len() ==> derived_column(*st, inputs@, outs@[k]@, #[trigger] cs@[k]@),
            None => true,
        },
{
    let mut cols: Vec<Column> = Vec::new();
    let mut i: usize = 0;
    while i < outs.len()
        invariant
            i <= outs@.len(),
            cols@.len() == i,
            provenance_ok(*st, inputs@, columns_view(cols@)),
            forall|k: int| 0 <= k < i ==> derivable(*st, inputs@, #[trigger] outs@[k]@),
            forall|k: int| 0 <= k < i ==> derived_column(*st, inputs@, outs@[k]@, #[trigger] cols@[k]@),
        decreases outs@.len() - i,
    {
        let out = outs[i].as_slice();
        let c = match synthesize(out) {
            Some(c) => {
                proof {
                    lemma_synthesized_named(out@);
                }
                c
            },
            None => {
                let mut found: Option<Column> = None;
                let mut j: usize = 0;
                while j < inputs.len()
                    invariant
                        j <= inputs@.len(),
                        synthesized(out@) is None,
                        match found {
                            Some(c) => c@.name() == out@ && (exists|jj: int|
                                0 <= jj < inputs@.len() && line_has(*st, inputs@[jj], out@)
                                    && column_of_line(*st, inputs@[jj], c@)) && first_in_inputs(*st, inputs@, out@, 0) == Some(c@),
                            None => (forall|jj: int|
                                0 <= jj < j ==> !line_has(*st, #[trigger] inputs@[jj], out@))
                                && first_in_inputs(*st, inputs@, out@, 0) == first_in_inputs(*st, inputs@, out@, j as int),
                        },
                    decreases inputs@.len() - j,
                {
                    if found.is_none() {
                        match st.get_table(inputs[j]) {
                            Some(t) => {
                                match crate::state::find_named_column(t, out) {
                                    Some(c) => {
                                        assert(line_has(*st, inputs@[j as int], out@));
                                        assert(column_of_line(*st, inputs@[j as int], c@));
                                        found = Some(c);
                                    },
                                    None => {
                                        assert(!line_has(*st, inputs@[j as int], out@));
                                        assert(line_first(*st, inputs@[j as int], out@) is None);
                                    },
                                }
                            },
                            None => {
                                assert(names_at(*st, inputs@[j as int]) =~= Seq::<Seq<u8>>::empty());
                                assert(!line_has(*st, inputs@[j as int], out@));
                                assert(line_first(*st, inputs@[j as int], out@) is None);
                            },
                        }
                    }
                    j += 1;
                }
                match found {
                    Some(c) => c,
                    None => {
                        assert(!derivable(*st, inputs@, outs@[i as int]@));
                        return None;
                    },
                }
            },
        };
        let ghost before = cols@;
        cols.push(c);
        assert forall|m: int| 0 <= m < cols@.len() implies (#[trigger] columns_view(cols@)[m] is Dummy
            || is_agg_name(columns_view(cols@)[m].name()) || exists|j: int|
            0 <= j < inputs@.len() && names_at(*st, inputs@[j]).contains(
                columns_view(cols@)[m].name(),
            )) by {
            if m < i {
                assert(columns_view(cols@)[m] == columns_view(before)[m]);
            }
        }
        assert forall|k: int| 0 <= k < i + 1 implies derived_column(*st, inputs@, outs@[k]@, #[trigger] cols@[k]@) by {
            if k < i {
                assert(cols@[k] == before[k]);
            }
        }
        i += 1;
    }
    Some(cols)
}

/// A `#k.name` output can be derived: the name is synthesized, or `k` is an
/// input and line `k` has a column of that name.
pub open spec fn indexed_derivable(st: QplState, inputs: Seq<usize>, k: usize, out: Seq<u8>) -> bool {
    synthesized(out) is Some || (inputs.contains(k) && line_has(st, k, out))
}

/// `c` is the column derived for `#k.out`: the synthesized one, or a copy of
/// the first column of line `k` named `out`, with its type and keys.
pub open spec fn indexed_column_for(st: QplState, k: usize, out: Seq<u8>, c: ColumnView) -> bool {
    match synthesized(out) {
        Some(x) => c == x,
        None => c.name() == out && column_of_line(st, k, c) && line_first(st, k, out) == Some(c),
    }
}

/// The derived column for each `#k.name` output: a synthesized one, or a
/// copy of the first column so named in line `k`. `None` exactly when some
/// output is neither synthesized nor found.
pub(crate) fn derive_from_indexed(
    st: &QplState,
    inputs: &Vec<usize>,
    outs: &Vec<(usize, Vec<u8>)>,
) -> (r: Option<Vec<Column>>)
    ensures
        r is Some <==> forall|k: int|
            0 <= k < outs@.len() ==> indexed_derivable(*st, inputs@, (#[trigger] outs@[k]).0, outs@[k].1@),
        match r {
            Some(cs) => cs@.len() == outs@.len() && provenance_ok(*st, inputs@, columns_view(cs@))
                && forall|k: int|
                0 <= k < cs@.len() ==> indexed_column_for(*st, outs@[k].0, outs@[k].1@, #[trigger] cs@[k]@),
            None => true,
        },
{
    let mut cols: Vec<Column> = Vec::new();
    let mut i: usize = 0;
    while i < outs.len()
        invariant
            i <= outs@.len(),
            cols@.len() == i,
            provenance_ok(*st, inputs@, columns_view(cols@)),
            forall|k: int|
                0 <= k < i ==> indexed_derivable(*st, inputs@, (#[trigger] outs@[k]).0, outs@[k].1@),
            forall|k: int|
                0 <= k < i ==> indexed_column_for(*st, outs@[k].0, outs@[k].1@, #[trigger] cols@[k]@),
        decreases outs@.len() - i,
    {
        let (k, out) = (outs[i].0, outs[i].1.as_slice());
        let c = match synthesize(out) {
            Some(c) => {
                proof {
                    lemma_synthesized_named(out@);
                }
                c
            },
            None => {
                let mut pos_in: Option<usize> = None;
                let mut j: usize = 0;
                while j < inputs.len()
                    invariant
                        j <= inputs@.len(),
                        match pos_in {
                            Some(jj) => jj < inputs@.len() && inputs@[jj as int] == k,
                            None => forall|jj: int| 0 <= jj < j ==> inputs@[jj] != k,
                        },
                    decreases inputs@.len() - j,
                {
                    if inputs[j] == k {
                        pos_in = Some(j);
                    }
                    j += 1;
                }
                let jj = match pos_in {
                    Some(jj) => jj,
                    None => {
                        assert(!inputs@.contains(k));
                        assert(!indexed_derivable(*st, inputs@, outs@[i as int].0, outs@[i as int].1@));
                        return None;
                    },
                };
                match st.get_table(k) {
                    Some(t) => match crate::state::find_named_column(t, out) {
                        Some(c) => {
                            assert(names_at(*st, inputs@[jj as int]).contains(c@.name()));
                            assert(inputs@.contains(k));
                            assert(line_has(*st, k, out@));
                            c
                        },
                        None => {
                            assert(!line_has(*st, k, out@));
                            return None;
                        },
                    },
                    None => {
                        assert(names_at(*st, k) =~= Seq::<Seq<u8>>::empty());
                        assert(!line_has(*st, k, out@));
                        return None;
                    },
                }
            },
        };
        let ghost before = cols@;
        cols.push(c);
        assert forall|m: int| 0 <= m < cols@.len() implies (#[trigger] columns_view(cols@)[m] is Dummy
            || is_agg_name(columns_view(cols@)[m].name()) || exists|j: int|
            0 <= j < inputs@.len() && names_at(*st, inputs@[j]).contains(
                columns_view(cols@)[m].name(),
            )) by {
            if m < i {
                assert(columns_view(cols@)[m] == columns_view(before)[m]);
            }
        }
        assert forall|m: int| 0 <= m < i + 1 implies indexed_column_for(*st, outs@[m].0, outs@[m].1@, #[trigger] cols@[m]@) by {
            if m < i {
                assert(cols@[m] == before[m]);
            }
        }
        i += 1;
    }
    Some(cols)
}

/// The dummy output list `1 AS One`.
pub(crate) fn dummy_output(s: &[u8], pos: usize, partial: bool) -> (r: Result<usize, ParseError>)
    requires
        pos <= s@.len(),
    ensures
        match r {
            Ok(e) => pos <= e <= s@.len(),
            Err(k) => k != ParseError::Cut,
        },
        crate::lexer::lifts(r, literal_spec(s@, pos as int, dummy_name(), false, partial)),
{
    let d = dummy_bytes();
    literal(s, pos, d.as_slice(), false, partial)
}

pub(crate) fn dummy_bytes() -> (r: Vec<u8>)
    ensures
        r@ == dummy_name(),
{
    let r = vec![49u8, 32u8, 65u8, 83u8, 32u8, 79u8, 110u8, 101u8];
    assert(r@ =~= dummy_name());
    r
}

/// A name output: a schema column name, else an aggregate-result name.
pub open spec fn named_output_spec(st: QplState, sv: SchemaView, s: Seq<u8>, pos: int, partial: bool) -> Result<
    (Seq<u8>, int),
    ParseError,
> {
    match name_choice_spec(sv.column_names, s, pos, partial) {
        Err(ParseError::Mismatch) => name_choice_spec(aliases_of(st.idx_to_table@), s, pos, partial),
        other => other,
    }
}

/// Prepends the items found so far to the rest of a list.
pub open spec fn prepend(v: Seq<Seq<u8>>, r: Result<(Seq<Seq<u8>>, int), ParseError>) -> Result<
    (Seq<Seq<u8>>, int),
    ParseError,
> {
    match r {
        Ok((xs, f)) => Ok((v + xs, f)),
        Err(k) => Err(k),
    }
}

/// The rest of a list of name outputs after `p`: each further item follows
/// the list separator; the list ends where the separator or the item plainly
/// does not match.
pub open spec fn more_names(st: QplState, sv: SchemaView, s: Seq<u8>, p: int, partial: bool) -> Result<
    (Seq<Seq<u8>>, int),
    ParseError,
>
    decreases s.len() - p,
{
    if p < 0 || p > s.len() {
        Err(ParseError::Mismatch)
    } else {
        match list_sep_spec(s, p, partial) {
            Err(ParseError::Mismatch) => Ok((Seq::empty(), p)),
            Err(k) => Err(k),
            Ok(q) => if q <= p {
                Err(ParseError::Cut)
            } else {
                match named_output_spec(st, sv, s, q, partial) {
                    Ok((x, e)) => if e < q {
                        Err(ParseError::Cut)
                    } else {
                        prepend(seq![x], more_names(st, sv, s, e, partial))
                    },
                    Err(ParseError::Mismatch) => Ok((Seq::empty(), p)),
                    Err(k) => Err(k),
                }
            },
        }
    }
}

/// A comma-separated list of name outputs: the names and the end.
pub open spec fn name_outputs_spec(st: QplState, sv: SchemaView, s: Seq<u8>, pos: int, partial: bool) -> Result<
    (Seq<Seq<u8>>, int),
    ParseError,
> {
    match named_output_spec(st, sv, s, pos, partial) {
        Ok((x, e)) => if e < pos {
            Err(ParseError::Cut)
        } else {
            prepend(seq![x], more_names(st, sv, s, e, partial))
        },
        Err(k) => Err(k),
    }
}

fn named_output(st: &QplState, sc: &SqlSchema, s: &[u8], pos: usize, partial: bool) -> (r: Result<
    (Vec<u8>, usize),
    ParseError,
>)
    requires
        pos <= s@.len(),
    ensures
        match r {
            Ok((n, e)) => pos <= e <= s@.len() && named_output_spec(*st, sc@, s@, pos as int, partial)
                == Ok::<(Seq<u8>, int), ParseError>((n@, e as int)),
            Err(k) => k != ParseError::Cut && named_output_spec(*st, sc@, s@, pos as int, partial)
                == Err::<(Seq<u8>, int), ParseError>(k),
        },
{
    match column_name(sc, s, pos, partial) {
        Err(ParseError::Mismatch) => aliased_column(st, s, pos, partial),
        other => other,
    }
}

/// A comma-separated list of name outputs (see `name_outputs_spec`).
pub(crate) fn name_outputs(st: &QplState, sc: &SqlSchema, s: &[u8], pos: usize, partial: bool) -> (r:
    Result<(Vec<Vec<u8>>, usize), ParseError>)
    requires
        pos <= s@.len(),
    ensures
        match r {
            Ok((v, e)) => pos <= e <= s@.len() && name_outputs_spec(*st, sc@, s@, pos as int, partial)
                == Ok::<(Seq<Seq<u8>>, int), ParseError>((names_view(v@), e as int)),
            Err(k) => name_outputs_spec(*st, sc@, s@, pos as int, partial) == Err::<
                (Seq<Seq<u8>>, int),
                ParseError,
            >(k),
        },
{
    let (first, first_end) = named_output(st, sc, s, pos, partial)?;
    let ghost x0 = first@;
    let mut v: Vec<Vec<u8>> = vec![first];
    assert(names_view(v@) =~= seq![x0]);
    let mut p = first_end;
    loop
        invariant
            pos <= p <= s@.len(),
            name_outputs_spec(*st, sc@, s@, pos as int, partial) == prepend(
                names_view(v@),
                more_names(*st, sc@, s@, p as int, partial),
            ),
        decreases s@.len() - p,
    {
        let q = match list_sep(s, p, partial) {
            Ok(q) => q,
            Err(ParseError::Mismatch) => {
                assert(names_view(v@) + Seq::<Seq<u8>>::empty() =~= names_view(v@));
                return Ok((v, p));
            },
            Err(k) => {
                return Err(k);
            },
        };
        if q <= p {
            return Err(ParseError::Cut);
        }
        match named_output(st, sc, s, q, partial) {
            Ok((x, e)) => {
                let ghost old_v = names_view(v@);
                let ghost xv = x@;
                v.push(x);
                assert(names_view(v@) =~= old_v.push(xv));
                assert(prepend(old_v, prepend(seq![xv], more_names(*st, sc@, s@, e as int, partial)))
                    == prepend(names_view(v@), more_names(*st, sc@, s@, e as int, partial))) by {
                    match more_names(*st, sc@, s@, e as int, partial) {
                        Ok((xs, f)) => {
                            assert(old_v + (seq![xv] + xs) =~= old_v.push(xv) + xs);
                        },
                        Err(_) => {},
                    }
                }
                p = e;
            },
            Err(ParseError::Mismatch) => {
                assert(names_view(v@) + Seq::<Seq<u8>>::empty() =~= names_view(v@));
                return Ok((v, p));
            },
            Err(k) => {
                return Err(k);
            },
        }
    }
}

/// The model of a list of `#k.name` outputs.
pub open spec fn ix_view(v: Seq<(usize, Vec<u8>)>) -> Seq<(usize, Seq<u8>)> {
    v.map_values(|x: (usize, Vec<u8>)| (x.0, x.1@))
}

pub open spec fn prepend_ix(v: Seq<(usize, Seq<u8>)>, r: Result<(Seq<(usize, Seq<u8>)>, int), ParseError>) -> Result<
    (Seq<(usize, Seq<u8>)>, int),
    ParseError,
> {
    match r {
        Ok((xs, f)) => Ok((v + xs, f)),
        Err(k) => Err(k),
    }
}

/// The rest of a list of `#k.name` outputs after `p` (as for `more_names`).
pub open spec fn more_indexed(st: QplState, sv: SchemaView, inputs: Seq<usize>, s: Seq<u8>, p: int, partial: bool) -> Result<
    (Seq<(usize, Seq<u8>)>, int),
    ParseError,
>
    decreases s.len() - p,
{
    if p < 0 || p > s.len() {
        Err(ParseError::Mismatch)
    } else {
        match list_sep_spec(s, p, partial) {
            Err(ParseError::Mismatch) => Ok((Seq::empty(), p)),
            Err(x) => Err(x),
            Ok(q) => if q <= p {
                Err(ParseError::Cut)
            } else {
                match indexed_column_spec(st, sv, inputs, s, q, partial) {
                    Ok((x, e)) => if e < q {
                        Err(ParseError::Cut)
                    } else {
                        prepend_ix(seq![x], more_indexed(st, sv, inputs, s, e, partial))
                    },
                    Err(ParseError::Mismatch) => Ok((Seq::empty(), p)),
                    Err(x) => Err(x),
                }
            },
        }
    }
}

/// A comma-separated list of `#k.name` outputs over `inputs`.
pub open spec fn indexed_outputs_spec(st: QplState, sv: SchemaView, inputs: Seq<usize>, s: Seq<u8>, pos: int, partial: bool) -> Result<
    (Seq<(usize, Seq<u8>)>, int),
    ParseError,
> {
    match indexed_column_spec(st, sv, inputs, s, pos, partial) {
        Ok((x, e)) => if e < pos {
            Err(ParseError::Cut)
        } else {
            prepend_ix(seq![x], more_indexed(st, sv, inputs, s, e, partial))
        },
        Err(x) => Err(x),
    }
}

/// A comma-separated list of `#k.name` outputs over `inputs` (see
/// `indexed_outputs_spec`).
pub(crate) fn indexed_outputs(
    st: &QplState,
    sc: &SqlSchema,
    inputs: &Vec<usize>,
    s: &[u8],
    pos: usize,
    partial: bool,
) -> (r: Result<(Vec<(usize, Vec<u8>)>, usize), ParseError>)
    requires
        pos <= s@.len(),
    ensures
        match r {
            Ok((v, e)) => pos <= e <= s@.len() && indexed_outputs_spec(*st, sc@, inputs@, s@, pos as int, partial)
                == Ok::<(Seq<(usize, Seq<u8>)>, int), ParseError>((ix_view(v@), e as int)),
            Err(x) => indexed_outputs_spec(*st, sc@, inputs@, s@, pos as int, partial) == Err::<
                (Seq<(usize, Seq<u8>)>, int),
                ParseError,
            >(x),
        },
{
    let (first, first_end) = indexed_column(st, sc, inputs, s, pos, partial)?;
    let ghost x0 = (first.0, first.1@);
    let mut v: Vec<(usize, Vec<u8>)> = vec![first];
    assert(ix_view(v@) =~= seq![x0]);
    let mut p = first_end;
    loop
        invariant
            pos <= p <= s@.len(),
            indexed_outputs_spec(*st, sc@, inputs@, s@, pos as int, partial) == prepend_ix(
                ix_view(v@),
                more_indexed(*st, sc@, inputs@, s@, p as int, partial),
            ),
        decreases s@.len() - p,
    {
        let q = match list_sep(s, p, partial) {
            Ok(q) => q,
            Err(ParseError::Mismatch) => {
                assert(ix_view(v@) + Seq::<(usize, Seq<u8>)>::empty() =~= ix_view(v@));
                return Ok((v, p));
            },
            Err(x) => {
                return Err(x);
            },
        };
        if q <= p {
            return Err(ParseError::Cut);
        }
        match indexed_column(st, sc, inputs, s, q, partial) {
            Ok((x, e)) => {
                let ghost old_v = ix_view(v@);
                let ghost xv = (x.0, x.1@);
                v.push(x);
                assert(ix_view(v@) =~= old_v.push(xv));
                assert(prepend_ix(old_v, prepend_ix(seq![xv], more_indexed(*st, sc@, inputs@, s@, e as int, partial)))
                    == prepend_ix(ix_view(v@), more_indexed(*st, sc@, inputs@, s@, e as int, partial))) by {
                    match more_indexed(*st, sc@, inputs@, s@, e as int, partial) {
                        Ok((xs, f)) => {
                            assert(old_v + (seq![xv] + xs) =~= old_v.push(xv) + xs);
                        },
                        Err(_) => {},
                    }
                }
                p = e;
            },
            Err(ParseError::Mismatch) => {
                assert(ix_view(v@) + Seq::<(usize, Seq<u8>)>::empty() =~= ix_view(v@));
                return Ok((v, p));
            },
            Err(x) => {
                return Err(x);
            },
        }
    }
}

/// `1 AS One` (as a single output of no line), or a list of `#k.name`
/// outputs.
pub open spec fn indexed_or_dummy_spec(st: QplState, sv: SchemaView, inputs: Seq<usize>, s: Seq<u8>, pos: int, partial: bool) -> Result<
    (Seq<(usize, Seq<u8>)>, int),
    ParseError,
> {
    match literal_spec(s, pos, dummy_name(), false, partial) {
        Ok(e) => Ok((seq![(usize::MAX, dummy_name())], e)),
        Err(ParseError::Mismatch) => indexed_outputs_spec(st, sv, inputs, s, pos, partial),
        Err(x) => Err(x),
    }
}

/// `1 AS One`, or a list of `#k.name` outputs.
pub(crate) fn indexed_or_dummy(
    st: &QplState,
    sc: &SqlSchema,
    inputs: &Vec<usize>,
    s: &[u8],
    pos: usize,
    partial: bool,
) -> (r: Result<(Vec<(usize, Vec<u8>)>, usize), ParseError>)
    requires
        pos <= s@.len(),
    ensures
        match r {
            Ok((v, e)) => pos <= e <= s@.len() && indexed_or_dummy_spec(*st, sc@, inputs@, s@, pos as int, partial)
                == Ok::<(Seq<(usize, Seq<u8>)>, int), ParseError>((ix_view(v@), e as int)),
            Err(x) => indexed_or_dummy_spec(*st, sc@, inputs@, s@, pos as int, partial) == Err::<
                (Seq<(usize, Seq<u8>)>, int),
                ParseError,
            >(x),
        },
{
    match dummy_output(s, pos, partial) {
        Ok(e) => {
            let v = vec![(usize::MAX, dummy_bytes())];
            assert(ix_view(v@) =~= seq![(usize::MAX, dummy_name())]);
            Ok((v, e))
        },
        Err(ParseError::Mismatch) => indexed_outputs(st, sc, inputs, s, pos, partial),
        Err(k) => Err(k),
    }
}

/// A list of columns of table `t`, each optionally renamed: (name, alias,
/// The model of a scan output: the column name and the name it is shown
/// under (its alias, else itself).
pub open spec fn scan_item_view(x: (Vec<u8>, Option<Vec<u8>>, usize)) -> (Seq<u8>, Seq<u8>) {
    (
        x.0@,
        match x.1 {
            Some(a) => a@,
            None => x.0@,
        },
    )
}

/// The model of a list of scan outputs.
pub open spec fn scan_items_view(v: Seq<(Vec<u8>, Option<Vec<u8>>, usize)>) -> Seq<(Seq<u8>, Seq<u8>)> {
    v.map_values(|x: (Vec<u8>, Option<Vec<u8>>, usize)| scan_item_view(x))
}

/// One scan output: a column of table `t`, optionally ` AS <alias>`.
#[verifier::opaque]
pub open spec fn scan_item_spec(sv: SchemaView, t: usize, s: Seq<u8>, pos: int, partial: bool) -> Result<
    ((Seq<u8>, Seq<u8>), int),
    ParseError,
> {
    match column_in_table_spec(sv, t as int, s, pos, partial) {
        Ok((j, al, e)) => Ok(
            (
                (
                    sv.column_names[j],
                    match al {
                        Some((x, y)) => s.subrange(x, y),
                        None => sv.column_names[j],
                    },
                ),
                e,
            ),
        ),
        Err(k) => Err(k),
    }
}

pub open spec fn prepend_scan(v: Seq<(Seq<u8>, Seq<u8>)>, r: Result<(Seq<(Seq<u8>, Seq<u8>)>, int), ParseError>) -> Result<
    (Seq<(Seq<u8>, Seq<u8>)>, int),
    ParseError,
> {
    match r {
        Ok((xs, f)) => Ok((v + xs, f)),
        Err(k) => Err(k),
    }
}

/// The rest of a list of scan outputs after `p` (as for `more_names`).
pub open spec fn more_scan(sv: SchemaView, t: usize, s: Seq<u8>, p: int, partial: bool) -> Result<
    (Seq<(Seq<u8>, Seq<u8>)>, int),
    ParseError,
>
    decreases s.len() - p,
{
    if p < 0 || p > s.len() {
        Err(ParseError::Mismatch)
    } else {
        match list_sep_spec(s, p, partial) {
            Err(ParseError::Mismatch) => Ok((Seq::empty(), p)),
            Err(x) => Err(x),
            Ok(q) => if q <= p {
                Err(ParseError::Cut)
            } else {
                match scan_item_spec(sv, t, s, q, partial) {
                    Ok((x, e)) => if e < q || e > s.len() {
                        Err(ParseError::Cut)
                    } else {
                        prepend_scan(seq![x], more_scan(sv, t, s, e, partial))
                    },
                    Err(ParseError::Mismatch) => Ok((Seq::empty(), p)),
                    Err(x) => Err(x),
                }
            },
        }
    }
}

/// A comma-separated list of scan outputs over table `t`.
pub open spec fn scan_outputs_spec(sv: SchemaView, t: usize, s: Seq<u8>, pos: int, partial: bool) -> Result<
    (Seq<(Seq<u8>, Seq<u8>)>, int),
    ParseError,
> {
    match scan_item_spec(sv, t, s, pos, partial) {
        Ok((x, e)) => if e < pos {
            Err(ParseError::Cut)
        } else {
            prepend_scan(seq![x], more_scan(sv, t, s, e, partial))
        },
        Err(x) => Err(x),
    }
}

/// A list of columns of table `t`, each optionally renamed: (name, alias,
/// index of the table's first column of that name).
#[verifier::rlimit(80)]
pub(crate) fn scan_outputs(sc: &SqlSchema, t: usize, s: &[u8], pos: usize, partial: bool) -> (r: Result<
    (Vec<(Vec<u8>, Option<Vec<u8>>, usize)>, usize),
    ParseError,
>)
    requires
        pos <= s@.len(),
        sc.wf(),
    ensures
        match r {
            Ok((v, e)) => pos <= e <= s@.len() && (forall|i: int|
                0 <= i < v@.len() ==> (#[trigger] v@[i]).2 < sc@.column_types.len()
                    && crate::keys::find_column_spec(sc@, t as int, v@[i].0@) == Some(v@[i].2 as int))
                && scan_outputs_spec(sc@, t, s@, pos as int, partial) == Ok::<
                (Seq<(Seq<u8>, Seq<u8>)>, int),
                ParseError,
            >((scan_items_view(v@), e as int)),
            Err(x) => scan_outputs_spec(sc@, t, s@, pos as int, partial) == Err::<
                (Seq<(Seq<u8>, Seq<u8>)>, int),
                ParseError,
            >(x),
        },
{
    let (first, first_end) = scan_item(sc, t, s, pos, partial)?;
    let ghost x0 = scan_item_view(first);
    let mut v: Vec<(Vec<u8>, Option<Vec<u8>>, usize)> = vec![first];
    assert(scan_items_view(v@) =~= seq![x0]);
    let mut p = first_end;
    loop
        invariant
            pos <= p <= s@.len(),
            sc.wf(),
            forall|i: int|
                0 <= i < v@.len() ==> (#[trigger] v@[i]).2 < sc@.column_types.len()
                    && crate::keys::find_column_spec(sc@, t as int, v@[i].0@) == Some(v@[i].2 as int),
            scan_outputs_spec(sc@, t, s@, pos as int, partial) == prepend_scan(
                scan_items_view(v@),
                more_scan(sc@, t, s@, p as int, partial),
            ),
        decreases s@.len() - p,
    {
        let ghost vv = scan_items_view(v@);
        let q = match list_sep(s, p, partial) {
            Ok(q) => q,
            Err(ParseError::Mismatch) => {
                assert(vv + Seq::<(Seq<u8>, Seq<u8>)>::empty() =~= vv);
                return Ok((v, p));
            },
            Err(x) => {
                return Err(x);
            },
        };
        if q <= p {
            return Err(ParseError::Cut);
        }
        match scan_item(sc, t, s, q, partial) {
            Ok((x, e)) => {
                let ghost xv = scan_item_view(x);
                v.push(x);
                assert(scan_items_view(v@) =~= vv.push(xv));
                assert(prepend_scan(vv, prepend_scan(seq![xv], more_scan(sc@, t, s@, e as int, partial)))
                    == prepend_scan(vv.push(xv), more_scan(sc@, t, s@, e as int, partial))) by {
                    match more_scan(sc@, t, s@, e as int, partial) {
                        Ok((xs, f)) => {
                            assert(vv + (seq![xv] + xs) =~= vv.push(xv) + xs);
                        },
                        Err(_) => {},
                    }
                }
                p = e;
            },
            Err(ParseError::Mismatch) => {
                assert(vv + Seq::<(Seq<u8>, Seq<u8>)>::empty() =~= vv);
                return Ok((v, p));
            },
            Err(x) => {
                return Err(x);
            },
        }
    }
}

fn scan_item(sc: &SqlSchema, t: usize, s: &[u8], pos: usize, partial: bool) -> (r: Result<
    ((Vec<u8>, Option<Vec<u8>>, usize), usize),
    ParseError,
>)
    requires
        pos <= s@.len(),
        sc.wf(),
    ensures
        match r {
            Ok((x, e)) => pos <= e <= s@.len() && x.2 < sc@.column_types.len()
                && crate::keys::find_column_spec(sc@, t as int, x.0@) == Some(x.2 as int)
                && scan_item_spec(sc@, t, s@, pos as int, partial) == Ok::<((Seq<u8>, Seq<u8>), int), ParseError>(
                (scan_item_view(x), e as int),
            ),
            Err(k) => scan_item_spec(sc@, t, s@, pos as int, partial) == Err::<((Seq<u8>, Seq<u8>), int), ParseError>(k),
        },
{
    proof {
        reveal(scan_item_spec);
    }
    let (x, e) = column_in_table(sc, t, s, pos, partial)?;
    proof {
        crate::keys::lemma_find_column_some(sc@, t as int, x.0@, x.2 as int);
    }
    Ok((x, e))
}

/// A column of line `k`, by schema column name.
pub open spec fn index_column_spec(st: QplState, sv: SchemaView, k: usize, s: Seq<u8>, pos: int, partial: bool) -> Result<
    (Seq<u8>, int),
    ParseError,
> {
    column_in_index_spec(st, sv, k, false, s, pos, partial)
}

fn index_column(st: &QplState, sc: &SqlSchema, k: usize, s: &[u8], pos: usize, partial: bool) -> (r: Result<
    (Vec<u8>, usize),
    ParseError,
>)
    requires
        pos <= s@.len(),
    ensures
        match r {
            Ok((n, e)) => pos <= e <= s@.len() && index_column_spec(*st, sc@, k, s@, pos as int, partial)
                == Ok::<(Seq<u8>, int), ParseError>((n@, e as int)),
            Err(x) => index_column_spec(*st, sc@, k, s@, pos as int, partial) == Err::<(Seq<u8>, int), ParseError>(x),
        },
{
    column_in_index(st, sc, k, false, s, pos, partial)
}

/// The rest of a list of columns of line `k` (by schema column name) after `p` (as for `more_names`).
pub open spec fn more_index_columns(st: QplState, sv: SchemaView, k: usize, s: Seq<u8>, p: int, partial: bool) -> Result<
    (Seq<Seq<u8>>, int),
    ParseError,
>
    decreases s.len() - p,
{
    if p < 0 || p > s.len() {
        Err(ParseError::Mismatch)
    } else {
        match list_sep_spec(s, p, partial) {
            Err(ParseError::Mismatch) => Ok((Seq::empty(), p)),
            Err(x) => Err(x),
            Ok(q) => if q <= p {
                Err(ParseError::Cut)
            } else {
                match index_column_spec(st, sv, k, s, q, partial) {
                    Ok((x, e)) => if e < q {
                        Err(ParseError::Cut)
                    } else {
                        prepend(seq![x], more_index_columns(st, sv, k, s, e, partial))
                    },
                    Err(ParseError::Mismatch) => Ok((Seq::empty(), p)),
                    Err(x) => Err(x),
                }
            },
        }
    }
}

/// A comma-separated list of columns of line `k` (by schema column name).
pub open spec fn index_columns_spec(st: QplState, sv: SchemaView, k: usize, s: Seq<u8>, pos: int, partial: bool) -> Result<
    (Seq<Seq<u8>>, int),
    ParseError,
> {
    match index_column_spec(st, sv, k, s, pos, partial) {
        Ok((x, e)) => if e < pos {
            Err(ParseError::Cut)
        } else {
            prepend(seq![x], more_index_columns(st, sv, k, s, e, partial))
        },
        Err(x) => Err(x),
    }
}

/// A comma-separated list of columns of line `k` (by schema column name) (see `index_columns_spec`).
pub(crate) fn index_columns(st: &QplState, sc: &SqlSchema, k: usize, s: &[u8], pos: usize, partial: bool) -> (r:
    Result<(Vec<Vec<u8>>, usize), ParseError>)
    requires
        pos <= s@.len(),
    ensures
        match r {
            Ok((v, e)) => pos <= e <= s@.len() && index_columns_spec(*st, sc@, k, s@, pos as int, partial)
                == Ok::<(Seq<Seq<u8>>, int), ParseError>((names_view(v@), e as int)),
            Err(x) => index_columns_spec(*st, sc@, k, s@, pos as int, partial) == Err::<
                (Seq<Seq<u8>>, int),
                ParseError,
            >(x),
        },
{
    let (first, first_end) = index_column(st, sc, k, s, pos, partial)?;
    let ghost x0 = first@;
    let mut v: Vec<Vec<u8>> = vec![first];
    assert(names_view(v@) =~= seq![x0]);
    let mut p = first_end;
    loop
        invariant
            pos <= p <= s@.len(),
            index_columns_spec(*st, sc@, k, s@, pos as int, partial) == prepend(
                names_view(v@),
                more_index_columns(*st, sc@, k, s@, p as int, partial),
            ),
        decreases s@.len() - p,
    {
        let q = match list_sep(s, p, partial) {
            Ok(q) => q,
            Err(ParseError::Mismatch) => {
                assert(names_view(v@) + Seq::<Seq<u8>>::empty() =~= names_view(v@));
                return Ok((v, p));
            },
            Err(x) => {
                return Err(x);
            },
        };
        if q <= p {
            return Err(ParseError::Cut);
        }
        match index_column(st, sc, k, s, q, partial) {
            Ok((x, e)) => {
                let ghost old_v = names_view(v@);
                let ghost xv = x@;
                v.push(x);
                assert(names_view(v@) =~= old_v.push(xv));
                assert(prepend(old_v, prepend(seq![xv], more_index_columns(*st, sc@, k, s@, e as int, partial)))
                    == prepend(names_view(v@), more_index_columns(*st, sc@, k, s@, e as int, partial))) by {
                    match more_index_columns(*st, sc@, k, s@, e as int, partial) {
                        Ok((xs, f)) => {
                            assert(old_v + (seq![xv] + xs) =~= old_v.push(xv) + xs);
                        },
                        Err(_) => {},
                    }
                }
                p = e;
            },
            Err(ParseError::Mismatch) => {
                assert(names_view(v@) + Seq::<Seq<u8>>::empty() =~= names_view(v@));
                return Ok((v, p));
            },
            Err(x) => {
                return Err(x);
            },
        }
    }
}


/// One ordering `<column> ASC|DESC` over line `k`, as `"<column> <DIR>"`:
/// the column (an aggregate-result name, else a schema column name) must be
/// a column of line `k`.
pub open spec fn order_by_spec(st: QplState, sv: SchemaView, k: usize, s: Seq<u8>, pos: int, partial: bool) -> Result<
    (Seq<u8>, int),
    ParseError,
> {
    let by = match name_choice_spec(aliases_of(st.idx_to_table@), s, pos, partial) {
        Err(ParseError::Mismatch) => name_choice_spec(sv.column_names, s, pos, partial),
        other => other,
    };
    match by {
        Err(x) => Err(x),
        Ok((b, p)) => if !line_has(st, k, b) {
            Err(ParseError::Mismatch)
        } else {
            match take_while0_spec(s, p, Class::Space, partial) {
                Err(x) => Err(x),
                Ok(q) => {
                    let dir = match literal_spec(s, q, seq![65u8, 83u8, 67u8], false, partial) {
                        Err(ParseError::Mismatch) => literal_spec(
                            s,
                            q,
                            seq![68u8, 69u8, 83u8, 67u8],
                            false,
                            partial,
                        ),
                        other => other,
                    };
                    match dir {
                        Ok(e) => Ok((b.push(32u8) + s.subrange(q, e), e)),
                        Err(x) => Err(x),
                    }
                },
            }
        },
    }
}

pub(crate) fn order_by(st: &QplState, sc: &SqlSchema, k: usize, s: &[u8], pos: usize, partial: bool) -> (r:
    Result<(Vec<u8>, usize), ParseError>)
    requires
        pos <= s@.len(),
    ensures
        match r {
            Ok((t, e)) => pos <= e <= s@.len() && order_by_spec(*st, sc@, k, s@, pos as int, partial)
                == Ok::<(Seq<u8>, int), ParseError>((t@, e as int)),
            Err(x) => order_by_spec(*st, sc@, k, s@, pos as int, partial) == Err::<
                (Seq<u8>, int),
                ParseError,
            >(x),
        },
{
    let (by, p) = match aliased_column(st, s, pos, partial) {
        Err(ParseError::Mismatch) => column_name(sc, s, pos, partial)?,
        other => other?,
    };
    if !st.has_column(k, by.as_slice()) {
        return Err(ParseError::Mismatch);
    }
    let p = multispace0(s, p, partial)?;
    let asc: Vec<u8> = vec![65u8, 83u8, 67u8];
    assert(asc@ =~= seq![65u8, 83u8, 67u8]);
    let desc: Vec<u8> = vec![68u8, 69u8, 83u8, 67u8];
    assert(desc@ =~= seq![68u8, 69u8, 83u8, 67u8]);
    let e = match literal(s, p, asc.as_slice(), false, partial) {
        Ok(e) => e,
        Err(ParseError::Mismatch) => literal(s, p, desc.as_slice(), false, partial)?,
        Err(k) => {
            return Err(k);
        },
    };
    let ghost b = by@;
    let mut text = by;
    text.push(32u8);
    let dir = copy_range(s, p, e);
    let mut i: usize = 0;
    while i < dir.len()
        invariant
            i <= dir@.len(),
            text@ == b.push(32u8) + dir@.subrange(0, i as int),
        decreases dir@.len() - i,
    {
        text.push(dir[i]);
        assert(dir@.subrange(0, i + 1) =~= dir@.subrange(0, i as int).push(dir@[i as int]));
        assert(text@ =~= b.push(32u8) + dir@.subrange(0, i + 1));
        i += 1;
    }
    assert(dir@.subrange(0, dir@.len() as int) =~= dir@);
    Ok((text, e))
}

/// The rest of a list of orderings after `p` (as for `more_names`).
pub open spec fn more_orders(st: QplState, sv: SchemaView, k: usize, s: Seq<u8>, p: int, partial: bool) -> Result<
    (Seq<Seq<u8>>, int),
    ParseError,
>
    decreases s.len() - p,
{
    if p < 0 || p > s.len() {
        Err(ParseError::Mismatch)
    } else {
        match list_sep_spec(s, p, partial) {
            Err(ParseError::Mismatch) => Ok((Seq::empty(), p)),
            Err(x) => Err(x),
            Ok(q) => if q <= p {
                Err(ParseError::Cut)
            } else {
                match order_by_spec(st, sv, k, s, q, partial) {
                    Ok((x, e)) => if e < q {
                        Err(ParseError::Cut)
                    } else {
                        prepend(seq![x], more_orders(st, sv, k, s, e, partial))
                    },
                    Err(ParseError::Mismatch) => Ok((Seq::empty(), p)),
                    Err(x) => Err(x),
                }
            },
        }
    }
}

/// A comma-separated list of orderings over line `k`.
pub open spec fn orderings_spec(st: QplState, sv: SchemaView, k: usize, s: Seq<u8>, pos: int, partial: bool) -> Result<
    (Seq<Seq<u8>>, int),
    ParseError,
> {
    match order_by_spec(st, sv, k, s, pos, partial) {
        Ok((x, e)) => if e < pos {
            Err(ParseError::Cut)
        } else {
            prepend(seq![x], more_orders(st, sv, k, s, e, partial))
        },
        Err(x) => Err(x),
    }
}

/// A comma-separated list of orderings over line `k` (see `orderings_spec`).
pub(crate) fn orderings(st: &QplState, sc: &SqlSchema, k: usize, s: &[u8], pos: usize, partial: bool) -> (r:
    Result<(Vec<Vec<u8>>, usize), ParseError>)
    requires
        pos <= s@.len(),
    ensures
        match r {
            Ok((v, e)) => pos <= e <= s@.len() && orderings_spec(*st, sc@, k, s@, pos as int, partial)
                == Ok::<(Seq<Seq<u8>>, int), ParseError>((names_view(v@), e as int)),
            Err(x) => orderings_spec(*st, sc@, k, s@, pos as int, partial) == Err::<
                (Seq<Seq<u8>>, int),
                ParseError,
            >(x),
        },
{
    let (first, first_end) = order_by(st, sc, k, s, pos, partial)?;
    let ghost x0 = first@;
    let mut v: Vec<Vec<u8>> = vec![first];
    assert(names_view(v@) =~= seq![x0]);
    let mut p = first_end;
    loop
        invariant
            pos <= p <= s@.len(),
            orderings_spec(*st, sc@, k, s@, pos as int, partial) == prepend(
                names_view(v@),
                more_orders(*st, sc@, k, s@, p as int, partial),
            ),
        decreases s@.len() - p,
    {
        let q = match list_sep(s, p, partial) {
            Ok(q) => q,
            Err(ParseError::Mismatch) => {
                assert(names_view(v@) + Seq::<Seq<u8>>::empty() =~= names_view(v@));
                return Ok((v, p));
            },
            Err(x) => {
                return Err(x);
            },
        };
        if q <= p {
            return Err(ParseError::Cut);
        }
        match order_by(st, sc, k, s, q, partial) {
            Ok((x, e)) => {
                let ghost old_v = names_view(v@);
                let ghost xv = x@;
                v.push(x);
                assert(names_view(v@) =~= old_v.push(xv));
                assert(prepend(old_v, prepend(seq![xv], more_orders(*st, sc@, k, s@, e as int, partial)))
                    == prepend(names_view(v@), more_orders(*st, sc@, k, s@, e as int, partial))) by {
                    match more_orders(*st, sc@, k, s@, e as int, partial) {
                        Ok((xs, f)) => {
                            assert(old_v + (seq![xv] + xs) =~= old_v.push(xv) + xs);
                        },
                        Err(_) => {},
                    }
                }
                p = e;
            },
            Err(ParseError::Mismatch) => {
                assert(names_view(v@) + Seq::<Seq<u8>>::empty() =~= names_view(v@));
                return Ok((v, p));
            },
            Err(x) => {
                return Err(x);
            },
        }
    }
}

/// `c` is the column a scan derives for output `item` of table `t`: plain,
/// shown under the item's name, with the type and key classification of the
/// table's first column of that name.
#[verifier::opaque]
pub open spec fn scan_column(sv: SchemaView, t: usize, item: (Seq<u8>, Seq<u8>), c: ColumnView) -> bool {
    &&& c is Plain
    &&& c.name() == item.1
    &&& crate::keys::find_column_spec(sv, t as int, item.0) is Some
    &&& c.typ() == sv.column_types[crate::keys::find_column_spec(sv, t as int, item.0)->Some_0]
    &&& crate::keys::keys_of_column(sv, t as int, crate::keys::find_column_spec(sv, t as int, item.0)->Some_0, c.keys())
}

/// The columns a `Scan` derives: each keeps its schema type and key
/// classification, under its alias when renamed.
#[verifier::rlimit(60)]
pub(crate) fn derive_scan(
    sc: &SqlSchema,
    t: usize,
    outs: &Vec<(Vec<u8>, Option<Vec<u8>>, usize)>,
    dummy: bool,
) -> (r: Vec<Column>)
    requires
        sc.wf(),
        forall|i: int|
            0 <= i < outs@.len() ==> (#[trigger] outs@[i]).2 < sc@.column_types.len()
                && crate::keys::find_column_spec(sc@, t as int, outs@[i].0@) == Some(outs@[i].2 as int),
    ensures
        dummy ==> r@.len() == 1 && r@[0]@ is Dummy,
        !dummy ==> r@.len() == outs@.len() && forall|i: int|
            0 <= i < r@.len() ==> (#[trigger] r@[i])@ is Plain,
        !dummy ==> forall|i: int|
            0 <= i < r@.len() ==> scan_column(sc@, t, scan_item_view(outs@[i]), #[trigger] r@[i]@),
        !dummy ==> forall|i: int|
            0 <= i < r@.len() ==> (#[trigger] r@[i])@.name() == scan_item_view(outs@[i]).1,
{
    if dummy {
        return vec![Column::Dummy];
    }
    let mut cols: Vec<Column> = Vec::new();
    let mut i: usize = 0;
    while i < outs.len()
        invariant
            i <= outs@.len(),
            cols@.len() == i,
            sc.wf(),
            forall|m: int| 0 <= m < i ==> (#[trigger] cols@[m])@ is Plain,
            forall|m: int| 0 <= m < i ==> scan_column(sc@, t, scan_item_view(outs@[m]), #[trigger] cols@[m]@),
            forall|m: int| 0 <= m < i ==> (#[trigger] cols@[m])@.name() == scan_item_view(outs@[m]).1,
            forall|m: int|
                0 <= m < outs@.len() ==> (#[trigger] outs@[m]).2 < sc@.column_types.len()
                    && crate::keys::find_column_spec(sc@, t as int, outs@[m].0@) == Some(outs@[m].2 as int),
        decreases outs@.len() - i,
    {
        let (name, alias, c) = (&outs[i].0, &outs[i].1, outs[i].2);
        let typ = sc.column_types[c];
        let keys = crate::keys::column_key(sc, t, name.as_slice());
        let shown = match alias {
            Some(a) => copy_bytes(a.as_slice()),
            None => copy_bytes(name.as_slice()),
        };
        let ghost before = cols@;
        let col = Column::Plain { name: shown, typ, keys };
        assert(scan_column(sc@, t, scan_item_view(outs@[i as int]), col@)) by {
            reveal(scan_column);
        }
        cols.push(col);
        assert forall|m: int| 0 <= m < i + 1 implies scan_column(sc@, t, scan_item_view(outs@[m]), #[trigger] cols@[m]@)
            && cols@[m]@.name() == scan_item_view(outs@[m]).1 by {
            if m < i {
                assert(cols@[m] == before[m]);
            }
        }
        i += 1;
    }
    cols
}

} // verus!
