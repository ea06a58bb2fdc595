use vstd::prelude::*;

use crate::domain::{
    comparison_view, pred_view, CmpView, PredView, columns_view, keys_view, KeyView, Column, ColumnType, Comparable, CompOp, Comparison, KeyType, Predicate, SchemaView, SqlSchema,
};
use crate::keys::{is_foreign_key_of, is_primary_key_of};
use crate::lexer::{
    boolean, boolean_spec, dec_uint, dec_uint_spec, lifts, literal, literal_spec, multispace0, null,
    null_text, number, number_spec, quoted, quoted_spec, spaced_comparison_op, spaced_op_spec,
    take_while0_spec, Class, ParseError,
};
use crate::names::{
    choice, column_in_table, column_in_table_spec, column_name, is_agg_name, name_choice_spec,
};
use crate::state::{aliases_of, line_first, names_at, table_at, QplState};

verus! {

/// The list separator: optional whitespace, then `, `.
pub open spec fn list_sep_spec(s: Seq<u8>, p: int, partial: bool) -> Result<int, ParseError> {
    match take_while0_spec(s, p, Class::Space, partial) {
        Ok(q) => literal_spec(s, q, seq![44u8, 32u8], false, partial),
        Err(k) => Err(k),
    }
}

/// A line reference `#<k>`: its number and end.
pub open spec fn line_ref_spec(s: Seq<u8>, p: int, partial: bool) -> Result<(nat, int), ParseError> {
    match literal_spec(s, p, seq![35u8], false, partial) {
        Ok(q) => dec_uint_spec(s, q, partial),
        Err(k) => Err(k),
    }
}

/// The references between the brackets, before the check that they are
/// completed lines: one, or two separated by the list separator.
pub open spec fn refs_spec(s: Seq<u8>, p: int, partial: bool) -> Result<(Seq<nat>, int), ParseError> {
    match line_ref_spec(s, p, partial) {
        Err(k) => Err(k),
        Ok((a, p1)) => match list_sep_spec(s, p1, partial) {
            Ok(q) => match line_ref_spec(s, q, partial) {
                Ok((b, q2)) => Ok((seq![a, b], q2)),
                Err(ParseError::Mismatch) => Ok((seq![a], p1)),
                Err(k) => Err(k),
            },
            Err(ParseError::Mismatch) => Ok((seq![a], p1)),
            Err(k) => Err(k),
        },
    }
}

/// `[ #a ] ` or `[ #a, #b ] `, where every line referred to is completed.
pub open spec fn input_ids_spec(seen: Seq<usize>, s: Seq<u8>, pos: int, partial: bool) -> Result<
    (Seq<nat>, int),
    ParseError,
> {
    match literal_spec(s, pos, seq![91u8, 32u8], false, partial) {
        Err(k) => Err(k),
        Ok(p) => match refs_spec(s, p, partial) {
            Err(k) => Err(k),
            Ok((ids, p2)) => if !(forall|i: int|
                0 <= i < ids.len() ==> seen.contains(#[trigger] ids[i] as usize)) {
                Err(ParseError::Mismatch)
            } else {
                match literal_spec(s, p2, seq![32u8, 93u8, 32u8], false, partial) {
                    Ok(e) => Ok((ids, e)),
                    Err(k) => Err(k),
                }
            },
        },
    }
}

pub(crate) fn list_sep(s: &[u8], pos: usize, partial: bool) -> (r: Result<usize, ParseError>)
    requires
        pos <= s@.len(),
    ensures
        lifts(r, list_sep_spec(s@, pos as int, partial)),
        match r {
            Ok(e) => pos <= e <= s@.len(),
            Err(k) => k != ParseError::Cut,
        },
{
    let p = multispace0(s, pos, partial)?;
    let sep: Vec<u8> = vec![44u8, 32u8];
    assert(sep@ =~= seq![44u8, 32u8]);
    literal(s, p, sep.as_slice(), false, partial)
}

/// `#<k>`.
fn line_ref(s: &[u8], pos: usize, partial: bool) -> (r: Result<(usize, usize), ParseError>)
    requires
        pos <= s@.len(),
    ensures
        match r {
            Ok((k, e)) => line_ref_spec(s@, pos as int, partial) == Ok::<(nat, int), ParseError>(
                (k as nat, e as int),
            ) && pos <= e <= s@.len(),
            Err(k) => line_ref_spec(s@, pos as int, partial) == Err::<(nat, int), ParseError>(k)
                && k != ParseError::Cut,
        },
{
    let hash: Vec<u8> = vec![35u8];
    assert(hash@ =~= seq![35u8]);
    let p = literal(s, pos, hash.as_slice(), false, partial)?;
    dec_uint(s, p, partial)
}

pub open spec fn seq_nat(ids: Seq<usize>) -> Seq<nat> {
    ids.map_values(|x: usize| x as nat)
}

/// One or two line references (see `refs_spec`).
fn refs(s: &[u8], p: usize, partial: bool) -> (r: Result<(Vec<usize>, usize), ParseError>)
    requires
        p <= s@.len(),
    ensures
        match r {
            Ok((ids, e)) => refs_spec(s@, p as int, partial) == Ok::<(Seq<nat>, int), ParseError>(
                (seq_nat(ids@), e as int),
            ) && p <= e <= s@.len() && 1 <= ids@.len() <= 2,
            Err(k) => refs_spec(s@, p as int, partial) == Err::<(Seq<nat>, int), ParseError>(k)
                && k != ParseError::Cut,
        },
{
    let (a, p1) = line_ref(s, p, partial)?;
    match list_sep(s, p1, partial) {
        Ok(q) => match line_ref(s, q, partial) {
            Ok((b, q2)) => {
                let ids = vec![a, b];
                assert(seq_nat(ids@) =~= seq![a as nat, b as nat]);
                Ok((ids, q2))
            },
            Err(ParseError::Mismatch) => {
                let ids = vec![a];
                assert(seq_nat(ids@) =~= seq![a as nat]);
                Ok((ids, p1))
            },
            Err(k) => Err(k),
        },
        Err(ParseError::Mismatch) => {
            let ids = vec![a];
            assert(seq_nat(ids@) =~= seq![a as nat]);
            Ok((ids, p1))
        },
        Err(k) => Err(k),
    }
}

/// `[ #a ]` or `[ #a, #b ]`: one or two completed lines.
pub fn input_ids(st: &QplState, s: &[u8], pos: usize, partial: bool) -> (r: Result<
    (Vec<usize>, usize),
    ParseError,
>)
    requires
        pos <= s@.len(),
    ensures
        match r {
            Ok((ids, e)) => input_ids_spec(st.seen@, s@, pos as int, partial) == Ok::<
                (Seq<nat>, int),
                ParseError,
            >((seq_nat(ids@), e as int)) && pos <= e <= s@.len() && 1 <= ids@.len() <= 2
                && forall|i: int| 0 <= i < ids@.len() ==> st.has_seen(#[trigger] ids@[i]),
            Err(k) => input_ids_spec(st.seen@, s@, pos as int, partial) == Err::<
                (Seq<nat>, int),
                ParseError,
            >(k) && k != ParseError::Cut,
        },
{
    let open: Vec<u8> = vec![91u8, 32u8];
    assert(open@ =~= seq![91u8, 32u8]);
    let close: Vec<u8> = vec![32u8, 93u8, 32u8];
    assert(close@ =~= seq![32u8, 93u8, 32u8]);
    let p = literal(s, pos, open.as_slice(), false, partial)?;
    let (ids, p2) = refs(s, p, partial)?;
    let ghost ns = seq_nat(ids@);
    let mut i: usize = 0;
    while i < ids.len()
        invariant
            i <= ids@.len(),
            ns == seq_nat(ids@),
            forall|j: int| 0 <= j < i ==> st.has_seen(#[trigger] ids@[j]),
            literal_spec(s@, pos as int, seq![91u8, 32u8], false, partial) == Ok::<int, ParseError>(
                p as int,
            ),
            refs_spec(s@, p as int, partial) == Ok::<(Seq<nat>, int), ParseError>((ns, p2 as int)),
        decreases ids@.len() - i,
    {
        if !st.is_seen(ids[i]) {
            assert(ns[i as int] as usize == ids@[i as int]);
            assert(!st.seen@.contains(ns[i as int] as usize));
            return Err(ParseError::Mismatch);
        }
        i += 1;
    }
    assert forall|j: int| 0 <= j < ns.len() implies st.seen@.contains(#[trigger] ns[j] as usize) by {
        assert(ns[j] as usize == ids@[j]);
        assert(st.has_seen(ids@[j]));
    }
    let e = literal(s, p2, close.as_slice(), false, partial)?;
    Ok((ids, e))
}

/// A name of an aggregate result of an earlier line, longest first.
pub(crate) fn aliased_column(st: &QplState, s: &[u8], pos: usize, partial: bool) -> (r: Result<
    (Vec<u8>, usize),
    ParseError,
>)
    requires
        pos <= s@.len(),
    ensures
        match r {
            Ok((n, e)) => pos <= e <= s@.len() && is_agg_name(n@),
            Err(k) => k != ParseError::Cut,
        },
        match r {
            Ok((n, e)) => crate::names::name_choice_spec(aliases_of(st.idx_to_table@), s@, pos as int, partial)
                == Ok::<(Seq<u8>, int), ParseError>((n@, e as int)),
            Err(k) => crate::names::name_choice_spec(aliases_of(st.idx_to_table@), s@, pos as int, partial)
                == Err::<(Seq<u8>, int), ParseError>(k),
        },
{
    let mut cands = st.aggregate_aliases();
    let (j, e) = choice(&cands, s, pos, partial)?;
    proof {
        crate::names::lemma_choice_bounds(
            crate::domain::names_view(cands@),
            s@,
            pos as int,
            partial,
        );
    }
    assert(crate::domain::names_view(cands@)[j as int] == cands@[j as int]@);
    let n = cands.swap_remove(j);
    Ok((n, e))
}

/// A column of line `k`'s derived table, by schema column name or, when
/// `aliased`, by aggregate-result name; never the dummy.
pub open spec fn column_in_index_spec(st: QplState, sv: SchemaView, k: usize, aliased: bool, s: Seq<u8>, pos: int, partial: bool) -> Result<
    (Seq<u8>, int),
    ParseError,
> {
    let n = if aliased {
        name_choice_spec(aliases_of(st.idx_to_table@), s, pos, partial)
    } else {
        name_choice_spec(sv.column_names, s, pos, partial)
    };
    match n {
        Err(x) => Err(x),
        Ok((nm, e)) => if nm == crate::domain::dummy_name() || !names_at(st, k).contains(nm) {
            Err(ParseError::Mismatch)
        } else {
            Ok((nm, e))
        },
    }
}

/// A column of line `k`, by name, else by aggregate-result name.
pub open spec fn column_of_index_spec(st: QplState, sv: SchemaView, k: usize, s: Seq<u8>, pos: int, partial: bool) -> Result<
    (Seq<u8>, int),
    ParseError,
> {
    match column_in_index_spec(st, sv, k, false, s, pos, partial) {
        Err(ParseError::Mismatch) => column_in_index_spec(st, sv, k, true, s, pos, partial),
        other => other,
    }
}

/// `#k.<column>` with `k` among `inputs`: the line, the column name, the end.
pub open spec fn indexed_column_spec(st: QplState, sv: SchemaView, inputs: Seq<usize>, s: Seq<u8>, pos: int, partial: bool) -> Result<
    ((usize, Seq<u8>), int),
    ParseError,
> {
    match line_ref_spec(s, pos, partial) {
        Err(x) => Err(x),
        Ok((k, p)) => if !inputs.contains(k as usize) {
            Err(ParseError::Mismatch)
        } else {
            match literal_spec(s, p, seq![46u8], false, partial) {
                Err(x) => Err(x),
                Ok(p) => match column_of_index_spec(st, sv, k as usize, s, p, partial) {
                    Ok((n, e)) => Ok(((k as usize, n), e)),
                    Err(x) => Err(x),
                },
            }
        },
    }
}

/// A column of line `k`'s derived table, by schema column name or, when
/// `aliased`, by aggregate-result name.
pub(crate) fn column_in_index(
    st: &QplState,
    sc: &SqlSchema,
    k: usize,
    aliased: bool,
    s: &[u8],
    pos: usize,
    partial: bool,
) -> (r: Result<(Vec<u8>, usize), ParseError>)
    requires
        pos <= s@.len(),
    ensures
        match r {
            Ok((n, e)) => pos <= e <= s@.len() && names_at(*st, k).contains(n@) && n@
                != crate::domain::dummy_name(),
            Err(k) => k != ParseError::Cut,
        },
        match r {
            Ok((n, e)) => column_in_index_spec(*st, sc@, k, aliased, s@, pos as int, partial) == Ok::<
                (Seq<u8>, int),
                ParseError,
            >((n@, e as int)),
            Err(x) => column_in_index_spec(*st, sc@, k, aliased, s@, pos as int, partial) == Err::<
                (Seq<u8>, int),
                ParseError,
            >(x),
        },
{
    let (n, e) = if aliased {
        aliased_column(st, s, pos, partial)?
    } else {
        column_name(sc, s, pos, partial)?
    };
    // the dummy column `1 AS One` is never referred to by name
    let dummy: Vec<u8> = vec![49u8, 32u8, 65u8, 83u8, 32u8, 79u8, 110u8, 101u8];
    assert(dummy@ =~= crate::domain::dummy_name());
    if crate::lexer::eq_bytes(n.as_slice(), dummy.as_slice()) {
        return Err(ParseError::Mismatch);
    }
    if st.has_column(k, n.as_slice()) {
        Ok((n, e))
    } else {
        Err(ParseError::Mismatch)
    }
}

/// A column of line `k`, by name or by aggregate-result name.
pub(crate) fn column_of_index(st: &QplState, sc: &SqlSchema, k: usize, s: &[u8], pos: usize, partial: bool) -> (r:
    Result<(Vec<u8>, usize), ParseError>)
    requires
        pos <= s@.len(),
    ensures
        match r {
            Ok((n, e)) => pos <= e <= s@.len() && names_at(*st, k).contains(n@),
            Err(k) => k != ParseError::Cut,
        },
        match r {
            Ok((n, e)) => column_of_index_spec(*st, sc@, k, s@, pos as int, partial) == Ok::<
                (Seq<u8>, int),
                ParseError,
            >((n@, e as int)),
            Err(x) => column_of_index_spec(*st, sc@, k, s@, pos as int, partial) == Err::<
                (Seq<u8>, int),
                ParseError,
            >(x),
        },
{
    match column_in_index(st, sc, k, false, s, pos, partial) {
        Err(ParseError::Mismatch) => column_in_index(st, sc, k, true, s, pos, partial),
        r => r,
    }
}

fn contains_idx(v: &Vec<usize>, x: usize) -> (r: bool)
    ensures
        r == v@.contains(x),
{
    let mut i: usize = 0;
    while i < v.len()
        invariant
            i <= v@.len(),
            forall|j: int| 0 <= j < i ==> v@[j] != x,
        decreases v@.len() - i,
    {
        if v[i] == x {
            assert(v@[i as int] == x);
            return true;
        }
        i += 1;
    }
    false
}

/// `#k.<column>` where `k` is one of `inputs` and the column is in line `k`.
pub(crate) fn indexed_column(
    st: &QplState,
    sc: &SqlSchema,
    inputs: &Vec<usize>,
    s: &[u8],
    pos: usize,
    partial: bool,
) -> (r: Result<((usize, Vec<u8>), usize), ParseError>)
    requires
        pos <= s@.len(),
    ensures
        match r {
            Ok(((k, n), e)) => pos <= e <= s@.len() && inputs@.contains(k) && names_at(
                *st,
                k,
            ).contains(n@),
            Err(k) => k != ParseError::Cut,
        },
        match r {
            Ok(((k, n), e)) => indexed_column_spec(*st, sc@, inputs@, s@, pos as int, partial) == Ok::<
                ((usize, Seq<u8>), int),
                ParseError,
            >(((k, n@), e as int)),
            Err(x) => indexed_column_spec(*st, sc@, inputs@, s@, pos as int, partial) == Err::<
                ((usize, Seq<u8>), int),
                ParseError,
            >(x),
        },
{
    let (k, p) = line_ref(s, pos, partial)?;
    if !contains_idx(inputs, k) {
        return Err(ParseError::Mismatch);
    }
    let dot: Vec<u8> = vec![46u8];
    assert(dot@ =~= seq![46u8]);
    let p = literal(s, p, dot.as_slice(), false, partial)?;
    let (n, e) = column_of_index(st, sc, k, s, p, partial)?;
    Ok(((k, n), e))
}

/// Which literals a comparison's right-hand side may be.
#[derive(Clone, Copy, PartialEq, Eq, Structural)]
pub enum LiteralSet {
    Numbers,
    Booleans,
    Strings,
    Any,
}

/// The literals allowed against a column of type `t`.
pub(crate) fn literals_for(t: ColumnType) -> (r: LiteralSet)
    ensures
        r == literals_for_spec(t),
{
    match t {
        ColumnType::Number => LiteralSet::Numbers,
        ColumnType::Boolean => LiteralSet::Booleans,
        ColumnType::Text => LiteralSet::Strings,
        ColumnType::Time => LiteralSet::Strings,
        ColumnType::Others => LiteralSet::Any,
    }
}

pub open spec fn literals_for_spec(t: ColumnType) -> LiteralSet {
    match t {
        ColumnType::Number => LiteralSet::Numbers,
        ColumnType::Boolean => LiteralSet::Booleans,
        ColumnType::Text => LiteralSet::Strings,
        ColumnType::Time => LiteralSet::Strings,
        ColumnType::Others => LiteralSet::Any,
    }
}

/// The allowed literal forms, then `NULL`: the literal and its end, or
/// `None` when none is there, so that a column may be tried next.
#[verifier::opaque]
pub open spec fn literal_rhs_spec(set: LiteralSet, s: Seq<u8>, pos: int, partial: bool) -> Result<
    Option<(CmpView, int)>,
    ParseError,
> {
    if (set == LiteralSet::Numbers || set == LiteralSet::Any) && number_spec(s, pos, partial)
        != Err::<int, ParseError>(ParseError::Mismatch) {
        match number_spec(s, pos, partial) {
            Ok(e) => Ok(Some((CmpView::Number(s.subrange(pos, e)), e))),
            Err(k) => Err(k),
        }
    } else if (set == LiteralSet::Booleans || set == LiteralSet::Any) && boolean_spec(s, pos, partial)
        != Err::<(bool, int), ParseError>(ParseError::Mismatch) {
        match boolean_spec(s, pos, partial) {
            Ok((b, e)) => Ok(Some((CmpView::Boolean(b), e))),
            Err(k) => Err(k),
        }
    } else if (set == LiteralSet::Strings || set == LiteralSet::Any) && quoted_spec(s, pos, partial)
        != Err::<int, ParseError>(ParseError::Mismatch) {
        match quoted_spec(s, pos, partial) {
            Ok(e) => Ok(Some((CmpView::Str(s.subrange(pos + 1, e - 1)), e))),
            Err(k) => Err(k),
        }
    } else {
        match literal_spec(s, pos, null_text(), false, partial) {
            Ok(e) => Ok(Some((CmpView::Null, e))),
            Err(ParseError::Mismatch) => Ok(None),
            Err(k) => Err(k),
        }
    }
}

pub(crate) fn literal_rhs(set: LiteralSet, s: &[u8], pos: usize, partial: bool) -> (r: Result<
    Option<(Comparable, usize)>,
    ParseError,
>)
    requires
        pos <= s@.len(),
    ensures
        match r {
            Ok(Some((c, e))) => pos <= e <= s@.len() && literal_rhs_spec(set, s@, pos as int, partial)
                == Ok::<Option<(CmpView, int)>, ParseError>(Some((c@, e as int))),
            Ok(None) => literal_rhs_spec(set, s@, pos as int, partial) == Ok::<
                Option<(CmpView, int)>,
                ParseError,
            >(None),
            Err(k) => literal_rhs_spec(set, s@, pos as int, partial) == Err::<Option<(CmpView, int)>, ParseError>(k),
        },
{
    proof {
        reveal(literal_rhs_spec);
    }
    if set == LiteralSet::Numbers || set == LiteralSet::Any {
        match number(s, pos, partial) {
            Ok((t, e)) => {
                return Ok(Some((Comparable::Number(t), e)));
            },
            Err(ParseError::Mismatch) => {},
            Err(k) => {
                return Err(k);
            },
        }
    }
    if set == LiteralSet::Booleans || set == LiteralSet::Any {
        match boolean(s, pos, partial) {
            Ok((b, e)) => {
                return Ok(Some((Comparable::Boolean(b), e)));
            },
            Err(ParseError::Mismatch) => {},
            Err(k) => {
                return Err(k);
            },
        }
    }
    if set == LiteralSet::Strings || set == LiteralSet::Any {
        match quoted(s, pos, partial) {
            Ok((t, e)) => {
                return Ok(Some((Comparable::Str(t), e)));
            },
            Err(ParseError::Mismatch) => {},
            Err(k) => {
                return Err(k);
            },
        }
    }
    match null(s, pos, partial) {
        Ok(e) => Ok(Some((Comparable::Null, e))),
        Err(ParseError::Mismatch) => Ok(None),
        Err(k) => Err(k),
    }
}

/// Line `k` has a column named `n` of type `t`.
pub open spec fn column_has_type(st: QplState, k: usize, n: Seq<u8>, t: ColumnType) -> bool {
    match table_at(st.idx_to_table@, k) {
        Some(tb) => exists|i: int|
            0 <= i < tb.columns_spec().len() && (#[trigger] tb.columns_spec()[i]).name() == n
                && tb.columns_spec()[i].typ() == t,
        None => false,
    }
}

/// Table `t` of the schema has a column named exactly `n` of type `ty`.
pub open spec fn schema_col_of_type(sv: SchemaView, t: int, n: Seq<u8>, ty: ColumnType) -> bool {
    exists|i: int|
        0 <= i < sv.column_names.len() && #[trigger] sv.column_names[i] == n && sv.column_to_table[i] == t
            && sv.column_types[i] == ty
}

/// Whether line `k` has a column named `name` of type `t`.
fn has_column_of_type(st: &QplState, k: usize, name: &[u8], t: ColumnType) -> (r: bool)
    ensures
        r == column_has_type(*st, k, name@, t),
{
    match st.get_table(k) {
        Some(tb) => {
            let cs = tb.columns();
            let ghost cv = tb.columns_spec();
            let mut i: usize = 0;
            while i < cs.len()
                invariant
                    cv == columns_view(cs@),
                    cv == tb.columns_spec(),
                    table_at(st.idx_to_table@, k) == Some(*tb),
                    forall|j: int| 0 <= j < i ==> !((#[trigger] cv[j]).name() == name@ && cv[j].typ() == t),
                decreases cs@.len() - i,
            {
                assert(cv[i as int] == cs@[i as int]@);
                let n = cs[i].name();
                if crate::lexer::eq_bytes(n.as_slice(), name) && cs[i].typ() == t {
                    return true;
                }
                i += 1;
            }
            false
        },
        None => false,
    }
}

/// The first column of line `k` named `name`: its type, keys and whether it
/// is an aggregate result.
fn column_info(st: &QplState, k: usize, name: &[u8]) -> (r: Option<
    (ColumnType, Vec<KeyType>, bool),
>)
    ensures
        match r {
            Some((t, ks, a)) => line_first(*st, k, name@) is Some && t == line_first(*st, k, name@)->Some_0.typ()
                && keys_view(ks@) == line_first(*st, k, name@)->Some_0.keys() && a == (line_first(
                *st,
                k,
                name@,
            )->Some_0 is Aliased),
            None => line_first(*st, k, name@) is None,
        },
{
    match st.get_table(k) {
        Some(tb) => match crate::state::find_named_column(tb, name) {
            Some(c) => {
                let t = c.typ();
                let a = c.is_aliased();
                let ks = crate::domain::copy_keys(c.keys());
                Some((t, ks, a))
            },
            None => None,
        },
        None => None,
    }
}

/// Where a comparison's columns come from.
#[derive(Clone, Copy, PartialEq, Eq, Structural)]
pub enum Scope {
    /// a base table of the schema (by index): `Scan`
    Table(usize),
    /// one earlier line: `Filter`
    Line(usize),
    /// two earlier lines, `#k.col` on both sides; with key checks on `=`
    /// (`Join`) or without (`Intersect`, `Except`)
    Lines(bool),
}

/// The right-hand side when it is a column: of the table (`Scope::Table`),
/// a schema column name (`Scope::Line`), or `#k.col` (`Scope::Lines`); when
/// `typed`, the column must have that type.
#[verifier::opaque]
pub open spec fn rhs_column_spec(st: QplState, sv: SchemaView, scope: Scope, inputs: Seq<usize>, typed: Option<ColumnType>, s: Seq<u8>, pos: int, partial: bool) -> Result<
    (Seq<u8>, int),
    ParseError,
> {
    match scope {
        Scope::Table(t) => match typed {
            None => match column_in_table_spec(sv, t as int, s, pos, partial) {
                Ok((j, _, e)) => Ok((sv.column_names[j], e)),
                Err(k) => Err(k),
            },
            Some(ty) => match name_choice_spec(sv.column_names, s, pos, partial) {
                Ok((n, e)) => if schema_col_of_type(sv, t as int, n, ty) {
                    Ok((n, e))
                } else {
                    Err(ParseError::Mismatch)
                },
                Err(k) => Err(k),
            },
        },
        Scope::Line(k) => match name_choice_spec(sv.column_names, s, pos, partial) {
            Ok((n, e)) => match typed {
                None => Ok((n, e)),
                Some(ty) => if column_has_type(st, k, n, ty) {
                    Ok((n, e))
                } else {
                    Err(ParseError::Mismatch)
                },
            },
            Err(x) => Err(x),
        },
        Scope::Lines(_) => match indexed_column_spec(st, sv, inputs, s, pos, partial) {
            Ok(((k, n), e)) => match typed {
                None => Ok((n, e)),
                Some(ty) => if column_has_type(st, k, n, ty) {
                    Ok((n, e))
                } else {
                    Err(ParseError::Mismatch)
                },
            },
            Err(x) => Err(x),
        },
    }
}

fn rhs_column(
    st: &QplState,
    sc: &SqlSchema,
    scope: Scope,
    inputs: &Vec<usize>,
    typed: Option<ColumnType>,
    s: &[u8],
    pos: usize,
    partial: bool,
) -> (r: Result<(Comparable, usize), ParseError>)
    requires
        pos <= s@.len(),
        sc.wf(),
    ensures
        match r {
            Ok((c, e)) => pos <= e <= s@.len() && c is Column && rhs_column_spec(*st, sc@, scope, inputs@, typed, s@, pos as int, partial)
                == Ok::<(Seq<u8>, int), ParseError>((c->Column_0@, e as int)),
            Err(k) => k != ParseError::Cut && rhs_column_spec(*st, sc@, scope, inputs@, typed, s@, pos as int, partial)
                == Err::<(Seq<u8>, int), ParseError>(k),
        },
{
    proof {
        reveal(rhs_column_spec);
    }
    match scope {
        Scope::Table(t) => {
            match typed {
                None => {
                    let ((n, _a, _c), e) = column_in_table(sc, t, s, pos, partial)?;
                    Ok((Comparable::Column(n), e))
                },
                Some(ty) => {
                    // exact name, same table, same type
                    let (n, e) = column_name(sc, s, pos, partial)?;
                    let mut i: usize = 0;
                    while i < sc.column_names.len()
                        invariant
                            sc.wf(),
                            sc@.column_names.len() == sc.column_names@.len(),
                            pos <= e <= s@.len(),
                            name_choice_spec(sc@.column_names, s@, pos as int, partial) == Ok::<
                                (Seq<u8>, int),
                                ParseError,
                            >((n@, e as int)),
                            scope == Scope::Table(t),
                            typed == Some(ty),
                            forall|j: int| 0 <= j < i ==> !(#[trigger] sc@.column_names[j] == n@
                                && sc@.column_to_table[j] == t && sc@.column_types[j] == ty),
                        decreases sc.column_names@.len() - i,
                    {
                        assert(sc@.column_names[i as int] == sc.column_names@[i as int]@);
                        if crate::lexer::eq_bytes(sc.column_names[i].as_slice(), n.as_slice())
                            && sc.column_to_table[i] == t && sc.column_types[i] == ty {
                            assert(sc@.column_to_table[i as int] == t);
                            assert(sc@.column_types[i as int] == ty);
                            assert(sc@.column_names[i as int] == n@);
                            assert(schema_col_of_type(sc@, t as int, n@, ty));
                            proof {
                                reveal(rhs_column_spec);
                            }
                            return Ok((Comparable::Column(n), e));
                        }
                        i += 1;
                    }
                    proof {
                        reveal(rhs_column_spec);
                    }
                    Err(ParseError::Mismatch)
                },
            }
        },
        Scope::Line(k) => {
            let (n, e) = column_name(sc, s, pos, partial)?;
            match typed {
                None => Ok((Comparable::Column(n), e)),
                Some(ty) => if has_column_of_type(st, k, n.as_slice(), ty) {
                    Ok((Comparable::Column(n), e))
                } else {
                    Err(ParseError::Mismatch)
                },
            }
        },
        Scope::Lines(_) => {
            let ((k, n), e) = indexed_column(st, sc, inputs, s, pos, partial)?;
            match typed {
                None => Ok((Comparable::Column(n), e)),
                Some(ty) => if has_column_of_type(st, k, n.as_slice(), ty) {
                    Ok((Comparable::Column(n), e))
                } else {
                    Err(ParseError::Mismatch)
                },
            }
        },
    }
}

/// A right-hand side: an allowed literal (by the type of the left-hand
/// column, when `typed`), `NULL`, or a column.
#[verifier::opaque]
pub open spec fn comparable_spec(st: QplState, sv: SchemaView, scope: Scope, inputs: Seq<usize>, typed: Option<ColumnType>, s: Seq<u8>, pos: int, partial: bool) -> Result<
    (CmpView, int),
    ParseError,
> {
    let set = match typed {
        Some(t) => literals_for_spec(t),
        None => LiteralSet::Any,
    };
    match literal_rhs_spec(set, s, pos, partial) {
        Err(k) => Err(k),
        Ok(Some(v)) => Ok(v),
        Ok(None) => match rhs_column_spec(st, sv, scope, inputs, typed, s, pos, partial) {
            Ok((n, e)) => Ok((CmpView::Column(n), e)),
            Err(k) => Err(k),
        },
    }
}

fn comparable(
    st: &QplState,
    sc: &SqlSchema,
    scope: Scope,
    inputs: &Vec<usize>,
    typed: Option<ColumnType>,
    s: &[u8],
    pos: usize,
    partial: bool,
) -> (r: Result<(Comparable, usize), ParseError>)
    requires
        pos <= s@.len(),
        sc.wf(),
    ensures
        match r {
            Ok((c, e)) => pos <= e <= s@.len() && comparable_spec(*st, sc@, scope, inputs@, typed, s@, pos as int, partial)
                == Ok::<(CmpView, int), ParseError>((c@, e as int)),
            Err(k) => comparable_spec(*st, sc@, scope, inputs@, typed, s@, pos as int, partial) == Err::<
                (CmpView, int),
                ParseError,
            >(k),
        },
{
    proof {
        reveal(comparable_spec);
    }
    let set = match typed {
        Some(t) => literals_for(t),
        None => LiteralSet::Any,
    };
    match literal_rhs(set, s, pos, partial)? {
        Some(v) => Ok(v),
        None => rhs_column(st, sc, scope, inputs, typed, s, pos, partial),
    }
}

/// Line `k` has a column named `n` of type `t` whose keys include `key`.
pub open spec fn has_keyed_column(st: QplState, k: usize, n: Seq<u8>, t: ColumnType, key: KeyView) -> bool {
    match table_at(st.idx_to_table@, k) {
        Some(tb) => exists|i: int|
            0 <= i < tb.columns_spec().len() && (#[trigger] tb.columns_spec()[i]).name() == n
                && tb.columns_spec()[i].typ() == t && tb.columns_spec()[i].keys().contains(key),
        None => false,
    }
}

/// Line `k` has an aggregate-result column named `n` of type `t`.
pub open spec fn has_aliased_column(st: QplState, k: usize, n: Seq<u8>, t: ColumnType) -> bool {
    match table_at(st.idx_to_table@, k) {
        Some(tb) => exists|i: int|
            0 <= i < tb.columns_spec().len() && (#[trigger] tb.columns_spec()[i]) is Aliased
                && tb.columns_spec()[i].name() == n && tb.columns_spec()[i].typ() == t,
        None => false,
    }
}

/// `#k.col` where the column has type `t` and carries `key`.
pub open spec fn keyed_column_spec(st: QplState, sv: SchemaView, inputs: Seq<usize>, t: ColumnType, key: KeyView, s: Seq<u8>, pos: int, partial: bool) -> Result<
    (Seq<u8>, int),
    ParseError,
> {
    match indexed_column_spec(st, sv, inputs, s, pos, partial) {
        Err(x) => Err(x),
        Ok(((k, n), e)) => if has_keyed_column(st, k, n, t, key) {
            Ok((n, e))
        } else {
            Err(ParseError::Mismatch)
        },
    }
}

/// The right-hand column for key `key` of the left-hand side: for
/// `PrimaryKey{T}` one carrying `ForeignKey{T}`; for `ForeignKey{T}` one
/// carrying `ForeignKey{T}`, else `PrimaryKey{T}`.
pub open spec fn key_rule_spec(st: QplState, sv: SchemaView, inputs: Seq<usize>, t: ColumnType, key: KeyView, s: Seq<u8>, pos: int, partial: bool) -> Result<
    (Seq<u8>, int),
    ParseError,
> {
    match key {
        KeyView::Primary(tb) => keyed_column_spec(st, sv, inputs, t, KeyView::Foreign(tb), s, pos, partial),
        KeyView::Foreign(tb) => match keyed_column_spec(st, sv, inputs, t, KeyView::Foreign(tb), s, pos, partial) {
            Err(ParseError::Mismatch) => keyed_column_spec(st, sv, inputs, t, KeyView::Primary(tb), s, pos, partial),
            other => other,
        },
    }
}

/// The keys from the `i`-th on are tried in turn; the first whose rule does
/// not plainly mismatch decides.
pub open spec fn keys_rule_spec(st: QplState, sv: SchemaView, inputs: Seq<usize>, t: ColumnType, keys: Seq<KeyView>, s: Seq<u8>, pos: int, partial: bool, i: int) -> Result<
    (Seq<u8>, int),
    ParseError,
>
    decreases keys.len() - i,
{
    if i < 0 || i >= keys.len() {
        Err(ParseError::Mismatch)
    } else {
        match key_rule_spec(st, sv, inputs, t, keys[i], s, pos, partial) {
            Err(ParseError::Mismatch) => keys_rule_spec(st, sv, inputs, t, keys, s, pos, partial, i + 1),
            other => other,
        }
    }
}

/// The right-hand side of `=` in a join against a left-hand column of type
/// `t` with `keys`: by the key rules, else an aggregate-result column of
/// type `t`.
pub open spec fn comparable_key_spec(st: QplState, sv: SchemaView, inputs: Seq<usize>, t: ColumnType, keys: Seq<KeyView>, s: Seq<u8>, pos: int, partial: bool) -> Result<
    (Seq<u8>, int),
    ParseError,
> {
    match keys_rule_spec(st, sv, inputs, t, keys, s, pos, partial, 0) {
        Err(ParseError::Mismatch) => match indexed_column_spec(st, sv, inputs, s, pos, partial) {
            Err(x) => Err(x),
            Ok(((k, n), e)) => if has_aliased_column(st, k, n, t) {
                Ok((n, e))
            } else {
                Err(ParseError::Mismatch)
            },
        },
        other => other,
    }
}

/// `#k.col` of type `t` whose keys include `PrimaryKey{table}` (when
/// `want_primary`) or `ForeignKey{table}`.
fn keyed_column(
    st: &QplState,
    sc: &SqlSchema,
    inputs: &Vec<usize>,
    t: ColumnType,
    table: &[u8],
    want_primary: bool,
    s: &[u8],
    pos: usize,
    partial: bool,
) -> (r: Result<(Comparable, usize), ParseError>)
    requires
        pos <= s@.len(),
    ensures
        match r {
            Ok((c, e)) => pos <= e <= s@.len() && keyed_column_spec(*st, sc@, inputs@, t, wanted(table@, want_primary), s@, pos as int, partial)
                == Ok::<(Seq<u8>, int), ParseError>((c->Column_0@, e as int)) && c is Column,
            Err(k) => k != ParseError::Cut && keyed_column_spec(*st, sc@, inputs@, t, wanted(table@, want_primary), s@, pos as int, partial)
                == Err::<(Seq<u8>, int), ParseError>(k),
        },
{
    let ghost key = wanted(table@, want_primary);
    let ((k, n), e) = indexed_column(st, sc, inputs, s, pos, partial)?;
    match st.get_table(k) {
        Some(tb) => {
            let cs = tb.columns();
            let ghost cv = tb.columns_spec();
            let mut i: usize = 0;
            while i < cs.len()
                invariant
                    pos <= e <= s@.len(),
                    cv == columns_view(cs@),
                    cv == tb.columns_spec(),
                    key == wanted(table@, want_primary),
                    table_at(st.idx_to_table@, k) == Some(*tb),
                    indexed_column_spec(*st, sc@, inputs@, s@, pos as int, partial) == Ok::<
                        ((usize, Seq<u8>), int),
                        ParseError,
                    >(((k, n@), e as int)),
                    forall|i2: int| 0 <= i2 < i ==> !((#[trigger] cv[i2]).name() == n@ && cv[i2].typ() == t
                        && cv[i2].keys().contains(key)),
                decreases cs@.len() - i,
            {
                assert(cv[i as int] == cs@[i as int]@);
                let cn = cs[i].name();
                if crate::lexer::eq_bytes(cn.as_slice(), n.as_slice()) && cs[i].typ() == t {
                    let ks = cs[i].keys();
                    assert(keys_view(ks@) == cv[i as int].keys());
                    let mut j: usize = 0;
                    while j < ks.len()
                        invariant
                            pos <= e <= s@.len(),
                            i < cv.len(),
                            cv == tb.columns_spec(),
                            table_at(st.idx_to_table@, k) == Some(*tb),
                            indexed_column_spec(*st, sc@, inputs@, s@, pos as int, partial) == Ok::<
                                ((usize, Seq<u8>), int),
                                ParseError,
                            >(((k, n@), e as int)),
                            cv[i as int].name() == n@ && cv[i as int].typ() == t,
                            key == wanted(table@, want_primary),
                            keys_view(ks@) == cv[i as int].keys(),
                            forall|j2: int| 0 <= j2 < j ==> keys_view(ks@)[j2] != key,
                        decreases ks@.len() - j,
                    {
                        assert(keys_view(ks@)[j as int] == ks@[j as int]@);
                        let hit = if want_primary {
                            is_primary_key_of(&ks[j], table)
                        } else {
                            is_foreign_key_of(&ks[j], table)
                        };
                        if hit {
                            assert(keys_view(ks@)[j as int] == key);
                            assert(cv[i as int].keys().contains(key));
                            assert(has_keyed_column(*st, k, n@, t, key));
                            return Ok((Comparable::Column(n), e));
                        }
                        j += 1;
                    }
                    assert(!cv[i as int].keys().contains(key));
                }
                i += 1;
            }
            Err(ParseError::Mismatch)
        },
        None => Err(ParseError::Mismatch),
    }
}

/// The key a rule looks for: `PrimaryKey{table}` or `ForeignKey{table}`.
pub open spec fn wanted(table: Seq<u8>, want_primary: bool) -> KeyView {
    if want_primary {
        KeyView::Primary(table)
    } else {
        KeyView::Foreign(table)
    }
}

/// The right-hand side of `=` in a join (see `comparable_key_spec`).
fn comparable_key(
    st: &QplState,
    sc: &SqlSchema,
    inputs: &Vec<usize>,
    t: ColumnType,
    keys: &Vec<KeyType>,
    s: &[u8],
    pos: usize,
    partial: bool,
) -> (r: Result<(Comparable, usize), ParseError>)
    requires
        pos <= s@.len(),
    ensures
        match r {
            Ok((c, e)) => pos <= e <= s@.len() && c is Column && comparable_key_spec(*st, sc@, inputs@, t, keys_view(keys@), s@, pos as int, partial)
                == Ok::<(Seq<u8>, int), ParseError>((c->Column_0@, e as int)),
            Err(k) => k != ParseError::Cut && comparable_key_spec(*st, sc@, inputs@, t, keys_view(keys@), s@, pos as int, partial)
                == Err::<(Seq<u8>, int), ParseError>(k),
        },
{
    let ghost kv = keys_view(keys@);
    let mut i: usize = 0;
    while i < keys.len()
        invariant
            pos <= s@.len(),
            kv == keys_view(keys@),
            keys_rule_spec(*st, sc@, inputs@, t, kv, s@, pos as int, partial, 0) == keys_rule_spec(*st, sc@, inputs@, t, kv, s@, pos as int, partial, i as int),
        decreases keys@.len() - i,
    {
        assert(kv[i as int] == keys@[i as int]@);
        let r = match &keys[i] {
            KeyType::PrimaryKey { table } => keyed_column(st, sc, inputs, t, table.as_slice(), false, s, pos, partial),
            KeyType::ForeignKey { table } => match keyed_column(st, sc, inputs, t, table.as_slice(), false, s, pos, partial) {
                Err(ParseError::Mismatch) => keyed_column(st, sc, inputs, t, table.as_slice(), true, s, pos, partial),
                other => other,
            },
        };
        match r {
            Err(ParseError::Mismatch) => {},
            other => {
                return other;
            },
        }
        i += 1;
    }
    // an aggregate-result column of the same type
    let ((k, n), e) = indexed_column(st, sc, inputs, s, pos, partial)?;
    match st.get_table(k) {
        Some(tb) => {
            let cs = tb.columns();
            let ghost cv = tb.columns_spec();
            let mut i: usize = 0;
            while i < cs.len()
                invariant
                    pos <= e <= s@.len(),
                    cv == columns_view(cs@),
                    cv == tb.columns_spec(),
                    table_at(st.idx_to_table@, k) == Some(*tb),
                    indexed_column_spec(*st, sc@, inputs@, s@, pos as int, partial) == Ok::<
                        ((usize, Seq<u8>), int),
                        ParseError,
                    >(((k, n@), e as int)),
                    kv == keys_view(keys@),
                    keys_rule_spec(*st, sc@, inputs@, t, kv, s@, pos as int, partial, 0) == Err::<
                        (Seq<u8>, int),
                        ParseError,
                    >(ParseError::Mismatch),
                    forall|i2: int| 0 <= i2 < i ==> !((#[trigger] cv[i2]) is Aliased && cv[i2].name() == n@ && cv[i2].typ() == t),
                decreases cs@.len() - i,
            {
                assert(cv[i as int] == cs@[i as int]@);
                if cs[i].is_aliased() && cs[i].typ() == t {
                    let cn = cs[i].name();
                    if crate::lexer::eq_bytes(cn.as_slice(), n.as_slice()) {
                        assert(cv[i as int] is Aliased && cv[i as int].name() == n@ && cv[i as int].typ() == t);
                        assert(has_aliased_column(*st, k, n@, t));
                        assert(keys_rule_spec(*st, sc@, inputs@, t, keys_view(keys@), s@, pos as int, partial, 0) == Err::<(Seq<u8>, int), ParseError>(ParseError::Mismatch));
                        return Ok((Comparable::Column(n), e));
                    }
                }
                i += 1;
            }
            Err(ParseError::Mismatch)
        },
        None => Err(ParseError::Mismatch),
    }
}

/// One comparison `<column> <op> <comparable>` (§4.4): under type checking
/// the left-hand column's type restricts the right-hand side, and in a join
/// `=` against a non-aggregate column follows the key rule.
/// One comparison (§4.4): under type checking the left-hand column's type
/// restricts the right-hand side, and in a join `=` against a non-aggregate
/// column follows the key rule.
pub open spec fn comparison_spec(st: QplState, sv: SchemaView, scope: Scope, inputs: Seq<usize>, tc: bool, s: Seq<u8>, pos: int, partial: bool) -> Result<
    ((CompOp, CmpView, CmpView), int),
    ParseError,
> {
    match scope {
        Scope::Table(t) => comparison_table_spec(st, sv, t, inputs, tc, s, pos, partial),
        Scope::Line(k) => comparison_line_spec(st, sv, k, inputs, tc, s, pos, partial),
        Scope::Lines(sharpen) => comparison_lines_spec(st, sv, sharpen, inputs, tc, s, pos, partial),
    }
}

/// A comparison whose columns are those of table `t` of the schema.
#[verifier::opaque]
pub open spec fn comparison_table_spec(st: QplState, sv: SchemaView, t: usize, inputs: Seq<usize>, tc: bool, s: Seq<u8>, pos: int, partial: bool) -> Result<
    ((CompOp, CmpView, CmpView), int),
    ParseError,
> {
    match column_in_table_spec(sv, t as int, s, pos, partial) {
        Err(x) => Err(x),
        Ok((j, _, p)) => {
            let n = sv.column_names[j];
            match spaced_op_spec(s, p, partial) {
                Err(x) => Err(x),
                Ok((op, p)) => {
                    let typed = if tc {
                        Some(sv.column_types[crate::keys::find_column_spec(sv, t as int, n)->Some_0])
                    } else {
                        None
                    };
                    match comparable_spec(st, sv, Scope::Table(t), inputs, typed, s, p, partial) {
                        Ok((rv, e)) => Ok(((op, CmpView::Column(n), rv), e)),
                        Err(x) => Err(x),
                    }
                },
            }
        },
    }
}

/// A comparison whose columns are those of line `k`.
#[verifier::opaque]
pub open spec fn comparison_line_spec(st: QplState, sv: SchemaView, k: usize, inputs: Seq<usize>, tc: bool, s: Seq<u8>, pos: int, partial: bool) -> Result<
    ((CompOp, CmpView, CmpView), int),
    ParseError,
> {
    match column_of_index_spec(st, sv, k, s, pos, partial) {
        Err(x) => Err(x),
        Ok((n, p)) => match spaced_op_spec(s, p, partial) {
            Err(x) => Err(x),
            Ok((op, p)) => {
                let typed = if tc {
                    match line_first(st, k, n) {
                        Some(c) => Some(c.typ()),
                        None => None,
                    }
                } else {
                    None
                };
                if tc && line_first(st, k, n) is None {
                    Err(ParseError::Mismatch)
                } else {
                    match comparable_spec(st, sv, Scope::Line(k), inputs, typed, s, p, partial) {
                        Ok((rv, e)) => Ok(((op, CmpView::Column(n), rv), e)),
                        Err(x) => Err(x),
                    }
                }
            },
        },
    }
}

/// A comparison over `#k.col` of the inputs; `sharpen` applies the key rule.
#[verifier::opaque]
pub open spec fn comparison_lines_spec(st: QplState, sv: SchemaView, sharpen: bool, inputs: Seq<usize>, tc: bool, s: Seq<u8>, pos: int, partial: bool) -> Result<
    ((CompOp, CmpView, CmpView), int),
    ParseError,
> {
    match indexed_column_spec(st, sv, inputs, s, pos, partial) {
        Err(x) => Err(x),
        Ok(((k, n), p)) => match spaced_op_spec(s, p, partial) {
            Err(x) => Err(x),
            Ok((op, p)) => if !tc {
                match comparable_spec(st, sv, Scope::Lines(sharpen), inputs, None, s, p, partial) {
                    Ok((rv, e)) => Ok(((op, CmpView::Column(n), rv), e)),
                    Err(x) => Err(x),
                }
            } else {
                match line_first(st, k, n) {
                    None => Err(ParseError::Mismatch),
                    Some(c) => if sharpen && op == CompOp::Equal && !(c is Aliased) {
                        match comparable_key_spec(st, sv, inputs, c.typ(), c.keys(), s, p, partial) {
                            Ok((m, e)) => Ok(((op, CmpView::Column(n), CmpView::Column(m)), e)),
                            Err(x) => Err(x),
                        }
                    } else {
                        match comparable_spec(st, sv, Scope::Lines(sharpen), inputs, Some(c.typ()), s, p, partial) {
                            Ok((rv, e)) => Ok(((op, CmpView::Column(n), rv), e)),
                            Err(x) => Err(x),
                        }
                    },
                }
            },
        },
    }
}

#[verifier::rlimit(80)]
fn comparison_table(
    st: &QplState,
    sc: &SqlSchema,
    t: usize,
    inputs: &Vec<usize>,
    tc: bool,
    s: &[u8],
    pos: usize,
    partial: bool,
) -> (r: Result<(Comparison, usize), ParseError>)
    requires
        pos <= s@.len(),
        sc.wf(),
    ensures
        match r {
            Ok((c, e)) => pos <= e <= s@.len() && comparison_spec(*st, sc@, Scope::Table(t), inputs@, tc, s@, pos as int, partial)
                == Ok::<((CompOp, CmpView, CmpView), int), ParseError>((comparison_view(c), e as int)),
            Err(k) => comparison_spec(*st, sc@, Scope::Table(t), inputs@, tc, s@, pos as int, partial) == Err::<
                ((CompOp, CmpView, CmpView), int),
                ParseError,
            >(k),
        },
{
    proof {
        reveal(comparison_table_spec);
    }
    let ((n, _a, c), p) = column_in_table(sc, t, s, pos, partial)?;
    proof {
        crate::keys::lemma_find_column_some(sc@, t as int, n@, c as int);
    }
    let (op, p) = spaced_comparison_op(s, p, partial)?;
    let typed = if tc {
        Some(sc.column_types[c])
    } else {
        None
    };
    let (rhs, e) = comparable(st, sc, Scope::Table(t), inputs, typed, s, p, partial)?;
    Ok((Comparison::from_op(op, Comparable::Column(n), rhs), e))
}

fn comparison_line(
    st: &QplState,
    sc: &SqlSchema,
    k: usize,
    inputs: &Vec<usize>,
    tc: bool,
    s: &[u8],
    pos: usize,
    partial: bool,
) -> (r: Result<(Comparison, usize), ParseError>)
    requires
        pos <= s@.len(),
        sc.wf(),
    ensures
        match r {
            Ok((c, e)) => pos <= e <= s@.len() && comparison_spec(*st, sc@, Scope::Line(k), inputs@, tc, s@, pos as int, partial)
                == Ok::<((CompOp, CmpView, CmpView), int), ParseError>((comparison_view(c), e as int)),
            Err(x) => comparison_spec(*st, sc@, Scope::Line(k), inputs@, tc, s@, pos as int, partial) == Err::<
                ((CompOp, CmpView, CmpView), int),
                ParseError,
            >(x),
        },
{
    proof {
        reveal(comparison_line_spec);
    }
    let (n, p) = column_of_index(st, sc, k, s, pos, partial)?;
    let (op, p) = spaced_comparison_op(s, p, partial)?;
    let typed = if tc {
        match column_info(st, k, n.as_slice()) {
            Some((ty, _, _)) => Some(ty),
            None => {
                return Err(ParseError::Mismatch);
            },
        }
    } else {
        None
    };
    let (rhs, e) = comparable(st, sc, Scope::Line(k), inputs, typed, s, p, partial)?;
    Ok((Comparison::from_op(op, Comparable::Column(n), rhs), e))
}

#[verifier::rlimit(80)]
fn comparison_lines(
    st: &QplState,
    sc: &SqlSchema,
    sharpen: bool,
    inputs: &Vec<usize>,
    tc: bool,
    s: &[u8],
    pos: usize,
    partial: bool,
) -> (r: Result<(Comparison, usize), ParseError>)
    requires
        pos <= s@.len(),
        sc.wf(),
    ensures
        match r {
            Ok((c, e)) => pos <= e <= s@.len() && comparison_spec(*st, sc@, Scope::Lines(sharpen), inputs@, tc, s@, pos as int, partial)
                == Ok::<((CompOp, CmpView, CmpView), int), ParseError>((comparison_view(c), e as int)),
            Err(x) => comparison_spec(*st, sc@, Scope::Lines(sharpen), inputs@, tc, s@, pos as int, partial) == Err::<
                ((CompOp, CmpView, CmpView), int),
                ParseError,
            >(x),
        },
{
    proof {
        reveal(comparison_lines_spec);
    }
    let scope = Scope::Lines(sharpen);
    let ((k, n), p) = indexed_column(st, sc, inputs, s, pos, partial)?;
    let (op, p) = spaced_comparison_op(s, p, partial)?;
    if !tc {
        let (rhs, e) = comparable(st, sc, scope, inputs, None, s, p, partial)?;
        return Ok((Comparison::from_op(op, Comparable::Column(n), rhs), e));
    }
    let (ty, keys, aliased) = match column_info(st, k, n.as_slice()) {
        Some(info) => info,
        None => {
            return Err(ParseError::Mismatch);
        },
    };
    if sharpen && op == CompOp::Equal && !aliased {
        let (rhs, e) = comparable_key(st, sc, inputs, ty, &keys, s, p, partial)?;
        Ok((Comparison::from_op(op, Comparable::Column(n), rhs), e))
    } else {
        let (rhs, e) = comparable(st, sc, scope, inputs, Some(ty), s, p, partial)?;
        Ok((Comparison::from_op(op, Comparable::Column(n), rhs), e))
    }
}

/// One comparison (see `comparison_spec`).
pub(crate) fn comparison(
    st: &QplState,
    sc: &SqlSchema,
    scope: Scope,
    inputs: &Vec<usize>,
    tc: bool,
    s: &[u8],
    pos: usize,
    partial: bool,
) -> (r: Result<(Comparison, usize), ParseError>)
    requires
        pos <= s@.len(),
        sc.wf(),
    ensures
        match r {
            Ok((c, e)) => pos <= e <= s@.len() && comparison_spec(*st, sc@, scope, inputs@, tc, s@, pos as int, partial)
                == Ok::<((CompOp, CmpView, CmpView), int), ParseError>((comparison_view(c), e as int)),
            Err(k) => comparison_spec(*st, sc@, scope, inputs@, tc, s@, pos as int, partial) == Err::<
                ((CompOp, CmpView, CmpView), int),
                ParseError,
            >(k),
        },
{
    match scope {
        Scope::Table(t) => comparison_table(st, sc, t, inputs, tc, s, pos, partial),
        Scope::Line(k) => comparison_line(st, sc, k, inputs, tc, s, pos, partial),
        Scope::Lines(sharpen) => comparison_lines(st, sc, sharpen, inputs, tc, s, pos, partial),
    }
}

/// ` AND `.
pub open spec fn and_text() -> Seq<u8> {
    seq![32u8, 65u8, 78u8, 68u8, 32u8]
}

/// ` OR `.
pub open spec fn or_text() -> Seq<u8> {
    seq![32u8, 79u8, 82u8, 32u8]
}

/// The rest of a predicate after `p`, folded to the left onto `acc`: each
/// further comparison follows ` AND ` or ` OR `.
pub open spec fn more_preds(st: QplState, sv: SchemaView, scope: Scope, inputs: Seq<usize>, tc: bool, acc: PredView, s: Seq<u8>, p: int, partial: bool) -> Result<
    (PredView, int),
    ParseError,
>
    decreases s.len() - p,
{
    if p < 0 || p > s.len() {
        Err(ParseError::Mismatch)
    } else {
        let conn = match literal_spec(s, p, and_text(), false, partial) {
            Ok(q) => Ok((true, q)),
            Err(ParseError::Mismatch) => match literal_spec(s, p, or_text(), false, partial) {
                Ok(q) => Ok((false, q)),
                Err(x) => Err(x),
            },
            Err(x) => Err(x),
        };
        match conn {
            Err(ParseError::Mismatch) => Ok((acc, p)),
            Err(x) => Err(x),
            Ok((is_and, q)) => if q <= p {
                Err(ParseError::Cut)
            } else {
                match comparison_spec(st, sv, scope, inputs, tc, s, q, partial) {
                    Ok(((op, l, r), e)) => if e < q || e > s.len() {
                        Err(ParseError::Cut)
                    } else {
                        let single = PredView::Single(op, l, r);
                        let next = if is_and {
                            PredView::And(Box::new(acc), Box::new(single))
                        } else {
                            PredView::Or(Box::new(acc), Box::new(single))
                        };
                        more_preds(st, sv, scope, inputs, tc, next, s, e, partial)
                    },
                    Err(ParseError::Mismatch) => Ok((acc, p)),
                    Err(x) => Err(x),
                }
            },
        }
    }
}

/// Comparisons joined by ` AND ` / ` OR `, folded to the left.
#[verifier::opaque]
pub open spec fn predicate_spec(st: QplState, sv: SchemaView, scope: Scope, inputs: Seq<usize>, tc: bool, s: Seq<u8>, pos: int, partial: bool) -> Result<
    (PredView, int),
    ParseError,
> {
    match comparison_spec(st, sv, scope, inputs, tc, s, pos, partial) {
        Err(x) => Err(x),
        Ok(((op, l, r), e)) => if e < pos {
            Err(ParseError::Cut)
        } else {
            more_preds(st, sv, scope, inputs, tc, PredView::Single(op, l, r), s, e, partial)
        },
    }
}

/// Comparisons joined by ` AND ` / ` OR ` (see `predicate_spec`).
pub(crate) fn predicate(
    st: &QplState,
    sc: &SqlSchema,
    scope: Scope,
    inputs: &Vec<usize>,
    tc: bool,
    s: &[u8],
    pos: usize,
    partial: bool,
) -> (r: Result<(Predicate, usize), ParseError>)
    requires
        pos <= s@.len(),
        sc.wf(),
    ensures
        match r {
            Ok((pr, e)) => pos <= e <= s@.len() && predicate_spec(*st, sc@, scope, inputs@, tc, s@, pos as int, partial)
                == Ok::<(PredView, int), ParseError>((pred_view(pr), e as int)),
            Err(k) => predicate_spec(*st, sc@, scope, inputs@, tc, s@, pos as int, partial) == Err::<
                (PredView, int),
                ParseError,
            >(k),
        },
{
    proof {
        reveal(predicate_spec);
    }
    let and_kw: Vec<u8> = vec![32u8, 65u8, 78u8, 68u8, 32u8];
    assert(and_kw@ =~= and_text());
    let or_kw: Vec<u8> = vec![32u8, 79u8, 82u8, 32u8];
    assert(or_kw@ =~= or_text());
    let (c, first_end) = comparison(st, sc, scope, inputs, tc, s, pos, partial)?;
    let mut acc = Predicate::Single { comparison: c };
    let mut p = first_end;
    loop
        invariant
            pos <= p <= s@.len(),
            sc.wf(),
            and_kw@ == and_text(),
            or_kw@ == or_text(),
            predicate_spec(*st, sc@, scope, inputs@, tc, s@, pos as int, partial) == more_preds(
                *st,
                sc@,
                scope,
                inputs@,
                tc,
                pred_view(acc),
                s@,
                p as int,
                partial,
            ),
        decreases s@.len() - p,
    {
        let (is_and, q) = match literal(s, p, and_kw.as_slice(), false, partial) {
            Ok(q) => (true, q),
            Err(ParseError::Mismatch) => match literal(s, p, or_kw.as_slice(), false, partial) {
                Ok(q) => (false, q),
                Err(ParseError::Mismatch) => {
                    return Ok((acc, p));
                },
                Err(k) => {
                    return Err(k);
                },
            },
            Err(k) => {
                return Err(k);
            },
        };
        if q <= p {
            return Err(ParseError::Cut);
        }
        match comparison(st, sc, scope, inputs, tc, s, q, partial) {
            Ok((c, e)) => {
                let ghost old_acc = pred_view(acc);
                let rhs = Predicate::Single { comparison: c };
                let ghost single = pred_view(rhs);
                assert(single == PredView::Single(comparison_view(c).0, comparison_view(c).1, comparison_view(c).2));
                acc = if is_and {
                    Predicate::And { lhs: Box::new(acc), rhs: Box::new(rhs) }
                } else {
                    Predicate::Or { lhs: Box::new(acc), rhs: Box::new(rhs) }
                };
                assert(pred_view(acc) == if is_and {
                    PredView::And(Box::new(old_acc), Box::new(single))
                } else {
                    PredView::Or(Box::new(old_acc), Box::new(single))
                });
                p = e;
            },
            Err(ParseError::Mismatch) => {
                return Ok((acc, p));
            },
            Err(k) => {
                return Err(k);
            },
        }
    }
}

/// `Predicate [ `.
pub open spec fn predicate_open_text() -> Seq<u8> {
    seq![80u8, 114u8, 101u8, 100u8, 105u8, 99u8, 97u8, 116u8, 101u8, 32u8, 91u8, 32u8]
}

/// `Predicate [ <predicate> ] `.
#[verifier::opaque]
pub open spec fn predicate_block_spec(st: QplState, sv: SchemaView, scope: Scope, inputs: Seq<usize>, tc: bool, s: Seq<u8>, pos: int, partial: bool) -> Result<
    (PredView, int),
    ParseError,
> {
    match literal_spec(s, pos, predicate_open_text(), false, partial) {
        Err(x) => Err(x),
        Ok(p) => match predicate_spec(st, sv, scope, inputs, tc, s, p, partial) {
            Err(x) => Err(x),
            Ok((pv, p)) => match literal_spec(s, p, seq![32u8, 93u8, 32u8], false, partial) {
                Ok(e) => Ok((pv, e)),
                Err(x) => Err(x),
            },
        },
    }
}

/// `Predicate [ <predicate> ] ` (see `predicate_block_spec`).
pub(crate) fn predicate_block(
    st: &QplState,
    sc: &SqlSchema,
    scope: Scope,
    inputs: &Vec<usize>,
    tc: bool,
    s: &[u8],
    pos: usize,
    partial: bool,
) -> (r: Result<(Predicate, usize), ParseError>)
    requires
        pos <= s@.len(),
        sc.wf(),
    ensures
        match r {
            Ok((pr, e)) => pos <= e <= s@.len() && predicate_block_spec(*st, sc@, scope, inputs@, tc, s@, pos as int, partial)
                == Ok::<(PredView, int), ParseError>((pred_view(pr), e as int)),
            Err(k) => predicate_block_spec(*st, sc@, scope, inputs@, tc, s@, pos as int, partial) == Err::<
                (PredView, int),
                ParseError,
            >(k),
        },
{
    proof {
        reveal(predicate_block_spec);
    }
    let open: Vec<u8> = vec![80u8, 114u8, 101u8, 100u8, 105u8, 99u8, 97u8, 116u8, 101u8, 32u8, 91u8, 32u8];
    assert(open@ =~= predicate_open_text());
    let close: Vec<u8> = vec![32u8, 93u8, 32u8];
    assert(close@ =~= seq![32u8, 93u8, 32u8]);
    let p = literal(s, pos, open.as_slice(), false, partial)?;
    let (pr, p) = predicate(st, sc, scope, inputs, tc, s, p, partial)?;
    let e = literal(s, p, close.as_slice(), false, partial)?;
    Ok((pr, e))
}

} // verus!
