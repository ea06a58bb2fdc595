use vstd::prelude::*;

use crate::domain::{columns_view, copy_bytes, dummy_name, names_view, pred_view, PredView, Agg, ExceptOperator, Operation, SchemaView, SqlSchema, Table};
use crate::lexer::{dec_uint, dec_uint_spec, literal, literal_spec, ParseError};
use crate::names::{choice_spec, is_agg_name, name_choice_spec, starts_with_agg, table_name};
use crate::outputs::{
    derive_from_indexed, derive_from_names, derive_scan, dummy_bytes, dummy_output,
    derivable, derived_column, index_columns, scan_column, scan_items_view, scan_outputs_spec, indexed_column_for, indexed_derivable,
    indexed_outputs_spec, indexed_or_dummy_spec, ix_view, prepend, index_columns_spec, indexed_or_dummy, indexed_outputs, line_has,
    name_outputs, name_outputs_spec, orderings, orderings_spec, provenance_ok, scan_outputs,
};
use crate::shared::{
    column_in_index, column_in_index_spec, indexed_column_spec, list_sep, list_sep_spec,
    predicate_block_spec, indexed_column, input_ids, input_ids_spec, predicate_block, seq_nat, Scope,
};
use crate::state::{count_star_spelling, distinct_names, has_duplicate_names, synthesized, QplState};

verus! {

/// What every accepted operation guarantees of its derived table: it reads
/// only completed lines; no two columns share a name; a `Scan` yields plain
/// columns (or the dummy), any other operation columns that are the dummy,
/// aggregate results, or named like a column of one of its inputs.
pub open spec fn op_ok(st: QplState, op: Operation, t: Table) -> bool {
    &&& forall|i: int|
        0 <= i < op.inputs_spec().len() ==> st.has_seen(#[trigger] op.inputs_spec()[i])
    &&& distinct_names(t.columns_spec())
    &&& op is Scan ==> forall|i: int|
        0 <= i < t.columns_spec().len() ==> (#[trigger] t.columns_spec()[i] is Dummy
            || t.columns_spec()[i] is Plain)
    &&& !(op is Scan) ==> provenance_ok(st, op.inputs_spec(), t.columns_spec())
}

/// The result of an operation parser.
pub open spec fn op_result_ok(
    st: QplState,
    s: Seq<u8>,
    pos: int,
    r: Result<(Operation, Table, usize), ParseError>,
) -> bool {
    match r {
        Ok((op, t, e)) => pos <= e <= s.len() && op_ok(st, op, t),
        Err(_) => true,
    }
}

/// The keyword that starts each operation.
#[derive(Clone, Copy, PartialEq, Eq, Structural)]
pub enum Keyword {
    Scan,
    Filter,
    Aggregate,
    Top,
    Sort,
    TopSort,
    Join,
    Intersect,
    Except,
    Union,
}

/// How a keyword is written, with the text that follows it up to its first
/// argument: `Scan Table [ `, `Filter `, `Aggregate `, ….
pub open spec fn keyword_text(k: Keyword) -> Seq<u8> {
    match k {
        Keyword::Scan => seq![83u8, 99u8, 97u8, 110u8, 32u8, 84u8, 97u8, 98u8, 108u8, 101u8, 32u8, 91u8, 32u8],
        Keyword::Filter => seq![70u8, 105u8, 108u8, 116u8, 101u8, 114u8, 32u8],
        Keyword::Aggregate => seq![65u8, 103u8, 103u8, 114u8, 101u8, 103u8, 97u8, 116u8, 101u8, 32u8],
        Keyword::Top => seq![84u8, 111u8, 112u8, 32u8],
        Keyword::Sort => seq![83u8, 111u8, 114u8, 116u8, 32u8],
        Keyword::TopSort => seq![84u8, 111u8, 112u8, 83u8, 111u8, 114u8, 116u8, 32u8],
        Keyword::Join => seq![74u8, 111u8, 105u8, 110u8, 32u8],
        Keyword::Intersect => seq![73u8, 110u8, 116u8, 101u8, 114u8, 115u8, 101u8, 99u8, 116u8, 32u8],
        Keyword::Except => seq![69u8, 120u8, 99u8, 101u8, 112u8, 116u8, 32u8],
        Keyword::Union => seq![85u8, 110u8, 105u8, 111u8, 110u8, 32u8],
    }
}

fn keyword_bytes(k: Keyword) -> (r: Vec<u8>)
    ensures
        r@ == keyword_text(k),
{
    let r = match k {
        Keyword::Scan => vec![83u8, 99u8, 97u8, 110u8, 32u8, 84u8, 97u8, 98u8, 108u8, 101u8, 32u8, 91u8, 32u8],
        Keyword::Filter => vec![70u8, 105u8, 108u8, 116u8, 101u8, 114u8, 32u8],
        Keyword::Aggregate => vec![65u8, 103u8, 103u8, 114u8, 101u8, 103u8, 97u8, 116u8, 101u8, 32u8],
        Keyword::Top => vec![84u8, 111u8, 112u8, 32u8],
        Keyword::Sort => vec![83u8, 111u8, 114u8, 116u8, 32u8],
        Keyword::TopSort => vec![84u8, 111u8, 112u8, 83u8, 111u8, 114u8, 116u8, 32u8],
        Keyword::Join => vec![74u8, 111u8, 105u8, 110u8, 32u8],
        Keyword::Intersect => vec![73u8, 110u8, 116u8, 101u8, 114u8, 115u8, 101u8, 99u8, 116u8, 32u8],
        Keyword::Except => vec![69u8, 120u8, 99u8, 101u8, 112u8, 116u8, 32u8],
        Keyword::Union => vec![85u8, 110u8, 105u8, 111u8, 110u8, 32u8],
    };
    assert(r@ =~= keyword_text(k));
    r
}

/// The keyword, then the input list: the line numbers read.
pub open spec fn header_spec(seen: Seq<usize>, s: Seq<u8>, pos: int, partial: bool, k: Keyword) -> Result<
    (Seq<nat>, int),
    ParseError,
> {
    match literal_spec(s, pos, keyword_text(k), false, partial) {
        Ok(p) => input_ids_spec(seen, s, p, partial),
        Err(e) => Err(e),
    }
}

/// An operation's inputs are those its header names.
pub open spec fn inputs_from_header(st: QplState, s: Seq<u8>, pos: int, partial: bool, k: Keyword, op: Operation) -> bool {
    &&& header_spec(st.seen@, s, pos, partial, k) is Ok
    &&& seq_nat(op.inputs_spec()) == header_spec(st.seen@, s, pos, partial, k)->Ok_0.0
}

/// The table a `Scan` reads is the one its header names, longest name first.
pub open spec fn scan_table_from_header(sc: SchemaView, s: Seq<u8>, pos: int, partial: bool, table: Seq<u8>) -> bool {
    let p = literal_spec(s, pos, keyword_text(Keyword::Scan), false, partial);
    &&& p is Ok
    &&& choice_spec(sc.table_names, s, p->Ok_0, partial) is Ok
    &&& table == sc.table_names[choice_spec(sc.table_names, s, p->Ok_0, partial)->Ok_0.0]
}

/// Fixed texts of the operations' grammar.
#[derive(Clone, Copy, PartialEq, Eq, Structural)]
pub enum Fixed {
    Distinct,
    WithTies,
    OrderBy,
    ThenOrderBy,
    Close,
    Output,
}

/// `Distinct [ true ] `, `WithTies [ true ] `, `OrderBy [ `, ` ] OrderBy [ `,
/// ` ] `, `Output [ `.
pub open spec fn fixed_text(f: Fixed) -> Seq<u8> {
    match f {
        Fixed::Distinct => seq![68u8, 105u8, 115u8, 116u8, 105u8, 110u8, 99u8, 116u8, 32u8, 91u8, 32u8, 116u8, 114u8, 117u8, 101u8, 32u8, 93u8, 32u8],
        Fixed::WithTies => seq![87u8, 105u8, 116u8, 104u8, 84u8, 105u8, 101u8, 115u8, 32u8, 91u8, 32u8, 116u8, 114u8, 117u8, 101u8, 32u8, 93u8, 32u8],
        Fixed::OrderBy => seq![79u8, 114u8, 100u8, 101u8, 114u8, 66u8, 121u8, 32u8, 91u8, 32u8],
        Fixed::ThenOrderBy => seq![32u8, 93u8, 32u8, 79u8, 114u8, 100u8, 101u8, 114u8, 66u8, 121u8, 32u8, 91u8, 32u8],
        Fixed::Close => seq![32u8, 93u8, 32u8],
        Fixed::Output => seq![79u8, 117u8, 116u8, 112u8, 117u8, 116u8, 32u8, 91u8, 32u8],
    }
}

fn fixed_bytes(f: Fixed) -> (r: Vec<u8>)
    ensures
        r@ == fixed_text(f),
{
    let r = match f {
        Fixed::Distinct => vec![68u8, 105u8, 115u8, 116u8, 105u8, 110u8, 99u8, 116u8, 32u8, 91u8, 32u8, 116u8, 114u8, 117u8, 101u8, 32u8, 93u8, 32u8],
        Fixed::WithTies => vec![87u8, 105u8, 116u8, 104u8, 84u8, 105u8, 101u8, 115u8, 32u8, 91u8, 32u8, 116u8, 114u8, 117u8, 101u8, 32u8, 93u8, 32u8],
        Fixed::OrderBy => vec![79u8, 114u8, 100u8, 101u8, 114u8, 66u8, 121u8, 32u8, 91u8, 32u8],
        Fixed::ThenOrderBy => vec![32u8, 93u8, 32u8, 79u8, 114u8, 100u8, 101u8, 114u8, 66u8, 121u8, 32u8, 91u8, 32u8],
        Fixed::Close => vec![32u8, 93u8, 32u8],
        Fixed::Output => vec![79u8, 117u8, 116u8, 112u8, 117u8, 116u8, 32u8, 91u8, 32u8],
    };
    assert(r@ =~= fixed_text(f));
    r
}

/// An optional flag block: present or not, and the end.
pub open spec fn flag_spec(s: Seq<u8>, pos: int, f: Fixed, partial: bool) -> Result<(bool, int), ParseError> {
    match literal_spec(s, pos, fixed_text(f), false, partial) {
        Ok(e) => Ok((true, e)),
        Err(ParseError::Mismatch) => Ok((false, pos)),
        Err(k) => Err(k),
    }
}

/// An optional flag block such as `Distinct [ true ] `.
fn flag(s: &[u8], pos: usize, f: Fixed, partial: bool) -> (r: Result<(bool, usize), ParseError>)
    requires
        pos <= s@.len(),
    ensures
        match r {
            Ok((b, e)) => pos <= e <= s@.len() && flag_spec(s@, pos as int, f, partial) == Ok::<
                (bool, int),
                ParseError,
            >((b, e as int)),
            Err(k) => k != ParseError::Cut && flag_spec(s@, pos as int, f, partial) == Err::<
                (bool, int),
                ParseError,
            >(k),
        },
{
    let lit = fixed_bytes(f);
    match literal(s, pos, lit.as_slice(), false, partial) {
        Ok(e) => Ok((true, e)),
        Err(ParseError::Mismatch) => Ok((false, pos)),
        Err(k) => Err(k),
    }
}

/// The model of an optional predicate.
pub open spec fn opt_pred_view(p: Option<crate::domain::Predicate>) -> Option<PredView> {
    match p {
        Some(x) => Some(pred_view(x)),
        None => None,
    }
}

/// An optional `Predicate [ … ] ` block.
pub open spec fn opt_predicate_spec(st: QplState, sv: SchemaView, scope: Scope, inputs: Seq<usize>, tc: bool, s: Seq<u8>, pos: int, partial: bool) -> Result<
    (Option<PredView>, int),
    ParseError,
> {
    match predicate_block_spec(st, sv, scope, inputs, tc, s, pos, partial) {
        Ok((pv, e)) => Ok((Some(pv), e)),
        Err(ParseError::Mismatch) => Ok((None, pos)),
        Err(x) => Err(x),
    }
}

fn opt_predicate(
    st: &QplState,
    sc: &SqlSchema,
    scope: Scope,
    inputs: &Vec<usize>,
    tc: bool,
    s: &[u8],
    pos: usize,
    partial: bool,
) -> (r: Result<(Option<crate::domain::Predicate>, usize), ParseError>)
    requires
        pos <= s@.len(),
        sc.wf(),
    ensures
        match r {
            Ok((pr, e)) => pos <= e <= s@.len() && opt_predicate_spec(*st, sc@, scope, inputs@, tc, s@, pos as int, partial)
                == Ok::<(Option<PredView>, int), ParseError>((opt_pred_view(pr), e as int)),
            Err(x) => opt_predicate_spec(*st, sc@, scope, inputs@, tc, s@, pos as int, partial) == Err::<
                (Option<PredView>, int),
                ParseError,
            >(x),
        },
{
    match predicate_block(st, sc, scope, inputs, tc, s, pos, partial) {
        Ok((p, e)) => Ok((Some(p), e)),
        Err(ParseError::Mismatch) => Ok((None, pos)),
        Err(k) => Err(k),
    }
}

/// Every output name is a column name of line `k` (aggregate-result names
/// aside, when `skip_agg`).
pub open spec fn all_in_spec(st: QplState, k: usize, outs: Seq<Seq<u8>>, skip_agg: bool) -> bool {
    forall|i: int|
        0 <= i < outs.len() ==> (skip_agg && is_agg_name(#[trigger] outs[i])) || line_has(st, k, outs[i])
}

fn all_in(st: &QplState, k: usize, outs: &Vec<Vec<u8>>, skip_agg: bool) -> (r: bool)
    ensures
        r == all_in_spec(*st, k, names_view(outs@), skip_agg),
{
    let mut i: usize = 0;
    while i < outs.len()
        invariant
            i <= outs@.len(),
            forall|j: int|
                0 <= j < i ==> (skip_agg && is_agg_name(#[trigger] names_view(outs@)[j])) || line_has(
                    *st,
                    k,
                    names_view(outs@)[j],
                ),
        decreases outs@.len() - i,
    {
        assert(names_view(outs@)[i as int] == outs@[i as int]@);
        let o = outs[i].as_slice();
        if !(skip_agg && starts_with_agg(o)) && !st.has_column(k, o) {
            assert(!line_has(*st, k, names_view(outs@)[i as int]));
            return false;
        }
        i += 1;
    }
    true
}

/// The list is exactly `1 AS One`.
fn is_dummy_list(outs: &Vec<Vec<u8>>) -> (r: bool)
    ensures
        r == (names_view(outs@) == seq![dummy_name()]),
{
    assert(names_view(outs@).len() == outs@.len());
    if outs.len() == 1 {
        let d = dummy_bytes();
        assert(names_view(outs@)[0] == outs@[0]@);
        let r = crate::lexer::eq_bytes(outs[0].as_slice(), d.as_slice());
        assert(r ==> names_view(outs@) =~= seq![dummy_name()]);
        assert(names_view(outs@) == seq![dummy_name()] ==> names_view(outs@)[0] == dummy_name());
        r
    } else {
        assert(seq![dummy_name()].len() == 1);
        false
    }
}

/// The single input of a one-input operation.
fn single(ids: &Vec<usize>) -> (r: Option<usize>)
    ensures
        match r {
            Some(k) => ids@.len() == 1 && ids@[0] == k,
            None => ids@.len() != 1,
        },
{
    if ids.len() == 1 {
        Some(ids[0])
    } else {
        None
    }
}

/// What a `Scan` line reads: the table (by index), predicate, flag, whether
/// the output is the dummy, the outputs (name and shown name) and the end.
pub ghost struct ScanView {
    pub table: usize,
    pub predicate: Option<PredView>,
    pub is_distinct: bool,
    pub dummy: bool,
    pub items: Seq<(Seq<u8>, Seq<u8>)>,
    pub end: int,
}

/// `Scan Table [ t ] [Predicate [ … ] ][Distinct [ true ] ]Output [ 1 AS One | <columns> ]`:
/// the longest table name; the predicate over that table; outputs that are
/// its columns, optionally renamed, under distinct names.
#[verifier::opaque]
pub open spec fn scan_spec(st: QplState, sv: SchemaView, tc: bool, s: Seq<u8>, pos: int, partial: bool) -> Result<
    ScanView,
    ParseError,
> {
    match literal_spec(s, pos, keyword_text(Keyword::Scan), false, partial) {
        Err(x) => Err(x),
        Ok(p) => match choice_spec(sv.table_names, s, p, partial) {
            Err(x) => Err(x),
            Ok((ti, p)) => match literal_spec(s, p, fixed_text(Fixed::Close), false, partial) {
                Err(x) => Err(x),
                Ok(p) => scan_tail_spec(st, sv, ti as usize, tc, s, p, partial),
            },
        },
    }
}

/// A `Scan` after its table: `[Predicate [ … ] ][Distinct [ true ] ]Output [ … ]`.
#[verifier::opaque]
pub open spec fn scan_tail_spec(st: QplState, sv: SchemaView, t: usize, tc: bool, s: Seq<u8>, p: int, partial: bool) -> Result<
    ScanView,
    ParseError,
> {
    match opt_predicate_spec(st, sv, Scope::Table(t), Seq::empty(), tc, s, p, partial) {
        Err(x) => Err(x),
        Ok((predicate, p)) => match flag_spec(s, p, Fixed::Distinct, partial) {
            Err(x) => Err(x),
            Ok((is_distinct, p)) => match literal_spec(s, p, fixed_text(Fixed::Output), false, partial) {
                Err(x) => Err(x),
                Ok(p) => match scan_body_spec(sv, t, s, p, partial) {
                    Err(x) => Err(x),
                    Ok((dummy, items, e)) => Ok(ScanView { table: t, predicate, is_distinct, dummy, items, end: e }),
                },
            },
        },
    }
}

/// The dummy, or a list of columns of table `t`: whether it was the dummy,
/// the outputs, and the end.
#[verifier::opaque]
pub open spec fn scan_outs_spec(sv: SchemaView, t: usize, s: Seq<u8>, p: int, partial: bool) -> Result<
    (bool, Seq<(Seq<u8>, Seq<u8>)>, int),
    ParseError,
> {
    match literal_spec(s, p, dummy_name(), false, partial) {
        Ok(e) => Ok((true, Seq::<(Seq<u8>, Seq<u8>)>::empty(), e)),
        Err(ParseError::Mismatch) => match scan_outputs_spec(sv, t, s, p, partial) {
            Ok((items, e)) => Ok((false, items, e)),
            Err(x) => Err(x),
        },
        Err(x) => Err(x),
    }
}

fn scan_outs(sc: &SqlSchema, t: usize, s: &[u8], p: usize, partial: bool) -> (r: Result<
    (Vec<(Vec<u8>, Option<Vec<u8>>, usize)>, bool, usize),
    ParseError,
>)
    requires
        p <= s@.len(),
        sc.wf(),
    ensures
        match r {
            Ok((outs, dummy, e)) => p <= e <= s@.len() && scan_outs_spec(sc@, t, s@, p as int, partial)
                == Ok::<(bool, Seq<(Seq<u8>, Seq<u8>)>, int), ParseError>((dummy, scan_items_view(outs@), e as int))
                && forall|i: int|
                0 <= i < outs@.len() ==> (#[trigger] outs@[i]).2 < sc@.column_types.len()
                    && crate::keys::find_column_spec(sc@, t as int, outs@[i].0@) == Some(outs@[i].2 as int),
            Err(x) => scan_outs_spec(sc@, t, s@, p as int, partial) == Err::<
                (bool, Seq<(Seq<u8>, Seq<u8>)>, int),
                ParseError,
            >(x),
        },
{
    proof {
        reveal(scan_outs_spec);
    }
    match dummy_output(s, p, partial) {
        Ok(e) => {
            let v: Vec<(Vec<u8>, Option<Vec<u8>>, usize)> = Vec::new();
            assert(scan_items_view(v@) =~= Seq::<(Seq<u8>, Seq<u8>)>::empty());
            Ok((v, true, e))
        },
        Err(ParseError::Mismatch) => {
            let (o, e) = scan_outputs(sc, t, s, p, partial)?;
            Ok((o, false, e))
        },
        Err(k) => Err(k),
    }
}

/// A `Scan`'s outputs after `Output [ `: the dummy, or columns of table `t`
/// under distinct names; then ` ]`.
#[verifier::opaque]
pub open spec fn scan_body_spec(sv: SchemaView, t: usize, s: Seq<u8>, p: int, partial: bool) -> Result<
    (bool, Seq<(Seq<u8>, Seq<u8>)>, int),
    ParseError,
> {
    match scan_outs_spec(sv, t, s, p, partial) {
        Err(x) => Err(x),
        Ok((dummy, items, q)) => if !dummy && !(forall|i: int, j: int|
            0 <= i < j < items.len() ==> items[i].1 != items[j].1) {
            Err(ParseError::Mismatch)
        } else {
            match literal_spec(s, q, seq![32u8, 93u8], false, partial) {
                Ok(e) => Ok((dummy, items, e)),
                Err(x) => Err(x),
            }
        },
    }
}

/// The derived table of a `Scan`: named after the table, holding the dummy
/// or, in order, the column derived for each output.
pub open spec fn scan_table_for(sv: SchemaView, v: ScanView, t: Table) -> bool {
    &&& t is Named
    &&& t->Named_name@ == sv.table_names[v.table as int]
    &&& v.dummy ==> t.columns_spec().len() == 1 && t.columns_spec()[0] is Dummy
    &&& !v.dummy ==> t.columns_spec().len() == v.items.len() && forall|i: int|
        0 <= i < v.items.len() ==> scan_column(sv, v.table, v.items[i], #[trigger] t.columns_spec()[i])
}

/// A `Scan`'s outputs and closing bracket (see `scan_body_spec`): the
/// derived table and the end.
#[verifier::rlimit(100)]
fn scan_body(sc: &SqlSchema, t: usize, s: &[u8], p: usize, partial: bool) -> (r: Result<(Table, usize), ParseError>)
    requires
        p <= s@.len(),
        sc.wf(),
        t < sc@.table_names.len(),
    ensures
        r is Ok <==> scan_body_spec(sc@, t, s@, p as int, partial) is Ok,
        r is Err ==> scan_body_spec(sc@, t, s@, p as int, partial) == Err::<
            (bool, Seq<(Seq<u8>, Seq<u8>)>, int),
            ParseError,
        >(r->Err_0),
        r is Ok ==> {
            let (dummy, items, e) = scan_body_spec(sc@, t, s@, p as int, partial)->Ok_0;
            let (tb, e2) = r->Ok_0;
            &&& e2 == e && p <= e <= s@.len()
            &&& scan_table_for(sc@, ScanView { table: t, predicate: None, is_distinct: false, dummy, items, end: e }, tb)
            &&& distinct_names(tb.columns_spec())
            &&& forall|i: int|
                0 <= i < tb.columns_spec().len() ==> (#[trigger] tb.columns_spec()[i] is Dummy
                    || tb.columns_spec()[i] is Plain)
        },
{
    proof {
        reveal(scan_body_spec);
    }
    let (outs, dummy, p) = scan_outs(sc, t, s, p, partial)?;
    proof {
        reveal(scan_outs_spec);
    }
    assert(dummy ==> scan_items_view(outs@) =~= Seq::<(Seq<u8>, Seq<u8>)>::empty());
    let columns = derive_scan(sc, t, &outs, dummy);
    let ghost items = scan_items_view(outs@);
    let ghost cv = columns_view(columns@);
    if has_duplicate_names(&columns) {
        proof {
            let (i, j) = choose|i: int, j: int| 0 <= i < j < cv.len() && cv[i].name() == cv[j].name();
            assert(cv[i] == columns@[i]@ && cv[j] == columns@[j]@);
            assert(items[i].1 == items[j].1);
        }
        return Err(ParseError::Mismatch);
    }
    if !dummy {
        assert forall|i: int, j: int| 0 <= i < j < items.len() implies items[i].1 != items[j].1 by {
            assert(cv[i] == columns@[i]@ && cv[j] == columns@[j]@);
        }
    }
    let close: Vec<u8> = vec![32u8, 93u8];
    assert(close@ =~= seq![32u8, 93u8]);
    let e = literal(s, p, close.as_slice(), false, partial)?;
    assert(sc@.table_names[t as int] == sc.table_names@[t as int]@);
    let table = Table::Named { name: copy_bytes(sc.table_names[t].as_slice()), columns };
    assert(table.columns_spec() == cv);
    Ok((table, e))
}

/// A `Scan` after its table (see `scan_tail_spec`): the predicate, the
/// flag, the derived table and the end.
fn scan_tail(st: &QplState, sc: &SqlSchema, t: usize, tc: bool, s: &[u8], p: usize, partial: bool) -> (r: Result<
    (Option<crate::domain::Predicate>, bool, Table, usize),
    ParseError,
>)
    requires
        p <= s@.len(),
        sc.wf(),
        t < sc@.table_names.len(),
    ensures
        r is Ok <==> scan_tail_spec(*st, sc@, t, tc, s@, p as int, partial) is Ok,
        r is Err ==> scan_tail_spec(*st, sc@, t, tc, s@, p as int, partial) == Err::<ScanView, ParseError>(
            r->Err_0,
        ),
        r is Ok ==> {
            let v = scan_tail_spec(*st, sc@, t, tc, s@, p as int, partial)->Ok_0;
            let (pr, d, tb, e) = r->Ok_0;
            &&& opt_pred_view(pr) == v.predicate && d == v.is_distinct && e == v.end && v.table == t
            &&& p <= e <= s@.len()
            &&& scan_table_for(sc@, v, tb)
            &&& distinct_names(tb.columns_spec())
            &&& forall|i: int|
                0 <= i < tb.columns_spec().len() ==> (#[trigger] tb.columns_spec()[i] is Dummy
                    || tb.columns_spec()[i] is Plain)
        },
{
    proof {
        reveal(scan_tail_spec);
    }
    let no_inputs: Vec<usize> = Vec::new();
    assert(no_inputs@ =~= Seq::<usize>::empty());
    let (predicate, p) = opt_predicate(st, sc, Scope::Table(t), &no_inputs, tc, s, p, partial)?;
    let (is_distinct, p) = flag(s, p, Fixed::Distinct, partial)?;
    let p = literal(s, p, fixed_bytes(Fixed::Output).as_slice(), false, partial)?;
    let (table, e) = scan_body(sc, t, s, p, partial)?;
    Ok((predicate, is_distinct, table, e))
}

/// `Scan Table [ t ] [Predicate […]] [Distinct [ true ]] Output [ … ]`.
#[verifier::rlimit(100)]
pub fn scan(st: &QplState, sc: &SqlSchema, tc: bool, s: &[u8], pos: usize, partial: bool) -> (r:
    Result<(Operation, Table, usize), ParseError>)
    requires
        pos <= s@.len(),
        sc.wf(),
    ensures
        literal_spec(s@, pos as int, keyword_text(Keyword::Scan), false, partial) is Err ==> r == Err::<
            (Operation, Table, usize),
            ParseError,
        >(literal_spec(s@, pos as int, keyword_text(Keyword::Scan), false, partial)->Err_0),
        op_result_ok(*st, s@, pos as int, r),
        r is Ok <==> scan_spec(*st, sc@, tc, s@, pos as int, partial) is Ok,
        r is Err ==> scan_spec(*st, sc@, tc, s@, pos as int, partial) == Err::<ScanView, ParseError>(
            r->Err_0,
        ),
        r is Ok ==> {
            let v = scan_spec(*st, sc@, tc, s@, pos as int, partial)->Ok_0;
            &&& r->Ok_0.0 matches Operation::Scan { table, predicate, is_distinct } && table@
                == sc@.table_names[v.table as int] && opt_pred_view(predicate) == v.predicate
                && is_distinct == v.is_distinct
            &&& r->Ok_0.2 == v.end
            &&& scan_table_for(sc@, v, r->Ok_0.1)
        },
{
    proof {
        reveal(scan_spec);
    }
    let kw = keyword_bytes(Keyword::Scan);
    let p = literal(s, pos, kw.as_slice(), false, partial)?;
    let (t, p) = table_name(sc, s, p, partial)?;
    let p = literal(s, p, fixed_bytes(Fixed::Close).as_slice(), false, partial)?;
    let (predicate, is_distinct, table, e) = scan_tail(st, sc, t, tc, s, p, partial)?;
    assert(sc@.table_names[t as int] == sc.table_names@[t as int]@);
    let op = Operation::Scan { table: copy_bytes(sc.table_names[t].as_slice()), predicate, is_distinct };
    Ok((op, table, e))
}

/// The name a derived column gets for an output spelling.
pub open spec fn derived_name(out: Seq<u8>) -> Seq<u8> {
    match synthesized(out) {
        Some(c) => c.name(),
        None => out,
    }
}

/// No two outputs give columns of the same name.
pub open spec fn distinct_derived(outs: Seq<Seq<u8>>) -> bool {
    forall|i: int, j: int| 0 <= i < j < outs.len() ==> derived_name(outs[i]) != derived_name(outs[j])
}

/// Finishing a line from name outputs: every output is derivable, no two
/// derived columns share a name, then ` ]`.
pub open spec fn finish_spec(st: QplState, inputs: Seq<usize>, outs: Seq<Seq<u8>>, s: Seq<u8>, pos: int, partial: bool) -> Result<
    int,
    ParseError,
> {
    if !(forall|k: int| 0 <= k < outs.len() ==> derivable(st, inputs, #[trigger] outs[k])) {
        Err(ParseError::Mismatch)
    } else if !distinct_derived(outs) {
        Err(ParseError::Mismatch)
    } else {
        literal_spec(s, pos, seq![32u8, 93u8], false, partial)
    }
}

/// The derived table of a line is indexed by the line and holds, in order,
/// the column derived for each output.
pub open spec fn table_for(st: QplState, inputs: Seq<usize>, outs: Seq<Seq<u8>>, t: Table) -> bool {
    &&& t is Indexed
    &&& t->Indexed_idx == st.current_idx
    &&& t.columns_spec().len() == outs.len()
    &&& forall|k: int|
        0 <= k < outs.len() ==> derived_column(st, inputs, outs[k], #[trigger] t.columns_spec()[k])
}

/// Derives the table of a line from name outputs over `inputs`, rejects
/// repeated names, and reads the closing ` ]`.
fn finish_named(
    st: &QplState,
    inputs: &Vec<usize>,
    outs: &Vec<Vec<u8>>,
    s: &[u8],
    pos: usize,
    partial: bool,
) -> (r: Result<(Table, usize), ParseError>)
    requires
        pos <= s@.len(),
    ensures
        match r {
            Ok((t, e)) => pos <= e <= s@.len() && distinct_names(t.columns_spec())
                && provenance_ok(*st, inputs@, t.columns_spec()),
            Err(_) => true,
        },
        match r {
            Ok((t, e)) => finish_spec(*st, inputs@, names_view(outs@), s@, pos as int, partial)
                == Ok::<int, ParseError>(e as int) && table_for(*st, inputs@, names_view(outs@), t),
            Err(k) => finish_spec(*st, inputs@, names_view(outs@), s@, pos as int, partial) == Err::<
                int,
                ParseError,
            >(k),
        },
{
    let ghost ov = names_view(outs@);
    assert forall|k: int| 0 <= k < outs@.len() implies #[trigger] ov[k] == outs@[k]@ by {}
    let columns = match derive_from_names(st, inputs, outs) {
        Some(c) => c,
        None => {
            let ghost k = choose|k: int| 0 <= k < outs@.len() && !derivable(*st, inputs@, #[trigger] outs@[k]@);
            assert(!derivable(*st, inputs@, ov[k]));
            return Err(ParseError::Mismatch);
        },
    };
    assert(forall|k: int| 0 <= k < ov.len() ==> derivable(*st, inputs@, #[trigger] ov[k])) by {
        assert forall|k: int| 0 <= k < ov.len() implies derivable(*st, inputs@, #[trigger] ov[k]) by {
            assert(ov[k] == outs@[k]@);
        }
    }
    let ghost cv = columns_view(columns@);
    assert forall|k: int| 0 <= k < cv.len() implies #[trigger] cv[k].name() == derived_name(ov[k]) by {
        assert(cv[k] == columns@[k]@);
        assert(derived_column(*st, inputs@, outs@[k]@, columns@[k]@));
    }
    if has_duplicate_names(&columns) {
        let ghost (i, j) = choose|i: int, j: int| 0 <= i < j < cv.len() && cv[i].name() == cv[j].name();
        assert(cv[i].name() == derived_name(ov[i]));
        assert(cv[j].name() == derived_name(ov[j]));
        return Err(ParseError::Mismatch);
    }
    assert forall|i: int, j: int| 0 <= i < j < ov.len() implies derived_name(ov[i]) != derived_name(ov[j]) by {
        assert(cv[i].name() == derived_name(ov[i]));
        assert(cv[j].name() == derived_name(ov[j]));
    }
    let close: Vec<u8> = vec![32u8, 93u8];
    assert(close@ =~= seq![32u8, 93u8]);
    let e = literal(s, pos, close.as_slice(), false, partial)?;
    let t = Table::Indexed { idx: st.current_idx, columns };
    assert forall|k: int| 0 <= k < ov.len() implies derived_column(*st, inputs@, ov[k], #[trigger] t.columns_spec()[k]) by {
        assert(cv[k] == columns@[k]@);
        assert(derived_column(*st, inputs@, outs@[k]@, columns@[k]@));
    }
    assert(t.columns_spec() == cv);
    Ok((t, e))
}

/// Finishing a line from `#k.name` outputs (as `finish_spec`).
pub open spec fn finish_ix_spec(st: QplState, inputs: Seq<usize>, outs: Seq<(usize, Seq<u8>)>, s: Seq<u8>, pos: int, partial: bool) -> Result<
    int,
    ParseError,
> {
    if !(forall|k: int| 0 <= k < outs.len() ==> indexed_derivable(st, inputs, (#[trigger] outs[k]).0, outs[k].1)) {
        Err(ParseError::Mismatch)
    } else if !(forall|i: int, j: int|
        0 <= i < j < outs.len() ==> derived_name(outs[i].1) != derived_name(outs[j].1)) {
        Err(ParseError::Mismatch)
    } else {
        literal_spec(s, pos, seq![32u8, 93u8], false, partial)
    }
}

/// The derived table holds, in order, the column derived for each `#k.name`.
pub open spec fn table_for_ix(st: QplState, outs: Seq<(usize, Seq<u8>)>, t: Table) -> bool {
    &&& t is Indexed
    &&& t->Indexed_idx == st.current_idx
    &&& t.columns_spec().len() == outs.len()
    &&& forall|k: int|
        0 <= k < outs.len() ==> indexed_column_for(st, outs[k].0, outs[k].1, #[trigger] t.columns_spec()[k])
}

/// As `finish_named`, for `#k.name` outputs.
fn finish_indexed(
    st: &QplState,
    inputs: &Vec<usize>,
    outs: &Vec<(usize, Vec<u8>)>,
    s: &[u8],
    pos: usize,
    partial: bool,
) -> (r: Result<(Table, usize), ParseError>)
    requires
        pos <= s@.len(),
    ensures
        match r {
            Ok((t, e)) => pos <= e <= s@.len() && distinct_names(t.columns_spec())
                && provenance_ok(*st, inputs@, t.columns_spec()),
            Err(_) => true,
        },
        match r {
            Ok((t, e)) => finish_ix_spec(*st, inputs@, ix_view(outs@), s@, pos as int, partial)
                == Ok::<int, ParseError>(e as int) && table_for_ix(*st, ix_view(outs@), t),
            Err(k) => finish_ix_spec(*st, inputs@, ix_view(outs@), s@, pos as int, partial) == Err::<
                int,
                ParseError,
            >(k),
        },
{
    let ghost ov = ix_view(outs@);
    let columns = match derive_from_indexed(st, inputs, outs) {
        Some(c) => c,
        None => {
            let ghost k = choose|k: int|
                0 <= k < outs@.len() && !indexed_derivable(*st, inputs@, (#[trigger] outs@[k]).0, outs@[k].1@);
            assert(ov[k] == (outs@[k].0, outs@[k].1@));
            return Err(ParseError::Mismatch);
        },
    };
    assert forall|k: int| 0 <= k < ov.len() implies indexed_derivable(*st, inputs@, (#[trigger] ov[k]).0, ov[k].1) by {
        assert(ov[k] == (outs@[k].0, outs@[k].1@));
    }
    let ghost cv = columns_view(columns@);
    assert forall|k: int| 0 <= k < cv.len() implies #[trigger] cv[k].name() == derived_name(ov[k].1) by {
        assert(cv[k] == columns@[k]@);
        assert(ov[k] == (outs@[k].0, outs@[k].1@));
        assert(indexed_column_for(*st, outs@[k].0, outs@[k].1@, columns@[k]@));
    }
    if has_duplicate_names(&columns) {
        let ghost (i, j) = choose|i: int, j: int| 0 <= i < j < cv.len() && cv[i].name() == cv[j].name();
        assert(cv[i].name() == derived_name(ov[i].1));
        assert(cv[j].name() == derived_name(ov[j].1));
        return Err(ParseError::Mismatch);
    }
    assert forall|i: int, j: int| 0 <= i < j < ov.len() implies derived_name(ov[i].1) != derived_name(ov[j].1) by {
        assert(cv[i].name() == derived_name(ov[i].1));
        assert(cv[j].name() == derived_name(ov[j].1));
    }
    let close: Vec<u8> = vec![32u8, 93u8];
    assert(close@ =~= seq![32u8, 93u8]);
    let e = literal(s, pos, close.as_slice(), false, partial)?;
    let t = Table::Indexed { idx: st.current_idx, columns };
    assert forall|k: int| 0 <= k < ov.len() implies indexed_column_for(*st, ov[k].0, ov[k].1, #[trigger] t.columns_spec()[k]) by {
        assert(cv[k] == columns@[k]@);
        assert(ov[k] == (outs@[k].0, outs@[k].1@));
        assert(indexed_column_for(*st, outs@[k].0, outs@[k].1@, columns@[k]@));
    }
    Ok((t, e))
}

/// Whether every `#k.name` output is a column of its line, or the list is
/// exactly `1 AS One`.
pub open spec fn indexed_valid_spec(st: QplState, outs: Seq<(usize, Seq<u8>)>) -> bool {
    (outs.len() == 1 && outs[0].1 == dummy_name()) || forall|i: int|
        0 <= i < outs.len() ==> line_has(st, (#[trigger] outs[i]).0, outs[i].1)
}

fn indexed_valid(st: &QplState, outs: &Vec<(usize, Vec<u8>)>) -> (r: bool)
    ensures
        r == indexed_valid_spec(*st, ix_view(outs@)),
{
    let ghost ov = ix_view(outs@);
    if outs.len() == 1 {
        assert(ov[0] == (outs@[0].0, outs@[0].1@));
        if crate::lexer::eq_bytes(outs[0].1.as_slice(), dummy_bytes().as_slice()) {
            return true;
        }
    }
    let mut i: usize = 0;
    while i < outs.len()
        invariant
            i <= outs@.len(),
            ov == ix_view(outs@),
            !(ov.len() == 1 && ov[0].1 == dummy_name()),
            forall|j: int| 0 <= j < i ==> line_has(*st, (#[trigger] ov[j]).0, ov[j].1),
        decreases outs@.len() - i,
    {
        assert(ov[i as int] == (outs@[i as int].0, outs@[i as int].1@));
        if !st.has_column(outs[i].0, outs[i].1.as_slice()) {
            assert(!line_has(*st, ov[i as int].0, ov[i as int].1));
            return false;
        }
        i += 1;
    }
    true
}

/// What a `Filter` line reads.
pub ghost struct FilterView {
    pub input: usize,
    pub predicate: Option<PredView>,
    pub is_distinct: bool,
    pub outs: Seq<Seq<u8>>,
    pub end: int,
}

/// `Filter [ #k ] [Predicate [ … ] ][Distinct [ true ] ]Output [ 1 AS One | <names> ]`:
/// one input; the predicate over line `k`; every output a column of it (or
/// the dummy alone); distinct derived names.
#[verifier::opaque]
pub open spec fn filter_spec(st: QplState, sv: SchemaView, tc: bool, s: Seq<u8>, pos: int, partial: bool) -> Result<
    FilterView,
    ParseError,
> {
    match header_spec(st.seen@, s, pos, partial, Keyword::Filter) {
        Err(x) => Err(x),
        Ok((ids, p)) => if ids.len() != 1 {
            Err(ParseError::Mismatch)
        } else {
            let input = ids[0] as usize;
            match opt_predicate_spec(st, sv, Scope::Line(input), usizes(ids), tc, s, p, partial) {
                Err(x) => Err(x),
                Ok((predicate, p)) => match flag_spec(s, p, Fixed::Distinct, partial) {
                    Err(x) => Err(x),
                    Ok((is_distinct, p)) => match literal_spec(s, p, fixed_text(Fixed::Output), false, partial) {
                        Err(x) => Err(x),
                        Ok(p) => {
                            let outs = match literal_spec(s, p, dummy_name(), false, partial) {
                                Ok(e) => Ok((seq![dummy_name()], e)),
                                Err(ParseError::Mismatch) => name_outputs_spec(st, sv, s, p, partial),
                                Err(x) => Err(x),
                            };
                            match outs {
                                Err(x) => Err(x),
                                Ok((outs, p)) => if !(all_in_spec(st, input, outs, false) || outs == seq![dummy_name()]) {
                                    Err(ParseError::Mismatch)
                                } else {
                                    match finish_spec(st, seq![input], outs, s, p, partial) {
                                        Err(x) => Err(x),
                                        Ok(e) => Ok(FilterView { input, predicate, is_distinct, outs, end: e }),
                                    }
                                },
                            }
                        },
                    },
                },
            }
        },
    }
}

/// What a `Join`, `Intersect` or `Except` line reads.
pub ghost struct PairView {
    pub inputs: Seq<usize>,
    pub predicate: Option<PredView>,
    pub except_column: Option<Seq<u8>>,
    pub is_distinct: bool,
    pub outs: Seq<(usize, Seq<u8>)>,
    pub end: int,
}

/// `ExceptColumns [ `.
pub open spec fn except_columns_text() -> Seq<u8> {
    seq![69u8, 120u8, 99u8, 101u8, 112u8, 116u8, 67u8, 111u8, 108u8, 117u8, 109u8, 110u8, 115u8, 32u8, 91u8, 32u8]
}

/// The rest of a two-input line after its filter block: `[Distinct [ true ] ]Output [ 1 AS One | <#k.name list> ]`,
/// every output a column of its line (or the dummy alone), distinct derived
/// names.
pub open spec fn pair_tail_spec(st: QplState, sv: SchemaView, inputs: Seq<usize>, predicate: Option<PredView>, except_column: Option<Seq<u8>>, s: Seq<u8>, p: int, partial: bool) -> Result<
    PairView,
    ParseError,
> {
    match flag_spec(s, p, Fixed::Distinct, partial) {
        Err(x) => Err(x),
        Ok((is_distinct, p)) => match literal_spec(s, p, fixed_text(Fixed::Output), false, partial) {
            Err(x) => Err(x),
            Ok(p) => match indexed_or_dummy_spec(st, sv, inputs, s, p, partial) {
                Err(x) => Err(x),
                Ok((outs, p)) => if !indexed_valid_spec(st, outs) {
                    Err(ParseError::Mismatch)
                } else {
                    match finish_ix_spec(st, inputs, outs, s, p, partial) {
                        Err(x) => Err(x),
                        Ok(e) => Ok(PairView { inputs, predicate, except_column, is_distinct, outs, end: e }),
                    }
                },
            },
        },
    }
}

/// `Join|Intersect [ #a, #b ] [Predicate [ … ] ]…`: two inputs; a join's `=`
/// follows the key rule.
#[verifier::opaque]
pub open spec fn join_spec(st: QplState, sv: SchemaView, kind: PairKind, tc: bool, s: Seq<u8>, pos: int, partial: bool) -> Result<
    PairView,
    ParseError,
> {
    match header_spec(st.seen@, s, pos, partial, pair_keyword_spec(kind)) {
        Err(x) => Err(x),
        Ok((ids, p)) => if ids.len() != 2 {
            Err(ParseError::Mismatch)
        } else {
            let inputs = usizes(ids);
            match opt_predicate_spec(st, sv, Scope::Lines(kind == PairKind::Join), inputs, tc, s, p, partial) {
                Err(x) => Err(x),
                Ok((predicate, p)) => pair_tail_spec(st, sv, inputs, predicate, None, s, p, partial),
            }
        },
    }
}

/// `Except [ #a, #b ] (Predicate [ … ] | ExceptColumns [ #k.col ] )…`: two
/// inputs.
#[verifier::opaque]
pub open spec fn except_spec(st: QplState, sv: SchemaView, tc: bool, s: Seq<u8>, pos: int, partial: bool) -> Result<
    PairView,
    ParseError,
> {
    match header_spec(st.seen@, s, pos, partial, Keyword::Except) {
        Err(x) => Err(x),
        Ok((ids, p)) => if ids.len() != 2 {
            Err(ParseError::Mismatch)
        } else {
            let inputs = usizes(ids);
            match predicate_block_spec(st, sv, Scope::Lines(false), inputs, tc, s, p, partial) {
                Ok((pv, q)) => pair_tail_spec(st, sv, inputs, Some(pv), None, s, q, partial),
                Err(ParseError::Mismatch) => match literal_spec(s, p, except_columns_text(), false, partial) {
                    Err(x) => Err(x),
                    Ok(q) => match indexed_column_spec(st, sv, inputs, s, q, partial) {
                        Err(x) => Err(x),
                        Ok(((_, col), q)) => match literal_spec(s, q, fixed_text(Fixed::Close), false, partial) {
                            Err(x) => Err(x),
                            Ok(q) => pair_tail_spec(st, sv, inputs, None, Some(col), s, q, partial),
                        },
                    },
                },
                Err(x) => Err(x),
            }
        },
    }
}

/// `Filter [ #k ] [Predicate […]] [Distinct [ true ]] Output [ … ]`.
#[verifier::rlimit(80)]
pub fn filter(st: &QplState, sc: &SqlSchema, tc: bool, s: &[u8], pos: usize, partial: bool) -> (r:
    Result<(Operation, Table, usize), ParseError>)
    requires
        pos <= s@.len(),
        sc.wf(),
    ensures
        literal_spec(s@, pos as int, keyword_text(Keyword::Filter), false, partial) is Err ==> r == Err::<
            (Operation, Table, usize),
            ParseError,
        >(literal_spec(s@, pos as int, keyword_text(Keyword::Filter), false, partial)->Err_0),
        op_result_ok(*st, s@, pos as int, r),
        r is Ok ==> inputs_from_header(*st, s@, pos as int, partial, Keyword::Filter, r->Ok_0.0),
        r is Ok <==> filter_spec(*st, sc@, tc, s@, pos as int, partial) is Ok,
        r is Err ==> filter_spec(*st, sc@, tc, s@, pos as int, partial) == Err::<FilterView, ParseError>(
            r->Err_0,
        ),
        r is Ok ==> {
            let v = filter_spec(*st, sc@, tc, s@, pos as int, partial)->Ok_0;
            &&& r->Ok_0.0 matches Operation::Filter { input, predicate, is_distinct } && input == v.input
                && opt_pred_view(predicate) == v.predicate && is_distinct == v.is_distinct
            &&& r->Ok_0.2 == v.end
            &&& table_for(*st, seq![v.input], v.outs, r->Ok_0.1)
        },
{
    proof {
        reveal(filter_spec);
    }
    let kw = keyword_bytes(Keyword::Filter);
    let p = literal(s, pos, kw.as_slice(), false, partial)?;
    let (ids, p) = input_ids(st, s, p, partial)?;
    let k = match single(&ids) {
        Some(k) => k,
        None => {
            return Err(ParseError::Mismatch);
        },
    };
    assert(seq_nat(ids@)[0] == k as nat);
    assert(ids@ =~= seq![k]);
    assert(usizes(seq_nat(ids@)) =~= ids@);
    let (predicate, p) = opt_predicate(st, sc, Scope::Line(k), &ids, tc, s, p, partial)?;
    let (is_distinct, p) = flag(s, p, Fixed::Distinct, partial)?;
    let p = literal(s, p, fixed_bytes(Fixed::Output).as_slice(), false, partial)?;
    let (outs, p) = match dummy_output(s, p, partial) {
        Ok(e) => {
            let v = vec![dummy_bytes()];
            assert(names_view(v@) =~= seq![dummy_name()]);
            (v, e)
        },
        Err(ParseError::Mismatch) => name_outputs(st, sc, s, p, partial)?,
        Err(k) => {
            return Err(k);
        },
    };
    if !(all_in(st, k, &outs, false) || is_dummy_list(&outs)) {
        return Err(ParseError::Mismatch);
    }
    proof {
        assert forall|i: int| 0 <= i < names_view(outs@).len() implies derivable(*st, ids@, #[trigger] names_view(outs@)[i]) by {
            if names_view(outs@) == seq![dummy_name()] {
                assert(names_view(outs@)[i] == dummy_name());
            } else {
                assert(line_has(*st, k, names_view(outs@)[i]));
                assert(ids@[0] == k);
            }
        }
    }
    let (table, e) = finish_named(st, &ids, &outs, s, p, partial)?;
    let op = Operation::Filter { input: k, predicate, is_distinct };
    assert(op.inputs_spec() =~= ids@);
    Ok((op, table, e))
}

/// The aggregate functions in the order they are tried.
pub open spec fn agg_order() -> Seq<Agg> {
    seq![Agg::Sum, Agg::Min, Agg::Max, Agg::Count, Agg::Average]
}

/// `SUM`, `MIN`, `MAX`, `COUNT`, `AVG`.
pub open spec fn agg_keyword(a: Agg) -> Seq<u8> {
    match a {
        Agg::Sum => seq![83u8, 85u8, 77u8],
        Agg::Min => seq![77u8, 73u8, 78u8],
        Agg::Max => seq![77u8, 65u8, 88u8],
        Agg::Count => seq![67u8, 79u8, 85u8, 78u8, 84u8],
        Agg::Average => seq![65u8, 86u8, 71u8],
    }
}

/// `Sum_`, `Min_`, `Max_`, `Count_`, `Avg_`.
pub open spec fn agg_prefix(a: Agg) -> Seq<u8> {
    match a {
        Agg::Sum => seq![83u8, 117u8, 109u8, 95u8],
        Agg::Min => seq![77u8, 105u8, 110u8, 95u8],
        Agg::Max => seq![77u8, 97u8, 120u8, 95u8],
        Agg::Count => seq![67u8, 111u8, 117u8, 110u8, 116u8, 95u8],
        Agg::Average => seq![65u8, 118u8, 103u8, 95u8],
    }
}

fn agg_keyword_bytes(a: Agg) -> (r: Vec<u8>)
    ensures
        r@ == agg_keyword(a),
{
    let r = match a {
        Agg::Sum => vec![83u8, 85u8, 77u8],
        Agg::Min => vec![77u8, 73u8, 78u8],
        Agg::Max => vec![77u8, 65u8, 88u8],
        Agg::Count => vec![67u8, 79u8, 85u8, 78u8, 84u8],
        Agg::Average => vec![65u8, 86u8, 71u8],
    };
    assert(r@ =~= agg_keyword(a));
    r
}

fn agg_prefix_bytes(a: Agg) -> (r: Vec<u8>)
    ensures
        r@ == agg_prefix(a),
{
    let r = match a {
        Agg::Sum => vec![83u8, 117u8, 109u8, 95u8],
        Agg::Min => vec![77u8, 105u8, 110u8, 95u8],
        Agg::Max => vec![77u8, 97u8, 120u8, 95u8],
        Agg::Count => vec![67u8, 111u8, 117u8, 110u8, 116u8, 95u8],
        Agg::Average => vec![65u8, 118u8, 103u8, 95u8],
    };
    assert(r@ =~= agg_prefix(a));
    r
}

/// The first aggregate keyword (from the `i`-th on) whose match is not a
/// plain mismatch decides.
pub open spec fn agg_choice_spec(s: Seq<u8>, pos: int, partial: bool, i: int) -> Result<(Agg, int), ParseError>
    decreases 5 - i,
{
    if i < 0 || i >= 5 {
        Err(ParseError::Mismatch)
    } else {
        match literal_spec(s, pos, agg_keyword(agg_order()[i]), false, partial) {
            Ok(e) => Ok((agg_order()[i], e)),
            Err(ParseError::Mismatch) => agg_choice_spec(s, pos, partial, i + 1),
            Err(x) => Err(x),
        }
    }
}

/// `AGG(<DISTINCT >col) AS Agg_<Dist_>col` over line `k`: the alias as
/// written (the column's name repeated up to case) and the end.
pub open spec fn aliased_aggregate_spec(st: QplState, sv: SchemaView, k: usize, s: Seq<u8>, pos: int, partial: bool) -> Result<
    (Seq<u8>, int),
    ParseError,
> {
    match agg_choice_spec(s, pos, partial, 0) {
        Err(x) => Err(x),
        Ok((agg, p)) => match literal_spec(s, p, seq![40u8], false, partial) {
            Err(x) => Err(x),
            Ok(p) => {
                let d = match literal_spec(s, p, distinct_kw_text(), false, partial) {
                    Ok(e) => Ok((true, e)),
                    Err(ParseError::Mismatch) => Ok((false, p)),
                    Err(x) => Err(x),
                };
                match d {
                    Err(x) => Err(x),
                    Ok((distinct, p)) => match column_in_index_spec(st, sv, k, false, s, p, partial) {
                        Err(x) => Err(x),
                        Ok((col, p)) => match literal_spec(s, p, as_close_text(), false, partial) {
                            Err(x) => Err(x),
                            Ok(start) => match literal_spec(s, start, agg_prefix(agg), false, partial) {
                                Err(x) => Err(x),
                                Ok(p) => {
                                    let q = if distinct {
                                        literal_spec(s, p, dist_text(), false, partial)
                                    } else {
                                        Ok(p)
                                    };
                                    match q {
                                        Err(x) => Err(x),
                                        Ok(q) => match literal_spec(s, q, col, true, partial) {
                                            Ok(e) => Ok((s.subrange(start, e), e)),
                                            Err(x) => Err(x),
                                        },
                                    }
                                },
                            },
                        },
                    },
                }
            },
        },
    }
}

/// `DISTINCT `.
pub open spec fn distinct_kw_text() -> Seq<u8> {
    seq![68u8, 73u8, 83u8, 84u8, 73u8, 78u8, 67u8, 84u8, 32u8]
}

/// `) AS `.
pub open spec fn as_close_text() -> Seq<u8> {
    seq![41u8, 32u8, 65u8, 83u8, 32u8]
}

/// `Dist_`.
pub open spec fn dist_text() -> Seq<u8> {
    seq![68u8, 105u8, 115u8, 116u8, 95u8]
}

/// One aggregate output: `countstar AS Count_Star`, else an aggregate, else
/// a schema column name that is a column of line `k`.
#[verifier::opaque]
pub open spec fn aggregate_output_spec(st: QplState, sv: SchemaView, k: usize, s: Seq<u8>, pos: int, partial: bool) -> Result<
    (Seq<u8>, int),
    ParseError,
> {
    match literal_spec(s, pos, count_star_spelling(), false, partial) {
        Ok(e) => Ok((s.subrange(pos, e), e)),
        Err(ParseError::Mismatch) => match aliased_aggregate_spec(st, sv, k, s, pos, partial) {
            Err(ParseError::Mismatch) => match name_choice_spec(sv.column_names, s, pos, partial) {
                // a plain output must be a column of the input
                Ok((n, e)) => if line_has(st, k, n) {
                    Ok((n, e))
                } else {
                    Err(ParseError::Mismatch)
                },
                other => other,
            },
            other => other,
        },
        Err(x) => Err(x),
    }
}

/// The aggregate keyword at `pos` (see `agg_choice_spec`).
fn agg_choice(s: &[u8], pos: usize, partial: bool) -> (r: Result<(Agg, usize), ParseError>)
    requires
        pos <= s@.len(),
    ensures
        match r {
            Ok((a, e)) => agg_choice_spec(s@, pos as int, partial, 0) == Ok::<(Agg, int), ParseError>(
                (a, e as int),
            ) && pos <= e <= s@.len(),
            Err(x) => agg_choice_spec(s@, pos as int, partial, 0) == Err::<(Agg, int), ParseError>(x),
        },
{
    let aggs = Agg::values();
    let mut i: usize = 0;
    while i < 5
        invariant
            i <= 5,
            aggs@ == agg_order(),
            pos <= s@.len(),
            agg_choice_spec(s@, pos as int, partial, 0) == agg_choice_spec(s@, pos as int, partial, i as int),
        decreases 5 - i,
    {
        let kw = agg_keyword_bytes(aggs[i]);
        match literal(s, pos, kw.as_slice(), false, partial) {
            Ok(e) => {
                return Ok((aggs[i], e));
            },
            Err(ParseError::Mismatch) => {},
            Err(x) => {
                return Err(x);
            },
        }
        i += 1;
    }
    Err(ParseError::Mismatch)
}

/// An aggregate output `AGG(<DISTINCT >col) AS Agg_<Dist_>col` (see
/// `aliased_aggregate_spec`).
#[verifier::rlimit(60)]
fn aliased_aggregate(st: &QplState, sc: &SqlSchema, k: usize, s: &[u8], pos: usize, partial: bool) -> (r:
    Result<(Vec<u8>, usize), ParseError>)
    requires
        pos <= s@.len(),
    ensures
        match r {
            Ok((a, e)) => pos <= e <= s@.len() && aliased_aggregate_spec(*st, sc@, k, s@, pos as int, partial)
                == Ok::<(Seq<u8>, int), ParseError>((a@, e as int)),
            Err(x) => aliased_aggregate_spec(*st, sc@, k, s@, pos as int, partial) == Err::<
                (Seq<u8>, int),
                ParseError,
            >(x),
        },
{
    let (agg, p) = agg_choice(s, pos, partial)?;
    let open: Vec<u8> = vec![40u8];
    assert(open@ =~= seq![40u8]);
    let p = literal(s, p, open.as_slice(), false, partial)?;
    let dkw: Vec<u8> = vec![68u8, 73u8, 83u8, 84u8, 73u8, 78u8, 67u8, 84u8, 32u8];
    assert(dkw@ =~= distinct_kw_text());
    let (distinct, p) = match literal(s, p, dkw.as_slice(), false, partial) {
        Ok(e) => (true, e),
        Err(ParseError::Mismatch) => (false, p),
        Err(x) => {
            return Err(x);
        },
    };
    let (column, p) = column_in_index(st, sc, k, false, s, p, partial)?;
    let ask: Vec<u8> = vec![41u8, 32u8, 65u8, 83u8, 32u8];
    assert(ask@ =~= as_close_text());
    let p = literal(s, p, ask.as_slice(), false, partial)?;
    let start = p;
    let p = literal(s, p, agg_prefix_bytes(agg).as_slice(), false, partial)?;
    let p = if distinct {
        let dist: Vec<u8> = vec![68u8, 105u8, 115u8, 116u8, 95u8];
        assert(dist@ =~= dist_text());
        literal(s, p, dist.as_slice(), false, partial)?
    } else {
        p
    };
    let e = literal(s, p, column.as_slice(), true, partial)?;
    Ok((crate::lexer::copy_range(s, start, e), e))
}

fn aggregate_output(st: &QplState, sc: &SqlSchema, k: usize, s: &[u8], pos: usize, partial: bool) -> (r:
    Result<(Vec<u8>, usize), ParseError>)
    requires
        pos <= s@.len(),
    ensures
        match r {
            Ok((a, e)) => pos <= e <= s@.len() && aggregate_output_spec(*st, sc@, k, s@, pos as int, partial)
                == Ok::<(Seq<u8>, int), ParseError>((a@, e as int)),
            Err(x) => aggregate_output_spec(*st, sc@, k, s@, pos as int, partial) == Err::<
                (Seq<u8>, int),
                ParseError,
            >(x),
        },
{
    proof {
        reveal(aggregate_output_spec);
    }
    let spelled: Vec<u8> = vec![99u8, 111u8, 117u8, 110u8, 116u8, 115u8, 116u8, 97u8, 114u8, 32u8, 65u8, 83u8, 32u8, 67u8, 111u8, 117u8, 110u8, 116u8, 95u8, 83u8, 116u8, 97u8, 114u8];
    assert(spelled@ =~= count_star_spelling());
    match literal(s, pos, spelled.as_slice(), false, partial) {
        Ok(e) => {
            return Ok((crate::lexer::copy_range(s, pos, e), e));
        },
        Err(ParseError::Mismatch) => {},
        Err(x) => {
            return Err(x);
        },
    }
    match aliased_aggregate(st, sc, k, s, pos, partial) {
        Err(ParseError::Mismatch) => {},
        other => {
            return other;
        },
    }
    let (n, e) = crate::names::column_name(sc, s, pos, partial)?;
    if st.has_column(k, n.as_slice()) {
        Ok((n, e))
    } else {
        Err(ParseError::Mismatch)
    }
}

/// The rest of a list of aggregate outputs over line `k` after `p` (as for `more_names`).
pub open spec fn more_agg_outputs(st: QplState, sv: SchemaView, k: usize, s: Seq<u8>, p: int, partial: bool) -> Result<
    (Seq<Seq<u8>>, int),
    ParseError,
>
    decreases s.len() - p,
{
    if p < 0 || p > s.len() {
        Err(ParseError::Mismatch)
    } else {
        match list_sep_spec(s, p, partial) {
            Err(ParseError::Mismatch) => Ok((Seq::empty(), p)),
            Err(x) => Err(x),
            Ok(q) => if q <= p {
                Err(ParseError::Cut)
            } else {
                match aggregate_output_spec(st, sv, k, s, q, partial) {
                    Ok((x, e)) => if e < q || e > s.len() {
                        Err(ParseError::Cut)
                    } else {
                        prepend(seq![x], more_agg_outputs(st, sv, k, s, e, partial))
                    },
                    Err(ParseError::Mismatch) => Ok((Seq::empty(), p)),
                    Err(x) => Err(x),
                }
            },
        }
    }
}

/// A comma-separated list of aggregate outputs over line `k`.
pub open spec fn aggregate_outputs_spec(st: QplState, sv: SchemaView, k: usize, s: Seq<u8>, pos: int, partial: bool) -> Result<
    (Seq<Seq<u8>>, int),
    ParseError,
> {
    match aggregate_output_spec(st, sv, k, s, pos, partial) {
        Ok((x, e)) => if e < pos {
            Err(ParseError::Cut)
        } else {
            prepend(seq![x], more_agg_outputs(st, sv, k, s, e, partial))
        },
        Err(x) => Err(x),
    }
}

/// A comma-separated list of aggregate outputs over line `k` (see `aggregate_outputs_spec`).
#[verifier::rlimit(60)]
fn aggregate_outputs(st: &QplState, sc: &SqlSchema, k: usize, s: &[u8], pos: usize, partial: bool) -> (r:
    Result<(Vec<Vec<u8>>, usize), ParseError>)
    requires
        pos <= s@.len(),
    ensures
        match r {
            Ok((v, e)) => pos <= e <= s@.len() && aggregate_outputs_spec(*st, sc@, k, s@, pos as int, partial)
                == Ok::<(Seq<Seq<u8>>, int), ParseError>((names_view(v@), e as int)),
            Err(x) => aggregate_outputs_spec(*st, sc@, k, s@, pos as int, partial) == Err::<
                (Seq<Seq<u8>>, int),
                ParseError,
            >(x),
        },
{
    let (first, first_end) = aggregate_output(st, sc, k, s, pos, partial)?;
    let ghost x0 = first@;
    let mut v: Vec<Vec<u8>> = vec![first];
    assert(names_view(v@) =~= seq![x0]);
    let mut p = first_end;
    loop
        invariant
            pos <= p <= s@.len(),
            aggregate_outputs_spec(*st, sc@, k, s@, pos as int, partial) == prepend(
                names_view(v@),
                more_agg_outputs(*st, sc@, k, s@, p as int, partial),
            ),
        decreases s@.len() - p,
    {
        let q = match list_sep(s, p, partial) {
            Ok(q) => q,
            Err(ParseError::Mismatch) => {
                assert(names_view(v@) + Seq::<Seq<u8>>::empty() =~= names_view(v@));
                return Ok((v, p));
            },
            Err(x) => {
                return Err(x);
            },
        };
        if q <= p {
            return Err(ParseError::Cut);
        }
        match aggregate_output(st, sc, k, s, q, partial) {
            Ok((x, e)) => {
                let ghost old_v = names_view(v@);
                let ghost xv = x@;
                v.push(x);
                assert(names_view(v@) =~= old_v.push(xv));
                assert(prepend(old_v, prepend(seq![xv], more_agg_outputs(*st, sc@, k, s@, e as int, partial)))
                    == prepend(names_view(v@), more_agg_outputs(*st, sc@, k, s@, e as int, partial))) by {
                    match more_agg_outputs(*st, sc@, k, s@, e as int, partial) {
                        Ok((xs, f)) => {
                            assert(old_v + (seq![xv] + xs) =~= old_v.push(xv) + xs);
                        },
                        Err(_) => {},
                    }
                }
                p = e;
            },
            Err(ParseError::Mismatch) => {
                assert(names_view(v@) + Seq::<Seq<u8>>::empty() =~= names_view(v@));
                return Ok((v, p));
            },
            Err(x) => {
                return Err(x);
            },
        }
    }
}

/// `GroupBy [ `.
pub open spec fn group_by_text() -> Seq<u8> {
    seq![71u8, 114u8, 111u8, 117u8, 112u8, 66u8, 121u8, 32u8, 91u8, 32u8]
}

/// An aggregate-result name is always synthesized as a column.
proof fn lemma_agg_name_synthesized(o: Seq<u8>)
    requires
        is_agg_name(o),
    ensures
        synthesized(o) is Some,
{
}

/// An optional `GroupBy [ <columns> ] `: the columns (none when absent).
pub open spec fn group_by_spec(st: QplState, sv: SchemaView, k: usize, s: Seq<u8>, p: int, partial: bool) -> Result<
    (Seq<Seq<u8>>, int),
    ParseError,
> {
    match literal_spec(s, p, group_by_text(), false, partial) {
        Ok(q) => match index_columns_spec(st, sv, k, s, q, partial) {
            Ok((cols, q2)) => match literal_spec(s, q2, fixed_text(Fixed::Close), false, partial) {
                Ok(q3) => Ok((cols, q3)),
                Err(ParseError::Mismatch) => Ok((Seq::empty(), p)),
                Err(x) => Err(x),
            },
            Err(ParseError::Mismatch) => Ok((Seq::empty(), p)),
            Err(x) => Err(x),
        },
        Err(ParseError::Mismatch) => Ok((Seq::empty(), p)),
        Err(x) => Err(x),
    }
}

/// What an `Aggregate` line reads.
pub ghost struct AggregateView {
    pub input: usize,
    pub group_by: Seq<Seq<u8>>,
    pub outs: Seq<Seq<u8>>,
    pub end: int,
}

/// `Aggregate [ #k ] [GroupBy [ <columns> ] ]Output [ <aggregate outputs> ]`:
/// one input; outputs that are not aggregate results are columns of it; the
/// derived columns have distinct names.
#[verifier::opaque]
pub open spec fn aggregate_spec(st: QplState, sv: SchemaView, s: Seq<u8>, pos: int, partial: bool) -> Result<
    AggregateView,
    ParseError,
> {
    match header_spec(st.seen@, s, pos, partial, Keyword::Aggregate) {
        Err(x) => Err(x),
        Ok((ids, p)) => if ids.len() != 1 {
            Err(ParseError::Mismatch)
        } else {
            let input = ids[0] as usize;
            match group_by_spec(st, sv, input, s, p, partial) {
                Err(x) => Err(x),
                Ok((group_by, p)) => match literal_spec(s, p, fixed_text(Fixed::Output), false, partial) {
                    Err(x) => Err(x),
                    Ok(p) => match aggregate_outputs_spec(st, sv, input, s, p, partial) {
                        Err(x) => Err(x),
                        Ok((outs, p)) => if !all_in_spec(st, input, outs, true) {
                            Err(ParseError::Mismatch)
                        } else {
                            match finish_spec(st, seq![input], outs, s, p, partial) {
                                Err(x) => Err(x),
                                Ok(e) => Ok(AggregateView { input, group_by, outs, end: e }),
                            }
                        },
                    },
                },
            }
        },
    }
}

/// `Aggregate [ #k ] [GroupBy [ … ] ] Output [ … ]`.
#[verifier::rlimit(80)]
pub fn aggregate(st: &QplState, sc: &SqlSchema, s: &[u8], pos: usize, partial: bool) -> (r: Result<
    (Operation, Table, usize),
    ParseError,
>)
    requires
        pos <= s@.len(),
        sc.wf(),
    ensures
        literal_spec(s@, pos as int, keyword_text(Keyword::Aggregate), false, partial) is Err ==> r == Err::<
            (Operation, Table, usize),
            ParseError,
        >(literal_spec(s@, pos as int, keyword_text(Keyword::Aggregate), false, partial)->Err_0),
        op_result_ok(*st, s@, pos as int, r),
        r is Ok ==> inputs_from_header(*st, s@, pos as int, partial, Keyword::Aggregate, r->Ok_0.0),
        r is Ok <==> aggregate_spec(*st, sc@, s@, pos as int, partial) is Ok,
        r is Err ==> aggregate_spec(*st, sc@, s@, pos as int, partial) == Err::<AggregateView, ParseError>(
            r->Err_0,
        ),
        r is Ok ==> {
            let v = aggregate_spec(*st, sc@, s@, pos as int, partial)->Ok_0;
            &&& r->Ok_0.0 matches Operation::Aggregate { input, group_by } && input == v.input
                && names_view(group_by@) == v.group_by
            &&& r->Ok_0.2 == v.end
            &&& table_for(*st, seq![v.input], v.outs, r->Ok_0.1)
        },
{
    proof {
        reveal(aggregate_spec);
    }
    let kw = keyword_bytes(Keyword::Aggregate);
    let p = literal(s, pos, kw.as_slice(), false, partial)?;
    let (ids, p) = input_ids(st, s, p, partial)?;
    let k = match single(&ids) {
        Some(k) => k,
        None => {
            return Err(ParseError::Mismatch);
        },
    };
    assert(seq_nat(ids@)[0] == k as nat);
    assert(ids@ =~= seq![k]);
    let gb: Vec<u8> = vec![71u8, 114u8, 111u8, 117u8, 112u8, 66u8, 121u8, 32u8, 91u8, 32u8];
    assert(gb@ =~= group_by_text());
    let old_p = p;
    let (group_by, p) = match literal(s, p, gb.as_slice(), false, partial) {
        Ok(q) => match index_columns(st, sc, k, s, q, partial) {
            Ok((cols, q2)) => match literal(s, q2, fixed_bytes(Fixed::Close).as_slice(), false, partial) {
                Ok(q3) => (cols, q3),
                Err(ParseError::Mismatch) => (Vec::new(), p),
                Err(x) => {
                    return Err(x);
                },
            },
            Err(ParseError::Mismatch) => (Vec::new(), p),
            Err(x) => {
                return Err(x);
            },
        },
        Err(ParseError::Mismatch) => (Vec::new(), p),
        Err(x) => {
            return Err(x);
        },
    };
    assert(names_view(group_by@) == group_by_spec(*st, sc@, k, s@, old_p as int, partial)->Ok_0.0) by {
        if group_by@.len() == 0 {
            assert(names_view(group_by@) =~= Seq::<Seq<u8>>::empty());
        }
    }
    let p = literal(s, p, fixed_bytes(Fixed::Output).as_slice(), false, partial)?;
    let (outs, p) = aggregate_outputs(st, sc, k, s, p, partial)?;
    if !all_in(st, k, &outs, true) {
        return Err(ParseError::Mismatch);
    }
    proof {
        assert forall|i: int| 0 <= i < names_view(outs@).len() implies derivable(*st, ids@, #[trigger] names_view(outs@)[i]) by {
            let o = names_view(outs@)[i];
            if is_agg_name(o) {
                lemma_agg_name_synthesized(o);
            } else {
                assert(line_has(*st, k, o));
                assert(ids@[0] == k);
            }
        }
    }
    let (table, e) = finish_named(st, &ids, &outs, s, p, partial)?;
    let op = Operation::Aggregate { input: k, group_by };
    assert(op.inputs_spec() =~= ids@);
    Ok((op, table, e))
}

/// `Rows [ `.
pub open spec fn rows_text() -> Seq<u8> {
    seq![82u8, 111u8, 119u8, 115u8, 32u8, 91u8, 32u8]
}

/// ` ] Output [ `.
pub open spec fn rows_end_text() -> Seq<u8> {
    seq![32u8, 93u8, 32u8, 79u8, 117u8, 116u8, 112u8, 117u8, 116u8, 32u8, 91u8, 32u8]
}

/// What a `Top` line reads: its input, row count, outputs and end.
pub ghost struct TopView {
    pub input: usize,
    pub rows: nat,
    pub outs: Seq<Seq<u8>>,
    pub end: int,
}

/// `Top [ #k ] Rows [ n ] Output [ <names> ]`: one input; every output is a
/// column of the input; the derived columns have distinct names.
#[verifier::opaque]
pub open spec fn top_spec(st: QplState, sv: SchemaView, s: Seq<u8>, pos: int, partial: bool) -> Result<
    TopView,
    ParseError,
> {
    match header_spec(st.seen@, s, pos, partial, Keyword::Top) {
        Err(k) => Err(k),
        Ok((ids, p)) => if ids.len() != 1 {
            Err(ParseError::Mismatch)
        } else {
            let input = ids[0] as usize;
            match literal_spec(s, p, rows_text(), false, partial) {
                Err(k) => Err(k),
                Ok(p) => match dec_uint_spec(s, p, partial) {
                    Err(k) => Err(k),
                    Ok((rows, p)) => match literal_spec(s, p, rows_end_text(), false, partial) {
                        Err(k) => Err(k),
                        Ok(p) => match name_outputs_spec(st, sv, s, p, partial) {
                            Err(k) => Err(k),
                            Ok((outs, p)) => if !all_in_spec(st, input, outs, false) {
                                Err(ParseError::Mismatch)
                            } else {
                                match finish_spec(st, seq![input], outs, s, p, partial) {
                                    Err(k) => Err(k),
                                    Ok(e) => Ok(TopView { input, rows, outs, end: e }),
                                }
                            },
                        },
                    },
                },
            }
        },
    }
}

/// `Top [ #k ] Rows [ n ] Output [ … ]`.
#[verifier::rlimit(60)]
pub fn top(st: &QplState, sc: &SqlSchema, s: &[u8], pos: usize, partial: bool) -> (r: Result<
    (Operation, Table, usize),
    ParseError,
>)
    requires
        pos <= s@.len(),
        sc.wf(),
    ensures
        literal_spec(s@, pos as int, keyword_text(Keyword::Top), false, partial) is Err ==> r == Err::<
            (Operation, Table, usize),
            ParseError,
        >(literal_spec(s@, pos as int, keyword_text(Keyword::Top), false, partial)->Err_0),
        op_result_ok(*st, s@, pos as int, r),
        r is Ok ==> inputs_from_header(*st, s@, pos as int, partial, Keyword::Top, r->Ok_0.0),
        r is Ok <==> top_spec(*st, sc@, s@, pos as int, partial) is Ok,
        r is Err ==> top_spec(*st, sc@, s@, pos as int, partial) == Err::<TopView, ParseError>(
            r->Err_0,
        ),
        r is Ok ==> {
            let v = top_spec(*st, sc@, s@, pos as int, partial)->Ok_0;
            &&& r->Ok_0.0 == Operation::Top { input: v.input, rows: v.rows as usize }
            &&& r->Ok_0.2 == v.end
            &&& table_for(*st, seq![v.input], v.outs, r->Ok_0.1)
        },
{
    proof {
        reveal(top_spec);
    }
    let kw = keyword_bytes(Keyword::Top);
    let p = literal(s, pos, kw.as_slice(), false, partial)?;
    let (ids, p) = input_ids(st, s, p, partial)?;
    let k = match single(&ids) {
        Some(k) => k,
        None => {
            return Err(ParseError::Mismatch);
        },
    };
    assert(seq_nat(ids@)[0] == k as nat);
    assert(ids@ =~= seq![k]);
    let rows_kw: Vec<u8> = vec![82u8, 111u8, 119u8, 115u8, 32u8, 91u8, 32u8];
    assert(rows_kw@ =~= rows_text());
    let p = literal(s, p, rows_kw.as_slice(), false, partial)?;
    let (rows, p) = dec_uint(s, p, partial)?;
    let out_kw: Vec<u8> = vec![32u8, 93u8, 32u8, 79u8, 117u8, 116u8, 112u8, 117u8, 116u8, 32u8, 91u8, 32u8];
    assert(out_kw@ =~= rows_end_text());
    let p = literal(s, p, out_kw.as_slice(), false, partial)?;
    let (outs, p) = name_outputs(st, sc, s, p, partial)?;
    if !all_in(st, k, &outs, false) {
        return Err(ParseError::Mismatch);
    }
    proof {
        assert forall|i: int| 0 <= i < names_view(outs@).len() implies derivable(*st, ids@, #[trigger] names_view(outs@)[i]) by {
            assert(line_has(*st, k, names_view(outs@)[i]));
            assert(ids@[0] == k);
        }
    }
    let (table, e) = finish_named(st, &ids, &outs, s, p, partial)?;
    let op = Operation::Top { input: k, rows };
    assert(op.inputs_spec() =~= ids@);
    assert(ids@ =~= seq![k]);
    Ok((op, table, e))
}

/// What a `Sort` line reads.
pub ghost struct SortView {
    pub input: usize,
    pub is_distinct: bool,
    pub order_by: Seq<Seq<u8>>,
    pub outs: Seq<Seq<u8>>,
    pub end: int,
}

/// `Sort [ #k ] [Distinct [ true ] ]OrderBy [ <orderings> ] Output [ <names> ]`.
#[verifier::opaque]
pub open spec fn sort_spec(st: QplState, sv: SchemaView, s: Seq<u8>, pos: int, partial: bool) -> Result<
    SortView,
    ParseError,
> {
    match header_spec(st.seen@, s, pos, partial, Keyword::Sort) {
        Err(k) => Err(k),
        Ok((ids, p)) => if ids.len() != 1 {
            Err(ParseError::Mismatch)
        } else {
            let input = ids[0] as usize;
            match flag_spec(s, p, Fixed::Distinct, partial) {
                Err(k) => Err(k),
                Ok((is_distinct, p)) => match literal_spec(s, p, fixed_text(Fixed::OrderBy), false, partial) {
                    Err(k) => Err(k),
                    Ok(p) => match orderings_spec(st, sv, input, s, p, partial) {
                        Err(k) => Err(k),
                        Ok((order_by, p)) => match literal_spec(s, p, rows_end_text(), false, partial) {
                            Err(k) => Err(k),
                            Ok(p) => match name_outputs_spec(st, sv, s, p, partial) {
                                Err(k) => Err(k),
                                Ok((outs, p)) => if !all_in_spec(st, input, outs, false) {
                                    Err(ParseError::Mismatch)
                                } else {
                                    match finish_spec(st, seq![input], outs, s, p, partial) {
                                        Err(k) => Err(k),
                                        Ok(e) => Ok(SortView { input, is_distinct, order_by, outs, end: e }),
                                    }
                                },
                            },
                        },
                    },
                },
            }
        },
    }
}

/// What a `TopSort` line reads.
pub ghost struct TopSortView {
    pub input: usize,
    pub rows: nat,
    pub order_by: Seq<Seq<u8>>,
    pub with_ties: bool,
    pub outs: Seq<Seq<u8>>,
    pub end: int,
}

/// `TopSort [ #k ] Rows [ n ] OrderBy [ <orderings> ] [WithTies [ true ] ]Output [ <names> ]`.
#[verifier::opaque]
pub open spec fn top_sort_spec(st: QplState, sv: SchemaView, s: Seq<u8>, pos: int, partial: bool) -> Result<
    TopSortView,
    ParseError,
> {
    match header_spec(st.seen@, s, pos, partial, Keyword::TopSort) {
        Err(k) => Err(k),
        Ok((ids, p)) => if ids.len() != 1 {
            Err(ParseError::Mismatch)
        } else {
            let input = ids[0] as usize;
            match literal_spec(s, p, rows_text(), false, partial) {
                Err(k) => Err(k),
                Ok(p) => match dec_uint_spec(s, p, partial) {
                    Err(k) => Err(k),
                    Ok((rows, p)) => match literal_spec(s, p, fixed_text(Fixed::ThenOrderBy), false, partial) {
                        Err(k) => Err(k),
                        Ok(p) => match orderings_spec(st, sv, input, s, p, partial) {
                            Err(k) => Err(k),
                            Ok((order_by, p)) => match literal_spec(s, p, fixed_text(Fixed::Close), false, partial) {
                                Err(k) => Err(k),
                                Ok(p) => match flag_spec(s, p, Fixed::WithTies, partial) {
                                    Err(k) => Err(k),
                                    Ok((with_ties, p)) => match literal_spec(s, p, fixed_text(Fixed::Output), false, partial) {
                                        Err(k) => Err(k),
                                        Ok(p) => match name_outputs_spec(st, sv, s, p, partial) {
                                            Err(k) => Err(k),
                                            Ok((outs, p)) => if !all_in_spec(st, input, outs, false) {
                                                Err(ParseError::Mismatch)
                                            } else {
                                                match finish_spec(st, seq![input], outs, s, p, partial) {
                                                    Err(k) => Err(k),
                                                    Ok(e) => Ok(TopSortView { input, rows, order_by, with_ties, outs, end: e }),
                                                }
                                            },
                                        },
                                    },
                                },
                            },
                        },
                    },
                },
            }
        },
    }
}

/// `Sort [ #k ] [Distinct [ true ]] OrderBy [ … ] Output [ … ]`.
#[verifier::rlimit(80)]
pub fn sort(st: &QplState, sc: &SqlSchema, s: &[u8], pos: usize, partial: bool) -> (r: Result<
    (Operation, Table, usize),
    ParseError,
>)
    requires
        pos <= s@.len(),
        sc.wf(),
    ensures
        literal_spec(s@, pos as int, keyword_text(Keyword::Sort), false, partial) is Err ==> r == Err::<
            (Operation, Table, usize),
            ParseError,
        >(literal_spec(s@, pos as int, keyword_text(Keyword::Sort), false, partial)->Err_0),
        op_result_ok(*st, s@, pos as int, r),
        r is Ok ==> inputs_from_header(*st, s@, pos as int, partial, Keyword::Sort, r->Ok_0.0),
        r is Ok <==> sort_spec(*st, sc@, s@, pos as int, partial) is Ok,
        r is Err ==> sort_spec(*st, sc@, s@, pos as int, partial) == Err::<SortView, ParseError>(
            r->Err_0,
        ),
        r is Ok ==> {
            let v = sort_spec(*st, sc@, s@, pos as int, partial)->Ok_0;
            &&& r->Ok_0.0 matches Operation::Sort { input, order_by, is_distinct }
                && input == v.input && names_view(order_by@) == v.order_by && is_distinct
                == v.is_distinct
            &&& r->Ok_0.2 == v.end
            &&& table_for(*st, seq![v.input], v.outs, r->Ok_0.1)
        },
{
    proof {
        reveal(sort_spec);
    }
    let kw = keyword_bytes(Keyword::Sort);
    let p = literal(s, pos, kw.as_slice(), false, partial)?;
    let (ids, p) = input_ids(st, s, p, partial)?;
    let k = match single(&ids) {
        Some(k) => k,
        None => {
            return Err(ParseError::Mismatch);
        },
    };
    let (is_distinct, p) = flag(s, p, Fixed::Distinct, partial)?;
    assert(seq_nat(ids@)[0] == k as nat);
    assert(ids@ =~= seq![k]);
    let p = literal(s, p, fixed_bytes(Fixed::OrderBy).as_slice(), false, partial)?;
    let (order_by, p) = orderings(st, sc, k, s, p, partial)?;
    let out_kw: Vec<u8> = vec![32u8, 93u8, 32u8, 79u8, 117u8, 116u8, 112u8, 117u8, 116u8, 32u8, 91u8, 32u8];
    assert(out_kw@ =~= rows_end_text());
    let p = literal(s, p, out_kw.as_slice(), false, partial)?;
    let (outs, p) = name_outputs(st, sc, s, p, partial)?;
    if !all_in(st, k, &outs, false) {
        return Err(ParseError::Mismatch);
    }
    proof {
        assert forall|i: int| 0 <= i < names_view(outs@).len() implies derivable(*st, ids@, #[trigger] names_view(outs@)[i]) by {
            assert(line_has(*st, k, names_view(outs@)[i]));
            assert(ids@[0] == k);
        }
    }
    let (table, e) = finish_named(st, &ids, &outs, s, p, partial)?;
    let op = Operation::Sort { input: k, order_by, is_distinct };
    assert(op.inputs_spec() =~= ids@);
    Ok((op, table, e))
}

/// `TopSort [ #k ] Rows [ n ] OrderBy [ … ] [WithTies [ true ]] Output [ … ]`.
#[verifier::rlimit(80)]
pub fn top_sort(st: &QplState, sc: &SqlSchema, s: &[u8], pos: usize, partial: bool) -> (r: Result<
    (Operation, Table, usize),
    ParseError,
>)
    requires
        pos <= s@.len(),
        sc.wf(),
    ensures
        literal_spec(s@, pos as int, keyword_text(Keyword::TopSort), false, partial) is Err ==> r == Err::<
            (Operation, Table, usize),
            ParseError,
        >(literal_spec(s@, pos as int, keyword_text(Keyword::TopSort), false, partial)->Err_0),
        op_result_ok(*st, s@, pos as int, r),
        r is Ok ==> inputs_from_header(*st, s@, pos as int, partial, Keyword::TopSort, r->Ok_0.0),
        r is Ok <==> top_sort_spec(*st, sc@, s@, pos as int, partial) is Ok,
        r is Err ==> top_sort_spec(*st, sc@, s@, pos as int, partial) == Err::<TopSortView, ParseError>(
            r->Err_0,
        ),
        r is Ok ==> {
            let v = top_sort_spec(*st, sc@, s@, pos as int, partial)->Ok_0;
            &&& r->Ok_0.0 matches Operation::TopSort { input, rows, order_by, with_ties }
                && input == v.input && rows == v.rows && names_view(order_by@) == v.order_by
                && with_ties == v.with_ties
            &&& r->Ok_0.2 == v.end
            &&& table_for(*st, seq![v.input], v.outs, r->Ok_0.1)
        },
{
    proof {
        reveal(top_sort_spec);
    }
    let kw = keyword_bytes(Keyword::TopSort);
    let p = literal(s, pos, kw.as_slice(), false, partial)?;
    let (ids, p) = input_ids(st, s, p, partial)?;
    let k = match single(&ids) {
        Some(k) => k,
        None => {
            return Err(ParseError::Mismatch);
        },
    };
    assert(seq_nat(ids@)[0] == k as nat);
    assert(ids@ =~= seq![k]);
    let rows_kw: Vec<u8> = vec![82u8, 111u8, 119u8, 115u8, 32u8, 91u8, 32u8];
    assert(rows_kw@ =~= rows_text());
    let p = literal(s, p, rows_kw.as_slice(), false, partial)?;
    let (rows, p) = dec_uint(s, p, partial)?;
    let p = literal(s, p, fixed_bytes(Fixed::ThenOrderBy).as_slice(), false, partial)?;
    let (order_by, p) = orderings(st, sc, k, s, p, partial)?;
    let p = literal(s, p, fixed_bytes(Fixed::Close).as_slice(), false, partial)?;
    let (with_ties, p) = flag(s, p, Fixed::WithTies, partial)?;
    let p = literal(s, p, fixed_bytes(Fixed::Output).as_slice(), false, partial)?;
    let (outs, p) = name_outputs(st, sc, s, p, partial)?;
    if !all_in(st, k, &outs, false) {
        return Err(ParseError::Mismatch);
    }
    proof {
        assert forall|i: int| 0 <= i < names_view(outs@).len() implies derivable(*st, ids@, #[trigger] names_view(outs@)[i]) by {
            assert(line_has(*st, k, names_view(outs@)[i]));
            assert(ids@[0] == k);
        }
    }
    let (table, e) = finish_named(st, &ids, &outs, s, p, partial)?;
    let op = Operation::TopSort { input: k, rows, order_by, with_ties };
    assert(op.inputs_spec() =~= ids@);
    Ok((op, table, e))
}

/// Which two-input operation a keyword starts.
#[derive(Clone, Copy, PartialEq, Eq, Structural)]
pub enum PairKind {
    Join,
    Intersect,
}

pub open spec fn pair_keyword_spec(kind: PairKind) -> Keyword {
    match kind {
        PairKind::Join => Keyword::Join,
        PairKind::Intersect => Keyword::Intersect,
    }
}

#[verifier::when_used_as_spec(pair_keyword_spec)]
fn pair_keyword(kind: PairKind) -> (r: Keyword)
    ensures
        r == pair_keyword_spec(kind),
{
    match kind {
        PairKind::Join => Keyword::Join,
        PairKind::Intersect => Keyword::Intersect,
    }
}

/// `Join|Intersect [ #a, #b ] [Predicate […]] [Distinct [ true ]] Output [ … ]`.
#[verifier::rlimit(80)]
pub fn join(
    st: &QplState,
    sc: &SqlSchema,
    kind: PairKind,
    tc: bool,
    s: &[u8],
    pos: usize,
    partial: bool,
) -> (r: Result<(Operation, Table, usize), ParseError>)
    requires
        pos <= s@.len(),
        sc.wf(),
    ensures
        literal_spec(s@, pos as int, keyword_text(pair_keyword_spec(kind)), false, partial) is Err ==> r == Err::<
            (Operation, Table, usize),
            ParseError,
        >(literal_spec(s@, pos as int, keyword_text(pair_keyword_spec(kind)), false, partial)->Err_0),
        op_result_ok(*st, s@, pos as int, r),
        r is Ok ==> inputs_from_header(*st, s@, pos as int, partial, pair_keyword_spec(kind), r->Ok_0.0),
        r is Ok <==> join_spec(*st, sc@, kind, tc, s@, pos as int, partial) is Ok,
        r is Err ==> join_spec(*st, sc@, kind, tc, s@, pos as int, partial) == Err::<PairView, ParseError>(
            r->Err_0,
        ),
        r is Ok ==> {
            let v = join_spec(*st, sc@, kind, tc, s@, pos as int, partial)->Ok_0;
            &&& match r->Ok_0.0 {
                Operation::Join { inputs, predicate, is_distinct } => kind == PairKind::Join
                    && inputs@ == v.inputs && opt_pred_view(predicate) == v.predicate && is_distinct
                    == v.is_distinct,
                Operation::Intersect { inputs, predicate, is_distinct } => kind == PairKind::Intersect
                    && inputs@ == v.inputs && opt_pred_view(predicate) == v.predicate && is_distinct
                    == v.is_distinct,
                _ => false,
            }
            &&& r->Ok_0.2 == v.end
            &&& table_for_ix(*st, v.outs, r->Ok_0.1)
        },
{
    proof {
        reveal(join_spec);
    }
    let kw = keyword_bytes(pair_keyword(kind));
    let p = literal(s, pos, kw.as_slice(), false, partial)?;
    let (ids, p) = input_ids(st, s, p, partial)?;
    if ids.len() != 2 {
        return Err(ParseError::Mismatch);
    }
    // key checks on `=` are for joins only
    let sharpen = kind == PairKind::Join;
    assert(usizes(seq_nat(ids@)) =~= ids@);
    let (predicate, p) = opt_predicate(st, sc, Scope::Lines(sharpen), &ids, tc, s, p, partial)?;
    let (is_distinct, p) = flag(s, p, Fixed::Distinct, partial)?;
    let p = literal(s, p, fixed_bytes(Fixed::Output).as_slice(), false, partial)?;
    let (outs, p) = indexed_or_dummy(st, sc, &ids, s, p, partial)?;
    if !indexed_valid(st, &outs) {
        return Err(ParseError::Mismatch);
    }
    let (table, e) = finish_indexed(st, &ids, &outs, s, p, partial)?;
    let op = match kind {
        PairKind::Join => Operation::Join { inputs: ids, predicate, is_distinct },
        PairKind::Intersect => Operation::Intersect { inputs: ids, predicate, is_distinct },
    };
    Ok((op, table, e))
}

/// `Except [ #a, #b ] (Predicate […] | ExceptColumns [ #k.col ] ) [Distinct [ true ]] Output [ … ]`.
#[verifier::rlimit(80)]
pub fn except(st: &QplState, sc: &SqlSchema, tc: bool, s: &[u8], pos: usize, partial: bool) -> (r:
    Result<(Operation, Table, usize), ParseError>)
    requires
        pos <= s@.len(),
        sc.wf(),
    ensures
        literal_spec(s@, pos as int, keyword_text(Keyword::Except), false, partial) is Err ==> r == Err::<
            (Operation, Table, usize),
            ParseError,
        >(literal_spec(s@, pos as int, keyword_text(Keyword::Except), false, partial)->Err_0),
        op_result_ok(*st, s@, pos as int, r),
        r is Ok ==> inputs_from_header(*st, s@, pos as int, partial, Keyword::Except, r->Ok_0.0),
        r is Ok <==> except_spec(*st, sc@, tc, s@, pos as int, partial) is Ok,
        r is Err ==> except_spec(*st, sc@, tc, s@, pos as int, partial) == Err::<PairView, ParseError>(
            r->Err_0,
        ),
        r is Ok ==> {
            let v = except_spec(*st, sc@, tc, s@, pos as int, partial)->Ok_0;
            &&& r->Ok_0.0 matches Operation::Except { inputs, operator, is_distinct } && inputs@
                == v.inputs && is_distinct == v.is_distinct && match operator {
                ExceptOperator::Predicate(pr) => v.predicate == Some(pred_view(pr)),
                ExceptOperator::ExceptColumn(c) => v.except_column == Some(c@),
            }
            &&& r->Ok_0.2 == v.end
            &&& table_for_ix(*st, v.outs, r->Ok_0.1)
        },
{
    proof {
        reveal(except_spec);
    }
    let kw = keyword_bytes(Keyword::Except);
    let p = literal(s, pos, kw.as_slice(), false, partial)?;
    let (ids, p) = input_ids(st, s, p, partial)?;
    if ids.len() != 2 {
        return Err(ParseError::Mismatch);
    }
    assert(usizes(seq_nat(ids@)) =~= ids@);
    let (operator, p) = match predicate_block(st, sc, Scope::Lines(false), &ids, tc, s, p, partial) {
        Ok((pr, e)) => (ExceptOperator::Predicate(pr), e),
        Err(ParseError::Mismatch) => {
            let ec: Vec<u8> = vec![69u8, 120u8, 99u8, 101u8, 112u8, 116u8, 67u8, 111u8, 108u8, 117u8, 109u8, 110u8, 115u8, 32u8, 91u8, 32u8];
            assert(ec@ =~= except_columns_text());
            let q = literal(s, p, ec.as_slice(), false, partial)?;
            let ((_, col), q) = indexed_column(st, sc, &ids, s, q, partial)?;
            let q = literal(s, q, fixed_bytes(Fixed::Close).as_slice(), false, partial)?;
            (ExceptOperator::ExceptColumn(col), q)
        },
        Err(k) => {
            return Err(k);
        },
    };
    let (is_distinct, p) = flag(s, p, Fixed::Distinct, partial)?;
    let p = literal(s, p, fixed_bytes(Fixed::Output).as_slice(), false, partial)?;
    let (outs, p) = indexed_or_dummy(st, sc, &ids, s, p, partial)?;
    if !indexed_valid(st, &outs) {
        return Err(ParseError::Mismatch);
    }
    let (table, e) = finish_indexed(st, &ids, &outs, s, p, partial)?;
    Ok((Operation::Except { inputs: ids, operator, is_distinct }, table, e))
}

/// Line numbers as `usize`.
pub open spec fn usizes(ids: Seq<nat>) -> Seq<usize> {
    ids.map_values(|x: nat| x as usize)
}

/// What a `Union` line reads.
pub ghost struct UnionView {
    pub inputs: Seq<usize>,
    pub outs: Seq<(usize, Seq<u8>)>,
    pub end: int,
}

/// `Union [ #a, #b ] Output [ <#k.name list> ]`: two inputs, every output a
/// column of its line, distinct derived names.
#[verifier::opaque]
pub open spec fn union_spec(st: QplState, sv: SchemaView, s: Seq<u8>, pos: int, partial: bool) -> Result<
    UnionView,
    ParseError,
> {
    match header_spec(st.seen@, s, pos, partial, Keyword::Union) {
        Err(k) => Err(k),
        Ok((ids, p)) => if ids.len() != 2 {
            Err(ParseError::Mismatch)
        } else {
            let inputs = usizes(ids);
            match literal_spec(s, p, fixed_text(Fixed::Output), false, partial) {
                Err(k) => Err(k),
                Ok(p) => match indexed_outputs_spec(st, sv, inputs, s, p, partial) {
                    Err(k) => Err(k),
                    Ok((outs, p)) => if !indexed_valid_spec(st, outs) {
                        Err(ParseError::Mismatch)
                    } else {
                        match finish_ix_spec(st, inputs, outs, s, p, partial) {
                            Err(k) => Err(k),
                            Ok(e) => Ok(UnionView { inputs, outs, end: e }),
                        }
                    },
                },
            }
        },
    }
}

/// `Union [ #a, #b ] Output [ … ]`.
#[verifier::rlimit(60)]
pub fn union(st: &QplState, sc: &SqlSchema, s: &[u8], pos: usize, partial: bool) -> (r: Result<
    (Operation, Table, usize),
    ParseError,
>)
    requires
        pos <= s@.len(),
        sc.wf(),
    ensures
        literal_spec(s@, pos as int, keyword_text(Keyword::Union), false, partial) is Err ==> r == Err::<
            (Operation, Table, usize),
            ParseError,
        >(literal_spec(s@, pos as int, keyword_text(Keyword::Union), false, partial)->Err_0),
        op_result_ok(*st, s@, pos as int, r),
        r is Ok ==> inputs_from_header(*st, s@, pos as int, partial, Keyword::Union, r->Ok_0.0),
        r is Ok <==> union_spec(*st, sc@, s@, pos as int, partial) is Ok,
        r is Err ==> union_spec(*st, sc@, s@, pos as int, partial) == Err::<UnionView, ParseError>(
            r->Err_0,
        ),
        r is Ok ==> {
            let v = union_spec(*st, sc@, s@, pos as int, partial)->Ok_0;
            &&& r->Ok_0.0 matches Operation::Union { inputs } && inputs@ == v.inputs
            &&& r->Ok_0.2 == v.end
            &&& table_for_ix(*st, v.outs, r->Ok_0.1)
        },
{
    proof {
        reveal(union_spec);
    }
    let kw = keyword_bytes(Keyword::Union);
    let p = literal(s, pos, kw.as_slice(), false, partial)?;
    let (ids, p) = input_ids(st, s, p, partial)?;
    if ids.len() != 2 {
        return Err(ParseError::Mismatch);
    }
    assert(usizes(seq_nat(ids@)) =~= ids@);
    let p = literal(s, p, fixed_bytes(Fixed::Output).as_slice(), false, partial)?;
    let (outs, p) = indexed_outputs(st, sc, &ids, s, p, partial)?;
    if !indexed_valid(st, &outs) {
        return Err(ParseError::Mismatch);
    }
    let (table, e) = finish_indexed(st, &ids, &outs, s, p, partial)?;
    Ok((Operation::Union { inputs: ids }, table, e))
}

/// Where one keyword matches, a keyword that differs from it at a position
/// within both plainly mismatches.
proof fn lemma_keyword_excludes(s: Seq<u8>, pos: int, partial: bool, a: Keyword, b: Keyword, i: int)
    requires
        0 <= pos <= s.len(),
        literal_spec(s, pos, keyword_text(a), false, partial) is Ok,
        0 <= i < keyword_text(a).len(),
        i < keyword_text(b).len(),
        keyword_text(a)[i] != keyword_text(b)[i],
    ensures
        literal_spec(s, pos, keyword_text(b), false, partial) == Err::<int, ParseError>(ParseError::Mismatch),
{
    assert(crate::lexer::same_byte(s[pos + i], keyword_text(a)[i], false));
    assert(!crate::lexer::same_byte(s[pos + i], keyword_text(b)[i], false));
}

/// Where one keyword matches, every other keyword plainly mismatches.
proof fn lemma_only_keyword(s: Seq<u8>, pos: int, partial: bool, k: Keyword)
    requires
        0 <= pos <= s.len(),
        literal_spec(s, pos, keyword_text(k), false, partial) is Ok,
    ensures
        forall|j: Keyword| j != k ==> literal_spec(s, pos, keyword_text(j), false, partial) == Err::<int, ParseError>(ParseError::Mismatch),
{
    match k {
        Keyword::Scan => {
            lemma_keyword_excludes(s, pos, partial, Keyword::Scan, Keyword::Aggregate, 0);
            lemma_keyword_excludes(s, pos, partial, Keyword::Scan, Keyword::Filter, 0);
            lemma_keyword_excludes(s, pos, partial, Keyword::Scan, Keyword::Top, 0);
            lemma_keyword_excludes(s, pos, partial, Keyword::Scan, Keyword::Sort, 1);
            lemma_keyword_excludes(s, pos, partial, Keyword::Scan, Keyword::TopSort, 0);
            lemma_keyword_excludes(s, pos, partial, Keyword::Scan, Keyword::Join, 0);
            lemma_keyword_excludes(s, pos, partial, Keyword::Scan, Keyword::Intersect, 0);
            lemma_keyword_excludes(s, pos, partial, Keyword::Scan, Keyword::Except, 0);
            lemma_keyword_excludes(s, pos, partial, Keyword::Scan, Keyword::Union, 0);
        },
        Keyword::Aggregate => {
            lemma_keyword_excludes(s, pos, partial, Keyword::Aggregate, Keyword::Scan, 0);
            lemma_keyword_excludes(s, pos, partial, Keyword::Aggregate, Keyword::Filter, 0);
            lemma_keyword_excludes(s, pos, partial, Keyword::Aggregate, Keyword::Top, 0);
            lemma_keyword_excludes(s, pos, partial, Keyword::Aggregate, Keyword::Sort, 0);
            lemma_keyword_excludes(s, pos, partial, Keyword::Aggregate, Keyword::TopSort, 0);
            lemma_keyword_excludes(s, pos, partial, Keyword::Aggregate, Keyword::Join, 0);
            lemma_keyword_excludes(s, pos, partial, Keyword::Aggregate, Keyword::Intersect, 0);
            lemma_keyword_excludes(s, pos, partial, Keyword::Aggregate, Keyword::Except, 0);
            lemma_keyword_excludes(s, pos, partial, Keyword::Aggregate, Keyword::Union, 0);
        },
        Keyword::Filter => {
            lemma_keyword_excludes(s, pos, partial, Keyword::Filter, Keyword::Scan, 0);
            lemma_keyword_excludes(s, pos, partial, Keyword::Filter, Keyword::Aggregate, 0);
            lemma_keyword_excludes(s, pos, partial, Keyword::Filter, Keyword::Top, 0);
            lemma_keyword_excludes(s, pos, partial, Keyword::Filter, Keyword::Sort, 0);
            lemma_keyword_excludes(s, pos, partial, Keyword::Filter, Keyword::TopSort, 0);
            lemma_keyword_excludes(s, pos, partial, Keyword::Filter, Keyword::Join, 0);
            lemma_keyword_excludes(s, pos, partial, Keyword::Filter, Keyword::Intersect, 0);
            lemma_keyword_excludes(s, pos, partial, Keyword::Filter, Keyword::Except, 0);
            lemma_keyword_excludes(s, pos, partial, Keyword::Filter, Keyword::Union, 0);
        },
        Keyword::Top => {
            lemma_keyword_excludes(s, pos, partial, Keyword::Top, Keyword::Scan, 0);
            lemma_keyword_excludes(s, pos, partial, Keyword::Top, Keyword::Aggregate, 0);
            lemma_keyword_excludes(s, pos, partial, Keyword::Top, Keyword::Filter, 0);
            lemma_keyword_excludes(s, pos, partial, Keyword::Top, Keyword::Sort, 0);
            lemma_keyword_excludes(s, pos, partial, Keyword::Top, Keyword::TopSort, 3);
            lemma_keyword_excludes(s, pos, partial, Keyword::Top, Keyword::Join, 0);
            lemma_keyword_excludes(s, pos, partial, Keyword::Top, Keyword::Intersect, 0);
            lemma_keyword_excludes(s, pos, partial, Keyword::Top, Keyword::Except, 0);
            lemma_keyword_excludes(s, pos, partial, Keyword::Top, Keyword::Union, 0);
        },
        Keyword::Sort => {
            lemma_keyword_excludes(s, pos, partial, Keyword::Sort, Keyword::Scan, 1);
            lemma_keyword_excludes(s, pos, partial, Keyword::Sort, Keyword::Aggregate, 0);
            lemma_keyword_excludes(s, pos, partial, Keyword::Sort, Keyword::Filter, 0);
            lemma_keyword_excludes(s, pos, partial, Keyword::Sort, Keyword::Top, 0);
            lemma_keyword_excludes(s, pos, partial, Keyword::Sort, Keyword::TopSort, 0);
            lemma_keyword_excludes(s, pos, partial, Keyword::Sort, Keyword::Join, 0);
            lemma_keyword_excludes(s, pos, partial, Keyword::Sort, Keyword::Intersect, 0);
            lemma_keyword_excludes(s, pos, partial, Keyword::Sort, Keyword::Except, 0);
            lemma_keyword_excludes(s, pos, partial, Keyword::Sort, Keyword::Union, 0);
        },
        Keyword::TopSort => {
            lemma_keyword_excludes(s, pos, partial, Keyword::TopSort, Keyword::Scan, 0);
            lemma_keyword_excludes(s, pos, partial, Keyword::TopSort, Keyword::Aggregate, 0);
            lemma_keyword_excludes(s, pos, partial, Keyword::TopSort, Keyword::Filter, 0);
            lemma_keyword_excludes(s, pos, partial, Keyword::TopSort, Keyword::Top, 3);
            lemma_keyword_excludes(s, pos, partial, Keyword::TopSort, Keyword::Sort, 0);
            lemma_keyword_excludes(s, pos, partial, Keyword::TopSort, Keyword::Join, 0);
            lemma_keyword_excludes(s, pos, partial, Keyword::TopSort, Keyword::Intersect, 0);
            lemma_keyword_excludes(s, pos, partial, Keyword::TopSort, Keyword::Except, 0);
            lemma_keyword_excludes(s, pos, partial, Keyword::TopSort, Keyword::Union, 0);
        },
        Keyword::Join => {
            lemma_keyword_excludes(s, pos, partial, Keyword::Join, Keyword::Scan, 0);
            lemma_keyword_excludes(s, pos, partial, Keyword::Join, Keyword::Aggregate, 0);
            lemma_keyword_excludes(s, pos, partial, Keyword::Join, Keyword::Filter, 0);
            lemma_keyword_excludes(s, pos, partial, Keyword::Join, Keyword::Top, 0);
            lemma_keyword_excludes(s, pos, partial, Keyword::Join, Keyword::Sort, 0);
            lemma_keyword_excludes(s, pos, partial, Keyword::Join, Keyword::TopSort, 0);
            lemma_keyword_excludes(s, pos, partial, Keyword::Join, Keyword::Intersect, 0);
            lemma_keyword_excludes(s, pos, partial, Keyword::Join, Keyword::Except, 0);
            lemma_keyword_excludes(s, pos, partial, Keyword::Join, Keyword::Union, 0);
        },
        Keyword::Intersect => {
            lemma_keyword_excludes(s, pos, partial, Keyword::Intersect, Keyword::Scan, 0);
            lemma_keyword_excludes(s, pos, partial, Keyword::Intersect, Keyword::Aggregate, 0);
            lemma_keyword_excludes(s, pos, partial, Keyword::Intersect, Keyword::Filter, 0);
            lemma_keyword_excludes(s, pos, partial, Keyword::Intersect, Keyword::Top, 0);
            lemma_keyword_excludes(s, pos, partial, Keyword::Intersect, Keyword::Sort, 0);
            lemma_keyword_excludes(s, pos, partial, Keyword::Intersect, Keyword::TopSort, 0);
            lemma_keyword_excludes(s, pos, partial, Keyword::Intersect, Keyword::Join, 0);
            lemma_keyword_excludes(s, pos, partial, Keyword::Intersect, Keyword::Except, 0);
            lemma_keyword_excludes(s, pos, partial, Keyword::Intersect, Keyword::Union, 0);
        },
        Keyword::Except => {
            lemma_keyword_excludes(s, pos, partial, Keyword::Except, Keyword::Scan, 0);
            lemma_keyword_excludes(s, pos, partial, Keyword::Except, Keyword::Aggregate, 0);
            lemma_keyword_excludes(s, pos, partial, Keyword::Except, Keyword::Filter, 0);
            lemma_keyword_excludes(s, pos, partial, Keyword::Except, Keyword::Top, 0);
            lemma_keyword_excludes(s, pos, partial, Keyword::Except, Keyword::Sort, 0);
            lemma_keyword_excludes(s, pos, partial, Keyword::Except, Keyword::TopSort, 0);
            lemma_keyword_excludes(s, pos, partial, Keyword::Except, Keyword::Join, 0);
            lemma_keyword_excludes(s, pos, partial, Keyword::Except, Keyword::Intersect, 0);
            lemma_keyword_excludes(s, pos, partial, Keyword::Except, Keyword::Union, 0);
        },
        Keyword::Union => {
            lemma_keyword_excludes(s, pos, partial, Keyword::Union, Keyword::Scan, 0);
            lemma_keyword_excludes(s, pos, partial, Keyword::Union, Keyword::Aggregate, 0);
            lemma_keyword_excludes(s, pos, partial, Keyword::Union, Keyword::Filter, 0);
            lemma_keyword_excludes(s, pos, partial, Keyword::Union, Keyword::Top, 0);
            lemma_keyword_excludes(s, pos, partial, Keyword::Union, Keyword::Sort, 0);
            lemma_keyword_excludes(s, pos, partial, Keyword::Union, Keyword::TopSort, 0);
            lemma_keyword_excludes(s, pos, partial, Keyword::Union, Keyword::Join, 0);
            lemma_keyword_excludes(s, pos, partial, Keyword::Union, Keyword::Intersect, 0);
            lemma_keyword_excludes(s, pos, partial, Keyword::Union, Keyword::Except, 0);
        },
    }
    assert forall|j: Keyword| j != k implies literal_spec(s, pos, keyword_text(j), false, partial) == Err::<int, ParseError>(ParseError::Mismatch) by {
        match j {
            _ => {},
        }
    }
}

/// The keywords in the order a line tries them.
pub open spec fn keyword_order() -> Seq<Keyword> {
    seq![
        Keyword::Scan,
        Keyword::Aggregate,
        Keyword::Filter,
        Keyword::Top,
        Keyword::Sort,
        Keyword::TopSort,
        Keyword::Join,
        Keyword::Intersect,
        Keyword::Except,
        Keyword::Union,
    ]
}

/// Where the operation of keyword `k` ends, by its grammar spec.
pub open spec fn op_try(st: QplState, sv: SchemaView, tc: bool, k: Keyword, s: Seq<u8>, pos: int, partial: bool) -> Result<int, ParseError> {
    match k {
        Keyword::Scan => match scan_spec(st, sv, tc, s, pos, partial) { Ok(v) => Ok(v.end), Err(x) => Err(x) },
        Keyword::Aggregate => match aggregate_spec(st, sv, s, pos, partial) { Ok(v) => Ok(v.end), Err(x) => Err(x) },
        Keyword::Filter => match filter_spec(st, sv, tc, s, pos, partial) { Ok(v) => Ok(v.end), Err(x) => Err(x) },
        Keyword::Top => match top_spec(st, sv, s, pos, partial) { Ok(v) => Ok(v.end), Err(x) => Err(x) },
        Keyword::Sort => match sort_spec(st, sv, s, pos, partial) { Ok(v) => Ok(v.end), Err(x) => Err(x) },
        Keyword::TopSort => match top_sort_spec(st, sv, s, pos, partial) { Ok(v) => Ok(v.end), Err(x) => Err(x) },
        Keyword::Join => match join_spec(st, sv, PairKind::Join, tc, s, pos, partial) { Ok(v) => Ok(v.end), Err(x) => Err(x) },
        Keyword::Intersect => match join_spec(st, sv, PairKind::Intersect, tc, s, pos, partial) { Ok(v) => Ok(v.end), Err(x) => Err(x) },
        Keyword::Except => match except_spec(st, sv, tc, s, pos, partial) { Ok(v) => Ok(v.end), Err(x) => Err(x) },
        Keyword::Union => match union_spec(st, sv, s, pos, partial) { Ok(v) => Ok(v.end), Err(x) => Err(x) },
    }
}

/// The outcome of a line's operation: the keywords are tried in order; the
/// first that does not plainly mismatch decides, by its grammar spec.
pub open spec fn op_end_spec(st: QplState, sv: SchemaView, tc: bool, s: Seq<u8>, pos: int, partial: bool, i: int) -> Result<int, ParseError>
    decreases 10 - i,
{
    if i < 0 || i >= 10 {
        Err(ParseError::Mismatch)
    } else {
        match literal_spec(s, pos, keyword_text(keyword_order()[i]), false, partial) {
            Ok(_) => op_try(st, sv, tc, keyword_order()[i], s, pos, partial),
            Err(ParseError::Mismatch) => op_end_spec(st, sv, tc, s, pos, partial, i + 1),
            Err(x) => Err(x),
        }
    }
}

/// The result of a line's operation: whichever keyword it starts with, it
/// is the result that keyword's grammar spec gives.
pub open spec fn operation_matches(st: QplState, sv: SchemaView, tc: bool, s: Seq<u8>, pos: int, partial: bool, r: Result<
    (Operation, Table, usize),
    ParseError,
>) -> bool {
    &&& literal_spec(s, pos, keyword_text(Keyword::Scan), false, partial) is Ok ==> (r is Ok
        <==> scan_spec(st, sv, tc, s, pos, partial) is Ok) && (r is Err ==> scan_spec(st, sv, tc, s, pos, partial)
        == Err::<ScanView, ParseError>(r->Err_0))
    &&& literal_spec(s, pos, keyword_text(Keyword::Filter), false, partial) is Ok ==> (r is Ok
        <==> filter_spec(st, sv, tc, s, pos, partial) is Ok) && (r is Err ==> filter_spec(st, sv, tc, s, pos, partial)
        == Err::<FilterView, ParseError>(r->Err_0))
    &&& literal_spec(s, pos, keyword_text(Keyword::Join), false, partial) is Ok ==> (r is Ok
        <==> join_spec(st, sv, PairKind::Join, tc, s, pos, partial) is Ok) && (r is Err ==> join_spec(st, sv, PairKind::Join, tc, s, pos, partial)
        == Err::<PairView, ParseError>(r->Err_0))
    &&& literal_spec(s, pos, keyword_text(Keyword::Intersect), false, partial) is Ok ==> (r is Ok
        <==> join_spec(st, sv, PairKind::Intersect, tc, s, pos, partial) is Ok) && (r is Err ==> join_spec(st, sv, PairKind::Intersect, tc, s, pos, partial)
        == Err::<PairView, ParseError>(r->Err_0))
    &&& literal_spec(s, pos, keyword_text(Keyword::Except), false, partial) is Ok ==> (r is Ok
        <==> except_spec(st, sv, tc, s, pos, partial) is Ok) && (r is Err ==> except_spec(st, sv, tc, s, pos, partial)
        == Err::<PairView, ParseError>(r->Err_0))
    &&& literal_spec(s, pos, keyword_text(Keyword::Aggregate), false, partial) is Ok ==> (r is Ok
        <==> aggregate_spec(st, sv, s, pos, partial) is Ok) && (r is Err ==> aggregate_spec(
        st,
        sv,
        s,
        pos,
        partial,
    ) == Err::<AggregateView, ParseError>(r->Err_0))
    &&& literal_spec(s, pos, keyword_text(Keyword::Top), false, partial) is Ok ==> (r is Ok
        <==> top_spec(st, sv, s, pos, partial) is Ok) && (r is Err ==> top_spec(st, sv, s, pos, partial)
        == Err::<TopView, ParseError>(r->Err_0))
    &&& literal_spec(s, pos, keyword_text(Keyword::Sort), false, partial) is Ok ==> (r is Ok
        <==> sort_spec(st, sv, s, pos, partial) is Ok) && (r is Err ==> sort_spec(st, sv, s, pos, partial)
        == Err::<SortView, ParseError>(r->Err_0))
    &&& literal_spec(s, pos, keyword_text(Keyword::TopSort), false, partial) is Ok ==> (r is Ok
        <==> top_sort_spec(st, sv, s, pos, partial) is Ok) && (r is Err ==> top_sort_spec(
        st,
        sv,
        s,
        pos,
        partial,
    ) == Err::<TopSortView, ParseError>(r->Err_0))
    &&& literal_spec(s, pos, keyword_text(Keyword::Union), false, partial) is Ok ==> (r is Ok
        <==> union_spec(st, sv, s, pos, partial) is Ok) && (r is Err ==> union_spec(st, sv, s, pos, partial)
        == Err::<UnionView, ParseError>(r->Err_0))
}

/// One operation: each keyword is tried in turn while the input plainly
/// differs from it.
#[verifier::rlimit(100)]
pub fn operation(st: &QplState, sc: &SqlSchema, tc: bool, s: &[u8], pos: usize, partial: bool) -> (r:
    Result<(Operation, Table, usize), ParseError>)
    requires
        pos <= s@.len(),
        sc.wf(),
    ensures
        op_result_ok(*st, s@, pos as int, r),
        operation_matches(*st, sc@, tc, s@, pos as int, partial, r),
        match r {
            Ok((_, _, e)) => op_end_spec(*st, sc@, tc, s@, pos as int, partial, 0) == Ok::<int, ParseError>(e as int),
            Err(x) => op_end_spec(*st, sc@, tc, s@, pos as int, partial, 0) == Err::<int, ParseError>(x),
        },
{
    proof {
        reveal_with_fuel(op_end_spec, 11);
        let kws = keyword_order();
        assert forall|i: int| 0 <= i < 10 && #[trigger] literal_spec(s@, pos as int, keyword_text(kws[i]), false, partial) is Ok
            implies forall|j: Keyword| j != kws[i] ==> literal_spec(s@, pos as int, keyword_text(j), false, partial)
                == Err::<int, ParseError>(ParseError::Mismatch) by {
            lemma_only_keyword(s@, pos as int, partial, kws[i]);
        }
        let sv = s@;
        let p = pos as int;
        if literal_spec(sv, p, keyword_text(Keyword::Filter), false, partial) is Ok {
            lemma_keyword_excludes(sv, p, partial, Keyword::Filter, Keyword::Scan, 0);
            lemma_keyword_excludes(sv, p, partial, Keyword::Filter, Keyword::Aggregate, 0);
        }
        if literal_spec(sv, p, keyword_text(Keyword::Join), false, partial) is Ok {
            lemma_keyword_excludes(sv, p, partial, Keyword::Join, Keyword::Scan, 0);
            lemma_keyword_excludes(sv, p, partial, Keyword::Join, Keyword::Aggregate, 0);
            lemma_keyword_excludes(sv, p, partial, Keyword::Join, Keyword::Filter, 0);
            lemma_keyword_excludes(sv, p, partial, Keyword::Join, Keyword::Top, 0);
            lemma_keyword_excludes(sv, p, partial, Keyword::Join, Keyword::Sort, 0);
            lemma_keyword_excludes(sv, p, partial, Keyword::Join, Keyword::TopSort, 0);
        }
        if literal_spec(sv, p, keyword_text(Keyword::Intersect), false, partial) is Ok {
            lemma_keyword_excludes(sv, p, partial, Keyword::Intersect, Keyword::Scan, 0);
            lemma_keyword_excludes(sv, p, partial, Keyword::Intersect, Keyword::Aggregate, 0);
            lemma_keyword_excludes(sv, p, partial, Keyword::Intersect, Keyword::Filter, 0);
            lemma_keyword_excludes(sv, p, partial, Keyword::Intersect, Keyword::Top, 0);
            lemma_keyword_excludes(sv, p, partial, Keyword::Intersect, Keyword::Sort, 0);
            lemma_keyword_excludes(sv, p, partial, Keyword::Intersect, Keyword::TopSort, 0);
            lemma_keyword_excludes(sv, p, partial, Keyword::Intersect, Keyword::Join, 0);
        }
        if literal_spec(sv, p, keyword_text(Keyword::Except), false, partial) is Ok {
            lemma_keyword_excludes(sv, p, partial, Keyword::Except, Keyword::Scan, 0);
            lemma_keyword_excludes(sv, p, partial, Keyword::Except, Keyword::Aggregate, 0);
            lemma_keyword_excludes(sv, p, partial, Keyword::Except, Keyword::Filter, 0);
            lemma_keyword_excludes(sv, p, partial, Keyword::Except, Keyword::Top, 0);
            lemma_keyword_excludes(sv, p, partial, Keyword::Except, Keyword::Sort, 0);
            lemma_keyword_excludes(sv, p, partial, Keyword::Except, Keyword::TopSort, 0);
            lemma_keyword_excludes(sv, p, partial, Keyword::Except, Keyword::Join, 0);
            lemma_keyword_excludes(sv, p, partial, Keyword::Except, Keyword::Intersect, 0);
        }
        if literal_spec(sv, p, keyword_text(Keyword::Aggregate), false, partial) is Ok {
            lemma_keyword_excludes(sv, p, partial, Keyword::Aggregate, Keyword::Scan, 0);
        }
        if literal_spec(sv, p, keyword_text(Keyword::Top), false, partial) is Ok {
            lemma_keyword_excludes(sv, p, partial, Keyword::Top, Keyword::Scan, 0);
            lemma_keyword_excludes(sv, p, partial, Keyword::Top, Keyword::Aggregate, 0);
            lemma_keyword_excludes(sv, p, partial, Keyword::Top, Keyword::Filter, 0);
        }
        if literal_spec(sv, p, keyword_text(Keyword::Sort), false, partial) is Ok {
            lemma_keyword_excludes(sv, p, partial, Keyword::Sort, Keyword::Scan, 1);
            lemma_keyword_excludes(sv, p, partial, Keyword::Sort, Keyword::Aggregate, 0);
            lemma_keyword_excludes(sv, p, partial, Keyword::Sort, Keyword::Filter, 0);
            lemma_keyword_excludes(sv, p, partial, Keyword::Sort, Keyword::Top, 0);
        }
        if literal_spec(sv, p, keyword_text(Keyword::TopSort), false, partial) is Ok {
            lemma_keyword_excludes(sv, p, partial, Keyword::TopSort, Keyword::Scan, 0);
            lemma_keyword_excludes(sv, p, partial, Keyword::TopSort, Keyword::Aggregate, 0);
            lemma_keyword_excludes(sv, p, partial, Keyword::TopSort, Keyword::Filter, 0);
            lemma_keyword_excludes(sv, p, partial, Keyword::TopSort, Keyword::Top, 3);
            lemma_keyword_excludes(sv, p, partial, Keyword::TopSort, Keyword::Sort, 0);
        }
        if literal_spec(sv, p, keyword_text(Keyword::Union), false, partial) is Ok {
            lemma_keyword_excludes(sv, p, partial, Keyword::Union, Keyword::Scan, 0);
            lemma_keyword_excludes(sv, p, partial, Keyword::Union, Keyword::Aggregate, 0);
            lemma_keyword_excludes(sv, p, partial, Keyword::Union, Keyword::Filter, 0);
            lemma_keyword_excludes(sv, p, partial, Keyword::Union, Keyword::Top, 0);
            lemma_keyword_excludes(sv, p, partial, Keyword::Union, Keyword::Sort, 0);
            lemma_keyword_excludes(sv, p, partial, Keyword::Union, Keyword::TopSort, 0);
            lemma_keyword_excludes(sv, p, partial, Keyword::Union, Keyword::Join, 0);
            lemma_keyword_excludes(sv, p, partial, Keyword::Union, Keyword::Intersect, 0);
            lemma_keyword_excludes(sv, p, partial, Keyword::Union, Keyword::Except, 0);
        }
    }
    match scan(st, sc, tc, s, pos, partial) {
        Err(ParseError::Mismatch) => {},
        other => {
            return other;
        },
    }
    match aggregate(st, sc, s, pos, partial) {
        Err(ParseError::Mismatch) => {},
        other => {
            return other;
        },
    }
    match filter(st, sc, tc, s, pos, partial) {
        Err(ParseError::Mismatch) => {},
        other => {
            return other;
        },
    }
    match top(st, sc, s, pos, partial) {
        Err(ParseError::Mismatch) => {},
        other => {
            return other;
        },
    }
    match sort(st, sc, s, pos, partial) {
        Err(ParseError::Mismatch) => {},
        other => {
            return other;
        },
    }
    match top_sort(st, sc, s, pos, partial) {
        Err(ParseError::Mismatch) => {},
        other => {
            return other;
        },
    }
    match join(st, sc, PairKind::Join, tc, s, pos, partial) {
        Err(ParseError::Mismatch) => {},
        other => {
            return other;
        },
    }
    match join(st, sc, PairKind::Intersect, tc, s, pos, partial) {
        Err(ParseError::Mismatch) => {},
        other => {
            return other;
        },
    }
    match except(st, sc, tc, s, pos, partial) {
        Err(ParseError::Mismatch) => {},
        other => {
            return other;
        },
    }
    union(st, sc, s, pos, partial)
}

} // verus!
