use vstd::prelude::*;

use crate::domain::{copy_bytes, names_view, ColumnType, SchemaView, SqlSchema};
use crate::lexer::{
    alphanumeric1, caseless_eq, copy_range, eq_caseless, lifts, literal, literal_spec, starts_with,
    take_while1_spec, Class, ParseError,
};

verus! {

/// Index of the candidate that longest-first matching settles on among the
/// first `n`: the longest one whose match is not a plain mismatch (earliest on
/// ties).
pub open spec fn pick(cands: Seq<Seq<u8>>, s: Seq<u8>, pos: int, partial: bool, n: int) -> Option<
    int,
>
    decreases n,
{
    if n <= 0 {
        None
    } else {
        let prev = pick(cands, s, pos, partial, n - 1);
        if literal_spec(s, pos, cands[n - 1], true, partial) == Err::<int, ParseError>(
            ParseError::Mismatch,
        ) {
            prev
        } else {
            match prev {
                None => Some(n - 1),
                Some(j) => if cands[n - 1].len() > cands[j].len() {
                    Some(n - 1)
                } else {
                    Some(j)
                },
            }
        }
    }
}

/// Longest-first, case-insensitive choice among names: the index of the
/// chosen name and the end of its match.
pub open spec fn choice_spec(cands: Seq<Seq<u8>>, s: Seq<u8>, pos: int, partial: bool) -> Result<
    (int, int),
    ParseError,
> {
    match pick(cands, s, pos, partial, cands.len() as int) {
        None => Err(ParseError::Mismatch),
        Some(j) => match literal_spec(s, pos, cands[j], true, partial) {
            Ok(e) => Ok((j, e)),
            Err(k) => Err(k),
        },
    }
}

proof fn lemma_pick_range(cands: Seq<Seq<u8>>, s: Seq<u8>, pos: int, partial: bool, n: int)
    requires
        n <= cands.len(),
    ensures
        match pick(cands, s, pos, partial, n) {
            Some(j) => 0 <= j < n && literal_spec(s, pos, cands[j], true, partial) != Err::<
                int,
                ParseError,
            >(ParseError::Mismatch),
            None => true,
        },
    decreases n,
{
    if n > 0 {
        lemma_pick_range(cands, s, pos, partial, n - 1);
    }
}

/// Longest match: when a name matches in full where the choice is made, the
/// name chosen is at least as long.
pub proof fn lemma_choice_longest(
    cands: Seq<Seq<u8>>,
    s: Seq<u8>,
    pos: int,
    partial: bool,
    n: int,
    k: int,
)
    requires
        0 <= k < n <= cands.len(),
        literal_spec(s, pos, cands[k], true, partial) is Ok,
    ensures
        pick(cands, s, pos, partial, n) is Some,
        cands[k].len() <= cands[pick(cands, s, pos, partial, n)->Some_0].len(),
    decreases n,
{
    lemma_pick_range(cands, s, pos, partial, n);
    if k < n - 1 {
        lemma_choice_longest(cands, s, pos, partial, n - 1, k);
    }
}

/// A choice that succeeds names one of the candidates and ends inside the input.
pub proof fn lemma_choice_bounds(cands: Seq<Seq<u8>>, s: Seq<u8>, pos: int, partial: bool)
    ensures
        choice_spec(cands, s, pos, partial) is Ok ==> {
            let (j, e) = choice_spec(cands, s, pos, partial)->Ok_0;
            0 <= j < cands.len() && pos <= e <= s.len()
        },
{
    lemma_pick_range(cands, s, pos, partial, cands.len() as int);
}

/// Longest-first, case-insensitive choice among `cands` at `pos`.
pub fn choice(cands: &Vec<Vec<u8>>, s: &[u8], pos: usize, partial: bool) -> (r: Result<
    (usize, usize),
    ParseError,
>)
    requires
        pos <= s@.len(),
    ensures
        match r {
            Ok((j, e)) => choice_spec(names_view(cands@), s@, pos as int, partial) == Ok::<
                (int, int),
                ParseError,
            >((j as int, e as int)),
            Err(k) => choice_spec(names_view(cands@), s@, pos as int, partial) == Err::<
                (int, int),
                ParseError,
            >(k) && k != ParseError::Cut,
        },
{
    let ghost cv = names_view(cands@);
    let mut best: Option<usize> = None;
    let mut best_res: Result<usize, ParseError> = Err(ParseError::Mismatch);
    let mut i: usize = 0;
    while i < cands.len()
        invariant
            i <= cands@.len(),
            cv == names_view(cands@),
            pos <= s@.len(),
            match best {
                None => pick(cv, s@, pos as int, partial, i as int) is None,
                Some(j) => pick(cv, s@, pos as int, partial, i as int) == Some(j as int) && j
                    < i && lifts(best_res, literal_spec(s@, pos as int, cv[j as int], true, partial)),
            },
        decreases cands@.len() - i,
    {
        let m = literal(s, pos, cands[i].as_slice(), true, partial);
        assert(cv[i as int] == cands@[i as int]@);
        match m {
            Err(ParseError::Mismatch) => {},
            _ => {
                match best {
                    None => {
                        best = Some(i);
                        best_res = m;
                    },
                    Some(j) => {
                        assert(cv[j as int] == cands@[j as int]@);
                        if cands[i].len() > cands[j].len() {
                            best = Some(i);
                            best_res = m;
                        }
                    },
                }
            },
        }
        i += 1;
    }
    match best {
        None => Err(ParseError::Mismatch),
        Some(j) => match best_res {
            Ok(e) => Ok((j, e)),
            Err(k) => Err(k),
        },
    }
}

/// A table name of the schema, longest first.
pub fn table_name(schema: &SqlSchema, s: &[u8], pos: usize, partial: bool) -> (r: Result<
    (usize, usize),
    ParseError,
>)
    requires
        pos <= s@.len(),
    ensures
        match r {
            Ok((t, e)) => choice_spec(schema@.table_names, s@, pos as int, partial) == Ok::<
                (int, int),
                ParseError,
            >((t as int, e as int)) && pos <= e <= s@.len() && t < schema@.table_names.len(),
            Err(k) => choice_spec(schema@.table_names, s@, pos as int, partial) == Err::<
                (int, int),
                ParseError,
            >(k) && k != ParseError::Cut,
        },
{
    proof {
        lemma_pick_range(schema@.table_names, s@, pos as int, partial, schema@.table_names.len() as int);
    }
    choice(&schema.table_names, s, pos, partial)
}

/// A name chosen longest first among `cands`: the name and its end.
pub open spec fn name_choice_spec(cands: Seq<Seq<u8>>, s: Seq<u8>, pos: int, partial: bool) -> Result<
    (Seq<u8>, int),
    ParseError,
> {
    match choice_spec(cands, s, pos, partial) {
        Ok((j, e)) => Ok((cands[j], e)),
        Err(k) => Err(k),
    }
}

/// A column name of the schema, longest first; gives its canonical spelling.
pub fn column_name(schema: &SqlSchema, s: &[u8], pos: usize, partial: bool) -> (r: Result<
    (Vec<u8>, usize),
    ParseError,
>)
    requires
        pos <= s@.len(),
    ensures
        match r {
            Ok((name, e)) => pos <= e <= s@.len() && exists|j: int|
                choice_spec(schema@.column_names, s@, pos as int, partial) == Ok::<
                    (int, int),
                    ParseError,
                >((j, e as int)) && 0 <= j < schema@.column_names.len() && name@
                    == schema@.column_names[j] && pos <= e <= s@.len(),
            Err(k) => choice_spec(schema@.column_names, s@, pos as int, partial) == Err::<
                (int, int),
                ParseError,
            >(k) && k != ParseError::Cut,
        },
        match r {
            Ok((name, e)) => name_choice_spec(schema@.column_names, s@, pos as int, partial) == Ok::<
                (Seq<u8>, int),
                ParseError,
            >((name@, e as int)),
            Err(k) => name_choice_spec(schema@.column_names, s@, pos as int, partial) == Err::<
                (Seq<u8>, int),
                ParseError,
            >(k),
        },
{
    let (j, e) = choice(&schema.column_names, s, pos, partial)?;
    proof {
        lemma_pick_range(schema@.column_names, s@, pos as int, partial, schema@.column_names.len() as int);
    }
    Ok((copy_bytes(schema.column_names[j].as_slice()), e))
}

/// Name of an aggregate result: starts with `Sum_`, `Min_`, `Max_`, `Count_`,
/// `Avg_`, or `countstar`.
pub open spec fn is_agg_name(n: Seq<u8>) -> bool {
    ||| n.len() >= 4 && n.subrange(0, 4) == seq![83u8, 117u8, 109u8, 95u8]
    ||| n.len() >= 4 && n.subrange(0, 4) == seq![77u8, 105u8, 110u8, 95u8]
    ||| n.len() >= 4 && n.subrange(0, 4) == seq![77u8, 97u8, 120u8, 95u8]
    ||| n.len() >= 6 && n.subrange(0, 6) == seq![67u8, 111u8, 117u8, 110u8, 116u8, 95u8]
    ||| n.len() >= 4 && n.subrange(0, 4) == seq![65u8, 118u8, 103u8, 95u8]
    ||| n.len() >= 9 && n.subrange(0, 9) == seq![
        99u8,
        111u8,
        117u8,
        110u8,
        116u8,
        115u8,
        116u8,
        97u8,
        114u8,
    ]
}

/// Whether a column name is that of an aggregate result.
pub fn starts_with_agg(column: &[u8]) -> (r: bool)
    ensures
        r == is_agg_name(column@),
{
    let sum: Vec<u8> = vec![83u8, 117u8, 109u8, 95u8];
    let min: Vec<u8> = vec![77u8, 105u8, 110u8, 95u8];
    let max: Vec<u8> = vec![77u8, 97u8, 120u8, 95u8];
    let count: Vec<u8> = vec![67u8, 111u8, 117u8, 110u8, 116u8, 95u8];
    let avg: Vec<u8> = vec![65u8, 118u8, 103u8, 95u8];
    let star: Vec<u8> = vec![99u8, 111u8, 117u8, 110u8, 116u8, 115u8, 116u8, 97u8, 114u8];
    starts_with(column, sum.as_slice()) || starts_with(column, min.as_slice()) || starts_with(
        column,
        max.as_slice(),
    ) || starts_with(column, count.as_slice()) || starts_with(column, avg.as_slice())
        || starts_with(column, star.as_slice())
}

/// The column `c` is named `name` (up to case) and belongs to table `t`.
pub open spec fn column_of(sv: SchemaView, t: int, c: int, name: Seq<u8>) -> bool {
    0 <= c < sv.column_names.len() && c < sv.column_to_table.len() && caseless_eq(
        sv.column_names[c],
        name,
    ) && sv.column_to_table[c] == t
}

/// The first column of table `t` named `name` (up to case).
pub fn find_column(schema: &SqlSchema, t: usize, name: &[u8]) -> (r: Option<usize>)
    ensures
        match r {
            Some(c) => column_of(schema@, t as int, c as int, name@) && forall|j: int|
                0 <= j < c ==> !column_of(schema@, t as int, j, name@),
            None => forall|j: int| !column_of(schema@, t as int, j, name@),
        },
{
    let mut i: usize = 0;
    while i < schema.column_names.len()
        invariant
            i <= schema.column_names@.len(),
            forall|j: int| 0 <= j < i ==> !column_of(schema@, t as int, j, name@),
        decreases schema.column_names@.len() - i,
    {
        if i < schema.column_to_table.len() && eq_caseless(schema.column_names[i].as_slice(), name)
            && schema.column_to_table[i] == t {
            return Some(i);
        }
        i += 1;
    }
    None
}

/// The schema type of the first column of table `t` named `name` (up to case).
pub fn column_type(schema: &SqlSchema, t: usize, name: &[u8]) -> (r: Option<ColumnType>)
    requires
        schema.wf(),
    ensures
        match r {
            Some(ty) => exists|c: int|
                #![trigger schema@.column_types[c]]
                column_of(schema@, t as int, c, name@) && schema@.column_types[c] == ty && forall|
                    j: int,
                | 0 <= j < c ==> !column_of(schema@, t as int, j, name@),
            None => forall|j: int| !column_of(schema@, t as int, j, name@),
        },
{
    match find_column(schema, t, name) {
        Some(c) => {
            assert(schema@.column_types[c as int] == schema.column_types@[c as int]);
            Some(schema.column_types[c])
        },
        None => None,
    }
}

/// An optional ` AS <alias>` at `p`: where the alias lies, and the end.
pub open spec fn alias_spec(s: Seq<u8>, p: int, partial: bool) -> Result<
    (Option<(int, int)>, int),
    ParseError,
> {
    match literal_spec(s, p, seq![32u8, 65u8, 83u8, 32u8], false, partial) {
        Ok(q) => match take_while1_spec(s, q, Class::Alnum, partial) {
            Ok(a) => Ok((Some((q, a)), a)),
            Err(ParseError::Mismatch) => Ok((None, p)),
            Err(k) => Err(k),
        },
        Err(ParseError::Mismatch) => Ok((None, p)),
        Err(k) => Err(k),
    }
}

/// A column name of the schema (longest first), an optional alias, and the
/// requirement that table `t` has a column of that name: the index of the
/// name chosen, where the alias lies, and the end.
pub open spec fn column_in_table_spec(sv: SchemaView, t: int, s: Seq<u8>, pos: int, partial: bool) -> Result<
    (int, Option<(int, int)>, int),
    ParseError,
> {
    match choice_spec(sv.column_names, s, pos, partial) {
        Err(k) => Err(k),
        Ok((j, p)) => match alias_spec(s, p, partial) {
            Err(k) => Err(k),
            Ok((al, e)) => if exists|c: int| column_of(sv, t, c, sv.column_names[j]) {
                Ok((j, al, e))
            } else {
                Err(ParseError::Mismatch)
            },
        },
    }
}

/// The alias parsed agrees with where the spec says it lies.
pub open spec fn alias_agrees(alias: Option<Vec<u8>>, at: Option<(int, int)>, s: Seq<u8>) -> bool {
    match (alias, at) {
        (None, None) => true,
        (Some(a), Some((x, y))) => a@ == s.subrange(x, y),
        _ => false,
    }
}

/// A column of table `t`, optionally renamed with ` AS <alias>` (see
/// `column_in_table_spec`). Gives the name, the alias and the index of the
/// table's first column of that name.
pub fn column_in_table(sc: &SqlSchema, t: usize, s: &[u8], pos: usize, partial: bool) -> (r: Result<
    ((Vec<u8>, Option<Vec<u8>>, usize), usize),
    ParseError,
>)
    requires
        pos <= s@.len(),
    ensures
        r is Ok ==> {
            let sp = column_in_table_spec(sc@, t as int, s@, pos as int, partial);
            let ((name, alias, c), e) = r->Ok_0;
            &&& sp is Ok
            &&& sp->Ok_0.2 == e
            &&& 0 <= sp->Ok_0.0 < sc@.column_names.len()
            &&& name@ == sc@.column_names[sp->Ok_0.0]
            &&& alias_agrees(alias, sp->Ok_0.1, s@)
            &&& column_of(sc@, t as int, c as int, name@)
            &&& forall|j: int| 0 <= j < c ==> !column_of(sc@, t as int, j, name@)
            &&& pos <= e <= s@.len()
        },
        r is Err ==> column_in_table_spec(sc@, t as int, s@, pos as int, partial) == Err::<
            (int, Option<(int, int)>, int),
            ParseError,
        >(r->Err_0) && r->Err_0 != ParseError::Cut,
{
    proof {
        lemma_choice_bounds(sc@.column_names, s@, pos as int, partial);
    }
    let (j, p) = choice(&sc.column_names, s, pos, partial)?;
    let name = copy_bytes(sc.column_names[j].as_slice());
    let as_kw: Vec<u8> = vec![32u8, 65u8, 83u8, 32u8];
    assert(as_kw@ =~= seq![32u8, 65u8, 83u8, 32u8]);
    let (alias, e) = match literal(s, p, as_kw.as_slice(), false, partial) {
        Ok(q) => match alphanumeric1(s, q, partial) {
            Ok(a) => (Some(copy_range(s, q, a)), a),
            Err(ParseError::Mismatch) => (None, p),
            Err(k) => {
                return Err(k);
            },
        },
        Err(ParseError::Mismatch) => (None, p),
        Err(k) => {
            return Err(k);
        },
    };
    match find_column(sc, t, name.as_slice()) {
        Some(c) => Ok(((name, alias, c), e)),
        None => Err(ParseError::Mismatch),
    }
}

} // verus!
