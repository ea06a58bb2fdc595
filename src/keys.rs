use vstd::prelude::*;

use crate::domain::{copy_bytes, keys_view, names_view, KeyType, KeyView, SchemaView, SqlSchema};
use crate::lexer::eq_bytes;
use crate::names::{column_of, find_column};

verus! {

/// Lexicographic order on byte strings (a proper prefix comes first).
pub open spec fn lex_lt(a: Seq<u8>, b: Seq<u8>) -> bool
    decreases a.len(),
{
    if b.len() == 0 {
        false
    } else if a.len() == 0 {
        true
    } else if a[0] != b[0] {
        a[0] < b[0]
    } else {
        lex_lt(a.drop_first(), b.drop_first())
    }
}

proof fn lemma_lex_total(a: Seq<u8>, b: Seq<u8>)
    requires
        a != b,
    ensures
        lex_lt(a, b) || lex_lt(b, a),
    decreases a.len(),
{
    if a.len() > 0 && b.len() > 0 && a[0] == b[0] {
        if a.drop_first() == b.drop_first() {
            assert(a =~= seq![a[0]] + a.drop_first());
            assert(b =~= seq![b[0]] + b.drop_first());
        }
        lemma_lex_total(a.drop_first(), b.drop_first());
    } else if a.len() == 0 && b.len() == 0 {
        assert(a =~= b);
    }
}

proof fn lemma_lex_trans(a: Seq<u8>, b: Seq<u8>, c: Seq<u8>)
    requires
        lex_lt(a, b),
        lex_lt(b, c),
    ensures
        lex_lt(a, c),
    decreases a.len(),
{
    if a.len() > 0 && b.len() > 0 && c.len() > 0 && a[0] == b[0] && b[0] == c[0] {
        lemma_lex_trans(a.drop_first(), b.drop_first(), c.drop_first());
    }
}

/// Each name comes strictly before the next.
pub open spec fn strictly_sorted(v: Seq<Seq<u8>>) -> bool {
    forall|i: int, j: int| 0 <= i < j < v.len() ==> lex_lt(#[trigger] v[i], #[trigger] v[j])
}

/// Lexicographic comparison of two byte strings.
pub fn lex_less(a: &[u8], b: &[u8]) -> (r: bool)
    ensures
        r == lex_lt(a@, b@),
{
    let mut i: usize = 0;
    assert(a@.skip(0) =~= a@);
    assert(b@.skip(0) =~= b@);
    loop
        invariant
            i <= a@.len(),
            i <= b@.len(),
            lex_lt(a@, b@) == lex_lt(a@.skip(i as int), b@.skip(i as int)),
        decreases a@.len() - i,
    {
        if i == b.len() {
            return false;
        }
        if i == a.len() {
            return true;
        }
        if a[i] != b[i] {
            return a[i] < b[i];
        }
        assert(a@.skip(i as int).drop_first() =~= a@.skip(i + 1));
        assert(b@.skip(i as int).drop_first() =~= b@.skip(i + 1));
        i += 1;
    }
}

/// Inserts `x` into a strictly sorted list unless it is already there.
fn insert_sorted(names: &mut Vec<Vec<u8>>, x: Vec<u8>)
    requires
        strictly_sorted(names_view(old(names)@)),
    ensures
        strictly_sorted(names_view(final(names)@)),
        forall|n: Seq<u8>|
            names_view(final(names)@).contains(n) <==> (names_view(old(names)@).contains(n) || n
                == x@),
{
    let ghost old_v = names_view(names@);
    let mut i: usize = 0;
    let mut found = false;
    while !found && i < names.len()
        invariant
            i <= names@.len(),
            names_view(names@) == old_v,
            strictly_sorted(old_v),
            forall|j: int| 0 <= j < i ==> lex_lt(#[trigger] old_v[j], x@),
            found ==> i < names@.len() && !lex_lt(old_v[i as int], x@),
        decreases names@.len() - i + (if found {
            0int
        } else {
            1int
        }),
    {
        assert(old_v[i as int] == names@[i as int]@);
        if lex_less(names[i].as_slice(), x.as_slice()) {
            i += 1;
        } else {
            found = true;
        }
    }
    if found {
        assert(old_v[i as int] == names@[i as int]@);
        if eq_bytes(names[i].as_slice(), x.as_slice()) {
            assert(old_v.contains(x@) && old_v[i as int] == x@);
            return;
        }
    }
    let ghost xv = x@;
    names.insert(i, x);
    let ghost new_v = names_view(names@);
    assert(new_v =~= old_v.insert(i as int, xv));
    assert forall|a: int, b: int| 0 <= a < b < new_v.len() implies lex_lt(
        #[trigger] new_v[a],
        #[trigger] new_v[b],
    ) by {
        if b == i {
            assert(new_v[a] == old_v[a]);
        } else if a == i {
            assert(new_v[b] == old_v[b - 1]);
            // x is below old_v[i], which is at most old_v[b - 1]
            assert(i < old_v.len());
            assert(found);
            assert(!lex_lt(old_v[i as int], xv));
            assert(old_v[i as int] != xv);
            lemma_lex_total(old_v[i as int], xv);
            if b - 1 > i {
                lemma_lex_trans(xv, old_v[i as int], old_v[b - 1]);
            }
        } else {
            let oa = if a < i {
                a
            } else {
                a - 1
            };
            let ob = if b < i {
                b
            } else {
                b - 1
            };
            assert(new_v[a] == old_v[oa]);
            assert(new_v[b] == old_v[ob]);
        }
    }
    assert forall|n: Seq<u8>| new_v.contains(n) <==> (old_v.contains(n) || n == xv) by {
        if new_v.contains(n) {
            let k = choose|k: int| 0 <= k < new_v.len() && new_v[k] == n;
            if k < i {
                assert(old_v[k] == n);
            } else if k > i {
                assert(old_v[k - 1] == n);
            }
        }
        if old_v.contains(n) {
            let k = choose|k: int| 0 <= k < old_v.len() && old_v[k] == n;
            if k < i {
                assert(new_v[k] == n);
            } else {
                assert(new_v[k + 1] == n);
            }
        }
        if n == xv {
            assert(new_v[i as int] == n);
        }
    }
}

/// The column is in the schema's primary-key list.
pub open spec fn is_primary_column(sv: SchemaView, c: int) -> bool {
    exists|i: int| 0 <= i < sv.primary_keys.len() && sv.primary_keys[i] == c
}

/// The column is the source side of a foreign key.
pub open spec fn is_fk_source(sv: SchemaView, c: int) -> bool {
    exists|i: int| 0 <= i < sv.foreign_keys.len() && sv.foreign_keys[i].0 == c
}

/// The table that the target of foreign key `i` belongs to.
pub open spec fn fk_target_table(sv: SchemaView, i: int) -> Seq<u8> {
    sv.table_names[sv.column_to_table[sv.foreign_keys[i].1 as int] as int]
}

/// The name is that of a table holding the target of some foreign key.
pub open spec fn is_fk_target_table(sv: SchemaView, n: Seq<u8>) -> bool {
    exists|i: int| 0 <= i < sv.foreign_keys.len() && fk_target_table(sv, i) == n
}

/// What the key list of column `c`, looked up in table `t`, is: first
/// `PrimaryKey{t}` when the column is a primary key or the source of a
/// foreign key; then, for a foreign-key source, `ForeignKey{T}` for each table
/// `T` holding a foreign-key target, sorted and without repeats.
pub open spec fn keys_of_column(sv: SchemaView, t: int, c: int, v: Seq<KeyView>) -> bool {
    let np: int = if is_primary_column(sv, c) || is_fk_source(sv, c) {
        1
    } else {
        0
    };
    &&& np <= v.len()
    &&& np == 1 ==> v[0] == KeyView::Primary(sv.table_names[t])
    &&& !is_fk_source(sv, c) ==> v.len() == np
    &&& forall|i: int| np <= i < v.len() ==> (#[trigger] v[i]) is Foreign
    &&& strictly_sorted(v.subrange(np, v.len() as int).map_values(|k: KeyView| k->Foreign_0))
    &&& is_fk_source(sv, c) ==> forall|n: Seq<u8>|
        v.subrange(np, v.len() as int).map_values(|k: KeyView| k->Foreign_0).contains(n)
            <==> is_fk_target_table(sv, n)
}

fn in_primary_keys(schema: &SqlSchema, c: usize) -> (r: bool)
    ensures
        r == is_primary_column(schema@, c as int),
{
    let mut i: usize = 0;
    while i < schema.primary_keys.len()
        invariant
            i <= schema@.primary_keys.len(),
            forall|j: int| 0 <= j < i ==> schema@.primary_keys[j] != c,
        decreases schema@.primary_keys.len() - i,
    {
        if schema.primary_keys[i] == c {
            assert(schema@.primary_keys[i as int] == c);
            return true;
        }
        i += 1;
    }
    false
}

fn is_source(schema: &SqlSchema, c: usize) -> (r: bool)
    ensures
        r == is_fk_source(schema@, c as int),
{
    let mut i: usize = 0;
    while i < schema.foreign_keys.len()
        invariant
            i <= schema@.foreign_keys.len(),
            forall|j: int| 0 <= j < i ==> schema@.foreign_keys[j].0 != c,
        decreases schema@.foreign_keys.len() - i,
    {
        if schema.foreign_keys[i].0 == c {
            assert(schema@.foreign_keys[i as int].0 == c);
            return true;
        }
        i += 1;
    }
    false
}

/// The sorted, repeat-free names of the tables that hold foreign-key targets.
fn fk_target_tables(schema: &SqlSchema) -> (r: Vec<Vec<u8>>)
    requires
        schema.wf(),
    ensures
        strictly_sorted(names_view(r@)),
        forall|n: Seq<u8>| names_view(r@).contains(n) <==> is_fk_target_table(schema@, n),
{
    let ghost sv = schema@;
    let mut names: Vec<Vec<u8>> = Vec::new();
    let mut i: usize = 0;
    assert(strictly_sorted(names_view(names@)));
    while i < schema.foreign_keys.len()
        invariant
            sv == schema@,
            sv.wf(),
            i <= sv.foreign_keys.len(),
            strictly_sorted(names_view(names@)),
            forall|n: Seq<u8>|
                names_view(names@).contains(n) <==> exists|j: int|
                    0 <= j < i && fk_target_table(sv, j) == n,
        decreases sv.foreign_keys.len() - i,
    {
        let target = schema.foreign_keys[i].1;
        assert(sv.foreign_keys[i as int].1 < sv.column_names.len());
        let tt = schema.column_to_table[target];
        assert(sv.column_to_table[target as int] < sv.table_names.len());
        let name = copy_bytes(schema.table_names[tt].as_slice());
        assert(name@ == fk_target_table(sv, i as int));
        insert_sorted(&mut names, name);
        assert forall|n: Seq<u8>| names_view(names@).contains(n) <==> exists|j: int|
            0 <= j < i + 1 && fk_target_table(sv, j) == n by {
            if n == fk_target_table(sv, i as int) {
                assert(0 <= i < i + 1);
            }
            if exists|j: int| 0 <= j < i + 1 && fk_target_table(sv, j) == n {
                let j = choose|j: int| 0 <= j < i + 1 && fk_target_table(sv, j) == n;
                if j < i {
                    assert(exists|j2: int| 0 <= j2 < i && fk_target_table(sv, j2) == n);
                }
            }
        }
        i += 1;
    }
    names
}

/// The key classification of column `column` in table `t` (see
/// `keys_of_column`); empty when the table has no such column.
pub fn column_key(schema: &SqlSchema, t: usize, column: &[u8]) -> (r: Vec<KeyType>)
    requires
        schema.wf(),
    ensures
        match find_column_spec(schema@, t as int, column@) {
            Some(c) => keys_of_column(schema@, t as int, c, keys_view(r@)),
            None => r@.len() == 0,
        },
{
    let c = match find_column(schema, t, column) {
        Some(c) => c,
        None => {
            proof {
                lemma_find_column_none(schema@, t as int, column@);
            }
            return Vec::new();
        },
    };
    proof {
        lemma_find_column_some(schema@, t as int, column@, c as int);
    }
    let ghost sv = schema@;
    let src = is_source(schema, c);
    let pk = in_primary_keys(schema, c);
    assert(sv.column_to_table[c as int] < sv.table_names.len());
    let mut result: Vec<KeyType> = Vec::new();
    if pk || src {
        result.push(KeyType::PrimaryKey { table: copy_bytes(schema.table_names[t].as_slice()) });
    }
    let ghost np: int = if pk || src {
        1
    } else {
        0
    };
    assert(keys_view(result@).len() == np);
    if src {
        let targets = fk_target_tables(schema);
        let mut i: usize = 0;
        while i < targets.len()
            invariant
                i <= targets@.len(),
                result@.len() == np + i,
                np == 0 || np == 1,
                t < sv.table_names.len(),
                np == 1 ==> result@[0]@ == KeyView::Primary(sv.table_names[t as int]),
                forall|j: int|
                    np <= j < np + i ==> (#[trigger] result@[j])@ == KeyView::Foreign(
                        targets@[j - np]@,
                    ),
            decreases targets@.len() - i,
        {
            let ghost before = result@;
            result.push(KeyType::ForeignKey { table: copy_bytes(targets[i].as_slice()) });
            assert(result@[np + i]@ == KeyView::Foreign(targets@[i as int]@));
            assert forall|j: int| np <= j < np + i + 1 implies (#[trigger] result@[j])@
                == KeyView::Foreign(targets@[j - np]@) by {
                if j < np + i {
                    assert(result@[j] == before[j]);
                }
            }
            i += 1;
        }
        assert(keys_view(result@).len() == result@.len());
        assert forall|j: int| np <= j < result@.len() implies keys_view(result@)[j]
            == KeyView::Foreign(names_view(targets@)[j - np]) by {
            assert(result@[j]@ == KeyView::Foreign(targets@[j - np]@));
        }
        let ghost fv = keys_view(result@).subrange(np, keys_view(result@).len() as int).map_values(
            |k: KeyView| k->Foreign_0,
        );
        assert(fv =~= names_view(targets@));
    } else {
        assert(keys_view(result@).subrange(np, np).map_values(|k: KeyView| k->Foreign_0)
            =~= Seq::<Seq<u8>>::empty());
    }
    result
}

/// The first column of table `t` named `name` (up to case), as a spec.
pub open spec fn find_column_spec(sv: SchemaView, t: int, name: Seq<u8>) -> Option<int> {
    if exists|c: int| column_of(sv, t, c, name) {
        Some(
            choose|c: int|
                column_of(sv, t, c, name) && forall|j: int| 0 <= j < c ==> !column_of(sv, t, j, name),
        )
    } else {
        None
    }
}

proof fn lemma_find_column_none(sv: SchemaView, t: int, name: Seq<u8>)
    requires
        forall|j: int| !column_of(sv, t, j, name),
    ensures
        find_column_spec(sv, t, name) is None,
{
}

pub proof fn lemma_find_column_some(sv: SchemaView, t: int, name: Seq<u8>, c: int)
    requires
        column_of(sv, t, c, name),
        forall|j: int| 0 <= j < c ==> !column_of(sv, t, j, name),
    ensures
        find_column_spec(sv, t, name) == Some(c),
{
    let d = choose|d: int|
        column_of(sv, t, d, name) && forall|j: int| 0 <= j < d ==> !column_of(sv, t, j, name);
    assert(column_of(sv, t, c, name) && forall|j: int| 0 <= j < c ==> !column_of(sv, t, j, name));
    if d < c {
    } else if d > c {
    }
}

/// `key` is `PrimaryKey{table}`.
pub fn is_primary_key_of(key: &KeyType, table: &[u8]) -> (r: bool)
    ensures
        r == (key@ == KeyView::Primary(table@)),
{
    match key {
        KeyType::PrimaryKey { table: t } => eq_bytes(t.as_slice(), table),
        KeyType::ForeignKey { .. } => false,
    }
}

/// `key` is `ForeignKey{table}`.
pub fn is_foreign_key_of(key: &KeyType, table: &[u8]) -> (r: bool)
    ensures
        r == (key@ == KeyView::Foreign(table@)),
{
    match key {
        KeyType::PrimaryKey { .. } => false,
        KeyType::ForeignKey { table: t } => eq_bytes(t.as_slice(), table),
    }
}

} // verus!
