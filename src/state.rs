use vstd::prelude::*;

use crate::domain::{
    column_names_of, columns_view, copy_bytes, dummy_name, names_view, Column, ColumnType, ColumnView, Table,
};
use crate::lexer::eq_bytes;
use crate::names::{is_agg_name, starts_with_agg};

verus! {

/// The binding state of one parse: the index of the line being parsed, the
/// lines already completed, and the derived table of each line.
#[derive(Debug)]
pub struct QplState {
    pub current_idx: usize,
    pub seen: Vec<usize>,
    pub idx_to_table: Vec<(usize, Table)>,
}

/// The derived table bound to line `k`: the latest binding wins.
pub open spec fn table_at(v: Seq<(usize, Table)>, k: usize) -> Option<Table>
    decreases v.len(),
{
    if v.len() == 0 {
        None
    } else if v.last().0 == k {
        Some(v.last().1)
    } else {
        table_at(v.drop_last(), k)
    }
}

/// The names of the columns of line `k`'s derived table.
pub open spec fn names_at(st: QplState, k: usize) -> Seq<Seq<u8>> {
    match table_at(st.idx_to_table@, k) {
        Some(t) => column_names_of(t.columns_spec()),
        None => Seq::empty(),
    }
}

/// No two columns share a name.
pub open spec fn distinct_names(cs: Seq<ColumnView>) -> bool {
    forall|i: int, j: int| 0 <= i < j < cs.len() ==> cs[i].name() != cs[j].name()
}

impl QplState {
    /// A fresh state: no line parsed yet.
    pub fn new() -> (r: Self)
        ensures
            r.current_idx == 0,
            r.seen@.len() == 0,
            r.idx_to_table@.len() == 0,
    {
        QplState { current_idx: 0, seen: Vec::new(), idx_to_table: Vec::new() }
    }

    pub open spec fn has_seen(&self, k: usize) -> bool {
        self.seen@.contains(k)
    }

    /// Whether line `k` has been completed.
    pub fn is_seen(&self, k: usize) -> (r: bool)
        ensures
            r == self.has_seen(k),
    {
        let mut i: usize = 0;
        while i < self.seen.len()
            invariant
                i <= self.seen@.len(),
                forall|j: int| 0 <= j < i ==> self.seen@[j] != k,
            decreases self.seen@.len() - i,
        {
            if self.seen[i] == k {
                assert(self.seen@[i as int] == k);
                return true;
            }
            i += 1;
        }
        false
    }

    /// Records line `k` as completed.
    pub fn mark_seen(&mut self, k: usize)
        ensures
            final(self).seen@ == old(self).seen@.push(k),
            final(self).current_idx == old(self).current_idx,
            final(self).idx_to_table@ == old(self).idx_to_table@,
    {
        self.seen.push(k);
    }

    /// Binds `table` as the derived table of line `k`.
    pub fn bind(&mut self, k: usize, table: Table)
        ensures
            final(self).idx_to_table@ == old(self).idx_to_table@.push((k, table)),
            final(self).seen@ == old(self).seen@,
            final(self).current_idx == old(self).current_idx,
    {
        self.idx_to_table.push((k, table));
    }

    /// The derived table of line `k`, if any.
    pub fn get_table(&self, k: usize) -> (r: Option<&Table>)
        ensures
            match r {
                Some(t) => table_at(self.idx_to_table@, k) == Some(*t),
                None => table_at(self.idx_to_table@, k) is None,
            },
    {
        let mut i = self.idx_to_table.len();
        assert(self.idx_to_table@.subrange(0, i as int) =~= self.idx_to_table@);
        while i > 0
            invariant
                i <= self.idx_to_table@.len(),
                table_at(self.idx_to_table@, k) == table_at(
                    self.idx_to_table@.subrange(0, i as int),
                    k,
                ),
            decreases i,
        {
            assert(self.idx_to_table@.subrange(0, i as int).drop_last() =~= self.idx_to_table@.subrange(
                0,
                i - 1,
            ));
            i -= 1;
            if self.idx_to_table[i].0 == k {
                return Some(&self.idx_to_table[i].1);
            }
        }
        assert(self.idx_to_table@.subrange(0, 0) =~= Seq::<(usize, Table)>::empty());
        None
    }

    /// Whether line `k`'s derived table has a non-dummy column named `name`.
    pub fn has_column(&self, k: usize, name: &[u8]) -> (r: bool)
        ensures
            r == (table_at(self.idx_to_table@, k) is Some && names_at(*self, k).contains(name@)),
    {
        match self.get_table(k) {
            Some(t) => {
                let cs = t.columns();
                let ghost cv = t.columns_spec();
                let mut i: usize = 0;
                while i < cs.len()
                    invariant
                        i <= cs@.len(),
                        cv == columns_view(cs@),
                        cv == t.columns_spec(),
                        table_at(self.idx_to_table@, k) == Some(*t),
                        forall|j: int| 0 <= j < i ==> column_names_of(cv)[j] != name@,
                    decreases cs@.len() - i,
                {
                    let n = cs[i].name();
                    assert(cv[i as int] == cs@[i as int]@);
                    if eq_bytes(n.as_slice(), name) {
                        assert(column_names_of(cv)[i as int] == name@);
                        assert(names_at(*self, k) == column_names_of(cv));
                        assert(column_names_of(cv).contains(name@));
                        return true;
                    }
                    i += 1;
                }
                assert(names_at(*self, k) == column_names_of(cv));
                false
            },
            None => false,
        }
    }

    /// Every aggregate-result name among the derived tables, in binding order.
    pub fn aggregate_aliases(&self) -> (r: Vec<Vec<u8>>)
        ensures
            names_view(r@) == aliases_of(self.idx_to_table@),
            forall|i: int| 0 <= i < r@.len() ==> is_agg_name(#[trigger] r@[i]@),
    {
        let ghost v = self.idx_to_table@;
        let mut r: Vec<Vec<u8>> = Vec::new();
        let mut i: usize = 0;
        while i < self.idx_to_table.len()
            invariant
                i <= v.len(),
                v == self.idx_to_table@,
                names_view(r@) == aliases_of(v.subrange(0, i as int)),
                forall|j: int| 0 <= j < r@.len() ==> is_agg_name(#[trigger] r@[j]@),
            decreases v.len() - i,
        {
            let cs = self.idx_to_table[i].1.columns();
            let ghost names = column_names_of(columns_view(cs@));
            let ghost base = names_view(r@);
            let mut j: usize = 0;
            while j < cs.len()
                invariant
                    j <= cs@.len(),
                    names == column_names_of(columns_view(cs@)),
                    names_view(r@) == base + agg_only(names.subrange(0, j as int)),
                    forall|j2: int| 0 <= j2 < r@.len() ==> is_agg_name(#[trigger] r@[j2]@),
                decreases cs@.len() - j,
            {
                let n = cs[j].name();
                assert(names.subrange(0, j + 1).drop_last() =~= names.subrange(0, j as int));
                assert(names[j as int] == n@);
                assert(names.subrange(0, j + 1).last() == n@);
                assert(agg_only(names.subrange(0, j + 1)) == if is_agg_name(n@) {
                    agg_only(names.subrange(0, j as int)).push(n@)
                } else {
                    agg_only(names.subrange(0, j as int))
                });
                if starts_with_agg(n.as_slice()) {
                    let ghost old_r = r@;
                    let ghost nv = n@;
                    r.push(n);
                    assert(names_view(r@) =~= names_view(old_r).push(nv));
                    assert(names_view(r@) =~= base + agg_only(names.subrange(0, j + 1)));
                } else {
                    assert(names_view(r@) =~= base + agg_only(names.subrange(0, j + 1)));
                }
                j += 1;
            }
            assert(names.subrange(0, cs@.len() as int) =~= names);
            assert(v.subrange(0, i + 1).drop_last() =~= v.subrange(0, i as int));
            assert(names == column_names_of(v[i as int].1.columns_spec()));
            i += 1;
        }
        assert(v.subrange(0, v.len() as int) =~= v);
        r
    }
}

/// The names in `ns` that are aggregate-result names, in order.
pub open spec fn agg_only(ns: Seq<Seq<u8>>) -> Seq<Seq<u8>>
    decreases ns.len(),
{
    if ns.len() == 0 {
        Seq::empty()
    } else if is_agg_name(ns.last()) {
        agg_only(ns.drop_last()).push(ns.last())
    } else {
        agg_only(ns.drop_last())
    }
}

/// The aggregate-result names of the derived tables, in binding order.
pub open spec fn aliases_of(v: Seq<(usize, Table)>) -> Seq<Seq<u8>>
    decreases v.len(),
{
    if v.len() == 0 {
        Seq::empty()
    } else {
        aliases_of(v.drop_last()) + agg_only(column_names_of(v.last().1.columns_spec()))
    }
}

/// Whether two columns of the list share a name.
pub fn has_duplicate_names(cs: &Vec<Column>) -> (r: bool)
    ensures
        r == !distinct_names(columns_view(cs@)),
{
    let ghost cv = columns_view(cs@);
    let mut i: usize = 0;
    while i < cs.len()
        invariant
            i <= cs@.len(),
            cv == columns_view(cs@),
            forall|a: int, b: int| 0 <= a < b < cv.len() && a < i ==> cv[a].name() != cv[b].name(),
        decreases cs@.len() - i,
    {
        let ni = cs[i].name();
        assert(cv[i as int] == cs@[i as int]@);
        let mut j: usize = i + 1;
        while j < cs.len()
            invariant
                i < j <= cs@.len(),
                cv == columns_view(cs@),
                ni@ == cv[i as int].name(),
                forall|a: int, b: int|
                    0 <= a < b < cv.len() && a < i ==> cv[a].name() != cv[b].name(),
                forall|b: int| i < b < j ==> cv[i as int].name() != cv[b].name(),
            decreases cs@.len() - j,
        {
            let nj = cs[j].name();
            assert(cv[j as int] == cs@[j as int]@);
            if eq_bytes(ni.as_slice(), nj.as_slice()) {
                assert(cv[i as int].name() == cv[j as int].name());
                return true;
            }
            j += 1;
        }
        i += 1;
    }
    false
}

/// The name of the column that an aggregate output spells `countstar AS Count_Star`.
pub open spec fn count_star_name() -> Seq<u8> {
    seq![67u8, 111u8, 117u8, 110u8, 116u8, 95u8, 83u8, 116u8, 97u8, 114u8]
}

/// How an output spelling becomes a derived column without consulting the
/// inputs: `1 AS One` is the dummy, `countstar AS Count_Star` and
/// aggregate-result names are numeric aggregate columns.
pub open spec fn synthesized(out: Seq<u8>) -> Option<ColumnView> {
    if out == dummy_name() {
        Some(ColumnView::Dummy)
    } else if out == count_star_spelling() {
        Some(ColumnView::Aliased { name: count_star_name(), typ: ColumnType::Number, keys: Seq::empty() })
    } else if is_agg_name(out) {
        Some(ColumnView::Aliased { name: out, typ: ColumnType::Number, keys: Seq::empty() })
    } else {
        None
    }
}

pub open spec fn count_star_spelling() -> Seq<u8> {
    seq![
        99u8,
        111u8,
        117u8,
        110u8,
        116u8,
        115u8,
        116u8,
        97u8,
        114u8,
        32u8,
        65u8,
        83u8,
        32u8,
        67u8,
        111u8,
        117u8,
        110u8,
        116u8,
        95u8,
        83u8,
        116u8,
        97u8,
        114u8,
    ]
}

/// The synthesized column for an output spelling, if it is one.
pub fn synthesize(out: &[u8]) -> (r: Option<Column>)
    ensures
        match r {
            Some(c) => synthesized(out@) == Some(c@),
            None => synthesized(out@) is None,
        },
{
    let dummy: Vec<u8> = vec![49u8, 32u8, 65u8, 83u8, 32u8, 79u8, 110u8, 101u8];
    assert(dummy@ =~= dummy_name());
    let spelled: Vec<u8> = vec![
        99u8,
        111u8,
        117u8,
        110u8,
        116u8,
        115u8,
        116u8,
        97u8,
        114u8,
        32u8,
        65u8,
        83u8,
        32u8,
        67u8,
        111u8,
        117u8,
        110u8,
        116u8,
        95u8,
        83u8,
        116u8,
        97u8,
        114u8,
    ];
    assert(spelled@ =~= count_star_spelling());
    if eq_bytes(out, dummy.as_slice()) {
        Some(Column::Dummy)
    } else if eq_bytes(out, spelled.as_slice()) {
        let name: Vec<u8> = vec![67u8, 111u8, 117u8, 110u8, 116u8, 95u8, 83u8, 116u8, 97u8, 114u8];
        assert(name@ =~= count_star_name());
        let keys = Vec::new();
        let c = Column::Aliased { name, typ: ColumnType::Number, keys };
        assert(c@ == ColumnView::Aliased { name: count_star_name(), typ: ColumnType::Number, keys: Seq::empty() }) by {
            assert(crate::domain::keys_view(keys@) =~= Seq::empty());
        }
        Some(c)
    } else if starts_with_agg(out) {
        let keys = Vec::new();
        let c = Column::Aliased { name: copy_bytes(out), typ: ColumnType::Number, keys };
        assert(crate::domain::keys_view(keys@) =~= Seq::empty());
        Some(c)
    } else {
        None
    }
}

/// The first column named `out` from position `i` on.
pub open spec fn first_from(cs: Seq<ColumnView>, out: Seq<u8>, i: int) -> Option<ColumnView>
    decreases cs.len() - i,
{
    if i < 0 || i >= cs.len() {
        None
    } else if cs[i].name() == out {
        Some(cs[i])
    } else {
        first_from(cs, out, i + 1)
    }
}

/// The first column of line `k` named `out`.
pub open spec fn line_first(st: QplState, k: usize, out: Seq<u8>) -> Option<ColumnView> {
    match table_at(st.idx_to_table@, k) {
        Some(t) => first_from(t.columns_spec(), out, 0),
        None => None,
    }
}

/// A copy of the first column of `t` named `out`.
pub fn find_named_column(t: &Table, out: &[u8]) -> (r: Option<Column>)
    ensures
        match r {
            Some(c) => column_names_of(t.columns_spec()).contains(out@) && c@.name() == out@ && t.columns_spec().contains(c@),
            None => !column_names_of(t.columns_spec()).contains(out@),
        },
        match r {
            Some(c) => first_from(t.columns_spec(), out@, 0) == Some(c@),
            None => first_from(t.columns_spec(), out@, 0) is None,
        },
{
    let cs = t.columns();
    let ghost cv = t.columns_spec();
    let mut i: usize = 0;
    while i < cs.len()
        invariant
            i <= cs@.len(),
            cv == columns_view(cs@),
            cv == t.columns_spec(),
            forall|j: int| 0 <= j < i ==> column_names_of(cv)[j] != out@,
            first_from(cv, out@, 0) == first_from(cv, out@, i as int),
        decreases cs@.len() - i,
    {
        let n = cs[i].name();
        assert(cv[i as int] == cs@[i as int]@);
        if eq_bytes(n.as_slice(), out) {
            assert(cv[i as int] == cs@[i as int]@);
            assert(column_names_of(cv)[i as int] == out@);
            assert(column_names_of(cv).contains(out@));
            assert(cv.contains(cv[i as int]));
            return Some(cs[i].copy());
        }
        i += 1;
    }
    proof {
        false_to_none(cv, out@);
    }
    None
}

proof fn false_to_none(cv: Seq<ColumnView>, out: Seq<u8>)
    requires
        forall|j: int| 0 <= j < cv.len() ==> column_names_of(cv)[j] != out,
    ensures
        !column_names_of(cv).contains(out),
{
}

} // verus!
