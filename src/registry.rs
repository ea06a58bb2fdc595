use vstd::prelude::*;

use crate::domain::{copy_bytes, names_view, SchemaView, SqlSchema};
use crate::lexer::{eq_bytes, literal_spec, ParseError};
use crate::names::{choice, choice_spec, lemma_choice_bounds, pick};

verus! {

/// The registered schemas, at most one per database id.
#[derive(Debug)]
pub struct SchemaRegistry {
    pub schemas: Vec<SqlSchema>,
}

pub open spec fn schemas_view(v: Seq<SqlSchema>) -> Seq<SchemaView> {
    v.map_values(|x: SqlSchema| x@)
}

pub open spec fn ids_of(reg: Seq<SchemaView>) -> Seq<Seq<u8>> {
    reg.map_values(|x: SchemaView| x.db_id)
}

/// Every schema is well formed and no database id repeats.
pub open spec fn registry_wf(reg: Seq<SchemaView>) -> bool {
    &&& forall|i: int| 0 <= i < reg.len() ==> (#[trigger] reg[i]).wf()
    &&& forall|i: int, j: int|
        0 <= i < j < reg.len() ==> (#[trigger] reg[i]).db_id != (#[trigger] reg[j]).db_id
}

/// The registry after registering `x`: it replaces the schema with the same
/// id, or comes last.
pub open spec fn registered(reg: Seq<SchemaView>, x: SchemaView) -> Seq<SchemaView> {
    if exists|i: int| 0 <= i < reg.len() && reg[i].db_id == x.db_id {
        reg.update(choose|i: int| 0 <= i < reg.len() && reg[i].db_id == x.db_id, x)
    } else {
        reg.push(x)
    }
}

/// Registering a schema keeps the registry well formed.
pub proof fn lemma_registered_wf(reg: Seq<SchemaView>, x: SchemaView)
    requires
        registry_wf(reg),
        x.wf(),
    ensures
        registry_wf(registered(reg, x)),
{
    if exists|i: int| 0 <= i < reg.len() && reg[i].db_id == x.db_id {
        let k = choose|i: int| 0 <= i < reg.len() && reg[i].db_id == x.db_id;
        let r = reg.update(k, x);
        assert forall|i: int, j: int| 0 <= i < j < r.len() implies (#[trigger] r[i]).db_id
            != (#[trigger] r[j]).db_id by {
            if i == k {
                assert(reg[j].db_id != reg[k].db_id);
            } else if j == k {
                assert(reg[i].db_id != reg[k].db_id);
            }
        }
    } else {
        let r = reg.push(x);
        assert forall|i: int, j: int| 0 <= i < j < r.len() implies (#[trigger] r[i]).db_id
            != (#[trigger] r[j]).db_id by {
            if j == reg.len() {
                assert(reg[i].db_id != x.db_id);
            }
        }
    }
}

/// Registering the same schema twice leaves the registry as registering it
/// once does.
pub proof fn lemma_register_idempotent(reg: Seq<SchemaView>, x: SchemaView)
    requires
        registry_wf(reg),
        x.wf(),
    ensures
        registered(registered(reg, x), x) == registered(reg, x),
{
    let once = registered(reg, x);
    lemma_registered_wf(reg, x);
    let k = if exists|i: int| 0 <= i < reg.len() && reg[i].db_id == x.db_id {
        choose|i: int| 0 <= i < reg.len() && reg[i].db_id == x.db_id
    } else {
        reg.len() as int
    };
    assert(once[k] == x);
    assert(0 <= k < once.len());
    let k2 = choose|i: int| 0 <= i < once.len() && once[i].db_id == x.db_id;
    if k2 != k {
        if k2 < k {
            assert(once[k2].db_id != once[k].db_id);
        } else {
            assert(once[k].db_id != once[k2].db_id);
        }
    }
    assert(registered(once, x) =~= once.update(k, x));
    assert(once.update(k, x) =~= once);
}

/// Index shift when candidate `k` is taken out of a list.
pub open spec fn shift(o: Option<int>, k: int) -> Option<int> {
    match o {
        None => None,
        Some(j) => Some(
            if j < k {
                j
            } else {
                j - 1
            },
        ),
    }
}

proof fn lemma_pick_remove(c: Seq<Seq<u8>>, s: Seq<u8>, pos: int, partial: bool, k: int, n: int)
    requires
        0 <= k < c.len(),
        literal_spec(s, pos, c[k], true, partial) == Err::<int, ParseError>(ParseError::Mismatch),
        0 <= n <= c.len(),
    ensures
        n <= k ==> pick(c.remove(k), s, pos, partial, n) == pick(c, s, pos, partial, n),
        n > k ==> pick(c.remove(k), s, pos, partial, n - 1) == shift(
            pick(c, s, pos, partial, n),
            k,
        ),
        n > k ==> pick(c, s, pos, partial, n) != Some(k),
    decreases n,
{
    let r = c.remove(k);
    if n == 0 {
    } else if n <= k {
        lemma_pick_remove(c, s, pos, partial, k, n - 1);
        assert(r[n - 1] == c[n - 1]);
        lemma_pick_bounded(c, s, pos, partial, n - 1);
        match pick(c, s, pos, partial, n - 1) {
            Some(j) => {
                assert(r[j] == c[j]);
            },
            None => {},
        }
    } else if n == k + 1 {
        if k > 0 {
            lemma_pick_remove(c, s, pos, partial, k, k);
        }
        lemma_pick_bounded(c, s, pos, partial, k);
    } else {
        lemma_pick_remove(c, s, pos, partial, k, n - 1);
        assert(r[n - 2] == c[n - 1]);
        lemma_pick_bounded(c, s, pos, partial, n - 1);
        match pick(c, s, pos, partial, n - 1) {
            Some(j) => {
                if j < k {
                    assert(r[j] == c[j]);
                } else {
                    assert(r[j - 1] == c[j]);
                }
            },
            None => {},
        }
    }
}

proof fn lemma_pick_bounded(c: Seq<Seq<u8>>, s: Seq<u8>, pos: int, partial: bool, n: int)
    requires
        0 <= n <= c.len(),
    ensures
        match pick(c, s, pos, partial, n) {
            Some(j) => 0 <= j < n,
            None => true,
        },
    decreases n,
{
    if n > 0 {
        lemma_pick_bounded(c, s, pos, partial, n - 1);
    }
}

/// The schema selected at `pos`: the longest database id that the input
/// starts with (case-insensitively), and the end of the id.
pub open spec fn select_spec(reg: Seq<SchemaView>, s: Seq<u8>, pos: int, partial: bool) -> Result<
    (SchemaView, int),
    ParseError,
> {
    match choice_spec(ids_of(reg), s, pos, partial) {
        Ok((j, e)) => Ok((reg[j], e)),
        Err(k) => Err(k),
    }
}

/// Taking out of the registry a schema whose id does not match the input
/// where the selection is made changes nothing of the selection.
pub proof fn lemma_select_ignores_unrelated(
    reg: Seq<SchemaView>,
    s: Seq<u8>,
    pos: int,
    partial: bool,
    k: int,
)
    requires
        0 <= k < reg.len(),
        literal_spec(s, pos, reg[k].db_id, true, partial) == Err::<int, ParseError>(
            ParseError::Mismatch,
        ),
    ensures
        select_spec(reg.remove(k), s, pos, partial) == select_spec(reg, s, pos, partial),
{
    let c = ids_of(reg);
    let r = reg.remove(k);
    assert(ids_of(r) =~= c.remove(k));
    assert(c[k] == reg[k].db_id);
    lemma_pick_remove(c, s, pos, partial, k, c.len() as int);
    lemma_pick_bounded(c, s, pos, partial, c.len() as int);
    match pick(c, s, pos, partial, c.len() as int) {
        Some(j) => {
            if j < k {
                assert(r[j] == reg[j]);
                assert(c.remove(k)[j] == c[j]);
            } else {
                assert(r[j - 1] == reg[j]);
                assert(c.remove(k)[j - 1] == c[j]);
            }
        },
        None => {},
    }
}

impl SchemaRegistry {
    pub open spec fn view_seq(&self) -> Seq<SchemaView> {
        schemas_view(self.schemas@)
    }

    pub open spec fn wf(&self) -> bool {
        registry_wf(self.view_seq())
    }

    pub fn new() -> (r: Self)
        ensures
            r.view_seq().len() == 0,
            r.wf(),
    {
        SchemaRegistry { schemas: Vec::new() }
    }

    /// Adds `schema`, replacing the one registered under the same id.
    pub fn register(&mut self, schema: SqlSchema)
        requires
            old(self).wf(),
            schema.wf(),
        ensures
            final(self).view_seq() == registered(old(self).view_seq(), schema@),
            final(self).wf(),
    {
        let ghost before = self.view_seq();
        let ghost x = schema@;
        proof {
            lemma_registered_wf(before, x);
        }
        let mut i: usize = 0;
        while i < self.schemas.len()
            invariant
                i <= self.schemas@.len(),
                self.view_seq() == before,
                x == schema@,
                registry_wf(before),
                registry_wf(registered(before, x)),
                before == schemas_view(old(self).schemas@),
                forall|j: int| 0 <= j < i ==> before[j].db_id != x.db_id,
            decreases self.schemas@.len() - i,
        {
            assert(before[i as int] == self.schemas@[i as int]@);
            if eq_bytes(self.schemas[i].db_id.as_slice(), schema.db_id.as_slice()) {
                assert(before[i as int].db_id == x.db_id);
                assert(exists|j: int| 0 <= j < before.len() && before[j].db_id == x.db_id);
                let ghost chosen = choose|j: int| 0 <= j < before.len() && before[j].db_id == x.db_id;
                proof {
                    if chosen != i {
                        if chosen < i {
                            assert(before[chosen].db_id != x.db_id);
                        } else {
                            assert(before[i as int].db_id != before[chosen].db_id);
                        }
                    }
                }
                assert(chosen == i);
                assert(registered(before, x) == before.update(i as int, x));
                self.schemas.set(i, schema);
                assert(self.view_seq() =~= before.update(i as int, x));
                return;
            }
            i += 1;
        }
        self.schemas.push(schema);
        assert(self.view_seq() =~= before.push(x));
    }

    /// The database ids, in registration order.
    pub fn db_ids(&self) -> (r: Vec<Vec<u8>>)
        ensures
            names_view(r@) == ids_of(self.view_seq()),
    {
        let mut r: Vec<Vec<u8>> = Vec::new();
        let mut i: usize = 0;
        while i < self.schemas.len()
            invariant
                i <= self.schemas@.len(),
                r@.len() == i,
                forall|j: int| 0 <= j < i ==> (#[trigger] r@[j])@ == self.schemas@[j].db_id@,
            decreases self.schemas@.len() - i,
        {
            r.push(copy_bytes(self.schemas[i].db_id.as_slice()));
            i += 1;
        }
        assert(names_view(r@) =~= ids_of(self.view_seq()));
        r
    }

    /// Selects the schema whose id the input names at `pos` (longest id
    /// first, case-insensitive); gives its index and the end of the id.
    pub fn select(&self, s: &[u8], pos: usize, partial: bool) -> (r: Result<(usize, usize), ParseError>)
        requires
            pos <= s@.len(),
        ensures
            match r {
                Ok((j, e)) => j < self.schemas@.len() && select_spec(self.view_seq(), s@, pos as int, partial)
                    == Ok::<(SchemaView, int), ParseError>((self.schemas@[j as int]@, e as int)) && pos <= e
                    <= s@.len(),
                Err(k) => select_spec(self.view_seq(), s@, pos as int, partial) == Err::<
                    (SchemaView, int),
                    ParseError,
                >(k),
            },
    {
        let ids = self.db_ids();
        proof {
            lemma_choice_bounds(names_view(ids@), s@, pos as int, partial);
        }
        let (j, e) = choice(&ids, s, pos, partial)?;
        Ok((j, e))
    }
}

} // verus!
