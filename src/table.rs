//! A tenant-scoped table of plain entries: every read is filtered by the
//! caller's tenant, and an entry of another tenant reads as absent.
use vstd::prelude::*;

verus! {

/// An entry together with the tenant that owns it.
pub struct Scoped<T> {
    pub tenant: String,
    pub value: T,
}

/// Entries identified by their position, each owned by one tenant.
pub struct TenantTable<T> {
    rows: Vec<Scoped<T>>,
}

impl<T> TenantTable<T> {
    /// The entries, in order of insertion.
    pub closed spec fn rows(&self) -> Seq<Scoped<T>> {
        self.rows@
    }

    /// The values of the entries of `tenant`, in order of insertion.
    pub open spec fn values_of(&self, tenant: Seq<char>) -> Seq<T> {
        self.rows().filter(|s: Scoped<T>| s.tenant@ == tenant).map_values(|s: Scoped<T>| s.value)
    }

    /// An empty table.
    pub fn new() -> (r: TenantTable<T>)
        ensures
            r.rows().len() == 0,
    {
        TenantTable { rows: Vec::new() }
    }

    /// Adds `value`, owned by `tenant`, and returns its id.
    pub fn insert(&mut self, tenant: &String, value: T) -> (r: usize)
        ensures
            r == old(self).rows().len(),
            final(self).rows().len() == old(self).rows().len() + 1,
            final(self).rows().drop_last() == old(self).rows(),
            final(self).rows().last().tenant@ == tenant@,
            final(self).rows().last().value == value,
    {
        let id = self.rows.len();
        self.rows.push(Scoped { tenant: tenant.clone(), value });
        assert(self.rows@.drop_last() =~= old(self).rows@);
        id
    }

    /// Entry `id`, if it exists and belongs to `tenant`.
    pub fn get(&self, id: usize, tenant: &String) -> (r: Option<&T>)
        ensures
            id < self.rows().len() && self.rows()[id as int].tenant@ == tenant@ ==> r == Some(
                &self.rows()[id as int].value,
            ),
            !(id < self.rows().len() && self.rows()[id as int].tenant@ == tenant@) ==> r is None,
    {
        if id < self.rows.len() && self.rows[id].tenant == *tenant {
            Some(&self.rows[id].value)
        } else {
            None
        }
    }

    /// The entries of `tenant`, in order of insertion.
    pub fn list(&self, tenant: &String) -> (r: Vec<&T>)
        ensures
            r@.len() == self.values_of(tenant@).len(),
            forall|k: int| 0 <= k < r@.len() ==> *r@[k] == self.values_of(tenant@)[k],
    {
        let ghost keep = |s: Scoped<T>| s.tenant@ == tenant@;
        let mut out: Vec<&T> = Vec::new();
        let mut i: usize = 0;
        while i < self.rows.len()
            invariant
                i <= self.rows@.len(),
                out@.len() == self.rows@.subrange(0, i as int).filter(keep).len(),
                forall|k: int|
                    0 <= k < out@.len() ==> *out@[k] == self.rows@.subrange(0, i as int).filter(
                        keep,
                    )[k].value,
                keep == (|s: Scoped<T>| s.tenant@ == tenant@),
            decreases self.rows@.len() - i,
        {
            let ghost before = self.rows@.subrange(0, i as int).filter(keep);
            if self.rows[i].tenant == *tenant {
                out.push(&self.rows[i].value);
            }
            proof {
                let next = self.rows@.subrange(0, i as int + 1);
                reveal(Seq::filter);
                assert(next.drop_last() =~= self.rows@.subrange(0, i as int));
                assert(next.last() == self.rows@[i as int]);
                if keep(next.last()) {
                    assert(next.filter(keep) == before.push(next.last()));
                } else {
                    assert(next.filter(keep) == before);
                }
            }
            i = i + 1;
        }
        assert(self.rows@.subrange(0, i as int) =~= self.rows@);
        assert(self.values_of(tenant@).len() == self.rows@.filter(keep).len());
        out
    }
}

} // verus!
