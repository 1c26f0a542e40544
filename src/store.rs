//! The record of monitored domains and every subdomain ever seen under
//! them, each with its active flag.
//!
//! A subdomain row is keyed by its parent domain and its name; writing a
//! row that exists replaces its flag, so every write is idempotent. Rows are
//! never removed.

use crate::diff::{contains_name, distinct_names, name_set, names};
use vstd::prelude::*;

verus! {

/// A row key: the parent domain's name, then the subdomain's name.
pub type RowKey = (Seq<char>, Seq<char>);

/// The names recorded under domain `d`, whatever their flag.
pub open spec fn known_names(rows: Map<RowKey, bool>, d: Seq<char>) -> Set<Seq<char>> {
    Set::new(|n: Seq<char>| rows.dom().contains((d, n)))
}

/// The rows after every name of `batch` under `d` is written with flag
/// `active`: new keys are added, existing ones take the flag, all other rows
/// stay as they were.
pub open spec fn upserted(
    rows: Map<RowKey, bool>,
    d: Seq<char>,
    batch: Set<Seq<char>>,
    active: bool,
) -> Map<RowKey, bool> {
    Map::new(
        |k: RowKey| rows.dom().contains(k) || (k.0 == d && batch.contains(k.1)),
        |k: RowKey|
            if k.0 == d && batch.contains(k.1) {
                active
            } else {
                rows[k]
            },
    )
}

/// Every name written in a batch is then among the names recorded under
/// its domain, with the flag that the batch wrote.
pub proof fn lemma_upsert_round_trip(
    rows: Map<RowKey, bool>,
    d: Seq<char>,
    batch: Set<Seq<char>>,
    active: bool,
)
    ensures
        forall|n: Seq<char>|
            #[trigger] batch.contains(n) ==> known_names(upserted(rows, d, batch, active), d).contains(
                n,
            ) && upserted(rows, d, batch, active)[(d, n)] == active,
{
}

/// Errors of the store.
#[derive(Debug, PartialEq, Eq, Structural)]
pub enum StoreError {
    /// A subdomain was written under a domain that is not recorded.
    UnknownDomain,
}

/// One subdomain row.
struct SubdomainRow {
    name: String,
    parent: String,
    active: bool,
}

/// Domains, and subdomain rows keyed by (parent, name).
pub struct Store {
    domains: Vec<String>,
    rows: Vec<SubdomainRow>,
}

impl Store {
    /// The recorded domain names.
    pub closed spec fn domain_set(&self) -> Set<Seq<char>> {
        name_set(self.domains@)
    }

    spec fn row_at(&self, i: int, d: Seq<char>, n: Seq<char>) -> bool {
        0 <= i < self.rows@.len() && self.rows@[i].parent@ == d && self.rows@[i].name@ == n
    }

    spec fn has_row(&self, d: Seq<char>, n: Seq<char>) -> bool {
        exists|i: int| self.row_at(i, d, n)
    }

    /// Every recorded subdomain row, from its key to its active flag.
    pub closed spec fn rows(&self) -> Map<RowKey, bool> {
        Map::new(
            |k: RowKey| self.has_row(k.0, k.1),
            |k: RowKey| self.rows@[choose|i: int| self.row_at(i, k.0, k.1)].active,
        )
    }

    /// Domain names are distinct, row keys are distinct, and every row's
    /// parent is a recorded domain.
    pub closed spec fn wf(&self) -> bool {
        &&& distinct_names(self.domains@)
        &&& forall|i: int, j: int|
            0 <= i < self.rows@.len() && 0 <= j < self.rows@.len() && i != j ==> (
            #[trigger] self.rows@[i]).parent@ != (#[trigger] self.rows@[j]).parent@
                || self.rows@[i].name@ != self.rows@[j].name@
        &&& forall|i: int|
            0 <= i < self.rows@.len() ==> self.domain_set().contains(
                (#[trigger] self.rows@[i]).parent@,
            )
    }

    proof fn lemma_row_value(&self, j: int)
        requires
            self.wf(),
            0 <= j < self.rows@.len(),
        ensures
            self.rows().dom().contains((self.rows@[j].parent@, self.rows@[j].name@)),
            self.rows()[(self.rows@[j].parent@, self.rows@[j].name@)] == self.rows@[j].active,
    {
        let d = self.rows@[j].parent@;
        let n = self.rows@[j].name@;
        assert(self.row_at(j, d, n));
        let i = choose|i: int| self.row_at(i, d, n);
        assert(i == j);
    }

    /// Every recorded row belongs to a recorded domain: a domain that is not
    /// recorded has no subdomain names.
    pub proof fn lemma_unrecorded_domain_has_no_rows(&self, d: Seq<char>)
        requires
            self.wf(),
            !self.domain_set().contains(d),
        ensures
            known_names(self.rows(), d) == Set::<Seq<char>>::empty(),
    {
        assert forall|n: Seq<char>| !#[trigger] known_names(self.rows(), d).contains(n) by {
            if self.has_row(d, n) {
                let i = choose|i: int| self.row_at(i, d, n);
                assert(self.domain_set().contains(self.rows@[i].parent@));
            }
        }
        assert(known_names(self.rows(), d) =~= Set::<Seq<char>>::empty());
    }

    /// An empty store.
    pub fn new() -> (r: Store)
        ensures
            r.wf(),
            r.domain_set() == Set::<Seq<char>>::empty(),
            r.rows() == Map::<RowKey, bool>::empty(),
    {
        let r = Store { domains: Vec::new(), rows: Vec::new() };
        assert(r.domain_set() =~= Set::<Seq<char>>::empty());
        assert(r.rows() =~= Map::<RowKey, bool>::empty());
        r
    }

    /// Whether `name` is a recorded domain.
    pub fn domain_exists(&self, name: &String) -> (r: bool)
        ensures
            r == self.domain_set().contains(name@),
    {
        contains_name(&self.domains, name)
    }

    /// Records the domain `name`; recording it again changes nothing.
    pub fn insert_domain(&mut self, name: &String)
        requires
            old(self).wf(),
        ensures
            final(self).wf(),
            final(self).domain_set() == old(self).domain_set().insert(name@),
            final(self).rows() == old(self).rows(),
    {
        if !contains_name(&self.domains, name) {
            let ghost before = self.domains@;
            self.domains.push(name.clone());
            proof {
                crate::diff::lemma_name_set_push(before, *name);
            }
        } else {
            assert(self.domain_set() =~= old(self).domain_set().insert(name@));
        }
        assert(self.rows@ == old(self).rows@);
        assert forall|i: int, d: Seq<char>, n: Seq<char>| self.row_at(i, d, n) == old(self).row_at(i, d, n) by {}
        assert(self.rows() =~= old(self).rows());
    }

    /// Every name recorded under `domain`, whatever its flag, each once.
    pub fn subdomains_for(&self, domain: &String) -> (r: Vec<String>)
        requires
            self.wf(),
        ensures
            name_set(r@) == known_names(self.rows(), domain@),
            distinct_names(r@),
    {
        let mut r: Vec<String> = Vec::new();
        let mut i: usize = 0;
        while i < self.rows.len()
            invariant
                self.wf(),
                0 <= i <= self.rows.len(),
                distinct_names(r@),
                forall|n: Seq<char>|
                    #[trigger] name_set(r@).contains(n) <==> exists|j: int|
                        0 <= j < i && self.row_at(j, domain@, n),
            decreases self.rows.len() - i,
        {
            if self.rows[i].parent == *domain {
                let ghost before = r@;
                let ghost n = self.rows@[i as int].name@;
                proof {
                    if name_set(before).contains(n) {
                        let j = choose|j: int| 0 <= j < i && self.row_at(j, domain@, n);
                        assert(self.rows@[j].parent@ == self.rows@[i as int].parent@);
                    }
                }
                r.push(self.rows[i].name.clone());
                proof {
                    crate::diff::lemma_name_set_push(before, self.rows@[i as int].name);
                    assert forall|m: Seq<char>|
                        #[trigger] name_set(r@).contains(m) <==> exists|j: int|
                            0 <= j < i + 1 && self.row_at(j, domain@, m) by {
                        if m == n {
                            assert(self.row_at(i as int, domain@, m));
                        }
                        if exists|j: int| 0 <= j < i + 1 && self.row_at(j, domain@, m) {
                            let j = choose|j: int| 0 <= j < i + 1 && self.row_at(j, domain@, m);
                            if j < i {
                                assert(name_set(before).contains(m));
                            }
                        }
                        if name_set(before).contains(m) {
                            let j = choose|j: int| 0 <= j < i && self.row_at(j, domain@, m);
                            assert(0 <= j < i + 1 && self.row_at(j, domain@, m));
                        }
                    }
                }
            } else {
                proof {
                    assert forall|m: Seq<char>|
                        #[trigger] name_set(r@).contains(m) <==> exists|j: int|
                            0 <= j < i + 1 && self.row_at(j, domain@, m) by {
                        if exists|j: int| 0 <= j < i + 1 && self.row_at(j, domain@, m) {
                            let j = choose|j: int| 0 <= j < i + 1 && self.row_at(j, domain@, m);
                            assert(0 <= j < i && self.row_at(j, domain@, m));
                        }
                        if name_set(r@).contains(m) {
                            let j = choose|j: int| 0 <= j < i && self.row_at(j, domain@, m);
                            assert(0 <= j < i + 1 && self.row_at(j, domain@, m));
                        }
                    }
                }
            }
            i += 1;
        }
        proof {
            assert forall|m: Seq<char>| #[trigger] name_set(r@).contains(m) == known_names(self.rows(), domain@).contains(m) by {
                if self.has_row(domain@, m) {
                    let j = choose|j: int| self.row_at(j, domain@, m);
                    assert(0 <= j < i && self.row_at(j, domain@, m));
                }
            }
            assert(name_set(r@) =~= known_names(self.rows(), domain@));
        }
        r
    }

    /// Writes every name of `batch` under `domain` with flag `active`, or,
    /// when `domain` is not recorded, writes nothing and reports it.
    pub fn upsert_subdomains(&mut self, domain: &String, batch: &Vec<String>, active: bool) -> (r:
        Result<(), StoreError>)
        requires
            old(self).wf(),
        ensures
            final(self).wf(),
            final(self).domain_set() == old(self).domain_set(),
            old(self).domain_set().contains(domain@) ==> r is Ok && final(self).rows() == upserted(
                old(self).rows(),
                domain@,
                name_set(batch@),
                active,
            ),
            !old(self).domain_set().contains(domain@) ==> r == Err::<(), StoreError>(
                StoreError::UnknownDomain,
            ) && final(self).rows() == old(self).rows(),
    {
        if !self.domain_exists(domain) {
            return Err(StoreError::UnknownDomain);
        }
        let mut i: usize = 0;
        proof {
            assert(name_set(batch@.subrange(0, 0)) =~= Set::<Seq<char>>::empty());
            assert(upserted(old(self).rows(), domain@, Set::<Seq<char>>::empty(), active) =~= old(
                self,
            ).rows());
        }
        while i < batch.len()
            invariant
                0 <= i <= batch.len(),
                self.wf(),
                self.domain_set() == old(self).domain_set(),
                self.domain_set().contains(domain@),
                self.rows() == upserted(
                    old(self).rows(),
                    domain@,
                    name_set(batch@.subrange(0, i as int)),
                    active,
                ),
            decreases batch.len() - i,
        {
            self.upsert_one(domain, &batch[i], active);
            proof {
                let pre = batch@.subrange(0, i as int);
                assert(batch@.subrange(0, i + 1) == pre.push(batch@[i as int]));
                crate::diff::lemma_name_set_push(pre, batch@[i as int]);
                assert(self.rows() =~= upserted(
                    old(self).rows(),
                    domain@,
                    name_set(batch@.subrange(0, i + 1)),
                    active,
                ));
            }
            i += 1;
        }
        assert(batch@.subrange(0, batch.len() as int) == batch@);
        Ok(())
    }

    /// The flag of the row `(domain, name)`, or `None` where no such row is
    /// recorded.
    pub fn subdomain_status(&self, domain: &String, name: &String) -> (r: Option<bool>)
        requires
            self.wf(),
        ensures
            r == (if self.rows().dom().contains((domain@, name@)) {
                Some(self.rows()[(domain@, name@)])
            } else {
                None::<bool>
            }),
    {
        match self.find_row(domain, name) {
            Some(j) => {
                proof {
                    self.lemma_row_value(j as int);
                }
                Some(self.rows[j].active)
            },
            None => None,
        }
    }

    fn find_row(&self, d: &String, n: &String) -> (r: Option<usize>)
        ensures
            match r {
                Some(j) => self.row_at(j as int, d@, n@),
                None => !self.has_row(d@, n@),
            },
    {
        let mut i: usize = 0;
        while i < self.rows.len()
            invariant
                0 <= i <= self.rows.len(),
                forall|j: int| 0 <= j < i ==> !self.row_at(j, d@, n@),
            decreases self.rows.len() - i,
        {
            if self.rows[i].parent == *d && self.rows[i].name == *n {
                return Some(i);
            }
            i += 1;
        }
        None
    }

    fn upsert_one(&mut self, d: &String, n: &String, active: bool)
        requires
            old(self).wf(),
            old(self).domain_set().contains(d@),
        ensures
            final(self).wf(),
            final(self).domain_set() == old(self).domain_set(),
            final(self).rows() == old(self).rows().insert((d@, n@), active),
    {
        match self.find_row(d, n) {
            Some(j) => {
                self.rows[j].active = active;
                proof {
                    assert forall|i: int, a: Seq<char>, b: Seq<char>|
                        self.row_at(i, a, b) == old(self).row_at(i, a, b) by {}
                    assert(self.wf());
                    self.lemma_row_value(j as int);
                    assert forall|k: RowKey| #[trigger] self.rows().dom().contains(k) implies self.rows()[k]
                        == old(self).rows().insert((d@, n@), active)[k] by {
                        let i = choose|i: int| self.row_at(i, k.0, k.1);
                        self.lemma_row_value(i);
                        old(self).lemma_row_value(i);
                    }
                    assert(self.rows() =~= old(self).rows().insert((d@, n@), active));
                }
            },
            None => {
                let ghost len = self.rows@.len() as int;
                self.rows.push(SubdomainRow { name: n.clone(), parent: d.clone(), active });
                proof {
                    assert forall|i: int, a: Seq<char>, b: Seq<char>|
                        self.row_at(i, a, b) == (old(self).row_at(i, a, b) || (i == len && a == d@
                            && b == n@)) by {}
                    assert forall|i: int| 0 <= i < len implies self.rows@[i] == old(self).rows@[i] by {}
                    assert(self.wf()) by {
                        assert forall|i: int, j: int|
                            0 <= i < self.rows@.len() && 0 <= j < self.rows@.len() && i != j
                            implies (#[trigger] self.rows@[i]).parent@ != (
                            #[trigger] self.rows@[j]).parent@ || self.rows@[i].name@
                            != self.rows@[j].name@ by {
                            if i == len {
                                assert(!old(self).row_at(j, d@, n@));
                            } else if j == len {
                                assert(!old(self).row_at(i, d@, n@));
                            }
                        }
                    }
                    self.lemma_row_value(len);
                    assert forall|k: RowKey| #[trigger] self.rows().dom().contains(k) implies self.rows()[k]
                        == old(self).rows().insert((d@, n@), active)[k] by {
                        if k != (d@, n@) {
                            let i = choose|i: int| self.row_at(i, k.0, k.1);
                            self.lemma_row_value(i);
                            old(self).lemma_row_value(i);
                        }
                    }
                    assert(self.rows() =~= old(self).rows().insert((d@, n@), active));
                }
            },
        }
    }
}

} // verus!
