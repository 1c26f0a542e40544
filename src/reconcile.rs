//! Reconciliation of a freshly fetched set of subdomain names against the
//! store.
//!
//! The comparison base is every name ever recorded for the domain, active
//! or not, so a name that disappears and later returns is not new again.

use crate::diff::{diff_subdomains, distinct_names, name_set};
use crate::store::{known_names, upserted, RowKey, Store};
use vstd::prelude::*;

verus! {

/// The rows after reconciling domain `d` with the fetched names `fetched`:
/// every fetched name is recorded under `d`, the names under `d` are active
/// exactly when fetched, and other domains' rows are untouched.
pub open spec fn reconciled(rows: Map<RowKey, bool>, d: Seq<char>, fetched: Set<Seq<char>>) -> Map<
    RowKey,
    bool,
> {
    Map::new(
        |k: RowKey| rows.dom().contains(k) || (k.0 == d && fetched.contains(k.1)),
        |k: RowKey|
            if k.0 == d {
                fetched.contains(k.1)
            } else {
                rows[k]
            },
    )
}

/// The outcome of one reconciliation.
#[derive(Debug)]
pub struct Reconciliation {
    /// The domain was not recorded before.
    pub domain_was_new: bool,
    /// Fetched names never recorded before: what a notification reports.
    pub added: Vec<String>,
    /// Recorded names absent from the fetch, now inactive.
    pub removed: Vec<String>,
}

/// Reconciles `domain` with the names just fetched for it: records the
/// domain if needed, compares the fetch with every name recorded for it,
/// marks every fetched name active and every recorded but absent name
/// inactive.
pub fn reconcile(store: &mut Store, domain: &String, fetched: &Vec<String>) -> (r: Reconciliation)
    requires
        old(store).wf(),
    ensures
        final(store).wf(),
        r.domain_was_new == !old(store).domain_set().contains(domain@),
        final(store).domain_set() == old(store).domain_set().insert(domain@),
        name_set(r.added@) == name_set(fetched@).difference(
            known_names(old(store).rows(), domain@),
        ),
        name_set(r.removed@) == known_names(old(store).rows(), domain@).difference(
            name_set(fetched@),
        ),
        distinct_names(r.added@),
        distinct_names(r.removed@),
        r.domain_was_new ==> name_set(r.added@) == name_set(fetched@),
        final(store).rows() == reconciled(old(store).rows(), domain@, name_set(fetched@)),
{
    let domain_was_new = !store.domain_exists(domain);
    if domain_was_new {
        proof {
            old(store).lemma_unrecorded_domain_has_no_rows(domain@);
            assert(name_set(fetched@).difference(known_names(old(store).rows(), domain@))
                =~= name_set(fetched@));
        }
        store.insert_domain(domain);
    }
    let known = store.subdomains_for(domain);
    let (added, removed) = diff_subdomains(&known, fetched);
    // The domain is recorded by now, so neither write reports an error.
    let _active_written = store.upsert_subdomains(domain, fetched, true);
    let _inactive_written = store.upsert_subdomains(domain, &removed, false);
    proof {
        let m = old(store).rows();
        let f = name_set(fetched@);
        let k = known_names(m, domain@);
        assert(upserted(upserted(m, domain@, f, true), domain@, k.difference(f), false)
            =~= reconciled(m, domain@, f));
    }
    Reconciliation { domain_was_new, added, removed }
}

/// Reconciling a second time with the same fetch changes nothing and finds
/// nothing added; what it finds removed is what the first run found removed.
pub proof fn lemma_reconcile_stable(rows: Map<RowKey, bool>, d: Seq<char>, fetched: Set<Seq<char>>)
    ensures
        reconciled(reconciled(rows, d, fetched), d, fetched) == reconciled(rows, d, fetched),
        fetched.difference(known_names(reconciled(rows, d, fetched), d)) == Set::<
            Seq<char>,
        >::empty(),
        known_names(reconciled(rows, d, fetched), d).difference(fetched) == known_names(
            rows,
            d,
        ).difference(fetched),
{
    let once = reconciled(rows, d, fetched);
    assert(reconciled(once, d, fetched) =~= once);
    assert(fetched.difference(known_names(once, d)) =~= Set::<Seq<char>>::empty());
    assert(known_names(once, d).difference(fetched) =~= known_names(rows, d).difference(fetched));
}

/// Where the first run removes nothing (every recorded name is fetched),
/// a second run with the same fetch finds nothing added and nothing removed.
pub proof fn lemma_reconcile_twice_quiet(
    rows: Map<RowKey, bool>,
    d: Seq<char>,
    fetched: Set<Seq<char>>,
)
    requires
        known_names(rows, d).subset_of(fetched),
    ensures
        fetched.difference(known_names(reconciled(rows, d, fetched), d)) == Set::<
            Seq<char>,
        >::empty(),
        known_names(reconciled(rows, d, fetched), d).difference(fetched) == Set::<
            Seq<char>,
        >::empty(),
{
    lemma_reconcile_stable(rows, d, fetched);
    assert(known_names(rows, d).difference(fetched) =~= Set::<Seq<char>>::empty());
}

/// After a reconciliation the active names of the domain are exactly the
/// fetched ones, and every added name is among them.
pub proof fn lemma_reconcile_active_names(
    rows: Map<RowKey, bool>,
    d: Seq<char>,
    fetched: Set<Seq<char>>,
)
    ensures
        forall|n: Seq<char>|
            (#[trigger] reconciled(rows, d, fetched).dom().contains((d, n)) && reconciled(
                rows,
                d,
                fetched,
            )[(d, n)]) <==> fetched.contains(n),
        forall|n: Seq<char>|
            #[trigger] fetched.difference(known_names(rows, d)).contains(n) ==> reconciled(
                rows,
                d,
                fetched,
            )[(d, n)],
{
}

} // verus!
