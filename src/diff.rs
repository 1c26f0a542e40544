//! Set arithmetic on lists of subdomain names.

use vstd::prelude::*;

verus! {

/// The names that a list of strings holds, in order.
pub open spec fn names(v: Seq<String>) -> Seq<Seq<char>> {
    v.map_values(|s: String| s@)
}

/// The set of names that a list of strings holds.
pub open spec fn name_set(v: Seq<String>) -> Set<Seq<char>> {
    names(v).to_set()
}

/// A list of strings that holds each name at most once.
pub open spec fn distinct_names(v: Seq<String>) -> bool {
    names(v).no_duplicates()
}

/// Appending a string adds its name to the set.
pub proof fn lemma_name_set_push(v: Seq<String>, s: String)
    ensures
        name_set(v.push(s)) == name_set(v).insert(s@),
        names(v.push(s)) == names(v).push(s@),
        distinct_names(v) && !name_set(v).contains(s@) ==> distinct_names(v.push(s)),
{
    let w = names(v.push(s));
    assert(w =~= names(v).push(s@));
    assert forall|n: Seq<char>| #[trigger] w.contains(n) <==> (names(v).contains(n) || n == s@) by {
        if w.contains(n) {
            let k = choose|k: int| 0 <= k < w.len() && w[k] == n;
            if k < v.len() {
                assert(names(v)[k] == n);
            }
        }
        if names(v).contains(n) {
            let k = choose|k: int| 0 <= k < names(v).len() && names(v)[k] == n;
            assert(w[k] == n);
        }
        if n == s@ {
            assert(w[v.len() as int] == n);
        }
    }
    assert(name_set(v.push(s)) =~= name_set(v).insert(s@));
    if distinct_names(v) && !name_set(v).contains(s@) {
        assert forall|i: int, j: int| 0 <= i < w.len() && 0 <= j < w.len() && i != j implies w[i]
            != w[j] by {
            if i == v.len() {
                assert(names(v)[j] == w[j]);
            } else if j == v.len() {
                assert(names(v)[i] == w[i]);
            }
        }
    }
}

/// Whether `name` occurs in `list`.
pub fn contains_name(list: &Vec<String>, name: &String) -> (r: bool)
    ensures
        r == name_set(list@).contains(name@),
{
    let mut i: usize = 0;
    while i < list.len()
        invariant
            0 <= i <= list.len(),
            forall|j: int| 0 <= j < i ==> list@[j]@ != name@,
        decreases list.len() - i,
    {
        if list[i] == *name {
            assert(names(list@)[i as int] == name@);
            return true;
        }
        i += 1;
    }
    proof {
        assert forall|j: int| 0 <= j < names(list@).len() implies names(list@)[j] != name@ by {
            assert(names(list@)[j] == list@[j]@);
        }
    }
    false
}

/// The names of `a` that are not in `b`, each once, in the order of their
/// first occurrence in `a`.
pub fn set_difference(a: &Vec<String>, b: &Vec<String>) -> (r: Vec<String>)
    ensures
        name_set(r@) == name_set(a@).difference(name_set(b@)),
        distinct_names(r@),
{
    let mut r: Vec<String> = Vec::new();
    let mut i: usize = 0;
    while i < a.len()
        invariant
            0 <= i <= a.len(),
            distinct_names(r@),
            forall|s: Seq<char>|
                #[trigger] name_set(r@).contains(s) <==> (names(a@).subrange(0, i as int).contains(s)
                    && !name_set(b@).contains(s)),
        decreases a.len() - i,
    {
        let ghost before = r@;
        let in_b = contains_name(b, &a[i]);
        let in_r = contains_name(&r, &a[i]);
        if !in_b && !in_r {
            r.push(a[i].clone());
            proof {
                assert(names(r@) == names(before).push(a@[i as int]@));
            }
        }
        proof {
            let pre = names(a@).subrange(0, i as int);
            let post = names(a@).subrange(0, i + 1);
            assert(post == pre.push(a@[i as int]@));
            assert forall|s: Seq<char>| #[trigger] post.contains(s) <==> (pre.contains(s) || s
                == a@[i as int]@) by {
                if post.contains(s) {
                    let k = choose|k: int| 0 <= k < post.len() && post[k] == s;
                    if k < pre.len() {
                        assert(pre[k] == s);
                    }
                }
                if pre.contains(s) {
                    let k = choose|k: int| 0 <= k < pre.len() && pre[k] == s;
                    assert(post[k] == s);
                }
                if s == a@[i as int]@ {
                    assert(post[i as int] == s);
                }
            }
            assert forall|s: Seq<char>| #[trigger] name_set(r@).contains(s) <==> (post.contains(s)
                && !name_set(b@).contains(s)) by {
                assert(name_set(before).contains(s) <==> (pre.contains(s) && !name_set(b@).contains(s)));
                assert(post.contains(s) <==> (pre.contains(s) || s == a@[i as int]@));
                if !in_b && !in_r {
                    assert(names(r@)[before.len() as int] == a@[i as int]@);
                    if names(r@).contains(s) && s != a@[i as int]@ {
                        let k = choose|k: int| 0 <= k < names(r@).len() && names(r@)[k] == s;
                        assert(names(before)[k] == s);
                    }
                    if names(before).contains(s) {
                        let k = choose|k: int| 0 <= k < names(before).len() && names(before)[k] == s;
                        assert(names(r@)[k] == s);
                    }
                } else {
                    assert(r@ == before);
                    if in_r {
                        assert(name_set(before).contains(a@[i as int]@));
                    }
                }
            }
        }
        i += 1;
    }
    proof {
        assert(names(a@).subrange(0, a.len() as int) == names(a@));
        assert(name_set(r@) =~= name_set(a@).difference(name_set(b@)));
    }
    r
}

/// Splits two lists of names into what only the second holds and what only
/// the first holds: `(new_sd - database_sd, database_sd - new_sd)`, each
/// name once.
pub fn diff_subdomains(database_sd: &Vec<String>, new_sd: &Vec<String>) -> (r: (
    Vec<String>,
    Vec<String>,
))
    ensures
        name_set(r.0@) == name_set(new_sd@).difference(name_set(database_sd@)),
        name_set(r.1@) == name_set(database_sd@).difference(name_set(new_sd@)),
        distinct_names(r.0@),
        distinct_names(r.1@),
{
    let added = set_difference(new_sd, database_sd);
    let removed = set_difference(database_sd, new_sd);
    (added, removed)
}

/// What is fetched but not known and what is known but not fetched never
/// overlap, and together with what both hold they make up everything that
/// either holds.
pub proof fn lemma_diff_partition(fetched: Set<Seq<char>>, known: Set<Seq<char>>)
    ensures
        fetched.difference(known).disjoint(known.difference(fetched)),
        fetched.difference(known).union(known.difference(fetched)).union(
            fetched.intersect(known),
        ) == fetched.union(known),
{
    assert(fetched.difference(known).union(known.difference(fetched)).union(
        fetched.intersect(known),
    ) =~= fetched.union(known));
}

} // verus!
