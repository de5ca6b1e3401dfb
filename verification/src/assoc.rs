//! Small association lists keyed by strings, with first-match lookup: how
//! the catalog modules keep per-version tables without a hash map.

use vstd::prelude::*;
use crate::strutil::str_eq;

verus! {

/// First-match lookup by key.
pub open spec fn spec_assoc_get<V>(m: Seq<(String, V)>, k: Seq<char>) -> Option<V>
    decreases m.len(),
{
    if m.len() == 0 {
        None
    } else if m[0].0@ == k {
        Some(m[0].1)
    } else {
        spec_assoc_get(m.drop_first(), k)
    }
}

/// Appending an entry changes only lookups its key answers last.
pub proof fn lemma_assoc_get_push<V>(m: Seq<(String, V)>, e: (String, V), k: Seq<char>)
    ensures
        spec_assoc_get(m.push(e), k) == {
            if spec_assoc_get(m, k) is Some {
                spec_assoc_get(m, k)
            } else if e.0@ == k {
                Some(e.1)
            } else {
                None
            }
        },
    decreases m.len(),
{
    if m.len() == 0 {
        assert(m.push(e)[0] == e);
        assert(m.push(e).drop_first() =~= Seq::<(String, V)>::empty());
        assert(spec_assoc_get(Seq::<(String, V)>::empty(), k) is None);
    } else {
        assert(m.push(e)[0] == m[0]);
        assert(m.push(e).drop_first() =~= m.drop_first().push(e));
        lemma_assoc_get_push(m.drop_first(), e, k);
    }
}

/// An entry's own key is always found.
pub proof fn lemma_assoc_get_some_of_index<V>(m: Seq<(String, V)>, i: int)
    requires
        0 <= i < m.len(),
    ensures
        spec_assoc_get(m, m[i].0@) is Some,
    decreases i,
{
    if i > 0 && m[0].0@ != m[i].0@ {
        assert(m.drop_first()[i - 1] == m[i]);
        lemma_assoc_get_some_of_index(m.drop_first(), i - 1);
    }
}

pub fn assoc_get<'a, V>(m: &'a Vec<(String, V)>, k: &str) -> (r: Option<&'a V>)
    ensures
        (r is Some) == (spec_assoc_get(m@, k@) is Some),
        r matches Some(v) ==> spec_assoc_get(m@, k@) == Some(*v),
{
    let n = m.len();
    let mut i: usize = 0;
    proof {
        assert(m@.skip(0) =~= m@);
    }
    while i < n
        invariant
            i <= n,
            n == m@.len(),
            spec_assoc_get(m@, k@) == spec_assoc_get(m@.skip(i as int), k@),
        decreases n - i,
    {
        proof {
            assert(m@.skip(i as int)[0] == m@[i as int]);
        }
        if str_eq(m[i].0.as_str(), k) {
            return Some(&m[i].1);
        }
        proof {
            assert(m@.skip(i as int).drop_first() =~= m@.skip(i + 1));
        }
        i = i + 1;
    }
    proof {
        assert(m@.skip(n as int) =~= Seq::<(String, V)>::empty());
    }
    None
}

pub fn assoc_contains<V>(m: &Vec<(String, V)>, k: &str) -> (r: bool)
    ensures
        r == (spec_assoc_get(m@, k@) is Some),
{
    assoc_get(m, k).is_some()
}

} // verus!
