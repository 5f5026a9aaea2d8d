use vstd::prelude::*;

verus! {

/// Relies on str's PartialEq: two string slices are equal exactly when they
/// hold the same characters.
#[verifier::external_body]
pub fn str_eq(a: &str, b: &str) -> (r: bool)
    ensures
        r == (a@ == b@),
{
    a == b
}

/// The ids in a row of strings, as a set of texts.
pub open spec fn set_of(s: Seq<String>) -> Set<Seq<char>>
    decreases s.len(),
{
    if s.len() == 0 {
        Set::empty()
    } else {
        set_of(s.drop_last()).insert(s.last()@)
    }
}

pub open spec fn ids_unique(s: Seq<String>) -> bool {
    forall|i: int, j: int| 0 <= i < j < s.len() ==> (#[trigger] s[i])@ != (#[trigger] s[j])@
}

pub proof fn lemma_set_of_found(s: Seq<String>, i: int)
    requires
        0 <= i < s.len(),
    ensures
        set_of(s).contains(s[i]@),
    decreases s.len(),
{
    if i == s.len() - 1 {
    } else {
        assert(s.drop_last()[i] == s[i]);
        lemma_set_of_found(s.drop_last(), i);
    }
}

pub proof fn lemma_set_of_missing(s: Seq<String>, k: Seq<char>)
    requires
        forall|i: int| 0 <= i < s.len() ==> (#[trigger] s[i])@ != k,
    ensures
        !set_of(s).contains(k),
    decreases s.len(),
{
    if s.len() > 0 {
        assert forall|i: int| 0 <= i < s.drop_last().len() implies (#[trigger] s.drop_last()[i])@
            != k by {
            assert(s.drop_last()[i] == s[i]);
        }
        lemma_set_of_missing(s.drop_last(), k);
    }
}

pub fn seq_contains_id(v: &Vec<String>, id: &str) -> (r: bool)
    ensures
        r == set_of(v@).contains(id@),
{
    let n = v.len();
    let mut i: usize = 0;
    while i < n
        invariant
            n == v@.len(),
            i <= n,
            forall|j: int| 0 <= j < i ==> (#[trigger] v@[j])@ != id@,
        decreases n - i,
    {
        if str_eq(v[i].as_str(), id) {
            proof {
                lemma_set_of_found(v@, i as int);
            }
            return true;
        }
        i += 1;
    }
    proof {
        lemma_set_of_missing(v@, id@);
    }
    false
}

pub fn insert_id(v: &mut Vec<String>, id: String)
    requires
        ids_unique(old(v)@),
    ensures
        ids_unique(final(v)@),
        set_of(final(v)@) == set_of(old(v)@).insert(id@),
{
    if seq_contains_id(v, id.as_str()) {
        proof {
            assert(set_of(v@).insert(id@) =~= set_of(v@));
        }
    } else {
        let ghost pre = v@;
        v.push(id);
        proof {
            assert(v@.drop_last() =~= pre);
            assert forall|a: int, b: int| 0 <= a < b < v@.len() implies (#[trigger] v@[a])@ != (
            #[trigger] v@[b])@ by {
                if b < v@.len() - 1 {
                    assert(v@[a] == pre[a]);
                    assert(v@[b] == pre[b]);
                } else {
                    assert(v@[a] == pre[a]);
                    lemma_set_of_found(pre, a);
                }
            }
        }
    }
}

} // verus!
