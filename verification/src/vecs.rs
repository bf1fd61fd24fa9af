//! Small helpers over vectors and boolean sequences that several
//! modules share.

use vstd::prelude::*;

verus! {

/// Number of `false` entries in a boolean sequence.
pub open spec fn count_false(s: Seq<bool>) -> nat
    decreases s.len(),
{
    if s.len() == 0 {
        0
    } else {
        count_false(s.drop_last()) + if s.last() {
            0nat
        } else {
            1nat
        }
    }
}

/// Setting a `false` entry to `true` lowers the `false` count by one.
pub proof fn lemma_count_false_update(s: Seq<bool>, i: int)
    requires
        0 <= i < s.len(),
        !s[i],
    ensures
        count_false(s.update(i, true)) + 1 == count_false(s),
    decreases s.len(),
{
    let t = s.update(i, true);
    if i == s.len() - 1 {
        assert(t.drop_last() =~= s.drop_last());
    } else {
        assert(t.drop_last() =~= s.drop_last().update(i, true));
        lemma_count_false_update(s.drop_last(), i);
    }
}

/// Pushing onto a vector appends its element's view to the deep view.
pub proof fn lemma_deep_view_push<T: DeepView>(v0: Vec<T>, v1: Vec<T>, x: T)
    requires
        v1@ == v0@.push(x),
    ensures
        v1.deep_view() =~= v0.deep_view().push(x.deep_view()),
{
    assert forall|j: int| 0 <= j < v1@.len() implies v1.deep_view()[j]
        == v0.deep_view().push(x.deep_view())[j] by {
        if j < v0@.len() {
            assert(v1@[j] == v0@[j]);
        } else {
            assert(v1@[j] == x);
        }
    }
}

/// Pushes a string, tracking the deep view.
pub fn push_string(v: &mut Vec<String>, s: String)
    ensures
        final(v).deep_view() == old(v).deep_view().push(s@),
{
    let ghost v0 = *v;
    let ghost gs = s;
    v.push(s);
    proof {
        lemma_deep_view_push(v0, *v, gs);
    }
}

/// Clones a list of strings, preserving its view element for element.
pub fn clone_strings(v: &Vec<String>) -> (r: Vec<String>)
    ensures
        r.deep_view() == v.deep_view(),
{
    let mut r: Vec<String> = Vec::new();
    let mut i: usize = 0;
    while i < v.len()
        invariant
            i <= v@.len(),
            r.deep_view() =~= v.deep_view().take(i as int),
        decreases v@.len() - i,
    {
        let ghost r0 = r;
        let s = v[i].clone();
        let ghost gs = s;
        r.push(s);
        proof {
            lemma_deep_view_push(r0, r, gs);
            assert(r.deep_view() =~= v.deep_view().take(i as int + 1));
        }
        i = i + 1;
    }
    proof {
        assert(r.deep_view() =~= v.deep_view());
    }
    r
}

} // verus!
