//! The tag difference: which tags a merge created.

use vstd::prelude::*;

verus! {

/// The tags present in `post` but absent from `pre`, in order of first
/// appearance, each kept once.
pub open spec fn tag_diff_seq(post: Seq<Seq<char>>, pre: Seq<Seq<char>>) -> Seq<Seq<char>>
    decreases post.len(),
{
    if post.len() == 0 {
        Seq::empty()
    } else {
        let init = tag_diff_seq(post.drop_last(), pre);
        let t = post.last();
        if pre.contains(t) || post.drop_last().contains(t) {
            init
        } else {
            init.push(t)
        }
    }
}

/// A tag is in the difference exactly when it is present after and
/// absent before.
pub proof fn lemma_tag_diff_membership(post: Seq<Seq<char>>, pre: Seq<Seq<char>>, x: Seq<char>)
    ensures
        tag_diff_seq(post, pre).contains(x) <==> (post.contains(x) && !pre.contains(x)),
    decreases post.len(),
{
    if post.len() > 0 {
        let init = tag_diff_seq(post.drop_last(), pre);
        let t = post.last();
        lemma_tag_diff_membership(post.drop_last(), pre, x);
        assert(post.contains(x) <==> (post.drop_last().contains(x) || x == t)) by {
            if post.contains(x) {
                let i = choose|i: int| 0 <= i < post.len() && post[i] == x;
                if i < post.len() - 1 {
                    assert(post.drop_last()[i] == x);
                }
            }
            if post.drop_last().contains(x) {
                let i = choose|i: int| 0 <= i < post.drop_last().len() && post.drop_last()[i] == x;
                assert(post[i] == x);
            }
        }
        if !(pre.contains(t) || post.drop_last().contains(t)) {
            assert(init.push(t).contains(x) <==> (init.contains(x) || x == t)) by {
                if init.push(t).contains(x) {
                    let i = choose|i: int| 0 <= i < init.push(t).len() && init.push(t)[i] == x;
                    if i < init.len() {
                        assert(init[i] == x);
                    }
                }
                if init.contains(x) {
                    let i = choose|i: int| 0 <= i < init.len() && init[i] == x;
                    assert(init.push(t)[i] == x);
                }
                assert(init.push(t)[init.len() as int] == t);
            }
        }
    }
}

/// The difference lists no tag twice.
pub proof fn lemma_tag_diff_distinct(post: Seq<Seq<char>>, pre: Seq<Seq<char>>)
    ensures
        forall|i: int, j: int|
            0 <= i < j < tag_diff_seq(post, pre).len() ==> tag_diff_seq(post, pre)[i]
                != tag_diff_seq(post, pre)[j],
    decreases post.len(),
{
    if post.len() > 0 {
        let d = tag_diff_seq(post, pre);
        let init = tag_diff_seq(post.drop_last(), pre);
        let t = post.last();
        lemma_tag_diff_distinct(post.drop_last(), pre);
        if !(pre.contains(t) || post.drop_last().contains(t)) {
            assert(!init.contains(t)) by {
                lemma_tag_diff_membership(post.drop_last(), pre, t);
            }
            assert forall|i: int, j: int| 0 <= i < j < d.len() implies d[i] != d[j] by {
                if j == d.len() - 1 {
                    assert(init[i] == d[i]);
                    if d[i] == t {
                        assert(init.contains(t));
                    }
                } else {
                    assert(init[i] == d[i] && init[j] == d[j]);
                }
            }
        }
    }
}

/// The difference is the set difference of the two tag sets, each
/// element once: what appeared with the merge, nothing that vanished,
/// duplicates collapsed.
pub proof fn lemma_tag_diff_correct(post: Seq<Seq<char>>, pre: Seq<Seq<char>>)
    ensures
        tag_diff_seq(post, pre).to_set() == post.to_set().difference(pre.to_set()),
        forall|i: int, j: int|
            0 <= i < j < tag_diff_seq(post, pre).len() ==> tag_diff_seq(post, pre)[i]
                != tag_diff_seq(post, pre)[j],
{
    assert forall|x: Seq<char>|
        true implies #[trigger] tag_diff_seq(post, pre).to_set().contains(x) == post.to_set()
        .difference(pre.to_set())
        .contains(x) by {
        lemma_tag_diff_membership(post, pre, x);
    }
    assert(tag_diff_seq(post, pre).to_set() =~= post.to_set().difference(pre.to_set()));
    lemma_tag_diff_distinct(post, pre);
}

/// Whether one of the first `n` names equals `t`.
fn names_contain_prefix(v: &Vec<String>, n: usize, t: &String) -> (r: bool)
    requires
        n <= v@.len(),
    ensures
        r == v.deep_view().take(n as int).contains(t@),
{
    let mut i: usize = 0;
    while i < n
        invariant
            i <= n <= v@.len(),
            forall|j: int| 0 <= j < i ==> v@[j]@ != t@,
        decreases n - i,
    {
        if v[i].eq(t) {
            assert(v.deep_view().take(n as int)[i as int] == t@);
            return true;
        }
        i = i + 1;
    }
    assert forall|j: int| 0 <= j < n implies v.deep_view().take(n as int)[j] != t@ by {
        assert(v.deep_view().take(n as int)[j] == v@[j]@);
    }
    false
}

/// Computes which tags a merge created: those listed after it that were
/// not listed before, first appearance kept, duplicates collapsed.
pub fn tag_diff(post: &Vec<String>, pre: &Vec<String>) -> (r: Vec<String>)
    ensures
        r.deep_view() == tag_diff_seq(post.deep_view(), pre.deep_view()),
{
    let mut r: Vec<String> = Vec::new();
    let mut i: usize = 0;
    assert(pre.deep_view().take(pre@.len() as int) =~= pre.deep_view());
    while i < post.len()
        invariant
            i <= post@.len(),
            r.deep_view() =~= tag_diff_seq(post.deep_view().take(i as int), pre.deep_view()),
        decreases post@.len() - i,
    {
        let seen_before = names_contain_prefix(pre, pre.len(), &post[i]);
        let seen_here = names_contain_prefix(post, i, &post[i]);
        proof {
            assert(pre.deep_view().take(pre@.len() as int) =~= pre.deep_view());
            let pd = post.deep_view();
            assert(pd.take(i + 1 as int).drop_last() =~= pd.take(i as int));
            assert(pd.take(i + 1 as int).last() == pd[i as int]);
            assert(pd[i as int] == post@[i as int]@);
        }
        let ghost old_r: Seq<Seq<char>> = r.deep_view();
        if !seen_before && !seen_here {
            r.push(post[i].clone());
            assert(r.deep_view() =~= old_r.push(post@[i as int]@));
        }
        i = i + 1;
    }
    assert(post.deep_view().take(post@.len() as int) =~= post.deep_view());
    r
}

} // verus!
