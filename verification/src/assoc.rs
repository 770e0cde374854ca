//! Lookup in string-keyed entry lists, shared by the containers of this
//! crate: `assoc_get` is the specification of first-match lookup, and the
//! lemmas relate it to the loops that search, replace, append and remove.

use vstd::prelude::*;

verus! {

/// The value beside the first entry whose key is `key`, if any.
pub open spec fn assoc_get<V>(s: Seq<(String, V)>, key: Seq<char>) -> Option<V>
    decreases s.len(),
{
    if s.len() == 0 {
        None
    } else if s[0].0@ == key {
        Some(s[0].1)
    } else {
        assoc_get(s.drop_first(), key)
    }
}

/// Lookup skips any prefix of entries whose keys all differ from `key`.
pub proof fn lemma_assoc_get_skip<V>(s: Seq<(String, V)>, key: Seq<char>, i: int)
    requires
        0 <= i <= s.len(),
        forall|j: int| 0 <= j < i ==> s[j].0@ != key,
    ensures
        assoc_get(s, key) == assoc_get(s.skip(i), key),
    decreases i,
{
    if i > 0 {
        assert(s.skip(1) =~= s.drop_first());
        lemma_assoc_get_skip(s.drop_first(), key, i - 1);
        assert(s.drop_first().skip(i - 1) =~= s.skip(i));
    } else {
        assert(s.skip(0) =~= s);
    }
}

/// If the entry at `i` is the first whose key is `key`, lookup returns its
/// value.
pub proof fn lemma_assoc_get_found<V>(s: Seq<(String, V)>, key: Seq<char>, i: int)
    requires
        0 <= i < s.len(),
        forall|j: int| 0 <= j < i ==> s[j].0@ != key,
        s[i].0@ == key,
    ensures
        assoc_get(s, key) == Some(s[i].1),
{
    lemma_assoc_get_skip(s, key, i);
    assert(s.skip(i)[0] == s[i]);
}

/// If no entry's key is `key`, lookup returns nothing.
pub proof fn lemma_assoc_get_absent<V>(s: Seq<(String, V)>, key: Seq<char>)
    requires
        forall|j: int| 0 <= j < s.len() ==> s[j].0@ != key,
    ensures
        assoc_get(s, key) is None,
{
    lemma_assoc_get_skip(s, key, s.len() as int);
    assert(s.skip(s.len() as int) =~= Seq::<(String, V)>::empty());
}

/// An entry list that keeps every key, and every value but the ones under
/// one key, agrees with the list it came from on lookups of every other
/// key.
pub proof fn lemma_assoc_get_keeps_others<V>(
    pre: Seq<(String, V)>,
    post: Seq<(String, V)>,
    k: Seq<char>,
)
    requires
        pre.len() <= post.len() <= pre.len() + 1,
        forall|j: int| 0 <= j < pre.len() ==> post[j].0@ == pre[j].0@,
        forall|j: int| 0 <= j < pre.len() && pre[j].0@ == k ==> post[j] == pre[j],
        post.len() == pre.len() + 1 ==> post[pre.len() as int].0@ != k,
    ensures
        assoc_get(post, k) == assoc_get(pre, k),
    decreases pre.len(),
{
    if pre.len() == 0 {
        if post.len() == 1 {
            assert(assoc_get(post, k) == assoc_get(post.drop_first(), k));
            assert(post.drop_first() =~= Seq::<(String, V)>::empty());
        }
    } else {
        if pre[0].0@ == k {
            assert(post[0] == pre[0]);
        } else {
            lemma_assoc_get_keeps_others(pre.drop_first(), post.drop_first(), k);
            assert(forall|j: int|
                0 <= j < pre.drop_first().len() ==> post.drop_first()[j].0@
                    == pre.drop_first()[j].0@);
        }
    }
}

/// Removing the sole entry of one key leaves lookups of every other key
/// unchanged.
pub proof fn lemma_assoc_get_remove<V>(
    pre: Seq<(String, V)>,
    post: Seq<(String, V)>,
    i: int,
    k: Seq<char>,
)
    requires
        0 <= i < pre.len(),
        post =~= pre.remove(i),
        pre[i].0@ != k,
    ensures
        assoc_get(post, k) == assoc_get(pre, k),
    decreases pre.len(),
{
    if i == 0 {
        assert(post =~= pre.drop_first());
    } else {
        if pre[0].0@ == k {
            assert(post[0] == pre[0]);
        } else {
            lemma_assoc_get_remove(pre.drop_first(), post.drop_first(), i - 1, k);
            assert(post.drop_first() =~= pre.drop_first().remove(i - 1));
        }
    }
}

} // verus!
