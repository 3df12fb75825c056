use vstd::prelude::*;

verus! {

/// Some element of `s` satisfies `f`.
pub open spec fn any<T>(s: Seq<T>, f: spec_fn(T) -> bool) -> bool {
    exists|i: int| 0 <= i < s.len() && f(s[i])
}

/// `i` is the first position of `s` whose element satisfies `f`.
pub open spec fn is_first<T>(s: Seq<T>, f: spec_fn(T) -> bool, i: int) -> bool {
    &&& 0 <= i < s.len()
    &&& f(s[i])
    &&& forall|j: int| 0 <= j < i ==> !f(s[j])
}

/// The first position of `s` whose element satisfies `f`, or -1.
pub open spec fn first_idx<T>(s: Seq<T>, f: spec_fn(T) -> bool) -> int {
    if exists|i: int| is_first(s, f, i) {
        choose|i: int| is_first(s, f, i)
    } else {
        -1
    }
}

/// When some element satisfies `f`, `first_idx` is the first such position.
pub proof fn lemma_first_idx<T>(s: Seq<T>, f: spec_fn(T) -> bool)
    ensures
        any(s, f) ==> is_first(s, f, first_idx(s, f)),
        !any(s, f) ==> first_idx(s, f) == -1,
    decreases s.len(),
{
    if any(s, f) {
        let pre = s.drop_last();
        lemma_first_idx(pre, f);
        if any(pre, f) {
            let i = first_idx(pre, f);
            assert(pre[i] == s[i]);
            assert forall|j: int| 0 <= j < i implies !f(s[j]) by {
                assert(pre[j] == s[j]);
            }
            assert(is_first(s, f, i));
        } else {
            let w = choose|j: int| 0 <= j < s.len() && f(s[j]);
            if w < s.len() - 1 {
                assert(pre[w] == s[w]);
            }
            assert forall|j: int| 0 <= j < s.len() - 1 implies !f(s[j]) by {
                assert(pre[j] == s[j]);
            }
            assert(is_first(s, f, s.len() - 1));
        }
    } else {
        assert(!exists|i: int| is_first(s, f, i));
    }
}

/// A position that is first is the value of `first_idx`.
pub proof fn lemma_is_first_unique<T>(s: Seq<T>, f: spec_fn(T) -> bool, i: int)
    requires
        is_first(s, f, i),
    ensures
        first_idx(s, f) == i,
        any(s, f),
{
    let c = first_idx(s, f);
    assert(is_first(s, f, c));
    if c < i {
        assert(!f(s[c]));
    } else if c > i {
        assert(!f(s[i]));
    }
}

/// When no element satisfies `f`, `first_idx` is -1.
pub proof fn lemma_none_first<T>(s: Seq<T>, f: spec_fn(T) -> bool)
    requires
        forall|j: int| 0 <= j < s.len() ==> !f(s[j]),
    ensures
        first_idx(s, f) == -1,
        !any(s, f),
{
    assert(!exists|i: int| is_first(s, f, i));
}

/// The elements of `s` that satisfy `f`, in order.
pub open spec fn keep<T>(s: Seq<T>, f: spec_fn(T) -> bool) -> Seq<T>
    decreases s.len(),
{
    if s.len() == 0 {
        Seq::empty()
    } else {
        let r = keep(s.drop_last(), f);
        if f(s.last()) {
            r.push(s.last())
        } else {
            r
        }
    }
}

/// Growing a prefix by one element grows `keep` accordingly.
pub proof fn lemma_keep_step<T>(s: Seq<T>, f: spec_fn(T) -> bool, i: int)
    requires
        0 <= i < s.len(),
    ensures
        keep(s.take(i + 1), f) == if f(s[i]) {
            keep(s.take(i), f).push(s[i])
        } else {
            keep(s.take(i), f)
        },
{
    assert(s.take(i + 1).drop_last() =~= s.take(i));
    assert(s.take(i + 1).last() == s[i]);
}

/// `keep` keeps exactly the elements satisfying `f`.
pub proof fn lemma_keep_contains<T>(s: Seq<T>, f: spec_fn(T) -> bool, x: T)
    ensures
        keep(s, f).contains(x) <==> (s.contains(x) && f(x)),
    decreases s.len(),
{
    if s.len() > 0 {
        let pre = s.drop_last();
        lemma_keep_contains(pre, f, x);
        if s.contains(x) && f(x) {
            let j = choose|j: int| 0 <= j < s.len() && s[j] == x;
            if j < s.len() - 1 {
                assert(pre[j] == x);
                let k = choose|k: int| 0 <= k < keep(pre, f).len() && keep(pre, f)[k] == x;
                if f(s.last()) {
                    assert(keep(s, f)[k] == x);
                }
            } else {
                assert(keep(s, f).last() == x);
            }
        }
        if keep(s, f).contains(x) {
            let k = choose|k: int| 0 <= k < keep(s, f).len() && keep(s, f)[k] == x;
            if f(s.last()) && k == keep(s, f).len() - 1 {
                assert(s[s.len() - 1] == x);
            } else {
                assert(keep(pre, f)[k] == x);
                let j = choose|j: int| 0 <= j < pre.len() && pre[j] == x;
                assert(s[j] == x);
            }
        }
    }
}


/// `keep` never lengthens a sequence.
pub proof fn lemma_keep_len<T>(s: Seq<T>, f: spec_fn(T) -> bool)
    ensures
        keep(s, f).len() <= s.len(),
    decreases s.len(),
{
    if s.len() > 0 {
        lemma_keep_len(s.drop_last(), f);
    }
}
} // verus!
