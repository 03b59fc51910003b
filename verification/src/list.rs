//! Recursive helpers over vectors of copyable elements.
//!
//! Each function decomposes its input with `head_tail` and rebuilds results
//! with `cons`/`append`, mirroring a classic head/tail recursion style.

use vstd::prelude::*;

verus! {

/// Number of elements to drop (`skip`) or keep (`take`) for a requested count
/// `n` against a sequence of length `len`: negative requests clamp to zero and
/// oversized requests clamp to the length.
pub open spec fn clamped_count(n: int, len: int) -> int {
    if n <= 0 {
        0
    } else if n >= len {
        len
    } else {
        n
    }
}

/// Splits a non-empty vector into its first element and a fresh vector holding
/// the rest.
pub fn head_tail<T: Copy>(xs: &Vec<T>) -> (r: (T, Vec<T>))
    requires
        xs@.len() > 0,
    ensures
        r.0 == xs@[0],
        r.1@ == xs@.drop_first(),
{
    let mut tail: Vec<T> = Vec::new();
    let mut i: usize = 1;
    while i < xs.len()
        invariant
            1 <= i <= xs@.len(),
            tail@ == xs@.subrange(1, i as int),
        decreases xs@.len() - i,
    {
        tail.push(xs[i]);
        proof {
            assert(tail@ =~= xs@.subrange(1, i + 1));
        }
        i += 1;
    }
    proof {
        assert(tail@ =~= xs@.drop_first());
    }
    (xs[0], tail)
}

/// Builds a new vector with `x` in front of the elements of `xs`.
pub fn cons<T: Copy>(x: T, xs: &Vec<T>) -> (r: Vec<T>)
    ensures
        r@ == seq![x] + xs@,
{
    let mut ret: Vec<T> = Vec::new();
    ret.push(x);
    let mut i: usize = 0;
    while i < xs.len()
        invariant
            0 <= i <= xs@.len(),
            ret@ == seq![x] + xs@.subrange(0, i as int),
        decreases xs@.len() - i,
    {
        ret.push(xs[i]);
        proof {
            assert(ret@ =~= seq![x] + xs@.subrange(0, i + 1));
        }
        i += 1;
    }
    proof {
        assert(ret@ =~= seq![x] + xs@);
    }
    ret
}

/// Concatenates two vectors into a fresh one.
pub fn append<T: Copy>(xs: &Vec<T>, ys: &Vec<T>) -> (r: Vec<T>)
    ensures
        r@ == xs@ + ys@,
{
    let mut ret: Vec<T> = Vec::new();
    let mut i: usize = 0;
    while i < xs.len()
        invariant
            0 <= i <= xs@.len(),
            ret@ == xs@.subrange(0, i as int),
        decreases xs@.len() - i,
    {
        ret.push(xs[i]);
        proof {
            assert(ret@ =~= xs@.subrange(0, i + 1));
        }
        i += 1;
    }
    let mut j: usize = 0;
    while j < ys.len()
        invariant
            0 <= j <= ys@.len(),
            ret@ == xs@.subrange(0, xs@.len() as int) + ys@.subrange(0, j as int),
        decreases ys@.len() - j,
    {
        ret.push(ys[j]);
        proof {
            assert(ret@ =~= xs@.subrange(0, xs@.len() as int) + ys@.subrange(0, j + 1));
        }
        j += 1;
    }
    proof {
        assert(ret@ =~= xs@ + ys@);
    }
    ret
}

/// Fresh copy of a vector of copyable elements.
fn duplicate<T: Copy>(xs: &Vec<T>) -> (r: Vec<T>)
    ensures
        r@ == xs@,
{
    let mut ret: Vec<T> = Vec::new();
    let mut i: usize = 0;
    while i < xs.len()
        invariant
            0 <= i <= xs@.len(),
            ret@ == xs@.subrange(0, i as int),
        decreases xs@.len() - i,
    {
        ret.push(xs[i]);
        proof {
            assert(ret@ =~= xs@.subrange(0, i + 1));
        }
        i += 1;
    }
    proof {
        assert(ret@ =~= xs@);
    }
    ret
}

/// Length of the vector as an `i32`, by counting down the tail.
pub fn length<T: Copy>(xs: &Vec<T>) -> (r: i32)
    requires
        xs@.len() <= i32::MAX,
    ensures
        r == xs@.len(),
    decreases xs@.len(),
{
    if xs.len() == 0 {
        0
    } else {
        let (_, tail) = head_tail(xs);
        1 + length(&tail)
    }
}

/// Drops the first `n` elements; a non-positive `n` keeps everything and an
/// oversized `n` drops everything.
pub fn skip<T: Copy>(xs: &Vec<T>, n: i32) -> (r: Vec<T>)
    ensures
        r@ == xs@.skip(clamped_count(n as int, xs@.len() as int)),
    decreases xs@.len(),
{
    let len = xs.len();
    if len == 0 {
        proof {
            assert(xs@.skip(0) =~= xs@);
        }
        Vec::new()
    } else if n <= 0 {
        proof {
            assert(xs@.skip(0) =~= xs@);
        }
        duplicate(xs)
    } else {
        let (_, tail) = head_tail(xs);
        let r = skip(&tail, n - 1);
        proof {
            let k = clamped_count(n as int, xs@.len() as int);
            assert(tail@.skip(clamped_count(n - 1, tail@.len() as int)) =~= xs@.skip(k));
        }
        r
    }
}

/// Keeps the first `n` elements; a non-positive `n` keeps nothing and an
/// oversized `n` keeps everything.
pub fn take<T: Copy>(xs: &Vec<T>, n: i32) -> (r: Vec<T>)
    ensures
        r@ == xs@.take(clamped_count(n as int, xs@.len() as int)),
    decreases xs@.len(),
{
    let len = xs.len();
    if len == 0 || n <= 0 {
        proof {
            assert(xs@.take(0) =~= Seq::<T>::empty());
        }
        Vec::new()
    } else {
        let (head, tail) = head_tail(xs);
        let rest = take(&tail, n - 1);
        let r = cons(head, &rest);
        proof {
            let k = clamped_count(n as int, xs@.len() as int);
            assert(seq![head] + tail@.take(clamped_count(n - 1, tail@.len() as int)) =~= xs@.take(
                k,
            ));
        }
        r
    }
}

/// True when every element satisfies the predicate; stops at the first
/// element reported false.
pub fn for_all<T: Copy, F: Fn(T) -> bool>(xs: &Vec<T>, pred: &F) -> (r: bool)
    requires
        forall|i: int| 0 <= i < xs@.len() ==> call_requires(*pred, (xs@[i],)),
    ensures
        r ==> (forall|i: int|
            0 <= i < xs@.len() ==> #[trigger] call_ensures(*pred, (xs@[i],), true)),
        !r ==> (exists|i: int|
            0 <= i < xs@.len() && #[trigger] call_ensures(*pred, (xs@[i],), false)),
    decreases xs@.len(),
{
    if xs.len() == 0 {
        true
    } else {
        let (head, tail) = head_tail(xs);
        let r = pred(head) && for_all(&tail, pred);
        proof {
            if r {
                assert forall|i: int| 0 <= i < xs@.len() implies #[trigger] call_ensures(
                    *pred,
                    (xs@[i],),
                    true,
                ) by {
                    if i > 0 {
                        assert(call_ensures(*pred, (tail@[i - 1],), true));
                    }
                }
            }
        }
        r
    }
}

/// True when at least one element satisfies the predicate; stops at the first
/// element reported true.
pub fn exists_any<T: Copy, F: Fn(T) -> bool>(xs: &Vec<T>, pred: &F) -> (r: bool)
    requires
        forall|i: int| 0 <= i < xs@.len() ==> call_requires(*pred, (xs@[i],)),
    ensures
        r ==> (exists|i: int|
            0 <= i < xs@.len() && #[trigger] call_ensures(*pred, (xs@[i],), true)),
        !r ==> (forall|i: int|
            0 <= i < xs@.len() ==> #[trigger] call_ensures(*pred, (xs@[i],), false)),
    decreases xs@.len(),
{
    if xs.len() == 0 {
        false
    } else {
        let (head, tail) = head_tail(xs);
        let r = pred(head) || exists_any(&tail, pred);
        proof {
            if !r {
                assert forall|i: int| 0 <= i < xs@.len() implies #[trigger] call_ensures(
                    *pred,
                    (xs@[i],),
                    false,
                ) by {
                    if i > 0 {
                        assert(call_ensures(*pred, (tail@[i - 1],), false));
                    }
                }
            }
        }
        r
    }
}

/// First element reported true by the predicate, if any; every earlier
/// element was reported false.
pub fn find<T: Copy, F: Fn(T) -> bool>(xs: &Vec<T>, pred: &F) -> (r: Option<T>)
    requires
        forall|i: int| 0 <= i < xs@.len() ==> call_requires(*pred, (xs@[i],)),
    ensures
        match r {
            Some(v) => exists|i: int|
                0 <= i < xs@.len() && xs@[i] == v && #[trigger] call_ensures(*pred, (xs@[i],), true)
                    && (forall|j: int|
                    0 <= j < i ==> #[trigger] call_ensures(*pred, (xs@[j],), false)),
            None => forall|i: int|
                0 <= i < xs@.len() ==> #[trigger] call_ensures(*pred, (xs@[i],), false),
        },
    decreases xs@.len(),
{
    if xs.len() == 0 {
        None
    } else {
        let (head, tail) = head_tail(xs);
        if pred(head) {
            Some(head)
        } else {
            let r = find(&tail, pred);
            proof {
                match r {
                    Some(v) => {
                        let i = choose|i: int|
                            0 <= i < tail@.len() && tail@[i] == v && #[trigger] call_ensures(
                                *pred,
                                (tail@[i],),
                                true,
                            ) && (forall|j: int|
                                0 <= j < i ==> #[trigger] call_ensures(*pred, (tail@[j],), false));
                        assert(xs@[i + 1] == v && call_ensures(*pred, (xs@[i + 1],), true));
                        assert forall|j: int| 0 <= j < i + 1 implies #[trigger] call_ensures(
                            *pred,
                            (xs@[j],),
                            false,
                        ) by {
                            if j > 0 {
                                assert(call_ensures(*pred, (tail@[j - 1],), false));
                            }
                        }
                    },
                    None => {
                        assert forall|i: int| 0 <= i < xs@.len() implies #[trigger] call_ensures(
                            *pred,
                            (xs@[i],),
                            false,
                        ) by {
                            if i > 0 {
                                assert(call_ensures(*pred, (tail@[i - 1],), false));
                            }
                        }
                    },
                }
            }
            r
        }
    }
}

/// Longest prefix of elements reported true by the predicate.
pub fn take_while<T: Copy, F: Fn(T) -> bool>(xs: &Vec<T>, pred: &F) -> (r: Vec<T>)
    requires
        forall|i: int| 0 <= i < xs@.len() ==> call_requires(*pred, (xs@[i],)),
    ensures
        r@.len() <= xs@.len(),
        r@ == xs@.take(r@.len() as int),
        forall|i: int| 0 <= i < r@.len() ==> #[trigger] call_ensures(*pred, (xs@[i],), true),
        r@.len() < xs@.len() ==> call_ensures(*pred, (xs@[r@.len() as int],), false),
    decreases xs@.len(),
{
    if xs.len() == 0 {
        Vec::new()
    } else {
        let (head, tail) = head_tail(xs);
        if !pred(head) {
            let r: Vec<T> = Vec::new();
            proof {
                assert(r@ =~= xs@.take(0));
            }
            r
        } else {
            let rest = take_while(&tail, pred);
            let r = cons(head, &rest);
            proof {
                assert(r@ =~= xs@.take(r@.len() as int));
                assert forall|i: int| 0 <= i < r@.len() implies #[trigger] call_ensures(
                    *pred,
                    (xs@[i],),
                    true,
                ) by {
                    if i > 0 {
                        assert(call_ensures(*pred, (tail@[i - 1],), true));
                    }
                }
            }
            r
        }
    }
}

/// What remains after dropping the longest prefix of elements reported true
/// by the predicate.
pub fn skip_while<T: Copy, F: Fn(T) -> bool>(xs: &Vec<T>, pred: &F) -> (r: Vec<T>)
    requires
        forall|i: int| 0 <= i < xs@.len() ==> call_requires(*pred, (xs@[i],)),
    ensures
        r@.len() <= xs@.len(),
        r@ == xs@.skip(xs@.len() - r@.len()),
        forall|i: int|
            0 <= i < xs@.len() - r@.len() ==> #[trigger] call_ensures(*pred, (xs@[i],), true),
        r@.len() > 0 ==> call_ensures(*pred, (r@[0],), false),
    decreases xs@.len(),
{
    if xs.len() == 0 {
        Vec::new()
    } else {
        let (head, tail) = head_tail(xs);
        if !pred(head) {
            let r = duplicate(xs);
            proof {
                assert(r@ =~= xs@.skip(0));
            }
            r
        } else {
            let r = skip_while(&tail, pred);
            proof {
                assert(r@ =~= xs@.skip(xs@.len() - r@.len()));
                assert forall|i: int| 0 <= i < xs@.len() - r@.len() implies #[trigger] call_ensures(
                    *pred,
                    (xs@[i],),
                    true,
                ) by {
                    if i > 0 {
                        assert(call_ensures(*pred, (tail@[i - 1],), true));
                    }
                }
            }
            r
        }
    }
}

/// Element-wise image of the vector under the given function, in order.
pub fn map<T: Copy, U: Copy, F: Fn(T) -> U>(xs: &Vec<T>, pred: &F) -> (r: Vec<U>)
    requires
        forall|i: int| 0 <= i < xs@.len() ==> call_requires(*pred, (xs@[i],)),
    ensures
        r@.len() == xs@.len(),
        forall|i: int| 0 <= i < xs@.len() ==> call_ensures(*pred, (xs@[i],), #[trigger] r@[i]),
    decreases xs@.len(),
{
    if xs.len() == 0 {
        Vec::new()
    } else {
        let (head, tail) = head_tail(xs);
        let first = pred(head);
        let rest = map(&tail, pred);
        let r = cons(first, &rest);
        proof {
            assert forall|i: int| 0 <= i < xs@.len() implies call_ensures(
                *pred,
                (xs@[i],),
                #[trigger] r@[i],
            ) by {
                if i > 0 {
                    assert(r@[i] == rest@[i - 1]);
                    assert(call_ensures(*pred, (tail@[i - 1],), rest@[i - 1]));
                }
            }
        }
        r
    }
}

/// Concatenation of a sequence of vectors, in order.
pub open spec fn flatten_all<U>(parts: Seq<Vec<U>>) -> Seq<U>
    decreases parts.len(),
{
    if parts.len() == 0 {
        Seq::empty()
    } else {
        parts[0]@ + flatten_all(parts.drop_first())
    }
}

/// Applies the function to each element and concatenates the produced
/// vectors, in order.
pub fn collect<T: Copy, U: Copy, F: Fn(T) -> Vec<U>>(xs: &Vec<T>, pred: &F) -> (r: Vec<U>)
    requires
        forall|i: int| 0 <= i < xs@.len() ==> call_requires(*pred, (xs@[i],)),
    ensures
        exists|parts: Seq<Vec<U>>|
            parts.len() == xs@.len() && (forall|i: int|
                0 <= i < xs@.len() ==> call_ensures(*pred, (xs@[i],), #[trigger] parts[i]))
                && r@ == #[trigger] flatten_all(parts),
    decreases xs@.len(),
{
    if xs.len() == 0 {
        let r: Vec<U> = Vec::new();
        proof {
            let parts = Seq::<Vec<U>>::empty();
            assert(r@ =~= flatten_all(parts));
        }
        r
    } else {
        let (head, tail) = head_tail(xs);
        let first = pred(head);
        let rest = collect(&tail, pred);
        let r = append(&first, &rest);
        proof {
            let parts_rest = choose|parts: Seq<Vec<U>>|
                parts.len() == tail@.len() && (forall|i: int|
                    0 <= i < tail@.len() ==> call_ensures(*pred, (tail@[i],), #[trigger] parts[i]))
                    && rest@ == #[trigger] flatten_all(parts);
            let parts = seq![first] + parts_rest;
            assert(parts.drop_first() =~= parts_rest);
            assert forall|i: int| 0 <= i < xs@.len() implies call_ensures(
                *pred,
                (xs@[i],),
                #[trigger] parts[i],
            ) by {
                if i > 0 {
                    assert(call_ensures(*pred, (tail@[i - 1],), parts_rest[i - 1]));
                }
            }
            assert(r@ =~= flatten_all(parts));
        }
        r
    }
}

/// Elements of `s` whose flag in `bs` equals `keep`, in order.
pub open spec fn keep_where<T>(s: Seq<T>, bs: Seq<bool>, keep: bool) -> Seq<T>
    recommends
        s.len() == bs.len(),
    decreases s.len(),
{
    if s.len() == 0 {
        Seq::empty()
    } else {
        let rest = keep_where(s.drop_first(), bs.drop_first(), keep);
        if bs[0] == keep {
            seq![s[0]] + rest
        } else {
            rest
        }
    }
}

/// Splits the elements into those reported true by the predicate and those
/// reported false, both in their original order.
pub fn partition<T: Copy, F: Fn(T) -> bool>(xs: &Vec<T>, pred: &F) -> (r: (Vec<T>, Vec<T>))
    requires
        forall|i: int| 0 <= i < xs@.len() ==> call_requires(*pred, (xs@[i],)),
    ensures
        exists|bs: Seq<bool>|
            bs.len() == xs@.len() && (forall|i: int|
                0 <= i < xs@.len() ==> call_ensures(*pred, (xs@[i],), #[trigger] bs[i])) && r.0@
                == #[trigger] keep_where(xs@, bs, true) && r.1@ == keep_where(xs@, bs, false),
    decreases xs@.len(),
{
    if xs.len() == 0 {
        let r: (Vec<T>, Vec<T>) = (Vec::new(), Vec::new());
        proof {
            let bs = Seq::<bool>::empty();
            assert(r.0@ =~= keep_where(xs@, bs, true));
            assert(r.1@ =~= keep_where(xs@, bs, false));
        }
        r
    } else {
        let (head, tail) = head_tail(xs);
        let t_f = partition(&tail, pred);
        let b = pred(head);
        let r = if b {
            (cons(head, &t_f.0), t_f.1)
        } else {
            (t_f.0, cons(head, &t_f.1))
        };
        proof {
            let bs_rest = choose|bs: Seq<bool>|
                bs.len() == tail@.len() && (forall|i: int|
                    0 <= i < tail@.len() ==> call_ensures(*pred, (tail@[i],), #[trigger] bs[i]))
                    && t_f.0@ == #[trigger] keep_where(tail@, bs, true) && t_f.1@ == keep_where(
                    tail@,
                    bs,
                    false,
                );
            let bs = seq![b] + bs_rest;
            assert(bs.drop_first() =~= bs_rest);
            assert(xs@.drop_first() =~= tail@);
            assert forall|i: int| 0 <= i < xs@.len() implies call_ensures(
                *pred,
                (xs@[i],),
                #[trigger] bs[i],
            ) by {
                if i > 0 {
                    assert(call_ensures(*pred, (tail@[i - 1],), bs_rest[i - 1]));
                }
            }
            assert(r.0@ =~= keep_where(xs@, bs, true));
            assert(r.1@ =~= keep_where(xs@, bs, false));
        }
        r
    }
}

/// Case split on emptiness: runs `empty_case` on an empty vector, otherwise
/// hands the head and a fresh tail to `not_empty_case`.
pub fn _match_empty_or<T: Copy, U, F1: Fn() -> U, F2: Fn(T, &Vec<T>) -> U>(
    xs: &Vec<T>,
    empty_case: &F1,
    not_empty_case: &F2,
) -> (r: U)
    requires
        xs@.len() == 0 ==> call_requires(*empty_case, ()),
        xs@.len() > 0 ==> (forall|t: Vec<T>|
            t@ == xs@.drop_first() ==> #[trigger] call_requires(*not_empty_case, (xs@[0], &t))),
    ensures
        xs@.len() == 0 ==> call_ensures(*empty_case, (), r),
        xs@.len() > 0 ==> (exists|t: Vec<T>|
            t@ == xs@.drop_first() && #[trigger] call_ensures(*not_empty_case, (xs@[0], &t), r)),
{
    if xs.len() == 0 {
        empty_case()
    } else {
        let (head, tail) = head_tail(xs);
        let r = not_empty_case(head, &tail);
        proof {
            assert(tail@ == xs@.drop_first() && call_ensures(*not_empty_case, (xs@[0], &tail), r));
        }
        r
    }
}

/// Case split on a single element: runs `single_case` on a one-element
/// vector, otherwise hands the head and a fresh tail to `multiple_case`.
/// The vector must not be empty.
pub fn _match_single_or<T: Copy, U, F1: Fn(T) -> U, F2: Fn(T, &Vec<T>) -> U>(
    xs: &Vec<T>,
    single_case: &F1,
    multiple_case: &F2,
) -> (r: U)
    requires
        xs@.len() >= 1,
        xs@.len() == 1 ==> call_requires(*single_case, (xs@[0],)),
        xs@.len() > 1 ==> (forall|t: Vec<T>|
            t@ == xs@.drop_first() ==> #[trigger] call_requires(*multiple_case, (xs@[0], &t))),
    ensures
        xs@.len() == 1 ==> call_ensures(*single_case, (xs@[0],), r),
        xs@.len() > 1 ==> (exists|t: Vec<T>|
            t@ == xs@.drop_first() && #[trigger] call_ensures(*multiple_case, (xs@[0], &t), r)),
{
    let len = xs.len();
    if len == 1 {
        single_case(xs[0])
    } else {
        let (head, tail) = head_tail(xs);
        let r = multiple_case(head, &tail);
        proof {
            assert(tail@ == xs@.drop_first() && call_ensures(*multiple_case, (xs@[0], &tail), r));
        }
        r
    }
}

} // verus!
