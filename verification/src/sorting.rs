//! Stable sorting.
use vstd::prelude::*;

verus! {

/// A total preorder, with a way to compute it.
pub trait Ordered: Sized {
    /// Whether `self` may stand before `other`.
    spec fn before(self, other: Self) -> bool;

    proof fn lemma_reflexive(a: Self)
        ensures
            a.before(a),
    ;

    proof fn lemma_total(a: Self, b: Self)
        ensures
            a.before(b) || b.before(a),
    ;

    proof fn lemma_transitive(a: Self, b: Self, c: Self)
        requires
            a.before(b),
            b.before(c),
        ensures
            a.before(c),
    ;

    /// Whether `self` may stand before `other`.
    fn is_before(&self, other: &Self) -> (r: bool)
        ensures
            r == self.before(*other),
    ;
}

/// Whether two values may stand in either order.
pub open spec fn tied<T: Ordered>(a: T, b: T) -> bool {
    a.before(b) && b.before(a)
}

/// The values of `s` that tie with `x`, in their order.
pub open spec fn ties<T: Ordered>(s: Seq<T>, x: T) -> Seq<T>
    decreases s.len(),
{
    if s.len() == 0 {
        Seq::empty()
    } else {
        let rest = ties(s.drop_last(), x);
        if tied(s.last(), x) {
            rest.push(s.last())
        } else {
            rest
        }
    }
}

pub open spec fn is_sorted<T: Ordered>(s: Seq<T>) -> bool {
    forall|i: int, j: int| 0 <= i <= j < s.len() ==> (#[trigger] s[i]).before(#[trigger] s[j])
}

/// Whether `out` is `s` in order, with values that tie left in theirs. There
/// is exactly one such sequence.
pub open spec fn is_stable_sort<T: Ordered>(s: Seq<T>, out: Seq<T>) -> bool {
    &&& is_sorted(out)
    &&& forall|x: T| #[trigger] ties(out, x) == ties(s, x)
    &&& out.to_multiset() == s.to_multiset()
}

pub proof fn lemma_ties_add<T: Ordered>(a: Seq<T>, b: Seq<T>, x: T)
    ensures
        ties(a + b, x) == ties(a, x) + ties(b, x),
    decreases b.len(),
{
    if b.len() == 0 {
        assert(a + b =~= a);
        assert(ties(a, x) + ties(b, x) =~= ties(a, x));
    } else {
        assert((a + b).drop_last() =~= a + b.drop_last());
        lemma_ties_add(a, b.drop_last(), x);
        assert(ties(a + b, x) =~= ties(a, x) + ties(b, x));
    }
}

proof fn lemma_ties_none<T: Ordered>(s: Seq<T>, x: T)
    requires
        forall|i: int| 0 <= i < s.len() ==> !tied(#[trigger] s[i], x),
    ensures
        ties(s, x) == Seq::<T>::empty(),
    decreases s.len(),
{
    if s.len() > 0 {
        assert forall|i: int| 0 <= i < s.drop_last().len() implies !tied(
            #[trigger] s.drop_last()[i],
            x,
        ) by {
            assert(s.drop_last()[i] == s[i]);
        }
        lemma_ties_none(s.drop_last(), x);
    }
}

proof fn lemma_ties_one<T: Ordered>(y: T, x: T)
    ensures
        ties(seq![y], x) == if tied(y, x) {
            seq![y]
        } else {
            Seq::empty()
        },
{
    assert(seq![y].drop_last() =~= Seq::<T>::empty());
    assert(ties(Seq::<T>::empty(), x) =~= Seq::<T>::empty());
    assert(Seq::<T>::empty().push(y) =~= seq![y]);
}

/// A merge under way: what is left of both lists, and the greatest values of
/// both in `back`, the greatest first.
spec fn merging<T: Ordered>(input: Seq<T>, left: Seq<T>, right: Seq<T>, back: Seq<T>) -> bool {
    let rest = left + right + back.reverse();
    &&& is_sorted(left)
    &&& is_sorted(right)
    &&& is_sorted(back.reverse())
    &&& forall|i: int, j: int|
        0 <= i < left.len() && 0 <= j < back.len() ==> (#[trigger] left[i]).before(
            #[trigger] back[j],
        )
    &&& forall|i: int, j: int|
        0 <= i < right.len() && 0 <= j < back.len() ==> (#[trigger] right[i]).before(
            #[trigger] back[j],
        )
    &&& forall|x: T| #[trigger] ties(rest, x) == ties(input, x)
    &&& rest.to_multiset() == input.to_multiset()
    &&& rest.len() == input.len()
}

proof fn lemma_take_right<T: Ordered>(input: Seq<T>, l: Seq<T>, r: Seq<T>, k: Seq<T>)
    requires
        merging(input, l, r, k),
        l.len() > 0,
        r.len() > 0,
        l.last().before(r.last()),
    ensures
        merging(input, l, r.drop_last(), k.push(r.last())),
{
    let value = r.last();
    let right = r.drop_last();
    let back = k.push(value);
    assert(back.reverse() =~= seq![value] + k.reverse());
    assert(l + right + back.reverse() =~= l + r + k.reverse());
    lemma_push_front(k, value);
    assert forall|i: int, j: int| 0 <= i < l.len() && 0 <= j < back.len() implies (
    #[trigger] l[i]).before(#[trigger] back[j]) by {
        if j == k.len() {
            T::lemma_transitive(l[i], l.last(), value);
        }
    }
    assert forall|i: int, j: int| 0 <= i < right.len() && 0 <= j < back.len() implies (
    #[trigger] right[i]).before(#[trigger] back[j]) by {
        assert(right[i] == r[i]);
        if j == k.len() {
            assert(r[i].before(r[r.len() - 1]));
        }
    }
}

proof fn lemma_take_left<T: Ordered>(input: Seq<T>, l: Seq<T>, r: Seq<T>, k: Seq<T>)
    requires
        merging(input, l, r, k),
        l.len() > 0,
        r.len() > 0,
        !l.last().before(r.last()),
    ensures
        merging(input, l.drop_last(), r, k.push(l.last())),
{
    let value = l.last();
    let left = l.drop_last();
    let back = k.push(value);
    assert(back.reverse() =~= seq![value] + k.reverse());
    T::lemma_total(value, r.last());
    lemma_push_front(k, value);
    assert(l + r + k.reverse() =~= left + (seq![value] + r) + k.reverse());
    assert(left + r + back.reverse() =~= left + (r + seq![value]) + k.reverse());
    assert forall|x: T| #[trigger] ties(left + r + back.reverse(), x) == ties(input, x) by {
        assert forall|i: int| 0 <= i < r.len() implies !value.before(#[trigger] r[i]) by {
            if value.before(r[i]) {
                T::lemma_transitive(value, r[i], r.last());
            }
        }
        lemma_ties_shift(left, value, r, k.reverse(), x);
        assert(ties(l + r + k.reverse(), x) == ties(input, x));
    }
    lemma_multiset_shift(left, value, r, k.reverse());
    assert forall|i: int, j: int| 0 <= i < left.len() && 0 <= j < back.len() implies (
    #[trigger] left[i]).before(#[trigger] back[j]) by {
        assert(left[i] == l[i]);
        if j == k.len() {
            assert(l[i].before(l[l.len() - 1]));
        }
    }
    assert forall|i: int, j: int| 0 <= i < r.len() && 0 <= j < back.len() implies (
    #[trigger] r[i]).before(#[trigger] back[j]) by {
        if j == k.len() {
            T::lemma_transitive(r[i], r.last(), value);
        }
    }
}

/// A merge ends when one of the lists is used up.
proof fn lemma_merged<T: Ordered>(input: Seq<T>, l: Seq<T>, r: Seq<T>, k: Seq<T>)
    requires
        merging(input, l, r, k),
        l.len() == 0 || r.len() == 0,
    ensures
        is_stable_sort(input, l + r + k.reverse()),
{
    let rest = l + r;
    let tail = k.reverse();
    let out = l + r + k.reverse();
    if l.len() == 0 {
        assert(rest =~= r);
    } else {
        assert(rest =~= l);
    }
    assert forall|i: int, j: int| 0 <= i <= j < out.len() implies (#[trigger] out[i]).before(
        #[trigger] out[j],
    ) by {
        if j < rest.len() {
            assert(out[i] == rest[i] && out[j] == rest[j]);
        } else if i < rest.len() {
            assert(out[i] == rest[i]);
            assert(out[j] == k[k.len() - 1 - (j - rest.len())]);
        } else {
            assert(out[i] == tail[i - rest.len()] && out[j] == tail[j - rest.len()]);
        }
    }
}

/// Merge two sorted lists. They are used up from their ends.
fn merge<T: Ordered>(a: Vec<T>, b: Vec<T>) -> (r: Vec<T>)
    requires
        is_sorted(a@),
        is_sorted(b@),
    ensures
        is_stable_sort(a@ + b@, r@),
        r@.len() == a@.len() + b@.len(),
{
    let ghost input = a@ + b@;
    let mut left = a;
    let mut right = b;
    let mut back: Vec<T> = Vec::new();
    assert(left@ + right@ + back@.reverse() =~= input);
    while left.len() > 0 && right.len() > 0
        invariant
            merging(input, left@, right@, back@),
        decreases left@.len() + right@.len(),
    {
        let ghost l = left@;
        let ghost r = right@;
        let ghost k = back@;
        let ln: usize = left.len();
        let rn: usize = right.len();
        if left[ln - 1].is_before(&right[rn - 1]) {
            proof {
                lemma_take_right(input, l, r, k);
            }
            let value = right.pop().unwrap();
            back.push(value);
            assert(right@ =~= r.drop_last());
        } else {
            proof {
                lemma_take_left(input, l, r, k);
            }
            let value = left.pop().unwrap();
            back.push(value);
            assert(left@ =~= l.drop_last());
        }
    }
    proof {
        lemma_merged(input, left@, right@, back@);
    }
    let ghost out = left@ + right@ + back@.reverse();
    left.append(&mut right);
    while back.len() > 0
        invariant
            left@ + back@.reverse() =~= out,
        decreases back@.len(),
    {
        let ghost k = back@;
        let value = back.pop().unwrap();
        assert(k.reverse() =~= seq![value] + back@.reverse());
        left.push(value);
    }
    assert(left@ =~= out);
    left
}

proof fn lemma_push_front<T: Ordered>(k: Seq<T>, value: T)
    requires
        is_sorted(k.reverse()),
        forall|j: int| 0 <= j < k.len() ==> value.before(#[trigger] k[j]),
    ensures
        is_sorted(k.push(value).reverse()),
{
    let s = k.push(value).reverse();
    assert(s =~= seq![value] + k.reverse());
    assert forall|i: int, j: int| 0 <= i <= j < s.len() implies (#[trigger] s[i]).before(
        #[trigger] s[j],
    ) by {
        if i == 0 && j == 0 {
            T::lemma_reflexive(value);
        } else if i == 0 {
            assert(s[j] == k[k.len() - j]);
        } else {
            assert(s[i] == k.reverse()[i - 1]);
            assert(s[j] == k.reverse()[j - 1]);
        }
    }
}

proof fn lemma_ties_shift<T: Ordered>(a: Seq<T>, value: T, r: Seq<T>, c: Seq<T>, x: T)
    requires
        forall|i: int| 0 <= i < r.len() ==> !value.before(#[trigger] r[i]),
    ensures
        ties(a + (seq![value] + r) + c, x) == ties(a + (r + seq![value]) + c, x),
{
    lemma_ties_add(a + (seq![value] + r), c, x);
    lemma_ties_add(a + (r + seq![value]), c, x);
    lemma_ties_add(a, seq![value] + r, x);
    lemma_ties_add(a, r + seq![value], x);
    lemma_ties_add(seq![value], r, x);
    lemma_ties_add(r, seq![value], x);
    lemma_ties_one(value, x);
    if tied(value, x) {
        assert forall|i: int| 0 <= i < r.len() implies !tied(#[trigger] r[i], x) by {
            if tied(r[i], x) {
                T::lemma_transitive(value, x, r[i]);
            }
        }
        lemma_ties_none(r, x);
        assert(ties(r, x) + seq![value] =~= seq![value] + ties(r, x));
    } else {
        assert(ties(r, x) + Seq::<T>::empty() =~= Seq::<T>::empty() + ties(r, x));
    }
}

proof fn lemma_multiset_shift<T>(a: Seq<T>, value: T, r: Seq<T>, c: Seq<T>)
    ensures
        (a + (seq![value] + r) + c).to_multiset() == (a + (r + seq![value]) + c).to_multiset(),
{
    vstd::seq_lib::lemma_multiset_commutative(seq![value], r);
    vstd::seq_lib::lemma_multiset_commutative(r, seq![value]);
    vstd::seq_lib::lemma_multiset_commutative(a, seq![value] + r);
    vstd::seq_lib::lemma_multiset_commutative(a, r + seq![value]);
    vstd::seq_lib::lemma_multiset_commutative(a + (seq![value] + r), c);
    vstd::seq_lib::lemma_multiset_commutative(a + (r + seq![value]), c);
    assert(seq![value].to_multiset().add(r.to_multiset()) =~= r.to_multiset().add(
        seq![value].to_multiset(),
    ));
}

/// Sort a list. Values that tie keep their order.
pub fn stable_sort<T: Ordered>(items: Vec<T>) -> (r: Vec<T>)
    ensures
        is_stable_sort(items@, r@),
        r@.len() == items@.len(),
    decreases items@.len(),
{
    let n: usize = items.len();
    if n <= 1 {
        assert forall|i: int, j: int| 0 <= i <= j < items@.len() implies (
        #[trigger] items@[i]).before(#[trigger] items@[j]) by {
            T::lemma_reflexive(items@[i]);
        }
        return items;
    }
    let ghost all = items@;
    let half: usize = n / 2;
    let mut first = items;
    let second = first.split_off(half);
    let ghost a = first@;
    let ghost b = second@;
    proof {
        assert(all =~= a + b);
    }
    let left = stable_sort(first);
    let right = stable_sort(second);
    let out = merge(left, right);
    proof {
        assert forall|x: T| #[trigger] ties(out@, x) == ties(all, x) by {
            lemma_ties_add(a, b, x);
            lemma_ties_add(left@, right@, x);
            assert(ties(left@, x) == ties(a, x));
            assert(ties(right@, x) == ties(b, x));
            assert(ties(left@ + right@, x) == ties(all, x));
        }
        vstd::seq_lib::lemma_multiset_commutative(a, b);
        vstd::seq_lib::lemma_multiset_commutative(left@, right@);
    }
    out
}

} // verus!
