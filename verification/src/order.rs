//! One order for everything that is shown sorted: keys are sequences of
//! integers, compared from the front, and sorting keeps the order of equals.

use vstd::prelude::*;

use crate::text::to_chars;

verus! {

/// `a` comes no later than `b`, compared number by number from the front; a
/// sequence comes before its own continuations.
pub open spec fn lex_le(a: Seq<int>, b: Seq<int>) -> bool
    decreases a.len(),
{
    if a.len() == 0 {
        true
    } else if b.len() == 0 {
        false
    } else {
        a[0] < b[0] || (a[0] == b[0] && lex_le(a.skip(1), b.skip(1)))
    }
}

/// The order is total, and only equal sequences come no later than each other.
pub proof fn lemma_lex_total(a: Seq<int>, b: Seq<int>)
    ensures
        lex_le(a, a),
        lex_le(a, b) || lex_le(b, a),
        lex_le(a, b) && lex_le(b, a) ==> a == b,
    decreases a.len(),
{
    if a.len() > 0 {
        lemma_lex_total(a.skip(1), a.skip(1));
        if b.len() > 0 {
            lemma_lex_total(a.skip(1), b.skip(1));
            if lex_le(a, b) && lex_le(b, a) {
                assert(a =~= seq![a[0]] + a.skip(1));
                assert(b =~= seq![b[0]] + b.skip(1));
            }
        }
    } else if b.len() == 0 {
        assert(a =~= b);
    }
}

/// The order is transitive.
pub proof fn lemma_lex_transitive(a: Seq<int>, b: Seq<int>, c: Seq<int>)
    requires
        lex_le(a, b),
        lex_le(b, c),
    ensures
        lex_le(a, c),
    decreases a.len(),
{
    if a.len() > 0 && a[0] == b[0] && b[0] == c[0] {
        lemma_lex_transitive(a.skip(1), b.skip(1), c.skip(1));
    }
}

/// Keys of one number compare as the numbers do.
pub proof fn lemma_lex_single(a: int, b: int)
    ensures
        lex_le(seq![a], seq![b]) == (a <= b),
{
    assert(seq![a].skip(1) =~= Seq::<int>::empty());
    assert(lex_le(seq![a].skip(1), seq![b].skip(1)));
}

/// The code points of a text, as a key.
pub open spec fn codes(s: Seq<char>) -> Seq<int> {
    s.map_values(|c: char| c as int)
}

/// True when the text `a` comes no later than the text `b`.
pub fn text_at_most(a: &str, b: &str) -> (r: bool)
    ensures
        r == lex_le(codes(a@), codes(b@)),
{
    let x = to_chars(a);
    let y = to_chars(b);
    let mut i: usize = 0;
    assert(codes(a@).skip(0) =~= codes(a@));
    assert(codes(b@).skip(0) =~= codes(b@));
    loop
        invariant
            x@ == a@,
            y@ == b@,
            i <= x@.len(),
            i <= y@.len(),
            lex_le(codes(a@), codes(b@)) == lex_le(
                codes(a@).skip(i as int),
                codes(b@).skip(i as int),
            ),
        decreases x@.len() - i,
    {
        if i >= x.len() {
            return true;
        }
        if i >= y.len() {
            return false;
        }
        if x[i] != y[i] {
            return x[i] < y[i];
        }
        assert(codes(a@).skip(i as int).skip(1) =~= codes(a@).skip(i + 1));
        assert(codes(b@).skip(i as int).skip(1) =~= codes(b@).skip(i + 1));
        i = i + 1;
    }
}

/// True when the bytes `a` come no later than the bytes `b`.
pub fn bytes_at_most(a: &Vec<u8>, b: &Vec<u8>) -> (r: bool)
    ensures
        r == lex_le(byte_key(a@), byte_key(b@)),
{
    let mut i: usize = 0;
    assert(byte_key(a@).skip(0) =~= byte_key(a@));
    assert(byte_key(b@).skip(0) =~= byte_key(b@));
    loop
        invariant
            i <= a@.len(),
            i <= b@.len(),
            lex_le(byte_key(a@), byte_key(b@)) == lex_le(
                byte_key(a@).skip(i as int),
                byte_key(b@).skip(i as int),
            ),
        decreases a@.len() - i,
    {
        if i >= a.len() {
            return true;
        }
        if i >= b.len() {
            return false;
        }
        if a[i] != b[i] {
            return a[i] < b[i];
        }
        assert(byte_key(a@).skip(i as int).skip(1) =~= byte_key(a@).skip(i + 1));
        assert(byte_key(b@).skip(i as int).skip(1) =~= byte_key(b@).skip(i + 1));
        i = i + 1;
    }
}

/// Bytes, as a key.
pub open spec fn byte_key(s: Seq<u8>) -> Seq<int> {
    s.map_values(|b: u8| b as int)
}

// ---- sorting ----

/// What can be sorted: a value with a key.
pub trait Keyed: Sized {
    /// What the value is sorted by.
    spec fn key(&self) -> Seq<int>;

    /// True when `self` may stand in front of `other`.
    fn at_most(&self, other: &Self) -> (r: bool)
        ensures
            r == lex_le(self.key(), other.key()),
    ;
}

/// `x` put into a sorted sequence, behind everything that comes no later.
pub open spec fn place<T: Keyed>(s: Seq<T>, x: T) -> Seq<T>
    decreases s.len(),
{
    if s.len() == 0 || lex_le(s.last().key(), x.key()) {
        s.push(x)
    } else {
        place(s.drop_last(), x).push(s.last())
    }
}

/// `s` sorted by key, equals in the order they had.
pub open spec fn stable_sorted<T: Keyed>(s: Seq<T>) -> Seq<T>
    decreases s.len(),
{
    if s.len() == 0 {
        s
    } else {
        place(stable_sorted(s.drop_last()), s.last())
    }
}

/// No value has a smaller key than one in front of it.
pub open spec fn is_sorted<T: Keyed>(s: Seq<T>) -> bool {
    forall|i: int, j: int|
        0 <= i < j < s.len() ==> lex_le((#[trigger] s[i]).key(), (#[trigger] s[j]).key())
}

/// The values of `s` with the key `k`, in order.
pub open spec fn with_key<T: Keyed>(s: Seq<T>, k: Seq<int>) -> Seq<T> {
    s.filter(|y: T| y.key() == k)
}

proof fn lemma_place_bound<T: Keyed>(s: Seq<T>, x: T, bound: Seq<int>)
    requires
        forall|i: int| 0 <= i < s.len() ==> lex_le((#[trigger] s[i]).key(), bound),
        lex_le(x.key(), bound),
    ensures
        place(s, x).len() == s.len() + 1,
        forall|i: int|
            0 <= i < place(s, x).len() ==> lex_le((#[trigger] place(s, x)[i]).key(), bound),
    decreases s.len(),
{
    if !(s.len() == 0 || lex_le(s.last().key(), x.key())) {
        lemma_place_bound(s.drop_last(), x, bound);
    }
}

proof fn lemma_place_sorted<T: Keyed>(s: Seq<T>, x: T)
    requires
        is_sorted(s),
    ensures
        is_sorted(place(s, x)),
    decreases s.len(),
{
    if s.len() == 0 || lex_le(s.last().key(), x.key()) {
        assert forall|i: int| 0 <= i < s.len() implies lex_le(
            (#[trigger] s[i]).key(),
            x.key(),
        ) by {
            lemma_lex_total(s[i].key(), s[i].key());
            if i < s.len() - 1 {
                lemma_lex_transitive(s[i].key(), s.last().key(), x.key());
            }
        }
    } else {
        let d = s.drop_last();
        lemma_place_sorted(d, x);
        lemma_lex_total(s.last().key(), x.key());
        assert forall|i: int| 0 <= i < d.len() implies lex_le(
            (#[trigger] d[i]).key(),
            s.last().key(),
        ) by {
            assert(d[i] == s[i]);
        }
        lemma_place_bound(d, x, s.last().key());
    }
}

proof fn lemma_with_key_push<T: Keyed>(s: Seq<T>, x: T, k: Seq<int>)
    ensures
        with_key(s.push(x), k) == if x.key() == k {
            with_key(s, k).push(x)
        } else {
            with_key(s, k)
        },
{
    reveal(Seq::filter);
    assert(s.push(x).drop_last() =~= s);
}

proof fn lemma_place_class<T: Keyed>(s: Seq<T>, x: T, k: Seq<int>)
    ensures
        with_key(place(s, x), k) == with_key(s.push(x), k),
    decreases s.len(),
{
    if !(s.len() == 0 || lex_le(s.last().key(), x.key())) {
        let d = s.drop_last();
        lemma_place_class(d, x, k);
        lemma_lex_total(x.key(), x.key());
        lemma_with_key_push(place(d, x), s.last(), k);
        lemma_with_key_push(d, x, k);
        lemma_with_key_push(d, s.last(), k);
        lemma_with_key_push(s, x, k);
        assert(d.push(s.last()) =~= s);
    }
}

/// Sorting puts the keys in order and moves nothing past its equals: the values
/// with any one key come out as they stood.
pub proof fn lemma_stable_sorted<T: Keyed>(s: Seq<T>)
    ensures
        stable_sorted(s).len() == s.len(),
        is_sorted(stable_sorted(s)),
        forall|k: Seq<int>|
            #![trigger with_key(stable_sorted(s), k)]
            with_key(stable_sorted(s), k) == with_key(s, k),
    decreases s.len(),
{
    if s.len() > 0 {
        let d = stable_sorted(s.drop_last());
        lemma_stable_sorted(s.drop_last());
        lemma_place_sorted(d, s.last());
        lemma_place_len(d, s.last());
        assert forall|k: Seq<int>|
            #![trigger with_key(stable_sorted(s), k)]
            with_key(stable_sorted(s), k) == with_key(s, k) by {
            lemma_place_class(d, s.last(), k);
            lemma_with_key_push(d, s.last(), k);
            lemma_with_key_push(s.drop_last(), s.last(), k);
            assert(s.drop_last().push(s.last()) =~= s);
            assert(with_key(d, k) == with_key(s.drop_last(), k));
        }
    }
}

proof fn lemma_place_len<T: Keyed>(s: Seq<T>, x: T)
    ensures
        place(s, x).len() == s.len() + 1,
    decreases s.len(),
{
    if !(s.len() == 0 || lex_le(s.last().key(), x.key())) {
        lemma_place_len(s.drop_last(), x);
    }
}

/// The values with one key are those that pass any test for that key.
pub proof fn lemma_with_key_is_filter<T: Keyed>(s: Seq<T>, k: Seq<int>, q: spec_fn(T) -> bool)
    requires
        forall|x: T| #[trigger] q(x) == (x.key() == k),
    ensures
        with_key(s, k) == s.filter(q),
    decreases s.len(),
{
    reveal(Seq::filter);
    if s.len() > 0 {
        lemma_with_key_is_filter(s.drop_last(), k, q);
        lemma_with_key_push(s.drop_last(), s.last(), k);
        assert(s.drop_last().push(s.last()) =~= s);
        assert(q(s.last()) == (s.last().key() == k));
    }
}

/// Sorting keeps every value, whatever is looked at in the values.
pub proof fn lemma_sorted_same_images<T: Keyed, U>(s: Seq<T>, f: spec_fn(T) -> U)
    ensures
        stable_sorted(s).map_values(f).to_multiset() == s.map_values(f).to_multiset(),
    decreases s.len(),
{
    broadcast use vstd::seq_lib::group_to_multiset_ensures;

    if s.len() > 0 {
        let d = stable_sorted(s.drop_last());
        lemma_sorted_same_images(s.drop_last(), f);
        lemma_place_same_images(d, s.last(), f);
        assert(d.push(s.last()).map_values(f) =~= d.map_values(f).push(f(s.last())));
        assert(s.map_values(f) =~= s.drop_last().map_values(f).push(f(s.last())));
    }
}

proof fn lemma_place_same_images<T: Keyed, U>(s: Seq<T>, x: T, f: spec_fn(T) -> U)
    ensures
        place(s, x).map_values(f).to_multiset() == s.push(x).map_values(f).to_multiset(),
    decreases s.len(),
{
    broadcast use vstd::seq_lib::group_to_multiset_ensures;

    if !(s.len() == 0 || lex_le(s.last().key(), x.key())) {
        let d = s.drop_last();
        lemma_place_same_images(d, x, f);
        assert(place(s, x).map_values(f) =~= place(d, x).map_values(f).push(f(s.last())));
        assert(d.push(x).map_values(f) =~= d.map_values(f).push(f(x)));
        assert(s.map_values(f) =~= d.map_values(f).push(f(s.last())));
        assert(s.push(x).map_values(f) =~= s.map_values(f).push(f(x)));
    }
}

/// Sorting keeps every value: what `s` holds, `stable_sorted(s)` holds as often.
pub proof fn lemma_sorted_same_values<T: Keyed>(s: Seq<T>)
    ensures
        stable_sorted(s).to_multiset() == s.to_multiset(),
    decreases s.len(),
{
    broadcast use vstd::seq_lib::group_to_multiset_ensures;

    if s.len() > 0 {
        lemma_sorted_same_values(s.drop_last());
        lemma_place_same_values(stable_sorted(s.drop_last()), s.last());
        assert(s.drop_last().push(s.last()) =~= s);
    }
}

proof fn lemma_place_same_values<T: Keyed>(s: Seq<T>, x: T)
    ensures
        place(s, x).to_multiset() == s.push(x).to_multiset(),
    decreases s.len(),
{
    broadcast use vstd::seq_lib::group_to_multiset_ensures;

    if !(s.len() == 0 || lex_le(s.last().key(), x.key())) {
        let d = s.drop_last();
        lemma_place_same_values(d, x);
        assert(d.push(s.last()) =~= s);
        assert(place(s, x).to_multiset() =~= s.push(x).to_multiset());
    }
}

fn put<T: Keyed>(v: &mut Vec<T>, x: T)
    ensures
        final(v)@ == place(old(v)@, x),
{
    let mut at: usize = v.len();
    let ghost start = v@;
    assert(start.skip(start.len() as int) =~= Seq::<T>::empty());
    assert(start.take(start.len() as int) =~= start);
    assert(place(start, x) + Seq::<T>::empty() =~= place(start, x));
    while at > 0 && !v[at - 1].at_most(&x)
        invariant
            v@ == start,
            at <= start.len(),
            place(start, x) == place(start.take(at as int), x) + start.skip(at as int),
        decreases at,
    {
        let ghost front = start.take(at as int);
        assert(front.drop_last() =~= start.take(at - 1));
        assert(place(front.drop_last(), x).push(front.last()) + start.skip(at as int) =~= place(
            front.drop_last(),
            x,
        ) + start.skip(at - 1));
        at = at - 1;
    }
    assert(start.take(at as int).push(x) + start.skip(at as int) =~= start.insert(at as int, x));
    v.insert(at, x);
}

/// Sorts by key; equals keep their order.
pub fn stable_sort<T: Keyed>(v: Vec<T>) -> (r: Vec<T>)
    ensures
        r@ == stable_sorted(v@),
{
    let mut out: Vec<T> = Vec::new();
    let ghost all = v@;
    assert(all.take(0) =~= Seq::<T>::empty());
    for x in it: v
        invariant
            it.seq() == all,
            out@ == stable_sorted(all.take(it.index() as int)),
    {
        assert(all.take(it.index() + 1).drop_last() =~= all.take(it.index() as int));
        put(&mut out, x);
    }
    assert(all.take(all.len() as int) =~= all);
    out
}

// ---- the first of several ----

/// The position of the first value that `p` holds of.
pub open spec fn first_such<A>(s: Seq<A>, p: spec_fn(A) -> bool) -> Option<int>
    decreases s.len(),
{
    if s.len() == 0 {
        None
    } else {
        match first_such(s.drop_last(), p) {
            Some(i) => Some(i),
            None => if p(s.last()) {
                Some(s.len() - 1)
            } else {
                None
            },
        }
    }
}

/// It is the first indeed: `p` holds there and nowhere before, and where there is
/// none `p` holds nowhere.
pub proof fn lemma_first_such<A>(s: Seq<A>, p: spec_fn(A) -> bool)
    ensures
        match first_such(s, p) {
            Some(i) => 0 <= i < s.len() && p(s[i]) && forall|j: int| 0 <= j < i ==> !p(
                #[trigger] s[j],
            ),
            None => forall|j: int| 0 <= j < s.len() ==> !p(#[trigger] s[j]),
        },
    decreases s.len(),
{
    if s.len() > 0 {
        let d = s.drop_last();
        lemma_first_such(d, p);
        match first_such(d, p) {
            Some(i) => {
                assert(s[i] == d[i]);
                assert forall|j: int| 0 <= j < i implies !p(#[trigger] s[j]) by {
                    assert(d[j] == s[j]);
                }
            },
            None => {
                assert forall|j: int| 0 <= j < s.len() - 1 implies !p(#[trigger] s[j]) by {
                    assert(d[j] == s[j]);
                }
            },
        }
    }
}

/// A position that qualifies is the one that is meant.
pub proof fn lemma_is_first<A>(s: Seq<A>, p: spec_fn(A) -> bool, i: int)
    requires
        0 <= i < s.len(),
        p(s[i]),
        forall|j: int| 0 <= j < i ==> !p(#[trigger] s[j]),
    ensures
        first_such(s, p) == Some(i),
{
    lemma_first_such(s, p);
    match first_such(s, p) {
        Some(k) => {
            assert(p(s[k]));
            if k < i {
                assert(!p(s[k]));
            }
        },
        None => {
            assert(!p(s[i]));
        },
    }
}

} // verus!
