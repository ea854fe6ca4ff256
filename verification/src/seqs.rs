//! Small facts about sequences that the other modules share.
use vstd::prelude::*;

verus! {

/// The views of the elements of `s`, in order.
pub open spec fn views<T: View>(s: Seq<T>) -> Seq<T::V> {
    Seq::new(s.len(), |i: int| s[i]@)
}

/// The concatenation of all sequences in `parts`, in order.
pub open spec fn concat_all<A>(parts: Seq<Seq<A>>) -> Seq<A>
    decreases parts.len(),
{
    if parts.len() == 0 {
        Seq::empty()
    } else {
        concat_all(parts.drop_last()) + parts.last()
    }
}

/// Number of elements before the first occurrence of `x` at or after `from`,
/// counted from `from`; up to the end of `s` when there is none.
pub open spec fn run_to<A>(s: Seq<A>, x: A, from: int) -> nat
    decreases s.len() - from,
{
    if from < 0 || from >= s.len() || s[from] == x {
        0
    } else {
        1 + run_to(s, x, from + 1)
    }
}

/// Index of the first occurrence of `x` in `s`, or the length of `s` when
/// `x` does not occur.
pub open spec fn position<A>(s: Seq<A>, x: A) -> int {
    run_to(s, x, 0) as int
}

/// `s` with `x` added at the end unless it already occurs.
pub open spec fn insert_unique<A>(s: Seq<A>, x: A) -> Seq<A> {
    if s.contains(x) {
        s
    } else {
        s.push(x)
    }
}

/// The distinct elements of `s`, each at the place of its first occurrence.
pub open spec fn distinct<A>(s: Seq<A>) -> Seq<A>
    decreases s.len(),
{
    if s.len() == 0 {
        Seq::empty()
    } else {
        insert_unique(distinct(s.drop_last()), s.last())
    }
}

/// The views after one more element.
pub proof fn lemma_views_push<T: View>(s: Seq<T>, x: T)
    ensures
        views(s.push(x)) == views(s).push(x@),
{
    assert(views(s.push(x)) =~= views(s).push(x@));
}

/// The views of a concatenation.
pub proof fn lemma_views_add<T: View>(a: Seq<T>, b: Seq<T>)
    ensures
        views(a + b) == views(a) + views(b),
{
    assert(views(a + b) =~= views(a) + views(b));
}

/// One more part adds its elements at the end.
pub proof fn lemma_concat_all_step<A>(parts: Seq<Seq<A>>, i: int)
    requires
        0 <= i < parts.len(),
    ensures
        concat_all(parts.take(i + 1)) == concat_all(parts.take(i)) + parts[i],
{
    assert(parts.take(i + 1).drop_last() == parts.take(i));
}

/// A run ends inside the sequence, at `x` or at the end, with no `x` before.
pub proof fn lemma_run_to_bounds<A>(s: Seq<A>, x: A, from: int)
    requires
        0 <= from <= s.len(),
    ensures
        from + run_to(s, x, from) <= s.len(),
        from + run_to(s, x, from) < s.len() ==> s[from + run_to(s, x, from)] == x,
        forall|i: int| from <= i < from + run_to(s, x, from) ==> s[i] != x,
    decreases s.len() - from,
{
    if from < s.len() && s[from] != x {
        lemma_run_to_bounds(s, x, from + 1);
    }
}

/// `position` finds the first occurrence exactly where the element occurs.
pub proof fn lemma_position<A>(s: Seq<A>, x: A)
    ensures
        0 <= position(s, x) <= s.len(),
        position(s, x) < s.len() <==> s.contains(x),
        position(s, x) < s.len() ==> s[position(s, x)] == x,
        forall|i: int| 0 <= i < position(s, x) ==> s[i] != x,
{
    lemma_run_to_bounds(s, x, 0);
    if s.contains(x) {
        let i = choose|i: int| 0 <= i < s.len() && s[i] == x;
        assert(position(s, x) <= i);
    }
}

/// `insert_unique` keeps a sequence free of duplicates, holds `x`, keeps what
/// was there and adds nothing else.
pub proof fn lemma_insert_unique_no_duplicates<A>(s: Seq<A>, x: A)
    requires
        s.no_duplicates(),
    ensures
        insert_unique(s, x).no_duplicates(),
        insert_unique(s, x).contains(x),
        forall|y: A| s.contains(y) ==> insert_unique(s, x).contains(y),
        forall|y: A| insert_unique(s, x).contains(y) ==> s.contains(y) || y == x,
{
    if !s.contains(x) {
        let t = s.push(x);
        assert(t[s.len() as int] == x);
        assert forall|y: A| s.contains(y) implies t.contains(y) by {
            let i = choose|i: int| 0 <= i < s.len() && s[i] == y;
            assert(t[i] == y);
        }
    }
}

/// `distinct` keeps every element of `s` once and adds none.
pub proof fn lemma_distinct<A>(s: Seq<A>)
    ensures
        distinct(s).no_duplicates(),
        forall|y: A| s.contains(y) <==> distinct(s).contains(y),
    decreases s.len(),
{
    if s.len() > 0 {
        let head = s.drop_last();
        lemma_distinct(head);
        lemma_insert_unique_no_duplicates(distinct(head), s.last());
        assert forall|y: A| s.contains(y) implies distinct(s).contains(y) by {
            let i = choose|i: int| 0 <= i < s.len() && s[i] == y;
            if i < s.len() - 1 {
                assert(head[i] == y);
                assert(head.contains(y));
                assert(distinct(head).contains(y));
            } else {
                assert(y == s.last());
            }
        }
        assert forall|y: A| distinct(s).contains(y) implies s.contains(y) by {
            if distinct(head).contains(y) {
                assert(head.contains(y));
                let i = choose|i: int| 0 <= i < head.len() && head[i] == y;
                assert(s[i] == y);
            } else {
                assert(s[s.len() - 1] == y);
            }
        }
    }
}

/// An index is the position of `x` where `x` stands there and nowhere
/// before; the length is, where `x` stands nowhere.
pub proof fn lemma_position_is<A>(s: Seq<A>, x: A, p: int)
    requires
        0 <= p <= s.len(),
        p < s.len() ==> s[p] == x,
        forall|i: int| 0 <= i < p ==> s[i] != x,
    ensures
        position(s, x) == p,
{
    lemma_position(s, x);
    let q = position(s, x);
    if q < p {
        assert(s[q] == x);
    }
    if p < q {
        assert(s[p] == x);
    }
}

/// The position of an element after one more element was added at the end.
pub proof fn lemma_position_push<A>(s: Seq<A>, y: A, x: A)
    ensures
        position(s.push(y), x) == if s.contains(x) {
            position(s, x)
        } else if y == x {
            s.len() as int
        } else {
            s.len() as int + 1
        },
{
    lemma_position(s, x);
    let t = s.push(y);
    let p = position(s, x);
    if s.contains(x) {
        assert(t[p] == x);
        assert forall|i: int| 0 <= i < p implies t[i] != x by {
            assert(t[i] == s[i]);
        }
        lemma_position_is(t, x, p);
    } else if y == x {
        assert forall|i: int| 0 <= i < s.len() implies t[i] != x by {
            assert(t[i] == s[i]);
        }
        lemma_position_is(t, x, s.len() as int);
    } else {
        assert forall|i: int| 0 <= i < t.len() implies t[i] != x by {
            if i < s.len() {
                assert(t[i] == s[i]);
            }
        }
        lemma_position_is(t, x, t.len() as int);
    }
}

/// What holds of every element of every part holds of every element of
/// the concatenation.
pub proof fn lemma_concat_all_every<A>(parts: Seq<Seq<A>>, holds: spec_fn(A) -> bool)
    requires
        forall|k: int, i: int|
            0 <= k < parts.len() && 0 <= i < parts[k].len() ==> holds(#[trigger] parts[k][i]),
    ensures
        forall|i: int| 0 <= i < concat_all(parts).len() ==> holds(#[trigger] concat_all(parts)[i]),
    decreases parts.len(),
{
    if parts.len() > 0 {
        let head = parts.drop_last();
        assert forall|k: int, i: int|
            0 <= k < head.len() && 0 <= i < head[k].len() implies holds(#[trigger] head[k][i]) by {
            assert(head[k] == parts[k]);
        }
        lemma_concat_all_every(head, holds);
        let all = concat_all(parts);
        assert forall|i: int| 0 <= i < all.len() implies holds(#[trigger] all[i]) by {
            if i < concat_all(head).len() {
                assert(all[i] == concat_all(head)[i]);
            } else {
                assert(all[i] == parts[parts.len() - 1][i - concat_all(head).len()]);
            }
        }
    }
}

} // verus!
