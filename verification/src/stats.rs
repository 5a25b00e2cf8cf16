//! The ranked-statistics core shared by every metric kind.
//!
//! Records carry a numeric score; a ranking keeps them in a sequence,
//! sorts them descending by score on demand — stably, so ties keep
//! their insertion order — and answers max, min, top-k and score-sum
//! queries from the sorted order.
use vstd::prelude::*;

verus! {

/// A record with a numeric score that the rankings order by.
pub trait Scored: Sized {
    /// The score, as specifications see it.
    spec fn score_spec(&self) -> usize;

    /// The score.
    fn score(&self) -> (r: usize)
        ensures
            r == self.score_spec(),
    ;
}

/// Whether a record sequence is ordered by descending score.
pub open spec fn sorted_desc<T: Scored>(s: Seq<T>) -> bool {
    forall|i: int, j: int|
        0 <= i <= j < s.len() ==> s[i].score_spec() >= s[j].score_spec()
}

/// Where a stable descending sort places one more record: right after
/// every record whose score is at least as high.
pub open spec fn insert_pos<T: Scored>(s: Seq<T>, x: T) -> int
    decreases s.len(),
{
    if s.len() == 0 {
        0
    } else if s.first().score_spec() >= x.score_spec() {
        1 + insert_pos(s.drop_first(), x)
    } else {
        0
    }
}

/// A record sequence with one more record placed at its stable position.
pub open spec fn sorted_insert<T: Scored>(s: Seq<T>, x: T) -> Seq<T>
    decreases s.len(),
{
    if s.len() == 0 {
        seq![x]
    } else if s.first().score_spec() >= x.score_spec() {
        seq![s.first()] + sorted_insert(s.drop_first(), x)
    } else {
        seq![x] + s
    }
}

/// The stable descending sort of a record sequence.
pub open spec fn stable_sort_desc<T: Scored>(s: Seq<T>) -> Seq<T>
    decreases s.len(),
{
    if s.len() == 0 {
        Seq::empty()
    } else {
        sorted_insert(stable_sort_desc(s.drop_last()), s.last())
    }
}

/// The sum of all scores of a record sequence.
pub open spec fn score_sum<T: Scored>(s: Seq<T>) -> int
    decreases s.len(),
{
    if s.len() == 0 {
        0
    } else {
        s.first().score_spec() + score_sum(s.drop_first())
    }
}

/// The stable position lies within the sequence, every record before it
/// scores at least as high as the inserted one, and the record at it —
/// if any — scores lower.
pub proof fn lemma_insert_pos_props<T: Scored>(s: Seq<T>, x: T)
    ensures
        0 <= insert_pos(s, x) <= s.len(),
        forall|k: int|
            0 <= k < insert_pos(s, x) ==> s[k].score_spec() >= x.score_spec(),
        insert_pos(s, x) < s.len() ==> s[insert_pos(s, x)].score_spec() < x.score_spec(),
    decreases s.len(),
{
    if s.len() == 0 {
    } else if s.first().score_spec() >= x.score_spec() {
        lemma_insert_pos_props(s.drop_first(), x);
        assert forall|k: int| 0 <= k < insert_pos(s, x) implies s[k].score_spec()
            >= x.score_spec() by {
            if k > 0 {
                assert(s.drop_first()[k - 1] == s[k]);
            }
        }
        if insert_pos(s, x) < s.len() {
            assert(s.drop_first()[insert_pos(s, x) - 1] == s[insert_pos(s, x)]);
        }
    } else {
    }
}

/// In a sequence already sorted descending, any position with the same
/// two properties is the stable position.
pub proof fn lemma_insert_pos_of<T: Scored>(s: Seq<T>, x: T, j: int)
    requires
        sorted_desc(s),
        0 <= j <= s.len(),
        forall|k: int| 0 <= k < j ==> s[k].score_spec() >= x.score_spec(),
        j < s.len() ==> s[j].score_spec() < x.score_spec(),
    ensures
        insert_pos(s, x) == j,
    decreases s.len(),
{
    if s.len() == 0 {
    } else if j == 0 {
        if s.first().score_spec() >= x.score_spec() {
            assert(s[0].score_spec() < x.score_spec());
        }
    } else {
        assert(s[0].score_spec() >= x.score_spec());
        let t = s.drop_first();
        assert forall|k: int| 0 <= k < j - 1 implies t[k].score_spec() >= x.score_spec() by {
            assert(t[k] == s[k + 1]);
        }
        assert forall|i: int, k: int| 0 <= i <= k < t.len() implies t[i].score_spec()
            >= t[k].score_spec() by {
            assert(t[i] == s[i + 1]);
            assert(t[k] == s[k + 1]);
        }
        if j - 1 < t.len() {
            assert(t[j - 1] == s[j]);
        }
        lemma_insert_pos_of(t, x, j - 1);
    }
}

/// The stable insertion equals a plain insertion at the stable position.
pub proof fn lemma_sorted_insert_as_insert<T: Scored>(s: Seq<T>, x: T)
    ensures
        sorted_insert(s, x) == s.insert(insert_pos(s, x), x),
        sorted_insert(s, x).len() == s.len() + 1,
    decreases s.len(),
{
    lemma_insert_pos_props(s, x);
    if s.len() == 0 {
        assert(sorted_insert(s, x) =~= s.insert(0, x));
    } else if s.first().score_spec() >= x.score_spec() {
        lemma_sorted_insert_as_insert(s.drop_first(), x);
        let p = insert_pos(s.drop_first(), x);
        assert(sorted_insert(s, x) =~= s.insert(1 + p, x));
    } else {
        assert(sorted_insert(s, x) =~= s.insert(0, x));
    }
}

/// Stable insertion into a sorted sequence keeps it sorted.
pub proof fn lemma_sorted_insert_sorted<T: Scored>(s: Seq<T>, x: T)
    requires
        sorted_desc(s),
    ensures
        sorted_desc(sorted_insert(s, x)),
{
    lemma_insert_pos_props(s, x);
    lemma_sorted_insert_as_insert(s, x);
    let p = insert_pos(s, x);
    let r = s.insert(p, x);
    assert forall|i: int, j: int| 0 <= i <= j < r.len() implies r[i].score_spec()
        >= r[j].score_spec() by {
        assert(forall|k: int| 0 <= k < p ==> r[k] == s[k]);
        assert(r[p] == x);
        assert(forall|k: int| p < k < r.len() ==> r[k] == s[k - 1]);
    }
}

/// Inserting anywhere adds exactly that record to the sequence's
/// multiset of records.
pub proof fn lemma_insert_multiset<T>(s: Seq<T>, i: int, x: T)
    requires
        0 <= i <= s.len(),
    ensures
        s.insert(i, x).to_multiset() == s.to_multiset().insert(x),
{
    broadcast use vstd::seq_lib::group_to_multiset_ensures;
    broadcast use vstd::multiset::group_multiset_axioms;

    let t = s.insert(i, x);
    assert(t.remove(i) =~= s);
    assert(t[i] == x);
    assert(t.remove(i).to_multiset() == t.to_multiset().remove(x));
    assert(t.contains(x));
    assert(t.to_multiset().count(x) > 0);
    assert(t.to_multiset() =~= s.to_multiset().insert(x));
}

/// The stable sort is a permutation: same length, same records.
pub proof fn lemma_stable_sort_permutes<T: Scored>(s: Seq<T>)
    ensures
        stable_sort_desc(s).len() == s.len(),
        stable_sort_desc(s).to_multiset() == s.to_multiset(),
    decreases s.len(),
{
    broadcast use vstd::seq_lib::group_to_multiset_ensures;
    broadcast use vstd::multiset::group_multiset_axioms;

    if s.len() == 0 {
    } else {
        let t = s.drop_last();
        lemma_stable_sort_permutes(t);
        lemma_sorted_insert_as_insert(stable_sort_desc(t), s.last());
        lemma_insert_pos_props(stable_sort_desc(t), s.last());
        lemma_insert_multiset(
            stable_sort_desc(t),
            insert_pos(stable_sort_desc(t), s.last()),
            s.last(),
        );
        assert(t.push(s.last()) =~= s);
        assert(t.push(s.last()).to_multiset() == t.to_multiset().insert(s.last()));
    }
}

/// The stable sort is sorted descending.
pub proof fn lemma_stable_sort_sorted<T: Scored>(s: Seq<T>)
    ensures
        sorted_desc(stable_sort_desc(s)),
    decreases s.len(),
{
    if s.len() == 0 {
    } else {
        lemma_stable_sort_sorted(s.drop_last());
        lemma_sorted_insert_sorted(stable_sort_desc(s.drop_last()), s.last());
    }
}

/// Sorting an already sorted sequence changes nothing.
pub proof fn lemma_stable_sort_of_sorted<T: Scored>(s: Seq<T>)
    requires
        sorted_desc(s),
    ensures
        stable_sort_desc(s) == s,
    decreases s.len(),
{
    if s.len() == 0 {
        assert(stable_sort_desc(s) =~= s);
    } else {
        let t = s.drop_last();
        assert forall|i: int, j: int| 0 <= i <= j < t.len() implies t[i].score_spec()
            >= t[j].score_spec() by {
            assert(t[i] == s[i]);
            assert(t[j] == s[j]);
        }
        lemma_stable_sort_of_sorted(t);
        lemma_sorted_insert_as_insert(t, s.last());
        lemma_insert_pos_of(t, s.last(), t.len() as int);
        assert(t.insert(t.len() as int, s.last()) =~= s);
    }
}

/// Over records of one identical score, the score sum is the score
/// times the record count — so the arithmetic mean is exactly that
/// score.
pub proof fn lemma_score_sum_identical<T: Scored>(s: Seq<T>, c: usize)
    requires
        forall|i: int| 0 <= i < s.len() ==> s[i].score_spec() == c,
    ensures
        score_sum(s) == s.len() * c,
    decreases s.len(),
{
    if s.len() == 0 {
    } else {
        let t = s.drop_first();
        assert(forall|i: int| 0 <= i < t.len() ==> t[i] == s[i + 1]);
        lemma_score_sum_identical(t, c);
        assert(s[0].score_spec() == c);
        assert(score_sum(s) == c + t.len() * c);
        assert(c + t.len() * c == (t.len() + 1) * c) by (nonlinear_arith);
    }
}

/// Every score sum is bounded by the record count times the largest
/// possible score.
pub proof fn lemma_score_sum_bounds<T: Scored>(s: Seq<T>)
    ensures
        0 <= score_sum(s) <= s.len() * usize::MAX,
    decreases s.len(),
{
    if s.len() == 0 {
    } else {
        lemma_score_sum_bounds(s.drop_first());
        assert(score_sum(s) == s.first().score_spec() + score_sum(s.drop_first()));
        assert(s.first().score_spec() + s.drop_first().len() * usize::MAX <= s.len()
            * usize::MAX) by (nonlinear_arith)
            requires
                s.len() == s.drop_first().len() + 1,
                s.first().score_spec() <= usize::MAX,
        ;
    }
}

/// Sorts a record vector descending by score: an insertion sort, which
/// keeps equal-score records in their insertion order.
pub fn sort_by_score_desc<T: Scored>(v: &mut Vec<T>)
    ensures
        final(v)@ == stable_sort_desc(old(v)@),
{
    let mut i: usize = 0;
    while i < v.len()
        invariant
            0 <= i <= v@.len(),
            v@.len() == old(v)@.len(),
            v@.subrange(0, i as int) == stable_sort_desc(old(v)@.subrange(0, i as int)),
            v@.skip(i as int) == old(v)@.skip(i as int),
        decreases v@.len() - i,
    {
        let ghost prefix = v@.subrange(0, i as int);
        proof {
            lemma_stable_sort_sorted(old(v)@.subrange(0, i as int));
        }
        let x_score = v[i].score();
        let mut j: usize = 0;
        while j < i && v[j].score() >= x_score
            invariant
                0 <= j <= i < v@.len(),
                forall|k: int| 0 <= k < j ==> v@[k].score_spec() >= v@[i as int].score_spec(),
                x_score == v@[i as int].score_spec(),
            decreases i - j,
        {
            j = j + 1;
        }
        proof {
            assert(forall|k: int| 0 <= k < j ==> prefix[k] == v@[k]);
            if j < i {
                assert(prefix[j as int].score_spec() < x_score);
            }
            lemma_insert_pos_of(prefix, v@[i as int], j as int);
            lemma_sorted_insert_as_insert(prefix, v@[i as int]);
        }
        let ghost vsnap = v@;
        let x = v.remove(i);
        proof {
            assert(x == vsnap[i as int]);
        }
        v.insert(j, x);
        proof {
            let w = vsnap.remove(i as int).insert(j as int, x);
            assert(v@ == w);
            assert(w.subrange(0, i as int + 1) =~= prefix.insert(j as int, x));
            assert(w.subrange(0, i as int + 1) == sorted_insert(prefix, x));
            let np = old(v)@.subrange(0, i as int + 1);
            assert(np.drop_last() =~= old(v)@.subrange(0, i as int));
            assert(np.last() == old(v)@[i as int]);
            assert(old(v)@[i as int] == vsnap.skip(i as int)[0]);
            assert(stable_sort_desc(np) == sorted_insert(prefix, x));
            assert(w.skip(i as int + 1) =~= vsnap.skip(i as int).drop_first());
            assert(old(v)@.skip(i as int + 1) =~= old(v)@.skip(i as int).drop_first());
        }
        i = i + 1;
    }
    proof {
        assert(v@.subrange(0, v@.len() as int) =~= v@);
        assert(old(v)@.subrange(0, old(v)@.len() as int) =~= old(v)@);
    }
}

/// The sum of all scores in a record vector. The widened result type
/// leaves room for any number of records of any score.
pub fn score_sum_exec<T: Scored>(v: &Vec<T>) -> (r: u128)
    ensures
        r as int == score_sum(v@),
{
    let mut total: u128 = 0;
    let mut i: usize = 0;
    let n = v.len();
    proof {
        assert(n == v@.len());
        assert(v@.skip(0) == v@);
        lemma_score_sum_bounds(v@);
    }
    while i < v.len()
        invariant
            0 <= i <= v@.len(),
            total as int + score_sum(v@.skip(i as int)) == score_sum(v@),
            0 <= score_sum(v@) <= v@.len() * usize::MAX,
            v@.len() <= usize::MAX,
        decreases v@.len() - i,
    {
        proof {
            assert(v@.skip(i as int).first() == v@[i as int]);
            assert(v@.skip(i as int).drop_first() == v@.skip(i as int + 1));
            lemma_score_sum_bounds(v@.skip(i as int + 1));
            assert(v@.len() * usize::MAX <= usize::MAX * usize::MAX) by (nonlinear_arith)
                requires
                    v@.len() <= usize::MAX,
            ;
            assert(usize::MAX * usize::MAX < u128::MAX) by (nonlinear_arith);
        }
        let s = v[i].score();
        total = total + (s as u128);
        i = i + 1;
    }
    total
}


/// The records of one given score, in their current order.
pub open spec fn ties<T: Scored>(s: Seq<T>, c: usize) -> Seq<T> {
    s.filter(|x: T| x.score_spec() == c)
}

proof fn lemma_filter_none<T: Scored>(s: Seq<T>, c: usize)
    requires
        forall|i: int| 0 <= i < s.len() ==> (#[trigger] s[i].score_spec()) != c,
    ensures
        ties(s, c) == Seq::<T>::empty(),
    decreases s.len(),
{
    reveal(Seq::filter);
    if s.len() > 0 {
        assert(forall|i: int| 0 <= i < s.drop_last().len() ==> s.drop_last()[i] == s[i]);
        lemma_filter_none(s.drop_last(), c);
        assert(ties(s, c) =~= Seq::<T>::empty());
    } else {
        assert(ties(s, c) =~= Seq::<T>::empty());
    }
}

proof fn lemma_filter_singleton<T: Scored>(x: T, c: usize)
    ensures
        x.score_spec() == c ==> ties(seq![x], c) == seq![x],
        x.score_spec() != c ==> ties(seq![x], c) == Seq::<T>::empty(),
    decreases 0int,
{
    reveal_with_fuel(Seq::filter, 3);
    assert(seq![x].drop_last() =~= Seq::<T>::empty());
    assert(seq![x].last() == x);
    if x.score_spec() == c {
        assert(ties(seq![x], c) =~= seq![x]);
    } else {
        assert(ties(seq![x], c) =~= Seq::<T>::empty());
    }
}

proof fn lemma_sorted_insert_filter<T: Scored>(s: Seq<T>, x: T, c: usize)
    requires
        sorted_desc(s),
    ensures
        x.score_spec() == c ==> ties(sorted_insert(s, x), c) == ties(s, c).push(x),
        x.score_spec() != c ==> ties(sorted_insert(s, x), c) == ties(s, c),
    decreases s.len(),
{
    broadcast use vstd::seq_lib::group_filter_ensures;

    lemma_filter_singleton(x, c);
    if s.len() == 0 {
        reveal(Seq::filter);
        assert(ties(s, c) =~= Seq::<T>::empty());
        if x.score_spec() == c {
            assert(ties(s, c).push(x) =~= seq![x]);
        }
    } else if s.first().score_spec() >= x.score_spec() {
        let t = s.drop_first();
        assert forall|i: int, j: int| 0 <= i <= j < t.len() implies t[i].score_spec()
            >= t[j].score_spec() by {
            assert(t[i] == s[i + 1]);
            assert(t[j] == s[j + 1]);
        }
        lemma_sorted_insert_filter(t, x, c);
        lemma_filter_singleton(s.first(), c);
        assert(sorted_insert(s, x) == seq![s.first()] + sorted_insert(t, x));
        assert(ties(sorted_insert(s, x), c) == ties(seq![s.first()], c) + ties(
            sorted_insert(t, x),
            c,
        ));
        assert(s =~= seq![s.first()] + t);
        assert(ties(s, c) == ties(seq![s.first()], c) + ties(t, c));
        if x.score_spec() == c {
            assert(ties(seq![s.first()], c) + ties(t, c).push(x) =~= (ties(seq![s.first()], c)
                + ties(t, c)).push(x));
        }
    } else {
        assert(sorted_insert(s, x) == seq![x] + s);
        assert(ties(sorted_insert(s, x), c) == ties(seq![x], c) + ties(s, c));
        if x.score_spec() == c {
            assert forall|i: int| 0 <= i < s.len() implies (#[trigger] s[i].score_spec())
                != c by {
                assert(s[i].score_spec() <= s[0].score_spec());
            }
            lemma_filter_none(s, c);
            assert(ties(sorted_insert(s, x), c) =~= ties(s, c).push(x));
        } else {
            assert(ties(sorted_insert(s, x), c) =~= ties(s, c));
        }
    }
}

/// Stability of the sort: the records of any one score stand in the
/// sorted output exactly in the order they were inserted.
pub proof fn lemma_stable_sort_stable<T: Scored>(s: Seq<T>, c: usize)
    ensures
        ties(stable_sort_desc(s), c) == ties(s, c),
    decreases s.len(),
{
    if s.len() == 0 {
        reveal(Seq::filter);
    } else {
        let t = s.drop_last();
        lemma_stable_sort_stable(t, c);
        lemma_stable_sort_sorted(t);
        lemma_sorted_insert_filter(stable_sort_desc(t), s.last(), c);
        reveal(Seq::filter);
        assert(ties(s, c) == if s.last().score_spec() == c {
            ties(t, c).push(s.last())
        } else {
            ties(t, c)
        });
    }
}

} // verus!
