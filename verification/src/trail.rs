//! The bounded trail of positions that each orbiting body leaves behind.
use std::collections::VecDeque;
use vstd::prelude::*;

verus! {

/// Number of positions kept in the trail of each orbiting body.
pub const TRAIL_LEN: usize = 1500;

/// The last `cap` elements of `s` (all of `s` when it is shorter).
pub open spec fn keep_last<T>(s: Seq<T>, cap: nat) -> Seq<T> {
    if s.len() <= cap {
        s
    } else {
        s.skip(s.len() - cap)
    }
}

/// The segments `(s[k], s[k + 1])` that join consecutive elements of `s`.
pub open spec fn consecutive_pairs<T>(s: Seq<T>) -> Seq<(T, T)> {
    if s.len() < 2 {
        Seq::empty()
    } else {
        Seq::new((s.len() - 1) as nat, |k: int| (s[k], s[k + 1]))
    }
}

/// The positions recorded for one body, oldest first, never more than
/// `TRAIL_LEN` of them.
pub struct Trail<T> {
    points: VecDeque<T>,
}

impl<T> View for Trail<T> {
    type V = Seq<T>;

    closed spec fn view(&self) -> Seq<T> {
        self.points@
    }
}

impl<T> Trail<T> {
    #[verifier::type_invariant]
    spec fn bounded(self) -> bool {
        self.points@.len() <= TRAIL_LEN
    }

    /// An empty trail.
    pub fn new() -> (t: Self)
        ensures
            t@ == Seq::<T>::empty(),
    {
        Trail { points: VecDeque::new() }
    }

    /// The number of positions held.
    pub fn len(&self) -> (n: usize)
        ensures
            n == self@.len(),
            n <= TRAIL_LEN,
    {
        proof {
            use_type_invariant(self);
        }
        self.points.len()
    }

    /// The `i`-th position held, counting from the oldest.
    pub fn get(&self, i: usize) -> (p: &T)
        requires
            i < self@.len(),
        ensures
            *p == self@[i as int],
    {
        &self.points[i]
    }

    /// Appends a position; when the trail then holds more than `TRAIL_LEN`
    /// positions, the oldest one is dropped.
    pub fn push(&mut self, p: T)
        ensures
            final(self)@ == keep_last(old(self)@.push(p), TRAIL_LEN as nat),
            final(self)@.len() <= TRAIL_LEN,
    {
        proof {
            use_type_invariant(&*self);
        }
        let ghost before = self.points@;
        let mut points = VecDeque::new();
        std::mem::swap(&mut points, &mut self.points);
        points.push_back(p);
        if points.len() > TRAIL_LEN {
            points.pop_front();
        }
        proof {
            let s = before.push(p);
            if s.len() > TRAIL_LEN {
                assert(points@ =~= s.skip(s.len() - TRAIL_LEN));
            }
        }
        self.points = points;
    }
}

impl<T: Copy> Trail<T> {
    /// The line segments that draw the trail: one segment joining each pair
    /// of consecutive positions, oldest first. The positions are read as the
    /// two slices of the ring buffer that holds them; the segment that joins
    /// the last position of the first slice to the first of the second is
    /// drawn too, so no gap appears where the buffer wraps around.
    pub fn segments(&self) -> (r: Vec<(T, T)>)
        ensures
            r@ == consecutive_pairs(self@),
            self@.len() >= 2 ==> r@.len() == self@.len() - 1,
            self@.len() < 2 ==> r@.len() == 0,
            forall|k: int| 0 <= k < r@.len() ==> #[trigger] r@[k] == (self@[k], self@[k + 1]),
            exists|k: int|
                0 <= k <= self@.len() && r@ == consecutive_pairs(self@.take(k))
                    + consecutive_pairs(self@.skip(k)),
    {
        proof {
            lemma_consecutive_pairs_join(self@);
            assert(self@.take(0) =~= Seq::<T>::empty());
            assert(self@.skip(0) =~= self@);
            assert(consecutive_pairs(self@.take(0)) + consecutive_pairs(self@.skip(0))
                =~= consecutive_pairs(self@));
        }
        let mut r: Vec<(T, T)> = Vec::new();
        if self.points.len() < 2 {
            assert(r@ =~= consecutive_pairs(self@));
            return r;
        }
        let (front, back) = deque_as_slices(&self.points);
        push_pairs(front, &mut r);
        if front.len() > 0 && back.len() > 0 {
            r.push((front[front.len() - 1], back[0]));
        }
        push_pairs(back, &mut r);
        proof {
            lemma_pairs_concat(front@, back@);
        }
        r
    }
}

/// The pairs of consecutive elements of `f + b`: those of `f`, the one that
/// joins `f` to `b` when both are nonempty, and those of `b`.
proof fn lemma_pairs_concat<T>(f: Seq<T>, b: Seq<T>)
    ensures
        f.len() == 0 || b.len() == 0 ==> consecutive_pairs(f + b) == consecutive_pairs(f)
            + consecutive_pairs(b),
        f.len() > 0 && b.len() > 0 ==> consecutive_pairs(f + b) == consecutive_pairs(f).push(
            (f[f.len() - 1], b[0]),
        ) + consecutive_pairs(b),
{
    let s = f + b;
    if f.len() == 0 {
        assert(s =~= b);
        assert(consecutive_pairs(f) =~= Seq::<(T, T)>::empty());
        assert(consecutive_pairs(f + b) =~= consecutive_pairs(f) + consecutive_pairs(b));
    } else if b.len() == 0 {
        assert(s =~= f);
        assert(consecutive_pairs(b) =~= Seq::<(T, T)>::empty());
        assert(consecutive_pairs(f + b) =~= consecutive_pairs(f) + consecutive_pairs(b));
    } else {
        let rhs = consecutive_pairs(f).push((f[f.len() - 1], b[0])) + consecutive_pairs(b);
        assert(rhs.len() == s.len() - 1);
        assert forall|k: int| 0 <= k < s.len() - 1 implies #[trigger] rhs[k] == (s[k], s[k + 1]) by {
            if k < f.len() - 1 {
            } else if k == f.len() - 1 {
            } else {
                assert(rhs[k] == consecutive_pairs(b)[k - f.len()]);
            }
        }
        assert(consecutive_pairs(s) =~= rhs);
    }
}

/// The segments of a sequence of positions are exactly the pairs of
/// consecutive positions: one fewer than the positions (none for fewer than
/// two), the `k`-th joining position `k` to position `k + 1`.
pub proof fn lemma_consecutive_pairs_join<T>(s: Seq<T>)
    ensures
        s.len() >= 2 ==> consecutive_pairs(s).len() == s.len() - 1,
        s.len() < 2 ==> consecutive_pairs(s).len() == 0,
        forall|k: int|
            0 <= k < consecutive_pairs(s).len() ==> #[trigger] consecutive_pairs(s)[k] == (
                s[k],
                s[k + 1],
            ),
{
}

/// After a position is pushed onto a trail that already held one, the
/// newest segment of the trail joins the previously newest position to the
/// pushed one: the drawn trail always reaches the body.
pub proof fn lemma_newest_segment<T>(s: Seq<T>, p: T)
    requires
        s.len() >= 1,
    ensures
        ({
            let t = keep_last(s.push(p), TRAIL_LEN as nat);
            let segs = consecutive_pairs(t);
            &&& segs.len() >= 1
            &&& segs[segs.len() - 1] == (s[s.len() - 1], p)
        }),
{
    let t = keep_last(s.push(p), TRAIL_LEN as nat);
    lemma_consecutive_pairs_join(t);
    assert(t.len() >= 2);
    assert(t[t.len() - 1] == p);
    assert(t[t.len() - 2] == s[s.len() - 1]);
}

/// Appends to `out` the pairs of consecutive elements of `s`.
fn push_pairs<T: Copy>(s: &[T], out: &mut Vec<(T, T)>)
    ensures
        final(out)@ == old(out)@ + consecutive_pairs(s@),
{
    let ghost start = out@;
    let n = s.len();
    if n < 2 {
        assert(out@ =~= start + consecutive_pairs(s@));
        return;
    }
    let mut k: usize = 0;
    while k + 1 < n
        invariant
            n == s@.len(),
            n >= 2,
            k + 1 <= n,
            out@ =~= start + consecutive_pairs(s@).take(k as int),
        decreases n - k,
    {
        out.push((s[k], s[k + 1]));
        k = k + 1;
    }
    assert(consecutive_pairs(s@).take(k as int) =~= consecutive_pairs(s@));
}

/// `VecDeque::as_slices`: the first slice followed by the second holds the
/// contents of the deque in order. Where the contents are split between the
/// two depends on where the deque's ring buffer wraps around, which its
/// documentation leaves open, so nothing is said of it.
#[verifier::external_body]
fn deque_as_slices<T>(d: &VecDeque<T>) -> (r: (&[T], &[T]))
    ensures
        r.0@ + r.1@ == d@,
{
    d.as_slices()
}

/// The result of pushing the positions `ps` one by one onto a trail holding
/// `t`.
pub open spec fn after_pushes<T>(t: Seq<T>, ps: Seq<T>) -> Seq<T>
    decreases ps.len(),
{
    if ps.len() == 0 {
        t
    } else {
        after_pushes(keep_last(t.push(ps[0]), TRAIL_LEN as nat), ps.drop_first())
    }
}

/// Keeping the last `cap` elements before a push and again after it is the
/// same as keeping them once after it.
pub proof fn lemma_keep_last_push<T>(s: Seq<T>, p: T, cap: nat)
    requires
        cap > 0,
    ensures
        keep_last(keep_last(s, cap).push(p), cap) == keep_last(s.push(p), cap),
{
    if s.len() > cap {
        let t = s.skip(s.len() - cap);
        assert(keep_last(t.push(p), cap) =~= keep_last(s.push(p), cap));
    }
}

/// A trail always holds the last `TRAIL_LEN` positions of its whole history:
/// pushing `ps` onto a trail that holds the tail of `h` leaves it holding the
/// tail of `h + ps`. (From an empty trail, `h` is empty.)
pub proof fn lemma_trail_history<T>(h: Seq<T>, ps: Seq<T>)
    ensures
        after_pushes(keep_last(h, TRAIL_LEN as nat), ps) == keep_last(h + ps, TRAIL_LEN as nat),
    decreases ps.len(),
{
    if ps.len() == 0 {
        assert(h + ps =~= h);
    } else {
        lemma_keep_last_push(h, ps[0], TRAIL_LEN as nat);
        lemma_trail_history(h.push(ps[0]), ps.drop_first());
        assert(h.push(ps[0]) + ps.drop_first() =~= h + ps);
    }
}

} // verus!
