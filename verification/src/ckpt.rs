//! Rollback points of a recurrent stream.

use vstd::prelude::*;

use crate::shape::{Family, Shape};

verus! {

/// A copy of the rolling state at a position.
pub struct Ckpt<C> {
    pub pos: u32,
    pub state: C,
}

/// The rollback points of a stream, by rising position.
pub struct Ckpts<C> {
    pub list: Vec<Ckpt<C>>,
}

/// The family keeps rollback points at all.
pub open spec fn keeps(s: &Shape) -> bool {
    s.family == Family::Dsv4 || s.family == Family::Qwen35
}

/// Positions between two rollback points.
pub open spec fn interval(s: &Shape) -> int {
    if s.family == Family::Qwen35 {
        4096
    } else {
        512
    }
}

/// Rollback points kept at once.
pub open spec fn cap(s: &Shape) -> int {
    if s.family == Family::Qwen35 {
        2
    } else {
        8
    }
}

/// Positions rise.
pub open spec fn rising<C>(l: Seq<Ckpt<C>>) -> bool {
    forall|i: int, j: int| 0 <= i < j < l.len() ==> (#[trigger] l[i]).pos < (#[trigger] l[j]).pos
}

/// Position of the last rollback point; zero without one.
pub open spec fn last_pos<C>(l: Seq<Ckpt<C>>) -> int {
    if l.len() == 0 {
        0
    } else {
        l.last().pos as int
    }
}

/// A rollback point is due at `pos`.
pub open spec fn due_at<C>(l: Seq<Ckpt<C>>, s: &Shape, pos: int) -> bool {
    keeps(s) && pos >= last_pos(l) + interval(s)
}

/// The points after one more: the earliest stays, the oldest behind it goes
/// when there are too many.
pub open spec fn with_point<C>(l: Seq<Ckpt<C>>, c: Ckpt<C>, n: int) -> Seq<Ckpt<C>> {
    let more = l.push(c);
    if more.len() > n {
        more.remove(1)
    } else {
        more
    }
}

/// The latest point at or before `upto` among the first `n`.
pub open spec fn nearest<C>(l: Seq<Ckpt<C>>, upto: u32, n: int) -> Option<int>
    decreases n,
{
    if n <= 0 {
        None
    } else if l[n - 1].pos <= upto {
        Some(n - 1)
    } else {
        nearest(l, upto, n - 1)
    }
}

impl<C> Ckpts<C> {
    /// No rollback point yet.
    pub fn new() -> (c: Ckpts<C>)
        ensures
            c.list@ == Seq::<Ckpt<C>>::empty(),
    {
        Ckpts { list: Vec::new() }
    }

    /// Number of rollback points.
    pub fn ckpt_count(&self) -> (n: usize)
        ensures
            n == self.list@.len(),
    {
        self.list.len()
    }

    /// A rollback point is due at `pos`.
    pub fn due(&self, s: &Shape, pos: u32) -> (r: bool)
        ensures
            r == due_at(self.list@, s, pos as int),
    {
        let keeps: bool = s.family == Family::Dsv4 || s.family == Family::Qwen35;
        let gap: u64 = if s.family == Family::Qwen35 {
            4096
        } else {
            512
        };
        let n: usize = self.list.len();
        let last: u64 = if n == 0 {
            0
        } else {
            self.list[n - 1].pos as u64
        };
        keeps && pos as u64 >= last + gap
    }

    /// Record the state at `pos`, where a point is due; elsewhere nothing
    /// changes.
    pub fn maybe_checkpoint(&mut self, s: &Shape, pos: u32, state: C)
        requires
            rising(old(self).list@),
            old(self).list@.len() <= cap(s),
        ensures
            final(self).list@ == if due_at(old(self).list@, s, pos as int) {
                with_point(old(self).list@, (Ckpt { pos, state }), cap(s))
            } else {
                old(self).list@
            },
            rising(final(self).list@),
            final(self).list@.len() <= cap(s),
    {
        if !self.due(s, pos) {
            return ;
        }
        let most: usize = if s.family == Family::Qwen35 {
            2
        } else {
            8
        };
        let ghost l = self.list@;
        self.list.push(Ckpt { pos, state });
        assert(forall|i: int| 0 <= i < l.len() ==> (#[trigger] l[i]).pos <= l.last().pos);
        assert(rising(self.list@));
        if self.list.len() > most {
            let ghost more = self.list@;
            self.list.remove(1);
            assert(self.list@ =~= more.remove(1));
            assert forall|i: int, j: int| 0 <= i < j < self.list@.len() implies (
            #[trigger] self.list@[i]).pos < (#[trigger] self.list@[j]).pos by {
                let a = if i < 1 { i } else { i + 1 };
                let b = if j < 1 { j } else { j + 1 };
                assert(self.list@[i] == more[a]);
                assert(self.list@[j] == more[b]);
            }
        }
    }

    /// Which point is the latest at or before `upto`.
    pub fn nearest_ckpt(&self, upto: u32) -> (r: Option<usize>)
        ensures
            match r {
                Some(i) => nearest(self.list@, upto, self.list@.len() as int) == Some(i as int) && i
                    < self.list@.len(),
                None => nearest(self.list@, upto, self.list@.len() as int) is None,
            },
    {
        let mut i: usize = self.list.len();
        while i > 0
            invariant
                i <= self.list@.len(),
                nearest(self.list@, upto, self.list@.len() as int) == nearest(
                    self.list@,
                    upto,
                    i as int,
                ),
            decreases i,
        {
            if self.list[i - 1].pos <= upto {
                return Some(i - 1);
            }
            i = i - 1;
        }
        None
    }

    /// Go back to the latest point at or before `upto`: the points behind it
    /// are dropped, as their content no longer matches the stream, and its
    /// position is returned. Without such a point all points go.
    pub fn restore_nearest_ckpt(&mut self, upto: u32) -> (r: Option<u32>)
        ensures
            match nearest(old(self).list@, upto, old(self).list@.len() as int) {
                Some(i) => r == Some(old(self).list@[i].pos) && final(self).list@
                    == old(self).list@.take(i + 1),
                None => r is None && final(self).list@ == Seq::<Ckpt<C>>::empty(),
            },
            rising(old(self).list@) ==> rising(final(self).list@),
    {
        match self.nearest_ckpt(upto) {
            Some(i) => {
                let pos: u32 = self.list[i].pos;
                let n: usize = self.list.len();
                if i + 1 < n {
                    self.list.truncate(i + 1);
                }
                assert(self.list@ =~= old(self).list@.take(i + 1));
                Some(pos)
            },
            None => {
                self.list.clear();
                assert(self.list@ =~= Seq::<Ckpt<C>>::empty());
                None
            },
        }
    }

    /// Drop every point.
    pub fn clear_ckpts(&mut self)
        ensures
            final(self).list@.len() == 0,
    {
        self.list.clear();
    }
}

/// A restored point is at or before the wanted position, and no other point
/// lies between.
pub proof fn restores_the_nearest<C>(l: Seq<Ckpt<C>>, upto: u32, n: int)
    requires
        0 <= n <= l.len(),
    ensures
        match nearest(l, upto, n) {
            Some(i) => 0 <= i < n && l[i].pos <= upto && forall|j: int|
                i < j < n ==> (#[trigger] l[j]).pos > upto,
            None => forall|j: int| 0 <= j < n ==> (#[trigger] l[j]).pos > upto,
        },
    decreases n,
{
    if n > 0 && l[n - 1].pos > upto {
        restores_the_nearest(l, upto, n - 1);
    }
}

/// Recording a point never drops the earliest one, nor the new one.
pub proof fn earliest_point_stays<C>(l: Seq<Ckpt<C>>, c: Ckpt<C>, n: int)
    requires
        l.len() > 0,
        n >= 2,
    ensures
        with_point(l, c, n)[0] == l[0],
        with_point(l, c, n).last() == c,
{
}

} // verus!
