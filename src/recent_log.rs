//! The bounded log of recent output lines.
use std::collections::VecDeque;
use vstd::prelude::*;

verus! {

/// The last `cap` items of `t`, or all of them where there are fewer.
pub open spec fn keep_last(t: Seq<Seq<char>>, cap: nat) -> Seq<Seq<char>> {
    if t.len() > cap {
        t.subrange(t.len() - cap, t.len() as int)
    } else {
        t
    }
}

/// The log `s` after one line `x` is added to it.
pub open spec fn bounded_push(s: Seq<Seq<char>>, x: Seq<char>, cap: nat) -> Seq<Seq<char>> {
    keep_last(s.push(x), cap)
}

/// The log `s` after each of `xs` is added to it, in order.
pub open spec fn push_all(s: Seq<Seq<char>>, xs: Seq<Seq<char>>, cap: nat) -> Seq<Seq<char>>
    decreases xs.len(),
{
    if xs.len() == 0 {
        s
    } else {
        push_all(bounded_push(s, xs[0], cap), xs.drop_first(), cap)
    }
}

/// The log's lines joined into one text, each followed by a newline.
pub open spec fn joined(s: Seq<Seq<char>>) -> Seq<char>
    decreases s.len(),
{
    if s.len() == 0 {
        seq![]
    } else {
        joined(s.drop_last()) + s.last() + seq!['\n']
    }
}

proof fn lemma_keep_last_push(t: Seq<Seq<char>>, x: Seq<char>, cap: nat)
    ensures
        keep_last(keep_last(t, cap).push(x), cap) == keep_last(t.push(x), cap),
{
    assert(keep_last(keep_last(t, cap).push(x), cap) =~= keep_last(t.push(x), cap));
}

proof fn lemma_push_all_keep_last(t: Seq<Seq<char>>, xs: Seq<Seq<char>>, cap: nat)
    ensures
        push_all(keep_last(t, cap), xs, cap) == keep_last(t + xs, cap),
    decreases xs.len(),
{
    if xs.len() == 0 {
        assert(t + xs =~= t);
        assert(keep_last(keep_last(t, cap), cap) =~= keep_last(t, cap));
    } else {
        lemma_keep_last_push(t, xs[0], cap);
        lemma_push_all_keep_last(t.push(xs[0]), xs.drop_first(), cap);
        assert(t.push(xs[0]) + xs.drop_first() =~= t + xs);
    }
}

/// Whatever lines are added, in whatever order the two streams interleave
/// them, the log holds at most its capacity: the newest lines, the oldest
/// having been evicted first.
pub proof fn recent_log_keeps_newest(s: Seq<Seq<char>>, xs: Seq<Seq<char>>, cap: nat)
    requires
        s.len() <= cap,
    ensures
        push_all(s, xs, cap).len() <= cap,
        push_all(s, xs, cap) == keep_last(s + xs, cap),
{
    assert(keep_last(s, cap) == s);
    lemma_push_all_keep_last(s, xs, cap);
}

/// A first-in first-out log of the most recent lines, holding at most
/// `capacity` of them.
pub struct RecentOutputLog {
    lines: VecDeque<String>,
    capacity: usize,
}

impl View for RecentOutputLog {
    type V = Seq<Seq<char>>;

    closed spec fn view(&self) -> Seq<Seq<char>> {
        self.lines@.map_values(|l: String| l@)
    }
}

impl RecentOutputLog {
    pub closed spec fn cap(&self) -> nat {
        self.capacity as nat
    }

    pub closed spec fn wf(&self) -> bool {
        self.lines@.len() <= self.capacity
    }

    pub fn new(capacity: usize) -> (r: RecentOutputLog)
        ensures
            r.wf(),
            r@ == Seq::<Seq<char>>::empty(),
            r.cap() == capacity,
    {
        let r = RecentOutputLog { lines: VecDeque::new(), capacity };
        assert(r@ =~= Seq::<Seq<char>>::empty());
        r
    }

    pub fn capacity(&self) -> (r: usize)
        ensures
            r == self.cap(),
    {
        self.capacity
    }

    pub fn len(&self) -> (r: usize)
        requires
            self.wf(),
        ensures
            r == self@.len(),
    {
        self.lines.len()
    }

    /// Adds a line, evicting the oldest one where the log is full.
    pub fn push(&mut self, line: String)
        requires
            old(self).wf(),
        ensures
            final(self).wf(),
            final(self).cap() == old(self).cap(),
            final(self)@ == bounded_push(old(self)@, line@, old(self).cap()),
    {
        let ghost s = self@;
        if self.capacity == 0 {
            assert(self@ =~= bounded_push(s, line@, 0));
            return ;
        }
        if self.lines.len() >= self.capacity {
            self.lines.pop_front();
        }
        self.lines.push_back(line);
        assert(self@ =~= bounded_push(s, line@, self.capacity as nat));
    }

    /// Adds each of `lines`, in order.
    pub fn push_lines(&mut self, lines: Vec<String>)
        requires
            old(self).wf(),
        ensures
            final(self).wf(),
            final(self).cap() == old(self).cap(),
            final(self)@ == push_all(old(self)@, lines@.map_values(|l: String| l@), old(self).cap()),
    {
        let ghost xs = lines@.map_values(|l: String| l@);
        let ghost s0 = self@;
        let mut lines = lines;
        let ghost all = lines@;
        assert(xs.subrange(0, xs.len() as int) =~= xs);
        while lines.len() > 0
            invariant
                lines@.len() <= all.len(),
                lines@ == all.subrange(all.len() - lines@.len(), all.len() as int),
                self.wf(),
                self.cap() == old(self).cap(),
                xs == all.map_values(|l: String| l@),
                push_all(self@, xs.subrange(all.len() - lines@.len(), xs.len() as int), self.cap())
                    == push_all(s0, xs, self.cap()),
            decreases lines@.len(),
        {
            let ghost i = all.len() - lines@.len();
            let line = lines.remove(0);
            let ghost rest = xs.subrange(i, xs.len() as int);
            assert(rest.drop_first() =~= xs.subrange(i + 1, xs.len() as int));
            self.push(line);
            assert(lines@ =~= all.subrange(i + 1, all.len() as int));
        }
        assert(xs.subrange(all.len() - lines@.len(), xs.len() as int) =~= Seq::<Seq<char>>::empty());
    }

    /// The lines joined into one text, each followed by a newline.
    pub fn joined_text(&self) -> (r: String)
        requires
            self.wf(),
        ensures
            r@ == joined(self@),
    {
        let mut r = String::new();
        let mut i: usize = 0;
        while i < self.lines.len()
            invariant
                i <= self@.len(),
                self@.len() == self.lines@.len(),
                r@ == joined(self@.subrange(0, i as int)),
            decreases self@.len() - i,
        {
            let line: &String = &self.lines[i];
            r.append(line.as_str());
            r.append("\n");
            proof {
                reveal_strlit("\n");
                assert(self@.subrange(0, i + 1).drop_last() =~= self@.subrange(0, i as int));
            }
            i = i + 1;
        }
        assert(self@.subrange(0, i as int) =~= self@);
        r
    }
}

} // verus!
