//! A bounded buffer of the most recent log lines of one tunnel: lines go
//! in at the tail, and once the buffer is full the oldest line leaves
//! first. Overflow is silent eviction, never a failure.

use vstd::prelude::*;
use std::collections::VecDeque;

verus! {

/// How many lines a buffer holds at most.
pub const MAX_LOG_LINES: usize = 1000;

/// One step of the buffer: the line goes in at the tail, and when the
/// buffer is already full the head leaves first.
pub open spec fn log_push_spec(l: Seq<Seq<char>>, x: Seq<char>) -> Seq<Seq<char>> {
    if l.len() >= MAX_LOG_LINES {
        l.drop_first().push(x)
    } else {
        l.push(x)
    }
}

/// The at-most-`MAX_LOG_LINES` most recent entries of a full append
/// history, in their original order.
pub open spec fn recent_window(h: Seq<Seq<char>>) -> Seq<Seq<char>> {
    if h.len() <= MAX_LOG_LINES {
        h
    } else {
        h.skip(h.len() - MAX_LOG_LINES)
    }
}

/// Bounded buffer of recent log lines, oldest first.
pub struct LogBuffer {
    lines: VecDeque<String>,
}

impl View for LogBuffer {
    type V = Seq<Seq<char>>;

    closed spec fn view(&self) -> Seq<Seq<char>> {
        self.lines@.map_values(|l: String| l@)
    }
}

impl LogBuffer {
    /// The buffer never holds more lines than its capacity.
    pub open spec fn wf(&self) -> bool {
        self@.len() <= MAX_LOG_LINES
    }

    /// An empty buffer.
    pub fn new() -> (r: Self)
        ensures
            r@ == Seq::<Seq<char>>::empty(),
            r.wf(),
    {
        let r = LogBuffer { lines: VecDeque::new() };
        proof {
            assert(r@ =~= Seq::<Seq<char>>::empty());
        }
        r
    }

    /// Insert a line at the tail, evicting the head first when the
    /// buffer is already at capacity.
    pub fn add_line(&mut self, line: String)
        requires
            old(self).wf(),
        ensures
            final(self)@ == log_push_spec(old(self)@, line@),
            final(self).wf(),
    {
        let ghost pre = self.lines@;
        if self.lines.len() >= MAX_LOG_LINES {
            let _evicted = self.lines.pop_front();
            proof {
                assert(self.lines@ =~= pre.drop_first());
            }
        }
        self.lines.push_back(line);
        proof {
            assert(self@ =~= log_push_spec(pre.map_values(|l: String| l@), line@));
        }
    }

    /// An independent copy of the current contents, oldest first.
    pub fn get_lines(&self) -> (r: Vec<String>)
        ensures
            r@.map_values(|l: String| l@) == self@,
            r@.len() == self@.len(),
    {
        let n = self.lines.len();
        let mut r: Vec<String> = Vec::new();
        let mut i: usize = 0;
        while i < n
            invariant
                0 <= i <= n,
                n == self.lines@.len(),
                r@.len() == i,
                forall|j: int| 0 <= j < i ==> r@[j] == self.lines@[j],
            decreases n - i,
        {
            r.push(self.lines[i].clone());
            i = i + 1;
        }
        proof {
            assert(r@.map_values(|l: String| l@) =~= self@);
        }
        r
    }
}

/// The buffer contents after a whole history of appends into an
/// initially empty buffer, one `log_push_spec` step per line.
pub open spec fn buffer_of_history(h: Seq<Seq<char>>) -> Seq<Seq<char>>
    decreases h.len(),
{
    if h.len() == 0 {
        Seq::empty()
    } else {
        log_push_spec(buffer_of_history(h.drop_last()), h.last())
    }
}

/// Law of the bounded buffer, one step: a buffer that holds the most
/// recent at-most-`MAX_LOG_LINES` lines of its append history still
/// does so after one more append.
pub proof fn lemma_buffer_tracks_history(h: Seq<Seq<char>>, x: Seq<char>)
    ensures
        recent_window(h).len() <= MAX_LOG_LINES,
        recent_window(h.push(x)) == log_push_spec(recent_window(h), x),
{
    if h.len() < MAX_LOG_LINES {
        assert(recent_window(h.push(x)) =~= log_push_spec(recent_window(h), x));
    } else if h.len() == MAX_LOG_LINES {
        assert(recent_window(h.push(x)) =~= h.drop_first().push(x));
        assert(log_push_spec(recent_window(h), x) =~= h.drop_first().push(x));
    } else {
        assert(recent_window(h.push(x)) =~= h.push(x).skip(h.len() + 1 - MAX_LOG_LINES));
        assert(recent_window(h).drop_first() =~= h.skip(h.len() + 1 - MAX_LOG_LINES));
        assert(recent_window(h.push(x)) =~= log_push_spec(recent_window(h), x));
    }
}

/// Law of the bounded buffer, over every append history: starting
/// empty, after any sequence of appends the buffer holds exactly the
/// most recent at-most-`MAX_LOG_LINES` lines of that history — a
/// suffix, in original order, never over capacity.
pub proof fn lemma_history_window(h: Seq<Seq<char>>)
    ensures
        buffer_of_history(h) == recent_window(h),
        buffer_of_history(h).len() <= MAX_LOG_LINES,
    decreases h.len(),
{
    if h.len() == 0 {
        assert(recent_window(h) =~= Seq::<Seq<char>>::empty());
    } else {
        lemma_history_window(h.drop_last());
        lemma_buffer_tracks_history(h.drop_last(), h.last());
        assert(h.drop_last().push(h.last()) =~= h);
    }
}

} // verus!
