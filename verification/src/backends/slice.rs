//! Windows of lines.
#![verifier::loop_isolation(false)]

use crate::text::{push_item, texts_from};
use std::collections::VecDeque;
use vstd::prelude::*;

verus! {

/// The lines behind the first `skip`, at most `first` of them.
pub open spec fn window(lines: Seq<Seq<char>>, skip: nat, first: nat) -> Seq<Seq<char>> {
    let start = if skip > lines.len() {
        lines.len()
    } else {
        skip
    };
    let end = if start + first > lines.len() {
        lines.len()
    } else {
        start + first
    };
    lines.subrange(start as int, end as int)
}

/// The last lines, at most `count` of them.
pub open spec fn last_lines(lines: Seq<Seq<char>>, count: nat) -> Seq<Seq<char>> {
    if lines.len() > count {
        lines.skip(lines.len() - count)
    } else {
        lines
    }
}

/// The lines behind the first `skip`, at most `first` of them.
pub fn slice_lines(lines: &Vec<String>, skip: usize, first: usize) -> (r: Vec<String>)
    ensures
        r.deep_view() == window(lines.deep_view(), skip as nat, first as nat),
{
    let ghost view = lines.deep_view();
    let start: usize = if skip > lines.len() {
        lines.len()
    } else {
        skip
    };
    let end: usize = if first > lines.len() - start {
        lines.len()
    } else {
        start + first
    };
    let mut out: Vec<String> = Vec::new();
    let mut i: usize = start;
    assert(out.deep_view() =~= view.subrange(start as int, start as int));
    while i < end
        invariant
            start <= i <= end <= lines.len(),
            out.deep_view() == view.subrange(start as int, i as int),
        decreases end - i,
    {
        push_item(&mut out, lines[i].clone());
        i += 1;
        assert(out.deep_view() =~= view.subrange(start as int, i as int));
    }
    out
}

/// The first lines, at most `count` of them.
pub fn head_lines(lines: &Vec<String>, count: usize) -> (r: Vec<String>)
    ensures
        r.deep_view() == window(lines.deep_view(), 0, count as nat),
{
    slice_lines(lines, 0, count)
}

/// The last lines, at most `count` of them.
pub fn tail_lines(lines: &Vec<String>, count: usize) -> (r: Vec<String>)
    ensures
        r.deep_view() == last_lines(lines.deep_view(), count as nat),
{
    if lines.len() > count {
        texts_from(lines, lines.len() - count)
    } else {
        let all = texts_from(lines, 0);
        assert(lines.deep_view().skip(0) =~= lines.deep_view());
        all
    }
}

/// The last lines as they are kept while lines are read one by one.
#[derive(Debug)]
pub struct TailBuffer {
    /// The kept lines, oldest first.
    pub lines: VecDeque<String>,
    /// How many are kept.
    pub count: usize,
}

impl TailBuffer {
    /// Whether the buffer holds the last of the lines read.
    pub open spec fn holds(&self, read: Seq<Seq<char>>) -> bool {
        self.lines.deep_view() == last_lines(read, self.count as nat)
    }

    /// A buffer before anything is read.
    pub fn new(count: usize) -> (r: Self)
        ensures
            r.count == count,
            r.holds(Seq::empty()),
    {
        let lines: VecDeque<String> = VecDeque::new();
        assert(lines.deep_view() =~= Seq::<Seq<char>>::empty());
        TailBuffer { lines, count }
    }

    /// Takes one more line, and forgets the oldest where there are too many.
    pub fn push(&mut self, line: String)
        ensures
            final(self).count == old(self).count,
            forall|read: Seq<Seq<char>>|
                old(self).holds(read) ==> #[trigger] final(self).holds(read.push(line@)),
    {
        let ghost before = self.lines.deep_view();
        let ghost count = self.count;
        if self.count == 0 {
            assert forall|read: Seq<Seq<char>>| old(self).holds(read) implies #[trigger] self.holds(
                read.push(line@),
            ) by {
                assert(last_lines(read, 0) =~= Seq::<Seq<char>>::empty());
                assert(last_lines(read.push(line@), 0) =~= Seq::<Seq<char>>::empty());
            }
            return;
        }
        if self.lines.len() >= self.count {
            let ghost full = self.lines@;
            let _ = self.lines.pop_front();
            assert(self.lines.deep_view() =~= before.skip(1)) by {
                assert(self.lines@ =~= full.skip(1));
            }
        }
        let ghost shorter = self.lines.deep_view();
        let ghost short = self.lines@;
        self.lines.push_back(line);
        assert(self.lines.deep_view() =~= shorter.push(line@)) by {
            assert(self.lines@ =~= short.push(line));
        }
        assert forall|read: Seq<Seq<char>>| old(self).holds(read) implies #[trigger] self.holds(
            read.push(line@),
        ) by {
            let all = read.push(line@);
            assert(before == last_lines(read, count as nat));
            assert(before.len() <= count);
            assert(self.lines.deep_view() =~= last_lines(all, count as nat));
        }
    }

    /// The kept lines.
    pub fn finish(self) -> (r: Vec<String>)
        ensures
            r.deep_view() == self.lines.deep_view(),
    {
        let ghost view = self.lines.deep_view();
        let mut lines = self.lines;
        let mut out: Vec<String> = Vec::new();
        assert(out.deep_view() + lines.deep_view() =~= view);
        while lines.len() > 0
            invariant
                out.deep_view() + lines.deep_view() == view,
            decreases lines.len(),
        {
            let ghost full = lines@;
            let ghost rest = lines.deep_view();
            let ghost before = out.deep_view();
            if let Some(line) = lines.pop_front() {
                assert(lines@ =~= full.skip(1));
                assert(lines.deep_view() =~= rest.skip(1));
                assert(rest[0] == line@);
                push_item(&mut out, line);
                assert(out.deep_view() + lines.deep_view() =~= before + rest);
            }
        }
        assert(out.deep_view() + lines.deep_view() =~= out.deep_view());
        out
    }
}

/// What to do with the next line.
#[derive(Debug, Clone, Copy, PartialEq, Eq, Structural)]
pub enum LineUse {
    Skip,
    Take,
    Stop,
}

/// A window of lines as it fills while lines are read one by one.
#[derive(Debug)]
pub struct WindowBuffer {
    pub skip: usize,
    pub first: usize,
    /// How many lines are skipped so far.
    pub skipped: usize,
    /// The lines taken so far.
    pub lines: Vec<String>,
}

impl WindowBuffer {
    /// Whether the buffer holds the window of the lines read.
    pub open spec fn holds(&self, read: Seq<Seq<char>>) -> bool {
        &&& self.skipped == if read.len() < self.skip {
            read.len()
        } else {
            self.skip as nat
        }
        &&& self.lines.deep_view() == window(read, self.skip as nat, self.first as nat)
    }

    /// What the buffer does with the next line.
    pub open spec fn use_of_next(&self) -> LineUse {
        if self.skipped < self.skip {
            LineUse::Skip
        } else if self.lines.deep_view().len() < self.first {
            LineUse::Take
        } else {
            LineUse::Stop
        }
    }

    /// A buffer before anything is read.
    pub fn new(skip: usize, first: usize) -> (r: Self)
        ensures
            r.skip == skip,
            r.first == first,
            r.holds(Seq::empty()),
    {
        let lines: Vec<String> = Vec::new();
        assert(lines.deep_view() =~= window(Seq::empty(), skip as nat, first as nat));
        WindowBuffer { skip, first, skipped: 0, lines }
    }

    /// What the buffer does with the next line.
    pub fn next_use(&self) -> (r: LineUse)
        ensures
            r == self.use_of_next(),
    {
        if self.skipped < self.skip {
            LineUse::Skip
        } else if self.lines.len() < self.first {
            LineUse::Take
        } else {
            LineUse::Stop
        }
    }

    /// Passes over a line, whatever it holds.
    pub fn skip_line(&mut self)
        requires
            old(self).use_of_next() is Skip,
        ensures
            final(self).skip == old(self).skip,
            final(self).first == old(self).first,
            forall|read: Seq<Seq<char>>, line: Seq<char>|
                old(self).holds(read) ==> #[trigger] final(self).holds(read.push(line)),
    {
        self.skipped += 1;
        assert forall|read: Seq<Seq<char>>, line: Seq<char>| old(self).holds(
            read,
        ) implies #[trigger] self.holds(read.push(line)) by {
            assert(window(read.push(line), self.skip as nat, self.first as nat) =~= window(
                read,
                self.skip as nat,
                self.first as nat,
            ));
        }
    }

    /// Takes a line.
    pub fn push(&mut self, line: String)
        requires
            old(self).use_of_next() is Take,
        ensures
            final(self).skip == old(self).skip,
            final(self).first == old(self).first,
            forall|read: Seq<Seq<char>>|
                old(self).holds(read) ==> #[trigger] final(self).holds(read.push(line@)),
    {
        push_item(&mut self.lines, line);
        assert forall|read: Seq<Seq<char>>| old(self).holds(read) implies #[trigger] self.holds(
            read.push(line@),
        ) by {
            assert(window(read.push(line@), self.skip as nat, self.first as nat) =~= window(
                read,
                self.skip as nat,
                self.first as nat,
            ).push(line@));
        }
    }
}

/// A full window does not change when more lines are read.
pub proof fn law_full_window_is_final(
    buffer: WindowBuffer,
    read: Seq<Seq<char>>,
    more: Seq<Seq<char>>,
)
    requires
        buffer.holds(read),
        buffer.use_of_next() is Stop,
    ensures
        buffer.holds(read + more),
{
    assert(window(read + more, buffer.skip as nat, buffer.first as nat) =~= window(
        read,
        buffer.skip as nat,
        buffer.first as nat,
    ));
}

/// The first lines and the lines behind them are all lines.
pub proof fn law_head_and_rest(lines: Seq<Seq<char>>, count: nat)
    ensures
        window(lines, 0, count) + window(lines, count, lines.len()) == lines,
{
    assert(window(lines, 0, count) + window(lines, count, lines.len()) =~= lines);
}

/// A window is what is taken of the lines behind those skipped.
pub proof fn law_window_is_skip_then_take(lines: Seq<Seq<char>>, skip: nat, first: nat)
    ensures
        window(lines, skip, first) == window(window(lines, skip, lines.len()), 0, first),
        window(lines, skip, first).len() <= first,
{
    assert(window(lines, skip, first) =~= window(window(lines, skip, lines.len()), 0, first));
}

/// The last lines are a window that ends with the lines.
pub proof fn law_tail_is_window(lines: Seq<Seq<char>>, count: nat)
    requires
        count <= lines.len(),
    ensures
        last_lines(lines, count) == window(lines, (lines.len() - count) as nat, count),
{
    assert(last_lines(lines, count) =~= window(lines, (lines.len() - count) as nat, count));
}

} // verus!
