//! The log that every producer appends to: stamped lines, the newest of which
//! are kept.

use crate::text;
use vstd::prelude::*;
use vstd::string::StringExecFns;

verus! {

/// How many lines are kept.
pub const MAX_LINES: usize = 5000;

/// A number below one hundred in two digits.
pub open spec fn two_digits(n: int) -> Seq<char> {
    seq![text::digit_char(n / 10), text::digit_char(n % 10)]
}

/// The time of day, by the seconds since midnight of some day.
pub open spec fn clock(secs: int) -> Seq<char> {
    two_digits((secs / 3600) % 24) + ":"@ + two_digits((secs / 60) % 60) + ":"@ + two_digits(
        secs % 60,
    )
}

/// A line with the time of day in front of it.
pub open spec fn stamped(secs: int, line: Seq<char>) -> Seq<char> {
    "["@ + clock(secs) + "] "@ + line
}

/// The newest lines of a history, as many as are kept.
pub open spec fn newest(history: Seq<Seq<char>>) -> Seq<Seq<char>> {
    if history.len() > MAX_LINES {
        history.skip(history.len() - MAX_LINES)
    } else {
        history
    }
}

fn push_two_digits(out: &mut String, n: u64)
    requires
        n < 100,
    ensures
        final(out)@ == old(out)@ + two_digits(n as int),
{
    let ghost before = out@;
    out.push(text::digit_of(n / 10));
    out.push(text::digit_of(n % 10));
    assert(out@ =~= before + two_digits(n as int));
}

/// The time of day in UTC as `HH:MM:SS`, by the seconds since the epoch.
pub fn hhmmss(secs: u64) -> (r: String)
    ensures
        r@ == clock(secs as int),
{
    let mut out: String = String::new();
    push_two_digits(&mut out, (secs / 3600) % 24);
    out.append(":");
    push_two_digits(&mut out, (secs / 60) % 60);
    out.append(":");
    push_two_digits(&mut out, secs % 60);
    assert(out@ =~= clock(secs as int));
    out
}

/// A bounded list of log lines, oldest first.
#[derive(Debug)]
pub struct LogSink {
    lines: Vec<String>,
    mirror_stderr: bool,
}

impl LogSink {
    /// The lines that are kept, oldest first.
    pub closed spec fn lines(&self) -> Seq<Seq<char>> {
        text::texts(self.lines@)
    }

    /// Whether every line is also printed.
    pub closed spec fn mirrors(&self) -> bool {
        self.mirror_stderr
    }

    /// No more lines are kept than allowed.
    pub closed spec fn wf(&self) -> bool {
        self.lines@.len() <= MAX_LINES
    }

    /// An empty log; with `mirror_stderr` every line is also printed.
    pub fn new(mirror_stderr: bool) -> (r: LogSink)
        ensures
            r.wf(),
            r.lines() == Seq::<Seq<char>>::empty(),
            r.mirrors() == mirror_stderr,
    {
        let r = LogSink { lines: Vec::new(), mirror_stderr };
        assert(text::texts(r.lines@) =~= Seq::<Seq<char>>::empty());
        r
    }

    /// Append a line, stamped with the time of day; the oldest line makes room
    /// for it where the log is full. What is to be printed is handed back.
    pub fn push(&mut self, secs: u64, line: &str) -> (r: Option<String>)
        requires
            old(self).wf(),
        ensures
            final(self).wf(),
            final(self).mirrors() == old(self).mirrors(),
            final(self).lines() == newest(old(self).lines().push(stamped(secs as int, line@))),
            text::opt(r) == (if old(self).mirrors() {
                Some(stamped(secs as int, line@))
            } else {
                None
            }),
    {
        let clock: String = hhmmss(secs);
        let open: String = text::cat3("[", clock.as_str(), "] ");
        let stamped_line: String = text::cat(open.as_str(), line);
        let shown: Option<String> = if self.mirror_stderr {
            Some(stamped_line.clone())
        } else {
            None
        };
        let ghost before = text::texts(self.lines@);
        let ghost new = stamped_line@;
        self.lines.push(stamped_line);
        assert(text::texts(self.lines@) =~= before.push(new));
        if self.lines.len() > MAX_LINES {
            self.lines.remove(0);
            assert(text::texts(self.lines@) =~= before.push(new).skip(1));
        }
        shown
    }

    fn copy(&self, start: usize, end: usize) -> (r: Vec<String>)
        requires
            start <= end <= self.lines@.len(),
        ensures
            text::texts(r@) == text::texts(self.lines@).subrange(start as int, end as int),
    {
        let mut out: Vec<String> = Vec::new();
        let mut i: usize = start;
        while i < end
            invariant
                start <= i <= end <= self.lines@.len(),
                out@.len() == i - start,
                forall|k: int| 0 <= k < out@.len() ==> #[trigger] out@[k]@ == self.lines@[start + k]@,
            decreases end - i,
        {
            out.push(self.lines[i].clone());
            i = i + 1;
        }
        assert(text::texts(out@) =~= text::texts(self.lines@).subrange(start as int, end as int));
        out
    }

    /// The last `n` lines, oldest first.
    pub fn tail(&self, n: usize) -> (r: Vec<String>)
        ensures
            text::texts(r@) == (if n >= self.lines().len() {
                self.lines()
            } else {
                self.lines().skip(self.lines().len() - n)
            }),
    {
        let len: usize = self.lines.len();
        let start: usize = if n >= len {
            0
        } else {
            len - n
        };
        let r: Vec<String> = self.copy(start, len);
        assert(text::texts(r@) =~= self.lines().skip(start as int));
        assert(self.lines().skip(0) =~= self.lines());
        r
    }

    pub fn len(&self) -> (r: usize)
        ensures
            r == self.lines().len(),
    {
        self.lines.len()
    }

    /// The lines from `start` to before `end`, as far as there are such, oldest
    /// first.
    pub fn range(&self, start: usize, end: usize) -> (r: Vec<String>)
        ensures
            text::texts(r@) == (if start < end && start < self.lines().len() {
                self.lines().subrange(
                    start as int,
                    if end < self.lines().len() {
                        end as int
                    } else {
                        self.lines().len() as int
                    },
                )
            } else {
                Seq::empty()
            }),
    {
        let len: usize = self.lines.len();
        let last: usize = if end < len {
            end
        } else {
            len
        };
        let first: usize = if start < last {
            start
        } else {
            last
        };
        let r: Vec<String> = self.copy(first, last);
        assert(first == last ==> text::texts(r@) =~= Seq::<Seq<char>>::empty());
        r
    }

    /// The whole log as the text of a file, every line ended.
    pub fn dump_text(&self) -> (r: String)
        ensures
            r@ == text::joined(self.lines(), "\n"@) + "\n"@,
    {
        let all: String = text::join(self.lines.as_slice(), "\n");
        text::cat(all.as_str(), "\n")
    }
}

/// Appending to the kept lines of a history keeps what the longer history
/// keeps: at any time the log holds the newest lines of everything that was
/// pushed, in the order in which it was.
pub proof fn log_keeps_newest(history: Seq<Seq<char>>, line: Seq<char>)
    ensures
        newest(newest(history).push(line)) == newest(history.push(line)),
        newest(history).len() <= MAX_LINES,
{
    assert(newest(newest(history).push(line)) =~= newest(history.push(line)));
}

/// The newest line comes last.
pub proof fn newest_line_is_last(history: Seq<Seq<char>>, line: Seq<char>)
    ensures
        newest(history.push(line)).len() > 0,
        newest(history.push(line)).last() == line,
{
}

/// The time of day tells the hour, the minute and the second in two digits each,
/// with colons between them, whatever the day.
pub proof fn clock_tells_the_time(day: int, h: int, m: int, s: int)
    requires
        0 <= day,
        0 <= h < 24,
        0 <= m < 60,
        0 <= s < 60,
    ensures
        ({
            let c = clock(day * 86400 + h * 3600 + m * 60 + s);
            &&& c.len() == 8
            &&& c[2] == ':'
            &&& c[5] == ':'
            &&& text::digits_value(c.subrange(0, 2)) == h
            &&& text::digits_value(c.subrange(3, 5)) == m
            &&& text::digits_value(c.subrange(6, 8)) == s
        }),
{
    reveal_strlit(":");
    let secs = day * 86400 + h * 3600 + m * 60 + s;
    assert(secs / 3600 == day * 24 + h);
    assert((secs / 3600) % 24 == h);
    assert(secs / 60 == day * 1440 + h * 60 + m);
    assert((secs / 60) % 60 == m);
    assert(secs % 60 == s);
    let c = clock(secs);
    assert(c.subrange(0, 2) =~= two_digits(h));
    assert(c.subrange(3, 5) =~= two_digits(m));
    assert(c.subrange(6, 8) =~= two_digits(s));
    two_digits_denote(h);
    two_digits_denote(m);
    two_digits_denote(s);
}

proof fn two_digits_denote(n: int)
    requires
        0 <= n < 100,
    ensures
        text::digits_value(two_digits(n)) == n,
{
    let t = two_digits(n);
    assert(t.drop_last() =~= seq![text::digit_char(n / 10)]);
    assert(t.drop_last().drop_last() =~= Seq::<char>::empty());
    reveal_with_fuel(text::digits_value, 3);
}

/// A logged line is the line itself behind the time in brackets.
pub proof fn stamps_stand_in_front(secs: int, line: Seq<char>)
    requires
        0 <= secs,
    ensures
        stamped(secs, line).len() == line.len() + 11,
        stamped(secs, line)[0] == '[',
        stamped(secs, line).subrange(1, 9) == clock(secs),
        stamped(secs, line)[9] == ']',
        stamped(secs, line)[10] == ' ',
        stamped(secs, line).skip(11) == line,
{
    reveal_strlit("[");
    reveal_strlit("] ");
    reveal_strlit(":");
    let s = stamped(secs, line);
    assert(s.subrange(1, 9) =~= clock(secs));
    assert(s.skip(11) =~= line);
}

/// The log keeps the last five thousand lines, in the order in which they came.
pub proof fn last_lines_are_kept(older: Seq<Seq<char>>, last: Seq<Seq<char>>)
    requires
        last.len() <= 5000,
        older.len() > 0 ==> last.len() == 5000,
    ensures
        newest(older + last) == last,
{
    assert(newest(older + last) =~= last);
}

} // verus!
