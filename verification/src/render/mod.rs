//! Whole lines and half lines on a terminal.

use vstd::prelude::*;

use std::io;

pub mod input;

verus! {

/// What the agent is doing, for the status line.
#[derive(Debug, Clone, Copy, PartialEq, Eq, Structural)]
pub enum Status {
    Idle,
    Running,
    Queued(usize),
    Permission,
}

/// A call of a backend, with its answer.
pub enum BackendCall {
    Write(Seq<char>, io::Result<()>),
    Flush(io::Result<()>),
}

/// Where a [`Coordinator`] writes.
pub trait Backend {
    /// The calls so far, in their order.
    closed spec fn calls(&self) -> Seq<BackendCall> {
        arbitrary()
    }

    /// Everything that was written.
    closed spec fn written(&self) -> Seq<char> {
        arbitrary()
    }

    /// What was brought to the screen of it.
    closed spec fn flushed(&self) -> Seq<char> {
        arbitrary()
    }

    /// Whether nothing that is written here can fail, now or later. Of a real terminal this
    /// cannot be said.
    open spec fn infallible(&self) -> bool {
        false
    }

    /// Writes a text.
    fn write_str(&mut self, s: &str) -> (r: io::Result<()>)
        ensures
            final(self).calls() == old(self).calls().push(BackendCall::Write(s@, r)),
            r is Ok ==> final(self).written() == old(self).written() + s@,
            old(self).infallible() ==> r is Ok && final(self).infallible(),
    ;

    /// Brings what was written to the screen.
    fn flush(&mut self) -> (r: io::Result<()>)
        ensures
            final(self).calls() == old(self).calls().push(BackendCall::Flush(r)),
            final(self).written() == old(self).written(),
            r is Ok ==> final(self).flushed() == final(self).written(),
            old(self).infallible() ==> r is Ok && final(self).infallible(),
    ;

    /// The number of rows and of columns.
    fn size(&self) -> (usize, usize);
}

/// Writes lines, and remembers whether the last one still lacks its end.
pub struct Coordinator<B: Backend> {
    pub backend: B,
    pub mid_line: bool,
}

/// What a line adds to the screen: it never continues a half line.
pub open spec fn line_text(mid_line: bool, line: Seq<char>) -> Seq<char> {
    if mid_line {
        "\r\n"@ + line + "\r\n"@
    } else {
        line + "\r\n"@
    }
}

/// The texts that a line is written in.
pub open spec fn line_parts(mid_line: bool, line: Seq<char>) -> Seq<Seq<char>> {
    if mid_line {
        seq!["\r\n"@, line, "\r\n"@]
    } else {
        seq![line, "\r\n"@]
    }
}

/// The calls write the texts one after the other and flush at the end. The first error ends
/// them and is the result; without one the result is that of the flush.
pub open spec fn follows(calls: Seq<BackendCall>, texts: Seq<Seq<char>>, r: io::Result<()>) -> bool
    decreases texts.len(),
{
    if texts.len() == 0 {
        calls == seq![BackendCall::Flush(r)]
    } else {
        &&& calls.len() > 0
        &&& calls[0] matches BackendCall::Write(t, answer)
        &&& t == texts[0]
        &&& match answer {
            Ok(_) => follows(calls.skip(1), texts.skip(1), r),
            Err(e) => calls.len() == 1 && r == Err::<(), io::Error>(e),
        }
    }
}

/// The calls of `before` went on with calls that write the texts and flush.
pub open spec fn went_on(
    before: Seq<BackendCall>,
    after: Seq<BackendCall>,
    texts: Seq<Seq<char>>,
    r: io::Result<()>,
) -> bool {
    &&& before.len() < after.len()
    &&& after.take(before.len() as int) == before
    &&& follows(after.skip(before.len() as int), texts, r)
}

/// Whether a call is a write that failed.
pub open spec fn failed_write(call: BackendCall) -> bool {
    call matches BackendCall::Write(_, answer) && answer is Err
}

proof fn flush_follows(r: io::Result<()>)
    ensures
        follows(seq![BackendCall::Flush(r)], Seq::empty(), r),
{
}

proof fn write_follows(
    t: Seq<char>,
    answer: io::Result<()>,
    calls: Seq<BackendCall>,
    texts: Seq<Seq<char>>,
    r: io::Result<()>,
)
    requires
        match answer {
            Ok(_) => follows(calls, texts, r),
            Err(e) => calls.len() == 0 && r == Err::<(), io::Error>(e),
        },
    ensures
        follows(seq![BackendCall::Write(t, answer)] + calls, seq![t] + texts, r),
{
    let all = seq![BackendCall::Write(t, answer)] + calls;
    assert(all.skip(1) =~= calls);
    assert((seq![t] + texts).skip(1) =~= texts);
}

impl<B: Backend> Coordinator<B> {
    /// A coordinator at the beginning of a line.
    pub fn new(backend: B) -> (r: Self)
        ensures
            r.backend == backend,
            !r.mid_line,
    {
        Coordinator { backend, mid_line: false }
    }

    /// The backend.
    pub fn into_backend(self) -> (r: B)
        ensures
            r == self.backend,
    {
        self.backend
    }

    /// Writes a whole line. A half line before it is ended first. The first error of the
    /// backend ends the writing and is the result; where the backend cannot fail, this
    /// succeeds.
    pub fn emit(&mut self, line: &str) -> (r: io::Result<()>)
        ensures
            went_on(
                old(self).backend.calls(),
                final(self).backend.calls(),
                line_parts(old(self).mid_line, line@),
                r,
            ),
            r is Ok ==> {
                &&& final(self).backend.written() == old(self).backend.written() + line_text(
                    old(self).mid_line,
                    line@,
                )
                &&& final(self).backend.flushed() == final(self).backend.written()
            },
            final(self).mid_line == (old(self).mid_line && failed_write(
                final(self).backend.calls()[old(self).backend.calls().len() as int],
            )),
            old(self).backend.infallible() ==> r is Ok && final(self).backend.infallible(),
    {
        let ghost before = self.backend.written();
        let ghost start = self.backend.calls();
        let ghost parts = line_parts(self.mid_line, line@);
        let ghost mut made = Seq::<BackendCall>::empty();
        if self.mid_line {
            let a = self.backend.write_str("\r\n");
            proof {
                made = made.push(BackendCall::Write("\r\n"@, a));
            }
            match a {
                Ok(_) => {},
                Err(e) => {
                    proof {
                        let r = Err::<(), io::Error>(e);
                        write_follows("\r\n"@, r, Seq::empty(), seq![line@, "\r\n"@], r);
                        assert(seq!["\r\n"@] + seq![line@, "\r\n"@] =~= parts);
                        assert(self.backend.calls().skip(start.len() as int)
                            =~= seq![BackendCall::Write("\r\n"@, r)] + Seq::<
                            BackendCall,
                        >::empty());
                        assert(self.backend.calls().take(start.len() as int) =~= start);
                    }
                    return Err(e);
                },
            }
            self.mid_line = false;
        }
        let b = self.backend.write_str(line);
        match b {
            Ok(_) => {},
            Err(e) => {
                proof {
                    let r = Err::<(), io::Error>(e);
                    write_follows(line@, r, Seq::empty(), seq!["\r\n"@], r);
                    let tail = seq![BackendCall::Write(line@, r)] + Seq::<BackendCall>::empty();
                    self.line_went(start, made, tail, line@, r, *old(self));
                }
                return Err(e);
            },
        }
        let c = self.backend.write_str("\r\n");
        match c {
            Ok(_) => {},
            Err(e) => {
                proof {
                    let r = Err::<(), io::Error>(e);
                    write_follows("\r\n"@, r, Seq::empty(), Seq::empty(), r);
                    let last = seq![BackendCall::Write("\r\n"@, r)] + Seq::<BackendCall>::empty();
                    write_follows(line@, b, last, seq!["\r\n"@] + Seq::<Seq<char>>::empty(), r);
                    let tail = seq![BackendCall::Write(line@, b)] + last;
                    assert(seq![line@] + (seq!["\r\n"@] + Seq::<Seq<char>>::empty())
                        =~= seq![line@, "\r\n"@]);
                    self.line_went(start, made, tail, line@, r, *old(self));
                }
                return Err(e);
            },
        }
        assert(self.backend.written() =~= before + line_text(old(self).mid_line, line@));
        let r = self.backend.flush();
        proof {
            flush_follows(r);
            let end = seq![BackendCall::Flush(r)];
            write_follows("\r\n"@, c, end, Seq::empty(), r);
            let last = seq![BackendCall::Write("\r\n"@, c)] + end;
            write_follows(line@, b, last, seq!["\r\n"@] + Seq::<Seq<char>>::empty(), r);
            let tail = seq![BackendCall::Write(line@, b)] + last;
            assert(seq![line@] + (seq!["\r\n"@] + Seq::<Seq<char>>::empty())
                =~= seq![line@, "\r\n"@]);
            self.line_went(start, made, tail, line@, r, *old(self));
        }
        r
    }

    proof fn line_went(
        &self,
        start: Seq<BackendCall>,
        made: Seq<BackendCall>,
        tail: Seq<BackendCall>,
        line: Seq<char>,
        r: io::Result<()>,
        was: Self,
    )
        requires
            tail.len() > 0,
            self.backend.calls() =~= start + made + tail,
            follows(tail, seq![line, "\r\n"@], r),
            was.mid_line ==> made.len() == 1 && (made[0] matches BackendCall::Write(t, answer)
                && t == "\r\n"@ && answer is Ok),
            !was.mid_line ==> made.len() == 0,
        ensures
            went_on(start, self.backend.calls(), line_parts(was.mid_line, line), r),
            was.mid_line ==> !failed_write(self.backend.calls()[start.len() as int]),
    {
        let after = self.backend.calls();
        assert(after.take(start.len() as int) =~= start);
        if was.mid_line {
            let answer = made[0]->Write_1;
            write_follows("\r\n"@, answer, tail, seq![line, "\r\n"@], r);
            assert(after.skip(start.len() as int) =~= seq![BackendCall::Write("\r\n"@, answer)]
                + tail);
            assert(seq!["\r\n"@] + seq![line, "\r\n"@] =~= line_parts(true, line));
            assert(after[start.len() as int] == made[0]);
        } else {
            assert(after.skip(start.len() as int) =~= tail);
        }
    }

    /// Goes on with the current line and leaves it open. The first error of the backend ends
    /// the writing and is the result; where the backend cannot fail, this succeeds.
    pub fn emit_partial(&mut self, s: &str) -> (r: io::Result<()>)
        ensures
            went_on(old(self).backend.calls(), final(self).backend.calls(), seq![s@], r),
            r is Ok ==> {
                &&& final(self).backend.written() == old(self).backend.written() + s@
                &&& final(self).backend.flushed() == final(self).backend.written()
            },
            final(self).mid_line == (r is Ok || old(self).mid_line),
            old(self).backend.infallible() ==> r is Ok && final(self).backend.infallible(),
    {
        let ghost start = self.backend.calls();
        let a = self.backend.write_str(s);
        match a {
            Ok(_) => {},
            Err(e) => {
                proof {
                    let r = Err::<(), io::Error>(e);
                    write_follows(s@, r, Seq::empty(), Seq::empty(), r);
                    assert(self.backend.calls().take(start.len() as int) =~= start);
                    assert(self.backend.calls().skip(start.len() as int)
                        =~= seq![BackendCall::Write(s@, r)] + Seq::<BackendCall>::empty());
                    assert(seq![s@] + Seq::<Seq<char>>::empty() =~= seq![s@]);
                }
                return Err(e);
            },
        }
        let b = self.backend.flush();
        proof {
            flush_follows(b);
            write_follows(s@, a, seq![BackendCall::Flush(b)], Seq::empty(), b);
            assert(self.backend.calls().take(start.len() as int) =~= start);
            assert(self.backend.calls().skip(start.len() as int) =~= seq![BackendCall::Write(s@, a)]
                + seq![BackendCall::Flush(b)]);
            assert(seq![s@] + Seq::<Seq<char>>::empty() =~= seq![s@]);
        }
        match b {
            Ok(done) => {
                self.mid_line = true;
                Ok(done)
            },
            Err(e) => Err(e),
        }
    }
}

/// A terminal in memory.
pub struct VirtualTerm {
    pub buf: String,
    pub rows: usize,
    pub cols: usize,
    /// The calls so far.
    pub history: Ghost<Seq<BackendCall>>,
}

impl VirtualTerm {
    /// A terminal on which nothing was written.
    pub fn new(rows: usize, cols: usize) -> (r: Self)
        ensures
            r.buf@ == Seq::<char>::empty(),
            r.rows == rows,
            r.cols == cols,
            r.history@ == Seq::<BackendCall>::empty(),
    {
        let buf = String::new();
        assert(buf@ =~= Seq::<char>::empty());
        VirtualTerm { buf, rows, cols, history: Ghost(Seq::empty()) }
    }

    /// Everything that was written.
    pub fn screendump(&self) -> (r: String)
        ensures
            r@ == self.buf@,
    {
        self.buf.clone()
    }
}

impl Backend for VirtualTerm {
    open spec fn calls(&self) -> Seq<BackendCall> {
        self.history@
    }

    open spec fn flushed(&self) -> Seq<char> {
        self.buf@
    }

    open spec fn written(&self) -> Seq<char> {
        self.buf@
    }

    open spec fn infallible(&self) -> bool {
        true
    }

    fn write_str(&mut self, s: &str) -> (r: io::Result<()>)
        ensures
            r is Ok,
            final(self).rows == old(self).rows,
            final(self).cols == old(self).cols,
    {
        self.buf.push_str(s);
        let r: io::Result<()> = Ok(());
        self.history = Ghost(self.history@.push(BackendCall::Write(s@, r)));
        r
    }

    fn flush(&mut self) -> (r: io::Result<()>)
        ensures
            r is Ok,
            final(self).buf == old(self).buf,
            final(self).rows == old(self).rows,
            final(self).cols == old(self).cols,
    {
        let r: io::Result<()> = Ok(());
        self.history = Ghost(self.history@.push(BackendCall::Flush(r)));
        r
    }

    fn size(&self) -> (r: (usize, usize))
        ensures
            r == (self.rows, self.cols),
    {
        (self.rows, self.cols)
    }
}

/// The law of lines: a line stands on a line of its own. It is written whole, and then the
/// line ends; where the cursor stands behind a half line, that is ended first, and nowhere
/// else. What the parts write is what the line adds to the screen.
pub proof fn law_lines_stand_alone(mid_line: bool, line: Seq<char>)
    ensures
        ({
            let end = seq!['\r', '\n'];
            let parts = line_parts(mid_line, line);
            &&& line_text(false, line) == line + end
            &&& line_text(true, line) == end + line + end
            &&& parts.flatten() == line_text(mid_line, line)
            &&& parts.contains(line)
        }),
{
    reveal_strlit("\r\n");
    assert("\r\n"@ =~= seq!['\r', '\n']);
    let parts = line_parts(mid_line, line);
    let end = "\r\n"@;
    let none = Seq::<Seq<char>>::empty();
    assert(none.flatten() =~= Seq::empty());
    assert(seq![end].drop_first() =~= none);
    assert(seq![end].flatten() =~= end);
    if mid_line {
        assert(parts[1] == line);
        assert(parts.drop_first() =~= seq![line, end]);
        assert(seq![line, end].drop_first() =~= seq![end]);
        assert(seq![line, end].flatten() =~= line + end);
        assert(parts.flatten() =~= line_text(mid_line, line));
    } else {
        assert(parts[0] == line);
        assert(parts.drop_first() =~= seq![end]);
        assert(parts.flatten() =~= line_text(mid_line, line));
    }
}

} // verus!
