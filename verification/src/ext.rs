//! What a file handle can do, as traits: reads and writes at the stream
//! position, at an offset, and over several buffers at once.
//!
//! A raw handle of the operating system implements them by making the call;
//! [`File`](crate::file::File) implements them on top of such a handle.
//! Every method takes, beside a buffer, the address at which the buffer
//! lies, so that what is said of a call can say where its memory lay. Each
//! trait names, as a relation between what a call is given and what it
//! leaves, what one call may do; a method's contract says that the call did
//! one of these things, so that an adapter can state which call it made, on
//! which bytes and on memory at which address. A handle that says nothing of
//! its calls leaves the relation at its default, which admits everything.

use vstd::prelude::*;
use crate::align::stageable;
use crate::error::Error;

verus! {

/// How often `write_all_at` tries one write again that keeps being
/// interrupted, before it reports the interruption.
pub const MAX_INTERRUPTS: u64 = 0xffff_ffff_ffff_ffff;

/// What `write_all_at` does after one of its writes.
#[derive(Debug, Clone, Copy, PartialEq, Eq, Structural)]
pub enum WriteAllStep {
    /// It goes on: `done` bytes are written, and the next write may be
    /// interrupted `tries` times before the interruption is reported.
    Continue { done: usize, tries: u64 },
    /// It ends with this failure.
    Fail(Error),
}

/// The step that follows a write which was made after `done` bytes, with
/// `tries` interruptions still to be borne, and which returned `native`.
///
/// A write of nothing ends the attempt with `WriteZero`. A write of `n`
/// bytes moves on by `n`, and the next write may again be interrupted
/// `MAX_INTERRUPTS` times. A write that was interrupted is made again at the
/// same place, with one try less, as long as a try is left. Any other
/// failure ends the attempt with that failure.
pub open spec fn spec_write_all_step(
    done: usize,
    tries: u64,
    native: Result<usize, Error>,
) -> WriteAllStep {
    match native {
        Ok(n) => if n == 0 {
            WriteAllStep::Fail(Error::WriteZero)
        } else {
            WriteAllStep::Continue { done: (done + n) as usize, tries: MAX_INTERRUPTS }
        },
        Err(e) => if e.is_interrupted() && tries > 0 {
            WriteAllStep::Continue { done: done, tries: (tries - 1) as u64 }
        } else {
            WriteAllStep::Fail(e)
        },
    }
}

/// Decides how `write_all_at` goes on after a write that returned `native`.
pub fn write_all_step(done: usize, tries: u64, native: Result<usize, Error>) -> (step:
    WriteAllStep)
    requires
        native matches Ok(n) ==> done + n <= usize::MAX,
    ensures
        step == spec_write_all_step(done, tries, native),
{
    match native {
        Ok(n) => {
            if n == 0 {
                WriteAllStep::Fail(Error::WriteZero)
            } else {
                WriteAllStep::Continue { done: done + n, tries: MAX_INTERRUPTS }
            }
        },
        Err(e) => {
            if e.interrupted() && tries > 0 {
                WriteAllStep::Continue { done: done, tries: tries - 1 }
            } else {
                WriteAllStep::Fail(e)
            }
        },
    }
}

/// Reads and writes at the position of the stream.
pub trait StreamExt {
    /// What a read may do: the address of the buffer, the buffer as it was,
    /// the buffer as it is left, and the result.
    open spec fn read_spec(
        &self,
        addr: usize,
        before: Seq<u8>,
        after: Seq<u8>,
        res: Result<usize, Error>,
    ) -> bool {
        true
    }

    /// What a write of `data`, which lies at `addr`, may return.
    open spec fn write_spec(&self, addr: usize, data: Seq<u8>, res: Result<usize, Error>) -> bool {
        true
    }

    /// Reads into `buf`, which lies at `addr`, and returns how many bytes
    /// were read, never more than `buf` holds.
    fn read(&self, buf: &mut [u8], addr: usize) -> (res: Result<usize, Error>)
        requires
            stageable(old(buf)@.len() as int),
        ensures
            final(buf)@.len() == old(buf)@.len(),
            res matches Ok(n) ==> n <= old(buf)@.len(),
            self.read_spec(addr, old(buf)@, final(buf)@, res),
    ;

    /// Writes from `buf`, which lies at `addr`, and returns how many bytes
    /// were written, never more than `buf` holds.
    fn write(&self, buf: &[u8], addr: usize) -> (res: Result<usize, Error>)
        requires
            stageable(buf@.len() as int),
        ensures
            res matches Ok(n) ==> n <= buf@.len(),
            self.write_spec(addr, buf@, res),
    ;
}

/// Reads and writes at an offset, which leave the position of the stream
/// alone.
pub trait PositionedExt {
    /// What a read at `offset` may do: the address of the buffer, the buffer
    /// as it was, the buffer as it is left, and the result.
    open spec fn read_at_spec(
        &self,
        addr: usize,
        before: Seq<u8>,
        offset: u64,
        after: Seq<u8>,
        res: Result<usize, Error>,
    ) -> bool {
        true
    }

    /// What a write at `offset` of `data`, which lies at `addr`, may return.
    open spec fn write_at_spec(
        &self,
        addr: usize,
        data: Seq<u8>,
        offset: u64,
        res: Result<usize, Error>,
    ) -> bool {
        true
    }

    /// Reads into `buf`, which lies at `addr`, from `offset` on and returns
    /// how many bytes were read, never more than `buf` holds.
    fn read_at(&self, buf: &mut [u8], addr: usize, offset: u64) -> (res: Result<usize, Error>)
        requires
            stageable(old(buf)@.len() as int),
        ensures
            final(buf)@.len() == old(buf)@.len(),
            res matches Ok(n) ==> n <= old(buf)@.len(),
            self.read_at_spec(addr, old(buf)@, offset, final(buf)@, res),
    ;

    /// Writes from `buf`, which lies at `addr`, at `offset` and returns how
    /// many bytes were written, never more than `buf` holds.
    fn write_at(&self, buf: &[u8], addr: usize, offset: u64) -> (res: Result<usize, Error>)
        requires
            stageable(buf@.len() as int),
        ensures
            res matches Ok(n) ==> n <= buf@.len(),
            self.write_at_spec(addr, buf@, offset, res),
    ;

    /// Writes all of `buf`, which lies at `addr`, at `offset`: one write
    /// after the other, each where the one before it stopped, until nothing
    /// is left. What follows a write is what `spec_write_all_step` says: a
    /// write that was interrupted is made again, up to `MAX_INTERRUPTS`
    /// times in a row; a write that wrote nothing ends the attempt with
    /// `WriteZero`, any other failure with that failure. The last clause
    /// says so of the whole run; the two before it say what a success and a
    /// failure mean for the bytes.
    fn write_all_at(&self, buf: &[u8], addr: usize, offset: u64) -> (res: Result<(), Error>)
        requires
            stageable(buf@.len() as int),
            offset + buf@.len() <= u64::MAX,
            addr + buf@.len() <= usize::MAX,
        ensures
            res is Ok ==> wrote_all(
                |a: usize, d: Seq<u8>, o: u64, r: Result<usize, Error>|
                    self.write_at_spec(a, d, o, r),
                addr,
                buf@,
                offset as int,
            ),
            res matches Err(e) ==> write_failed(
                |a: usize, d: Seq<u8>, o: u64, r: Result<usize, Error>|
                    self.write_at_spec(a, d, o, r),
                addr,
                buf@,
                offset as int,
                e,
            ),
            exists|natives: Seq<Result<usize, Error>>|
                #![trigger natives.len()]
                write_all_run(
                    |a: usize, d: Seq<u8>, o: u64, r: Result<usize, Error>|
                        self.write_at_spec(a, d, o, r),
                    addr,
                    buf@,
                    offset as int,
                    0,
                    MAX_INTERRUPTS,
                    natives,
                    res,
                ),
    {
        let len: usize = buf.len();
        let mut done: usize = 0;
        let mut tries: u64 = MAX_INTERRUPTS;
        let ghost rel: WriteAt = |a: usize, d: Seq<u8>, o: u64, r: Result<usize, Error>|
            self.write_at_spec(a, d, o, r);
        let ghost mut seen: Seq<Result<usize, Error>> = Seq::empty();
        proof {
            assert forall|rest: Seq<Result<usize, Error>>, r: Result<(), Error>| #[trigger]
                write_all_run(rel, addr, buf@, offset as int, done, tries, rest, r) implies
                write_all_run(
                rel,
                addr,
                buf@,
                offset as int,
                0,
                MAX_INTERRUPTS,
                seen + rest,
                r,
            ) by {
                assert(seen + rest =~= rest);
            }
        }
        while done < len
            invariant
                done <= len,
                len == buf@.len(),
                stageable(buf@.len() as int),
                offset + buf@.len() <= u64::MAX,
                addr + buf@.len() <= usize::MAX,
                rel == (|a: usize, d: Seq<u8>, o: u64, r: Result<usize, Error>|
                    self.write_at_spec(a, d, o, r)),
                wrote_range(rel, addr, buf@, offset as int, 0, done as int),
                forall|rest: Seq<Result<usize, Error>>, r: Result<(), Error>| #[trigger]
                    write_all_run(rel, addr, buf@, offset as int, done, tries, rest, r)
                        ==> write_all_run(
                        rel,
                        addr,
                        buf@,
                        offset as int,
                        0,
                        MAX_INTERRUPTS,
                        seen + rest,
                        r,
                    ),
            decreases len - done, tries,
        {
            let (_, rest) = buf.split_at(done);
            let at: u64 = offset + done as u64;
            proof {
                assert(rest@ =~= buf@.skip(done as int));
            }
            let native = self.write_at(rest, addr + done, at);
            proof {
                assert(rel((addr + done) as usize, buf@.skip(done as int), at, native));
            }
            match write_all_step(done, tries, native) {
                WriteAllStep::Continue { done: reached, tries: left } => {
                    proof {
                        assert forall|rest: Seq<Result<usize, Error>>, r: Result<(), Error>|
                            #[trigger] write_all_run(
                                rel,
                                addr,
                                buf@,
                                offset as int,
                                reached,
                                left,
                                rest,
                                r,
                            ) implies write_all_run(
                            rel,
                            addr,
                            buf@,
                            offset as int,
                            0,
                            MAX_INTERRUPTS,
                            seen.push(native) + rest,
                            r,
                        ) by {
                            let longer = seq![native] + rest;
                            assert(longer[0] == native);
                            assert(longer.skip(1) =~= rest);
                            assert(write_all_run(
                                rel,
                                addr,
                                buf@,
                                offset as int,
                                done,
                                tries,
                                longer,
                                r,
                            ));
                            assert(seen + longer =~= seen.push(native) + rest);
                        }
                        seen = seen.push(native);
                        if native is Ok {
                            lemma_wrote_range_extend(
                                rel,
                                addr,
                                buf@,
                                offset as int,
                                0,
                                done as int,
                                native->Ok_0,
                            );
                        }
                    }
                    done = reached;
                    tries = left;
                },
                WriteAllStep::Fail(e) => {
                    proof {
                        let last = seq![native];
                        assert(last[0] == native);
                        assert(write_all_run(
                            rel,
                            addr,
                            buf@,
                            offset as int,
                            done,
                            tries,
                            last,
                            Err::<(), Error>(e),
                        ));
                        assert((seen + last).len() >= 0);
                    }
                    return Err(e);
                },
            }
        }
        proof {
            let none = Seq::<Result<usize, Error>>::empty();
            assert(write_all_run(rel, addr, buf@, offset as int, done, tries, none, Ok(())));
            assert(seen + none =~= seen);
            assert(seen.len() >= 0);
        }
        Ok(())
    }
}

/// What the buffers of a list hold, one sequence of bytes for each.
pub open spec fn contents(bufs: Seq<&[u8]>) -> Seq<Seq<u8>> {
    Seq::new(bufs.len(), |i: int| bufs[i]@)
}

/// What the buffers of a list hold that can be written to, one sequence of
/// bytes for each.
pub open spec fn contents_mut(bufs: Seq<&mut [u8]>) -> Seq<Seq<u8>> {
    Seq::new(bufs.len(), |i: int| bufs[i]@)
}

/// Whether every buffer of a list can be staged.
pub open spec fn all_stageable(bufs: Seq<Seq<u8>>) -> bool {
    forall|i: int| 0 <= i < bufs.len() ==> stageable(#[trigger] bufs[i].len() as int)
}

/// Reads and writes over several buffers in one call: a read fills them in
/// their order, a write takes them in their order. Beside the buffers a
/// method takes their addresses, one for each.
pub trait VectoredExt {
    /// What a read into several buffers may do, at the stream position or
    /// at an offset: the addresses of the buffers, the buffers as they
    /// were, as they are left, and the result.
    open spec fn read_vectored_spec(
        &self,
        addrs: Seq<usize>,
        before: Seq<Seq<u8>>,
        offset: Option<u64>,
        after: Seq<Seq<u8>>,
        res: Result<usize, Error>,
    ) -> bool {
        true
    }

    /// What a write of several buffers, which lie at `addrs`, may return,
    /// at the stream position or at an offset.
    open spec fn write_vectored_spec(
        &self,
        addrs: Seq<usize>,
        data: Seq<Seq<u8>>,
        offset: Option<u64>,
        res: Result<usize, Error>,
    ) -> bool {
        true
    }

    /// Reads into the buffers, at the position of the stream, and returns
    /// how many bytes were read in all.
    fn read_vectored(&self, bufs: &mut [&mut [u8]], addrs: &[usize]) -> (res: Result<usize, Error>)
        requires
            addrs@.len() == old(bufs)@.len(),
            all_stageable(contents_mut(old(bufs)@)),
        ensures
            final(bufs)@.len() == old(bufs)@.len(),
            forall|i: int|
                0 <= i < old(bufs)@.len() ==> final(bufs)@[i]@.len() == old(bufs)@[i]@.len(),
            forall|i: int|
                0 <= i < old(bufs)@.len() ==> final(final(bufs)@[i])@ == final(old(bufs)@[i])@,
            self.read_vectored_spec(
                addrs@,
                contents_mut(old(bufs)@),
                None,
                contents_mut(final(bufs)@),
                res,
            ),
    ;

    /// Reads into the buffers from `offset` on, and returns how many bytes
    /// were read in all.
    fn read_vectored_at(&self, bufs: &mut [&mut [u8]], addrs: &[usize], offset: u64) -> (res:
        Result<usize, Error>)
        requires
            addrs@.len() == old(bufs)@.len(),
            all_stageable(contents_mut(old(bufs)@)),
        ensures
            final(bufs)@.len() == old(bufs)@.len(),
            forall|i: int|
                0 <= i < old(bufs)@.len() ==> final(bufs)@[i]@.len() == old(bufs)@[i]@.len(),
            forall|i: int|
                0 <= i < old(bufs)@.len() ==> final(final(bufs)@[i])@ == final(old(bufs)@[i])@,
            self.read_vectored_spec(
                addrs@,
                contents_mut(old(bufs)@),
                Some(offset),
                contents_mut(final(bufs)@),
                res,
            ),
    ;

    /// Writes the buffers, at the position of the stream, and returns how
    /// many bytes were written in all.
    fn write_vectored(&self, bufs: &[&[u8]], addrs: &[usize]) -> (res: Result<usize, Error>)
        requires
            addrs@.len() == bufs@.len(),
            all_stageable(contents(bufs@)),
        ensures
            self.write_vectored_spec(addrs@, contents(bufs@), None, res),
    ;

    /// Writes the buffers at `offset`, and returns how many bytes were
    /// written in all.
    fn write_vectored_at(&self, bufs: &[&[u8]], addrs: &[usize], offset: u64) -> (res: Result<
        usize,
        Error,
    >)
        requires
            addrs@.len() == bufs@.len(),
            all_stageable(contents(bufs@)),
        ensures
            self.write_vectored_spec(addrs@, contents(bufs@), Some(offset), res),
    ;
}

/// The positioned calls once more, under the name that the standard
/// library gives them on its own files, each of them to be supplied.
pub trait FileExt {
    /// What a read at `offset` may do: the address of the buffer, the buffer
    /// as it was, the buffer as it is left, and the result.
    open spec fn positioned_read(
        &self,
        addr: usize,
        before: Seq<u8>,
        offset: u64,
        after: Seq<u8>,
        res: Result<usize, Error>,
    ) -> bool {
        true
    }

    /// What a write at `offset` of `data`, which lies at `addr`, may return.
    open spec fn positioned_write(
        &self,
        addr: usize,
        data: Seq<u8>,
        offset: u64,
        res: Result<usize, Error>,
    ) -> bool {
        true
    }

    /// Reads into `buf`, which lies at `addr`, from `offset` on and returns
    /// how many bytes were read, never more than `buf` holds.
    fn read_at(&self, buf: &mut [u8], addr: usize, offset: u64) -> (res: Result<usize, Error>)
        requires
            stageable(old(buf)@.len() as int),
        ensures
            final(buf)@.len() == old(buf)@.len(),
            res matches Ok(n) ==> n <= old(buf)@.len(),
            self.positioned_read(addr, old(buf)@, offset, final(buf)@, res),
    ;

    /// Writes from `buf`, which lies at `addr`, at `offset` and returns how
    /// many bytes were written, never more than `buf` holds.
    fn write_at(&self, buf: &[u8], addr: usize, offset: u64) -> (res: Result<usize, Error>)
        requires
            stageable(buf@.len() as int),
        ensures
            res matches Ok(n) ==> n <= buf@.len(),
            self.positioned_write(addr, buf@, offset, res),
    ;

    /// Writes all of `buf`, which lies at `addr`, at `offset`, one write
    /// after the other.
    fn write_all_at(&self, buf: &[u8], addr: usize, offset: u64) -> (res: Result<(), Error>)
        requires
            stageable(buf@.len() as int),
            offset + buf@.len() <= u64::MAX,
            addr + buf@.len() <= usize::MAX,
        ensures
            res is Ok ==> wrote_all(
                |a: usize, d: Seq<u8>, o: u64, r: Result<usize, Error>|
                    self.positioned_write(a, d, o, r),
                addr,
                buf@,
                offset as int,
            ),
            res matches Err(e) ==> write_failed(
                |a: usize, d: Seq<u8>, o: u64, r: Result<usize, Error>|
                    self.positioned_write(a, d, o, r),
                addr,
                buf@,
                offset as int,
                e,
            ),
            exists|natives: Seq<Result<usize, Error>>|
                #![trigger natives.len()]
                write_all_run(
                    |a: usize, d: Seq<u8>, o: u64, r: Result<usize, Error>|
                        self.positioned_write(a, d, o, r),
                    addr,
                    buf@,
                    offset as int,
                    0,
                    MAX_INTERRUPTS,
                    natives,
                    res,
                ),
    ;
}

/// What one write at an offset may return, as a relation between the
/// address of the bytes, the bytes, the offset and the result.
pub type WriteAt = spec_fn(usize, Seq<u8>, u64, Result<usize, Error>) -> bool;

/// Whether the bytes of `data`, which lies at `addr`, from `from` up to `to`
/// can have been written by successful writes that follow one another: each
/// is given all that is left of `data`, at the offset that the one before it
/// reached, and writes at least one byte of it.
pub open spec fn wrote_range(
    write_at: WriteAt,
    addr: usize,
    data: Seq<u8>,
    offset: int,
    from: int,
    to: int,
) -> bool
    decreases to - from,
{
    from == to || (from < to && exists|n: usize|
        0 < n && from + n <= to && #[trigger] write_at(
            (addr + from) as usize,
            data.skip(from),
            (offset + from) as u64,
            Ok(n),
        ) && wrote_range(write_at, addr, data, offset, from + n, to))
}

/// Whether `data` can have been written at `offset` by successful writes
/// that follow one another.
pub open spec fn wrote_all(write_at: WriteAt, addr: usize, data: Seq<u8>, offset: int) -> bool {
    wrote_range(write_at, addr, data, offset, 0, data.len() as int)
}

/// Whether writing `data` at `offset` can have ended with the error `e`:
/// some of the bytes were written, then the write of the rest wrote nothing
/// and `e` is `WriteZero`, or it failed with `e`.
pub open spec fn write_failed(
    write_at: WriteAt,
    addr: usize,
    data: Seq<u8>,
    offset: int,
    e: Error,
) -> bool {
    exists|done: int, native: Result<usize, Error>|
        0 <= done < data.len() && wrote_range(write_at, addr, data, offset, 0, done)
            && #[trigger] write_at(
            (addr + done) as usize,
            data.skip(done),
            (offset + done) as u64,
            native,
        ) && (native == Err::<usize, Error>(e) || (native == Ok::<usize, Error>(0usize) && e
            == Error::WriteZero))
}

/// Whether writing `data` can have gone as `natives` says and ended with
/// `res`: from `done` bytes on, with `tries` interruptions still to be
/// borne, each write is given all that is left and returns the next of
/// `natives`, never more than it was given, and what follows it is what
/// `spec_write_all_step` says, until nothing is left or a step fails.
pub open spec fn write_all_run(
    write_at: WriteAt,
    addr: usize,
    data: Seq<u8>,
    offset: int,
    done: usize,
    tries: u64,
    natives: Seq<Result<usize, Error>>,
    res: Result<(), Error>,
) -> bool
    decreases natives.len(),
{
    if done >= data.len() {
        natives.len() == 0 && res == Ok::<(), Error>(())
    } else {
        natives.len() > 0 && write_at(
            (addr + done) as usize,
            data.skip(done as int),
            (offset + done) as u64,
            natives[0],
        ) && (natives[0] matches Ok(n) ==> n <= data.len() - done) && match spec_write_all_step(
            done,
            tries,
            natives[0],
        ) {
            WriteAllStep::Continue { done: reached, tries: left } => write_all_run(
                write_at,
                addr,
                data,
                offset,
                reached,
                left,
                natives.skip(1),
                res,
            ),
            WriteAllStep::Fail(e) => natives.len() == 1 && res == Err::<(), Error>(e),
        }
    }
}

/// One more successful write lengthens what was written.
pub proof fn lemma_wrote_range_extend(
    write_at: WriteAt,
    addr: usize,
    data: Seq<u8>,
    offset: int,
    from: int,
    mid: int,
    n: usize,
)
    requires
        from <= mid,
        wrote_range(write_at, addr, data, offset, from, mid),
        0 < n,
        write_at((addr + mid) as usize, data.skip(mid), (offset + mid) as u64, Ok(n)),
    ensures
        wrote_range(write_at, addr, data, offset, from, mid + n),
    decreases mid - from,
{
    if from == mid {
        assert(wrote_range(write_at, addr, data, offset, mid + n, mid + n));
    } else {
        let first = choose|first: usize|
            0 < first && from + first <= mid && #[trigger] write_at(
                (addr + from) as usize,
                data.skip(from),
                (offset + from) as u64,
                Ok(first),
            ) && wrote_range(write_at, addr, data, offset, from + first, mid);
        lemma_wrote_range_extend(write_at, addr, data, offset, from + first, mid, n);
    }
}

} // verus!
