//! Buffered byte stream layer.
//!
//! A byte source is modelled by the sequence of bytes it has yet to deliver
//! and a byte sink by the sequence of bytes it has accepted so far.  The
//! buffered wrappers adapt an arbitrary source or sink to an internal
//! fixed-capacity buffer with a zero-copy window for in-place parsing, and
//! the array-backed variants operate directly over a caller-supplied buffer
//! with no refill or flush possible.

use vstd::prelude::*;

use crate::Error;

verus! {

/// A blocking byte source: one bounded `read` call at a time.
///
/// `data()` is the sequence of bytes the source will still deliver, in
/// order.  A successful read hands over a prefix of it and consumes exactly
/// that prefix; a read of zero bytes into a non-empty destination happens
/// exactly when the source is exhausted.
pub trait InputStream: Sized {
    /// Well-formedness of the stream state, established by constructors and
    /// preserved by every operation.
    spec fn inv(&self) -> bool;

    /// Bytes this source has yet to deliver.
    spec fn data(&self) -> Seq<u8>;

    /// Read at least one byte into `dst[start..end)` when neither the
    /// request nor the source is empty; return how many bytes were read.
    fn read(&mut self, dst: &mut Vec<u8>, start: usize, end: usize) -> (r: Result<
        usize,
        Error,
    >)
        requires
            old(self).inv(),
            start <= end <= old(dst).len(),
        ensures
            final(self).inv(),
            final(dst).len() == old(dst).len(),
            match r {
                Ok(n) => {
                    &&& n <= end - start
                    &&& n <= old(self).data().len()
                    &&& (n == 0 <==> (end == start || old(self).data().len() == 0))
                    &&& final(self).data() == old(self).data().skip(n as int)
                    &&& final(dst)@ == old(dst)@.subrange(0, start as int) + old(
                        self,
                    ).data().take(n as int) + old(dst)@.skip(start + n)
                },
                Err(_) => true,
            },
    ;
}

/// A blocking byte sink.
///
/// `data()` is the sequence of bytes the sink has accepted so far, buffered
/// or not.  `accepts(n)` names the states in which writing `n` bytes is
/// guaranteed to succeed, and `rejects(n)` the states in which it is
/// guaranteed to fail without accepting anything; for states in neither, the
/// implementation decides.
pub trait OutputStream: Sized {
    /// Well-formedness of the sink state, established by constructors and
    /// preserved by every operation.
    spec fn inv(&self) -> bool;

    /// Bytes this sink has accepted so far.
    spec fn data(&self) -> Seq<u8>;

    /// States in which a write of `n` bytes must succeed.
    spec fn accepts(&self, n: int) -> bool;

    /// States in which a write of `n` bytes must fail and change nothing.
    spec fn rejects(&self, n: int) -> bool;

    /// Accepted bytes still held back in an internal buffer, if any.
    spec fn buffered(&self) -> Seq<u8>;

    /// Accept every byte of `buf[start..end)`, or report an error.
    fn write_all(&mut self, buf: &Vec<u8>, start: usize, end: usize) -> (r: Result<(), Error>)
        requires
            old(self).inv(),
            start <= end <= buf.len(),
        ensures
            final(self).inv(),
            match r {
                Ok(()) => final(self).data() == old(self).data() + buf@.subrange(
                    start as int,
                    end as int,
                ),
                Err(_) => !old(self).accepts(end - start),
            },
            old(self).rejects(end - start) ==> r.is_err() && *final(self) == *old(self),
    ;

    /// Push every accepted byte through to the underlying destination.
    fn flush(&mut self) -> (r: Result<(), Error>)
        requires
            old(self).inv(),
        ensures
            final(self).inv(),
            r.is_ok() ==> final(self).data() == old(self).data() && final(self).buffered()
                == Seq::<u8>::empty(),
    ;
}

/// Copy `src[src_start..src_start + n)` over `dst[dst_start..dst_start + n)`.
pub(crate) fn copy_from_vec<T: Copy>(
    dst: &mut Vec<T>,
    dst_start: usize,
    src: &Vec<T>,
    src_start: usize,
    n: usize,
)
    requires
        dst_start + n <= old(dst).len(),
        src_start + n <= src.len(),
    ensures
        final(dst).len() == old(dst).len(),
        final(dst)@ == old(dst)@.subrange(0, dst_start as int) + src@.subrange(
            src_start as int,
            src_start + n,
        ) + old(dst)@.skip(dst_start + n),
{
    let mut i: usize = 0;
    while i < n
        invariant
            i <= n,
            dst_start + n <= old(dst).len(),
            src_start + n <= src.len(),
            dst.len() == old(dst).len(),
            dst@ == old(dst)@.subrange(0, dst_start as int) + src@.subrange(
                src_start as int,
                src_start + i,
            ) + old(dst)@.skip(dst_start + i),
        decreases n - i,
    {
        dst.set(dst_start + i, src[src_start + i]);
        assert(dst@ =~= old(dst)@.subrange(0, dst_start as int) + src@.subrange(
            src_start as int,
            src_start + i + 1,
        ) + old(dst)@.skip(dst_start + i + 1));
        i = i + 1;
    }
    assert(dst@ =~= old(dst)@.subrange(0, dst_start as int) + src@.subrange(
        src_start as int,
        src_start + n,
    ) + old(dst)@.skip(dst_start + n));
}

/// Fill a fresh vector with `n` copies of `value`.
pub(crate) fn filled<T: Copy>(value: T, n: usize) -> (r: Vec<T>)
    ensures
        r.len() == n,
        forall|i: int| 0 <= i < n ==> r@[i] == value,
{
    let mut r: Vec<T> = Vec::new();
    let mut i: usize = 0;
    while i < n
        invariant
            i <= n,
            r.len() == i,
            forall|j: int| 0 <= j < i ==> r@[j] == value,
        decreases n - i,
    {
        r.push(value);
        i = i + 1;
    }
    r
}

/// Keep reading into `buf[start..end)` until at least `min_bytes` bytes have
/// accumulated.  Fails with `Error::EndOfData` if the source is exhausted
/// before the minimum is met, and never reports fewer than `min_bytes` bytes
/// on success.
pub fn read_at_least<R: InputStream>(
    reader: &mut R,
    buf: &mut Vec<u8>,
    start: usize,
    end: usize,
    min_bytes: usize,
) -> (r: Result<usize, Error>)
    requires
        old(reader).inv(),
        start <= end <= old(buf).len(),
        min_bytes <= end - start,
    ensures
        final(reader).inv(),
        final(buf).len() == old(buf).len(),
        match r {
            Ok(n) => {
                &&& min_bytes <= n <= end - start
                &&& n <= old(reader).data().len()
                &&& final(buf)@ == old(buf)@.subrange(0, start as int) + old(
                    reader,
                ).data().take(n as int) + old(buf)@.skip(start + n)
                &&& final(reader).data() == old(reader).data().skip(n as int)
            },
            Err(_) => true,
        },
        old(reader).data().len() < min_bytes ==> r.is_err(),
        min_bytes == 0 ==> r == Ok::<usize, Error>(0),
{
    let mut pos: usize = 0;
    while pos < min_bytes
        invariant
            reader.inv(),
            start <= end <= buf.len(),
            buf.len() == old(buf).len(),
            pos <= end - start,
            pos <= old(reader).data().len(),
            min_bytes == 0 ==> pos == 0,
            reader.data() == old(reader).data().skip(pos as int),
            buf@ == old(buf)@.subrange(0, start as int) + old(reader).data().take(pos as int) + old(
                buf,
            )@.skip(start + pos),
            min_bytes <= end - start,
        decreases reader.data().len(),
    {
        let n = match reader.read(buf, start + pos, end) {
            Ok(n) => n,
            Err(e) => {
                return Err(e);
            },
        };
        if n == 0 {
            return Err(Error::EndOfData);
        }
        proof {
            let d = old(reader).data();
            assert(buf@ =~= old(buf)@.subrange(0, start as int) + d.take(pos + n) + old(
                buf,
            )@.skip(start + pos + n));
            assert(d.skip(pos as int).skip(n as int) =~= d.skip(pos + n));
        }
        pos = pos + n;
    }
    Ok(pos)
}

/// Chunking invariance.  A successful `read` of `n` bytes observes
/// `data().take(n)` and leaves `data().skip(n)`, and a successful `skip`
/// leaves `data().skip(n)` as well; this lemma states that consecutive
/// observations compose, so the bytes observed by any partition of a prefix
/// into reads and skips equal that prefix of the source, independent of the
/// call granularity.
pub proof fn lemma_chunked_observation(s: Seq<u8>, n1: int, n2: int)
    requires
        0 <= n1,
        0 <= n2,
        n1 + n2 <= s.len(),
    ensures
        s.take(n1) + s.skip(n1).take(n2) == s.take(n1 + n2),
        s.skip(n1).skip(n2) == s.skip(n1 + n2),
{
    assert(s.take(n1) + s.skip(n1).take(n2) =~= s.take(n1 + n2));
    assert(s.skip(n1).skip(n2) =~= s.skip(n1 + n2));
}

/// In-place parsing interface over a buffered source.
///
/// `get_read_buffer` exposes the currently valid, still-unread window of the
/// internal buffer as an index range; the window stays valid only until the
/// next mutating call, and `skip` consumes bytes without copying them.
pub trait BufferedInputStream: InputStream {
    /// Contents of the internal buffer that read windows index into.
    spec fn window_buf(&self) -> Seq<u8>;

    /// States in which a skip of `n` bytes must succeed: at least when no
    /// call into an underlying source is needed to serve it.
    spec fn skip_guaranteed(&self, n: int) -> bool;

    /// Advance the logical read position by `bytes` without handing the
    /// skipped bytes to the caller.
    fn skip(&mut self, bytes: usize) -> (r: Result<(), Error>)
        requires
            old(self).inv(),
        ensures
            final(self).inv(),
            r.is_ok() ==> final(self).data() == old(self).data().skip(bytes as int),
            old(self).data().len() < bytes ==> r.is_err(),
            old(self).skip_guaranteed(bytes as int) ==> r.is_ok(),
    ;

    /// Lend the still-unread byte window `[start, end)` of the internal
    /// buffer, refilling first if the stream allows it and the window would
    /// otherwise be empty.  The window is a prefix of the unread stream and
    /// nothing is consumed.
    fn get_read_buffer(&mut self) -> (r: Result<(usize, usize), Error>)
        requires
            old(self).inv(),
        ensures
            final(self).inv(),
            old(self).skip_guaranteed(1) ==> r.is_ok(),
            match r {
                Ok(w) => {
                    &&& final(self).data() == old(self).data()
                    &&& w.0 <= w.1 <= final(self).window_buf().len()
                    &&& final(self).window_buf().subrange(w.0 as int, w.1 as int)
                        == final(self).data().take(w.1 - w.0)
                    &&& (old(self).data().len() > 0 ==> w.0 < w.1)
                    &&& forall|m: int| 0 <= m <= w.1 - w.0 ==> final(self).skip_guaranteed(m)
                },
                Err(_) => true,
            },
    ;

    /// Read one byte of the internal buffer, for in-place parsing of a
    /// window obtained from `get_read_buffer`.
    fn buffered_byte(&self, i: usize) -> (b: u8)
        requires
            self.inv(),
            i < self.window_buf().len(),
        ensures
            b == self.window_buf()[i as int],
    ;
}

/// A byte source backed entirely by one caller-supplied buffer: the whole
/// buffer counts as pre-buffered, no refill is possible, and skipping past
/// the end is a fixed-capacity overflow.
pub struct ArrayInputStream {
    bytes: Vec<u8>,
    pos: usize,
}

impl ArrayInputStream {
    /// Wrap a caller-supplied buffer as a fully pre-buffered byte source.
    pub fn new(array: Vec<u8>) -> (r: ArrayInputStream)
        ensures
            r.inv(),
            r.data() == array@,
    {
        ArrayInputStream { bytes: array, pos: 0 }
    }

    /// Read into `dst[start..end)`.  Never fails: it hands over exactly the
    /// smaller of the request and what remains, zero at the end of the
    /// buffer.
    pub fn read(&mut self, dst: &mut Vec<u8>, start: usize, end: usize) -> (r: Result<
        usize,
        Error,
    >)
        requires
            old(self).inv(),
            start <= end <= old(dst).len(),
        ensures
            final(self).inv(),
            final(dst).len() == old(dst).len(),
            r.is_ok(),
            match r {
                Ok(n) => {
                    &&& n == (if end - start <= old(self).data().len() {
                        end - start
                    } else {
                        old(self).data().len() as int
                    })
                    &&& final(self).data() == old(self).data().skip(n as int)
                    &&& final(dst)@ == old(dst)@.subrange(0, start as int) + old(
                        self,
                    ).data().take(n as int) + old(dst)@.skip(start + n)
                },
                Err(_) => false,
            },
    {
        let request = end - start;
        let available = self.bytes.len() - self.pos;
        let n = if request < available {
            request
        } else {
            available
        };
        copy_from_vec(dst, start, &self.bytes, self.pos, n);
        proof {
            assert(self.bytes@.subrange(self.pos as int, self.pos + n) =~= old(
                self,
            ).data().take(n as int));
            assert(self.bytes@.skip(self.pos + n) =~= old(self).data().skip(n as int));
        }
        self.pos = self.pos + n;
        Ok(n)
    }

    /// Lend the whole remaining slice as the read window.  Never fails and
    /// consumes nothing: the window spans exactly the unread remainder.
    pub fn get_read_buffer(&mut self) -> (r: Result<(usize, usize), Error>)
        requires
            old(self).inv(),
        ensures
            *final(self) == *old(self),
            r.is_ok(),
            match r {
                Ok(w) => {
                    &&& w.0 <= w.1 == final(self).window_buf().len()
                    &&& w.1 - w.0 == final(self).data().len()
                    &&& final(self).window_buf().subrange(w.0 as int, w.1 as int)
                        == final(self).data()
                },
                Err(_) => false,
            },
    {
        proof {
            assert(self.bytes@.subrange(self.pos as int, self.bytes@.len() as int)
                =~= self.data());
        }
        Ok((self.pos, self.bytes.len()))
    }
}

impl InputStream for ArrayInputStream {
    closed spec fn inv(&self) -> bool {
        self.pos <= self.bytes.len()
    }

    closed spec fn data(&self) -> Seq<u8> {
        self.bytes@.skip(self.pos as int)
    }

    fn read(&mut self, dst: &mut Vec<u8>, start: usize, end: usize) -> (r: Result<
        usize,
        Error,
    >) {
        self.read(dst, start, end)
    }
}

/// An array-backed source can always skip anything within its remainder.
pub proof fn lemma_array_input_skip(s: &ArrayInputStream)
    requires
        s.inv(),
    ensures
        forall|n: int| s.skip_guaranteed(n) <==> n <= s.data().len(),
{
}

impl BufferedInputStream for ArrayInputStream {
    closed spec fn window_buf(&self) -> Seq<u8> {
        self.bytes@
    }

    closed spec fn skip_guaranteed(&self, n: int) -> bool {
        // Everything is pre-buffered: any in-bounds skip succeeds.
        n <= self.bytes@.len() - self.pos
    }

    fn skip(&mut self, bytes: usize) -> (r: Result<(), Error>) {
        if bytes <= self.bytes.len() - self.pos {
            proof {
                assert(self.bytes@.skip(self.pos + bytes) =~= old(self).data().skip(bytes as int));
            }
            self.pos = self.pos + bytes;
            Ok(())
        } else {
            Err(Error::FixedCapacityOverflow)
        }
    }

    fn get_read_buffer(&mut self) -> (r: Result<(usize, usize), Error>) {
        self.get_read_buffer()
    }

    fn buffered_byte(&self, i: usize) -> (b: u8) {
        self.bytes[i]
    }
}

/// Capacity of the internal buffer of the buffered stream wrappers.
pub const BUFFER_CAPACITY: usize = 8192;

/// Adapts an arbitrary byte source into a buffered stream with an exact-read
/// contract: `read` either fully fills the requested range or fails.
pub struct BufferedInputStreamWrapper<R: InputStream> {
    inner: R,
    buf: Vec<u8>,
    pos: usize,
    cap: usize,
}

impl<R: InputStream> BufferedInputStreamWrapper<R> {
    /// Wrap `reader` with a fresh internal buffer.
    pub fn new(reader: R) -> (r: BufferedInputStreamWrapper<R>)
        requires
            reader.inv(),
        ensures
            r.inv(),
            r.data() == reader.data(),
    {
        let r = BufferedInputStreamWrapper {
            inner: reader,
            buf: filled(0u8, BUFFER_CAPACITY),
            pos: 0,
            cap: 0,
        };
        proof {
            assert(r.data() =~= r.inner.data());
        }
        r
    }

    /// Bytes already buffered and not yet read: a request within this
    /// window is served without calling into the source.
    pub closed spec fn buffered_window(&self) -> int {
        self.cap - self.pos
    }

    /// Fill `dst[start..end)` with the next bytes of the stream, exactly, or
    /// fail without handing over a partial result.
    #[verifier::rlimit(30)]
    pub fn read_exact(&mut self, dst: &mut Vec<u8>, start: usize, end: usize) -> (r: Result<
        usize,
        Error,
    >)
        requires
            old(self).inv(),
            start <= end <= old(dst).len(),
        ensures
            final(self).inv(),
            final(dst).len() == old(dst).len(),
            end - start <= old(self).buffered_window() ==> r.is_ok()
                && final(self).buffered_window() == old(self).buffered_window() - (end - start),
            match r {
                Ok(n) => {
                    &&& n == end - start
                    &&& n <= old(self).data().len()
                    &&& final(dst)@ == old(dst)@.subrange(0, start as int) + old(
                        self,
                    ).data().take(n as int) + old(dst)@.skip(end as int)
                    &&& final(self).data() == old(self).data().skip(n as int)
                },
                Err(_) => true,
            },
            old(self).data().len() < end - start ==> r.is_err(),
    {
        let num_bytes = end - start;
        let available = self.cap - self.pos;
        if num_bytes <= available {
            // Serve the whole request from the current buffer.
            copy_from_vec(dst, start, &self.buf, self.pos, num_bytes);
            proof {
                assert(self.buf@.subrange(self.pos as int, self.pos + num_bytes) =~= old(
                    self,
                ).data().take(num_bytes as int));
                assert(self.buf@.subrange(self.pos + num_bytes, self.cap as int)
                    + self.inner.data() =~= old(self).data().skip(num_bytes as int));
            }
            self.pos = self.pos + num_bytes;
            Ok(num_bytes)
        } else {
            // Copy what is buffered, then refill or bypass for the rest.
            copy_from_vec(dst, start, &self.buf, self.pos, available);
            let remainder = num_bytes - available;
            self.pos = 0;
            self.cap = 0;
            if remainder <= self.buf.len() {
                // The rest fits in one refill.
                let ghost d = self.inner.data();
                let buf_len = self.buf.len();
                let got = match read_at_least(&mut self.inner, &mut self.buf, 0, buf_len, remainder)
                    {
                    Ok(got) => got,
                    Err(e) => {
                        return Err(e);
                    },
                };
                copy_from_vec(dst, start + available, &self.buf, 0, remainder);
                self.cap = got;
                self.pos = remainder;
                proof {
                    assert(dst@ =~= old(dst)@.subrange(0, start as int) + old(self).data().take(
                        num_bytes as int,
                    ) + old(dst)@.skip(end as int));
                    assert(self.data() =~= old(self).data().skip(num_bytes as int));
                }
                Ok(num_bytes)
            } else {
                // The rest is larger than the buffer: read it directly into
                // the destination to avoid a redundant copy.
                let got = match read_at_least(
                    &mut self.inner,
                    dst,
                    start + available,
                    end,
                    remainder,
                ) {
                    Ok(got) => got,
                    Err(e) => {
                        return Err(e);
                    },
                };
                proof {
                    assert(got == remainder);
                    assert(dst@ =~= old(dst)@.subrange(0, start as int) + old(self).data().take(
                        num_bytes as int,
                    ) + old(dst)@.skip(end as int));
                    assert(self.data() =~= old(self).data().skip(num_bytes as int));
                }
                Ok(num_bytes)
            }
        }
    }
}

impl<R: InputStream> InputStream for BufferedInputStreamWrapper<R> {
    closed spec fn inv(&self) -> bool {
        self.pos <= self.cap <= self.buf.len() && 1 <= self.buf.len() && self.inner.inv()
    }

    closed spec fn data(&self) -> Seq<u8> {
        self.buf@.subrange(self.pos as int, self.cap as int) + self.inner.data()
    }

    fn read(&mut self, dst: &mut Vec<u8>, start: usize, end: usize) -> (r: Result<
        usize,
        Error,
    >) {
        self.read_exact(dst, start, end)
    }
}

/// A buffered stream can always skip what its buffered window holds: that
/// is exactly when no call into the source is needed.
pub proof fn lemma_wrapper_skip_window<R: InputStream>(s: &BufferedInputStreamWrapper<R>)
    ensures
        forall|n: int| s.skip_guaranteed(n) <==> n <= s.buffered_window(),
{
}

impl<R: InputStream> BufferedInputStream for BufferedInputStreamWrapper<R> {
    closed spec fn window_buf(&self) -> Seq<u8> {
        self.buf@
    }

    closed spec fn skip_guaranteed(&self, n: int) -> bool {
        // A skip within the buffered window needs no call into the source.
        n <= self.cap - self.pos
    }

    fn skip(&mut self, bytes: usize) -> (r: Result<(), Error>) {
        let available = self.cap - self.pos;
        if bytes <= available {
            proof {
                assert(self.buf@.subrange(self.pos + bytes, self.cap as int) + self.inner.data()
                    =~= old(self).data().skip(bytes as int));
            }
            self.pos = self.pos + bytes;
            Ok(())
        } else {
            let ghost orig: Seq<u8> = self.data();
            let mut remainder = bytes - available;
            self.pos = 0;
            self.cap = 0;
            proof {
                assert(self.inner.data() =~= orig.skip((bytes - remainder) as int));
            }
            // Discard whole buffer-fulls while the excess exceeds one
            // buffer's capacity, then refill once and consume the rest.
            while remainder > self.buf.len()
                invariant
                    self.inner.inv(),
                    !old(self).skip_guaranteed(bytes as int),
                    1 <= self.buf.len(),
                    self.pos == 0 && self.cap == 0,
                    1 <= remainder <= bytes,
                    bytes - remainder <= orig.len(),
                    self.inner.data() == orig.skip((bytes - remainder) as int),
                    self.inner.data().len() == orig.len() - (bytes - remainder),
                decreases self.inner.data().len(),
            {
                let buf_len = self.buf.len();
                let ghost d = self.inner.data();
                let n = match self.inner.read(&mut self.buf, 0, buf_len) {
                    Ok(n) => n,
                    Err(e) => {
                        return Err(e);
                    },
                };
                if n == 0 {
                    return Err(Error::EndOfData);
                }
                proof {
                    assert(d == orig.skip((bytes - remainder) as int));
                    assert(d.skip(n as int) =~= orig.skip((bytes - (remainder - n)) as int));
                }
                remainder = remainder - n;
            }
            let buf_len = self.buf.len();
            let ghost d = self.inner.data();
            let got = match read_at_least(&mut self.inner, &mut self.buf, 0, buf_len, remainder) {
                Ok(got) => got,
                Err(e) => {
                    return Err(e);
                },
            };
            self.cap = got;
            self.pos = remainder;
            proof {
                assert(d == orig.skip((bytes - remainder) as int));
                assert(remainder <= d.len());
                assert(bytes <= orig.len());
                assert(self.buf@.subrange(remainder as int, got as int) =~= d.subrange(
                    remainder as int,
                    got as int,
                ));
                assert(self.data() =~= d.skip(remainder as int));
                assert(d.skip(remainder as int) =~= orig.skip(bytes as int));
                assert(self.data() == old(self).data().skip(bytes as int));
            }
            Ok(())
        }
    }

    fn get_read_buffer(&mut self) -> (r: Result<(usize, usize), Error>) {
        if self.cap - self.pos == 0 {
            self.pos = 0;
            self.cap = 0;
            let buf_len = self.buf.len();
            let ghost d = self.inner.data();
            let got = match read_at_least(&mut self.inner, &mut self.buf, 0, buf_len, 1) {
                Ok(got) => got,
                Err(e) => {
                    return Err(e);
                },
            };
            self.cap = got;
            proof {
                assert(self.data() =~= old(self).data());
            }
        }
        proof {
            assert(self.buf@.subrange(self.pos as int, self.cap as int) =~= self.data().take(
                self.cap - self.pos,
            ));
        }
        Ok((self.pos, self.cap))
    }

    fn buffered_byte(&self, i: usize) -> (b: u8) {
        self.buf[i]
    }
}

/// Direct write access into the free region of a buffered sink.
///
/// `get_write_buffer` leases the free region and hands back a generation
/// token; `write_ptr` commits bytes of a known size against that lease.  A
/// commit that completes the most recent lease and fits the leased region is
/// guaranteed to go through without touching the underlying sink; anything
/// else is treated as an ordinary write.
pub trait BufferedOutputStream: OutputStream {
    /// Token carried by the most recent lease.
    spec fn current_lease(&self) -> u64;

    /// Size of the region a fast-path commit can take.
    spec fn lend_capacity(&self) -> int;

    /// Lease the free region of the internal buffer: returns the generation
    /// token of the lease and the size of the leased region.
    /// Lending is pure: nothing about the sink changes.
    fn get_write_buffer(&mut self) -> (r: (u64, usize))
        requires
            old(self).inv(),
        ensures
            final(self).inv(),
            *final(self) == *old(self),
            r.0 == old(self).current_lease(),
            r.1 == old(self).lend_capacity(),
    ;

    /// Commit `bytes` against the lease named by `token`.  A commit against
    /// the current lease that fits the leased region always succeeds;
    /// otherwise the bytes take the ordinary write path.
    fn write_ptr(&mut self, token: u64, bytes: &Vec<u8>) -> (r: Result<(), Error>)
        requires
            old(self).inv(),
        ensures
            final(self).inv(),
            match r {
                Ok(()) => final(self).data() == old(self).data() + bytes@,
                Err(_) => !old(self).accepts(bytes@.len() as int),
            },
            token == old(self).current_lease() && bytes@.len() <= old(self).lend_capacity()
                ==> r.is_ok(),
            old(self).rejects(bytes@.len() as int) ==> r.is_err() && *final(self) == *old(self),
    ;
}

/// Advance a lease token, wrapping at the top of its range.
pub(crate) fn next_lease(token: u64) -> (r: u64)
    ensures
        r == (if token == u64::MAX {
            0u64
        } else {
            (token + 1) as u64
        }),
{
    if token == u64::MAX {
        0
    } else {
        token + 1
    }
}

/// A byte sink backed by one caller-supplied buffer of fixed capacity.
/// Writing past the remaining capacity is a caller usage error: it fails
/// with `Error::FixedCapacityOverflow` on every such call, no matter how the
/// message is configured, and changes nothing.
pub struct ArrayOutputStream {
    array: Vec<u8>,
    fill_pos: usize,
    lease: u64,
}

impl ArrayOutputStream {
    /// Wrap a caller-supplied buffer as a fixed-capacity byte sink.
    pub fn new(array: Vec<u8>) -> (r: ArrayOutputStream)
        ensures
            r.inv(),
            r.data() == Seq::<u8>::empty(),
            forall|n: int| 0 <= n <= array@.len() ==> r.accepts(n),
            forall|n: int| n > array@.len() ==> r.rejects(n),
    {
        ArrayOutputStream { array, fill_pos: 0, lease: 0 }
    }

    /// Hand the backing buffer back: the written prefix followed by the
    /// untouched rest.
    pub fn into_array(self) -> (r: Vec<u8>)
        requires
            self.inv(),
        ensures
            r@.len() == self.data().len() + self.remaining_capacity(),
            r@.take(self.data().len() as int) == self.data(),
    {
        proof {
            assert(self.array@.take(self.fill_pos as int) =~= self.data());
        }
        self.array
    }

    /// Free room left in the backing buffer.
    pub fn remaining(&self) -> (r: usize)
        requires
            self.inv(),
        ensures
            r == self.remaining_capacity(),
    {
        self.array.len() - self.fill_pos
    }

    /// Bytes the backing buffer can still take.
    pub closed spec fn remaining_capacity(&self) -> int {
        self.array@.len() - self.fill_pos
    }

    /// Accept every byte of `buf[start..end)`: succeeds exactly when the
    /// bytes fit the remaining capacity, which then shrinks by that much;
    /// an over-capacity write fails with `Error::FixedCapacityOverflow` and
    /// changes nothing, on every such call.
    pub fn write_all(&mut self, buf: &Vec<u8>, start: usize, end: usize) -> (r: Result<(), Error>)
        requires
            old(self).inv(),
            start <= end <= buf.len(),
        ensures
            final(self).inv(),
            r.is_ok() == (end - start <= old(self).remaining_capacity()),
            match r {
                Ok(()) => {
                    &&& final(self).data() == old(self).data() + buf@.subrange(
                        start as int,
                        end as int,
                    )
                    &&& final(self).remaining_capacity() == old(self).remaining_capacity() - (end
                        - start)
                },
                Err(e) => e == Error::FixedCapacityOverflow && *final(self) == *old(self),
            },
    {
        let size = end - start;
        if size <= self.array.len() - self.fill_pos {
            copy_from_vec(&mut self.array, self.fill_pos, buf, start, size);
            self.lease = next_lease(self.lease);
            self.fill_pos = self.fill_pos + size;
            proof {
                assert(self.array@.take(self.fill_pos as int) =~= old(self).data() + buf@.subrange(
                    start as int,
                    end as int,
                ));
            }
            Ok(())
        } else {
            Err(Error::FixedCapacityOverflow)
        }
    }
}

/// What the array-backed sink accepts is exactly what fits its remaining
/// capacity, and what it rejects is exactly what does not.
pub proof fn lemma_array_output_capacity(s: &ArrayOutputStream)
    requires
        s.inv(),
    ensures
        forall|n: int| 0 <= n ==> (s.accepts(n) <==> n <= s.remaining_capacity()),
        forall|n: int| 0 <= n ==> (s.rejects(n) <==> n > s.remaining_capacity()),
        s.remaining_capacity() >= 0,
{
}

impl OutputStream for ArrayOutputStream {
    closed spec fn inv(&self) -> bool {
        self.fill_pos <= self.array.len()
    }

    closed spec fn data(&self) -> Seq<u8> {
        self.array@.take(self.fill_pos as int)
    }

    closed spec fn accepts(&self, n: int) -> bool {
        self.fill_pos + n <= self.array@.len()
    }

    closed spec fn rejects(&self, n: int) -> bool {
        self.fill_pos + n > self.array@.len()
    }

    closed spec fn buffered(&self) -> Seq<u8> {
        Seq::<u8>::empty()
    }

    fn write_all(&mut self, buf: &Vec<u8>, start: usize, end: usize) -> (r: Result<(), Error>) {
        self.write_all(buf, start, end)
    }

    fn flush(&mut self) -> (r: Result<(), Error>) {
        Ok(())
    }
}

impl BufferedOutputStream for ArrayOutputStream {
    closed spec fn current_lease(&self) -> u64 {
        self.lease
    }

    closed spec fn lend_capacity(&self) -> int {
        self.array@.len() - self.fill_pos
    }

    fn get_write_buffer(&mut self) -> (r: (u64, usize)) {
        (self.lease, self.array.len() - self.fill_pos)
    }

    fn write_ptr(&mut self, token: u64, bytes: &Vec<u8>) -> (r: Result<(), Error>) {
        let len = bytes.len();
        self.write_all(bytes, 0, len)
    }
}

/// Adapts an arbitrary byte sink into a buffered stream: writes are held in
/// an internal buffer and flushed to the sink transparently, and payloads
/// larger than the buffer bypass it to avoid a double copy.
pub struct BufferedOutputStreamWrapper<W: OutputStream> {
    inner: W,
    buf: Vec<u8>,
    pos: usize,
    lease: u64,
}

impl<W: OutputStream> BufferedOutputStreamWrapper<W> {
    /// Wrap `writer` with a fresh internal buffer.
    pub fn new(writer: W) -> (r: BufferedOutputStreamWrapper<W>)
        requires
            writer.inv(),
        ensures
            r.inv(),
            r.data() == writer.data(),
            r.buffered() == Seq::<u8>::empty(),
    {
        let r = BufferedOutputStreamWrapper {
            inner: writer,
            buf: filled(0u8, BUFFER_CAPACITY),
            pos: 0,
            lease: 0,
        };
        proof {
            assert(r.data() =~= r.inner.data());
            assert(r.buffered() =~= Seq::<u8>::empty());
        }
        r
    }

    /// Take the underlying sink back.  After a successful `flush` the sink
    /// has received every byte this stream accepted.
    pub fn into_inner(self) -> (r: W)
        requires
            self.inv(),
        ensures
            r.inv(),
            self.buffered() == Seq::<u8>::empty() ==> r.data() == self.data(),
    {
        proof {
            if self.buffered() == Seq::<u8>::empty() {
                assert(self.inner.data() =~= self.data());
            }
        }
        self.inner
    }
}

impl<W: OutputStream> OutputStream for BufferedOutputStreamWrapper<W> {
    closed spec fn inv(&self) -> bool {
        self.pos <= self.buf.len() && 1 <= self.buf.len() && self.inner.inv()
    }

    closed spec fn data(&self) -> Seq<u8> {
        self.inner.data() + self.buf@.take(self.pos as int)
    }

    closed spec fn accepts(&self, n: int) -> bool {
        self.pos + n <= self.buf@.len()
    }

    closed spec fn rejects(&self, n: int) -> bool {
        false
    }

    closed spec fn buffered(&self) -> Seq<u8> {
        self.buf@.take(self.pos as int)
    }

    fn write_all(&mut self, buf: &Vec<u8>, start: usize, end: usize) -> (r: Result<(), Error>) {
        self.lease = next_lease(self.lease);
        let available = self.buf.len() - self.pos;
        let size = end - start;
        if size <= available {
            // The new data fits in the remaining buffer capacity.
            copy_from_vec(&mut self.buf, self.pos, buf, start, size);
            self.pos = self.pos + size;
            proof {
                assert(self.data() =~= old(self).data() + buf@.subrange(start as int, end as int));
            }
            Ok(())
        } else if size <= self.buf.len() {
            // Too much for the free region, but not a full buffer's worth:
            // top the buffer up, flush it once, keep the rest buffered.
            copy_from_vec(&mut self.buf, self.pos, buf, start, available);
            let buf_len = self.buf.len();
            let ghost filled_buf = self.buf@;
            match self.inner.write_all(&self.buf, 0, buf_len) {
                Ok(()) => (),
                Err(e) => {
                    return Err(e);
                },
            }
            let size2 = size - available;
            copy_from_vec(&mut self.buf, 0, buf, start + available, size2);
            self.pos = size2;
            proof {
                assert(filled_buf.subrange(0, buf_len as int) =~= old(self).buf@.take(
                    old(self).pos as int,
                ) + buf@.subrange(start as int, start + available));
                assert(self.buf@.take(size2 as int) =~= buf@.subrange(
                    start + available,
                    end as int,
                ));
                assert(self.data() =~= old(self).data() + buf@.subrange(start as int, end as int));
            }
            Ok(())
        } else {
            // Writing so much data that buffering would only add a copy:
            // flush what is pending and hand the payload straight through.
            let pending = self.pos;
            match self.inner.write_all(&self.buf, 0, pending) {
                Ok(()) => (),
                Err(e) => {
                    return Err(e);
                },
            }
            self.pos = 0;
            proof {
                assert(self.buf@.subrange(0, pending as int) =~= old(self).buf@.take(
                    old(self).pos as int,
                ));
            }
            match self.inner.write_all(buf, start, end) {
                Ok(()) => (),
                Err(e) => {
                    return Err(e);
                },
            }
            proof {
                assert(self.data() =~= old(self).data() + buf@.subrange(start as int, end as int));
            }
            Ok(())
        }
    }

    fn flush(&mut self) -> (r: Result<(), Error>) {
        self.lease = next_lease(self.lease);
        if self.pos > 0 {
            let pending = self.pos;
            match self.inner.write_all(&self.buf, 0, pending) {
                Ok(()) => (),
                Err(e) => {
                    return Err(e);
                },
            }
            self.pos = 0;
            proof {
                assert(self.buf@.subrange(0, pending as int) =~= old(self).buf@.take(
                    old(self).pos as int,
                ));
            }
        }
        let r = self.inner.flush();
        proof {
            if r.is_ok() {
                assert(self.data() =~= old(self).data());
                assert(self.buffered() =~= Seq::<u8>::empty());
            }
        }
        r
    }
}

impl<W: OutputStream> BufferedOutputStream for BufferedOutputStreamWrapper<W> {
    closed spec fn current_lease(&self) -> u64 {
        self.lease
    }

    closed spec fn lend_capacity(&self) -> int {
        self.buf@.len() - self.pos
    }

    fn get_write_buffer(&mut self) -> (r: (u64, usize)) {
        (self.lease, self.buf.len() - self.pos)
    }

    fn write_ptr(&mut self, token: u64, bytes: &Vec<u8>) -> (r: Result<(), Error>) {
        if token == self.lease && bytes.len() <= self.buf.len() - self.pos {
            // The commit completes the current lease in place: the bytes
            // land in the leased region and no sink call is needed.
            copy_from_vec(&mut self.buf, self.pos, bytes, 0, bytes.len());
            self.pos = self.pos + bytes.len();
            proof {
                assert(bytes@.subrange(0, bytes@.len() as int) =~= bytes@);
                assert(self.data() =~= old(self).data() + bytes@);
            }
            Ok(())
        } else {
            let len = bytes.len();
            self.write_all(bytes, 0, len)
        }
    }
}

} // verus!
