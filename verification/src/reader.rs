//! The buffered seekable reader itself.

use vstd::prelude::*;

use crate::source::ByteSource;
use crate::source::SeekFrom;
use crate::source::SourceError;

verus! {

/// An I/O failure surfaced by the reader, tagged by the operation that
/// touched the source when it happened: a buffer fill, a direct read, or a
/// source-level seek.  The source's own error is carried unmodified.  The
/// reader raises no errors of its own.
#[derive(Clone, Copy, Debug, PartialEq, Eq, Structural)]
pub enum ReaderError {
    Fill(SourceError),
    Read(SourceError),
    Seek(SourceError),
}

/// Partial-consumption buffer for any seekable byte source.
///
/// Bytes in `buf[pos..end]` are the unconsumed window: fetched from the
/// source but not yet marked used.  `index` is the absolute stream offset of
/// the byte at `buf[pos]`.
pub struct AccReader<R> {
    pub inner: R,
    pub buf: Vec<u8>,
    pub pos: usize,
    pub end: usize,
    pub index: u64,
}

impl<R: ByteSource> AccReader<R> {
    /// The unconsumed window `buf[pos..end]`.
    pub open spec fn window(self) -> Seq<u8> {
        self.buf@.subrange(self.pos as int, self.end as int)
    }

    /// Length of the unconsumed window.
    pub open spec fn window_len(self) -> int {
        self.end - self.pos
    }

    /// Structural well-formedness of the bookkeeping offsets.
    pub open spec fn inv(self) -> bool {
        &&& self.pos <= self.end <= self.buf.len()
        &&& self.index + self.window_len() <= u64::MAX
    }

    /// The buffered window agrees with the source: the source's cursor sits
    /// one past the window, and the window holds exactly the stream bytes
    /// starting at `index`.
    pub open spec fn in_sync(self) -> bool {
        &&& self.inner.inv()
        &&& self.inner.offset() == self.index + self.window_len()
        &&& self.window_len() == 0 || (self.index + self.window_len()
            <= self.inner.stream().len() && self.window() == self.inner.stream().subrange(
            self.index as int,
            self.index + self.window_len(),
        ))
    }

    /// Creates a new `AccReader` instance of a determined capacity for a
    /// source.  The buffer is allocated upfront and not eagerly filled.
    pub fn with_capacity(cap: usize, inner: R) -> (r: AccReader<R>)
        ensures
            r.inv(),
            r.inner == inner,
            r.buf.len() == cap,
            r.pos == 0,
            r.end == 0,
            r.index == 0,
            r.window() == Seq::<u8>::empty(),
            inner.inv() && inner.offset() == 0 ==> r.in_sync(),
    {
        let r = AccReader { inner, buf: vec![0u8; cap], pos: 0, end: 0, index: 0 };
        proof {
            assert(r.window() =~= Seq::<u8>::empty());
        }
        r
    }

    /// Creates a new `AccReader` instance with the default capacity.
    pub fn new(inner: R) -> (r: AccReader<R>)
        ensures
            r.inv(),
            r.inner == inner,
            r.buf.len() == 4096,
            r.pos == 0,
            r.end == 0,
            r.index == 0,
            r.window() == Seq::<u8>::empty(),
            inner.inv() && inner.offset() == 0 ==> r.in_sync(),
    {
        AccReader::with_capacity(4096, inner)
    }

    /// Gets a reference to the underlying source.
    pub fn get_ref(&self) -> (r: &R)
        ensures
            *r == self.inner,
    {
        &self.inner
    }

    /// Gets a mutable reference to the underlying source.  Seeking or
    /// reading the source through it desynchronizes the buffered window.
    pub fn get_mut(&mut self) -> (r: &mut R)
        ensures
            *r == old(self).inner,
            final(self).inner == *final(r),
            final(self).buf == old(self).buf,
            final(self).pos == old(self).pos,
            final(self).end == old(self).end,
            final(self).index == old(self).index,
    {
        &mut self.inner
    }

    /// Unwraps the `AccReader`, returning the underlying source.
    ///
    /// Note that any leftover data in the internal buffer is lost.
    pub fn into_inner(self) -> (r: R)
        ensures
            r == self.inner,
    {
        self.inner
    }

    /// Resets the buffer to the current position: the unconsumed window is
    /// shifted down to the buffer's start, freeing the tail for a refill.
    ///
    /// All data before the current position is lost.
    pub fn reset_buffer_position(&mut self)
        requires
            old(self).inv(),
        ensures
            final(self).inv(),
            final(self).pos == 0,
            final(self).end == old(self).window_len(),
            final(self).window() == old(self).window(),
            final(self).index == old(self).index,
            final(self).inner == old(self).inner,
            final(self).buf.len() == old(self).buf.len(),
            old(self).in_sync() ==> final(self).in_sync(),
    {
        let n = self.end - self.pos;
        let mut i: usize = 0;
        while i < n
            invariant
                i <= n,
                n == old(self).end - old(self).pos,
                self.pos == old(self).pos,
                self.end == old(self).end,
                self.index == old(self).index,
                self.inner == old(self).inner,
                self.buf.len() == old(self).buf.len(),
                self.pos <= self.end <= self.buf.len(),
                forall|j: int| 0 <= j < i ==> self.buf@[j] == old(self).buf@[self.pos + j],
                forall|j: int| i <= j < self.buf.len() ==> self.buf@[j] == old(self).buf@[j],
            decreases n - i,
        {
            let b = self.buf[self.pos + i];
            self.buf[i] = b;
            i += 1;
        }
        self.end = n;
        self.pos = 0;
        proof {
            assert(self.window() =~= old(self).window());
            if old(self).in_sync() && n > 0 {
                assert(self.window() == self.inner.stream().subrange(
                    self.index as int,
                    self.index + self.window_len(),
                ));
            }
        }
    }

    /// Returns the currently buffered, unconsumed bytes without side
    /// effects.  Repeated calls without a consume or fill in between return
    /// the identical slice.
    pub fn current_slice(&self) -> (r: &[u8])
        requires
            self.inv(),
        ensures
            r@ == self.window(),
    {
        vstd::slice::slice_subrange(self.buf.as_slice(), self.pos, self.end)
    }

    /// Returns the currently buffered, unconsumed bytes, exactly as
    /// `current_slice` does.
    pub fn data(&self) -> (r: &[u8])
        requires
            self.inv(),
        ensures
            r@ == self.window(),
    {
        self.current_slice()
    }

    /// Length of the unconsumed window `[pos, end)`.
    pub fn unconsumed_len(&self) -> (r: usize)
        requires
            self.inv(),
        ensures
            r == self.window_len(),
    {
        self.end - self.pos
    }

    /// Despite its name, this reports the unconsumed window length exactly
    /// as [`Self::unconsumed_len`] does, not the buffer's allocation; see
    /// [`Self::buffer_capacity`] for the allocation.
    pub fn capacity(&self) -> (r: usize)
        requires
            self.inv(),
        ensures
            r == self.window_len(),
    {
        self.unconsumed_len()
    }

    /// The buffer's true allocated capacity.
    pub fn buffer_capacity(&self) -> (r: usize)
        ensures
            r == self.buf.len(),
    {
        self.buf.len()
    }

    /// Appends `len` zero-initialized bytes of capacity after the current
    /// capacity.  Existing buffer content — in particular the unconsumed
    /// window — is untouched.
    pub fn grow(&mut self, len: usize)
        requires
            old(self).inv(),
            old(self).buf.len() + len <= usize::MAX,
        ensures
            final(self).inv(),
            final(self).buf.len() == old(self).buf.len() + len,
            final(self).buf@.take(old(self).buf.len() as int) == old(self).buf@,
            forall|j: int|
                old(self).buf.len() <= j < final(self).buf.len() ==> final(self).buf@[j] == 0,
            final(self).pos == old(self).pos,
            final(self).end == old(self).end,
            final(self).index == old(self).index,
            final(self).inner == old(self).inner,
            final(self).window() == old(self).window(),
            old(self).in_sync() ==> final(self).in_sync(),
    {
        let l = self.buf.len() + len;
        self.buf.resize(l, 0);
        proof {
            assert(self.buf@.take(old(self).buf.len() as int) =~= old(self).buf@);
            assert(self.window() =~= old(self).window());
        }
    }

    /// Marks `amt` bytes as used: `pos` advances by `amt`, clamped so it
    /// never passes `end`, and `index` advances by the same clamped amount.
    /// Consuming more than is buffered is not an error; it consumes
    /// everything currently buffered.
    pub fn consume(&mut self, amt: usize)
        requires
            old(self).inv(),
        ensures
            final(self).inv(),
            final(self).buf == old(self).buf,
            final(self).end == old(self).end,
            final(self).inner == old(self).inner,
            (final(self).window(), final(self).index as int) == consume_step(
                old(self).window(),
                old(self).index as int,
                amt as int,
            ),
            final(self).pos == old(self).pos + (final(self).index - old(self).index),
            old(self).in_sync() ==> final(self).in_sync(),
    {
        let avail = self.end - self.pos;
        let k = if amt < avail {
            amt
        } else {
            avail
        };
        self.pos = self.pos + k;
        self.index = self.index + k as u64;
        proof {
            assert(self.window() =~= old(self).window().skip(k as int));
            if old(self).in_sync() && self.window_len() > 0 {
                assert(self.window() == self.inner.stream().subrange(
                    self.index as int,
                    self.index + self.window_len(),
                ));
            }
        }
    }

    /// Guarantees the unconsumed window is non-empty unless the source is
    /// exhausted (or the buffer has no capacity at all).  If the buffer is
    /// not already positioned to receive new data at its tail, the window is
    /// first compacted to the buffer's start; then one read from the source
    /// fills the free tail.  Returns the length of the unconsumed window,
    /// whose old content stays in place as a prefix.  On the one input where
    /// no source call is made — the buffer already full at offset zero —
    /// success is owed and promised.
    pub fn fill_buf(&mut self) -> (r: Result<usize, ReaderError>)
        requires
            old(self).inv(),
            old(self).in_sync(),
        ensures
            final(self).inv(),
            final(self).in_sync(),
            final(self).index == old(self).index,
            final(self).inner.stream() == old(self).inner.stream(),
            final(self).buf.len() == old(self).buf.len(),
            final(self).window().take(old(self).window_len()) == old(self).window(),
            old(self).pos == 0 ==> final(self).pos == 0,
            old(self).pos == 0 && old(self).end == old(self).buf.len() ==> r == Ok::<
                usize,
                ReaderError,
            >(old(self).end),
            match r {
                Ok(n) => {
                    &&& n == final(self).window_len()
                    &&& n >= old(self).window_len()
                    &&& (n == 0 ==> old(self).index >= old(self).inner.stream().len()
                        || old(self).buf.len() == 0)
                    &&& (old(self).pos == 0 && old(self).end == old(self).buf.len()
                        ==> *final(self) == *old(self))
                },
                Err(e) => {
                    &&& e is Fill
                    &&& final(self).window() == old(self).window()
                    &&& final(self).inner == old(self).inner
                },
            },
    {
        if self.pos != 0 || self.end != self.buf.len() {
            self.reset_buffer_position();
            let from = self.end;
            let res = self.inner.read_into(&mut self.buf, from);
            match res {
                Ok(nread) => {
                    self.end = self.end + nread;
                    proof {
                        self.inner.lemma_inv_bounds();
                        assert(self.window().take(old(self).window_len()) =~= old(self).window());
                        if self.window_len() > 0 {
                            assert(self.window() =~= self.inner.stream().subrange(
                                self.index as int,
                                self.index + self.window_len(),
                            ));
                        }
                    }
                    Ok(self.end - self.pos)
                },
                Err(e) => {
                    proof {
                        assert(self.window().take(old(self).window_len()) =~= old(self).window());
                    }
                    Err(ReaderError::Fill(e))
                },
            }
        } else {
            proof {
                assert(self.window().take(old(self).window_len()) =~= old(self).window());
            }
            Ok(self.end - self.pos)
        }
    }

    /// Reads into `dest`, filling it from its front.  Three policies, chosen
    /// by relative size:
    ///
    /// - a request smaller than the unconsumed window is copied straight out
    ///   of the buffer, touching the source not at all;
    /// - a request larger than the whole buffer drains the unconsumed window
    ///   into the front of `dest` and reads the remaining space directly
    ///   from the source, bypassing the buffer.  The direct read lands right
    ///   after the drained bytes, the absolute index keeps step with the
    ///   source's cursor, and the returned count covers the direct read
    ///   alone: a caller that needs the total must add the drained window
    ///   length, which equals the unconsumed length before the call.  The
    ///   bookkeeping of this branch is recorded as an open question: where
    ///   the direct read should land in `dest`, and what the count should
    ///   cover, are sharp edges of the interface; here the direct read is
    ///   placed at the drained-byte count, so the two byte runs abut and no
    ///   byte of `dest` is skipped;
    /// - anything else tops the buffer up once and serves from it, with
    ///   standard short-read semantics near end of stream.
    pub fn read(&mut self, dest: &mut Vec<u8>) -> (r: Result<usize, ReaderError>)
        requires
            old(self).inv(),
            old(self).in_sync(),
        ensures
            final(self).inv(),
            final(self).in_sync(),
            final(self).inner.stream() == old(self).inner.stream(),
            final(dest).len() == old(dest).len(),
            final(self).buf.len() == old(self).buf.len(),
            // small request: served from the buffer alone, no source I/O
            old(dest).len() < old(self).window_len() ==> {
                &&& r == Ok::<usize, ReaderError>(old(dest).len())
                &&& final(self).inner == old(self).inner
                &&& final(dest)@ == old(self).window().take(old(dest).len() as int)
                &&& final(self).index == old(self).index + old(dest).len()
                &&& final(self).window() == old(self).window().skip(old(dest).len() as int)
            },
            // oversized request: the window is drained to the front of dest,
            // the rest is read directly from the source
            old(dest).len() > old(self).buf.len() ==> {
                let w = old(self).window_len();
                &&& final(self).window_len() == 0
                &&& final(dest)@.take(w) == old(self).window()
                &&& match r {
                    Ok(m) => {
                        &&& m <= old(dest).len() - w
                        &&& final(self).index == old(self).index + w + m
                        &&& (m != 0 ==> old(self).index + w + m
                            <= old(self).inner.stream().len()
                            && final(dest)@.subrange(w, w + m)
                                == old(self).inner.stream().subrange(
                                old(self).index + w,
                                old(self).index + w + m,
                            ))
                        &&& (m == 0 ==> old(self).index + w >= old(self).inner.stream().len())
                        &&& final(dest)@.skip(w + m) == old(dest)@.skip(w + m)
                    },
                    Err(e) => {
                        &&& e is Read
                        &&& final(self).index == old(self).index + w
                        &&& final(self).inner == old(self).inner
                        &&& final(dest)@.skip(w) == old(dest)@.skip(w)
                    },
                }
            },
            // when the buffer is already full and the request covers exactly
            // its contents, no source call is made and success is owed
            old(self).pos == 0 && old(self).end == old(self).buf.len() && old(dest).len() == old(
                self,
            ).buf.len() ==> r == Ok::<usize, ReaderError>(old(dest).len()),
            // fits in the buffer, more than is currently there: fill once,
            // then serve up to the requested amount from the window
            old(self).window_len() <= old(dest).len() <= old(self).buf.len() ==> match r {
                Ok(n) => {
                    &&& n <= old(dest).len()
                    &&& final(self).index == old(self).index + n
                    &&& (n != 0 ==> old(self).index + n <= old(self).inner.stream().len()
                        && final(dest)@.take(n as int) == old(self).inner.stream().subrange(
                        old(self).index as int,
                        old(self).index + n,
                    ))
                    &&& final(dest)@.skip(n as int) == old(dest)@.skip(n as int)
                    &&& (n < old(dest).len() ==> final(self).window_len() == 0)
                    &&& (n == 0 ==> old(dest).len() == 0
                        || old(self).index >= old(self).inner.stream().len()
                        || old(self).buf.len() == 0)
                },
                Err(e) => {
                    &&& e is Fill
                    &&& final(self).window() == old(self).window()
                    &&& final(self).index == old(self).index
                    &&& final(self).inner == old(self).inner
                    &&& final(dest)@ == old(dest)@
                },
            },
    {
        let l = dest.len();
        let avail = self.end - self.pos;
        if l < avail {
            copy_into(&self.buf, self.pos, l, dest);
            self.consume(l);
            proof {
                assert(dest@ =~= old(self).window().take(l as int));
            }
            Ok(l)
        } else if l > self.buf.len() {
            let w = avail;
            copy_into(&self.buf, self.pos, w, dest);
            self.consume(w);
            proof {
                assert(dest@.take(w as int) =~= old(self).window());
            }
            let res = self.inner.read_into(dest, w);
            match res {
                Ok(m) => {
                    proof {
                        self.inner.lemma_inv_bounds();
                        assert(dest@.take(w as int) =~= old(self).window());
                        if m != 0 {
                            assert(dest@.subrange(w as int, w + m) =~= old(
                                self,
                            ).inner.stream().subrange(
                                old(self).index + w,
                                old(self).index + w + m,
                            ));
                        }
                        assert(dest@.skip(w + m) =~= old(dest)@.skip(w + m));
                    }
                    self.index = self.index + m as u64;
                    Ok(m)
                },
                Err(e) => Err(ReaderError::Read(e)),
            }
        } else {
            let res = self.fill_buf();
            match res {
                Ok(nf) => {
                    let n = if l < nf {
                        l
                    } else {
                        nf
                    };
                    copy_into(&self.buf, self.pos, n, dest);
                    self.consume(n);
                    proof {
                        if n != 0 {
                            assert(dest@.take(n as int) =~= old(self).inner.stream().subrange(
                                old(self).index as int,
                                old(self).index + n,
                            ));
                        }
                    }
                    Ok(n)
                },
                Err(e) => Err(e),
            }
        }
    }
    /// Whether a seek request can be served from the buffered window alone:
    /// an absolute target within `[index, index + window length)`, or a
    /// non-negative relative offset of at most the window length.  Negative
    /// relative offsets and end-relative seeks never are, even when the
    /// bytes are still physically present — an explicit limitation of the
    /// forward-lookahead optimization, not an oversight.
    pub open spec fn seek_in_window(self, from: SeekFrom) -> bool {
        match from {
            SeekFrom::Start(sz) => self.index <= sz && (sz as int) < self.index
                + self.window_len(),
            SeekFrom::Current(d) => 0 <= d && d as int <= self.window_len(),
            SeekFrom::End(_) => false,
        }
    }

    /// Seeks to the requested position, returning the resulting absolute
    /// offset.  An in-window request (see [`Self::seek_in_window`]) adjusts
    /// `pos` and `index` in place and touches the source not at all.  Any
    /// other request delegates to the source; on success the buffer is reset
    /// and eagerly refilled once, while a failed source seek leaves the
    /// reader exactly as it was.
    pub fn seek(&mut self, from: SeekFrom) -> (r: Result<u64, ReaderError>)
        requires
            old(self).inv(),
            old(self).in_sync(),
        ensures
            final(self).inv(),
            final(self).in_sync(),
            final(self).inner.stream() == old(self).inner.stream(),
            final(self).buf.len() == old(self).buf.len(),
            // in-window: served from the buffer, the source untouched
            old(self).seek_in_window(from) ==> {
                &&& final(self).inner == old(self).inner
                &&& r == Ok::<u64, ReaderError>(final(self).index)
                &&& final(self).index as int == match from {
                    SeekFrom::Start(sz) => sz as int,
                    SeekFrom::Current(d) => old(self).index + d,
                    SeekFrom::End(_) => 0,
                }
                &&& final(self).pos == old(self).pos + (final(self).index - old(self).index)
                &&& final(self).end == old(self).end
                &&& final(self).buf == old(self).buf
                &&& final(self).window() == old(self).window().skip(
                    final(self).index - old(self).index,
                )
            },
            // out-of-window: delegated to the source's own seek
            !old(self).seek_in_window(from) ==> match r {
                Ok(sz) => {
                    &&& sz as int == crate::source::seek_target(
                        from,
                        old(self).inner.offset(),
                        old(self).inner.stream().len() as int,
                    )
                    &&& final(self).index == sz
                    &&& final(self).pos == 0
                    &&& (final(self).window_len() == 0 ==> sz as int >= old(
                        self,
                    ).inner.stream().len() || old(self).buf.len() == 0)
                },
                // the error's tag says which stage touched the source: a
                // failed source-level seek leaves the reader exactly as it
                // was, while a failed eager refill after a successful seek
                // leaves the window empty with the index at the resolved
                // target
                Err(e) => {
                    &&& !(e is Read)
                    &&& (e is Seek ==> *final(self) == *old(self))
                    &&& (e is Fill ==> final(self).pos == final(self).end
                        && final(self).index as int == crate::source::seek_target(
                        from,
                        old(self).inner.offset(),
                        old(self).inner.stream().len() as int,
                    ))
                },
            },
    {
        let avail = self.end - self.pos;
        match from {
            SeekFrom::Start(sz) => {
                if sz >= self.index && sz - self.index < avail as u64 {
                    let delta = (sz - self.index) as usize;
                    self.pos = self.pos + delta;
                    self.index = sz;
                    proof {
                        assert(self.window() =~= old(self).window().skip(delta as int));
                        if self.window_len() > 0 {
                            assert(self.window() =~= self.inner.stream().subrange(
                                self.index as int,
                                self.index + self.window_len(),
                            ));
                        }
                    }
                    return Ok(sz);
                }
            },
            SeekFrom::End(_) => {},
            SeekFrom::Current(d) => {
                if d >= 0 && d as u64 <= avail as u64 {
                    let delta = d as usize;
                    self.pos = self.pos + delta;
                    self.index = self.index + delta as u64;
                    proof {
                        assert(self.window() =~= old(self).window().skip(delta as int));
                        if self.window_len() > 0 {
                            assert(self.window() =~= self.inner.stream().subrange(
                                self.index as int,
                                self.index + self.window_len(),
                            ));
                        }
                    }
                    return Ok(self.index);
                }
            },
        }
        let res = self.inner.seek(from);
        match res {
            Ok(sz) => {
                self.index = sz;
                self.pos = 0;
                self.end = 0;
                proof {
                    assert(self.window() =~= Seq::<u8>::empty());
                }
                match self.fill_buf() {
                    Ok(_) => Ok(sz),
                    Err(e) => Err(e),
                }
            },
            Err(e) => Err(ReaderError::Seek(e)),
        }
    }
}

/// Copies `k` bytes of `src` starting at `from` into the front of `dest`,
/// leaving the rest of `dest` untouched.
fn copy_into(src: &Vec<u8>, from: usize, k: usize, dest: &mut Vec<u8>)
    requires
        from + k <= src.len(),
        k <= old(dest).len(),
    ensures
        final(dest).len() == old(dest).len(),
        final(dest)@.take(k as int) == src@.subrange(from as int, from + k),
        final(dest)@.skip(k as int) == old(dest)@.skip(k as int),
        forall|j: int| 0 <= j < k ==> #[trigger] final(dest)@[j] == src@[from + j],
        forall|j: int| k <= j < old(dest).len() ==> #[trigger] final(dest)@[j] == old(dest)@[j],
{
    let mut i: usize = 0;
    while i < k
        invariant
            i <= k,
            from + k <= src.len(),
            k <= dest.len(),
            dest.len() == old(dest).len(),
            forall|j: int| 0 <= j < i ==> dest@[j] == src@[from + j],
            forall|j: int| i <= j < dest.len() ==> dest@[j] == old(dest)@[j],
        decreases k - i,
    {
        let b = src[from + i];
        dest[i] = b;
        i += 1;
    }
    proof {
        assert(dest@.take(k as int) =~= src@.subrange(from as int, from + k));
        assert(dest@.skip(k as int) =~= old(dest)@.skip(k as int));
    }
}

/// The effect of one consume call on the unconsumed window and the absolute
/// index: the requested amount, clamped to the window length, leaves the
/// front of the window, and the index advances by the same clamped amount.
pub open spec fn consume_step(w: Seq<u8>, idx: int, amt: int) -> (Seq<u8>, int) {
    let k = if amt <= w.len() {
        amt
    } else {
        w.len() as int
    };
    (w.skip(k), idx + k)
}

/// The effect of a whole sequence of consume calls, folded in order over the
/// window and the absolute index.
pub open spec fn consume_all(w: Seq<u8>, idx: int, amts: Seq<int>) -> (Seq<u8>, int)
    decreases amts.len(),
{
    if amts.len() == 0 {
        (w, idx)
    } else {
        let s = consume_step(w, idx, amts[0]);
        consume_all(s.0, s.1, amts.skip(1))
    }
}

/// The total of a sequence of consume amounts.
pub open spec fn amounts_total(amts: Seq<int>) -> int
    decreases amts.len(),
{
    if amts.len() == 0 {
        0
    } else {
        amts[0] + amounts_total(amts.skip(1))
    }
}

/// A sequence of non-negative amounts has a non-negative total.
pub proof fn lemma_amounts_total_nonneg(amts: Seq<int>)
    requires
        forall|i: int| 0 <= i < amts.len() ==> amts[i] >= 0,
    ensures
        amounts_total(amts) >= 0,
    decreases amts.len(),
{
    if amts.len() != 0 {
        lemma_amounts_total_nonneg(amts.skip(1));
    }
}

/// Law: the byte runs that successive reads deliver concatenate to one
/// contiguous segment of the source's stream.  Each successful read hands
/// out `stream[index .. index + n]` and advances `index` by `n` (see the
/// contract of [`AccReader::read`]), so reading back through the buffer
/// reproduces the source's byte sequence exactly, whichever policy served
/// each call.
pub proof fn lemma_reads_are_contiguous(stream: Seq<u8>, idx: int, n1: int, n2: int)
    requires
        0 <= idx,
        0 <= n1,
        0 <= n2,
        idx + n1 + n2 <= stream.len(),
    ensures
        stream.subrange(idx, idx + n1) + stream.subrange(idx + n1, idx + n1 + n2)
            == stream.subrange(idx, idx + n1 + n2),
{
    assert(stream.subrange(idx, idx + n1) + stream.subrange(idx + n1, idx + n1 + n2)
        =~= stream.subrange(idx, idx + n1 + n2));
}

/// Law: for any sequence of non-negative consume amounts whose total is at
/// most the window length, no clamping occurs — the window loses exactly
/// that total from its front, so its length decreases by exactly the amount
/// consumed, and the absolute index grows by the same amount.  One consume
/// call performs exactly one `consume_step`, as its contract states.
pub proof fn lemma_consume_sequence(w: Seq<u8>, idx: int, amts: Seq<int>)
    requires
        forall|i: int| 0 <= i < amts.len() ==> amts[i] >= 0,
        amounts_total(amts) <= w.len(),
    ensures
        consume_all(w, idx, amts).0 == w.skip(amounts_total(amts)),
        consume_all(w, idx, amts).0.len() == w.len() - amounts_total(amts),
        consume_all(w, idx, amts).1 == idx + amounts_total(amts),
    decreases amts.len(),
{
    if amts.len() == 0 {
        assert(w.skip(0) =~= w);
    } else {
        let a = amts[0];
        let rest = amts.skip(1);
        assert(forall|i: int| 0 <= i < rest.len() ==> rest[i] >= 0);
        lemma_amounts_total_nonneg(rest);
        lemma_consume_sequence(w.skip(a), idx + a, rest);
        assert(w.skip(a).skip(amounts_total(rest)) =~= w.skip(a + amounts_total(rest)));
    }
}

} // verus!

