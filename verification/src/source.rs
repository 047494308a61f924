//! The byte-source capability that the buffered reader wraps: sequential
//! reads plus absolute/relative seeks, together with an in-memory
//! implementation.

use vstd::prelude::*;

verus! {

/// Where a seek starts from: an absolute offset, an offset relative to the
/// end of the stream, or an offset relative to the current position.
#[derive(Clone, Copy, Debug)]
pub enum SeekFrom {
    Start(u64),
    End(i64),
    Current(i64),
}

/// An I/O failure reported by a byte source.  The reader never raises
/// errors of its own: every failure it surfaces carries a `SourceError`
/// that came from the underlying source, unmodified, tagged only by the
/// operation that touched the source.
#[derive(Clone, Copy, Debug, PartialEq, Eq, Structural)]
pub struct SourceError;

/// The absolute offset a seek request resolves to, given the current offset
/// `cur` and the stream length `len`.
pub open spec fn seek_target(from: SeekFrom, cur: int, len: int) -> int {
    match from {
        SeekFrom::Start(s) => s as int,
        SeekFrom::End(d) => len + d as int,
        SeekFrom::Current(d) => cur + d as int,
    }
}

/// A blocking, seekable byte provider.
///
/// The provider is modelled by the byte sequence it ranges over (`stream`)
/// and a cursor (`offset`).  Reads deliver the bytes of `stream` at the
/// cursor in order, may be short, and return zero bytes only at end of
/// stream or when handed no space.  Seeks move the cursor to the resolved
/// target.  Either operation may fail; a failed operation leaves the source
/// unchanged.
pub trait ByteSource: Sized {
    /// The byte sequence this source ranges over.
    spec fn stream(&self) -> Seq<u8>;

    /// The absolute offset of the source's cursor.
    spec fn offset(&self) -> int;

    /// Well-formedness of the source.
    spec fn inv(&self) -> bool;

    /// A well-formed source has a cursor and a stream that fit the machine's
    /// offset arithmetic.
    proof fn lemma_inv_bounds(&self)
        requires
            self.inv(),
        ensures
            0 <= self.offset() <= u64::MAX,
            self.stream().len() <= u64::MAX,
    ;

    /// Read sequentially from the cursor into `dest[from..]`.  On success the
    /// read bytes are the stream's bytes at the old cursor, the cursor
    /// advances past them, and the rest of `dest` is untouched.  A successful
    /// read of zero bytes means end of stream (or zero space).
    fn read_into(&mut self, dest: &mut Vec<u8>, from: usize) -> (r: Result<usize, SourceError>)
        requires
            old(self).inv(),
            from <= old(dest).len(),
        ensures
            final(self).inv(),
            final(self).stream() == old(self).stream(),
            final(dest).len() == old(dest).len(),
            match r {
                Ok(n) => {
                    &&& n <= old(dest).len() - from
                    &&& final(self).offset() == old(self).offset() + n
                    &&& (n != 0 ==> old(self).offset() + n <= final(self).stream().len())
                    &&& (n == 0 ==> from == old(dest).len()
                        || old(self).offset() >= old(self).stream().len())
                    &&& (forall|j: int|
                        0 <= j < from ==> #[trigger] final(dest)@[j] == old(dest)@[j])
                    &&& (forall|j: int|
                        from <= j < from + n ==> #[trigger] final(dest)@[j]
                            == final(self).stream()[old(self).offset() + (j - from)])
                    &&& (forall|j: int|
                        from + n <= j < old(dest).len() ==> #[trigger] final(dest)@[j]
                            == old(dest)@[j])
                },
                Err(_) => {
                    &&& *final(self) == *old(self)
                    &&& final(dest)@ == old(dest)@
                },
            },
    ;

    /// Move the cursor to the offset that `from` resolves to.  On success the
    /// returned offset is exactly the resolved target; on failure the source
    /// is unchanged.
    fn seek(&mut self, from: SeekFrom) -> (r: Result<u64, SourceError>)
        requires
            old(self).inv(),
        ensures
            final(self).inv(),
            final(self).stream() == old(self).stream(),
            match r {
                Ok(n) => {
                    &&& n as int == seek_target(from, old(self).offset(),
                        old(self).stream().len() as int)
                    &&& final(self).offset() == n as int
                },
                Err(_) => *final(self) == *old(self),
            },
    ;
}

/// An in-memory byte source: a byte vector with a cursor.  The cursor may
/// sit past the end of the data, in which case reads deliver zero bytes.
pub struct MemSource {
    pub data: Vec<u8>,
    pub off: u64,
}

impl MemSource {
    /// Wraps a byte vector as a source whose cursor starts at offset zero.
    pub fn new(data: Vec<u8>) -> (r: MemSource)
        ensures
            r.inv(),
            r.stream() == data@,
            r.offset() == 0,
    {
        MemSource { data, off: 0 }
    }

    /// The cursor's current absolute offset.
    pub fn position(&self) -> (r: u64)
        ensures
            r as int == self.offset(),
    {
        self.off
    }
}

impl ByteSource for MemSource {
    open spec fn stream(&self) -> Seq<u8> {
        self.data@
    }

    open spec fn offset(&self) -> int {
        self.off as int
    }

    open spec fn inv(&self) -> bool {
        true
    }

    proof fn lemma_inv_bounds(&self) {
        vstd::std_specs::vec::axiom_spec_len(&self.data);
    }

    /// Never fails, and never reads short: it delivers the smaller of the
    /// space it was handed and the bytes remaining before end of stream.
    fn read_into(&mut self, dest: &mut Vec<u8>, from: usize) -> (r: Result<usize, SourceError>)
        ensures
            ({
                let space = old(dest).len() - from;
                let rem = if old(self).offset() <= old(self).stream().len() {
                    old(self).stream().len() - old(self).offset()
                } else {
                    0
                };
                r == Ok::<usize, SourceError>(
                    (if space <= rem {
                        space
                    } else {
                        rem
                    }) as usize,
                )
            }),
    {
        let space = dest.len() - from;
        let len = self.data.len();
        if self.off >= len as u64 || space == 0 {
            return Ok(0);
        }
        let remaining = len as u64 - self.off;
        let n: usize = if space as u64 <= remaining {
            space
        } else {
            remaining as usize
        };
        let start = self.off as usize;
        let mut i: usize = 0;
        while i < n
            invariant
                i <= n,
                0 < n <= old(dest).len() - from,
                from + n <= old(dest).len(),
                start == old(self).off,
                start + n <= old(self).data.len(),
                *self == *old(self),
                dest.len() == old(dest).len(),
                forall|j: int| 0 <= j < from ==> #[trigger] dest@[j] == old(dest)@[j],
                forall|j: int|
                    from <= j < from + i ==> #[trigger] dest@[j] == self.data@[start + (j - from)],
                forall|j: int|
                    from + i <= j < old(dest).len() ==> #[trigger] dest@[j] == old(dest)@[j],
            decreases n - i,
        {
            let b = self.data[start + i];
            dest[from + i] = b;
            i += 1;
        }
        self.off = self.off + n as u64;
        Ok(n)
    }

    /// Fails exactly when the resolved target is negative or not
    /// representable; seeking past end of stream is allowed.
    fn seek(&mut self, from: SeekFrom) -> (r: Result<u64, SourceError>)
        ensures
            r is Err <==> !(0 <= seek_target(from, old(self).offset(),
                old(self).stream().len() as int) <= u64::MAX),
    {
        let target: i128 = match from {
            SeekFrom::Start(s) => s as i128,
            SeekFrom::End(d) => self.data.len() as i128 + d as i128,
            SeekFrom::Current(d) => self.off as i128 + d as i128,
        };
        if target < 0 || target > u64::MAX as i128 {
            Err(SourceError)
        } else {
            self.off = target as u64;
            Ok(self.off)
        }
    }
}

} // verus!
