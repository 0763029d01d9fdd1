//! The byte-stream primitives the kernel's read path is built on: error
//! kinds, seeking, and an in-memory cursor.

use vstd::prelude::*;

verus! {

/// General categories of I/O error.
#[derive(Clone, Copy, Debug, Eq, Hash, Ord, PartialEq, PartialOrd)]
pub enum ErrorKind {
    /// An entity was not found, often a file.
    NotFound,
    /// The operation lacked the necessary privileges to complete.
    PermissionDenied,
    /// The connection was refused by the remote server.
    ConnectionRefused,
    /// The connection was reset by the remote server.
    ConnectionReset,
    /// The connection was aborted (terminated) by the remote server.
    ConnectionAborted,
    /// The network operation failed because it was not connected yet.
    NotConnected,
    /// A socket address could not be bound because the address is already
    /// in use elsewhere.
    AddrInUse,
    /// A nonexistent interface was requested or the requested address was
    /// not local.
    AddrNotAvailable,
    /// The operation failed because a pipe was closed.
    BrokenPipe,
    /// An entity already exists, often a file.
    AlreadyExists,
    /// The operation needs to block to complete, but was asked not to.
    WouldBlock,
    /// A parameter was incorrect.
    InvalidInput,
    /// Data not valid for the operation were encountered.
    InvalidData,
    /// The I/O operation's timeout expired, causing it to be canceled.
    TimedOut,
    /// A write returned nothing although more remained to be written.
    WriteZero,
    /// This operation was interrupted.
    Interrupted,
    /// Any I/O error not part of this list.
    Other,
    /// An "end of file" was reached prematurely.
    UnexpectedEof,
}

/// How an error is carried: bare, or with a static message.
#[derive(Clone, Copy, Debug)]
pub enum Repr {
    Simple(ErrorKind),
    Custom(ErrorKind, &'static str),
}

/// The error type for the I/O operations of this crate.
#[derive(Clone, Copy, Debug)]
pub struct Error {
    pub repr: Repr,
}

/// The kind an error representation carries.
pub open spec fn kind_of(repr: Repr) -> ErrorKind {
    match repr {
        Repr::Simple(kind) => kind,
        Repr::Custom(kind, msg) => kind,
    }
}

impl Error {
    /// Creates an error of the given kind with a static message.
    pub fn new(kind: ErrorKind, error: &'static str) -> (r: Error)
        ensures
            r.repr == Repr::Custom(kind, error),
            kind_of(r.repr) == kind,
    {
        Error { repr: Repr::Custom(kind, error) }
    }

    /// Returns the corresponding `ErrorKind` for this error.
    pub fn kind(&self) -> (r: ErrorKind)
        ensures
            r == kind_of(self.repr),
    {
        match self.repr {
            Repr::Custom(kind, _) => kind,
            Repr::Simple(kind) => kind,
        }
    }
}

/// Enumeration of possible methods to seek within an I/O object.
#[derive(Copy, Clone, Debug)]
pub enum SeekFrom {
    /// Sets the offset to the provided number of bytes.
    Start(u64),
    /// Sets the offset to the size of this object plus the given number of
    /// bytes (which may be negative).
    End(i64),
    /// Sets the offset to the current position plus the given number of
    /// bytes (which may be negative).
    Current(i64),
}

/// A `Cursor` wraps an in-memory byte buffer and gives it read, write and
/// seek operations, so the buffer can stand anywhere a stream can.
pub struct Cursor {
    pub inner: Vec<u8>,
    pub pos: u64,
}

impl Cursor {
    /// Wraps a buffer, with the position at its start.
    pub fn new(inner: Vec<u8>) -> (r: Cursor)
        ensures
            r.inner@ == inner@,
            r.pos == 0,
    {
        Cursor { inner, pos: 0 }
    }

    /// The bytes from the current position to the end of the buffer (all
    /// that a read could return).
    pub fn fill_buf(&self) -> (r: &[u8])
        ensures
            r@ == self.inner@.skip(if self.pos <= self.inner@.len() {
                self.pos as int
            } else {
                self.inner@.len() as int
            }),
    {
        let len = self.inner.len();
        let amt = if self.pos < len as u64 {
            self.pos as usize
        } else {
            len
        };
        vstd::slice::slice_subrange(self.inner.as_slice(), amt, len)
    }

    /// Seek to an offset in the stream. Seeking beyond the end is allowed;
    /// seeking before byte zero, or past the numeric range of a position,
    /// is an `InvalidInput` error and leaves the position unchanged.
    pub fn seek(&mut self, style: SeekFrom) -> (r: Result<u64, Error>)
        ensures
            final(self).inner@ == old(self).inner@,
            match style {
                SeekFrom::Start(n) => r == Ok::<u64, Error>(n) && final(self).pos == n,
                SeekFrom::End(n) => {
                    let base = old(self).inner@.len() as int;
                    if 0 <= base + n <= u64::MAX {
                        &&& final(self).pos == base + n
                        &&& r == Ok::<u64, Error>((base + n) as u64)
                    } else {
                        &&& final(self).pos == old(self).pos
                        &&& r is Err && kind_of(r->Err_0.repr) == ErrorKind::InvalidInput
                    }
                },
                SeekFrom::Current(n) => {
                    let base = old(self).pos as int;
                    if 0 <= base + n <= u64::MAX {
                        &&& final(self).pos == base + n
                        &&& r == Ok::<u64, Error>((base + n) as u64)
                    } else {
                        &&& final(self).pos == old(self).pos
                        &&& r is Err && kind_of(r->Err_0.repr) == ErrorKind::InvalidInput
                    }
                },
            },
    {
        let (base_pos, offset): (u64, i64) = match style {
            SeekFrom::Start(n) => {
                self.pos = n;
                return Ok(n);
            },
            SeekFrom::End(n) => (self.inner.len() as u64, n),
            SeekFrom::Current(n) => (self.pos, n),
        };
        let new_pos: Option<u64> = if offset >= 0 {
            base_pos.checked_add(offset as u64)
        } else {
            // magnitude of a negative offset, written to stay in range even
            // for the smallest value
            let mag = ((-(offset + 1)) as u64) + 1;
            base_pos.checked_sub(mag)
        };
        match new_pos {
            Some(n) => {
                self.pos = n;
                Ok(n)
            },
            Option::None => Err(Error::new(ErrorKind::InvalidInput,
                "invalid seek to a negative or overflowing position")),
        }
    }

    /// Pull bytes from the buffer into `buf`, overwriting its front and
    /// returning how many bytes were read: as many as remain before the
    /// end, up to `buf`'s length.
    pub fn read(&mut self, buf: &mut Vec<u8>) -> (r: usize)
        ensures
            final(self).inner@ == old(self).inner@,
            final(buf)@.len() == old(buf)@.len(),
            ({
                let start = if old(self).pos <= old(self).inner@.len() {
                    old(self).pos as int
                } else {
                    old(self).inner@.len() as int
                };
                let avail = old(self).inner@.len() - start;
                let amt = if old(buf)@.len() <= avail {
                    old(buf)@.len() as int
                } else {
                    avail
                };
                &&& r == amt
                &&& final(self).pos == start + amt
                &&& final(buf)@ == old(self).inner@.subrange(start, start + amt) + old(
                    buf)@.skip(amt)
            }),
    {
        let len = self.inner.len();
        let start = if self.pos < len as u64 {
            self.pos as usize
        } else {
            len
        };
        let avail = len - start;
        let amt = if buf.len() <= avail {
            buf.len()
        } else {
            avail
        };
        let mut i: usize = 0;
        while i < amt
            invariant
                amt <= buf@.len(),
                start + amt <= self.inner@.len(),
                start + amt <= usize::MAX,
                i <= amt,
                self.inner@.len() == old(self).inner@.len(),
                self.inner@ == old(self).inner@,
                buf@.len() == old(buf)@.len(),
                forall|j: int| 0 <= j < i ==> buf@[j] == self.inner@[start + j],
                forall|j: int| i <= j < buf@.len() ==> buf@[j] == old(buf)@[j],
            decreases amt - i,
        {
            let b = self.inner[start + i];
            let slot = crate::util::vec_el_mut(buf, i);
            *slot = b;
            i = i + 1;
        }
        self.pos = (start + amt) as u64;
        proof {
            assert(buf@ =~= old(self).inner@.subrange(start as int, start as int + amt as int)
                + old(buf)@.skip(amt as int));
        }
        amt
    }
}

/// Non-resizing write: copies `buf` into `slice` at `*pos_mut`, as far as
/// it fits, and advances the position by the bytes written.
pub fn slice_write(pos_mut: &mut u64, slice: &mut Vec<u8>, buf: &Vec<u8>) -> (r: usize)
    requires
        *old(pos_mut) + buf@.len() <= u64::MAX,
    ensures
        final(slice)@.len() == old(slice)@.len(),
        ({
            let pos = if *old(pos_mut) <= old(slice)@.len() {
                *old(pos_mut) as int
            } else {
                old(slice)@.len() as int
            };
            let amt = if buf@.len() <= old(slice)@.len() - pos {
                buf@.len() as int
            } else {
                old(slice)@.len() - pos
            };
            &&& r == amt
            &&& *final(pos_mut) == *old(pos_mut) + amt
            &&& final(slice)@ == old(slice)@.subrange(0, pos) + buf@.subrange(0, amt) + old(
                slice)@.skip(pos + amt)
        }),
{
    let len = slice.len();
    let pos = if *pos_mut < len as u64 {
        *pos_mut as usize
    } else {
        len
    };
    let space = len - pos;
    let amt = if buf.len() <= space {
        buf.len()
    } else {
        space
    };
    let mut i: usize = 0;
    while i < amt
        invariant
            amt <= buf@.len(),
            pos + amt <= slice@.len(),
            pos + amt <= usize::MAX,
            i <= amt,
            slice@.len() == old(slice)@.len(),
            buf@.len() <= u64::MAX,
            forall|j: int| 0 <= j < pos ==> slice@[j] == old(slice)@[j],
            forall|j: int| pos <= j < pos + i ==> slice@[j] == buf@[j - pos],
            forall|j: int| pos + i <= j < slice@.len() ==> slice@[j] == old(slice)@[j],
        decreases amt - i,
    {
        let b = buf[i];
        let slot = crate::util::vec_el_mut(slice, pos + i);
        *slot = b;
        i = i + 1;
    }
    *pos_mut = *pos_mut + amt as u64;
    proof {
        assert(slice@ =~= old(slice)@.subrange(0, pos as int) + buf@.subrange(0, amt as int)
            + old(slice)@.skip(pos as int + amt as int));
    }
    amt
}

/// Resizing write: copies all of `buf` into `vec` at `*pos_mut`, zero
/// filling any gap between the end of `vec` and the position, growing the
/// vector as needed. Fails with `InvalidInput` when the position does not
/// fit an in-memory length.
pub fn vec_write(pos_mut: &mut u64, vec: &mut Vec<u8>, buf: &Vec<u8>) -> (r: Result<usize, Error>)
    requires
        *old(pos_mut) + buf@.len() <= u64::MAX,
    ensures
        match r {
            Ok(n) => {
                let pos = *old(pos_mut) as int;
                let filled = if pos <= old(vec)@.len() {
                    old(vec)@
                } else {
                    old(vec)@ + Seq::new((pos - old(vec)@.len()) as nat, |x: int| 0u8)
                };
                &&& *old(pos_mut) <= usize::MAX
                &&& n == buf@.len()
                &&& *final(pos_mut) == *old(pos_mut) + buf@.len()
                &&& final(vec)@ == filled.subrange(0, pos) + buf@ + filled.skip(
                    if pos + buf@.len() <= filled.len() {
                        pos + buf@.len()
                    } else {
                        filled.len() as int
                    },
                )
            },
            Err(e) => {
                &&& *old(pos_mut) > usize::MAX
                &&& kind_of(e.repr) == ErrorKind::InvalidInput
                &&& final(vec)@ == old(vec)@
                &&& *final(pos_mut) == *old(pos_mut)
            },
        },
{
    if *pos_mut > usize::MAX as u64 {
        return Err(Error::new(ErrorKind::InvalidInput,
            "cursor position exceeds maximum possible vector length"));
    }
    let pos = *pos_mut as usize;
    let ghost v0 = vec@;
    if vec.len() < pos {
        let mut k = vec.len();
        while k < pos
            invariant
                vec@.len() == k,
                k <= pos,
                vec@ == v0 + Seq::new((k - v0.len()) as nat, |x: int| 0u8),
            decreases pos - k,
        {
            vec.push(0);
            proof {
                assert(vec@ =~= v0 + Seq::new((k + 1 - v0.len()) as nat, |x: int| 0u8));
            }
            k = k + 1;
        }
    }
    let ghost filled = vec@;
    // overwrite what is there, then append what runs past the end
    let space = vec.len() - pos;
    let left = if buf.len() <= space {
        buf.len()
    } else {
        space
    };
    let mut i: usize = 0;
    while i < left
        invariant
            left <= buf@.len(),
            pos + left <= vec@.len(),
            pos + left <= usize::MAX,
            i <= left,
            vec@.len() == filled.len(),
            forall|j: int| 0 <= j < pos ==> vec@[j] == filled[j],
            forall|j: int| pos <= j < pos + i ==> vec@[j] == buf@[j - pos],
            forall|j: int| pos + i <= j < vec@.len() ==> vec@[j] == filled[j],
        decreases left - i,
    {
        let b = buf[i];
        let slot = crate::util::vec_el_mut(vec, pos + i);
        *slot = b;
        i = i + 1;
    }
    proof {
        assert(vec@ =~= filled.subrange(0, pos as int) + buf@.subrange(0, left as int)
            + filled.skip(pos as int + left as int) + buf@.subrange(left as int, left as int));
    }
    let mut k = left;
    while k < buf.len()
        invariant
            left <= k <= buf@.len(),
            pos + left <= filled.len(),
            vec@ == filled.subrange(0, pos as int) + buf@.subrange(0, left as int) + filled.skip(
                pos + left) + buf@.subrange(left as int, k as int),
        decreases buf@.len() - k,
    {
        let b = buf[k];
        vec.push(b);
        proof {
            assert(vec@ =~= filled.subrange(0, pos as int) + buf@.subrange(0, left as int)
                + filled.skip(pos as int + left as int) + buf@.subrange(left as int, k + 1));
        }
        k = k + 1;
    }
    *pos_mut = pos as u64 + buf.len() as u64;
    proof {
        if pos + buf@.len() <= filled.len() {
            assert(vec@ =~= filled.subrange(0, pos as int) + buf@ + filled.skip(pos
                + buf@.len()));
        } else {
            assert(left == filled.len() - pos);
            assert(vec@ =~= filled.subrange(0, pos as int) + buf@ + filled.skip(
                filled.len() as int));
        }
    }
    Ok(buf.len())
}

} // verus!
