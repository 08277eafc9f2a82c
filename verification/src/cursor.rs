//! A positioned byte cursor over one open file's contents: the model of a
//! file-access handle.  Reads clamp to the bytes that remain, writes append
//! at the end, and seeks stay inside the file; the cursor position is the
//! single source of truth for where the payload begins once the header has
//! been consumed.

use vstd::prelude::*;

use crate::errors::GdPropError;

verus! {

/// Targets for [`FaWrapper::seek`].
#[derive(PartialEq, Eq, Structural, Clone, Copy, Debug)]
pub enum SeekPos {
    /// An absolute position from the start of the file.
    FromStart(u64),
    /// An offset from the end of the file.
    FromEnd(i64),
    /// An offset from the current position.
    FromCurrent(i64),
}

/// A file's bytes together with a cursor position.
pub struct FaWrapper {
    pub data: Vec<u8>,
    pub pos: usize,
}

impl FaWrapper {
    /// The cursor never points past the end of the file.
    pub open spec fn wf(self) -> bool {
        self.pos <= self.data.len()
    }

    /// Opens a cursor at the start of `data`.
    pub fn new(data: Vec<u8>) -> (r: Self)
        ensures
            r.wf(),
            r.data@ == data@,
            r.pos == 0,
    {
        FaWrapper { data, pos: 0 }
    }

    /// An empty file opened for writing.
    pub fn new_empty() -> (r: Self)
        ensures
            r.wf(),
            r.data@ == Seq::<u8>::empty(),
            r.pos == 0,
    {
        let r = FaWrapper { data: Vec::new(), pos: 0 };
        proof {
            assert(r.data@ =~= Seq::<u8>::empty());
        }
        r
    }

    /// The current cursor position.
    pub fn position(&self) -> (r: usize)
        ensures
            r == self.pos,
    {
        self.pos
    }

    /// The number of bytes between the cursor and the end of the file.
    pub fn remaining(&self) -> (r: usize)
        requires
            self.wf(),
        ensures
            r == self.data.len() - self.pos,
    {
        self.data.len() - self.pos
    }

    /// True when the cursor sits at the end of the file.
    pub fn is_eof(&self) -> (r: bool)
        requires
            self.wf(),
        ensures
            r == (self.pos == self.data.len()),
    {
        self.pos == self.data.len()
    }

    /// Moves the cursor to an in-bounds position.
    pub fn set_pos(&mut self, pos: usize)
        requires
            old(self).wf(),
            pos <= old(self).data.len(),
        ensures
            final(self).wf(),
            final(self).data == old(self).data,
            final(self).pos == pos,
    {
        self.pos = pos;
    }

    /// Reads up to `n` bytes, clamped to the bytes that remain, and
    /// advances the cursor by exactly the number of bytes returned.
    pub fn read(&mut self, n: usize) -> (r: Vec<u8>)
        requires
            old(self).wf(),
        ensures
            final(self).wf(),
            final(self).data == old(self).data,
            r@.len() == if n <= old(self).data.len() - old(self).pos {
                n as int
            } else {
                old(self).data.len() - old(self).pos
            },
            r@ == old(self).data@.subrange(
                old(self).pos as int,
                old(self).pos + r@.len(),
            ),
            final(self).pos == old(self).pos + r@.len(),
    {
        let remaining = self.data.len() - self.pos;
        let count = if n <= remaining {
            n
        } else {
            remaining
        };
        let mut out: Vec<u8> = Vec::new();
        let mut i: usize = 0;
        while i < count
            invariant
                self.wf(),
                *self == *old(self),
                count <= self.data.len() - self.pos,
                i <= count,
                out@ =~= self.data@.subrange(self.pos as int, self.pos + i),
            decreases count - i,
        {
            out.push(self.data[self.pos + i]);
            proof {
                assert(out@ =~= self.data@.subrange(self.pos as int, self.pos + i + 1));
            }
            i += 1;
        }
        self.pos = self.pos + count;
        out
    }

    /// Reads exactly `n` bytes, or fails without moving the cursor when
    /// fewer remain.
    pub fn read_exact(&mut self, n: usize) -> (r: Result<Vec<u8>, GdPropError>)
        requires
            old(self).wf(),
        ensures
            final(self).wf(),
            final(self).data == old(self).data,
            n <= old(self).data.len() - old(self).pos <==> r is Ok,
            r matches Ok(v) ==> v@ == old(self).data@.subrange(
                old(self).pos as int,
                old(self).pos + n,
            ) && final(self).pos == old(self).pos + n,
            r is Err ==> r == Result::<Vec<u8>, GdPropError>::Err(GdPropError::FileRead)
                && final(self).pos == old(self).pos,
    {
        if n > self.data.len() - self.pos {
            return Err(GdPropError::FileRead);
        }
        Ok(self.read(n))
    }

    /// Appends `buf` at the end of the file and leaves the cursor there,
    /// as a write-mode handle does.
    pub fn write(&mut self, buf: &Vec<u8>)
        requires
            old(self).wf(),
            old(self).data.len() + buf.len() <= usize::MAX,
        ensures
            final(self).wf(),
            final(self).data@ == old(self).data@ + buf@,
            final(self).pos == final(self).data.len(),
    {
        let mut i: usize = 0;
        while i < buf.len()
            invariant
                i <= buf.len(),
                old(self).data.len() + buf.len() <= usize::MAX,
                self.data@ =~= old(self).data@ + buf@.subrange(0, i as int),
                self.pos == old(self).pos,
            decreases buf.len() - i,
        {
            self.data.push(buf[i]);
            proof {
                assert(self.data@ =~= old(self).data@ + buf@.subrange(0, i + 1));
            }
            i += 1;
        }
        proof {
            assert(buf@.subrange(0, buf@.len() as int) =~= buf@);
        }
        self.pos = self.data.len();
    }

    /// A look at up to `n` bytes from the cursor without moving it, as a
    /// buffered reader's refill does.
    pub fn fill_buf(&mut self, n: usize) -> (r: Vec<u8>)
        requires
            old(self).wf(),
        ensures
            *final(self) == *old(self),
            r@.len() == if n <= old(self).data.len() - old(self).pos {
                n as int
            } else {
                old(self).data.len() - old(self).pos
            },
            r@ == old(self).data@.subrange(
                old(self).pos as int,
                old(self).pos + r@.len(),
            ),
    {
        let start = self.pos;
        let r = self.read(n);
        self.pos = start;
        r
    }

    /// Marks `amt` bytes of a previous look as consumed, moving the
    /// cursor past them; clamped at the end of the file.
    pub fn consume(&mut self, amt: usize)
        requires
            old(self).wf(),
        ensures
            final(self).wf(),
            final(self).data == old(self).data,
            final(self).pos as int == if old(self).pos + amt <= old(self).data.len() {
                old(self).pos + amt as int
            } else {
                old(self).data@.len() as int
            },
    {
        if amt <= self.data.len() - self.pos {
            self.pos = self.pos + amt;
        } else {
            self.pos = self.data.len();
        }
    }

    /// Moves the cursor as `target` directs; a target outside the file is
    /// refused and leaves the cursor where it was.
    pub fn seek(&mut self, target: SeekPos) -> (r: Result<usize, GdPropError>)
        requires
            old(self).wf(),
            old(self).data.len() <= i64::MAX,
        ensures
            final(self).wf(),
            final(self).data == old(self).data,
            match target {
                SeekPos::FromStart(p) => if p <= old(self).data.len() {
                    r matches Ok(q) && q == p && final(self).pos == p
                } else {
                    r is Err && final(self).pos == old(self).pos
                },
                SeekPos::FromEnd(off) => if 0 <= old(self).data.len() + off
                    <= old(self).data.len() {
                    r matches Ok(q) && q == old(self).data.len() + off && final(self).pos
                        == old(self).data.len() + off
                } else {
                    r is Err && final(self).pos == old(self).pos
                },
                SeekPos::FromCurrent(off) => if 0 <= old(self).pos + off
                    <= old(self).data.len() {
                    r matches Ok(q) && q == old(self).pos + off && final(self).pos == old(
                        self,
                    ).pos + off
                } else {
                    r is Err && final(self).pos == old(self).pos
                },
            },
    {
        match target {
            SeekPos::FromStart(p) => {
                if p <= self.data.len() as u64 {
                    let q = p as usize;
                    self.pos = q;
                    Ok(q)
                } else {
                    Err(GdPropError::FileRead)
                }
            },
            SeekPos::FromEnd(off) => {
                let len = self.data.len() as i64;
                if -len <= off && off <= 0 {
                    let q = (len + off) as usize;
                    self.pos = q;
                    Ok(q)
                } else {
                    Err(GdPropError::FileRead)
                }
            },
            SeekPos::FromCurrent(off) => {
                let p = self.pos as i64;
                let len = self.data.len() as i64;
                if off >= -p && off <= len - p {
                    let q = (p + off) as usize;
                    self.pos = q;
                    Ok(q)
                } else {
                    Err(GdPropError::FileRead)
                }
            },
        }
    }
}

} // verus!
