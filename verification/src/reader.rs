use vstd::prelude::*;

use crate::error::Error;
use crate::format::{be_u16, be_u32, too_short};

verus! {

/// A cursor over a byte slice that reads sfnt's big-endian integers and
/// refuses to read past the end instead of panicking.
pub(crate) struct Reader<'a> {
    pub(crate) data: &'a [u8],
    pub(crate) pos: usize,
}

impl<'a> Reader<'a> {
    pub(crate) fn new(data: &'a [u8]) -> (res: Self)
        ensures
            res.data@ == data@,
            res.pos == 0,
    {
        Reader { data, pos: 0 }
    }

    /// The next `n` bytes, or `TooShort` naming where they would end.
    fn take(&mut self, n: usize) -> (res: Result<&'a [u8], Error>)
        ensures
            final(self).data@ == old(self).data@,
            match res {
                Ok(s) => {
                    &&& old(self).pos + n <= old(self).data@.len()
                    &&& final(self).pos == old(self).pos + n
                    &&& s@ == old(self).data@.subrange(old(self).pos as int, old(self).pos + n)
                },
                Err(e) => {
                    &&& final(self).pos == old(self).pos
                    &&& old(self).pos + n > old(self).data@.len()
                    &&& e == too_short(old(self).pos + n, old(self).data@.len())
                },
            },
    {
        // A read whose end overflows `usize` cannot fit in any slice.
        let end = match self.pos.checked_add(n) {
            Some(e) => e,
            None => return Err(Error::TooShort { needed: usize::MAX, available: self.data.len() }),
        };
        if end > self.data.len() {
            return Err(Error::TooShort { needed: end, available: self.data.len() });
        }
        let slice = &self.data[self.pos..end];
        self.pos = end;
        Ok(slice)
    }

    pub(crate) fn u16(&mut self) -> (res: Result<u16, Error>)
        ensures
            final(self).data@ == old(self).data@,
            match res {
                Ok(v) => {
                    &&& old(self).pos + 2 <= old(self).data@.len()
                    &&& final(self).pos == old(self).pos + 2
                    &&& v == be_u16(old(self).data@, old(self).pos as int)
                },
                Err(e) => {
                    &&& final(self).pos == old(self).pos
                    &&& old(self).pos + 2 > old(self).data@.len()
                    &&& e == too_short(old(self).pos + 2, old(self).data@.len())
                },
            },
    {
        let b = self.take(2)?;
        Ok(b[0] as u16 * 0x100 + b[1] as u16)
    }

    pub(crate) fn i16(&mut self) -> (res: Result<i16, Error>)
        ensures
            final(self).data@ == old(self).data@,
            match res {
                Ok(v) => {
                    &&& old(self).pos + 2 <= old(self).data@.len()
                    &&& final(self).pos == old(self).pos + 2
                    &&& v == be_u16(old(self).data@, old(self).pos as int) as i16
                },
                Err(e) => {
                    &&& final(self).pos == old(self).pos
                    &&& old(self).pos + 2 > old(self).data@.len()
                    &&& e == too_short(old(self).pos + 2, old(self).data@.len())
                },
            },
    {
        Ok(self.u16()? as i16)
    }

    pub(crate) fn u32(&mut self) -> (res: Result<u32, Error>)
        ensures
            final(self).data@ == old(self).data@,
            match res {
                Ok(v) => {
                    &&& old(self).pos + 4 <= old(self).data@.len()
                    &&& final(self).pos == old(self).pos + 4
                    &&& v == be_u32(old(self).data@, old(self).pos as int)
                },
                Err(e) => {
                    &&& final(self).pos == old(self).pos
                    &&& old(self).pos + 4 > old(self).data@.len()
                    &&& e == too_short(old(self).pos + 4, old(self).data@.len())
                },
            },
    {
        let b = self.take(4)?;
        Ok(b[0] as u32 * 0x100_0000 + b[1] as u32 * 0x1_0000 + b[2] as u32 * 0x100 + b[3] as u32)
    }

    pub(crate) fn tag(&mut self) -> (res: Result<[u8; 4], Error>)
        ensures
            final(self).data@ == old(self).data@,
            match res {
                Ok(t) => {
                    &&& old(self).pos + 4 <= old(self).data@.len()
                    &&& final(self).pos == old(self).pos + 4
                    &&& t@ == old(self).data@.subrange(old(self).pos as int, old(self).pos + 4)
                },
                Err(e) => {
                    &&& final(self).pos == old(self).pos
                    &&& old(self).pos + 4 > old(self).data@.len()
                    &&& e == too_short(old(self).pos + 4, old(self).data@.len())
                },
            },
    {
        let b = self.take(4)?;
        let t = [b[0], b[1], b[2], b[3]];
        assert(t@ =~= b@);
        Ok(t)
    }

    /// Advance past `n` bytes without interpreting them.
    pub(crate) fn skip(&mut self, n: usize) -> (res: Result<(), Error>)
        ensures
            final(self).data@ == old(self).data@,
            match res {
                Ok(_) => {
                    &&& old(self).pos + n <= old(self).data@.len()
                    &&& final(self).pos == old(self).pos + n
                },
                Err(e) => {
                    &&& final(self).pos == old(self).pos
                    &&& old(self).pos + n > old(self).data@.len()
                    &&& e == too_short(old(self).pos + n, old(self).data@.len())
                },
            },
    {
        self.take(n)?;
        Ok(())
    }
}

} // verus!
