use vstd::prelude::*;

verus! {

/// Where a seek is measured from, with the offset to apply.
pub enum SeekFrom {
    /// From the first byte of the stream.
    Start(u64),
    /// From one past the last byte of the stream.
    End(i64),
    /// From the current position.
    Current(i64),
}

/// Why a stream operation was refused.
#[derive(Debug, Clone, Copy, PartialEq, Eq, Structural)]
pub enum StreamError {
    /// The requested position lies before the start or past the end.
    OutOfRange,
}

/// The bytes that `data` holds after `src` is written at `pos`: the written
/// range takes the bytes of `src`, the stream grows to cover it, bytes that
/// lie between the old end and `pos` read as zero, and every other byte is
/// kept.
pub open spec fn written(data: Seq<u8>, pos: int, src: Seq<u8>) -> Seq<u8> {
    let end = pos + src.len();
    let len = if end > data.len() { end } else { data.len() as int };
    Seq::new(
        len as nat,
        |i: int|
            if pos <= i < end {
                src[i - pos]
            } else if i < data.len() {
                data[i]
            } else {
                0u8
            },
    )
}

/// How many bytes a read with room for `room` bytes takes from `data` at `pos`.
pub open spec fn read_len(data: Seq<u8>, pos: int, room: int) -> int {
    let left = data.len() - pos;
    if room < left {
        room
    } else {
        left
    }
}

/// The position a seek asks for, before it is checked against the stream.
pub open spec fn seek_target(len: int, pos: int, from: SeekFrom) -> int {
    match from {
        SeekFrom::Start(x) => x as int,
        SeekFrom::End(x) => len + x,
        SeekFrom::Current(x) => pos + x,
    }
}

/// A read/write/seek byte stream whose backing store is a vector in memory.
pub struct MemoryStream {
    buf: Vec<u8>,
    pos: usize,
}

impl MemoryStream {
    /// The bytes held by the stream.
    pub closed spec fn data(&self) -> Seq<u8> {
        self.buf@
    }

    /// The cursor: where the next read or write starts.
    pub closed spec fn position(&self) -> nat {
        self.pos as nat
    }

    /// Creates an empty stream positioned at its start.
    pub fn new() -> (ms: MemoryStream)
        ensures
            ms.data() == Seq::<u8>::empty(),
            ms.position() == 0,
    {
        MemoryStream { buf: Vec::new(), pos: 0 }
    }

    /// Creates an empty stream whose store has room reserved for `capacity` bytes.
    pub fn with_capacity(capacity: usize) -> (ms: MemoryStream)
        ensures
            ms.data() == Seq::<u8>::empty(),
            ms.position() == 0,
    {
        MemoryStream { buf: Vec::with_capacity(capacity), pos: 0 }
    }

    /// Creates a stream over the given bytes, positioned at its start.
    pub fn with_buffer(buf: Box<[u8]>) -> (ms: MemoryStream)
        ensures
            ms.data() == buf@,
            ms.position() == 0,
    {
        MemoryStream { buf: buf.into_vec(), pos: 0 }
    }

    /// The backing store.
    pub fn as_vec(&self) -> (v: &Vec<u8>)
        ensures
            v@ == self.data(),
    {
        &self.buf
    }

    /// The backing store, for changing it in place; the position is kept.
    pub fn as_mut_vec(&mut self) -> (v: &mut Vec<u8>)
        ensures
            v@ == old(self).data(),
            final(self).data() == final(v)@,
            final(self).position() == old(self).position(),
    {
        &mut self.buf
    }

    /// Copies bytes from the position on into `out`, as many as fit and as
    /// the stream holds, and moves the position past them; returns how many.
    pub fn read(&mut self, out: &mut [u8]) -> (r: Result<usize, StreamError>)
        requires
            old(self).position() <= old(self).data().len(),
        ensures
            ({
                let n = read_len(old(self).data(), old(self).position() as int, old(out)@.len() as int);
                let p = old(self).position() as int;
                &&& r == Ok::<usize, StreamError>(n as usize)
                &&& final(out)@ == old(self).data().subrange(p, p + n) + old(out)@.skip(n)
                &&& final(self).data() == old(self).data()
                &&& final(self).position() == p + n
            }),
    {
        let avail = self.buf.len() - self.pos;
        let size = if out.len() < avail {
            out.len()
        } else {
            avail
        };
        let ghost p = self.pos as int;
        let ghost old_out = out@;
        let mut i: usize = 0;
        while i < size
            invariant
                size <= out@.len(),
                self.pos + size <= self.buf.len(),
                p == self.pos,
                i <= size,
                out@.len() == old_out.len(),
                forall|k: int| 0 <= k < i ==> out@[k] == self.buf@[p + k],
                forall|k: int| i <= k < out@.len() ==> out@[k] == old_out[k],
            decreases size - i,
        {
            out[i] = self.buf[self.pos + i];
            i = i + 1;
        }
        assert(out@ =~= self.buf@.subrange(p, p + size) + old_out.skip(size as int));
        self.pos = self.pos + size;
        Ok(size)
    }

    /// Writes `src` at the position, growing the stream where it reaches past
    /// the end, and moves the position past the written bytes; returns how
    /// many bytes were written.
    pub fn write(&mut self, src: &[u8]) -> (r: Result<usize, StreamError>)
        requires
            old(self).position() + src@.len() <= usize::MAX,
        ensures
            r == Ok::<usize, StreamError>(src@.len() as usize),
            final(self).data() == written(old(self).data(), old(self).position() as int, src@),
            final(self).position() == old(self).position() + src@.len(),
    {
        let ghost old_data = self.buf@;
        let end = self.pos + src.len();
        if end > self.buf.len() {
            let extra = end - self.buf.len();
            self.buf.reserve(extra);
        }
        while self.buf.len() < self.pos
            invariant
                self.pos == old(self).pos,
                end == self.pos + src@.len(),
                self.buf@.len() >= old_data.len(),
                forall|k: int| 0 <= k < old_data.len() ==> self.buf@[k] == old_data[k],
                forall|k: int| old_data.len() <= k < self.buf@.len() ==> self.buf@[k] == 0u8,
                self.buf@.len() <= old_data.len() || self.buf@.len() <= self.pos,
            decreases self.pos - self.buf@.len(),
        {
            self.buf.push(0u8);
        }
        let ghost padded = self.buf@;
        let mut i: usize = 0;
        while i < src.len()
            invariant
                self.pos == old(self).pos,
                end == self.pos + src@.len(),
                i <= src@.len(),
                padded.len() >= self.pos,
                padded.len() >= old_data.len(),
                forall|k: int| 0 <= k < old_data.len() ==> padded[k] == old_data[k],
                forall|k: int| old_data.len() <= k < padded.len() ==> padded[k] == 0u8,
                self.buf@.len() == if self.pos + i > padded.len() { self.pos + i } else { padded.len() as int },
                forall|k: int| 0 <= k < self.buf@.len() ==> self.buf@[k] == (
                    if self.pos <= k < self.pos + i { src@[k - self.pos] } else { padded[k] }),
            decreases src@.len() - i,
        {
            let at = self.pos + i;
            if at < self.buf.len() {
                self.buf.set(at, src[i]);
            } else {
                self.buf.push(src[i]);
            }
            i = i + 1;
        }
        assert(self.buf@ =~= written(old_data, self.pos as int, src@));
        self.pos = end;
        Ok(src.len())
    }

    /// Nothing is buffered outside the store, so flushing always succeeds.
    pub fn flush(&mut self) -> (r: Result<(), StreamError>)
        ensures
            r == Ok::<(), StreamError>(()),
            final(self).data() == old(self).data(),
            final(self).position() == old(self).position(),
    {
        Ok(())
    }

    /// Moves the position as `from` asks; a position before the start or
    /// past the end is refused and leaves the stream as it was. Returns the
    /// new position.
    pub fn seek(&mut self, from: SeekFrom) -> (r: Result<u64, StreamError>)
        ensures
            ({
                let t = seek_target(old(self).data().len() as int, old(self).position() as int, from);
                &&& final(self).data() == old(self).data()
                &&& if 0 <= t <= old(self).data().len() {
                    &&& r == Ok::<u64, StreamError>(t as u64)
                    &&& final(self).position() == t
                } else {
                    &&& r == Err::<u64, StreamError>(StreamError::OutOfRange)
                    &&& final(self).position() == old(self).position()
                }
            }),
    {
        let len = self.buf.len();
        let target: i128 = match from {
            SeekFrom::Start(x) => x as i128,
            SeekFrom::End(x) => len as i128 + x as i128,
            SeekFrom::Current(x) => self.pos as i128 + x as i128,
        };
        if target < 0 || target > len as i128 {
            Err(StreamError::OutOfRange)
        } else {
            self.pos = target as usize;
            Ok(target as u64)
        }
    }
}


impl AsRef<[u8]> for MemoryStream {
    /// The bytes held by the stream.
    fn as_ref(&self) -> (s: &[u8])
        ensures
            s@ == self.data(),
    {
        self.buf.as_slice()
    }
}

/// A read takes as many bytes as the buffer has room for and as are left
/// after the position, whichever is fewer.
pub proof fn lemma_read_takes_what_fits(data: Seq<u8>, pos: nat, room: nat)
    requires
        pos <= data.len(),
    ensures
        read_len(data, pos as int, room as int) <= room,
        read_len(data, pos as int, room as int) <= data.len() - pos,
        read_len(data, pos as int, room as int) == room || read_len(data, pos as int, room as int) == data.len()
            - pos,
        read_len(data, pos as int, room as int) >= 0,
{
}

/// Seeking is moving a cursor: a relative seek by `x` moves it by exactly
/// `x` (forwards for positive `x`), a seek from the end by `x` lands where a
/// relative seek by `x` from the end would, a seek from the start lands on
/// the offset given, and a relative seek by `x` followed by one by `-x`
/// comes back to the start point.
pub proof fn lemma_seek_moves_cursor(len: nat, pos: nat, x: i64, start: u64)
    ensures
        seek_target(len as int, pos as int, SeekFrom::Current(x)) - pos == x,
        x > 0 ==> seek_target(len as int, pos as int, SeekFrom::Current(x)) > pos,
        x < 0 ==> seek_target(len as int, pos as int, SeekFrom::Current(x)) < pos,
        seek_target(len as int, pos as int, SeekFrom::Current(0)) == pos,
        seek_target(len as int, pos as int, SeekFrom::End(x)) == seek_target(
            len as int,
            len as int,
            SeekFrom::Current(x),
        ),
        seek_target(len as int, pos as int, SeekFrom::Start(start)) == start,
        x > i64::MIN ==> ({
            let there = seek_target(len as int, pos as int, SeekFrom::Current(x));
            seek_target(len as int, there, SeekFrom::Current((-x) as i64)) == pos
        }),
{
}

/// Read-after-write: right after bytes are written at a position, the stream
/// holds them there, and a read from that position with room for them
/// returns all of them.
pub proof fn lemma_read_back_written(data: Seq<u8>, pos: nat, src: Seq<u8>)
    ensures
        written(data, pos as int, src).len() >= pos + src.len(),
        written(data, pos as int, src).subrange(pos as int, (pos + src.len()) as int) == src,
        read_len(written(data, pos as int, src), pos as int, src.len() as int) == src.len(),
{
    assert(written(data, pos as int, src).subrange(pos as int, (pos + src.len()) as int) =~= src);
}

/// A write changes no byte outside the written range, and the stream ends at
/// the later of its old end and the end of the written range.
pub proof fn lemma_write_keeps_other_bytes(data: Seq<u8>, pos: nat, src: Seq<u8>, i: int)
    requires
        0 <= i < data.len(),
        !(pos <= i < pos + src.len()),
    ensures
        written(data, pos as int, src)[i] == data[i],
        written(data, pos as int, src).len() == if pos + src.len() > data.len() {
            pos + src.len()
        } else {
            data.len()
        },
{
}

/// Two writes in a row, the second starting where the first ended, leave the
/// stream as one write of the two byte strings joined.
pub proof fn lemma_consecutive_writes(data: Seq<u8>, pos: nat, a: Seq<u8>, b: Seq<u8>)
    ensures
        written(written(data, pos as int, a), (pos + a.len()) as int, b) == written(data, pos as int, a + b),
{
    assert(written(written(data, pos as int, a), (pos + a.len()) as int, b) =~= written(data, pos as int, a + b));
}

/// Writing the same bytes twice at the same position leaves the stream as
/// writing them once.
pub proof fn lemma_rewrite_is_idempotent(data: Seq<u8>, pos: nat, src: Seq<u8>)
    ensures
        written(written(data, pos as int, src), pos as int, src) == written(data, pos as int, src),
{
    assert(written(written(data, pos as int, src), pos as int, src) =~= written(data, pos as int, src));
}

} // verus!
