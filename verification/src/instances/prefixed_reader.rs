//! A reader that gives back bytes already read before it reads on.

use vstd::prelude::*;

verus! {

/// The bytes of `prefix`, and then those of `reader`.
#[derive(Debug)]
pub struct PrefixedReader<R> {
    prefix: Vec<u8>,
    pos: usize,
    reader: R,
}

/// What a read with room for `room` bytes takes of `unread`.
pub open spec fn next_chunk(unread: Seq<u8>, room: int) -> Seq<u8> {
    unread.take(
        if room <= unread.len() {
            room
        } else {
            unread.len() as int
        },
    )
}

impl<R> PrefixedReader<R> {
    /// The part of the prefix that has been read is a part of it.
    pub closed spec fn wf(self) -> bool {
        self.pos <= self.prefix.len()
    }

    /// What is left of the prefix.
    pub closed spec fn unread(self) -> Seq<u8> {
        self.prefix@.skip(self.pos as int)
    }

    /// Where to read once the prefix has been read.
    pub closed spec fn source(self) -> R {
        self.reader
    }

    /// Nothing has been read yet.
    pub fn new(prefix: Vec<u8>, reader: R) -> (r: Self)
        ensures
            r.wf(),
            r.unread() == prefix@,
            r.source() == reader,
    {
        let r = PrefixedReader { prefix, pos: 0, reader };
        assert(r.unread() == prefix@);
        r
    }

    /// What a read with room for `room` bytes gets while there is something
    /// left of the prefix; `None` once `reader` is to be read.
    pub fn poll_read(&mut self, room: usize) -> (chunk: Option<Vec<u8>>)
        requires
            old(self).wf(),
        ensures
            final(self).wf(),
            final(self).source() == old(self).source(),
            match chunk {
                Some(bytes) => {
                    &&& old(self).unread().len() > 0
                    &&& bytes@ == next_chunk(old(self).unread(), room as int)
                    &&& final(self).unread() == old(self).unread().skip(bytes@.len() as int)
                },
                None => {
                    &&& old(self).unread().len() == 0
                    &&& final(self).unread() == old(self).unread()
                },
            },
    {
        let len: usize = self.prefix.len();
        if self.pos >= len {
            return None;
        }
        let left: usize = len - self.pos;
        let n: usize = if room <= left {
            room
        } else {
            left
        };
        let ghost unread = self.unread();
        let start: usize = self.pos;
        let mut bytes: Vec<u8> = Vec::new();
        for i in 0..n
            invariant
                start + n <= self.prefix.len(),
                unread == self.prefix@.skip(start as int),
                bytes@ == unread.take(i as int),
        {
            bytes.push(self.prefix[start + i]);
            assert(unread.take(i + 1) == unread.take(i as int).push(unread[i as int]));
        }
        self.pos = start + n;
        assert(self.unread() == unread.skip(n as int));
        Some(bytes)
    }

    /// Where to read once the prefix has been read.
    pub fn reader_mut(&mut self) -> (reader: &mut R)
        requires
            old(self).wf(),
        ensures
            *reader == old(self).source(),
            final(self).wf(),
            final(self).unread() == old(self).unread(),
            final(self).source() == *final(reader),
    {
        &mut self.reader
    }
}

/// What reads with room for `rooms` bytes each get of `unread`, and what they
/// leave.
pub open spec fn reads(unread: Seq<u8>, rooms: Seq<int>) -> (Seq<u8>, Seq<u8>)
    decreases rooms.len(),
{
    if rooms.len() == 0 {
        (seq![], unread)
    } else {
        let chunk = next_chunk(unread, rooms[0]);
        let (more, left) = reads(unread.skip(chunk.len() as int), rooms.skip(1));
        (chunk + more, left)
    }
}

/// However the reads are sized, they give the prefix in order and lose none
/// of it.
pub proof fn law_reads_lose_nothing(unread: Seq<u8>, rooms: Seq<int>)
    requires
        forall|i: int| 0 <= i < rooms.len() ==> 0 <= #[trigger] rooms[i],
    ensures
        reads(unread, rooms).0 + reads(unread, rooms).1 == unread,
    decreases rooms.len(),
{
    if rooms.len() == 0 {
        assert(reads(unread, rooms).0 + reads(unread, rooms).1 == unread);
    } else {
        assert(0 <= rooms[0]);
        let chunk = next_chunk(unread, rooms[0]);
        let rest = unread.skip(chunk.len() as int);
        assert forall|i: int| 0 <= i < rooms.skip(1).len() implies 0 <= #[trigger] rooms.skip(
            1,
        )[i] by {
            assert(rooms.skip(1)[i] == rooms[i + 1]);
        }
        law_reads_lose_nothing(rest, rooms.skip(1));
        let (more, left) = reads(rest, rooms.skip(1));
        assert(chunk + more + left == chunk + (more + left));
        assert(chunk + rest == unread);
    }
}

/// A read takes as much of what is left as there is room for, from its start.
pub proof fn law_reads_fill_the_room(unread: Seq<u8>, room: int)
    requires
        0 <= room,
    ensures
        room <= unread.len() ==> next_chunk(unread, room) == unread.subrange(0, room),
        room > unread.len() ==> next_chunk(unread, room) == unread,
{
    if room <= unread.len() {
        assert(next_chunk(unread, room) =~= unread.subrange(0, room));
    } else {
        assert(next_chunk(unread, room) =~= unread);
    }
}

} // verus!
