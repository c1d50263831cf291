//! A reader of bytes that come in chunks.

use vstd::prelude::*;

verus! {

/// Where a reader stands.
pub enum ReadState {
    /// In a chunk, of which the first `chunk_start` bytes have been read.
    Ready { chunk: Vec<u8>, chunk_start: usize },
    /// Between two chunks.
    PendingChunk,
    /// At the end.
    Eof,
}

/// What came of an attempt to read.
#[derive(Debug, Clone, Copy, PartialEq, Eq, Structural)]
pub enum ReadStep {
    /// This many bytes were read.
    Read(usize),
    /// Another chunk is needed first.
    NeedChunk,
}

/// What comes after a chunk.
pub enum NextChunk {
    /// Another chunk.
    Chunk(Vec<u8>),
    /// The end.
    End,
    /// A failure, after which there is nothing more to read.
    Failed,
}

/// A reader of bytes that come in chunks.
pub struct ChunkReader {
    state: ReadState,
}

/// Where a reader stands: in a chunk with these bytes left to be read, between
/// two chunks, or at the end, where nothing is left.
pub enum ReaderView {
    Left(Seq<u8>),
    Pending,
    End,
}

/// What comes after a chunk, in bytes.
pub enum NextChunkView {
    Chunk(Seq<u8>),
    End,
    Failed,
}

impl View for NextChunk {
    type V = NextChunkView;

    open spec fn view(&self) -> NextChunkView {
        match self {
            NextChunk::Chunk(chunk) => NextChunkView::Chunk(chunk@),
            NextChunk::End => NextChunkView::End,
            NextChunk::Failed => NextChunkView::Failed,
        }
    }
}

impl View for ChunkReader {
    type V = ReaderView;

    closed spec fn view(&self) -> ReaderView {
        match self.state {
            ReadState::Ready { chunk, chunk_start } => ReaderView::Left(
                chunk@.skip(chunk_start as int),
            ),
            ReadState::PendingChunk => ReaderView::Pending,
            ReadState::Eof => ReaderView::End,
        }
    }
}

/// The smaller of two numbers.
pub open spec fn least(a: nat, b: nat) -> nat {
    if a <= b {
        a
    } else {
        b
    }
}

impl ReaderView {
    /// The bytes that are left to be read of the current chunk.
    pub open spec fn left(self) -> Seq<u8> {
        match self {
            ReaderView::Left(left) => left,
            _ => Seq::empty(),
        }
    }

    /// The bytes that are read into a buffer of `room` bytes: what is left of the
    /// current chunk, as far as it fits.
    pub open spec fn bytes_read(self, room: nat) -> Seq<u8> {
        self.left().take(least(self.left().len(), room) as int)
    }

    /// What comes of a read into a buffer of `room` bytes.
    pub open spec fn read_result(self, room: nat) -> ReadStep {
        if self is Pending {
            ReadStep::NeedChunk
        } else {
            ReadStep::Read(self.bytes_read(room).len() as usize)
        }
    }

    /// After a read into a buffer of `room` bytes. A chunk of which nothing is
    /// left is done with.
    pub open spec fn after_read(self, room: nat) -> ReaderView {
        match self {
            ReaderView::Left(left) => if left.len() <= room {
                ReaderView::Pending
            } else {
                ReaderView::Left(left.skip(room as int))
            },
            _ => self,
        }
    }

    /// After what comes next has been taken in.
    pub open spec fn after_feed(self, next: NextChunkView) -> ReaderView {
        match next {
            NextChunkView::Chunk(chunk) => ReaderView::Left(chunk),
            _ => ReaderView::End,
        }
    }
}

impl ChunkReader {
    /// The part of a chunk that has been read lies inside it.
    pub closed spec fn well_formed(&self) -> bool {
        match self.state {
            ReadState::Ready { chunk, chunk_start } => chunk_start <= chunk.len(),
            _ => true,
        }
    }

    /// A reader that has not been given anything yet.
    pub fn new() -> (res: Self)
        ensures
            res.well_formed(),
            res@ == ReaderView::Pending,
    {
        ChunkReader { state: ReadState::PendingChunk }
    }

    /// Reads into `buf` what the current chunk has left, as far as it fits.
    pub fn read(&mut self, buf: &mut [u8]) -> (res: ReadStep)
        requires
            old(self).well_formed(),
        ensures
            final(self).well_formed(),
            final(self)@ == old(self)@.after_read(old(buf)@.len()),
            res == old(self)@.read_result(old(buf)@.len()),
            res == (if old(self)@ is Pending {
                ReadStep::NeedChunk
            } else {
                ReadStep::Read(old(self)@.bytes_read(old(buf)@.len()).len() as usize)
            }),
            final(buf)@ == old(self)@.bytes_read(old(buf)@.len()) + old(buf)@.skip(
                old(self)@.bytes_read(old(buf)@.len()).len() as int,
            ),
    {
        let mut used_up = false;
        let res = match &mut self.state {
            ReadState::Ready { chunk, chunk_start } => {
                let rest: usize = chunk.len() - *chunk_start;
                let len: usize = if buf.len() <= rest {
                    buf.len()
                } else {
                    rest
                };
                let start: usize = *chunk_start;
                let ghost before = buf@;
                for i in 0..len
                    invariant
                        len <= buf@.len(),
                        buf@.len() == before.len(),
                        start + len <= chunk.len(),
                        forall|k: int| 0 <= k < i ==> buf@[k] == chunk@[start + k],
                        forall|k: int| i <= k < buf@.len() ==> buf@[k] == before[k],
                {
                    buf[i] = chunk[start + i];
                }
                assert(buf@ =~= chunk@.skip(start as int).take(len as int) + before.skip(
                    len as int,
                ));
                *chunk_start = start + len;
                assert(chunk@.skip(start as int).skip(len as int) =~= chunk@.skip(start + len));
                used_up = chunk.len() == *chunk_start;
                ReadStep::Read(len)
            },
            ReadState::PendingChunk => ReadStep::NeedChunk,
            ReadState::Eof => ReadStep::Read(0),
        };
        if used_up {
            self.state = ReadState::PendingChunk;
        }
        proof {
            if !(old(self)@ is Left) {
                assert(old(self)@.bytes_read(old(buf)@.len()) =~= Seq::empty());
                assert(buf@ =~= Seq::empty() + buf@.skip(0));
            }
        }
        res
    }

    /// Takes in what comes after the last chunk.
    pub fn feed(&mut self, next: NextChunk)
        requires
            old(self)@ is Pending,
        ensures
            final(self).well_formed(),
            final(self)@ == old(self)@.after_feed(next@),
    {
        match next {
            NextChunk::Chunk(chunk) => {
                assert(chunk@.skip(0) =~= chunk@);
                self.state = ReadState::Ready { chunk, chunk_start: 0 };
            },
            NextChunk::End => {
                self.state = ReadState::Eof;
            },
            NextChunk::Failed => {
                self.state = ReadState::Eof;
            },
        }
    }
}

/// A use of a reader.
pub enum ReaderUse {
    /// A read into a buffer of so many bytes.
    Read(nat),
    /// What comes next is taken in.
    Feed(NextChunkView),
}

/// Where a new reader stands after uses, one after the other.
pub open spec fn reader_after(uses: Seq<ReaderUse>) -> ReaderView
    decreases uses.len(),
{
    if uses.len() == 0 {
        ReaderView::Pending
    } else {
        let before = reader_after(uses.drop_last());
        match uses.last() {
            ReaderUse::Read(room) => before.after_read(room),
            ReaderUse::Feed(next) => before.after_feed(next),
        }
    }
}

/// What comes next is taken in only between two chunks.
pub open spec fn fed_when_pending(uses: Seq<ReaderUse>) -> bool
    decreases uses.len(),
{
    uses.len() > 0 ==> {
        &&& fed_when_pending(uses.drop_last())
        &&& uses.last() is Feed ==> reader_after(uses.drop_last()) is Pending
    }
}

/// The chunks that a new reader has been given, one behind the other.
pub open spec fn bytes_fed(uses: Seq<ReaderUse>) -> Seq<u8>
    decreases uses.len(),
{
    if uses.len() == 0 {
        Seq::empty()
    } else {
        match uses.last() {
            ReaderUse::Feed(NextChunkView::Chunk(chunk)) => bytes_fed(uses.drop_last()) + chunk,
            _ => bytes_fed(uses.drop_last()),
        }
    }
}

/// The bytes that a new reader has handed out, one read behind the other.
pub open spec fn bytes_handed_out(uses: Seq<ReaderUse>) -> Seq<u8>
    decreases uses.len(),
{
    if uses.len() == 0 {
        Seq::empty()
    } else {
        match uses.last() {
            ReaderUse::Read(room) => bytes_handed_out(uses.drop_last()) + reader_after(
                uses.drop_last(),
            ).bytes_read(room),
            _ => bytes_handed_out(uses.drop_last()),
        }
    }
}

/// Chunks that hold bytes, and buffers that have room.
pub open spec fn none_empty(uses: Seq<ReaderUse>) -> bool {
    forall|i: int|
        0 <= i < uses.len() ==> match #[trigger] uses[i] {
            ReaderUse::Read(room) => room > 0,
            ReaderUse::Feed(NextChunkView::Chunk(chunk)) => chunk.len() > 0,
            _ => true,
        }
}

/// Whatever the sizes of the chunks and of the buffers, what was handed out and
/// what is left of the current chunk make up the chunks: no byte is lost,
/// repeated or reordered. Between two chunks, and at the end, all of it has been
/// handed out.
pub proof fn reads_make_up_the_chunks(uses: Seq<ReaderUse>)
    requires
        fed_when_pending(uses),
    ensures
        bytes_handed_out(uses) + reader_after(uses).left() == bytes_fed(uses),
        !(reader_after(uses) is Left) ==> bytes_handed_out(uses) == bytes_fed(uses),
    decreases uses.len(),
{
    if uses.len() > 0 {
        let fewer = uses.drop_last();
        let before = reader_after(fewer);
        reads_make_up_the_chunks(fewer);
        match uses.last() {
            ReaderUse::Read(room) => {
                assert(before.left() =~= before.bytes_read(room) + reader_after(uses).left());
            },
            ReaderUse::Feed(_) => {
                assert(before.left() =~= Seq::empty());
            },
        }
    }
    assert(bytes_handed_out(uses) + reader_after(uses).left() =~= bytes_fed(uses));
    if !(reader_after(uses) is Left) {
        assert(bytes_handed_out(uses) =~= bytes_fed(uses));
    }
}

/// When no chunk and no buffer is empty, a read that hands out nothing comes only
/// at the end, after every byte has been handed out, or where another chunk is
/// needed first.
pub proof fn nothing_is_read_only_at_the_end(uses: Seq<ReaderUse>, room: nat)
    requires
        fed_when_pending(uses),
        none_empty(uses),
        room > 0,
        reader_after(uses).bytes_read(room).len() == 0,
    ensures
        !(reader_after(uses) is Left),
        bytes_handed_out(uses) == bytes_fed(uses),
{
    something_is_left(uses);
    reads_make_up_the_chunks(uses);
}

proof fn something_is_left(uses: Seq<ReaderUse>)
    requires
        none_empty(uses),
    ensures
        reader_after(uses) is Left ==> reader_after(uses).left().len() > 0,
    decreases uses.len(),
{
    if uses.len() > 0 {
        assert(forall|i: int| 0 <= i < uses.drop_last().len() ==> uses.drop_last()[i] == uses[i]);
        something_is_left(uses.drop_last());
        assert(uses[uses.len() - 1] == uses.last());
    }
}

/// Nothing comes after the end: a reader that has reached it stays there, and
/// hands out nothing more.
pub proof fn the_end_is_final(uses: Seq<ReaderUse>, room: nat)
    requires
        reader_after(uses) is End,
    ensures
        reader_after(uses.push(ReaderUse::Read(room))) is End,
        bytes_handed_out(uses.push(ReaderUse::Read(room))) == bytes_handed_out(uses),
        forall|next: NextChunkView|
            !fed_when_pending(#[trigger] uses.push(ReaderUse::Feed(next))),
{
    let more = uses.push(ReaderUse::Read(room));
    assert(more.drop_last() =~= uses);
    assert(reader_after(uses).bytes_read(room) =~= Seq::empty());
    assert(bytes_handed_out(more) =~= bytes_handed_out(uses));
    assert forall|next: NextChunkView| !fed_when_pending(
        #[trigger] uses.push(ReaderUse::Feed(next)),
    ) by {
        assert(uses.push(ReaderUse::Feed(next)).drop_last() =~= uses);
    }
}

/// A read hands out as much as there is and as fits: it fills the buffer, or it
/// uses the chunk up. What it hands out is the start of what was left.
pub proof fn read_takes_what_fits(r: ReaderView, room: nat)
    ensures
        r.bytes_read(room).len() <= room,
        r is Left && r.bytes_read(room).len() < room ==> r.after_read(room) is Pending,
        r is Left && r.bytes_read(room).len() < r.left().len() ==> r.bytes_read(room).len() == room,
        r is Left ==> r.left() == r.bytes_read(room) + r.after_read(room).left(),
        r is Left && r.left().len() > room ==> r.after_read(room) is Left,
        r is Left && r.left().len() <= room ==> r.after_read(room) is Pending,
        !(r is Left) ==> r.bytes_read(room).len() == 0 && r.after_read(room) == r,
{
    if r is Left {
        assert(r.left() =~= r.bytes_read(room) + r.after_read(room).left());
    }
}

/// A chunk that is taken in is there to be read as it is; the end and a failure
/// are the end.
pub proof fn feed_takes_what_comes(r: ReaderView, chunk: Seq<u8>)
    ensures
        r.after_feed(NextChunkView::Chunk(chunk)) is Left,
        r.after_feed(NextChunkView::Chunk(chunk)).left() == chunk,
        r.after_feed(NextChunkView::End) is End,
        r.after_feed(NextChunkView::Failed) is End,
{
}

/// A read asks for a chunk exactly between two chunks; else it tells how many
/// bytes it has handed out, which at the end is none.
pub proof fn read_tells_what_it_did(r: ReaderView, room: nat)
    requires
        room <= usize::MAX,
    ensures
        r.read_result(room) is NeedChunk <==> r is Pending,
        r is End ==> r.read_result(room) == ReadStep::Read(0),
        r is Left && r.left().len() >= room ==> r.read_result(room) == ReadStep::Read(
            room as usize,
        ),
        r is Left && r.left().len() <= room ==> r.read_result(room) == ReadStep::Read(
            r.left().len() as usize,
        ),
{
}

} // verus!
