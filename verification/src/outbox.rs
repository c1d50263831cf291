//! Bytes on their way out: they are put in as they are made, and taken out in
//! pieces.

use vstd::prelude::*;

verus! {

/// Bytes that have been put in and not been taken out.
pub struct Outbox {
    bytes: Vec<u8>,
}

impl View for Outbox {
    type V = Seq<u8>;

    closed spec fn view(&self) -> Seq<u8> {
        self.bytes@
    }
}

impl Outbox {
    /// An empty outbox.
    pub fn new() -> (res: Self)
        ensures
            res@ == Seq::<u8>::empty(),
    {
        Outbox { bytes: Vec::new() }
    }

    /// Whether nothing waits to be taken out.
    pub fn is_empty(&self) -> (res: bool)
        ensures
            res == (self@.len() == 0),
    {
        self.bytes.len() == 0
    }

    /// Puts bytes in behind those that wait.
    pub fn put(&mut self, bytes: &[u8])
        ensures
            final(self)@ == old(self)@ + bytes@,
    {
        self.bytes.extend_from_slice(bytes);
    }

    /// Takes everything out.
    pub fn take(&mut self) -> (res: Vec<u8>)
        ensures
            res@ == old(self)@,
            final(self)@ == Seq::<u8>::empty(),
    {
        let mut bytes: Vec<u8> = Vec::new();
        core::mem::swap(&mut bytes, &mut self.bytes);
        bytes
    }
}

/// A use of an outbox.
pub enum Use {
    /// These bytes are put in.
    Put(Seq<u8>),
    /// Everything is taken out.
    Take,
}

/// What waits in an outbox that was empty at first, after uses one after the
/// other.
pub open spec fn waiting(uses: Seq<Use>) -> Seq<u8>
    decreases uses.len(),
{
    if uses.len() == 0 {
        Seq::empty()
    } else {
        match uses.last() {
            Use::Put(bytes) => waiting(uses.drop_last()) + bytes,
            Use::Take => Seq::empty(),
        }
    }
}

/// The bytes that have been taken out, one piece behind the other.
pub open spec fn taken_out(uses: Seq<Use>) -> Seq<u8>
    decreases uses.len(),
{
    if uses.len() == 0 {
        Seq::empty()
    } else {
        match uses.last() {
            Use::Put(_) => taken_out(uses.drop_last()),
            Use::Take => taken_out(uses.drop_last()) + waiting(uses.drop_last()),
        }
    }
}

/// The bytes that have been put in, one behind the other.
pub open spec fn put_in(uses: Seq<Use>) -> Seq<u8>
    decreases uses.len(),
{
    if uses.len() == 0 {
        Seq::empty()
    } else {
        match uses.last() {
            Use::Put(bytes) => put_in(uses.drop_last()) + bytes,
            Use::Take => put_in(uses.drop_last()),
        }
    }
}

/// No byte is lost, repeated or reordered: the pieces that were taken out and
/// what still waits make up what was put in, whenever pieces are taken.
pub proof fn pieces_make_up_the_whole(uses: Seq<Use>)
    ensures
        taken_out(uses) + waiting(uses) == put_in(uses),
        uses.len() > 0 && uses.last() is Take ==> taken_out(uses) == put_in(uses),
    decreases uses.len(),
{
    if uses.len() > 0 {
        pieces_make_up_the_whole(uses.drop_last());
        assert(taken_out(uses) + waiting(uses) =~= put_in(uses));
    } else {
        assert(taken_out(uses) + waiting(uses) =~= put_in(uses));
    }
}

} // verus!
