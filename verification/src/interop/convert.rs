use super::buffer::{CBuffer, OutOfSpace};
use super::status::{NssStatus, Response};
use vstd::prelude::*;

verus! {

/// A record kind that can be laid out for the host: a head structure `C`
/// of fixed shape, and the variable-length data in the caller's buffer.
pub trait ToC<C>: Sized {
    /// The bytes that the record's variable-length data takes in the buffer.
    spec fn c_len(&self) -> nat;

    /// Whether `after` is `before` with the record's data written from offset
    /// `at` on, and `head` refers to that data, for a region that starts at
    /// the address `base`.
    spec fn laid_out(&self, base: int, at: int, before: Seq<u8>, head: C, after: Seq<u8>) -> bool;

    /// Whether `after` is what an attempt to write the record from offset
    /// `at` on leaves of `before` when the data does not fit.
    spec fn abandoned(&self, base: int, at: int, before: Seq<u8>, after: Seq<u8>) -> bool;

    /// Writes the record's data to `buffer` and returns the head structure
    /// that refers to it. Succeeds exactly when the data fits.
    fn to_c(&self, buffer: &mut CBuffer<'_>) -> (r: Result<C, OutOfSpace>)
        requires
            old(buffer)@.wf(),
        ensures
            final(buffer)@.wf(),
            final(final(buffer).region)@ == final(old(buffer).region)@,
            final(buffer)@.base == old(buffer)@.base,
            r is Ok <==> old(buffer)@.fits(self.c_len()),
            r is Ok ==> final(buffer)@.cursor == old(buffer)@.cursor + self.c_len()
                && self.laid_out(
                old(buffer)@.base,
                old(buffer)@.cursor,
                old(buffer)@.bytes,
                r->Ok_0,
                final(buffer)@.bytes,
            ),
            r is Err ==> self.abandoned(
                old(buffer)@.base,
                old(buffer)@.cursor,
                old(buffer)@.bytes,
                final(buffer)@.bytes,
            ),
    ;
}

impl<T> Response<T> {
    /// The status that the host gets for this response when the caller's
    /// region holds `capacity` bytes: a record that does not fit asks the
    /// caller to try again.
    pub open spec fn outcome<C>(&self, capacity: nat) -> NssStatus where T: ToC<C> {
        match self {
            Response::Success(record) => if record.c_len() <= capacity {
                NssStatus::Success
            } else {
                NssStatus::TryAgain
            },
            _ => self.spec_status(),
        }
    }

    /// Whether `head` and `after` are what the host gets for this response
    /// in a region that starts at the address `base` and held `before`.
    pub open spec fn delivers<C>(
        &self,
        base: int,
        before: Seq<u8>,
        head: Option<C>,
        after: Seq<u8>,
    ) -> bool where T: ToC<C> {
        match self {
            Response::Success(record) => if record.c_len() <= before.len() {
                head is Some && record.laid_out(base, 0, before, head->0, after)
            } else {
                head is None && record.abandoned(base, 0, before, after)
            },
            _ => head is None && after == before,
        }
    }

    /// Hands the response to the host: a record is laid out in `region`,
    /// which the host placed at the address `base`, and its head structure is
    /// returned; anything else leaves the region alone.
    pub fn to_c<C>(self, region: &mut [u8], base: usize) -> (r: (NssStatus, Option<C>)) where
        T: ToC<C>,

        requires
            base + old(region)@.len() <= usize::MAX,
        ensures
            r.0 == self.outcome::<C>(old(region)@.len()),
            self.delivers(base as int, old(region)@, r.1, final(region)@),
    {
        match self {
            Response::Success(record) => {
                let mut buffer = CBuffer::new(region, base);
                match record.to_c(&mut buffer) {
                    Ok(head) => (NssStatus::Success, Some(head)),
                    Err(_) => (NssStatus::TryAgain, None),
                }
            },
            other => (other.to_status(), None),
        }
    }
}

} // verus!
