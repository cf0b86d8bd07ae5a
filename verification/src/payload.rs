//! The body of one packet.

use vstd::array::array_as_slice;
use vstd::prelude::*;
use vstd::slice::slice_subrange;

verus! {

/// Largest packet body that the chip carries, in bytes.
pub const MAX_PAYLOAD_BYTES: usize = 32;

/// The body of one packet, received or about to be sent: up to 32 bytes.
///
/// The value is modelled by the bytes it carries (`payload@`); the storage
/// behind them is always 32 bytes long.
#[derive(Clone, Copy, Debug)]
pub struct Payload {
    data: [u8; MAX_PAYLOAD_BYTES],
    len: usize,
}

/// The first 32 bytes of `source`, or all of it where it is shorter.
pub open spec fn truncated(source: Seq<u8>) -> Seq<u8> {
    if source.len() <= MAX_PAYLOAD_BYTES {
        source
    } else {
        source.subrange(0, MAX_PAYLOAD_BYTES as int)
    }
}

impl Payload {
    #[verifier::type_invariant]
    spec fn within_capacity(self) -> bool {
        self.len <= MAX_PAYLOAD_BYTES
    }

    /// The bytes carried.
    pub closed spec fn view(&self) -> Seq<u8> {
        self.data@.subrange(0, self.len as int)
    }

    /// Copies a slice; what lies beyond the first 32 bytes is left out.
    pub fn new(source: &[u8]) -> (payload: Self)
        ensures
            payload@ == truncated(source@),
    {
        let mut data = [0u8; MAX_PAYLOAD_BYTES];
        let len = if source.len() < MAX_PAYLOAD_BYTES {
            source.len()
        } else {
            MAX_PAYLOAD_BYTES
        };
        let mut i: usize = 0;
        while i < len
            invariant
                i <= len <= MAX_PAYLOAD_BYTES,
                len <= source@.len(),
                forall|k: int| 0 <= k < i ==> data@[k] == source@[k],
            decreases len - i,
        {
            data[i] = source[i];
            i += 1;
        }
        let payload = Payload { data, len };
        assert(payload@ =~= truncated(source@));
        payload
    }

    /// Number of bytes carried.
    pub fn len(&self) -> (n: usize)
        ensures
            n == self@.len(),
            n <= MAX_PAYLOAD_BYTES,
    {
        proof {
            use_type_invariant(self);
        }
        self.len
    }

    /// The bytes carried, as a slice.
    pub fn as_ref(&self) -> (bytes: &[u8])
        ensures
            bytes@ == self@,
    {
        proof {
            use_type_invariant(self);
        }
        slice_subrange(array_as_slice(&self.data), 0, self.len)
    }
}

impl core::ops::Deref for Payload {
    type Target = [u8];

    fn deref(&self) -> (bytes: &[u8])
        ensures
            bytes@ == self@,
    {
        self.as_ref()
    }
}

} // verus!
