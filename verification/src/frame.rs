//! One frame on the bus, as far as `CANopen` reads it: the identifier and up
//! to eight bytes.

use vstd::prelude::*;
use vstd::slice::slice_to_vec;

use crate::error::{Error, Fault};

verus! {

/// The bytes one frame carries at most.
pub const FRAME_DATA: usize = 8;

/// A frame with an eleven-bit identifier.
#[derive(Clone, Debug, PartialEq, Eq)]
pub struct Frame {
    pub id: u32,
    pub data: Vec<u8>,
}

/// The mathematical value of a [`Frame`].
#[verifier::ext_equal]
pub struct Datagram {
    pub id: u32,
    pub data: Seq<u8>,
}

impl View for Frame {
    type V = Datagram;

    open spec fn view(&self) -> Datagram {
        Datagram { id: self.id, data: self.data@ }
    }
}

/// The value of a frame that may have been refused.
pub open spec fn framed(result: Result<Frame, Error>) -> Result<Datagram, Fault> {
    match result {
        Ok(frame) => Ok(frame@),
        Err(error) => Err(error@),
    }
}

/// `data` under `id`, if it fits one frame.
pub open spec fn fitted(id: u32, data: Seq<u8>) -> Result<Datagram, Fault> {
    if data.len() <= FRAME_DATA {
        Ok(Datagram { id, data })
    } else {
        Err(Fault::Overlong)
    }
}

impl Frame {
    /// `data` under `id`: eight bytes at most.
    pub fn new(id: u32, data: &[u8]) -> (result: Result<Frame, Error>)
        ensures
            framed(result) == fitted(id, data@),
    {
        if data.len() > FRAME_DATA {
            return Err(Error::Overlong);
        }
        Ok(Frame { id, data: slice_to_vec(data) })
    }
}

/// Up to eight bytes make a frame, with just that identifier and those bytes;
/// more make none.
pub proof fn law_eight_bytes_fit_a_frame(id: u32, data: Seq<u8>)
    ensures
        data.len() <= 8 ==> fitted(id, data) == Ok::<Datagram, Fault>(Datagram { id, data }),
        data.len() > 8 ==> fitted(id, data) == Err::<Datagram, Fault>(Fault::Overlong),
{
}

/// The value of a frame is its identifier and its bytes, and the value of one
/// that may have been refused says whether it was.
pub proof fn law_value_of_a_frame(frame: Frame, result: Result<Frame, Error>)
    ensures
        frame@.id == frame.id,
        frame@.data == frame.data@,
        result matches Ok(frame) ==> framed(result) == Ok::<Datagram, Fault>(frame@),
        result matches Err(error) ==> framed(result) == Err::<Datagram, Fault>(error@),
{
}

} // verus!
