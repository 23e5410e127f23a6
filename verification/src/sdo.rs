//! The service data object protocol of `CiA 301` section 7.2.4: the eight
//! bytes a client and a server exchange to move one object dictionary
//! entry, expedited when it fits in four bytes and segmented when it does
//! not.
//!
//! The first byte is the command specifier: the top three bits say which
//! of the eight exchanges this is, and the rest say how many of the data
//! bytes are meaningful, whether the transfer is expedited, whether a size
//! follows, which toggle this segment is under, and whether it is the last.
//! Every request is answered; an abort in either direction ends the transfer
//! with a reason.
//!
//! [`Exchange`] is what a message means, [`Exchange::encoded`] the eight
//! bytes it is written as, and [`decoded`] what given bytes mean.

use vstd::prelude::*;
use vstd::slice::{slice_subrange, slice_to_vec};

use crate::error::{Error, Fault};

verus! {

/// The COB-ID a client sends requests under, plus the node.
pub const CLIENT_BASE: u32 = 0x600;

/// The COB-ID a server answers from, plus the node.
pub const SERVER_BASE: u32 = 0x580;

/// The payload one segment carries beside its command specifier.
pub const SEGMENT_DATA: usize = 7;

/// The payload an expedited transfer carries beside index and subindex.
pub const EXPEDITED_DATA: usize = 4;

/// The object does not exist in the object dictionary.
pub const ABORT_NO_OBJECT: u32 = 0x0602_0000;

/// The toggle bit was not alternated.
pub const ABORT_TOGGLE: u32 = 0x0503_0000;

/// The command specifier is not valid or unknown.
pub const ABORT_COMMAND: u32 = 0x0504_0001;

/// The data type does not match: the length is wrong.
pub const ABORT_LENGTH: u32 = 0x0607_0010;

/// One SDO exchange, told apart by its command specifier.
#[derive(Clone, Debug, PartialEq, Eq)]
pub enum Sdo {
    /// A client opens a download: expedited with the data, or segmented
    /// with the size to come.
    InitiateDownload { index: u16, subindex: u8, expedited: Option<Vec<u8>>, size: u32 },
    /// The server accepts the download.
    DownloadAccepted { index: u16, subindex: u8 },
    /// One segment of a download, under a toggle, `last` on the final one.
    DownloadSegment { toggle: bool, data: Vec<u8>, last: bool },
    /// The server took the segment under that toggle.
    SegmentAccepted { toggle: bool },
    /// A client asks for an object.
    InitiateUpload { index: u16, subindex: u8 },
    /// The server answers: the data, expedited, or the size to come.
    UploadOpened { index: u16, subindex: u8, expedited: Option<Vec<u8>>, size: u32 },
    /// A client asks for the next segment under a toggle.
    UploadSegment { toggle: bool },
    /// One segment of an upload.
    UploadData { toggle: bool, data: Vec<u8>, last: bool },
    /// Either side ends the transfer with a reason.
    Abort { index: u16, subindex: u8, code: u32 },
}

/// The mathematical value of an [`Sdo`].
#[verifier::ext_equal]
pub enum Exchange {
    InitiateDownload { index: u16, subindex: u8, expedited: Option<Seq<u8>>, size: u32 },
    DownloadAccepted { index: u16, subindex: u8 },
    DownloadSegment { toggle: bool, data: Seq<u8>, last: bool },
    SegmentAccepted { toggle: bool },
    InitiateUpload { index: u16, subindex: u8 },
    UploadOpened { index: u16, subindex: u8, expedited: Option<Seq<u8>>, size: u32 },
    UploadSegment { toggle: bool },
    UploadData { toggle: bool, data: Seq<u8>, last: bool },
    Abort { index: u16, subindex: u8, code: u32 },
}

/// The bytes of an optional vector.
pub open spec fn contents(data: Option<Vec<u8>>) -> Option<Seq<u8>> {
    match data {
        Some(bytes) => Some(bytes@),
        None => None,
    }
}

impl View for Sdo {
    type V = Exchange;

    open spec fn view(&self) -> Exchange {
        match *self {
            Sdo::InitiateDownload { index, subindex, expedited, size } =>
                Exchange::InitiateDownload { index, subindex, expedited: contents(expedited), size },
            Sdo::DownloadAccepted { index, subindex } =>
                Exchange::DownloadAccepted { index, subindex },
            Sdo::DownloadSegment { toggle, data, last } =>
                Exchange::DownloadSegment { toggle, data: data@, last },
            Sdo::SegmentAccepted { toggle } => Exchange::SegmentAccepted { toggle },
            Sdo::InitiateUpload { index, subindex } => Exchange::InitiateUpload { index, subindex },
            Sdo::UploadOpened { index, subindex, expedited, size } =>
                Exchange::UploadOpened { index, subindex, expedited: contents(expedited), size },
            Sdo::UploadSegment { toggle } => Exchange::UploadSegment { toggle },
            Sdo::UploadData { toggle, data, last } =>
                Exchange::UploadData { toggle, data: data@, last },
            Sdo::Abort { index, subindex, code } => Exchange::Abort { index, subindex, code },
        }
    }
}

/// How many of `data` go into a field of `room` bytes.
pub open spec fn carried(data: Seq<u8>, room: int) -> int {
    if data.len() < room { data.len() as int } else { room }
}

/// A field of `room` bytes holding the front of `data`, zero where it ends.
pub open spec fn padded(data: Seq<u8>, room: nat) -> Seq<u8> {
    Seq::new(room, |i: int| if i < data.len() { data[i] } else { 0u8 })
}

/// A `u16` as two bytes, least significant first.
pub open spec fn le16(value: u16) -> Seq<u8> {
    seq![(value % 256) as u8, (value / 256) as u8]
}

/// The `u16` that two bytes stand for, least significant first.
pub open spec fn of_le16(low: u8, high: u8) -> u16 {
    (low + 256 * high) as u16
}

/// A `u32` as four bytes, least significant first.
pub open spec fn le32(value: u32) -> Seq<u8> {
    seq![
        (value % 256) as u8,
        (value / 256 % 256) as u8,
        (value / 65536 % 256) as u8,
        (value / 16777216) as u8,
    ]
}

/// The `u32` that four bytes stand for, least significant first.
pub open spec fn of_le32(b0: u8, b1: u8, b2: u8, b3: u8) -> u32 {
    (b0 + 256 * b1 + 65536 * b2 + 16777216 * b3) as u32
}

/// The toggle's place in a command specifier.
pub open spec fn toggle_weight(toggle: bool) -> int {
    if toggle { 16 } else { 0 }
}

/// Eight bytes: a command, the object it is about, and four bytes more.
pub open spec fn addressed(command: int, index: u16, subindex: u8, tail: Seq<u8>) -> Seq<u8> {
    seq![command as u8] + le16(index) + seq![subindex] + tail
}

/// Eight bytes that open a transfer. Expedited, the command counts the
/// unused bytes in bits 2 and 3 and sets the expedited and the size bit, and
/// the data follows; otherwise it sets the size bit alone, and the size
/// follows.
pub open spec fn initiate(
    command: int,
    index: u16,
    subindex: u8,
    expedited: Option<Seq<u8>>,
    size: u32,
) -> Seq<u8> {
    match expedited {
        Some(data) => addressed(
            command + 4 * (4 - carried(data, 4)) + 3,
            index,
            subindex,
            padded(data, 4),
        ),
        None => addressed(command + 1, index, subindex, le32(size)),
    }
}

/// Eight bytes that carry a segment: the toggle, the number of unused bytes
/// in bits 1 to 3, the last bit, and up to seven bytes of data.
pub open spec fn segment(toggle: bool, data: Seq<u8>, last: bool) -> Seq<u8> {
    let command = toggle_weight(toggle) + 2 * (7 - carried(data, 7)) + (if last { 1int } else { 0 });
    seq![command as u8] + padded(data, 7)
}

impl Exchange {
    /// The eight bytes this exchange is written as.
    pub open spec fn encoded(self) -> Seq<u8> {
        match self {
            Exchange::InitiateDownload { index, subindex, expedited, size } =>
                initiate(0x20, index, subindex, expedited, size),
            Exchange::DownloadAccepted { index, subindex } =>
                addressed(0x60, index, subindex, padded(seq![], 4)),
            Exchange::DownloadSegment { toggle, data, last } => segment(toggle, data, last),
            Exchange::SegmentAccepted { toggle } =>
                seq![(0x20 + toggle_weight(toggle)) as u8] + padded(seq![], 7),
            Exchange::InitiateUpload { index, subindex } =>
                addressed(0x40, index, subindex, padded(seq![], 4)),
            Exchange::UploadOpened { index, subindex, expedited, size } =>
                initiate(0x40, index, subindex, expedited, size),
            Exchange::UploadSegment { toggle } =>
                seq![(0x60 + toggle_weight(toggle)) as u8] + padded(seq![], 7),
            Exchange::UploadData { toggle, data, last } => segment(toggle, data, last),
            Exchange::Abort { index, subindex, code } =>
                addressed(0x80, index, subindex, le32(code)),
        }
    }
}

/// The data and the size that an initiate's bytes carry. Without the size
/// bit an expedited transfer carries all four bytes, and any other transfer
/// leaves its size unsaid, which reads as zero.
pub open spec fn initiated(bytes: Seq<u8>) -> (Option<Seq<u8>>, u32) {
    let sized = bytes[0] % 2 == 1;
    if bytes[0] / 2 % 2 == 1 {
        let length = if sized { 4 - bytes[0] / 4 % 4 } else { 4 };
        (Some(bytes.subrange(4, 4 + length)), length as u32)
    } else if sized {
        (None, of_le32(bytes[4], bytes[5], bytes[6], bytes[7]))
    } else {
        (None, 0)
    }
}

/// The data that a segment's bytes carry.
pub open spec fn segmented(bytes: Seq<u8>) -> Seq<u8> {
    bytes.subrange(1, 8 - bytes[0] / 2 % 8)
}

/// What `bytes` mean, read as a request when `request` and as an answer
/// otherwise, or why they mean nothing. Bytes behind the eighth say nothing.
pub open spec fn decoded(bytes: Seq<u8>, request: bool) -> Result<Exchange, Fault> {
    if bytes.len() < 8 {
        Err(Fault::Short)
    } else {
        let specifier = bytes[0] / 32;
        let index = of_le16(bytes[1], bytes[2]);
        let subindex = bytes[3];
        let toggle = bytes[0] / 16 % 2 == 1;
        let last = bytes[0] % 2 == 1;
        let (expedited, size) = initiated(bytes);
        if specifier == 0 && request {
            Ok(Exchange::DownloadSegment { toggle, data: segmented(bytes), last })
        } else if specifier == 0 {
            Ok(Exchange::UploadData { toggle, data: segmented(bytes), last })
        } else if specifier == 1 && request {
            Ok(Exchange::InitiateDownload { index, subindex, expedited, size })
        } else if specifier == 1 {
            Ok(Exchange::SegmentAccepted { toggle })
        } else if specifier == 2 && request {
            Ok(Exchange::InitiateUpload { index, subindex })
        } else if specifier == 2 {
            Ok(Exchange::UploadOpened { index, subindex, expedited, size })
        } else if specifier == 3 && request {
            Ok(Exchange::UploadSegment { toggle })
        } else if specifier == 3 {
            Ok(Exchange::DownloadAccepted { index, subindex })
        } else if specifier == 4 {
            let code = of_le32(bytes[4], bytes[5], bytes[6], bytes[7]);
            Ok(Exchange::Abort { index, subindex, code })
        } else {
            Err(Fault::Specifier(specifier))
        }
    }
}

/// The value of what a fallible function gave back.
pub open spec fn outcome(result: Result<Sdo, Error>) -> Result<Exchange, Fault> {
    match result {
        Ok(sdo) => Ok(sdo@),
        Err(error) => Err(error@),
    }
}

impl Sdo {
    /// The eight bytes.
    pub fn encode(&self) -> (out: [u8; 8])
        ensures
            out@ == self@.encoded(),
    {
        let mut out = [0u8; 8];
        match self {
            Sdo::InitiateDownload { index, subindex, expedited, size } => {
                let bits: u8 = initiate_bits(expedited, &mut out);
                out[0] = 0x20 | bits;
                multiplexer(&mut out, *index, *subindex);
                if expedited.is_none() {
                    put_u32(&mut out, *size);
                }
                proof {
                    lemma_command_bits(bits);
                }
            },
            Sdo::DownloadAccepted { index, subindex } => {
                out[0] = 0x60;
                multiplexer(&mut out, *index, *subindex);
            },
            Sdo::DownloadSegment { toggle, data, last } => {
                out[0] = segment_bits(*toggle, data, *last, &mut out);
            },
            Sdo::UploadData { toggle, data, last } => {
                out[0] = segment_bits(*toggle, data, *last, &mut out);
            },
            Sdo::SegmentAccepted { toggle } => {
                let bit: u8 = toggle_bit(*toggle);
                out[0] = 0x20 | bit;
                proof {
                    lemma_command_bits(bit);
                }
            },
            Sdo::InitiateUpload { index, subindex } => {
                out[0] = 0x40;
                multiplexer(&mut out, *index, *subindex);
            },
            Sdo::UploadOpened { index, subindex, expedited, size } => {
                let bits: u8 = initiate_bits(expedited, &mut out);
                out[0] = 0x40 | bits;
                multiplexer(&mut out, *index, *subindex);
                if expedited.is_none() {
                    put_u32(&mut out, *size);
                }
                proof {
                    lemma_command_bits(bits);
                }
            },
            Sdo::UploadSegment { toggle } => {
                let bit: u8 = toggle_bit(*toggle);
                out[0] = 0x60 | bit;
                proof {
                    lemma_command_bits(bit);
                }
            },
            Sdo::Abort { index, subindex, code } => {
                out[0] = 0x80;
                multiplexer(&mut out, *index, *subindex);
                put_u32(&mut out, *code);
            },
        }
        assert(out@ =~= self@.encoded());
        out
    }

    /// The exchange `bytes` carry, read as a request when `request` and as
    /// an answer otherwise: the same specifier bits mean different things in
    /// the two directions. Fewer than eight bytes are refused, and so is a
    /// specifier that neither direction uses.
    pub fn decode(bytes: &[u8], request: bool) -> (result: Result<Sdo, Error>)
        ensures
            outcome(result) == decoded(bytes@, request),
    {
        if bytes.len() < 8 {
            return Err(Error::Short);
        }
        let specifier: u8 = bytes[0] >> 5;
        let index: u16 = bytes[1] as u16 + 256 * (bytes[2] as u16);
        let subindex: u8 = bytes[3];
        let toggle = bytes[0] & 0x10 != 0;
        proof {
            lemma_specifier_bits(bytes[0]);
        }
        match (specifier, request) {
            (0, true) => {
                let (data, last) = segment_data(bytes);
                Ok(Sdo::DownloadSegment { toggle, data, last })
            },
            (0, false) => {
                let (data, last) = segment_data(bytes);
                Ok(Sdo::UploadData { toggle, data, last })
            },
            (1, true) => {
                let (expedited, size) = initiate_data(bytes);
                Ok(Sdo::InitiateDownload { index, subindex, expedited, size })
            },
            (1, false) => Ok(Sdo::SegmentAccepted { toggle }),
            (2, true) => Ok(Sdo::InitiateUpload { index, subindex }),
            (2, false) => {
                let (expedited, size) = initiate_data(bytes);
                Ok(Sdo::UploadOpened { index, subindex, expedited, size })
            },
            (3, true) => Ok(Sdo::UploadSegment { toggle }),
            (3, false) => Ok(Sdo::DownloadAccepted { index, subindex }),
            (4, _) => Ok(Sdo::Abort { index, subindex, code: get_u32(bytes) }),
            (other, _) => Err(Error::Specifier(other)),
        }
    }
}

/// The fields of a command specifier as quotients and remainders.
proof fn lemma_specifier_bits(b: u8)
    ensures
        b >> 5 == b / 32,
        (b & 0x10 != 0) == (b / 16 % 2 == 1),
        (b & 0x02 != 0) == (b / 2 % 2 == 1),
        (b & 0x01 != 0) == (b % 2 == 1),
        (b >> 2) & 0x03 == b / 4 % 4,
        (b >> 1) & 0x07 == b / 2 % 8,
{
    assert(b >> 5 == b / 32 && ((b & 0x10 != 0) == (b / 16 % 2 == 1)) && ((b & 0x02 != 0) == (b / 2
        % 2 == 1)) && ((b & 0x01 != 0) == (b % 2 == 1)) && (b >> 2) & 0x03 == b / 4 % 4 && (b >> 1)
        & 0x07 == b / 2 % 8) by (bit_vector);
}

/// A command in the top three bits and flags below them do not overlap.
proof fn lemma_command_bits(bits: u8)
    requires
        bits < 32,
    ensures
        0x20 | bits == 0x20 + bits,
        0x40 | bits == 0x40 + bits,
        0x60 | bits == 0x60 + bits,
{
    assert(bits < 32 ==> (0x20u8 | bits) == 0x20 + bits && (0x40u8 | bits) == 0x40 + bits && (0x60u8
        | bits) == 0x60 + bits) by (bit_vector);
}

/// Write the object a message is about behind the command specifier.
fn multiplexer(out: &mut [u8; 8], index: u16, subindex: u8)
    ensures
        final(out)@ == old(out)@.update(1, le16(index)[0]).update(2, le16(index)[1]).update(
            3,
            subindex,
        ),
{
    out[1] = (index % 256) as u8;
    out[2] = (index / 256) as u8;
    out[3] = subindex;
    assert(out@ =~= old(out)@.update(1, le16(index)[0]).update(2, le16(index)[1]).update(
        3,
        subindex,
    ));
}

/// Write a `u32` into the last four bytes.
fn put_u32(out: &mut [u8; 8], value: u32)
    ensures
        final(out)@ == old(out)@.subrange(0, 4) + le32(value),
{
    out[4] = (value % 256) as u8;
    out[5] = (value / 256 % 256) as u8;
    out[6] = (value / 65536 % 256) as u8;
    out[7] = (value / 16777216) as u8;
    assert(out@ =~= old(out)@.subrange(0, 4) + le32(value));
}

/// Write `data` from position `at` on.
fn put_slice(out: &mut [u8; 8], at: usize, data: &[u8])
    requires
        at + data@.len() <= 8,
    ensures
        final(out)@ == old(out)@.subrange(0, at as int) + data@ + old(out)@.subrange(
            at + data@.len(),
            8,
        ),
{
    let mut i: usize = 0;
    while i < data.len()
        invariant
            i <= data@.len(),
            at + data@.len() <= 8,
            out@.len() == 8,
            out@ == old(out)@.subrange(0, at as int) + data@.subrange(0, i as int)
                + old(out)@.subrange(at + i, 8),
        decreases data@.len() - i,
    {
        out[at + i] = data[i];
        i = i + 1;
        assert(out@ =~= old(out)@.subrange(0, at as int) + data@.subrange(0, i as int)
            + old(out)@.subrange(at + i, 8));
    }
    assert(data@.subrange(0, i as int) =~= data@);
}

/// The `u32` in bytes four to seven.
fn get_u32(bytes: &[u8]) -> (value: u32)
    requires
        bytes@.len() >= 8,
    ensures
        value == of_le32(bytes@[4], bytes@[5], bytes@[6], bytes@[7]),
{
    bytes[4] as u32 + 256 * (bytes[5] as u32) + 65536 * (bytes[6] as u32) + 16777216 * (
    bytes[7] as u32)
}

fn toggle_bit(toggle: bool) -> (bit: u8)
    ensures
        bit == toggle_weight(toggle),
{
    if toggle { 0x10 } else { 0x00 }
}

/// The n, e and s bits of an initiate, writing expedited data in place.
fn initiate_bits(expedited: &Option<Vec<u8>>, out: &mut [u8; 8]) -> (bits: u8)
    ensures
        bits < 32,
        match contents(*expedited) {
            Some(data) => {
                &&& bits == 4 * (4 - carried(data, 4)) + 3
                &&& final(out)@ == old(out)@.subrange(0, 4) + data.subrange(
                    0,
                    carried(data, 4),
                ) + old(out)@.subrange(4 + carried(data, 4), 8)
            },
            None => bits == 1 && final(out)@ == old(out)@,
        },
{
    match expedited {
        Some(data) => {
            let room: usize = if data.len() < EXPEDITED_DATA { data.len() } else { EXPEDITED_DATA };
            put_slice(out, 4, slice_subrange(data.as_slice(), 0, room));
            let unused: u8 = (EXPEDITED_DATA - room) as u8;
            assert(unused <= 4 ==> (0x03u8 | (unused << 2)) == 4 * unused + 3) by (bit_vector);
            0x03 | (unused << 2)
        },
        None => 0x01,
    }
}

/// The t, n and c bits of a segment, writing its data in place.
fn segment_bits(toggle: bool, data: &Vec<u8>, last: bool, out: &mut [u8; 8]) -> (bits: u8)
    ensures
        bits == toggle_weight(toggle) + 2 * (7 - carried(data@, 7)) + (if last { 1int } else { 0 }),
        final(out)@ == old(out)@.subrange(0, 1) + data@.subrange(0, carried(data@, 7))
            + old(out)@.subrange(1 + carried(data@, 7), 8),
{
    let room: usize = if data.len() < SEGMENT_DATA { data.len() } else { SEGMENT_DATA };
    put_slice(out, 1, slice_subrange(data.as_slice(), 0, room));
    let unused: u8 = (SEGMENT_DATA - room) as u8;
    let t: u8 = toggle_bit(toggle);
    let c: u8 = if last { 1 } else { 0 };
    assert(unused <= 7 && c <= 1 && (t == 0 || t == 16) ==> (t | (unused << 1) | c) == t + 2
        * unused + c) by (bit_vector);
    t | (unused << 1) | c
}

/// What an initiate carries: its data if expedited, and its size.
fn initiate_data(bytes: &[u8]) -> (carried: (Option<Vec<u8>>, u32))
    requires
        bytes@.len() >= 8,
    ensures
        (contents(carried.0), carried.1) == initiated(bytes@),
{
    let expedited = bytes[0] & 0x02 != 0;
    let sized = bytes[0] & 0x01 != 0;
    proof {
        lemma_specifier_bits(bytes[0]);
    }
    if expedited {
        let unused: usize = ((bytes[0] >> 2) & 0x03) as usize;
        let length: usize = if sized { EXPEDITED_DATA - unused } else { EXPEDITED_DATA };
        let data = slice_to_vec(slice_subrange(bytes, 4, 4 + length));
        return (Some(data), length as u32);
    }
    let size: u32 = if sized { get_u32(bytes) } else { 0 };
    (None, size)
}

/// What a segment carries: its data, and whether it is the last.
fn segment_data(bytes: &[u8]) -> (carried: (Vec<u8>, bool))
    requires
        bytes@.len() >= 8,
    ensures
        carried.0@ == segmented(bytes@),
        carried.1 == (bytes@[0] % 2 == 1),
{
    let unused: usize = ((bytes[0] >> 1) & 0x07) as usize;
    let last = bytes[0] & 0x01 != 0;
    proof {
        lemma_specifier_bits(bytes[0]);
    }
    (slice_to_vec(slice_subrange(bytes, 1, 1 + (SEGMENT_DATA - unused))), last)
}

impl Exchange {
    /// Whether this exchange is one that a client sends, when `request`, or
    /// one that a server sends. An abort goes both ways.
    pub open spec fn travels(self, request: bool) -> bool {
        match self {
            Exchange::InitiateDownload { .. } => request,
            Exchange::DownloadSegment { .. } => request,
            Exchange::InitiateUpload { .. } => request,
            Exchange::UploadSegment { .. } => request,
            Exchange::DownloadAccepted { .. } => !request,
            Exchange::SegmentAccepted { .. } => !request,
            Exchange::UploadOpened { .. } => !request,
            Exchange::UploadData { .. } => !request,
            Exchange::Abort { .. } => true,
        }
    }

    /// Whether eight bytes can say all of this exchange: expedited data is
    /// one to four bytes under its own size, a segment at most seven bytes.
    pub open spec fn well_formed(self) -> bool {
        match self {
            Exchange::InitiateDownload { expedited: Some(data), size, .. } =>
                1 <= data.len() <= 4 && size == data.len(),
            Exchange::UploadOpened { expedited: Some(data), size, .. } =>
                1 <= data.len() <= 4 && size == data.len(),
            Exchange::DownloadSegment { data, .. } => data.len() <= 7,
            Exchange::UploadData { data, .. } => data.len() <= 7,
            _ => true,
        }
    }
}

/// Every exchange is written as eight bytes.
pub proof fn law_encoded_length(exchange: Exchange)
    ensures
        exchange.encoded().len() == 8,
{
}

/// Two bytes hold a `u16`, and four a `u32`, without loss.
proof fn lemma_little_endian(half: u16, whole: u32)
    ensures
        of_le16(le16(half)[0], le16(half)[1]) == half,
        of_le32(le32(whole)[0], le32(whole)[1], le32(whole)[2], le32(whole)[3]) == whole,
{
    assert(whole == whole % 256 + 256 * (whole / 256 % 256) + 65536 * (whole / 65536 % 256)
        + 16777216 * (whole / 16777216)) by (bit_vector);
}

/// Decoding undoes encoding: every exchange that eight bytes can say is read
/// back as it was, in the direction it travels.
pub proof fn law_decode_undoes_encode(exchange: Exchange, request: bool)
    requires
        exchange.well_formed(),
        exchange.travels(request),
    ensures
        decoded(exchange.encoded(), request) == Ok::<Exchange, Fault>(exchange),
{
    let bytes = exchange.encoded();
    match exchange {
        Exchange::InitiateDownload { index, subindex, expedited, size } => {
            lemma_little_endian(index, size);
            if expedited is Some {
                assert(bytes.subrange(4, 4 + size) =~= expedited->0);
            }
        },
        Exchange::UploadOpened { index, subindex, expedited, size } => {
            lemma_little_endian(index, size);
            if expedited is Some {
                assert(bytes.subrange(4, 4 + size) =~= expedited->0);
            }
        },
        Exchange::DownloadSegment { toggle, data, last } => {
            assert(segmented(bytes) =~= data);
        },
        Exchange::UploadData { toggle, data, last } => {
            assert(segmented(bytes) =~= data);
        },
        Exchange::DownloadAccepted { index, subindex } => {
            lemma_little_endian(index, 0);
        },
        Exchange::InitiateUpload { index, subindex } => {
            lemma_little_endian(index, 0);
        },
        Exchange::Abort { index, subindex, code } => {
            lemma_little_endian(index, code);
        },
        Exchange::SegmentAccepted { toggle } => {},
        Exchange::UploadSegment { toggle } => {},
    }
}

/// What is decoded can be said in eight bytes and travels in the direction
/// it was read in, so encoding it and decoding that gives it again.
pub proof fn law_decoded_survives_encoding(bytes: Seq<u8>, request: bool)
    ensures
        decoded(bytes, request) matches Ok(exchange) ==> {
            &&& exchange.well_formed()
            &&& exchange.travels(request)
            &&& decoded(exchange.encoded(), request) == Ok::<Exchange, Fault>(exchange)
        },
{
    if let Ok(exchange) = decoded(bytes, request) {
        law_decode_undoes_encode(exchange, request);
    }
}

/// Bytes are refused in either direction exactly when they are fewer than
/// eight or the specifier is past the five that are in use.
pub proof fn law_refused_exactly(bytes: Seq<u8>, request: bool)
    ensures
        decoded(bytes, request) is Err <==> bytes.len() < 8 || bytes[0] >= 0xa0,
{
}

/// Two exchanges of one direction that eight bytes can say are never written
/// as the same eight bytes.
pub proof fn law_encoding_is_unambiguous(a: Exchange, b: Exchange, request: bool)
    requires
        a.well_formed(),
        b.well_formed(),
        a.travels(request),
        b.travels(request),
        a.encoded() == b.encoded(),
    ensures
        a == b,
{
    law_decode_undoes_encode(a, request);
    law_decode_undoes_encode(b, request);
}

/// Whether bytes one to three name an object: its index, the low byte first,
/// and its subindex.
pub open spec fn names(bytes: Seq<u8>, index: u16, subindex: u8) -> bool {
    &&& bytes[1] == index & 0xff
    &&& bytes[2] == index >> 8
    &&& bytes[3] == subindex
}

/// Whether bytes four to seven say a number, the low byte first.
pub open spec fn says(bytes: Seq<u8>, value: u32) -> bool {
    &&& bytes[4] == value & 0xff
    &&& bytes[5] == (value >> 8) & 0xff
    &&& bytes[6] == (value >> 16) & 0xff
    &&& bytes[7] == value >> 24
}

/// Whether the bytes from `at` to the eighth are the front of `data`, and
/// zero behind its end.
pub open spec fn holds(bytes: Seq<u8>, at: int, data: Seq<u8>) -> bool {
    forall|i: int|
        at <= i < 8 ==> #[trigger] bytes[i] == (if i - at < data.len() {
            data[i - at]
        } else {
            0u8
        })
}

/// The bytes of a number as shifts and masks.
proof fn lemma_number_bits(half: u16, whole: u32)
    ensures
        half & 0xff == half % 256,
        half >> 8 == half / 256,
        whole & 0xff == whole % 256,
        (whole >> 8) & 0xff == whole / 256 % 256,
        (whole >> 16) & 0xff == whole / 65536 % 256,
        whole >> 24 == whole / 16777216,
{
    assert(half & 0xff == half % 256 && half >> 8 == half / 256) by (bit_vector);
    assert(whole & 0xff == whole % 256 && (whole >> 8) & 0xff == whole / 256 % 256 && (whole >> 16)
        & 0xff == whole / 65536 % 256 && whole >> 24 == whole / 16777216) by (bit_vector);
}

/// The layout of the eight bytes, bit by bit. The top three bits of the first
/// are the specifier. Bit 4 is the toggle of whatever has one, and nothing
/// else is set in the command of a segment's acceptance or of the asking for
/// one. An initiate counts its unused bytes in bits 2 and 3, sets bit 1 if
/// expedited and bit 0 always; a segment counts its unused bytes in bits 1 to
/// 3 and sets bit 0 if it is the last. What follows is the object, low byte
/// first, and the data or the number, or up to seven bytes of a segment.
pub proof fn law_encoded_layout(exchange: Exchange)
    ensures
        exchange.encoded().len() == 8,
        ({
            let bytes = exchange.encoded();
            let command = bytes[0];
            match exchange {
                Exchange::InitiateDownload { index, subindex, expedited: None, size } => {
                    &&& command == 0x21
                    &&& names(bytes, index, subindex)
                    &&& says(bytes, size)
                },
                Exchange::InitiateDownload { index, subindex, expedited: Some(data), size } => {
                    &&& command >> 5 == 1
                    &&& command & 0x02 != 0
                    &&& command & 0x01 != 0
                    &&& 1 <= data.len() <= 4 ==> (command >> 2) & 0x03 == 4 - data.len()
                    &&& data.len() > 4 ==> (command >> 2) & 0x03 == 0
                    &&& command & 0x10 != 0 <==> data.len() == 0
                    &&& names(bytes, index, subindex)
                    &&& holds(bytes, 4, data)
                },
                Exchange::UploadOpened { index, subindex, expedited: None, size } => {
                    &&& command == 0x41
                    &&& names(bytes, index, subindex)
                    &&& says(bytes, size)
                },
                Exchange::UploadOpened { index, subindex, expedited: Some(data), size } => {
                    &&& command >> 5 == 2
                    &&& command & 0x02 != 0
                    &&& command & 0x01 != 0
                    &&& 1 <= data.len() <= 4 ==> (command >> 2) & 0x03 == 4 - data.len()
                    &&& data.len() > 4 ==> (command >> 2) & 0x03 == 0
                    &&& command & 0x10 != 0 <==> data.len() == 0
                    &&& names(bytes, index, subindex)
                    &&& holds(bytes, 4, data)
                },
                Exchange::DownloadSegment { toggle, data, last } => {
                    &&& command >> 5 == 0
                    &&& command & 0x10 != 0 <==> toggle
                    &&& (command >> 1) & 0x07 == (if data.len() < 7 { 7 - data.len() } else { 0 })
                    &&& command & 0x01 != 0 <==> last
                    &&& holds(bytes, 1, data)
                },
                Exchange::UploadData { toggle, data, last } => {
                    &&& command >> 5 == 0
                    &&& command & 0x10 != 0 <==> toggle
                    &&& (command >> 1) & 0x07 == (if data.len() < 7 { 7 - data.len() } else { 0 })
                    &&& command & 0x01 != 0 <==> last
                    &&& holds(bytes, 1, data)
                },
                Exchange::SegmentAccepted { toggle } => {
                    &&& command == (if toggle { 0x30u8 } else { 0x20u8 })
                    &&& command >> 5 == 1
                    &&& command & 0x10 != 0 <==> toggle
                    &&& holds(bytes, 1, seq![])
                },
                Exchange::UploadSegment { toggle } => {
                    &&& command == (if toggle { 0x70u8 } else { 0x60u8 })
                    &&& command >> 5 == 3
                    &&& command & 0x10 != 0 <==> toggle
                    &&& holds(bytes, 1, seq![])
                },
                Exchange::DownloadAccepted { index, subindex } => {
                    &&& command == 0x60
                    &&& names(bytes, index, subindex)
                    &&& holds(bytes, 4, seq![])
                },
                Exchange::InitiateUpload { index, subindex } => {
                    &&& command == 0x40
                    &&& names(bytes, index, subindex)
                    &&& holds(bytes, 4, seq![])
                },
                Exchange::Abort { index, subindex, code } => {
                    &&& command == 0x80
                    &&& names(bytes, index, subindex)
                    &&& says(bytes, code)
                },
            }
        }),
{
    lemma_specifier_bits(exchange.encoded()[0]);
    match exchange {
        Exchange::InitiateDownload { index, size, .. } => {
            lemma_number_bits(index, size);
        },
        Exchange::UploadOpened { index, size, .. } => {
            lemma_number_bits(index, size);
        },
        Exchange::DownloadAccepted { index, .. } => {
            lemma_number_bits(index, 0);
        },
        Exchange::InitiateUpload { index, .. } => {
            lemma_number_bits(index, 0);
        },
        Exchange::Abort { index, code, .. } => {
            lemma_number_bits(index, code);
        },
        _ => {},
    }
}

/// Whether the bytes of an initiate carry this data and size. With bit 1 set
/// the data is expedited: four bytes, less those that bits 2 and 3 count if
/// bit 0 is set. Without it bit 0 says whether a size follows.
pub open spec fn carries(bytes: Seq<u8>, expedited: Option<Seq<u8>>, size: u32) -> bool {
    let unused = if bytes[0] & 0x01 != 0 { (bytes[0] >> 2) & 0x03 } else { 0 };
    match expedited {
        Some(data) => {
            &&& bytes[0] & 0x02 != 0
            &&& data.len() == 4 - unused
            &&& forall|i: int| 0 <= i < data.len() ==> #[trigger] data[i] == bytes[4 + i]
            &&& size == data.len()
        },
        None => {
            &&& bytes[0] & 0x02 == 0
            &&& if bytes[0] & 0x01 != 0 { says(bytes, size) } else { size == 0 }
        },
    }
}

/// Whether the bytes of a segment carry this toggle, this data and this last
/// bit: bit 4, seven bytes less those that bits 1 to 3 count, and bit 0.
pub open spec fn brings(bytes: Seq<u8>, toggle: bool, data: Seq<u8>, last: bool) -> bool {
    &&& toggle <==> bytes[0] & 0x10 != 0
    &&& last <==> bytes[0] & 0x01 != 0
    &&& data.len() == 7 - ((bytes[0] >> 1) & 0x07)
    &&& forall|i: int| 0 <= i < data.len() ==> #[trigger] data[i] == bytes[1 + i]
}

/// The fields that are read from bytes stand where they are laid out.
proof fn lemma_fields(bytes: Seq<u8>)
    requires
        bytes.len() >= 8,
    ensures
        names(bytes, of_le16(bytes[1], bytes[2]), bytes[3]),
        says(bytes, of_le32(bytes[4], bytes[5], bytes[6], bytes[7])),
        carries(bytes, initiated(bytes).0, initiated(bytes).1),
        brings(bytes, bytes[0] / 16 % 2 == 1, segmented(bytes), bytes[0] % 2 == 1),
{
    lemma_specifier_bits(bytes[0]);
    lemma_halves(bytes[1], bytes[2]);
    lemma_quarters(bytes[4], bytes[5], bytes[6], bytes[7]);
}

proof fn lemma_halves(low: u8, high: u8)
    ensures
        of_le16(low, high) & 0xff == low,
        of_le16(low, high) >> 8 == high,
{
    lemma_number_bits(of_le16(low, high), 0);
}

proof fn lemma_quarters(b0: u8, b1: u8, b2: u8, b3: u8)
    ensures
        ({
            let value = of_le32(b0, b1, b2, b3);
            &&& value & 0xff == b0
            &&& (value >> 8) & 0xff == b1
            &&& (value >> 16) & 0xff == b2
            &&& value >> 24 == b3
        }),
{
    let value = of_le32(b0, b1, b2, b3);
    assert(value & 0xff == b0 && (value >> 8) & 0xff == b1 && (value >> 16) & 0xff == b2 && value
        >> 24 == b3) by (bit_vector)
        requires
            value == b0 + 256 * b1 + 65536 * b2 + 16777216 * b3,
    ;
}

/// What is read from bytes, bit by bit. The specifier and the direction say
/// which exchange it is, bit 4 is the toggle of whatever has one, and every
/// other field stands where it is laid out. Fewer than eight bytes are short,
/// and a specifier of five or more is refused by its number.
pub proof fn law_decoded_layout(bytes: Seq<u8>, request: bool)
    ensures
        bytes.len() < 8 ==> decoded(bytes, request) == Err::<Exchange, Fault>(Fault::Short),
        bytes.len() >= 8 ==> {
            let specifier = bytes[0] >> 5;
            let toggled = bytes[0] & 0x10 != 0;
            match decoded(bytes, request) {
                Err(fault) => specifier >= 5 && fault == Fault::Specifier(specifier),
                Ok(exchange) => match exchange {
                    Exchange::DownloadSegment { toggle, data, last } => {
                        &&& specifier == 0 && request
                        &&& brings(bytes, toggle, data, last)
                    },
                    Exchange::UploadData { toggle, data, last } => {
                        &&& specifier == 0 && !request
                        &&& brings(bytes, toggle, data, last)
                    },
                    Exchange::InitiateDownload { index, subindex, expedited, size } => {
                        &&& specifier == 1 && request
                        &&& names(bytes, index, subindex)
                        &&& carries(bytes, expedited, size)
                    },
                    Exchange::SegmentAccepted { toggle } => {
                        &&& specifier == 1 && !request
                        &&& toggle == toggled
                    },
                    Exchange::InitiateUpload { index, subindex } => {
                        &&& specifier == 2 && request
                        &&& names(bytes, index, subindex)
                    },
                    Exchange::UploadOpened { index, subindex, expedited, size } => {
                        &&& specifier == 2 && !request
                        &&& names(bytes, index, subindex)
                        &&& carries(bytes, expedited, size)
                    },
                    Exchange::UploadSegment { toggle } => {
                        &&& specifier == 3 && request
                        &&& toggle == toggled
                    },
                    Exchange::DownloadAccepted { index, subindex } => {
                        &&& specifier == 3 && !request
                        &&& names(bytes, index, subindex)
                    },
                    Exchange::Abort { index, subindex, code } => {
                        &&& specifier == 4
                        &&& names(bytes, index, subindex)
                        &&& says(bytes, code)
                    },
                },
            }
        },
{
    if bytes.len() >= 8 {
        lemma_specifier_bits(bytes[0]);
        lemma_fields(bytes);
    }
}

/// The value of an [`Sdo`] has its name and its fields.
pub proof fn law_value_keeps_every_field(sdo: Sdo)
    ensures
        match sdo {
            Sdo::InitiateDownload { index, subindex, expedited: None, size } => sdo@
                == Exchange::InitiateDownload { index, subindex, expedited: None, size },
            Sdo::InitiateDownload { index, subindex, expedited: Some(data), size } => sdo@
                == Exchange::InitiateDownload { index, subindex, expedited: Some(data@), size },
            Sdo::DownloadAccepted { index, subindex } => sdo@ == Exchange::DownloadAccepted {
                index,
                subindex,
            },
            Sdo::DownloadSegment { toggle, data, last } => sdo@ == Exchange::DownloadSegment {
                toggle,
                data: data@,
                last,
            },
            Sdo::SegmentAccepted { toggle } => sdo@ == Exchange::SegmentAccepted { toggle },
            Sdo::InitiateUpload { index, subindex } => sdo@ == Exchange::InitiateUpload {
                index,
                subindex,
            },
            Sdo::UploadOpened { index, subindex, expedited: None, size } => sdo@
                == Exchange::UploadOpened { index, subindex, expedited: None, size },
            Sdo::UploadOpened { index, subindex, expedited: Some(data), size } => sdo@
                == Exchange::UploadOpened { index, subindex, expedited: Some(data@), size },
            Sdo::UploadSegment { toggle } => sdo@ == Exchange::UploadSegment { toggle },
            Sdo::UploadData { toggle, data, last } => sdo@ == Exchange::UploadData {
                toggle,
                data: data@,
                last,
            },
            Sdo::Abort { index, subindex, code } => sdo@ == Exchange::Abort {
                index,
                subindex,
                code,
            },
        },
{
}

/// What a fallible function gave back is told apart by whether it failed, and
/// keeps what it gave; so does what may be absent.
pub proof fn law_outcomes_are_told_apart(result: Result<Sdo, Error>, data: Option<Vec<u8>>)
    ensures
        result matches Ok(sdo) ==> outcome(result) == Ok::<Exchange, Fault>(sdo@),
        result matches Err(error) ==> outcome(result) == Err::<Exchange, Fault>(error@),
        data matches Some(bytes) ==> contents(data) == Some(bytes@),
        data is None ==> contents(data) is None,
{
}

} // verus!
