//! The master's side of one transfer, without a bus: what to transmit, and
//! what each thing that is heard from the bus makes of the transfer.
//!
//! Whoever owns the bus transmits [`Download::frame`] or [`Upload::frame`],
//! sets the deadline for its answer, and then hands over whatever the bus
//! gives, and whether the deadline has come, until the transfer is done or has
//! failed.

use vstd::prelude::*;
use vstd::slice::{slice_subrange, slice_to_vec};

use crate::error::{Error, Fault};
use crate::frame::{Datagram, Frame};
use crate::sdo::{
    decoded, Exchange, Sdo, CLIENT_BASE, EXPEDITED_DATA, SEGMENT_DATA, SERVER_BASE,
};

verus! {

/// What the bus gave to a master that waits for an answer.
#[derive(Debug, PartialEq, Eq)]
pub enum Heard {
    /// A frame, whoever sent it; `late` if the deadline has come.
    Frame { frame: Frame, late: bool },
    /// Nothing for as long as the bus was listened to; `late` if the
    /// deadline has come.
    Nothing { late: bool },
}

/// The mathematical value of a [`Heard`].
#[verifier::ext_equal]
pub enum Sound {
    Frame { frame: Datagram, late: bool },
    Nothing { late: bool },
}

impl View for Heard {
    type V = Sound;

    open spec fn view(&self) -> Sound {
        match self {
            Heard::Frame { frame, late } => Sound::Frame { frame: frame@, late: *late },
            Heard::Nothing { late } => Sound::Nothing { late: *late },
        }
    }
}

/// What a master does next.
#[derive(Debug, PartialEq, Eq)]
pub enum Step<T> {
    /// Transmit the frame, and wait for its answer under a new deadline.
    Send(Frame),
    /// Listen again at once: this was not the answer, and there is time left.
    Again,
    /// Let others run, then listen again: there is time left.
    Pause,
    /// Stop: this is what came of it.
    Done(T),
    /// Stop: this is what went wrong.
    Failed(Error),
}

/// The mathematical value of a [`Step`].
#[verifier::ext_equal]
pub enum Turn<T> {
    Send(Datagram),
    Again,
    Pause,
    Done(T),
    Failed(Fault),
}

impl<T: View> View for Step<T> {
    type V = Turn<T::V>;

    open spec fn view(&self) -> Turn<T::V> {
        match self {
            Step::Send(frame) => Turn::Send(frame@),
            Step::Again => Turn::Again,
            Step::Pause => Turn::Pause,
            Step::Done(result) => Turn::Done(result@),
            Step::Failed(error) => Turn::Failed(error@),
        }
    }
}

/// What a sound is to a master that waits for `node` to answer: only a frame
/// under the node's answer COB-ID is an answer, and the deadline passes for
/// anything else, be it another frame or nothing.
pub open spec fn listened(node: u8, sound: Sound) -> Turn<Exchange> {
    match sound {
        Sound::Frame { frame, late } => if frame.id == SERVER_BASE + node {
            match decoded(frame.data, false) {
                Ok(answer) => Turn::Done(answer),
                Err(fault) => Turn::Failed(fault),
            }
        } else if late {
            Turn::Failed(Fault::Silent)
        } else {
            Turn::Again
        },
        Sound::Nothing { late } => if late {
            Turn::Failed(Fault::Silent)
        } else {
            Turn::Pause
        },
    }
}

/// Wait for `node` to answer.
pub fn listen(node: u8, heard: Heard) -> (step: Step<Sdo>)
    ensures
        step@ == listened(node, heard@),
{
    match heard {
        Heard::Frame { frame, late } => {
            if frame.id == SERVER_BASE + node as u32 {
                match Sdo::decode(frame.data.as_slice(), false) {
                    Ok(answer) => Step::Done(answer),
                    Err(error) => Step::Failed(error),
                }
            } else if late {
                Step::Failed(Error::Silent)
            } else {
                Step::Again
            }
        },
        Heard::Nothing { late } => {
            if late {
                Step::Failed(Error::Silent)
            } else {
                Step::Pause
            }
        },
    }
}

/// The frame a request to `node` travels in.
pub open spec fn posted(node: u8, request: Exchange) -> Datagram {
    Datagram { id: (CLIENT_BASE + node) as u32, data: request.encoded() }
}

/// The frame that carries `request` to `node`.
pub fn post(node: u8, request: &Sdo) -> (frame: Frame)
    ensures
        frame@ == posted(node, request@),
{
    let bytes = request.encode();
    Frame { id: CLIENT_BASE + node as u32, data: slice_to_vec(bytes.as_slice()) }
}

/// What is wrong with an answer that was not asked for.
pub open spec fn refused(answer: Exchange) -> Fault {
    match answer {
        Exchange::Abort { code, .. } => Fault::Aborted(code),
        other => Fault::OutOfTurn(other),
    }
}

/// What is wrong with an answer that was not asked for.
pub fn unexpected(answer: Sdo) -> (error: Error)
    ensures
        error@ == refused(answer@),
{
    match answer {
        Sdo::Abort { code, .. } => Error::Aborted(code),
        other => Error::OutOfTurn(other),
    }
}

/// What the size field of an SDO says of a length, if it can.
pub fn size_field(length: usize) -> (result: Result<u32, Error>)
    ensures
        match result {
            Ok(size) => size == length,
            Err(error) => length > u32::MAX && error@ == Fault::Oversize,
        },
{
    if length as u64 > u32::MAX as u64 {
        return Err(Error::Oversize);
    }
    Ok(length as u32)
}

/// The mathematical value of a [`Download`].
#[verifier::ext_equal]
pub struct Writing {
    pub node: u8,
    pub index: u16,
    pub subindex: u8,
    pub bytes: Seq<u8>,
    /// Whether the node has accepted the download.
    pub opened: bool,
    /// How much the node has taken.
    pub at: nat,
    /// The toggle of the segment in flight.
    pub toggle: bool,
}

impl Writing {
    /// A download nothing has been sent of.
    pub open spec fn started(node: u8, index: u16, subindex: u8, bytes: Seq<u8>) -> Writing {
        Writing { node, index, subindex, bytes, opened: false, at: 0, toggle: false }
    }

    /// The size fits the size field, and no more is taken than there is.
    pub open spec fn well_formed(self) -> bool {
        &&& self.bytes.len() <= u32::MAX
        &&& self.at <= self.bytes.len()
    }

    /// One to four bytes go with the opening.
    pub open spec fn expedited(self) -> bool {
        1 <= self.bytes.len() <= EXPEDITED_DATA
    }

    /// Whether the segment in flight is the last.
    pub open spec fn last(self) -> bool {
        self.at + SEGMENT_DATA >= self.bytes.len()
    }

    /// The request in flight.
    pub open spec fn request(self) -> Exchange {
        if !self.opened {
            Exchange::InitiateDownload {
                index: self.index,
                subindex: self.subindex,
                expedited: if self.expedited() { Some(self.bytes) } else { None },
                size: self.bytes.len() as u32,
            }
        } else {
            let end = if self.last() { self.bytes.len() as int } else { self.at + SEGMENT_DATA };
            Exchange::DownloadSegment {
                toggle: self.toggle,
                data: self.bytes.subrange(self.at as int, end),
                last: self.last(),
            }
        }
    }

    /// The transfer once the opening is accepted.
    pub open spec fn accepted(self) -> Writing {
        Writing { opened: true, ..self }
    }

    /// The transfer once the segment in flight is taken.
    pub open spec fn advanced(self) -> Writing {
        Writing { at: self.at + SEGMENT_DATA as nat, toggle: !self.toggle, ..self }
    }

    /// What an answer makes of the transfer, and what to do next.
    pub open spec fn answered(self, answer: Exchange) -> (Writing, Turn<()>) {
        if !self.opened && answer is DownloadAccepted {
            if self.expedited() {
                (self, Turn::Done(()))
            } else {
                (self.accepted(), Turn::Send(posted(self.node, self.accepted().request())))
            }
        } else if self.opened && answer == (Exchange::SegmentAccepted { toggle: self.toggle }) {
            if self.last() {
                (self, Turn::Done(()))
            } else {
                (self.advanced(), Turn::Send(posted(self.node, self.advanced().request())))
            }
        } else {
            (self, Turn::Failed(refused(answer)))
        }
    }

    /// What a sound makes of the transfer, and what to do next.
    pub open spec fn heard(self, sound: Sound) -> (Writing, Turn<()>) {
        match listened(self.node, sound) {
            Turn::Done(answer) => self.answered(answer),
            Turn::Failed(fault) => (self, Turn::Failed(fault)),
            Turn::Pause => (self, Turn::Pause),
            _ => (self, Turn::Again),
        }
    }
}

/// A write of one object, expedited when it is one to four bytes and
/// segmented otherwise.
pub struct Download {
    node: u8,
    index: u16,
    subindex: u8,
    bytes: Vec<u8>,
    opened: bool,
    at: usize,
    toggle: bool,
}

impl View for Download {
    type V = Writing;

    closed spec fn view(&self) -> Writing {
        Writing {
            node: self.node,
            index: self.index,
            subindex: self.subindex,
            bytes: self.bytes@,
            opened: self.opened,
            at: self.at as nat,
            toggle: self.toggle,
        }
    }
}

impl Download {
    /// The write of `bytes` to `index:subindex` on `node`, refused when the
    /// size field of an SDO cannot say how many they are.
    pub fn new(node: u8, index: u16, subindex: u8, bytes: &[u8]) -> (result: Result<
        Download,
        Error,
    >)
        ensures
            match result {
                Ok(download) => {
                    &&& bytes@.len() <= u32::MAX
                    &&& download@ == Writing::started(node, index, subindex, bytes@)
                    &&& download@.well_formed()
                },
                Err(error) => bytes@.len() > u32::MAX && error@ == Fault::Oversize,
            },
    {
        if let Err(error) = size_field(bytes.len()) {
            return Err(error);
        }
        Ok(
            Download {
                node,
                index,
                subindex,
                bytes: slice_to_vec(bytes),
                opened: false,
                at: 0,
                toggle: false,
            },
        )
    }

    /// The request in flight, or to be sent first.
    pub fn request(&self) -> (request: Sdo)
        requires
            self@.well_formed(),
        ensures
            request@ == self@.request(),
    {
        if !self.opened {
            let expedited = if !self.bytes.is_empty() && self.bytes.len() <= EXPEDITED_DATA {
                Some(slice_to_vec(self.bytes.as_slice()))
            } else {
                None
            };
            Sdo::InitiateDownload {
                index: self.index,
                subindex: self.subindex,
                expedited,
                size: self.bytes.len() as u32,
            }
        } else {
            let last = self.bytes.len() - self.at <= SEGMENT_DATA;
            let end: usize = if last { self.bytes.len() } else { self.at + SEGMENT_DATA };
            let data = slice_to_vec(slice_subrange(self.bytes.as_slice(), self.at, end));
            Sdo::DownloadSegment { toggle: self.toggle, data, last }
        }
    }

    /// The frame that carries the request in flight.
    pub fn frame(&self) -> (frame: Frame)
        requires
            self@.well_formed(),
        ensures
            frame@ == posted(self@.node, self@.request()),
    {
        post(self.node, &self.request())
    }

    /// Take an answer to the request in flight.
    pub fn answer(&mut self, answer: Sdo) -> (step: Step<()>)
        requires
            old(self)@.well_formed(),
        ensures
            (final(self)@, step@) == old(self)@.answered(answer@),
            final(self)@.well_formed(),
    {
        if !self.opened {
            match answer {
                Sdo::DownloadAccepted { .. } => {
                    if !self.bytes.is_empty() && self.bytes.len() <= EXPEDITED_DATA {
                        return Step::Done(());
                    }
                    self.opened = true;
                },
                other => {
                    return Step::Failed(unexpected(other));
                },
            }
        } else {
            match answer {
                Sdo::SegmentAccepted { toggle } => {
                    if toggle != self.toggle {
                        return Step::Failed(unexpected(Sdo::SegmentAccepted { toggle }));
                    }
                    if self.bytes.len() - self.at <= SEGMENT_DATA {
                        return Step::Done(());
                    }
                    self.at = self.at + SEGMENT_DATA;
                    self.toggle = !self.toggle;
                },
                other => {
                    return Step::Failed(unexpected(other));
                },
            }
        }
        Step::Send(self.frame())
    }

    /// Take what the bus gave.
    pub fn hear(&mut self, heard: Heard) -> (step: Step<()>)
        requires
            old(self)@.well_formed(),
        ensures
            (final(self)@, step@) == old(self)@.heard(heard@),
            final(self)@.well_formed(),
    {
        match listen(self.node, heard) {
            Step::Done(answer) => self.answer(answer),
            Step::Failed(error) => Step::Failed(error),
            Step::Pause => Step::Pause,
            _ => Step::Again,
        }
    }
}

/// The mathematical value of an [`Upload`].
#[verifier::ext_equal]
pub struct Reading {
    pub node: u8,
    pub index: u16,
    pub subindex: u8,
    /// Whether the node has opened a segmented upload.
    pub opened: bool,
    /// What has come so far.
    pub bytes: Seq<u8>,
    /// The toggle of the segment asked for.
    pub toggle: bool,
}

impl Reading {
    /// An upload nothing has been asked of.
    pub open spec fn started(node: u8, index: u16, subindex: u8) -> Reading {
        Reading { node, index, subindex, opened: false, bytes: seq![], toggle: false }
    }

    /// The request in flight.
    pub open spec fn request(self) -> Exchange {
        if !self.opened {
            Exchange::InitiateUpload { index: self.index, subindex: self.subindex }
        } else {
            Exchange::UploadSegment { toggle: self.toggle }
        }
    }

    /// The transfer once a segmented upload is opened.
    pub open spec fn accepted(self) -> Reading {
        Reading { opened: true, ..self }
    }

    /// The transfer once the segment asked for has come.
    pub open spec fn advanced(self, data: Seq<u8>) -> Reading {
        Reading { bytes: self.bytes + data, toggle: !self.toggle, ..self }
    }

    /// What an answer makes of the transfer, and what to do next.
    pub open spec fn answered(self, answer: Exchange) -> (Reading, Turn<Seq<u8>>) {
        match answer {
            Exchange::UploadOpened { expedited, .. } if !self.opened => match expedited {
                Some(data) => (self, Turn::Done(data)),
                None => (
                    self.accepted(),
                    Turn::Send(posted(self.node, self.accepted().request())),
                ),
            },
            Exchange::UploadData { toggle, data, last } if self.opened && toggle == self.toggle => {
                let next = self.advanced(data);
                if last {
                    (next, Turn::Done(next.bytes))
                } else {
                    (next, Turn::Send(posted(self.node, next.request())))
                }
            },
            other => (self, Turn::Failed(refused(other))),
        }
    }

    /// What a sound makes of the transfer, and what to do next.
    pub open spec fn heard(self, sound: Sound) -> (Reading, Turn<Seq<u8>>) {
        match listened(self.node, sound) {
            Turn::Done(answer) => self.answered(answer),
            Turn::Failed(fault) => (self, Turn::Failed(fault)),
            Turn::Pause => (self, Turn::Pause),
            _ => (self, Turn::Again),
        }
    }
}

/// A read of one object, however the node chooses to send it.
pub struct Upload {
    node: u8,
    index: u16,
    subindex: u8,
    opened: bool,
    bytes: Vec<u8>,
    toggle: bool,
}

impl View for Upload {
    type V = Reading;

    closed spec fn view(&self) -> Reading {
        Reading {
            node: self.node,
            index: self.index,
            subindex: self.subindex,
            opened: self.opened,
            bytes: self.bytes@,
            toggle: self.toggle,
        }
    }
}

impl Upload {
    /// The read of `index:subindex` from `node`.
    pub fn new(node: u8, index: u16, subindex: u8) -> (upload: Upload)
        ensures
            upload@ == Reading::started(node, index, subindex),
    {
        Upload { node, index, subindex, opened: false, bytes: Vec::new(), toggle: false }
    }

    /// The request in flight, or to be sent first.
    pub fn request(&self) -> (request: Sdo)
        ensures
            request@ == self@.request(),
    {
        if !self.opened {
            Sdo::InitiateUpload { index: self.index, subindex: self.subindex }
        } else {
            Sdo::UploadSegment { toggle: self.toggle }
        }
    }

    /// The frame that carries the request in flight.
    pub fn frame(&self) -> (frame: Frame)
        ensures
            frame@ == posted(self@.node, self@.request()),
    {
        post(self.node, &self.request())
    }

    /// Take an answer to the request in flight.
    pub fn answer(&mut self, answer: Sdo) -> (step: Step<Vec<u8>>)
        ensures
            (final(self)@, step@) == old(self)@.answered(answer@),
    {
        if !self.opened {
            match answer {
                Sdo::UploadOpened { expedited, .. } => match expedited {
                    Some(data) => {
                        return Step::Done(data);
                    },
                    None => {
                        self.opened = true;
                    },
                },
                other => {
                    return Step::Failed(unexpected(other));
                },
            }
        } else {
            match answer {
                Sdo::UploadData { toggle, data, last } => {
                    if toggle != self.toggle {
                        return Step::Failed(unexpected(Sdo::UploadData { toggle, data, last }));
                    }
                    self.bytes.extend_from_slice(data.as_slice());
                    self.toggle = !self.toggle;
                    assert(self.bytes@ =~= old(self)@.bytes + data@);
                    if last {
                        return Step::Done(slice_to_vec(self.bytes.as_slice()));
                    }
                },
                other => {
                    return Step::Failed(unexpected(other));
                },
            }
        }
        Step::Send(self.frame())
    }

    /// Take what the bus gave.
    pub fn hear(&mut self, heard: Heard) -> (step: Step<Vec<u8>>)
        ensures
            (final(self)@, step@) == old(self)@.heard(heard@),
    {
        match listen(self.node, heard) {
            Step::Done(answer) => self.answer(answer),
            Step::Failed(error) => Step::Failed(error),
            Step::Pause => Step::Pause,
            _ => Step::Again,
        }
    }
}

/// The `k`th segment of a segmented write: seven bytes from seven times `k`
/// on, or what is left, under a toggle that alternates from clear.
pub open spec fn nth_segment(bytes: Seq<u8>, k: nat) -> Exchange {
    let start = SEGMENT_DATA * k;
    let last = start + SEGMENT_DATA >= bytes.len();
    let end = if last { bytes.len() as int } else { start + SEGMENT_DATA };
    Exchange::DownloadSegment { toggle: k % 2 == 1, data: bytes.subrange(start, end), last }
}

/// A segmented write with `k` segments taken.
pub open spec fn nth_writing(writing: Writing, k: nat) -> Writing {
    Writing { opened: true, at: (SEGMENT_DATA * k) as nat, toggle: k % 2 == 1, ..writing }
}

/// A write of one to four bytes is one request, which carries them.
pub proof fn law_short_write_is_one_request(
    node: u8,
    index: u16,
    subindex: u8,
    bytes: Seq<u8>,
    accepted: (u16, u8),
)
    requires
        1 <= bytes.len() <= EXPEDITED_DATA,
    ensures
        ({
            let writing = Writing::started(node, index, subindex, bytes);
            let answer = Exchange::DownloadAccepted { index: accepted.0, subindex: accepted.1 };
            &&& writing.request() == Exchange::InitiateDownload {
                index,
                subindex,
                expedited: Some(bytes),
                size: bytes.len() as u32,
            }
            &&& writing.answered(answer).1 == Turn::Done(())
        }),
{
}

/// Any other write says its size first, then goes seven bytes to a segment:
/// the `k`th segment follows the `k`th acceptance, toggles alternate, the last
/// segment is marked, and with its acceptance the write is done. Put together
/// the segments are the bytes.
#[verifier::rlimit(40)]
pub proof fn law_long_write_goes_in_segments(
    node: u8,
    index: u16,
    subindex: u8,
    bytes: Seq<u8>,
    accepted: (u16, u8),
    k: nat,
)
    requires
        bytes.len() == 0 || bytes.len() > EXPEDITED_DATA,
        k == 0 || SEGMENT_DATA * k < bytes.len(),
    ensures
        ({
            let writing = Writing::started(node, index, subindex, bytes);
            let answer = Exchange::DownloadAccepted { index: accepted.0, subindex: accepted.1 };
            let segment = nth_segment(bytes, k);
            let taken = Exchange::SegmentAccepted { toggle: k % 2 == 1 };
            let next = nth_writing(writing, k + 1);
            &&& writing.request() == Exchange::InitiateDownload {
                index,
                subindex,
                expedited: None,
                size: bytes.len() as u32,
            }
            &&& writing.answered(answer).0 == nth_writing(writing, 0)
            &&& nth_writing(writing, k).request() == segment
            &&& nth_writing(writing, k).answered(taken) == (if segment->DownloadSegment_last {
                (nth_writing(writing, k), Turn::Done(()))
            } else {
                (next, Turn::Send(posted(node, next.request())))
            })
            &&& bytes.take((SEGMENT_DATA * k) as int) + segment->DownloadSegment_data == (
            if segment->DownloadSegment_last {
                bytes
            } else {
                bytes.take((SEGMENT_DATA * (k + 1)) as int)
            })
            &&& segment->DownloadSegment_data.len() <= SEGMENT_DATA
        }),
{
    let writing = Writing::started(node, index, subindex, bytes);
    let segment = nth_segment(bytes, k);
    assert(bytes.take((SEGMENT_DATA * k) as int) + segment->DownloadSegment_data =~= (
    if segment->DownloadSegment_last {
        bytes
    } else {
        bytes.take((SEGMENT_DATA * (k + 1)) as int)
    }));
    assert(nth_writing(writing, k).advanced() == nth_writing(writing, k + 1));
}

/// A segmented read with `k` segments come.
pub open spec fn nth_reading(reading: Reading, bytes: Seq<u8>, k: nat) -> Reading {
    Reading { opened: true, bytes, toggle: k % 2 == 1, ..reading }
}

/// A read that the node opens without data asks for one segment after the
/// other under toggles that alternate from clear, puts each behind what has
/// come before, and is done with the one that is marked as the last.
pub proof fn law_long_read_asks_for_segments(
    node: u8,
    index: u16,
    subindex: u8,
    opened: (u16, u8, u32),
    k: nat,
    bytes: Seq<u8>,
    data: Seq<u8>,
    last: bool,
)
    ensures
        ({
            let reading = Reading::started(node, index, subindex);
            let answer = Exchange::UploadOpened {
                index: opened.0,
                subindex: opened.1,
                expedited: None,
                size: opened.2,
            };
            let first = nth_reading(reading, seq![], 0);
            let before = nth_reading(reading, bytes, k);
            let after = nth_reading(reading, bytes + data, k + 1);
            let segment = Exchange::UploadData { toggle: k % 2 == 1, data, last };
            &&& reading.request() == Exchange::InitiateUpload { index, subindex }
            &&& reading.answered(answer) == (
                first,
                Turn::<Seq<u8>>::Send(posted(node, first.request())),
            )
            &&& before.request() == Exchange::UploadSegment { toggle: k % 2 == 1 }
            &&& before.answered(segment) == (after, if last {
                Turn::Done(bytes + data)
            } else {
                Turn::Send(posted(node, after.request()))
            })
        }),
{
}

/// Everything a transfer asks can be said in eight bytes, as a request.
pub proof fn law_requests_can_be_said(writing: Writing, reading: Reading)
    requires
        writing.well_formed(),
    ensures
        writing.request().well_formed(),
        writing.request().travels(true),
        reading.request().well_formed(),
        reading.request().travels(true),
{
}

/// A node's abort ends a transfer with its reason, whenever it comes.
pub proof fn law_abort_fails_a_transfer(
    writing: Writing,
    reading: Reading,
    index: u16,
    subindex: u8,
    code: u32,
)
    ensures
        writing.answered(Exchange::Abort { index, subindex, code }) == (
            writing,
            Turn::<()>::Failed(Fault::Aborted(code)),
        ),
        reading.answered(Exchange::Abort { index, subindex, code }) == (
            reading,
            Turn::<Seq<u8>>::Failed(Fault::Aborted(code)),
        ),
{
}

/// A segment answered under the other toggle is out of turn.
pub proof fn law_wrong_toggle_is_out_of_turn(
    writing: Writing,
    reading: Reading,
    data: Seq<u8>,
    last: bool,
)
    ensures
        writing.answered(Exchange::SegmentAccepted { toggle: !writing.toggle }).1 == Turn::<
            (),
        >::Failed(
            Fault::OutOfTurn(Exchange::SegmentAccepted { toggle: !writing.toggle }),
        ),
        reading.answered(Exchange::UploadData { toggle: !reading.toggle, data, last }).1
            == Turn::<Seq<u8>>::Failed(
            Fault::OutOfTurn(Exchange::UploadData { toggle: !reading.toggle, data, last }),
        ),
{
}

/// Until the deadline a frame that is not the node's answer leaves a transfer
/// as it was and waiting, and so does silence. Once it has come either one
/// fails the transfer: a node that stops answering is given up on, however
/// busy the bus.
pub proof fn law_waiting(writing: Writing, reading: Reading, frame: Datagram)
    requires
        frame.id != SERVER_BASE + writing.node,
        frame.id != SERVER_BASE + reading.node,
    ensures
        writing.heard(Sound::Frame { frame, late: false }) == (writing, Turn::<()>::Again),
        reading.heard(Sound::Frame { frame, late: false }) == (reading, Turn::<Seq<u8>>::Again),
        writing.heard(Sound::Frame { frame, late: true }) == (
            writing,
            Turn::<()>::Failed(Fault::Silent),
        ),
        reading.heard(Sound::Frame { frame, late: true }) == (
            reading,
            Turn::<Seq<u8>>::Failed(Fault::Silent),
        ),
        writing.heard(Sound::Nothing { late: false }) == (writing, Turn::<()>::Pause),
        reading.heard(Sound::Nothing { late: false }) == (reading, Turn::<Seq<u8>>::Pause),
        writing.heard(Sound::Nothing { late: true }) == (
            writing,
            Turn::<()>::Failed(Fault::Silent),
        ),
        reading.heard(Sound::Nothing { late: true }) == (
            reading,
            Turn::<Seq<u8>>::Failed(Fault::Silent),
        ),
{
}

/// What is heard, and what to do about it, keeps what it says.
pub proof fn law_sounds_and_steps_keep_what_they_say<T: View>(heard: Heard, step: Step<T>)
    ensures
        match heard {
            Heard::Frame { frame, late } => heard@ == (Sound::Frame { frame: frame@, late }),
            Heard::Nothing { late } => heard@ == (Sound::Nothing { late }),
        },
        match step {
            Step::Send(frame) => step@ == Turn::<T::V>::Send(frame@),
            Step::Again => step@ == Turn::<T::V>::Again,
            Step::Pause => step@ == Turn::<T::V>::Pause,
            Step::Done(result) => step@ == Turn::<T::V>::Done(result@),
            Step::Failed(error) => step@ == Turn::<T::V>::Failed(error@),
        },
{
}

/// A request to a node goes under `0x600` plus the node and can be read there
/// as what it is.
pub proof fn law_request_travels_to_its_node(node: u8, request: Exchange)
    ensures
        posted(node, request).id == 0x600 + node,
        posted(node, request).data == request.encoded(),
        request.well_formed() && request.travels(true) ==> decoded(posted(node, request).data, true)
            == Ok::<Exchange, Fault>(request),
{
    if request.well_formed() && request.travels(true) {
        crate::sdo::law_decode_undoes_encode(request, true);
    }
}

/// To one who waits for a node, a frame under `0x580` plus the node is the
/// answer that its bytes say, or fails for what is wrong with them, on time or
/// not. Anything else is nothing until the deadline, and silence from then on.
pub proof fn law_only_the_nodes_answer_counts(node: u8, frame: Datagram, late: bool)
    ensures
        frame.id == 0x580 + node ==> match decoded(frame.data, false) {
            Ok(answer) => listened(node, Sound::Frame { frame, late }) == Turn::Done(answer),
            Err(fault) => listened(node, Sound::Frame { frame, late }) == Turn::<Exchange>::Failed(
                fault,
            ),
        },
        frame.id != 0x580 + node && !late ==> listened(node, Sound::Frame { frame, late })
            == Turn::<Exchange>::Again,
        !late ==> listened(node, Sound::Nothing { late }) == Turn::<Exchange>::Pause,
        frame.id != 0x580 + node && late ==> listened(node, Sound::Frame { frame, late })
            == Turn::<Exchange>::Failed(Fault::Silent),
        late ==> listened(node, Sound::Nothing { late }) == Turn::<Exchange>::Failed(Fault::Silent),
{
}

/// An answer that comes in a frame from the node makes of a transfer exactly
/// what the answer makes of it, on time or not.
pub proof fn law_heard_is_answered(
    writing: Writing,
    reading: Reading,
    answer: Exchange,
    late: bool,
)
    requires
        answer.well_formed(),
        answer.travels(false),
    ensures
        writing.heard(
            Sound::Frame {
                frame: Datagram { id: (0x580 + writing.node) as u32, data: answer.encoded() },
                late,
            },
        ) == writing.answered(answer),
        reading.heard(
            Sound::Frame {
                frame: Datagram { id: (0x580 + reading.node) as u32, data: answer.encoded() },
                late,
            },
        ) == reading.answered(answer),
{
    crate::sdo::law_decode_undoes_encode(answer, false);
}

/// Whatever bytes come in a frame from the node, they make of a transfer what
/// the answer that they say makes of it. Bytes that say none fail it for what
/// is wrong with them and leave it as it was.
pub proof fn law_heard_bytes_are_answered(
    writing: Writing,
    reading: Reading,
    data: Seq<u8>,
    late: bool,
)
    ensures
        ({
            let written = writing.heard(
                Sound::Frame { frame: Datagram { id: (0x580 + writing.node) as u32, data }, late },
            );
            let read = reading.heard(
                Sound::Frame { frame: Datagram { id: (0x580 + reading.node) as u32, data }, late },
            );
            match decoded(data, false) {
                Ok(answer) => written == writing.answered(answer) && read == reading.answered(
                    answer,
                ),
                Err(fault) => written == (writing, Turn::<()>::Failed(fault)) && read == (
                    reading,
                    Turn::<Seq<u8>>::Failed(fault),
                ),
            }
        }),
{
}

/// What is wrong with an answer that was not asked for is the code it aborts
/// with, or the whole answer.
pub proof fn law_refusal_says_why(answer: Exchange)
    ensures
        answer matches Exchange::Abort { code, .. } ==> refused(answer) == Fault::Aborted(code),
        !(answer is Abort) ==> refused(answer) == Fault::OutOfTurn(answer),
{
}

/// The only answer that opens a write is that it is accepted, and the only one
/// that takes a segment is that it is, under the segment's toggle. The only
/// answer that opens a read is that it is opened, and the only one that brings
/// a segment is the segment, under the toggle asked for. Every other answer
/// leaves the transfer as it was and fails it: out of turn, or aborted.
pub proof fn law_other_answers_fail_a_transfer(
    writing: Writing,
    reading: Reading,
    answer: Exchange,
)
    ensures
        (if writing.opened {
            answer != (Exchange::SegmentAccepted { toggle: writing.toggle })
        } else {
            !(answer is DownloadAccepted)
        }) ==> {
            let (after, turn) = writing.answered(answer);
            &&& after == writing
            &&& match answer {
                Exchange::Abort { code, .. } => turn == Turn::<()>::Failed(Fault::Aborted(code)),
                _ => turn == Turn::<()>::Failed(Fault::OutOfTurn(answer)),
            }
        },
        (if reading.opened {
            !(answer is UploadData && answer->UploadData_toggle == reading.toggle)
        } else {
            !(answer is UploadOpened)
        }) ==> {
            let (after, turn) = reading.answered(answer);
            &&& after == reading
            &&& match answer {
                Exchange::Abort { code, .. } => turn == Turn::<Seq<u8>>::Failed(
                    Fault::Aborted(code),
                ),
                _ => turn == Turn::<Seq<u8>>::Failed(Fault::OutOfTurn(answer)),
            }
        },
{
}

/// A read that hears its data with the opening is done with exactly that data,
/// however much it is and whatever size it is said to have.
pub proof fn law_short_read_is_one_answer(
    node: u8,
    index: u16,
    subindex: u8,
    opened: (u16, u8, u32),
    data: Seq<u8>,
    late: bool,
)
    ensures
        ({
            let reading = Reading::started(node, index, subindex);
            let answer = Exchange::UploadOpened {
                index: opened.0,
                subindex: opened.1,
                expedited: Some(data),
                size: opened.2,
            };
            let frame = Datagram { id: (0x580 + node) as u32, data: answer.encoded() };
            &&& reading.request() == Exchange::InitiateUpload { index, subindex }
            &&& reading.answered(answer) == (reading, Turn::Done(data))
            &&& 1 <= data.len() <= 4 && opened.2 == data.len() ==> reading.heard(
                Sound::Frame { frame, late },
            ) == (reading, Turn::Done(data))
        }),
{
    if 1 <= data.len() <= 4 && opened.2 == data.len() {
        law_heard_is_answered(
            Writing::started(node, index, subindex, data),
            Reading::started(node, index, subindex),
            Exchange::UploadOpened {
                index: opened.0,
                subindex: opened.1,
                expedited: Some(data),
                size: opened.2,
            },
            late,
        );
    }
}

/// The write after it has heard these sounds, and the frames it has
/// transmitted by then, the first request among them.
pub open spec fn driven(writing: Writing, sounds: Seq<Sound>) -> (Writing, Seq<Datagram>)
    decreases sounds.len(),
{
    if sounds.len() == 0 {
        (writing, seq![posted(writing.node, writing.request())])
    } else {
        let (before, frames) = driven(writing, sounds.drop_last());
        match before.heard(sounds.last()) {
            (after, Turn::Send(frame)) => (after, frames.push(frame)),
            (after, _) => (after, frames),
        }
    }
}

/// The data of the segments behind the first frame, put together.
pub open spec fn conveyed(frames: Seq<Datagram>) -> Seq<u8>
    decreases frames.len(),
{
    if frames.len() <= 1 {
        seq![]
    } else {
        conveyed(frames.drop_last()) + (match decoded(frames.last().data, true) {
            Ok(Exchange::DownloadSegment { data, .. }) => data,
            _ => seq![],
        })
    }
}

proof fn lemma_driven(
    node: u8,
    index: u16,
    subindex: u8,
    bytes: Seq<u8>,
    sounds: Seq<Sound>,
)
    requires
        bytes.len() <= u32::MAX,
    ensures
        ({
            let writing = Writing::started(node, index, subindex, bytes);
            let (after, frames) = driven(writing, sounds);
            &&& frames.len() >= 1
            &&& frames[0] == posted(node, writing.request())
            &&& frames.len() == 1 ==> after == writing
            &&& frames.len() >= 2 ==> {
                &&& !writing.expedited()
                &&& after == nth_writing(writing, (frames.len() - 2) as nat)
                &&& frames.len() > 2 ==> SEGMENT_DATA * (frames.len() - 2) < bytes.len()
            }
            &&& forall|i: int|
                1 <= i < frames.len() ==> #[trigger] frames[i] == posted(
                    node,
                    nth_segment(bytes, (i - 1) as nat),
                )
        }),
    decreases sounds.len(),
{
    let writing = Writing::started(node, index, subindex, bytes);
    if sounds.len() > 0 {
        lemma_driven(node, index, subindex, bytes, sounds.drop_last());
        let (before, frames) = driven(writing, sounds.drop_last());
        let answer = (match listened(node, sounds.last()) {
            Turn::Done(answer) => answer,
            _ => Exchange::Abort { index, subindex, code: 0 },
        });
        if before.answered(answer).1 is Send {
            if frames.len() == 1 {
                law_long_write_goes_in_segments(node, index, subindex, bytes, (0, 0), 0);
            } else {
                let k = (frames.len() - 2) as nat;
                law_long_write_goes_in_segments(node, index, subindex, bytes, (0, 0), k);
                law_long_write_goes_in_segments(node, index, subindex, bytes, (0, 0), k + 1);
            }
        }
    }
}

proof fn lemma_conveyed(node: u8, bytes: Seq<u8>, frames: Seq<Datagram>)
    requires
        frames.len() >= 1,
        frames.len() > 2 ==> SEGMENT_DATA * (frames.len() - 2) < bytes.len(),
        forall|i: int|
            1 <= i < frames.len() ==> #[trigger] frames[i] == posted(
                node,
                nth_segment(bytes, (i - 1) as nat),
            ),
    ensures
        conveyed(frames) == (if SEGMENT_DATA * (frames.len() - 1) >= bytes.len() {
            bytes
        } else {
            bytes.take(SEGMENT_DATA * (frames.len() - 1))
        }),
    decreases frames.len(),
{
    if frames.len() == 1 {
        assert(conveyed(frames) =~= bytes.take(0));
        if bytes.len() == 0 {
            assert(bytes =~= seq![]);
        }
    } else {
        let k = (frames.len() - 2) as nat;
        let front = frames.drop_last();
        assert forall|i: int| 1 <= i < front.len() implies #[trigger] front[i] == posted(
            node,
            nth_segment(bytes, (i - 1) as nat),
        ) by {
            assert(front[i] == frames[i]);
        }
        lemma_conveyed(node, bytes, front);
        assert(frames[frames.len() - 1] == posted(node, nth_segment(bytes, k)));
        crate::sdo::law_decode_undoes_encode(nth_segment(bytes, k), true);
        let data = nth_segment(bytes, k)->DownloadSegment_data;
        assert(conveyed(frames) =~= (if SEGMENT_DATA * (frames.len() - 1) >= bytes.len() {
            bytes
        } else {
            bytes.take(SEGMENT_DATA * (frames.len() - 1))
        }));
    }
}

/// Whether a frame is the `i`th of `count` that a segmented write sends, the
/// opening counted: a segment, under a toggle that alternates from clear, of
/// seven bytes unless it is the last, and marked exactly if it is.
pub open spec fn is_segment_sent(frame: Datagram, i: int, count: nat) -> bool {
    match decoded(frame.data, true) {
        Ok(Exchange::DownloadSegment { toggle, data, last }) => {
            &&& toggle <==> i % 2 == 0
            &&& last <==> i == count - 1
            &&& !last ==> data.len() == 7
        },
        _ => false,
    }
}

/// Whether what is heard is the acceptance, by the node, of the last of
/// `count` frames: of the opening if it is the only one, and else of a segment
/// under its toggle.
pub open spec fn is_acceptance(sound: Sound, node: u8, count: nat) -> bool {
    match sound {
        Sound::Frame { frame, .. } => frame.id == 0x580 + node && match decoded(frame.data, false) {
            Ok(Exchange::DownloadAccepted { .. }) => count == 1,
            Ok(Exchange::SegmentAccepted { toggle }) => count > 1 && (toggle <==> count % 2 == 1),
            _ => false,
        },
        Sound::Nothing { .. } => false,
    }
}

proof fn lemma_segment_said(node: u8, bytes: Seq<u8>, i: int, count: nat)
    requires
        1 <= i < count,
        count > 2 ==> SEGMENT_DATA * (count - 2) < bytes.len(),
        SEGMENT_DATA * (count - 1) >= bytes.len(),
    ensures
        is_segment_sent(posted(node, nth_segment(bytes, (i - 1) as nat)), i, count),
{
    crate::sdo::law_decode_undoes_encode(nth_segment(bytes, (i - 1) as nat), true);
}

proof fn lemma_opening_said(writing: Writing)
    requires
        writing.well_formed(),
        !writing.opened,
    ensures
        decoded(posted(writing.node, writing.request()).data, true) == Ok::<Exchange, Fault>(
            Exchange::InitiateDownload {
                index: writing.index,
                subindex: writing.subindex,
                expedited: if 1 <= writing.bytes.len() <= 4 { Some(writing.bytes) } else { None },
                size: writing.bytes.len() as u32,
            },
        ),
{
    crate::sdo::law_decode_undoes_encode(writing.request(), true);
}

proof fn lemma_done(writing: Writing, before: Writing, count: nat, sound: Sound)
    requires
        !writing.opened,
        count >= 1,
        count == 1 ==> before == writing,
        count >= 2 ==> before == nth_writing(writing, (count - 2) as nat),
        before.heard(sound).1 is Done,
    ensures
        is_acceptance(sound, writing.node, count),
        count == 1 ==> writing.expedited(),
        count >= 2 ==> SEGMENT_DATA * (count - 1) >= writing.bytes.len(),
{
}

/// Whatever a write has heard, when it is done all of the bytes have been
/// sent and accepted. Every frame went to the node. One to four bytes went
/// with the opening. Any other number went in segments behind it, under
/// toggles that alternate from clear, seven bytes in all but the last, the
/// last one and no other marked, and put together they are the bytes. What it
/// heard last was the node's acceptance: of the opening, or of the segment
/// marked last under its toggle.
pub proof fn law_done_write_has_sent_everything(
    node: u8,
    index: u16,
    subindex: u8,
    bytes: Seq<u8>,
    sounds: Seq<Sound>,
    sound: Sound,
)
    requires
        bytes.len() <= u32::MAX,
        driven(Writing::started(node, index, subindex, bytes), sounds).0.heard(sound).1 is Done,
    ensures
        ({
            let (before, frames) = driven(Writing::started(node, index, subindex, bytes), sounds);
            let short = 1 <= bytes.len() <= 4;
            &&& frames.len() >= 1
            &&& forall|i: int| 0 <= i < frames.len() ==> (#[trigger] frames[i]).id == 0x600 + node
            &&& decoded(frames[0].data, true) == Ok::<Exchange, Fault>(
                Exchange::InitiateDownload {
                    index,
                    subindex,
                    expedited: if short { Some(bytes) } else { None },
                    size: bytes.len() as u32,
                },
            )
            &&& short <==> frames.len() == 1
            &&& !short ==> conveyed(frames) == bytes
            &&& forall|i: int|
                1 <= i < frames.len() ==> #[trigger] is_segment_sent(frames[i], i, frames.len())
            &&& is_acceptance(sound, node, frames.len())
        }),
{
    let writing = Writing::started(node, index, subindex, bytes);
    let (before, frames) = driven(writing, sounds);
    lemma_driven(node, index, subindex, bytes, sounds);
    lemma_done(writing, before, frames.len(), sound);
    lemma_opening_said(writing);
    if frames.len() >= 2 {
        lemma_conveyed(node, bytes, frames);
    }
    assert forall|i: int| 1 <= i < frames.len() implies #[trigger] is_segment_sent(
        frames[i],
        i,
        frames.len(),
    ) by {
        lemma_segment_said(node, bytes, i, frames.len());
    }
}

/// A write whose requests the node accepts, each in a frame of its own, goes
/// on until all is sent and then is done: the acceptance of the opening sends
/// the first segment, or ends a write of one to four bytes, and the acceptance
/// of the `k`th segment sends the one behind it, or ends the write if there is
/// nothing behind it.
pub proof fn law_accepted_write_goes_on(
    node: u8,
    index: u16,
    subindex: u8,
    bytes: Seq<u8>,
    accepted: (u16, u8),
    k: nat,
    late: bool,
)
    requires
        bytes.len() <= u32::MAX,
        k == 0 || 7 * k < bytes.len(),
    ensures
        ({
            let writing = Writing::started(node, index, subindex, bytes);
            let opening = Exchange::DownloadAccepted { index: accepted.0, subindex: accepted.1 };
            let taken = Exchange::SegmentAccepted { toggle: k % 2 == 1 };
            let id = (0x580 + node) as u32;
            let opened = writing.heard(
                Sound::Frame { frame: Datagram { id, data: opening.encoded() }, late },
            );
            let gone_on = nth_writing(writing, k).heard(
                Sound::Frame { frame: Datagram { id, data: taken.encoded() }, late },
            );
            if 1 <= bytes.len() <= 4 {
                opened.1 == Turn::Done(())
            } else {
                &&& opened.0 == nth_writing(writing, 0)
                &&& opened.1 == Turn::<()>::Send(posted(node, nth_segment(bytes, 0)))
                &&& 7 * (k + 1) < bytes.len() ==> gone_on == (
                    nth_writing(writing, k + 1),
                    Turn::<()>::Send(posted(node, nth_segment(bytes, k + 1))),
                )
                &&& 7 * (k + 1) >= bytes.len() ==> gone_on.1 == Turn::Done(())
            }
        }),
{
    let writing = Writing::started(node, index, subindex, bytes);
    let reading = Reading::started(node, index, subindex);
    let opening = Exchange::DownloadAccepted { index: accepted.0, subindex: accepted.1 };
    let taken = Exchange::SegmentAccepted { toggle: k % 2 == 1 };
    law_heard_is_answered(writing, reading, opening, late);
    law_heard_is_answered(nth_writing(writing, k), reading, taken, late);
    if !(1 <= bytes.len() <= 4) {
        law_long_write_goes_in_segments(node, index, subindex, bytes, accepted, 0);
        law_long_write_goes_in_segments(node, index, subindex, bytes, accepted, k);
        if 7 * (k + 1) < bytes.len() {
            law_long_write_goes_in_segments(node, index, subindex, bytes, accepted, k + 1);
        }
    }
}

/// The read after it has heard these sounds, if none of them has ended it.
pub open spec fn read_driven(reading: Reading, sounds: Seq<Sound>) -> Option<Reading>
    decreases sounds.len(),
{
    if sounds.len() == 0 {
        Some(reading)
    } else {
        match read_driven(reading, sounds.drop_last()) {
            None => None,
            Some(before) => match before.heard(sounds.last()) {
                (_, Turn::Done(_)) => None,
                (_, Turn::Failed(_)) => None,
                (after, _) => Some(after),
            },
        }
    }
}

/// The data of the segments that came from a node, put together.
pub open spec fn brought(node: u8, sounds: Seq<Sound>) -> Seq<u8>
    decreases sounds.len(),
{
    if sounds.len() == 0 {
        seq![]
    } else {
        brought(node, sounds.drop_last()) + (match sounds.last() {
            Sound::Frame { frame, .. } => if frame.id == 0x580 + node {
                match decoded(frame.data, false) {
                    Ok(Exchange::UploadData { data, .. }) => data,
                    _ => seq![],
                }
            } else {
                seq![]
            },
            Sound::Nothing { .. } => seq![],
        })
    }
}

proof fn lemma_read_driven(node: u8, index: u16, subindex: u8, sounds: Seq<Sound>)
    ensures
        read_driven(Reading::started(node, index, subindex), sounds) matches Some(after) ==> {
            &&& after.node == node
            &&& after.bytes == brought(node, sounds)
            &&& !after.opened ==> after == Reading::started(node, index, subindex)
        },
    decreases sounds.len(),
{
    if sounds.len() > 0 {
        lemma_read_driven(node, index, subindex, sounds.drop_last());
        if let Some(after) = read_driven(Reading::started(node, index, subindex), sounds) {
            assert(after.bytes =~= brought(node, sounds));
        }
    }
}

/// Whatever a read has heard, when it is done its bytes are what came from the
/// node: the data of the opening, or the data of all the segments put together
/// in the order in which they came, the last of them marked.
pub proof fn law_done_read_gives_what_came(
    node: u8,
    index: u16,
    subindex: u8,
    sounds: Seq<Sound>,
    sound: Sound,
)
    requires
        read_driven(Reading::started(node, index, subindex), sounds) is Some,
    ensures
        read_driven(Reading::started(node, index, subindex), sounds)->0.heard(
            sound,
        ).1 matches Turn::Done(bytes) ==> (sound matches Sound::Frame { frame, .. } && frame.id
            == 0x580 + node && (match decoded(frame.data, false) {
            Ok(Exchange::UploadOpened { expedited: Some(data), .. }) => bytes == data,
            Ok(Exchange::UploadData { last, .. }) => last && bytes == brought(
                node,
                sounds.push(sound),
            ),
            _ => false,
        })),
{
    lemma_read_driven(node, index, subindex, sounds);
    assert(sounds.push(sound).drop_last() =~= sounds);
    let before = read_driven(Reading::started(node, index, subindex), sounds)->0;
    if let Turn::Done(bytes) = before.heard(sound).1 {
        if before.opened {
            assert(bytes =~= brought(node, sounds.push(sound)));
        }
    }
}

} // verus!
