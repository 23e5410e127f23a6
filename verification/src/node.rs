//! A `CANopen` node on an in-process bus: what a test or the loopback puts at
//! the far end so a master can be driven without a drive in the room.
//!
//! Not a device profile. One node holds an object dictionary of byte
//! vectors keyed by index and subindex, obeys NMT, serves SDO uploads and
//! downloads to it, expedited and segmented, with the toggle checked and
//! the aborts `CiA 301` names, takes its first receive PDO into the
//! dictionary when operational, and answers a start with a heartbeat. What
//! the master transmits, the node answers, and the answer is what the master
//! receives next.
//!
//! [`Device`] is what a node is at a moment, and its methods say what each
//! frame makes of it.

use std::collections::{HashMap, VecDeque};

use vstd::prelude::*;
use vstd::slice::{slice_subrange, slice_to_vec};

use crate::error::Fault;
use crate::frame::{fitted, Datagram, Frame};
use crate::sdo::{
    contents, decoded, law_decode_undoes_encode, law_encoded_length, Exchange, Sdo, ABORT_COMMAND,
    ABORT_LENGTH, ABORT_NO_OBJECT, ABORT_TOGGLE, CLIENT_BASE, EXPEDITED_DATA, SEGMENT_DATA,
    SERVER_BASE,
};

verus! {

/// The COB-ID of network management: every node listens.
pub const NMT: u32 = 0x000;

/// The COB-ID a node's heartbeat goes under, plus the node.
pub const HEARTBEAT_BASE: u32 = 0x700;

/// The COB-ID of a node's first receive PDO, plus the node.
pub const RPDO1_BASE: u32 = 0x200;

/// The COB-ID of a node's first transmit PDO, plus the node.
pub const TPDO1_BASE: u32 = 0x180;

/// The object the first receive PDO is mapped to: write output 8-bit,
/// subindex 1, as `CiA 401` maps it.
pub const RPDO1_OBJECT: (u16, u8) = (0x6200, 1);

/// The NMT commands a master sends.
#[derive(Clone, Copy, Debug, PartialEq, Eq, Structural)]
pub enum Command {
    Start,
    Stop,
    PreOperational,
    Reset,
}

/// Where a node is in its NMT state machine.
#[derive(Clone, Copy, Debug, PartialEq, Eq, Structural)]
pub enum State {
    PreOperational,
    Operational,
    Stopped,
}

impl Command {
    /// The byte an NMT frame carries for this command.
    pub open spec fn byte(self) -> u8 {
        match self {
            Command::Start => 0x01,
            Command::Stop => 0x02,
            Command::PreOperational => 0x80,
            Command::Reset => 0x81,
        }
    }

    /// The byte an NMT frame carries.
    pub fn code(self) -> (code: u8)
        ensures
            code == self.byte(),
    {
        match self {
            Command::Start => 0x01,
            Command::Stop => 0x02,
            Command::PreOperational => 0x80,
            Command::Reset => 0x81,
        }
    }
}

impl State {
    /// The byte a heartbeat carries for this state.
    pub open spec fn byte(self) -> u8 {
        match self {
            State::PreOperational => 0x7f,
            State::Operational => 0x05,
            State::Stopped => 0x04,
        }
    }

    /// The byte a heartbeat carries.
    pub fn code(self) -> (code: u8)
        ensures
            code == self.byte(),
    {
        match self {
            State::PreOperational => 0x7f,
            State::Operational => 0x05,
            State::Stopped => 0x04,
        }
    }
}

/// The state that an NMT command byte asks for, if it asks for one.
pub open spec fn commanded(command: u8) -> Option<State> {
    if command == 0x01 {
        Some(State::Operational)
    } else if command == 0x02 {
        Some(State::Stopped)
    } else if command == 0x80 || command == 0x81 {
        Some(State::PreOperational)
    } else {
        None
    }
}

/// A segmented transfer in progress.
struct Transfer {
    index: u16,
    subindex: u8,
    toggle: bool,
    bytes: Vec<u8>,
    /// How far an upload has been read.
    at: usize,
}

/// The mathematical value of a transfer in progress.
#[verifier::ext_equal]
pub struct Session {
    pub index: u16,
    pub subindex: u8,
    /// The toggle the next segment has to come under.
    pub toggle: bool,
    /// What has been written so far, or what is being read.
    pub bytes: Seq<u8>,
    /// How far an upload has been read.
    pub at: nat,
}

/// The mathematical value of a [`Node`].
#[verifier::ext_equal]
pub struct Device {
    pub id: u8,
    pub state: State,
    pub dictionary: Map<(u16, u8), Seq<u8>>,
    pub download: Option<Session>,
    pub upload: Option<Session>,
    /// The frames the master has yet to receive, oldest first.
    pub to_master: Seq<Datagram>,
}

/// The abort that names an object and a reason.
pub open spec fn aborted(index: u16, subindex: u8, code: u32) -> Exchange {
    Exchange::Abort { index, subindex, code }
}

impl Device {
    /// Node `id` before anything has happened to it.
    pub open spec fn fresh(id: u8) -> Device {
        Device {
            id,
            state: State::PreOperational,
            dictionary: map![(0x1000u16, 0u8) => seq![0u8, 0, 0, 0]],
            download: None,
            upload: None,
            to_master: seq![],
        }
    }

    /// A transfer is always of an object that the device holds, and an
    /// upload is never read past its end.
    pub open spec fn well_formed(self) -> bool {
        &&& self.download matches Some(session) ==> self.dictionary.contains_key(
            (session.index, session.subindex),
        )
        &&& self.upload matches Some(session) ==> {
            &&& self.dictionary.contains_key((session.index, session.subindex))
            &&& session.at <= session.bytes.len()
        }
    }

    /// The device holding `bytes` at `index:subindex`.
    pub open spec fn holding(self, index: u16, subindex: u8, bytes: Seq<u8>) -> Device {
        Device { dictionary: self.dictionary.insert((index, subindex), bytes), ..self }
    }

    /// The device with one more frame for the master, if it fits a frame.
    pub open spec fn answering(self, id: u32, data: Seq<u8>) -> Device {
        match fitted(id, data) {
            Ok(frame) => Device { to_master: self.to_master.push(frame), ..self },
            Err(_) => self,
        }
    }

    /// What an NMT frame makes of the device: one that is long enough,
    /// addressed to this node or to all, and carries a known command drops
    /// every transfer, moves to the state asked for and sends a heartbeat.
    pub open spec fn managed(self, data: Seq<u8>) -> Device {
        if data.len() >= 2 && (data[1] == 0 || data[1] == self.id) && commanded(data[0]) is Some {
            let state = commanded(data[0])->0;
            let moved = Device { state, download: None, upload: None, ..self };
            moved.answering((HEARTBEAT_BASE + self.id) as u32, seq![state.byte()])
        } else {
            self
        }
    }

    /// What opening a download makes of the device, and its answer.
    pub open spec fn download_opened(
        self,
        index: u16,
        subindex: u8,
        expedited: Option<Seq<u8>>,
    ) -> (Device, Exchange) {
        if !self.dictionary.contains_key((index, subindex)) {
            (self, aborted(index, subindex, ABORT_NO_OBJECT))
        } else {
            let accepted = Exchange::DownloadAccepted { index, subindex };
            match expedited {
                Some(data) => (self.holding(index, subindex, data), accepted),
                None => {
                    let session = Session { index, subindex, toggle: false, bytes: seq![], at: 0 };
                    (Device { download: Some(session), ..self }, accepted)
                },
            }
        }
    }

    /// What a segment of a download makes of the device, and its answer: the
    /// object changes only with the last segment, and then as a whole.
    pub open spec fn segment_written(self, toggle: bool, data: Seq<u8>, last: bool) -> (
        Device,
        Exchange,
    ) {
        match self.download {
            None => (self, aborted(0, 0, ABORT_COMMAND)),
            Some(session) => {
                let ended = Device { download: None, ..self };
                let bytes = session.bytes + data;
                if toggle != session.toggle {
                    (ended, aborted(session.index, session.subindex, ABORT_TOGGLE))
                } else if last {
                    (
                        ended.holding(session.index, session.subindex, bytes),
                        Exchange::SegmentAccepted { toggle },
                    )
                } else {
                    let session = Session { toggle: !toggle, bytes, ..session };
                    (
                        Device { download: Some(session), ..self },
                        Exchange::SegmentAccepted { toggle },
                    )
                }
            },
        }
    }

    /// What opening an upload makes of the device, and its answer: one to
    /// four bytes go at once, anything else in segments.
    pub open spec fn upload_opened(self, index: u16, subindex: u8) -> (Device, Exchange) {
        if !self.dictionary.contains_key((index, subindex)) {
            (self, aborted(index, subindex, ABORT_NO_OBJECT))
        } else {
            let bytes = self.dictionary[(index, subindex)];
            let size = if bytes.len() <= u32::MAX { bytes.len() as u32 } else { u32::MAX };
            if 1 <= bytes.len() <= EXPEDITED_DATA {
                (self, Exchange::UploadOpened { index, subindex, expedited: Some(bytes), size })
            } else {
                let session = Session { index, subindex, toggle: false, bytes, at: 0 };
                (
                    Device { upload: Some(session), ..self },
                    Exchange::UploadOpened { index, subindex, expedited: None, size },
                )
            }
        }
    }

    /// What asking for the next segment makes of the device, and its answer.
    pub open spec fn segment_read(self, toggle: bool) -> (Device, Exchange) {
        match self.upload {
            None => (self, aborted(0, 0, ABORT_LENGTH)),
            Some(session) => {
                let ended = Device { upload: None, ..self };
                if toggle != session.toggle {
                    (ended, aborted(session.index, session.subindex, ABORT_TOGGLE))
                } else if session.at + SEGMENT_DATA < session.bytes.len() {
                    let end = session.at + SEGMENT_DATA;
                    let data = session.bytes.subrange(session.at as int, end as int);
                    let session = Session { toggle: !toggle, at: end as nat, ..session };
                    (
                        Device { upload: Some(session), ..self },
                        Exchange::UploadData { toggle, data, last: false },
                    )
                } else {
                    let data = session.bytes.skip(session.at as int);
                    (ended, Exchange::UploadData { toggle, data, last: true })
                }
            },
        }
    }

    /// What a request makes of the device, and its answer.
    pub open spec fn served(self, request: Exchange) -> (Device, Exchange) {
        match request {
            Exchange::InitiateDownload { index, subindex, expedited, .. } =>
                self.download_opened(index, subindex, expedited),
            Exchange::DownloadSegment { toggle, data, last } =>
                self.segment_written(toggle, data, last),
            Exchange::InitiateUpload { index, subindex } => self.upload_opened(index, subindex),
            Exchange::UploadSegment { toggle } => self.segment_read(toggle),
            Exchange::Abort { .. } => (
                Device { download: None, upload: None, ..self },
                aborted(0, 0, ABORT_COMMAND),
            ),
            _ => (self, aborted(0, 0, ABORT_COMMAND)),
        }
    }

    /// What the bytes of a frame under the node's request COB-ID make of the
    /// device, and its answer. Bytes that are no request are answered with an
    /// abort, which ends every transfer.
    pub open spec fn asked(self, data: Seq<u8>) -> (Device, Exchange) {
        match decoded(data, true) {
            Ok(request) => self.served(request),
            Err(_) => (
                Device { download: None, upload: None, ..self },
                aborted(0, 0, ABORT_COMMAND),
            ),
        }
    }

    /// What a frame on the bus makes of the device.
    pub open spec fn taken(self, frame: Datagram) -> Device {
        if frame.id == NMT {
            self.managed(frame.data)
        } else if frame.id == CLIENT_BASE + self.id {
            let (device, answer) = self.asked(frame.data);
            device.answering((SERVER_BASE + self.id) as u32, answer.encoded())
        } else if frame.id == RPDO1_BASE + self.id && self.state == State::Operational {
            self.holding(RPDO1_OBJECT.0, RPDO1_OBJECT.1, frame.data)
        } else {
            self
        }
    }
}

/// One node on the bus.
pub struct Node {
    id: u8,
    state: State,
    /// The objects, each under the number that [`numbered`] gives it.
    dictionary: HashMap<u32, Vec<u8>>,
    download: Option<Transfer>,
    upload: Option<Transfer>,
    to_master: VecDeque<Frame>,
}

/// The number an object is filed under.
pub open spec fn numbered(object: (u16, u8)) -> u32 {
    (256 * object.0 + object.1) as u32
}

/// The objects behind their numbers.
pub open spec fn catalogue(filed: Map<u32, Vec<u8>>) -> Map<(u16, u8), Seq<u8>> {
    Map::new(
        |object: (u16, u8)| filed.contains_key(numbered(object)),
        |object: (u16, u8)| filed[numbered(object)]@,
    )
}

/// Filing under a number is holding the object of that number.
proof fn lemma_filed(filed: Map<u32, Vec<u8>>, object: (u16, u8), bytes: Vec<u8>)
    ensures
        catalogue(filed.insert(numbered(object), bytes)) == catalogue(filed).insert(object, bytes@),
{
    assert forall|other: (u16, u8)| numbered(other) == numbered(object) implies other == object by {
        assert(256 * other.0 + other.1 == 256 * object.0 + object.1);
    }
    assert(catalogue(filed.insert(numbered(object), bytes)) =~= catalogue(filed).insert(
        object,
        bytes@,
    ));
}

impl View for Transfer {
    type V = Session;

    closed spec fn view(&self) -> Session {
        Session {
            index: self.index,
            subindex: self.subindex,
            toggle: self.toggle,
            bytes: self.bytes@,
            at: self.at as nat,
        }
    }
}

/// The value of a transfer that may be in progress.
spec fn session(transfer: Option<Transfer>) -> Option<Session> {
    match transfer {
        Some(transfer) => Some(transfer@),
        None => None,
    }
}

impl View for Node {
    type V = Device;

    closed spec fn view(&self) -> Device {
        Device {
            id: self.id,
            state: self.state,
            dictionary: catalogue(self.dictionary@),
            download: session(self.download),
            upload: session(self.upload),
            to_master: self.to_master@.map_values(|frame: Frame| frame@),
        }
    }
}

fn abort(index: u16, subindex: u8, code: u32) -> (sdo: Sdo)
    ensures
        sdo@ == aborted(index, subindex, code),
{
    Sdo::Abort { index, subindex, code }
}

fn number(index: u16, subindex: u8) -> (number: u32)
    ensures
        number == numbered((index, subindex)),
{
    256 * (index as u32) + subindex as u32
}

impl Node {
    /// Node `id`, pre-operational, holding device type `0x0000_0000` at
    /// `0x1000:00` and nothing else.
    pub fn new(id: u8) -> (node: Node)
        ensures
            node@ == Device::fresh(id),
            node@.well_formed(),
    {
        let mut node = Node {
            id,
            state: State::PreOperational,
            dictionary: HashMap::new(),
            download: None,
            upload: None,
            to_master: VecDeque::new(),
        };
        let ghost empty = node@;
        assert(empty.dictionary =~= Map::empty());
        node.hold(0x1000, 0, vec![0, 0, 0, 0]);
        assert(node@ =~= Device::fresh(id)) by {
            assert(node@.dictionary[(0x1000u16, 0u8)] =~= seq![0u8, 0, 0, 0]);
            assert(node@.dictionary =~= map![(0x1000u16, 0u8) => seq![0u8, 0, 0, 0]]);
        }
        node
    }

    /// Put `bytes` at `index:subindex`.
    fn hold(&mut self, index: u16, subindex: u8, bytes: Vec<u8>)
        ensures
            final(self)@ == old(self)@.holding(index, subindex, bytes@),
    {
        proof {
            lemma_filed(self.dictionary@, (index, subindex), bytes);
        }
        self.dictionary.insert(number(index, subindex), bytes);
    }

    /// Hold `bytes` at `index:subindex`.
    pub fn with_object(self, index: u16, subindex: u8, bytes: Vec<u8>) -> (node: Node)
        ensures
            node@ == self@.holding(index, subindex, bytes@),
    {
        let mut node = self;
        node.hold(index, subindex, bytes);
        node
    }

    /// The node's identifier.
    pub fn id(&self) -> (id: u8)
        ensures
            id == self@.id,
    {
        self.id
    }

    /// The bytes held at `index:subindex`, as they are now.
    pub fn object(&self, index: u16, subindex: u8) -> (bytes: Option<Vec<u8>>)
        ensures
            contents(bytes) == self@.dictionary.get((index, subindex)),
    {
        match self.dictionary.get(&number(index, subindex)) {
            Some(bytes) => Some(slice_to_vec(bytes.as_slice())),
            None => None,
        }
    }

    /// Where the node is.
    pub fn state(&self) -> (state: State)
        ensures
            state == self@.state,
    {
        self.state
    }

    /// What an in-process bus is called.
    pub fn name(&self) -> (name: &'static str)
        ensures
            name@ == "loopback"@,
    {
        "loopback"
    }

    /// The oldest frame the master has yet to receive, which it now has.
    pub fn receive(&mut self) -> (frame: Option<Frame>)
        ensures
            match frame {
                Some(frame) => {
                    &&& old(self)@.to_master.len() > 0
                    &&& frame@ == old(self)@.to_master.first()
                    &&& final(self)@ == (Device {
                        to_master: old(self)@.to_master.drop_first(),
                        ..old(self)@
                    })
                },
                None => old(self)@.to_master.len() == 0 && final(self)@ == old(self)@,
            },
    {
        let frame = self.to_master.pop_front();
        proof {
            if frame is Some {
                assert(self@.to_master =~= old(self)@.to_master.drop_first());
            }
        }
        frame
    }

    /// A frame from the master: network management, a request, or a PDO.
    pub fn transmit(&mut self, frame: &Frame)
        requires
            old(self)@.well_formed(),
        ensures
            final(self)@ == old(self)@.taken(frame@),
            final(self)@.well_formed(),
    {
        let id: u32 = self.id as u32;
        if frame.id == NMT {
            self.nmt(&frame.data);
        } else if frame.id == CLIENT_BASE + id {
            let answer = match Sdo::decode(frame.data.as_slice(), true) {
                Ok(request) => self.serve(request),
                Err(_) => {
                    self.download = None;
                    self.upload = None;
                    abort(0, 0, ABORT_COMMAND)
                },
            };
            let bytes = answer.encode();
            self.answer(SERVER_BASE + id, bytes.as_slice());
        } else if frame.id == RPDO1_BASE + id && self.state == State::Operational {
            self.hold(RPDO1_OBJECT.0, RPDO1_OBJECT.1, slice_to_vec(frame.data.as_slice()));
        }
    }

    fn nmt(&mut self, data: &Vec<u8>)
        ensures
            final(self)@ == old(self)@.managed(data@),
            old(self)@.well_formed() ==> final(self)@.well_formed(),
    {
        if data.len() < 2 {
            return;
        }
        let command: u8 = data[0];
        let node: u8 = data[1];
        if node != 0 && node != self.id {
            return;
        }
        let state = match command {
            0x01 => State::Operational,
            0x02 => State::Stopped,
            0x80 => State::PreOperational,
            0x81 => State::PreOperational,
            _ => {
                return;
            },
        };
        self.state = state;
        self.download = None;
        self.upload = None;
        let heartbeat: [u8; 1] = [state.code()];
        assert(heartbeat@ =~= seq![state.byte()]);
        self.answer(HEARTBEAT_BASE + self.id as u32, heartbeat.as_slice());
    }

    fn answer(&mut self, id: u32, data: &[u8])
        ensures
            final(self)@ == old(self)@.answering(id, data@),
    {
        if let Ok(frame) = Frame::new(id, data) {
            self.to_master.push_back(frame);
            assert(self@.to_master =~= old(self)@.to_master.push(frame@));
        }
    }

    fn serve(&mut self, request: Sdo) -> (answer: Sdo)
        requires
            old(self)@.well_formed(),
        ensures
            (final(self)@, answer@) == old(self)@.served(request@),
            final(self)@.well_formed(),
    {
        match request {
            Sdo::InitiateDownload { index, subindex, expedited, .. } => self.open_download(
                index,
                subindex,
                expedited,
            ),
            Sdo::DownloadSegment { toggle, data, last } => self.segment(toggle, &data, last),
            Sdo::InitiateUpload { index, subindex } => self.open_upload(index, subindex),
            Sdo::UploadSegment { toggle } => self.next_segment(toggle),
            Sdo::Abort { .. } => {
                self.download = None;
                self.upload = None;
                abort(0, 0, ABORT_COMMAND)
            },
            _ => abort(0, 0, ABORT_COMMAND),
        }
    }

    fn open_download(&mut self, index: u16, sub: u8, expedited: Option<Vec<u8>>) -> (answer: Sdo)
        ensures
            (final(self)@, answer@) == old(self)@.download_opened(index, sub, contents(expedited)),
            old(self)@.well_formed() ==> final(self)@.well_formed(),
    {
        if !self.dictionary.contains_key(&number(index, sub)) {
            return abort(index, sub, ABORT_NO_OBJECT);
        }
        match expedited {
            Some(data) => {
                self.hold(index, sub, data);
            },
            None => {
                self.download = Some(
                    Transfer { index, subindex: sub, toggle: false, bytes: Vec::new(), at: 0 },
                );
            },
        }
        Sdo::DownloadAccepted { index, subindex: sub }
    }

    fn segment(&mut self, toggle: bool, data: &Vec<u8>, last: bool) -> (answer: Sdo)
        ensures
            (final(self)@, answer@) == old(self)@.segment_written(toggle, data@, last),
            old(self)@.well_formed() ==> final(self)@.well_formed(),
    {
        match self.download.take() {
            None => abort(0, 0, ABORT_COMMAND),
            Some(transfer) => {
                let mut transfer = transfer;
                if toggle != transfer.toggle {
                    return abort(transfer.index, transfer.subindex, ABORT_TOGGLE);
                }
                transfer.toggle = !toggle;
                let ghost before = transfer.bytes@;
                transfer.bytes.extend_from_slice(data.as_slice());
                assert(transfer.bytes@ =~= before + data@);
                if last {
                    self.hold(transfer.index, transfer.subindex, transfer.bytes);
                } else {
                    self.download = Some(transfer);
                }
                Sdo::SegmentAccepted { toggle }
            },
        }
    }

    fn open_upload(&mut self, index: u16, sub: u8) -> (answer: Sdo)
        ensures
            (final(self)@, answer@) == old(self)@.upload_opened(index, sub),
            old(self)@.well_formed() ==> final(self)@.well_formed(),
    {
        let bytes = match self.object(index, sub) {
            Some(bytes) => bytes,
            None => {
                return abort(index, sub, ABORT_NO_OBJECT);
            },
        };
        let size: u32 = if bytes.len() as u64 <= u32::MAX as u64 {
            bytes.len() as u32
        } else {
            u32::MAX
        };
        if bytes.len() <= EXPEDITED_DATA && !bytes.is_empty() {
            return Sdo::UploadOpened { index, subindex: sub, expedited: Some(bytes), size };
        }
        self.upload = Some(Transfer { index, subindex: sub, toggle: false, bytes, at: 0 });
        Sdo::UploadOpened { index, subindex: sub, expedited: None, size }
    }

    fn next_segment(&mut self, toggle: bool) -> (answer: Sdo)
        requires
            old(self)@.well_formed(),
        ensures
            (final(self)@, answer@) == old(self)@.segment_read(toggle),
            final(self)@.well_formed(),
    {
        match self.upload.take() {
            None => abort(0, 0, ABORT_LENGTH),
            Some(transfer) => {
                let mut transfer = transfer;
                if toggle != transfer.toggle {
                    return abort(transfer.index, transfer.subindex, ABORT_TOGGLE);
                }
                transfer.toggle = !toggle;
                let length: usize = transfer.bytes.len();
                let end: usize = if length - transfer.at <= SEGMENT_DATA {
                    length
                } else {
                    transfer.at + SEGMENT_DATA
                };
                let data = slice_to_vec(slice_subrange(transfer.bytes.as_slice(), transfer.at, end));
                transfer.at = end;
                let last = end == length;
                if !last {
                    self.upload = Some(transfer);
                }
                Sdo::UploadData { toggle, data, last }
            },
        }
    }
}

/// Every frame under the node's request COB-ID, whatever it holds, is
/// answered with exactly one frame: eight bytes under its answer COB-ID that
/// a client can read.
pub proof fn law_every_request_is_answered(device: Device, data: Seq<u8>)
    requires
        device.well_formed(),
    ensures
        ({
            let after = device.taken(Datagram { id: (CLIENT_BASE + device.id) as u32, data });
            &&& after.to_master == device.to_master.push(after.to_master.last())
            &&& after.to_master.last().id == SERVER_BASE + device.id
            &&& after.to_master.last().data.len() == 8
            &&& decoded(after.to_master.last().data, false) == Ok::<Exchange, Fault>(
                device.asked(data).1,
            )
        }),
{
    let (served, answer) = device.asked(data);
    law_encoded_length(answer);
    assert(answer.well_formed() && answer.travels(false));
    law_decode_undoes_encode(answer, false);
}

/// A frame that is none of network management, the node's request and its
/// PDO means nothing to it.
pub proof fn law_other_frames_are_ignored(device: Device, frame: Datagram)
    requires
        frame.id != NMT,
        frame.id != CLIENT_BASE + device.id,
        frame.id != RPDO1_BASE + device.id,
    ensures
        device.taken(frame) == device,
{
}

/// A command to this node, or to all, moves it to the state asked for, drops
/// every transfer, keeps every object and is answered with a heartbeat; a
/// command to another node changes nothing.
pub proof fn law_command_is_obeyed(device: Device, command: Command, node: u8)
    ensures
        ({
            let after = device.taken(Datagram { id: NMT, data: seq![command.byte(), node] });
            let state = match command {
                Command::Start => State::Operational,
                Command::Stop => State::Stopped,
                Command::PreOperational => State::PreOperational,
                Command::Reset => State::PreOperational,
            };
            if node == 0 || node == device.id {
                after == (Device {
                    state,
                    download: None,
                    upload: None,
                    to_master: device.to_master.push(
                        Datagram {
                            id: (HEARTBEAT_BASE + device.id) as u32,
                            data: seq![state.byte()],
                        },
                    ),
                    ..device
                })
            } else {
                after == device
            }
        }),
{
}

/// The first receive PDO lands in the dictionary, and nowhere else, exactly
/// when the node is operational.
pub proof fn law_pdo_lands_when_operational(device: Device, data: Seq<u8>)
    ensures
        ({
            let after = device.taken(Datagram { id: (RPDO1_BASE + device.id) as u32, data });
            if device.state == State::Operational {
                after == device.holding(RPDO1_OBJECT.0, RPDO1_OBJECT.1, data)
            } else {
                after == device
            }
        }),
{
}

/// No frame changes who the node is, only network management changes its
/// state, no frame removes an object, and none adds one but the PDO its own.
pub proof fn law_what_frames_never_change(device: Device, frame: Datagram)
    requires
        device.well_formed(),
    ensures
        device.taken(frame).id == device.id,
        frame.id != NMT ==> device.taken(frame).state == device.state,
        frame.id != RPDO1_BASE + device.id ==> device.taken(frame).dictionary.dom()
            == device.dictionary.dom(),
        device.dictionary.dom().subset_of(device.taken(frame).dictionary.dom()),
        device.taken(frame).dictionary.dom().subset_of(
            device.dictionary.dom().insert(RPDO1_OBJECT),
        ),
{
    let (served, answer) = device.asked(frame.data);
    assert(served.dictionary.dom() =~= device.dictionary.dom());
    assert(device.taken(frame).dictionary.dom().subset_of(
        device.dictionary.dom().insert(RPDO1_OBJECT),
    ));
}

/// A frame keeps what holds of every device: its transfers are of objects it
/// holds, and no upload is read past its end.
pub proof fn law_frames_keep_devices_well_formed(device: Device, frame: Datagram)
    requires
        device.well_formed(),
    ensures
        device.taken(frame).well_formed(),
{
}

/// Reading changes no object, and neither does a write before its last
/// segment: an object is never seen half written.
pub proof fn law_objects_change_whole(device: Device, request: Exchange)
    requires
        match request {
            Exchange::InitiateDownload { expedited, .. } => expedited is None,
            Exchange::DownloadSegment { last, .. } => !last,
            _ => true,
        },
    ensures
        device.served(request).0.dictionary == device.dictionary,
{
}

/// A request changes at most one object: the one that an expedited download
/// names, or the one that the download in progress was opened for.
pub proof fn law_one_object_changes(device: Device, request: Exchange, object: (u16, u8))
    requires
        request matches Exchange::InitiateDownload { index, subindex, .. } ==> object != (
            index,
            subindex,
        ),
        request is DownloadSegment && device.download is Some ==> object != (
            device.download->0.index,
            device.download->0.subindex,
        ),
    ensures
        device.served(request).0.dictionary.get(object) == device.dictionary.get(object),
{
}

/// A client's abort ends every transfer and changes no object.
pub proof fn law_abort_ends_transfers(device: Device, index: u16, subindex: u8, code: u32)
    ensures
        ({
            let (after, answer) = device.served(aborted(index, subindex, code));
            &&& after == (Device { download: None, upload: None, ..device })
            &&& answer == aborted(0, 0, ABORT_COMMAND)
        }),
{
}

/// An abort in either direction ends the transfer, whatever the bytes were
/// that it comes from or answers: a client's own abort and bytes that are no
/// request end what is in progress, and an aborted segment leaves no transfer
/// for another segment of its kind to go on with. An opening that is aborted
/// began no transfer, and leaves the device as it was.
pub proof fn law_abort_in_either_direction(device: Device, data: Seq<u8>)
    requires
        device.asked(data).1 is Abort,
    ensures
        ({
            let (after, _) = device.asked(data);
            let ended = Device { download: None, upload: None, ..device };
            match decoded(data, true) {
                Err(_) => after == ended,
                Ok(request) => match request {
                    Exchange::Abort { .. } => after == ended,
                    Exchange::DownloadSegment { .. } => after == (Device {
                        download: None,
                        ..device
                    }),
                    Exchange::UploadSegment { .. } => after == (Device { upload: None, ..device }),
                    _ => after == device,
                },
            }
        }),
{
}

/// A segment under the wrong toggle ends its transfer with an abort that
/// names the object and the reason, and changes no object.
pub proof fn law_wrong_toggle_is_aborted(
    device: Device,
    session: Session,
    data: Seq<u8>,
    last: bool,
)
    ensures
        device.download == Some(session) ==> device.served(
            Exchange::DownloadSegment { toggle: !session.toggle, data, last },
        ) == (
            Device { download: None, ..device },
            aborted(session.index, session.subindex, ABORT_TOGGLE),
        ),
        device.upload == Some(session) ==> device.served(
            Exchange::UploadSegment { toggle: !session.toggle },
        ) == (
            Device { upload: None, ..device },
            aborted(session.index, session.subindex, ABORT_TOGGLE),
        ),
{
}

/// How many segments an object of a length is read in: seven bytes to each,
/// and one segment for nothing at all.
pub open spec fn segment_count(length: nat) -> nat {
    if length == 0 {
        1
    } else {
        (length + SEGMENT_DATA as nat - 1) as nat / SEGMENT_DATA as nat
    }
}

/// An upload of `bytes` with `k` segments read.
pub open spec fn nth_session(index: u16, subindex: u8, bytes: Seq<u8>, k: nat) -> Session {
    Session { index, subindex, toggle: k % 2 == 1, bytes, at: (SEGMENT_DATA * k) as nat }
}

/// What asking for the `k`th segment makes of a device, and its answer: the
/// toggles alternate from clear.
pub open spec fn nth_read(device: Device, k: nat) -> (Device, Exchange) {
    device.served(Exchange::UploadSegment { toggle: k % 2 == 1 })
}

/// Whether the `k`th device has the upload where the device before it left it
/// when it answered. What else has happened in between does not matter.
pub open spec fn goes_on(devices: Seq<Device>, k: int) -> bool {
    devices[k].upload == nth_read(devices[k - 1], (k - 1) as nat).0.upload
}

/// Whether the devices are one device at the times when it is asked for the
/// segments of one upload, in order.
pub open spec fn read_on(devices: Seq<Device>) -> bool {
    forall|k: int| 1 <= k < devices.len() ==> #[trigger] goes_on(devices, k)
}

/// The data of the first `n` segments that the devices answer with, put
/// together.
pub open spec fn joined(devices: Seq<Device>, n: nat) -> Seq<u8>
    decreases n,
{
    if n == 0 {
        seq![]
    } else {
        let k = (n - 1) as nat;
        joined(devices, k) + nth_read(devices[k as int], k).1->UploadData_data
    }
}

/// Whether an answer is the `k`th of `count` segments of an upload: under the
/// toggle it was asked for with, seven bytes unless it is the last, and marked
/// exactly if it is.
pub open spec fn is_segment_of(answer: Exchange, k: nat, count: nat) -> bool {
    &&& answer is UploadData
    &&& answer->UploadData_toggle == (k % 2 == 1)
    &&& answer->UploadData_last == (k + 1 == count)
    &&& answer->UploadData_data.len() <= SEGMENT_DATA
    &&& k + 1 < count ==> answer->UploadData_data.len() == SEGMENT_DATA
}

/// With `k` segments of an upload read the next is the `k`th: it comes under
/// the toggle asked for, holds the next seven bytes or what is left, and is
/// marked if it is the last, which ends the upload.
proof fn lemma_nth_read(device: Device, index: u16, subindex: u8, bytes: Seq<u8>, k: nat)
    requires
        device.upload == Some(nth_session(index, subindex, bytes, k)),
        k < segment_count(bytes.len()),
    ensures
        ({
            let last = k + 1 == segment_count(bytes.len());
            let end = if last { bytes.len() as int } else { SEGMENT_DATA * (k + 1) };
            &&& 0 <= SEGMENT_DATA * k <= end <= bytes.len()
            &&& end - SEGMENT_DATA * k <= SEGMENT_DATA
            &&& nth_read(device, k).0 == (Device {
                upload: if last { None } else { Some(nth_session(index, subindex, bytes, k + 1)) },
                ..device
            })
            &&& nth_read(device, k).1 == Exchange::UploadData {
                toggle: k % 2 == 1,
                data: bytes.subrange(SEGMENT_DATA * k, end),
                last,
            }
        }),
{
    assert(bytes.skip(SEGMENT_DATA * k) =~= bytes.subrange(SEGMENT_DATA * k, bytes.len() as int));
}

/// The `k`th device has read `k` segments of the upload.
proof fn lemma_read_on(devices: Seq<Device>, index: u16, subindex: u8, bytes: Seq<u8>, k: nat)
    requires
        k < devices.len() <= segment_count(bytes.len()),
        devices[0].upload == Some(nth_session(index, subindex, bytes, 0)),
        read_on(devices),
    ensures
        devices[k as int].upload == Some(nth_session(index, subindex, bytes, k)),
    decreases k,
{
    if k > 0 {
        let before = (k - 1) as nat;
        lemma_read_on(devices, index, subindex, bytes, before);
        lemma_nth_read(devices[before as int], index, subindex, bytes, before);
        assert(goes_on(devices, k as int));
    }
}

/// The first `n` segments put together are the front of the bytes.
proof fn lemma_joined(devices: Seq<Device>, index: u16, subindex: u8, bytes: Seq<u8>, n: nat)
    requires
        n <= devices.len() <= segment_count(bytes.len()),
        devices.len() > 0,
        devices[0].upload == Some(nth_session(index, subindex, bytes, 0)),
        read_on(devices),
    ensures
        joined(devices, n) == (if n == segment_count(bytes.len()) {
            bytes
        } else {
            bytes.take(SEGMENT_DATA * n)
        }),
    decreases n,
{
    if n == 0 {
        assert(joined(devices, n) =~= bytes.take(0));
    } else {
        let k = (n - 1) as nat;
        lemma_joined(devices, index, subindex, bytes, k);
        lemma_read_on(devices, index, subindex, bytes, k);
        lemma_nth_read(devices[k as int], index, subindex, bytes, k);
        let data = nth_read(devices[k as int], k).1->UploadData_data;
        if n == segment_count(bytes.len()) {
            assert(bytes.take(SEGMENT_DATA * k) + data =~= bytes);
        } else {
            assert(bytes.take(SEGMENT_DATA * k) + data =~= bytes.take(SEGMENT_DATA * n));
        }
    }
}

/// An object of none or more than four bytes is read in seven-byte segments:
/// as many as its length takes and no more, each under the toggle asked for,
/// all but the last of seven bytes, the last one marked. Put together they are
/// the object as it was when it was opened, whatever has been written to it
/// since, and with the last the upload is over.
pub proof fn law_long_read_comes_in_segments(
    device: Device,
    index: u16,
    subindex: u8,
    devices: Seq<Device>,
)
    requires
        device.dictionary.contains_key((index, subindex)),
        device.dictionary[(index, subindex)].len() == 0
            || device.dictionary[(index, subindex)].len() > EXPEDITED_DATA,
        devices.len() == segment_count(device.dictionary[(index, subindex)].len()),
        devices[0].upload == device.served(
            Exchange::InitiateUpload { index, subindex },
        ).0.upload,
        read_on(devices),
    ensures
        forall|k: int|
            0 <= k < devices.len() ==> #[trigger] is_segment_of(
                nth_read(devices[k], k as nat).1,
                k as nat,
                devices.len(),
            ),
        forall|k: int|
            0 <= k < devices.len() ==> (#[trigger] nth_read(devices[k], k as nat)).0 == (Device {
                upload: nth_read(devices[k], k as nat).0.upload,
                ..devices[k]
            }),
        joined(devices, devices.len()) == device.dictionary[(index, subindex)],
        nth_read(devices.last(), (devices.len() - 1) as nat).0.upload is None,
{
    let bytes = device.dictionary[(index, subindex)];
    lemma_joined(devices, index, subindex, bytes, devices.len());
    assert forall|k: int| 0 <= k < devices.len() implies #[trigger] is_segment_of(
        nth_read(devices[k], k as nat).1,
        k as nat,
        devices.len(),
    ) by {
        lemma_read_on(devices, index, subindex, bytes, k as nat);
        lemma_nth_read(devices[k], index, subindex, bytes, k as nat);
    }
    let last = (devices.len() - 1) as nat;
    lemma_read_on(devices, index, subindex, bytes, last);
    lemma_nth_read(devices.last(), index, subindex, bytes, last);
}

/// A transfer in progress is left where it was by every frame but network
/// management and, of the requests, those that are about a transfer of its
/// kind, aborts, and bytes that are no request. So what is written to an
/// object does not disturb those who are reading it.
pub proof fn law_transfers_are_left_alone(device: Device, frame: Datagram)
    requires
        frame.id != NMT,
        frame.id == CLIENT_BASE + device.id ==> {
            &&& decoded(frame.data, true) is Ok
            &&& !(decoded(frame.data, true)->Ok_0 is Abort)
        },
    ensures
        frame.id == CLIENT_BASE + device.id ==> {
            let request = decoded(frame.data, true)->Ok_0;
            &&& request is InitiateDownload || request is DownloadSegment ==> device.taken(
                frame,
            ).upload == device.upload
            &&& request is InitiateUpload || request is UploadSegment ==> device.taken(
                frame,
            ).download == device.download
        },
        frame.id != CLIENT_BASE + device.id ==> device.taken(frame).upload == device.upload
            && device.taken(frame).download == device.download,
{
}

/// An object that the device does not hold cannot be opened, for writing or
/// for reading: the abort says so, and nothing changes.
pub proof fn law_missing_object_cannot_be_opened(
    device: Device,
    index: u16,
    subindex: u8,
    expedited: Option<Seq<u8>>,
    size: u32,
)
    requires
        !device.dictionary.contains_key((index, subindex)),
    ensures
        device.served(Exchange::InitiateDownload { index, subindex, expedited, size }) == (
            device,
            aborted(index, subindex, ABORT_NO_OBJECT),
        ),
        device.served(Exchange::InitiateUpload { index, subindex }) == (
            device,
            aborted(index, subindex, ABORT_NO_OBJECT),
        ),
{
}

/// A new node is pre-operational, has one object, the four zero bytes of its
/// device type at `0x1000:00`, and neither transfers nor answers.
pub proof fn law_new_node(id: u8, object: (u16, u8))
    ensures
        Device::fresh(id).id == id,
        Device::fresh(id).state == State::PreOperational,
        Device::fresh(id).dictionary.contains_key(object) <==> object.0 == 0x1000 && object.1 == 0,
        Device::fresh(id).dictionary[(0x1000, 0)] == seq![0u8, 0, 0, 0],
        Device::fresh(id).download is None,
        Device::fresh(id).upload is None,
        Device::fresh(id).to_master.len() == 0,
{
}

/// A device that is given an object holds it, and is otherwise as it was:
/// every other object, its state, its transfers and its answers.
pub proof fn law_held_object_is_there(
    device: Device,
    index: u16,
    subindex: u8,
    bytes: Seq<u8>,
    other: (u16, u8),
)
    ensures
        ({
            let after = device.holding(index, subindex, bytes);
            &&& after.dictionary.get((index, subindex)) == Some(bytes)
            &&& other != (index, subindex) ==> after.dictionary.get(other)
                == device.dictionary.get(other)
            &&& after == (Device { dictionary: after.dictionary, ..device })
        }),
{
}

/// The bytes that commands and states go by.
pub proof fn law_commands_and_states_have_their_bytes(command: Command, state: State)
    ensures
        match command {
            Command::Start => command.byte() == 1,
            Command::Stop => command.byte() == 2,
            Command::PreOperational => command.byte() == 0x80,
            Command::Reset => command.byte() == 0x81,
        },
        match state {
            State::PreOperational => state.byte() == 0x7f,
            State::Operational => state.byte() == 5,
            State::Stopped => state.byte() == 4,
        },
{
}

/// Any bytes under COB-ID 0. The second is whom they are for, 0 for all, and
/// the first what to do; what follows means nothing. A node that they are for
/// and that knows the command moves to the state asked for, drops its
/// transfers, keeps its objects and sends one heartbeat: its new state's byte
/// under `0x700` plus its id. Any other bytes leave it exactly as it was.
pub proof fn law_network_management(device: Device, data: Seq<u8>)
    ensures
        ({
            let after = device.taken(Datagram { id: 0, data });
            let addressed = data.len() >= 2 && (data[1] == 0 || data[1] == device.id);
            if addressed && (data[0] == 1 || data[0] == 2 || data[0] == 0x80 || data[0] == 0x81) {
                &&& data[0] == 1 <==> after.state == State::Operational
                &&& data[0] == 2 <==> after.state == State::Stopped
                &&& after.download is None
                &&& after.upload is None
                &&& after.id == device.id
                &&& after.dictionary == device.dictionary
                &&& after.to_master.len() == device.to_master.len() + 1
                &&& after.to_master.drop_last() == device.to_master
                &&& after.to_master.last().id == 0x700 + device.id
                &&& after.to_master.last().data.len() == 1
                &&& after.to_master.last().data[0] == (match after.state {
                    State::PreOperational => 0x7fu8,
                    State::Operational => 0x05u8,
                    State::Stopped => 0x04u8,
                })
            } else {
                after == device
            }
        }),
{
}

/// Which frames a node takes, by their COB-IDs: 0 for network management,
/// `0x600` plus its id for a request, `0x200` plus its id for its PDO if it is
/// operational, and no other. A request leaves the node as the request's bytes
/// make it, with one more answer under `0x580` plus its id, which reads as
/// what they are answered with.
pub proof fn law_frames_by_their_identifiers(device: Device, frame: Datagram)
    requires
        device.well_formed(),
        frame.id != 0,
    ensures
        frame.id == 0x600 + device.id ==> {
            let after = device.taken(frame);
            let (served, answer) = device.asked(frame.data);
            &&& after == (Device { to_master: after.to_master, ..served })
            &&& after.to_master.len() == device.to_master.len() + 1
            &&& after.to_master.drop_last() == device.to_master
            &&& after.to_master.last().id == 0x580 + device.id
            &&& after.to_master.last().data == answer.encoded()
            &&& decoded(after.to_master.last().data, false) == Ok::<Exchange, Fault>(answer)
        },
        frame.id == 0x200 + device.id && device.state == State::Operational ==> {
            let after = device.taken(frame);
            &&& after.dictionary == device.dictionary.insert((0x6200, 1), frame.data)
            &&& after == (Device { dictionary: after.dictionary, ..device })
        },
        frame.id == 0x200 + device.id && device.state != State::Operational ==> device.taken(frame)
            == device,
        frame.id != 0x600 + device.id && frame.id != 0x200 + device.id ==> device.taken(frame)
            == device,
{
    law_every_request_is_answered(device, frame.data);
    let (served, answer) = device.asked(frame.data);
    law_encoded_length(answer);
    assert(device.taken(frame).to_master.drop_last() =~= device.to_master || frame.id != 0x600
        + device.id);
}

/// The bytes that a request is written as are served as the request.
pub proof fn law_request_is_served_from_its_bytes(device: Device, request: Exchange)
    requires
        request.well_formed(),
        request.travels(true),
    ensures
        device.asked(request.encoded()) == device.served(request),
{
    law_decode_undoes_encode(request, true);
}

/// Bytes that are no request, too short or under an unknown specifier, are
/// answered with the abort for that, end what is in progress and change
/// nothing else.
pub proof fn law_what_is_no_request_is_aborted(device: Device, data: Seq<u8>)
    requires
        data.len() < 8 || data[0] >= 0xa0,
    ensures
        device.asked(data).0 == (Device { download: None, upload: None, ..device }),
        device.asked(data).1 == (Exchange::Abort { index: 0, subindex: 0, code: 0x0504_0001 }),
{
    crate::sdo::law_refused_exactly(data, true);
}

/// A write of one request to an object that the device holds leaves exactly
/// its data there, is accepted under the object's name and touches nothing
/// else. The size that it says does not matter.
pub proof fn law_expedited_write_lands_at_once(
    device: Device,
    index: u16,
    subindex: u8,
    data: Seq<u8>,
    size: u32,
)
    requires
        device.dictionary.contains_key((index, subindex)),
    ensures
        ({
            let (after, answer) = device.served(
                Exchange::InitiateDownload { index, subindex, expedited: Some(data), size },
            );
            &&& answer == Exchange::DownloadAccepted { index, subindex }
            &&& after.dictionary == device.dictionary.insert((index, subindex), data)
            &&& after == (Device { dictionary: after.dictionary, ..device })
        }),
{
}

/// A read of an object of one to four bytes is answered with just those, and
/// leaves the device as it was.
pub proof fn law_expedited_read_comes_at_once(device: Device, index: u16, subindex: u8)
    requires
        device.dictionary.contains_key((index, subindex)),
        1 <= device.dictionary[(index, subindex)].len() <= 4,
    ensures
        ({
            let bytes = device.dictionary[(index, subindex)];
            device.served(Exchange::InitiateUpload { index, subindex }) == (
                device,
                Exchange::UploadOpened {
                    index,
                    subindex,
                    expedited: Some(bytes),
                    size: bytes.len() as u32,
                },
            )
        }),
{
}

/// A read of any other object is opened with its size, as far as the size
/// field can say it, and without data; only the upload is new. What has been
/// read of an earlier one does not matter.
pub proof fn law_long_read_is_opened_with_its_size(device: Device, index: u16, subindex: u8)
    requires
        device.dictionary.contains_key((index, subindex)),
        device.dictionary[(index, subindex)].len() == 0 || device.dictionary[(
            index,
            subindex,
        )].len() > 4,
    ensures
        ({
            let length = device.dictionary[(index, subindex)].len();
            let (after, answer) = device.served(Exchange::InitiateUpload { index, subindex });
            &&& answer matches Exchange::UploadOpened {
                index: named,
                subindex: sub,
                expedited,
                size,
            } && named == index && sub == subindex && expedited is None && (if length
                <= 0xffff_ffff {
                size == length
            } else {
                size == 0xffff_ffff
            })
            &&& after.upload is Some
            &&& after == (Device { upload: after.upload, ..device })
        }),
{
}

/// A segment without a transfer to belong to is aborted, a segment of a
/// download as an unknown command and the asking for one of an upload for its
/// length, and leaves the device as it was.
pub proof fn law_segment_needs_a_transfer(
    device: Device,
    toggle: bool,
    data: Seq<u8>,
    last: bool,
)
    ensures
        device.download is None ==> device.served(
            Exchange::DownloadSegment { toggle, data, last },
        ) == (device, Exchange::Abort { index: 0, subindex: 0, code: 0x0504_0001 }),
        device.upload is None ==> device.served(Exchange::UploadSegment { toggle }) == (
            device,
            Exchange::Abort { index: 0, subindex: 0, code: 0x0607_0010 },
        ),
{
}

/// The reasons that a device aborts with, where there is one: a toggle that
/// was not alternated, and an object that it does not hold.
pub proof fn law_aborts_say_their_reason(
    device: Device,
    request: Exchange,
    index: u16,
    subindex: u8,
    expedited: Option<Seq<u8>>,
    size: u32,
)
    ensures
        (device.download matches Some(session) && request is DownloadSegment
            && request->DownloadSegment_toggle != session.toggle) ==> device.served(request) == (
            Device { download: None, ..device },
            Exchange::Abort {
                index: device.download->0.index,
                subindex: device.download->0.subindex,
                code: 0x0503_0000,
            },
        ),
        (device.upload matches Some(session) && request is UploadSegment
            && request->UploadSegment_toggle != session.toggle) ==> device.served(request) == (
            Device { upload: None, ..device },
            Exchange::Abort {
                index: device.upload->0.index,
                subindex: device.upload->0.subindex,
                code: 0x0503_0000,
            },
        ),
        !device.dictionary.contains_key((index, subindex)) ==> {
            let missing = Exchange::Abort { index, subindex, code: 0x0602_0000 };
            &&& device.served(Exchange::InitiateDownload { index, subindex, expedited, size }) == (
                device,
                missing,
            )
            &&& device.served(Exchange::InitiateUpload { index, subindex }) == (device, missing)
        },
        request is Abort ==> device.served(request) == (
            Device { download: None, upload: None, ..device },
            Exchange::Abort { index: 0, subindex: 0, code: 0x0504_0001 },
        ),
        request.travels(false) && !(request is Abort) ==> device.served(request) == (
            device,
            Exchange::Abort { index: 0, subindex: 0, code: 0x0504_0001 },
        ),
{
}

/// What a device makes of the `k`th segment of a download, and its answer:
/// the toggles alternate from clear.
pub open spec fn nth_write(device: Device, k: nat, data: Seq<u8>, last: bool) -> (
    Device,
    Exchange,
) {
    device.served(Exchange::DownloadSegment { toggle: k % 2 == 1, data, last })
}

/// Whether the `k`th device has the download where the device before it left
/// it. What else has happened in between does not matter.
pub open spec fn writes_on(devices: Seq<Device>, parts: Seq<Seq<u8>>, k: int) -> bool {
    devices[k].download == nth_write(
        devices[k - 1],
        (k - 1) as nat,
        parts[k - 1],
        false,
    ).0.download
}

/// The first `n` parts put together.
pub open spec fn together(parts: Seq<Seq<u8>>, n: nat) -> Seq<u8>
    decreases n,
{
    if n == 0 {
        seq![]
    } else {
        together(parts, (n - 1) as nat) + parts[n - 1]
    }
}

/// The `k`th device holds the first `k` parts in its download.
proof fn lemma_writes_on(
    devices: Seq<Device>,
    parts: Seq<Seq<u8>>,
    index: u16,
    subindex: u8,
    k: nat,
)
    requires
        k < devices.len(),
        devices.len() == parts.len(),
        devices[0].download == Some(
            Session { index, subindex, toggle: false, bytes: seq![], at: 0 },
        ),
        forall|i: int| 1 <= i < devices.len() ==> #[trigger] writes_on(devices, parts, i),
    ensures
        devices[k as int].download == Some(
            Session { index, subindex, toggle: k % 2 == 1, bytes: together(parts, k), at: 0 },
        ),
    decreases k,
{
    if k > 0 {
        lemma_writes_on(devices, parts, index, subindex, (k - 1) as nat);
        assert(writes_on(devices, parts, k as int));
    }
}

/// A download in segments, however long each of them is: every segment is
/// accepted under its toggle, no object changes before the last, and with the
/// last the object that was opened is the segments put together, whatever has
/// happened to it or to any other object in between. Then the download is
/// over, and nothing else has changed.
pub proof fn law_long_write_lands_whole(
    device: Device,
    index: u16,
    subindex: u8,
    size: u32,
    devices: Seq<Device>,
    parts: Seq<Seq<u8>>,
)
    requires
        device.dictionary.contains_key((index, subindex)),
        devices.len() == parts.len(),
        devices.len() >= 1,
        devices[0].download == device.served(
            Exchange::InitiateDownload { index, subindex, expedited: None, size },
        ).0.download,
        forall|i: int| 1 <= i < devices.len() ==> #[trigger] writes_on(devices, parts, i),
    ensures
        ({
            let (opened, accepted) = device.served(
                Exchange::InitiateDownload { index, subindex, expedited: None, size },
            );
            &&& accepted == Exchange::DownloadAccepted { index, subindex }
            &&& opened == (Device { download: opened.download, ..device })
        }),
        forall|k: int|
            0 <= k < devices.len() - 1 ==> {
                let (after, answer) = #[trigger] nth_write(devices[k], k as nat, parts[k], false);
                &&& answer == Exchange::SegmentAccepted { toggle: k % 2 == 1 }
                &&& after == (Device { download: after.download, ..devices[k] })
            },
        ({
            let k = (devices.len() - 1) as nat;
            let (after, answer) = nth_write(devices.last(), k, parts.last(), true);
            &&& answer == Exchange::SegmentAccepted { toggle: k % 2 == 1 }
            &&& after == (Device {
                download: None,
                dictionary: devices.last().dictionary.insert(
                    (index, subindex),
                    together(parts, parts.len()),
                ),
                ..devices.last()
            })
        }),
{
    assert forall|k: int| 0 <= k < devices.len() - 1 implies {
        let (after, answer) = #[trigger] nth_write(devices[k], k as nat, parts[k], false);
        &&& answer == Exchange::SegmentAccepted { toggle: k % 2 == 1 }
        &&& after == (Device { download: after.download, ..devices[k] })
    } by {
        lemma_writes_on(devices, parts, index, subindex, k as nat);
    }
    lemma_writes_on(devices, parts, index, subindex, (devices.len() - 1) as nat);
}

/// What a device answers fits the size of a frame, and is put behind what is
/// already on its way.
pub proof fn law_answers_queue_up(device: Device, id: u32, data: Seq<u8>)
    ensures
        data.len() <= 8 ==> device.answering(id, data) == (Device {
            to_master: device.to_master.push(Datagram { id, data }),
            ..device
        }),
        data.len() > 8 ==> device.answering(id, data) == device,
{
}

} // verus!
