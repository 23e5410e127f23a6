//! The master's side of one bus, addressing one node's one object.
//!
//! A [`CanOpenTransport`] knows what it speaks about; the bus is handed to
//! each method that needs one. Here the bus is a [`Node`] in the same
//! process, which answers as it is transmitted to. On any other bus the
//! frames are those of [`management`], [`process_data`] and the transfers of
//! [`crate::transfer`].

use std::time::Duration;

use vstd::prelude::*;

use crate::error::{Error, Fault};
use crate::frame::{fitted, framed, Datagram, Frame};
use crate::loopback::{
    awaited, law_read, law_write, outstanding, quiet, read, requested, supply, written,
};
use crate::node::{Command, Device, Node, NMT, RPDO1_BASE};
use crate::sdo::{outcome, Sdo};
use crate::target::{address, law_path_says_its_address, parse_address, path, push_path};
use crate::transfer::{listen, post, posted, Download, Heard, Reading, Step, Upload, Writing};

verus! {

/// The object a Stream travels as unless a target says otherwise: the
/// first manufacturer-specific index, a domain.
pub const STREAM_OBJECT: (u16, u8) = (0x2000, 0);

/// The duration of a number of whole seconds.
pub uninterp spec fn whole_seconds(secs: u64) -> Duration;

/// `std`'s `Duration::from_secs`: the duration of `secs` whole seconds, a
/// function of their number alone.
pub assume_specification[ Duration::from_secs ](secs: u64) -> (duration: Duration)
    ensures
        duration == whole_seconds(secs),
;

/// The master's side of one bus, addressing one node's one object.
pub struct CanOpenTransport {
    bus: String,
    node: u8,
    index: u16,
    subindex: u8,
    timeout: Duration,
}

/// The mathematical value of a [`CanOpenTransport`].
#[verifier::ext_equal]
pub struct Master {
    /// What the bus is called.
    pub bus: Seq<char>,
    pub node: u8,
    pub index: u16,
    pub subindex: u8,
    /// How long a node may take to answer.
    pub timeout: Duration,
}

impl View for CanOpenTransport {
    type V = Master;

    closed spec fn view(&self) -> Master {
        Master {
            bus: self.bus@,
            node: self.node,
            index: self.index,
            subindex: self.subindex,
            timeout: self.timeout,
        }
    }
}

impl Clone for CanOpenTransport {
    fn clone(&self) -> (master: CanOpenTransport)
        ensures
            master@ == self@,
    {
        CanOpenTransport {
            bus: self.bus.clone(),
            node: self.node,
            index: self.index,
            subindex: self.subindex,
            timeout: self.timeout,
        }
    }
}

/// A Stream that came in, and where it came from.
#[derive(Debug, PartialEq, Eq)]
pub struct Arrived {
    pub origin_uri: String,
    pub bytes: Vec<u8>,
}

/// The mathematical value of an [`Arrived`].
#[verifier::ext_equal]
pub struct Stream {
    pub origin_uri: Seq<char>,
    pub bytes: Seq<u8>,
}

impl View for Arrived {
    type V = Stream;

    open spec fn view(&self) -> Stream {
        Stream { origin_uri: self.origin_uri@, bytes: self.bytes@ }
    }
}

/// The frame that commands `node`, or every node with 0.
pub open spec fn managing(command: Command, node: u8) -> Datagram {
    Datagram { id: NMT, data: seq![command.byte(), node] }
}

/// The frame that commands `node`, or every node with 0.
pub fn management(command: Command, node: u8) -> (frame: Frame)
    ensures
        frame@ == managing(command, node),
{
    let frame = Frame { id: NMT, data: vec![command.code(), node] };
    assert(frame@.data =~= seq![command.byte(), node]);
    frame
}

/// The frame that carries `data` as `node`'s first receive PDO: eight bytes
/// at most.
pub fn process_data(node: u8, data: &[u8]) -> (result: Result<Frame, Error>)
    ensures
        framed(result) == fitted((RPDO1_BASE + node) as u32, data@),
{
    Frame::new(RPDO1_BASE + node as u32, data)
}

/// The value of what a fallible action came to.
pub open spec fn ended(result: Result<(), Error>) -> Result<(), Fault> {
    match result {
        Ok(()) => Ok(()),
        Err(error) => Err(error@),
    }
}

/// The value of bytes that may have failed to come.
pub open spec fn gathered(result: Result<Vec<u8>, Error>) -> Result<Seq<u8>, Fault> {
    match result {
        Ok(bytes) => Ok(bytes@),
        Err(error) => Err(error@),
    }
}

/// The value of a Stream that may have failed to come.
pub open spec fn delivered(result: Result<Arrived, Error>) -> Result<Stream, Fault> {
    match result {
        Ok(arrived) => Ok(arrived@),
        Err(error) => Err(error@),
    }
}

/// What writing `bytes` to `index:subindex` on `node` makes of the device on
/// the bus, and how it ends. More bytes than an SDO can size are not sent.
pub open spec fn downloaded(
    device: Device,
    node: u8,
    index: u16,
    subindex: u8,
    bytes: Seq<u8>,
) -> (Device, Result<(), Fault>) {
    if bytes.len() > u32::MAX {
        (device, Err(Fault::Oversize))
    } else {
        written(device, Writing::started(node, index, subindex, bytes))
    }
}

impl Master {
    /// `canopen://<bus>/<node>/0x<index>/<sub>`.
    pub open spec fn origin(self, node: u8, index: u16, subindex: u8) -> Seq<char> {
        "canopen://"@ + self.bus + "/"@ + path(node, index, subindex)
    }

    /// The node and object that a target names. `located` is the path of a
    /// target that is a whole URI; one that is not is a path itself. An empty
    /// path is the configured object.
    pub open spec fn resolved(self, target: Seq<char>, located: Option<Seq<char>>) -> Result<
        (u8, u16, u8),
        Fault,
    > {
        let path = match located {
            Some(path) => path,
            None => target,
        };
        if path.len() == 0 {
            Ok((self.node, self.index, self.subindex))
        } else {
            match address(path) {
                Some(found) => Ok(found),
                None => Err(Fault::Target(target)),
            }
        }
    }

    /// What sending `bytes` to a target makes of the device on the bus, and
    /// how it ends.
    pub open spec fn sent(
        self,
        device: Device,
        target: Seq<char>,
        located: Option<Seq<char>>,
        bytes: Seq<u8>,
    ) -> (Device, Result<(), Fault>) {
        match self.resolved(target, located) {
            Ok((node, index, subindex)) => downloaded(device, node, index, subindex, bytes),
            Err(fault) => (device, Err(fault)),
        }
    }

    /// What receiving the configured object makes of the device on the bus,
    /// and the Stream that comes.
    pub open spec fn received(self, device: Device) -> (Device, Result<Stream, Fault>) {
        let (device, bytes) = read(device, Reading::started(self.node, self.index, self.subindex));
        match bytes {
            Ok(bytes) => (
                device,
                Ok(
                    Stream {
                        origin_uri: self.origin(self.node, self.index, self.subindex),
                        bytes,
                    },
                ),
            ),
            Err(fault) => (device, Err(fault)),
        }
    }

    /// What sending `payload` to the configured object and receiving it back
    /// makes of the device on the bus, and what comes back.
    pub open spec fn rounded(self, device: Device, payload: Seq<u8>) -> (
        Device,
        Result<Stream, Fault>,
    ) {
        match downloaded(device, self.node, self.index, self.subindex, payload) {
            (device, Ok(())) => self.received(device),
            (device, Err(fault)) => (device, Err(fault)),
        }
    }

    /// Whether the device on the bus is the node that the master speaks to,
    /// holds the configured object, and has left no answer on the bus.
    pub open spec fn faces(self, device: Device) -> bool {
        &&& device.well_formed()
        &&& device.id == self.node
        &&& device.dictionary.contains_key((self.index, self.subindex))
        &&& quiet(device, device.id)
    }
}

/// The path of a target as it is handed over.
pub open spec fn text_of(text: Option<&str>) -> Option<Seq<char>> {
    match text {
        Some(text) => Some(text@),
        None => None,
    }
}

/// The node at the far end of the loopback: node 1, started, the Stream
/// object empty.
pub open spec fn far_end() -> Device {
    Device::fresh(1).holding(STREAM_OBJECT.0, STREAM_OBJECT.1, seq![]).taken(
        managing(Command::Start, 1),
    )
}

/// What is sent to a node that the master faces comes back whole, however
/// long it is and however it travels, and the master still faces the node.
pub proof fn law_round(master: Master, device: Device, payload: Seq<u8>)
    requires
        master.faces(device),
        payload.len() <= u32::MAX,
    ensures
        master.rounded(device, payload).1 == Ok::<Stream, Fault>(
            Stream {
                origin_uri: master.origin(master.node, master.index, master.subindex),
                bytes: payload,
            },
        ),
        master.faces(master.rounded(device, payload).0),
        master.rounded(device, payload).0.dictionary == device.dictionary.insert(
            (master.index, master.subindex),
            payload,
        ),
{
    law_write(device, master.index, master.subindex, payload);
    let (after, _) = downloaded(device, master.node, master.index, master.subindex, payload);
    law_read(after, master.index, master.subindex);
}

/// The loopback's master faces the loopback's node, which is operational and
/// has one heartbeat on the bus.
pub proof fn law_loopback_faces_its_node(master: Master)
    requires
        master.node == 1,
        (master.index, master.subindex) == STREAM_OBJECT,
    ensures
        master.faces(far_end()),
        far_end().to_master.len() == 1,
        far_end().state == crate::node::State::Operational,
{
}

/// A target that is an origin's path names the origin's node and object.
pub proof fn law_origin_is_a_target(
    master: Master,
    target: Seq<char>,
    node: u8,
    index: u16,
    subindex: u8,
)
    ensures
        master.resolved(target, Some(path(node, index, subindex))) == Ok::<(u8, u16, u8), Fault>(
            (node, index, subindex),
        ),
        master.resolved(path(node, index, subindex), None) == Ok::<(u8, u16, u8), Fault>(
            (node, index, subindex),
        ),
{
    law_path_says_its_address(node, index, subindex);
    reveal_strlit("/");
}

impl CanOpenTransport {
    /// A master on the bus called `bus` speaking to `node` about
    /// [`STREAM_OBJECT`], with a second for each answer.
    pub fn new(bus: &str, node: u8) -> (master: CanOpenTransport)
        ensures
            master@ == (Master {
                bus: bus@,
                node,
                index: STREAM_OBJECT.0,
                subindex: STREAM_OBJECT.1,
                timeout: whole_seconds(1),
            }),
    {
        CanOpenTransport {
            bus: bus.to_owned(),
            node,
            index: STREAM_OBJECT.0,
            subindex: STREAM_OBJECT.1,
            timeout: Duration::from_secs(1),
        }
    }

    /// Speak about `index:subindex` instead.
    pub fn about(self, index: u16, subindex: u8) -> (master: CanOpenTransport)
        ensures
            master@ == (Master { index, subindex, ..self@ }),
    {
        CanOpenTransport { index, subindex, ..self }
    }

    /// Give up on a node that stops answering.
    pub fn timing_out_after(self, timeout: Duration) -> (master: CanOpenTransport)
        ensures
            master@ == (Master { timeout, ..self@ }),
    {
        CanOpenTransport { timeout, ..self }
    }

    /// The node and object that the master speaks about.
    pub fn configured(&self) -> (object: (u8, u16, u8))
        ensures
            object == (self@.node, self@.index, self@.subindex),
    {
        (self.node, self.index, self.subindex)
    }

    /// How long a node may take to answer.
    pub fn timeout(&self) -> (timeout: Duration)
        ensures
            timeout == self@.timeout,
    {
        self.timeout
    }

    /// What this transport is called.
    pub fn name(&self) -> (name: &'static str)
        ensures
            name@ == "canopen"@,
    {
        "canopen"
    }

    /// `canopen://<bus>/<node>/0x<index>/<sub>`.
    pub fn origin(&self, node: u8, index: u16, subindex: u8) -> (origin: String)
        ensures
            origin@ == self@.origin(node, index, subindex),
    {
        let mut text = String::new();
        text.append("canopen://");
        text.append(self.bus.as_str());
        text.append("/");
        push_path(&mut text, node, index, subindex);
        assert(text@ =~= self@.origin(node, index, subindex));
        text
    }

    /// Send `command` to `node`, or to every node with 0. A bus in the same
    /// process refuses nothing.
    pub fn nmt(&self, bus: &mut Node, command: Command, node: u8) -> (result: Result<(), Error>)
        requires
            old(bus)@.well_formed(),
        ensures
            result is Ok,
            final(bus)@ == old(bus)@.taken(managing(command, node)),
            final(bus)@.well_formed(),
    {
        bus.transmit(&management(command, node));
        Ok(())
    }

    /// Put `data` on the bus as `node`'s first receive PDO: eight bytes at
    /// most, taken only by a node that is operational.
    pub fn pdo(&self, bus: &mut Node, node: u8, data: &[u8]) -> (result: Result<(), Error>)
        requires
            old(bus)@.well_formed(),
        ensures
            match fitted((RPDO1_BASE + node) as u32, data@) {
                Ok(frame) => result is Ok && final(bus)@ == old(bus)@.taken(frame),
                Err(fault) => ended(result) == Err::<(), Fault>(fault) && final(bus)@ == old(bus)@,
            },
            final(bus)@.well_formed(),
    {
        match process_data(node, data) {
            Ok(frame) => {
                bus.transmit(&frame);
                Ok(())
            },
            Err(error) => Err(error),
        }
    }

    /// Write `bytes` to `index:subindex` on `node`: expedited when they are
    /// one to four bytes, segmented otherwise.
    pub fn download(
        &self,
        bus: &mut Node,
        node: u8,
        index: u16,
        subindex: u8,
        bytes: &[u8],
    ) -> (result: Result<(), Error>)
        requires
            old(bus)@.well_formed(),
        ensures
            (final(bus)@, ended(result)) == downloaded(old(bus)@, node, index, subindex, bytes@),
            final(bus)@.well_formed(),
    {
        let mut download = match Download::new(node, index, subindex, bytes) {
            Ok(download) => download,
            Err(error) => {
                return Err(error);
            },
        };
        let ghost end = written(bus@, download@);
        loop
            invariant
                bus@.well_formed(),
                download@.well_formed(),
                download@.node == node,
                written(bus@, download@) == end,
                end == downloaded(old(bus)@, node, index, subindex, bytes@),
            decreases outstanding(download@),
        {
            match self.request(bus, node, &download.request()) {
                Ok(answer) => match download.answer(answer) {
                    Step::Done(()) => {
                        return Ok(());
                    },
                    Step::Failed(error) => {
                        return Err(error);
                    },
                    _ => {},
                },
                Err(error) => {
                    return Err(error);
                },
            }
        }
    }

    /// Read `index:subindex` from `node`.
    pub fn upload(&self, bus: &mut Node, node: u8, index: u16, subindex: u8) -> (result: Result<
        Vec<u8>,
        Error,
    >)
        requires
            old(bus)@.well_formed(),
        ensures
            (final(bus)@, gathered(result)) == read(
                old(bus)@,
                Reading::started(node, index, subindex),
            ),
            final(bus)@.well_formed(),
    {
        let mut upload = Upload::new(node, index, subindex);
        let ghost end = read(bus@, upload@);
        loop
            invariant
                bus@.well_formed(),
                upload@.node == node,
                read(bus@, upload@) == end,
                end == read(old(bus)@, Reading::started(node, index, subindex)),
            decreases
                    if upload@.opened { 0int } else { 1 },
                    supply(bus@, node),
        {
            proof {
                if upload@.opened {
                    crate::loopback::lemma_supply(bus@, node, upload@.toggle);
                }
            }
            match self.request(bus, node, &upload.request()) {
                Ok(answer) => match upload.answer(answer) {
                    Step::Done(bytes) => {
                        return Ok(bytes);
                    },
                    Step::Failed(error) => {
                        return Err(error);
                    },
                    _ => {},
                },
                Err(error) => {
                    return Err(error);
                },
            }
        }
    }

    /// One SDO request to `node` and its answer.
    fn request(&self, bus: &mut Node, node: u8, request: &Sdo) -> (result: Result<Sdo, Error>)
        requires
            old(bus)@.well_formed(),
        ensures
            (final(bus)@, outcome(result)) == requested(old(bus)@, node, request@),
            final(bus)@.well_formed(),
    {
        bus.transmit(&post(node, request));
        let ghost asked = bus@;
        loop
            invariant
                asked == old(bus)@.taken(posted(node, request@)),
                asked.well_formed(),
                bus@ == (Device { to_master: bus@.to_master, ..asked }),
                awaited(node, bus@.to_master) == awaited(node, asked.to_master),
            decreases bus@.to_master.len(),
        {
            let heard = match bus.receive() {
                Some(frame) => Heard::Frame { frame, late: false },
                None => Heard::Nothing { late: true },
            };
            match listen(node, heard) {
                Step::Done(answer) => {
                    return Ok(answer);
                },
                Step::Failed(error) => {
                    return Err(error);
                },
                _ => {},
            }
        }
    }

    /// The node and object a target names, or the configured ones. `located`
    /// is the path of a target that is a whole `canopen://` URI. Anything
    /// that is not `<node>/0x<index>/<sub>` is refused.
    pub fn resolve(&self, target: &str, located: Option<&str>) -> (result: Result<
        (u8, u16, u8),
        Error,
    >)
        ensures
            match result {
                Ok(found) => self@.resolved(target@, text_of(located)) == Ok::<
                    (u8, u16, u8),
                    Fault,
                >(found),
                Err(error) => self@.resolved(target@, text_of(located)) == Err::<
                    (u8, u16, u8),
                    Fault,
                >(error@),
            },
    {
        let path = match located {
            Some(path) => path,
            None => target,
        };
        if path.is_empty() {
            return Ok(self.configured());
        }
        match parse_address(path) {
            Some(found) => Ok(found),
            None => Err(Error::Target(target.to_owned())),
        }
    }

    /// One download of `bytes` to the object `target` names.
    pub fn send(&self, bus: &mut Node, target: &str, located: Option<&str>, bytes: &[u8]) -> (result:
        Result<(), Error>)
        requires
            old(bus)@.well_formed(),
        ensures
            (final(bus)@, ended(result)) == self@.sent(
                old(bus)@,
                target@,
                text_of(located),
                bytes@,
            ),
            final(bus)@.well_formed(),
    {
        match self.resolve(target, located) {
            Ok((node, index, subindex)) => self.download(bus, node, index, subindex, bytes),
            Err(error) => Err(error),
        }
    }

    /// One upload of the object: its bytes as one Stream.
    pub fn receive(&self, bus: &mut Node) -> (result: Result<Vec<Arrived>, Error>)
        requires
            old(bus)@.well_formed(),
        ensures
            match result {
                Ok(arrived) => {
                    &&& arrived@.len() == 1
                    &&& (final(bus)@, Ok::<Stream, Fault>(arrived@[0]@)) == self@.received(
                        old(bus)@,
                    )
                },
                Err(error) => (final(bus)@, Err::<Stream, Fault>(error@)) == self@.received(
                    old(bus)@,
                ),
            },
            final(bus)@.well_formed(),
    {
        match self.upload(bus, self.node, self.index, self.subindex) {
            Ok(bytes) => {
                let origin_uri = self.origin(self.node, self.index, self.subindex);
                Ok(vec![Arrived { origin_uri, bytes }])
            },
            Err(error) => Err(error),
        }
    }

    /// Both ends on one in-process bus: a master and node 1, started, the
    /// Stream object empty, the loopback's timeout on the master.
    pub fn loopback(timeout: Duration) -> (ends: (CanOpenTransport, Node))
        ensures
            ends.0@ == (Master {
                bus: "loopback"@,
                node: 1,
                index: STREAM_OBJECT.0,
                subindex: STREAM_OBJECT.1,
                timeout,
            }),
            ends.1@ == far_end(),
            ends.0@.faces(ends.1@),
    {
        let mut node = Node::new(1).with_object(STREAM_OBJECT.0, STREAM_OBJECT.1, Vec::new());
        let master = CanOpenTransport::new(node.name(), 1).timing_out_after(timeout);
        // A start is answered with a heartbeat; nobody is reading, and the
        // SDO client skips what is not its answer.
        let _ = master.nmt(&mut node, Command::Start, 1);
        (master, node)
    }

    /// One round over an in-process bus: the download goes first and the
    /// upload reads it back.
    pub fn round(&self, bus: &mut Node, payload: &[u8]) -> (result: Result<Arrived, Error>)
        requires
            old(bus)@.well_formed(),
        ensures
            (final(bus)@, delivered(result)) == self@.rounded(old(bus)@, payload@),
            self@.faces(old(bus)@) && payload@.len() <= u32::MAX ==> {
                &&& result matches Ok(arrived) && arrived@ == (Stream {
                    origin_uri: self@.origin(self@.node, self@.index, self@.subindex),
                    bytes: payload@,
                })
                &&& self@.faces(final(bus)@)
            },
            final(bus)@.well_formed(),
    {
        let address = self.origin(self.node, self.index, self.subindex);
        let mut path = String::new();
        push_path(&mut path, self.node, self.index, self.subindex);
        proof {
            assert(path@ =~= crate::target::path(self.node, self.index, self.subindex));
            law_origin_is_a_target(self@, address@, self.node, self.index, self.subindex);
            if self@.faces(old(bus)@) && payload@.len() <= u32::MAX {
                law_round(self@, old(bus)@, payload@);
            }
        }
        match self.send(bus, address.as_str(), Some(path.as_str()), payload) {
            Ok(()) => {},
            Err(error) => {
                return Err(error);
            },
        }
        match self.receive(bus) {
            Ok(arrived) => {
                let mut arrived = arrived;
                Ok(arrived.swap_remove(0))
            },
            Err(error) => Err(error),
        }
    }
}

/// The frame that commands a node has COB-ID 0 and two bytes: the command's,
/// and the node's number. It moves the node that it is for, or every node if
/// that is 0, to the state asked for, with one heartbeat and without transfers;
/// a node that it is not for is exactly as it was.
pub proof fn law_command_moves_whom_it_is_for(device: Device, command: Command, node: u8)
    ensures
        ({
            let frame = managing(command, node);
            let after = device.taken(frame);
            &&& frame.id == 0
            &&& frame.data.len() == 2
            &&& frame.data[0] == (match command {
                Command::Start => 0x01u8,
                Command::Stop => 0x02u8,
                Command::PreOperational => 0x80u8,
                Command::Reset => 0x81u8,
            })
            &&& frame.data[1] == node
            &&& node != 0 && node != device.id ==> after == device
            &&& node == 0 || node == device.id ==> {
                &&& after.state == (match command {
                    Command::Start => crate::node::State::Operational,
                    Command::Stop => crate::node::State::Stopped,
                    Command::PreOperational => crate::node::State::PreOperational,
                    Command::Reset => crate::node::State::PreOperational,
                })
                &&& after.download is None
                &&& after.upload is None
                &&& after.id == device.id
                &&& after.dictionary == device.dictionary
                &&& after.to_master.len() == device.to_master.len() + 1
                &&& after.to_master.drop_last() == device.to_master
                &&& after.to_master.last().id == 0x700 + device.id
                &&& after.to_master.last().data == seq![after.state.byte()]
            }
        }),
{
    crate::node::law_network_management(device, managing(command, node).data);
}

/// Up to eight bytes to a node's first receive PDO land in its `0x6200:01` if
/// it is operational, and change nothing else and no other node; more bytes
/// make no frame.
pub proof fn law_pdo_reaches_its_node(device: Device, node: u8, data: Seq<u8>)
    requires
        device.well_formed(),
    ensures
        match fitted((RPDO1_BASE + node) as u32, data) {
            Ok(frame) => {
                let after = device.taken(frame);
                &&& data.len() <= 8
                &&& frame.id == 0x200 + node
                &&& frame.data == data
                &&& if node == device.id && device.state == crate::node::State::Operational {
                    &&& after.dictionary == device.dictionary.insert((0x6200, 1), data)
                    &&& after == (Device { dictionary: after.dictionary, ..device })
                } else {
                    after == device
                }
            },
            Err(fault) => data.len() > 8 && fault == Fault::Overlong,
        },
{
    if let Ok(frame) = fitted((RPDO1_BASE + node) as u32, data) {
        crate::node::law_frames_by_their_identifiers(device, frame);
    }
}

/// An origin is the scheme, the bus, the node in decimal, the index as four
/// hexadecimal digits and the subindex in decimal; the master's own node and
/// object have no part in it.
pub proof fn law_origin_names_bus_node_and_object(
    master: Master,
    node: u8,
    index: u16,
    subindex: u8,
)
    ensures
        master.origin(node, index, subindex) == "canopen://"@ + master.bus + "/"@ + (
        crate::text::decimal(node as nat) + "/0x"@ + crate::text::hexadecimal(index as nat, 4)
            + "/"@ + crate::text::decimal(subindex as nat)),
{
}

/// A target names what its path says, whatever the master is configured for:
/// the path that was found in it, or the target itself if none was. Only an
/// empty path is the configured object, and a path that says no address is
/// refused with the target as it was given.
pub proof fn law_target_names_what_its_path_says(
    master: Master,
    target: Seq<char>,
    path: Seq<char>,
)
    ensures
        path.len() == 0 ==> master.resolved(target, Some(path)) == Ok::<(u8, u16, u8), Fault>(
            (master.node, master.index, master.subindex),
        ),
        path.len() > 0 ==> match address(path) {
            Some(found) => master.resolved(target, Some(path)) == Ok::<(u8, u16, u8), Fault>(
                found,
            ),
            None => master.resolved(target, Some(path)) == Err::<(u8, u16, u8), Fault>(
                Fault::Target(target),
            ),
        },
        target.len() == 0 ==> master.resolved(target, None) == Ok::<(u8, u16, u8), Fault>(
            (master.node, master.index, master.subindex),
        ),
        target.len() > 0 ==> match address(target) {
            Some(found) => master.resolved(target, None) == Ok::<(u8, u16, u8), Fault>(found),
            None => master.resolved(target, None) == Err::<(u8, u16, u8), Fault>(
                Fault::Target(target),
            ),
        },
{
}

/// What writing comes to on a bus with nothing from the node on it, by what
/// the device on the bus is: one of that number that holds the object takes
/// the bytes there and nowhere else, one that does not hold it aborts, and one
/// of another number is silent. Neither of the last two changes an object, and
/// more bytes than a size field can say are not sent at all.
pub proof fn law_write_reaches_its_object(
    device: Device,
    node: u8,
    index: u16,
    subindex: u8,
    bytes: Seq<u8>,
)
    requires
        device.well_formed(),
        forall|i: int|
            0 <= i < device.to_master.len() ==> (#[trigger] device.to_master[i]).id != 0x580
                + node,
    ensures
        ({
            let (after, result) = downloaded(device, node, index, subindex, bytes);
            &&& after.id == device.id
            &&& after.state == device.state
            &&& after.well_formed()
            &&& if bytes.len() > 0xffff_ffff {
                result == Err::<(), Fault>(Fault::Oversize) && after == device
            } else if device.id != node {
                &&& result == Err::<(), Fault>(Fault::Silent)
                &&& after.dictionary == device.dictionary
            } else if !device.dictionary.contains_key((index, subindex)) {
                &&& result == Err::<(), Fault>(Fault::Aborted(0x0602_0000))
                &&& after.dictionary == device.dictionary
            } else {
                &&& result == Ok::<(), Fault>(())
                &&& after.dictionary == device.dictionary.insert((index, subindex), bytes)
            }
            &&& bytes.len() <= 0xffff_ffff ==> after.to_master.len() == 0
        }),
{
    if bytes.len() <= u32::MAX {
        if device.id != node {
            crate::loopback::law_absent_node_is_neither_written_nor_read(
                device,
                node,
                index,
                subindex,
                bytes,
            );
        } else if !device.dictionary.contains_key((index, subindex)) {
            crate::loopback::law_missing_object_is_aborted(device, index, subindex, bytes);
        } else {
            law_write(device, index, subindex, bytes);
        }
    }
}

/// Sending goes where the target says. A target that names a node and an
/// object, in its own text or in the path that was found in it, is written on
/// that node at that object, whatever node and object the master is configured
/// for: a device of that number that holds the object has the bytes there and
/// every other object as it was, one that does not hold it aborts, and one of
/// another number keeps everything it has and is silent.
pub proof fn law_send_goes_where_the_target_says(
    master: Master,
    device: Device,
    target: Seq<char>,
    located: Option<Seq<char>>,
    bytes: Seq<u8>,
)
    requires
        device.well_formed(),
        bytes.len() <= 0xffff_ffff,
        forall|i: int|
            0 <= i < device.to_master.len() ==> !(0x580 <= (#[trigger] device.to_master[i]).id
                < 0x680),
    ensures
        ({
            let path = if located is Some { located->0 } else { target };
            let (after, result) = master.sent(device, target, located, bytes);
            let configured = Some((master.node, master.index, master.subindex));
            match if path.len() == 0 { configured } else { address(path) } {
                None => result == Err::<(), Fault>(Fault::Target(target)) && after == device,
                Some((node, index, subindex)) => if device.id != node {
                    &&& result == Err::<(), Fault>(Fault::Silent)
                    &&& after.dictionary == device.dictionary
                } else if !device.dictionary.contains_key((index, subindex)) {
                    &&& result == Err::<(), Fault>(Fault::Aborted(0x0602_0000))
                    &&& after.dictionary == device.dictionary
                } else {
                    &&& result == Ok::<(), Fault>(())
                    &&& after.dictionary == device.dictionary.insert((index, subindex), bytes)
                },
            }
        }),
{
    let path = if located is Some { located->0 } else { target };
    law_target_names_what_its_path_says(master, target, path);
    match master.resolved(target, located) {
        Ok((node, index, subindex)) => {
            law_write_reaches_its_object(device, node, index, subindex, bytes);
        },
        Err(_) => {},
    }
}

/// Sending to any node and object by the path of its origin writes there, as
/// does sending by the origin in which that path was found, for every master.
pub proof fn law_send_reaches_any_origin(
    master: Master,
    device: Device,
    target: Seq<char>,
    node: u8,
    index: u16,
    subindex: u8,
    bytes: Seq<u8>,
)
    ensures
        ({
            let named = path(node, index, subindex);
            &&& master.sent(device, named, None, bytes) == downloaded(
                device,
                node,
                index,
                subindex,
                bytes,
            )
            &&& master.sent(device, target, Some(named), bytes) == downloaded(
                device,
                node,
                index,
                subindex,
                bytes,
            )
        }),
{
    law_origin_is_a_target(master, target, node, index, subindex);
}

/// Sending to a target that names a node and an object is writing there, on
/// any bus, whatever is on it; and a target that is refused sends nothing.
pub proof fn law_send_is_a_write(
    master: Master,
    device: Device,
    target: Seq<char>,
    located: Option<Seq<char>>,
    bytes: Seq<u8>,
)
    ensures
        match master.resolved(target, located) {
            Ok(found) => master.sent(device, target, located, bytes) == downloaded(
                device,
                found.0,
                found.1,
                found.2,
                bytes,
            ),
            Err(fault) => master.sent(device, target, located, bytes) == (
                device,
                Err::<(), Fault>(fault),
            ),
        },
{
}

/// Receiving gives the configured object of the configured node as it is, under
/// its origin, and changes no object. A device that does not hold it aborts,
/// and one of another number is silent.
pub proof fn law_receive_gives_the_object(master: Master, device: Device)
    requires
        device.well_formed(),
        forall|i: int|
            0 <= i < device.to_master.len() ==> (#[trigger] device.to_master[i]).id != 0x580
                + master.node,
    ensures
        ({
            let object = (master.index, master.subindex);
            let (after, result) = master.received(device);
            &&& after.dictionary == device.dictionary
            &&& after.id == device.id
            &&& after.state == device.state
            &&& after.to_master.len() == 0
            &&& if device.id != master.node {
                result == Err::<Stream, Fault>(Fault::Silent)
            } else if !device.dictionary.contains_key(object) {
                result == Err::<Stream, Fault>(Fault::Aborted(0x0602_0000))
            } else {
                &&& result matches Ok(stream) && stream.bytes == device.dictionary[object]
                    && stream.origin_uri == master.origin(
                    master.node,
                    master.index,
                    master.subindex,
                )
            }
        }),
{
    if device.id != master.node {
        crate::loopback::law_absent_node_is_neither_written_nor_read(
            device,
            master.node,
            master.index,
            master.subindex,
            seq![],
        );
    } else if !device.dictionary.contains_key((master.index, master.subindex)) {
        crate::loopback::law_missing_object_is_aborted(
            device,
            master.index,
            master.subindex,
            seq![],
        );
    } else {
        law_read(device, master.index, master.subindex);
    }
}

/// Receiving is reading the configured object, on any bus, whatever is on it.
pub proof fn law_receive_is_a_read(master: Master, device: Device)
    ensures
        ({
            let (after, bytes) = read(
                device,
                Reading::started(master.node, master.index, master.subindex),
            );
            &&& master.received(device).0 == after
            &&& bytes matches Ok(bytes) ==> master.received(device).1 == Ok::<Stream, Fault>(
                Stream {
                    origin_uri: master.origin(master.node, master.index, master.subindex),
                    bytes,
                },
            )
            &&& bytes matches Err(fault) ==> master.received(device).1 == Err::<Stream, Fault>(
                fault,
            )
        }),
{
}

/// A round is a write of the configured object and, if that succeeds, what is
/// then received; a write that fails is the end of it.
pub proof fn law_round_is_a_write_and_a_receive(master: Master, device: Device, payload: Seq<u8>)
    ensures
        ({
            let (after, result) = downloaded(
                device,
                master.node,
                master.index,
                master.subindex,
                payload,
            );
            &&& result is Ok ==> master.rounded(device, payload) == master.received(after)
            &&& result matches Err(fault) ==> master.rounded(device, payload) == (
                after,
                Err::<Stream, Fault>(fault),
            )
        }),
{
}

/// A master faces a node of its number that holds its object and has nothing
/// of its own on the bus.
pub proof fn law_facing(master: Master, device: Device)
    requires
        device.well_formed(),
        device.id == master.node,
        device.dictionary.contains_key((master.index, master.subindex)),
        forall|i: int|
            0 <= i < device.to_master.len() ==> (#[trigger] device.to_master[i]).id != 0x580
                + device.id,
    ensures
        master.faces(device),
{
}

/// The far end of the loopback is node 1, operational, with an empty Stream
/// object beside its device type, no transfer, and the heartbeat of its start
/// on the bus.
pub proof fn law_far_end(object: (u16, u8))
    ensures
        far_end().id == 1,
        far_end().state == crate::node::State::Operational,
        far_end().dictionary.contains_key(object) <==> object == (0x2000u16, 0u8) || object == (
            0x1000u16,
            0u8,
        ),
        far_end().dictionary[(0x2000, 0)].len() == 0,
        far_end().download is None,
        far_end().upload is None,
        far_end().to_master == seq![Datagram { id: 0x701, data: seq![0x05u8] }],
{
    assert(far_end().to_master =~= seq![Datagram { id: 0x701, data: seq![0x05u8] }]);
}

/// What an action came to is told apart by whether it failed, and keeps what
/// it gave or why it failed; a path that may be absent keeps its text.
pub proof fn law_results_are_told_apart(
    done: Result<(), Error>,
    read: Result<Vec<u8>, Error>,
    stream: Result<Arrived, Error>,
    text: Option<&str>,
)
    ensures
        done is Ok ==> ended(done) == Ok::<(), Fault>(()),
        done matches Err(error) ==> ended(done) == Err::<(), Fault>(error@),
        read matches Ok(bytes) ==> gathered(read) == Ok::<Seq<u8>, Fault>(bytes@),
        read matches Err(error) ==> gathered(read) == Err::<Seq<u8>, Fault>(error@),
        stream matches Ok(arrived) ==> delivered(stream) == Ok::<Stream, Fault>(
            Stream { origin_uri: arrived.origin_uri@, bytes: arrived.bytes@ },
        ),
        stream matches Err(error) ==> delivered(stream) == Err::<Stream, Fault>(error@),
        text matches Some(path) ==> text_of(text) == Some(path@),
        text is None ==> text_of(text) is None,
{
}

} // verus!
