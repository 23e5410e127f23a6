//! A master and a node on one in-process bus: what a request, a write and a
//! read come to when the node at the far end is a [`Device`], and what that
//! means for what is written and read.

use vstd::prelude::*;

use crate::error::Fault;
use crate::frame::Datagram;
use crate::node::{Device, Session};
use crate::sdo::{
    law_decode_undoes_encode, law_encoded_length, Exchange, ABORT_NO_OBJECT, EXPEDITED_DATA,
    SEGMENT_DATA, SERVER_BASE,
};
use crate::transfer::{listened, posted, Reading, Sound, Turn, Writing};

verus! {

/// What is left of the frames for the master when it has waited for `node`
/// to answer, and the answer. Frames that are not the node's are passed over;
/// when there are none left, no answer will come.
pub open spec fn awaited(node: u8, queue: Seq<Datagram>) -> (
    Seq<Datagram>,
    Result<Exchange, Fault>,
)
    decreases queue.len(),
{
    if queue.len() == 0 {
        (queue, Err(Fault::Silent))
    } else {
        match listened(node, Sound::Frame { frame: queue.first(), late: false }) {
            Turn::Done(answer) => (queue.drop_first(), Ok(answer)),
            Turn::Failed(fault) => (queue.drop_first(), Err(fault)),
            _ => awaited(node, queue.drop_first()),
        }
    }
}

/// What one request to `node` makes of the device on the bus, and the answer.
pub open spec fn requested(device: Device, node: u8, request: Exchange) -> (
    Device,
    Result<Exchange, Fault>,
) {
    let asked = device.taken(posted(node, request));
    let (queue, answer) = awaited(node, asked.to_master);
    (Device { to_master: queue, ..asked }, answer)
}

/// How many answers a write still waits for, at most.
pub open spec fn outstanding(writing: Writing) -> nat {
    let left = if writing.at <= writing.bytes.len() {
        (writing.bytes.len() - writing.at) as nat
    } else {
        0
    };
    if writing.opened { left } else { left + 1 }
}

/// What a write makes of the device on the bus, and how it ends.
pub open spec fn written(device: Device, writing: Writing) -> (Device, Result<(), Fault>)
    decreases outstanding(writing),
{
    let (device, answer) = requested(device, writing.node, writing.request());
    match answer {
        Err(fault) => (device, Err(fault)),
        Ok(answer) => match writing.answered(answer) {
            (_, Turn::Done(_)) => (device, Ok(())),
            (_, Turn::Failed(fault)) => (device, Err(fault)),
            (writing, _) => written(device, writing),
        },
    }
}

/// Whether a frame brings a segment of an upload from `node`.
pub open spec fn brings_data(node: u8, frame: Datagram) -> bool {
    listened(node, Sound::Frame { frame, late: false }) matches Turn::Done(answer)
        && answer is UploadData
}

/// How many frames bring a segment of an upload from `node`.
pub open spec fn pending(node: u8, queue: Seq<Datagram>) -> nat
    decreases queue.len(),
{
    if queue.len() == 0 {
        0
    } else {
        pending(node, queue.drop_first()) + (if brings_data(node, queue.first()) { 1nat } else { 0 })
    }
}

/// How many segments the device can still bring, at most: those on the bus
/// and those of the upload in progress.
pub open spec fn supply(device: Device, node: u8) -> nat {
    pending(node, device.to_master) + (match device.upload {
        None => 0nat,
        Some(session) => if session.at <= session.bytes.len() {
            (session.bytes.len() - session.at + 1) as nat
        } else {
            1
        },
    })
}

/// What a read makes of the device on the bus, and how it ends.
pub open spec fn read(device: Device, reading: Reading) -> (Device, Result<Seq<u8>, Fault>)
    decreases
            if reading.opened { 0int } else { 1 },
            supply(device, reading.node),
{
    let (next, answer) = requested(device, reading.node, reading.request());
    proof {
        if reading.opened {
            lemma_supply(device, reading.node, reading.toggle);
        }
    }
    match answer {
        Err(fault) => (next, Err(fault)),
        Ok(answer) => match reading.answered(answer) {
            (_, Turn::Done(bytes)) => (next, Ok(bytes)),
            (_, Turn::Failed(fault)) => (next, Err(fault)),
            (reading, _) => read(next, reading),
        },
    }
}

proof fn lemma_pending_push(node: u8, queue: Seq<Datagram>, frame: Datagram)
    ensures
        pending(node, queue.push(frame)) == pending(node, queue) + (if brings_data(node, frame) {
            1nat
        } else {
            0
        }),
    decreases queue.len(),
{
    if queue.len() == 0 {
        assert(queue.push(frame).drop_first() =~= queue);
    } else {
        assert(queue.push(frame).drop_first() =~= queue.drop_first().push(frame));
        lemma_pending_push(node, queue.drop_first(), frame);
    }
}

proof fn lemma_pending_awaited(node: u8, queue: Seq<Datagram>)
    ensures
        pending(node, awaited(node, queue).0) <= pending(node, queue),
        awaited(node, queue).1 matches Ok(answer) && answer is UploadData ==> pending(
            node,
            awaited(node, queue).0,
        ) < pending(node, queue),
    decreases queue.len(),
{
    if queue.len() > 0 {
        lemma_pending_awaited(node, queue.drop_first());
    }
}

/// What a device answers a request with when the request is for it.
proof fn lemma_taken_request(device: Device, request: Exchange)
    requires
        request.well_formed(),
        request.travels(true),
    ensures
        device.taken(posted(device.id, request)) == ({
            let (served, answer) = device.served(request);
            Device {
                to_master: served.to_master.push(
                    Datagram { id: (SERVER_BASE + device.id) as u32, data: answer.encoded() },
                ),
                ..served
            }
        }),
{
    law_decode_undoes_encode(request, true);
    law_encoded_length(device.served(request).1);
}

/// A segment that comes leaves the device with less to bring.
pub proof fn lemma_supply(device: Device, node: u8, toggle: bool)
    ensures
        requested(device, node, Exchange::UploadSegment { toggle }).1 matches Ok(answer)
            && answer is UploadData ==> supply(
            requested(device, node, Exchange::UploadSegment { toggle }).0,
            node,
        ) < supply(device, node),
{
    let request = Exchange::UploadSegment { toggle };
    let asked = device.taken(posted(node, request));
    lemma_pending_awaited(node, asked.to_master);
    if device.id == node {
        lemma_taken_request(device, request);
        let (served, answer) = device.served(request);
        let frame = Datagram { id: (SERVER_BASE + device.id) as u32, data: answer.encoded() };
        lemma_pending_push(node, device.to_master, frame);
        if answer is Abort {
            law_decode_undoes_encode(answer, false);
        }
    }
}

/// Whether no answer of `node` is on its way to the master. An answer that
/// nobody waited for would be taken for the answer to the next request.
pub open spec fn quiet(device: Device, node: u8) -> bool {
    forall|i: int|
        0 <= i < device.to_master.len() ==> (#[trigger] device.to_master[i]).id != SERVER_BASE
            + node
}

/// The device with nothing on its way to the master.
pub open spec fn drained(device: Device) -> Device {
    Device { to_master: seq![], ..device }
}

proof fn lemma_awaited(node: u8, queue: Seq<Datagram>, answer: Exchange)
    requires
        forall|i: int| 0 <= i < queue.len() ==> (#[trigger] queue[i]).id != SERVER_BASE + node,
        answer.well_formed(),
        answer.travels(false),
    ensures
        awaited(node, queue) == (Seq::<Datagram>::empty(), Err::<Exchange, Fault>(Fault::Silent)),
        awaited(
            node,
            queue.push(Datagram { id: (SERVER_BASE + node) as u32, data: answer.encoded() }),
        ) == (Seq::<Datagram>::empty(), Ok::<Exchange, Fault>(answer)),
    decreases queue.len(),
{
    let frame = Datagram { id: (SERVER_BASE + node) as u32, data: answer.encoded() };
    law_decode_undoes_encode(answer, false);
    if queue.len() == 0 {
        assert(queue =~= Seq::<Datagram>::empty());
        assert(queue.push(frame).drop_first() =~= queue);
    } else {
        assert(queue[0].id != SERVER_BASE + node);
        assert(queue.push(frame).first() == queue[0]);
        assert(queue.push(frame).drop_first() =~= queue.drop_first().push(frame));
        assert forall|i: int| 0 <= i < queue.drop_first().len() implies (
        #[trigger] queue.drop_first()[i]).id != SERVER_BASE + node by {
            assert(queue.drop_first()[i] == queue[i + 1]);
        }
        lemma_awaited(node, queue.drop_first(), answer);
    }
}

/// On a quiet bus a request to the device is answered with what the device
/// serves, and nothing is left on the bus.
pub proof fn law_request_is_served(device: Device, request: Exchange)
    requires
        device.well_formed(),
        quiet(device, device.id),
        request.well_formed(),
        request.travels(true),
    ensures
        requested(device, device.id, request) == (
            drained(device.served(request).0),
            Ok::<Exchange, Fault>(device.served(request).1),
        ),
{
    let (served, answer) = device.served(request);
    lemma_taken_request(device, request);
    assert(served.to_master == device.to_master);
    assert(answer.well_formed() && answer.travels(false));
    lemma_awaited(device.id, device.to_master, answer);
}

/// On a quiet bus a request to a node that is not there is met with silence,
/// and the device that is there is none the wiser.
pub proof fn law_absent_node_is_silent(device: Device, node: u8, request: Exchange)
    requires
        quiet(device, node),
        device.id != node,
    ensures
        requested(device, node, request) == (
            drained(device),
            Err::<Exchange, Fault>(Fault::Silent),
        ),
{
    lemma_awaited(node, device.to_master, Exchange::SegmentAccepted { toggle: false });
}

/// The rest of a segmented write: with a download open that holds what has
/// been taken so far, the object ends up as all of the bytes.
proof fn lemma_written_segments(device: Device, writing: Writing)
    requires
        device.well_formed(),
        quiet(device, device.id),
        writing.node == device.id,
        writing.opened,
        writing.well_formed(),
        device.download == Some(
            Session {
                index: writing.index,
                subindex: writing.subindex,
                toggle: writing.toggle,
                bytes: writing.bytes.take(writing.at as int),
                at: 0,
            },
        ),
    ensures
        written(device, writing) == (
            drained(
                Device { download: None, ..device }.holding(
                    writing.index,
                    writing.subindex,
                    writing.bytes,
                ),
            ),
            Ok::<(), Fault>(()),
        ),
    decreases outstanding(writing),
{
    let request = writing.request();
    law_request_is_served(device, request);
    let (next, answer) = requested(device, writing.node, request);
    if writing.last() {
        assert(writing.bytes.take(writing.at as int) + request->DownloadSegment_data
            =~= writing.bytes);
    } else {
        let advanced = writing.advanced();
        assert(writing.bytes.take(writing.at as int) + request->DownloadSegment_data
            =~= writing.bytes.take(advanced.at as int));
        lemma_written_segments(next, advanced);
    }
}

/// A write to an object that the device holds succeeds, however long it is,
/// and changes that object to what was written and no other.
pub proof fn law_write(device: Device, index: u16, subindex: u8, bytes: Seq<u8>)
    requires
        device.well_formed(),
        quiet(device, device.id),
        device.dictionary.contains_key((index, subindex)),
        bytes.len() <= u32::MAX,
    ensures
        ({
            let writing = Writing::started(device.id, index, subindex, bytes);
            let download = if writing.expedited() { device.download } else { None };
            written(device, writing) == (
                drained(Device { download, ..device }.holding(index, subindex, bytes)),
                Ok::<(), Fault>(()),
            )
        }),
{
    let writing = Writing::started(device.id, index, subindex, bytes);
    law_request_is_served(device, writing.request());
    let (next, answer) = requested(device, writing.node, writing.request());
    if !writing.expedited() {
        assert(bytes.take(0) =~= seq![]);
        lemma_written_segments(next, writing.accepted());
    }
}

/// The rest of a segmented read: with an upload open at what has come so
/// far, all of the bytes come.
proof fn lemma_read_segments(device: Device, reading: Reading, session: Session)
    requires
        device.well_formed(),
        quiet(device, device.id),
        reading.node == device.id,
        reading.opened,
        device.upload == Some(session),
        session.toggle == reading.toggle,
        session.bytes.take(session.at as int) == reading.bytes,
    ensures
        read(device, reading) == (
            drained(Device { upload: None, ..device }),
            Ok::<Seq<u8>, Fault>(session.bytes),
        ),
    decreases session.bytes.len() - session.at,
{
    law_request_is_served(device, reading.request());
    let (next, answer) = requested(device, reading.node, reading.request());
    let data = answer->Ok_0->UploadData_data;
    if session.at + SEGMENT_DATA < session.bytes.len() {
        let end = (session.at + SEGMENT_DATA) as nat;
        let session = Session { toggle: !session.toggle, at: end, ..session };
        assert(reading.bytes + data =~= session.bytes.take(end as int));
        lemma_read_segments(next, reading.advanced(data), session);
    } else {
        assert(reading.bytes + data =~= session.bytes);
    }
}

/// A read of an object that the device holds gives its bytes, however long
/// they are, and changes no object.
pub proof fn law_read(device: Device, index: u16, subindex: u8)
    requires
        device.well_formed(),
        quiet(device, device.id),
        device.dictionary.contains_key((index, subindex)),
    ensures
        ({
            let bytes = device.dictionary[(index, subindex)];
            let upload = if 1 <= bytes.len() <= EXPEDITED_DATA { device.upload } else { None };
            read(device, Reading::started(device.id, index, subindex)) == (
                drained(Device { upload, ..device }),
                Ok::<Seq<u8>, Fault>(bytes),
            )
        }),
{
    let reading = Reading::started(device.id, index, subindex);
    let bytes = device.dictionary[(index, subindex)];
    law_request_is_served(device, reading.request());
    let (next, answer) = requested(device, reading.node, reading.request());
    if !(1 <= bytes.len() <= EXPEDITED_DATA) {
        assert(bytes.take(0) =~= seq![]);
        lemma_read_segments(next, reading.accepted(), next.upload->0);
    }
}

/// What is written is what is read back.
pub proof fn law_read_gives_what_was_written(
    device: Device,
    index: u16,
    subindex: u8,
    bytes: Seq<u8>,
)
    requires
        device.well_formed(),
        quiet(device, device.id),
        device.dictionary.contains_key((index, subindex)),
        bytes.len() <= u32::MAX,
    ensures
        ({
            let (after, _) = written(device, Writing::started(device.id, index, subindex, bytes));
            read(after, Reading::started(device.id, index, subindex)).1 == Ok::<Seq<u8>, Fault>(
                bytes,
            )
        }),
{
    law_write(device, index, subindex, bytes);
    let (after, _) = written(device, Writing::started(device.id, index, subindex, bytes));
    law_read(after, index, subindex);
}

/// After a write every other object reads as it did before, held or not.
pub proof fn law_write_leaves_other_objects(
    device: Device,
    index: u16,
    subindex: u8,
    bytes: Seq<u8>,
    other: (u16, u8),
)
    requires
        device.well_formed(),
        quiet(device, device.id),
        bytes.len() <= u32::MAX,
        other != (index, subindex),
    ensures
        ({
            let (after, _) = written(device, Writing::started(device.id, index, subindex, bytes));
            read(after, Reading::started(device.id, other.0, other.1)).1 == read(
                device,
                Reading::started(device.id, other.0, other.1),
            ).1
        }),
{
    if device.dictionary.contains_key((index, subindex)) {
        law_write(device, index, subindex, bytes);
    } else {
        law_missing_object_is_aborted(device, index, subindex, bytes);
    }
    let (after, _) = written(device, Writing::started(device.id, index, subindex, bytes));
    if device.dictionary.contains_key(other) {
        law_read(after, other.0, other.1);
        law_read(device, other.0, other.1);
    } else {
        law_missing_object_is_aborted(after, other.0, other.1, bytes);
        law_missing_object_is_aborted(device, other.0, other.1, bytes);
    }
}

/// A write to, and a read of, an object that the device does not hold is
/// aborted for that reason, and changes nothing.
pub proof fn law_missing_object_is_aborted(
    device: Device,
    index: u16,
    subindex: u8,
    bytes: Seq<u8>,
)
    requires
        device.well_formed(),
        quiet(device, device.id),
        !device.dictionary.contains_key((index, subindex)),
        bytes.len() <= u32::MAX,
    ensures
        written(device, Writing::started(device.id, index, subindex, bytes)) == (
            drained(device),
            Err::<(), Fault>(Fault::Aborted(ABORT_NO_OBJECT)),
        ),
        read(device, Reading::started(device.id, index, subindex)) == (
            drained(device),
            Err::<Seq<u8>, Fault>(Fault::Aborted(ABORT_NO_OBJECT)),
        ),
{
    law_request_is_served(
        device,
        Writing::started(device.id, index, subindex, bytes).request(),
    );
    law_request_is_served(device, Reading::started(device.id, index, subindex).request());
}

/// The first frame under `0x580` plus the node is the answer, whatever comes
/// before and behind it: what was before is gone, what is behind stays, and
/// the answer is what its bytes say or what is wrong with them.
pub proof fn law_first_answer_counts(
    node: u8,
    before: Seq<Datagram>,
    frame: Datagram,
    behind: Seq<Datagram>,
)
    requires
        forall|i: int| 0 <= i < before.len() ==> (#[trigger] before[i]).id != 0x580 + node,
        frame.id == 0x580 + node,
    ensures
        awaited(node, before.push(frame) + behind) == (
            behind,
            crate::sdo::decoded(frame.data, false),
        ),
        awaited(node, before) == (Seq::<Datagram>::empty(), Err::<Exchange, Fault>(Fault::Silent)),
    decreases before.len(),
{
    let queue = before.push(frame) + behind;
    if before.len() == 0 {
        assert(queue.first() == frame);
        assert(queue.drop_first() =~= behind);
        assert(before =~= Seq::<Datagram>::empty());
    } else {
        let rest = before.drop_first();
        assert(before[0].id != 0x580 + node);
        assert(queue.first() == before[0]);
        assert(queue.drop_first() =~= rest.push(frame) + behind);
        assert forall|i: int| 0 <= i < rest.len() implies (#[trigger] rest[i]).id != 0x580
            + node by {
            assert(rest[i] == before[i + 1]);
        }
        law_first_answer_counts(node, rest, frame, behind);
    }
}

/// A request puts its frame on the bus and takes the first answer of the node
/// that is there then, an answer that nobody waited for before the one to this
/// request. The device is as the frame left it, but for the frames that were
/// taken off the bus.
pub proof fn law_request_takes_the_first_answer(
    device: Device,
    node: u8,
    request: Exchange,
    before: Seq<Datagram>,
    frame: Datagram,
    behind: Seq<Datagram>,
)
    requires
        forall|i: int| 0 <= i < before.len() ==> (#[trigger] before[i]).id != 0x580 + node,
        frame.id == 0x580 + node,
        device.taken(
            Datagram { id: (0x600 + node) as u32, data: request.encoded() },
        ).to_master == before.push(frame) + behind,
    ensures
        requested(device, node, request) == (
            Device {
                to_master: behind,
                ..device.taken(Datagram { id: (0x600 + node) as u32, data: request.encoded() })
            },
            crate::sdo::decoded(frame.data, false),
        ),
{
    law_first_answer_counts(node, before, frame, behind);
}

/// A write and a read are over with the first request that fails, for the
/// reason it fails, and with the first answer that ends them, as it ends them;
/// with any other answer they go on from where it leaves them.
pub proof fn law_transfers_go_request_by_request(
    device: Device,
    writing: Writing,
    reading: Reading,
)
    ensures
        ({
            let (next, answer) = requested(device, writing.node, writing.request());
            &&& answer matches Err(fault) ==> written(device, writing) == (
                next,
                Err::<(), Fault>(fault),
            )
            &&& answer matches Ok(answer) ==> {
                let (after, turn) = writing.answered(answer);
                &&& turn is Done ==> written(device, writing) == (next, Ok::<(), Fault>(()))
                &&& turn matches Turn::Failed(fault) ==> written(device, writing) == (
                    next,
                    Err::<(), Fault>(fault),
                )
                &&& turn is Send ==> written(device, writing) == written(next, after)
            }
        }),
        ({
            let (next, answer) = requested(device, reading.node, reading.request());
            &&& answer matches Err(fault) ==> read(device, reading) == (
                next,
                Err::<Seq<u8>, Fault>(fault),
            )
            &&& answer matches Ok(answer) ==> {
                let (after, turn) = reading.answered(answer);
                &&& turn matches Turn::Done(bytes) ==> read(device, reading) == (
                    next,
                    Ok::<Seq<u8>, Fault>(bytes),
                )
                &&& turn matches Turn::Failed(fault) ==> read(device, reading) == (
                    next,
                    Err::<Seq<u8>, Fault>(fault),
                )
                &&& turn is Send ==> read(device, reading) == read(next, after)
            }
        }),
{
}

/// A write to, and a read from, a node that is not there fail for want of an
/// answer, and the device that is there keeps everything it has.
pub proof fn law_absent_node_is_neither_written_nor_read(
    device: Device,
    node: u8,
    index: u16,
    subindex: u8,
    bytes: Seq<u8>,
)
    requires
        device.id != node,
        forall|i: int|
            0 <= i < device.to_master.len() ==> (#[trigger] device.to_master[i]).id != 0x580
                + node,
    ensures
        written(device, Writing::started(node, index, subindex, bytes)) == (
            Device { to_master: seq![], ..device },
            Err::<(), Fault>(Fault::Silent),
        ),
        read(device, Reading::started(node, index, subindex)) == (
            Device { to_master: seq![], ..device },
            Err::<Seq<u8>, Fault>(Fault::Silent),
        ),
{
    law_absent_node_is_silent(
        device,
        node,
        Writing::started(node, index, subindex, bytes).request(),
    );
    law_absent_node_is_silent(device, node, Reading::started(node, index, subindex).request());
}

/// A bus on which nothing is under `0x580` plus a node is quiet for it.
pub proof fn law_quiet_bus(device: Device, node: u8)
    ensures
        quiet(device, node) <==> (forall|i: int|
            0 <= i < device.to_master.len() ==> (#[trigger] device.to_master[i]).id != 0x580
                + node),
        drained(device) == (Device { to_master: seq![], ..device }),
{
}

} // verus!
