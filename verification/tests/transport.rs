use std::time::Duration;

use canopen::sdo::{ABORT_NO_OBJECT, CLIENT_BASE, SERVER_BASE};
use canopen::transfer::size_field;
use canopen::{
    CanOpenTransport, Command, Download, Error, Frame, Heard, Node, Sdo, State, Step, Upload,
};

fn edge_payloads() -> Vec<(&'static str, Vec<u8>)> {
    vec![
        ("empty", vec![]),
        ("one zero", vec![0]),
        ("one", vec![0xff]),
        ("four", vec![1, 2, 3, 4]),
        ("five", vec![1, 2, 3, 4, 5]),
        ("a segment", vec![7; 7]),
        ("a segment and a byte", vec![8; 8]),
        ("two segments", vec![9; 14]),
        ("every byte", (0..=255).collect()),
        ("zeros", vec![0; 4096]),
        ("long", vec![0x5a; 70_001]),
    ]
}

#[test]
fn a_loopback_round_downloads_a_domain_and_uploads_it_back() {
    let (loopback, mut bus) = CanOpenTransport::loopback(Duration::from_secs(1));
    let arrived = loopback.round(&mut bus, b"a segmented domain").expect("round");
    assert_eq!(arrived.bytes, b"a segmented domain");
    assert_eq!(arrived.origin_uri, "canopen://loopback/1/0x2000/0");
    let arrived = loopback.round(&mut bus, b"four").expect("expedited");
    assert_eq!(arrived.bytes, b"four");
    assert_eq!(loopback.name(), "canopen");
}

#[test]
fn the_loopback_returns_the_edges_whole() {
    let (loopback, mut bus) = CanOpenTransport::loopback(Duration::from_secs(1));
    for (name, bytes) in edge_payloads() {
        let arrived = loopback
            .round(&mut bus, &bytes)
            .unwrap_or_else(|error| panic!("{name}: {error:?}"));
        assert_eq!(arrived.bytes, bytes, "{name}");
    }
}

#[test]
fn a_target_names_the_node_and_object_and_a_missing_one_is_aborted() {
    let mut node = Node::new(5).with_object(0x2001, 3, vec![0]);
    let master = CanOpenTransport::new("loopback", 5).timing_out_after(Duration::from_millis(100));
    master
        .send(
            &mut node,
            "canopen://loopback/5/0x2001/3",
            Some("5/0x2001/3"),
            &[1, 2, 3, 4, 5, 6, 7, 8, 9],
        )
        .expect("segmented to another object");
    assert_eq!(
        node.object(0x2001, 3),
        Some(vec![1, 2, 3, 4, 5, 6, 7, 8, 9])
    );
    master
        .send(&mut node, "5/0x1000/0", None, &[7, 0, 0, 0])
        .expect("bare target");
    assert_eq!(node.object(0x1000, 0), Some(vec![7, 0, 0, 0]));
    let error = master
        .send(&mut node, "", None, b"x")
        .expect_err("no such object");
    assert!(error.message().contains("0x06020000"), "{error:?}");
    assert!(
        master.send(&mut node, "5/2001/3", None, b"x").is_err(),
        "not hex"
    );
    assert!(
        master.send(&mut node, "five/0x2001/3", None, b"x").is_err(),
        "not a node"
    );
    assert_eq!(
        master
            .about(0x2001, 3)
            .receive(&mut node)
            .expect("upload")[0]
            .bytes,
        [1, 2, 3, 4, 5, 6, 7, 8, 9]
    );
}

#[test]
fn a_pdo_lands_once_the_node_is_started() {
    let mut node = Node::new(2);
    let master = CanOpenTransport::new("loopback", 2);
    master.pdo(&mut node, 2, &[0xaa]).expect("pdo");
    assert!(node.object(0x6200, 1).is_none());
    master
        .nmt(&mut node, Command::Start, 0)
        .expect("start all");
    assert_eq!(node.state(), State::Operational);
    master.pdo(&mut node, 2, &[0xaa, 0x55]).expect("pdo");
    assert_eq!(node.object(0x6200, 1), Some(vec![0xaa, 0x55]));
    assert!(
        master.pdo(&mut node, 2, &[0; 9]).is_err(),
        "nine bytes is no PDO"
    );
    let mut empty = Node::new(1);
    let quiet =
        CanOpenTransport::new("loopback", 9).timing_out_after(Duration::from_millis(20));
    assert!(
        quiet.receive(&mut empty).is_err(),
        "nobody answers on an empty bus"
    );
}

#[test]
fn a_master_speaks_about_the_stream_object_for_a_second_unless_told_otherwise() {
    let master = CanOpenTransport::new("can0", 9);
    assert_eq!(master.timeout(), Duration::from_secs(1));
    assert_eq!(master.configured(), (9, 0x2000, 0));
    assert_eq!(master.resolve("", None), Ok((9, 0x2000, 0)));
    assert_eq!(master.origin(9, 0x1f, 255), "canopen://can0/9/0x001f/255");
    let master = master
        .about(0xabcd, 7)
        .timing_out_after(Duration::from_millis(3));
    assert_eq!(master.timeout(), Duration::from_millis(3));
    assert_eq!(master.configured(), (9, 0xabcd, 7));
    assert_eq!(master.resolve("", None), Ok((9, 0xabcd, 7)));
    assert_eq!(
        master.clone().origin(200, 0xabcd, 0),
        "canopen://can0/200/0xabcd/0"
    );
}

#[test]
fn a_target_is_three_numbers() {
    let master = CanOpenTransport::new("can0", 9);
    for (target, found) in [
        ("1/0x2/3", (1, 2, 3)),
        ("255/0xFFff/255", (255, 0xffff, 255)),
        ("+1/0x+2/+3", (1, 2, 3)),
        ("0001/0x000002/0003", (1, 2, 3)),
    ] {
        assert_eq!(master.resolve(target, None), Ok(found), "{target}");
    }
    for target in [
        "1",
        "1/0x2",
        "1/0x2/",
        "/0x2/3",
        "1//3",
        "1/0x/3",
        "1/2/3",
        "1/0X2/3",
        "256/0x2/3",
        "1/0x10000/3",
        "1/0x2/256",
        "-1/0x2/3",
        "+/0x2/3",
        "1/0xg/3",
        "1/0x2/a",
        " 1/0x2/3",
        "1/0x2/3/4",
        "1/0x2/3/",
        "\u{661}/0x2/3",
    ] {
        assert_eq!(
            master.resolve(target, None),
            Err(Error::Target(target.to_string())),
            "{target}"
        );
    }
}

#[test]
fn an_origin_is_a_target() {
    let master = CanOpenTransport::new("can0", 1);
    for (node, index, subindex) in [(0, 0, 0), (7, 0x2000, 1), (255, 0xffff, 255)] {
        let origin = master.origin(node, index, subindex);
        let path = origin.strip_prefix("canopen://can0/").expect("prefix");
        assert_eq!(
            master.resolve(&origin, Some(path)),
            Ok((node, index, subindex))
        );
    }
    assert_eq!(master.resolve("canopen://can0/", Some("")), Ok((1, 0x2000, 0)));
}

#[test]
fn a_refused_target_is_quoted_in_the_message() {
    let master = CanOpenTransport::new("can0", 1);
    let error = master.resolve("a\"b\n", None).expect_err("no target");
    assert_eq!(
        error.message(),
        "\"a\\\"b\\n\" is not <node>/0x<index>/<sub>"
    );
}

#[test]
fn an_answer_out_of_turn_is_shown() {
    for sdo in [
        Sdo::InitiateDownload {
            index: 1,
            subindex: 2,
            expedited: Some(vec![10, 200]),
            size: 2,
        },
        Sdo::DownloadAccepted {
            index: 65535,
            subindex: 255,
        },
        Sdo::DownloadSegment {
            toggle: true,
            data: vec![],
            last: false,
        },
        Sdo::SegmentAccepted { toggle: false },
        Sdo::InitiateUpload {
            index: 0,
            subindex: 0,
        },
        Sdo::UploadOpened {
            index: 7,
            subindex: 8,
            expedited: None,
            size: 4_294_967_295,
        },
        Sdo::UploadSegment { toggle: true },
        Sdo::UploadData {
            toggle: false,
            data: vec![0, 9, 10, 99, 100, 255],
            last: true,
        },
        Sdo::Abort {
            index: 1,
            subindex: 2,
            code: ABORT_NO_OBJECT,
        },
    ] {
        let expected = format!("the node answered out of turn: {sdo:?}");
        assert_eq!(Error::OutOfTurn(sdo).message(), expected);
    }
}

#[test]
fn every_other_error_has_its_message() {
    assert_eq!(Error::Oversize.message(), "over what an SDO sizes");
    assert_eq!(Error::Overlong.message(), "over what a frame carries");
    assert_eq!(
        Error::Silent.message(),
        "the node did not answer before the deadline"
    );
    assert_eq!(
        Error::Aborted(0x0503_0000).message(),
        "the node aborted with 0x05030000"
    );
    assert_eq!(
        Error::Aborted(0xffff_ffff).message(),
        "the node aborted with 0xffffffff"
    );
}

#[test]
fn a_missing_object_is_aborted_and_an_absent_node_is_silent() {
    let mut node = Node::new(5);
    let master = CanOpenTransport::new("loopback", 5);
    assert_eq!(
        master.download(&mut node, 5, 0x2000, 0, &[1; 10]),
        Err(Error::Aborted(ABORT_NO_OBJECT))
    );
    assert_eq!(
        master.upload(&mut node, 5, 0x2000, 0),
        Err(Error::Aborted(ABORT_NO_OBJECT))
    );
    assert_eq!(
        master.upload(&mut node, 6, 0x1000, 0),
        Err(Error::Silent)
    );
    assert_eq!(
        master.download(&mut node, 6, 0x1000, 0, &[1]),
        Err(Error::Silent)
    );
    assert_eq!(node.object(0x1000, 0), Some(vec![0; 4]));
}

#[test]
fn a_write_leaves_other_objects_alone() {
    let mut node = Node::new(5)
        .with_object(0x2000, 0, vec![1])
        .with_object(0x2000, 1, vec![2; 9]);
    let master = CanOpenTransport::new("loopback", 5);
    assert_eq!(master.download(&mut node, 5, 0x2000, 0, &[3; 30]), Ok(()));
    assert_eq!(master.upload(&mut node, 5, 0x2000, 0), Ok(vec![3; 30]));
    assert_eq!(master.upload(&mut node, 5, 0x2000, 1), Ok(vec![2; 9]));
    assert_eq!(master.upload(&mut node, 5, 0x1000, 0), Ok(vec![0; 4]));
}

#[test]
fn an_answer_nobody_waited_for_is_out_of_turn() {
    let mut node = Node::new(5);
    let master = CanOpenTransport::new("loopback", 5);
    let stale = Sdo::InitiateUpload {
        index: 0x1000,
        subindex: 0,
    };
    node.transmit(&Frame::new(CLIENT_BASE + 5, &stale.encode()).expect("frame"));
    assert_eq!(
        master.download(&mut node, 5, 0x1000, 0, &[1, 2]),
        Err(Error::OutOfTurn(Sdo::UploadOpened {
            index: 0x1000,
            subindex: 0,
            expedited: Some(vec![0; 4]),
            size: 4,
        }))
    );
}

#[test]
fn a_heartbeat_is_passed_over() {
    let mut node = Node::new(5);
    let master = CanOpenTransport::new("loopback", 5);
    assert_eq!(master.nmt(&mut node, Command::Start, 5), Ok(()));
    assert_eq!(master.upload(&mut node, 5, 0x1000, 0), Ok(vec![0; 4]));
    assert_eq!(node.receive(), None);
}

#[test]
fn more_bytes_than_an_sdo_can_size_are_refused() {
    assert_eq!(size_field(0), Ok(0));
    assert_eq!(size_field(0xffff_ffff), Ok(0xffff_ffff));
    assert_eq!(size_field(0x1_0000_0000), Err(Error::Oversize));
}

fn heard(sdo: &Sdo, node: u8) -> Heard {
    Heard::Frame {
        frame: Frame::new(SERVER_BASE + u32::from(node), &sdo.encode()).expect("frame"),
        late: false,
    }
}

fn sent<T>(step: Step<T>) -> Sdo {
    match step {
        Step::Send(frame) => Sdo::decode(&frame.data, true).expect("a request"),
        _ => panic!("nothing to send"),
    }
}

#[test]
fn a_long_download_goes_in_segments_whatever_the_bus() {
    let bytes: Vec<u8> = (0..16).collect();
    let mut download = Download::new(9, 0x2000, 1, &bytes).expect("sized");
    let open = download.frame();
    assert_eq!(open.id, CLIENT_BASE + 9);
    assert_eq!(
        Sdo::decode(&open.data, true),
        Ok(Sdo::InitiateDownload {
            index: 0x2000,
            subindex: 1,
            expedited: None,
            size: 16
        })
    );
    assert_eq!(download.hear(Heard::Nothing { late: false }), Step::Pause);
    let foreign = Frame::new(SERVER_BASE + 8, &[0x60; 8]).expect("frame");
    assert_eq!(
        download.hear(Heard::Frame {
            frame: foreign,
            late: false
        }),
        Step::Again
    );
    let accepted = Sdo::DownloadAccepted {
        index: 0x2000,
        subindex: 1,
    };
    let mut step = download.hear(heard(&accepted, 9));
    let mut toggle = false;
    for (n, chunk) in bytes.chunks(7).enumerate() {
        assert_eq!(
            sent(step),
            Sdo::DownloadSegment {
                toggle,
                data: chunk.to_vec(),
                last: n == 2
            }
        );
        step = download.hear(heard(&Sdo::SegmentAccepted { toggle }, 9));
        toggle = !toggle;
    }
    assert_eq!(step, Step::Done(()));
}

#[test]
fn a_download_fails_on_a_wrong_toggle_an_abort_and_silence() {
    let begin = || {
        let mut download = Download::new(9, 0x2000, 1, &[0; 9]).expect("sized");
        let accepted = Sdo::DownloadAccepted {
            index: 0x2000,
            subindex: 1,
        };
        sent(download.hear(heard(&accepted, 9)));
        download
    };
    let wrong = Sdo::SegmentAccepted { toggle: true };
    assert_eq!(
        begin().hear(heard(&wrong, 9)),
        Step::Failed(Error::OutOfTurn(wrong))
    );
    let abort = Sdo::Abort {
        index: 0,
        subindex: 0,
        code: 0x0800_0000,
    };
    assert_eq!(
        begin().hear(heard(&abort, 9)),
        Step::Failed(Error::Aborted(0x0800_0000))
    );
    assert_eq!(
        begin().hear(Heard::Nothing { late: true }),
        Step::Failed(Error::Silent)
    );
    let short = Frame::new(SERVER_BASE + 9, &[0x60]).expect("frame");
    assert_eq!(
        begin().hear(Heard::Frame {
            frame: short,
            late: false
        }),
        Step::Failed(Error::Short)
    );
}

#[test]
fn an_upload_gathers_its_segments_whatever_the_bus() {
    let mut upload = Upload::new(9, 0x2000, 1);
    assert_eq!(
        Sdo::decode(&upload.frame().data, true),
        Ok(Sdo::InitiateUpload {
            index: 0x2000,
            subindex: 1
        })
    );
    let opened = Sdo::UploadOpened {
        index: 0x2000,
        subindex: 1,
        expedited: None,
        size: 9,
    };
    assert_eq!(
        sent(upload.hear(heard(&opened, 9))),
        Sdo::UploadSegment { toggle: false }
    );
    assert_eq!(upload.hear(Heard::Nothing { late: false }), Step::Pause);
    let first = Sdo::UploadData {
        toggle: false,
        data: vec![1; 7],
        last: false,
    };
    assert_eq!(
        sent(upload.hear(heard(&first, 9))),
        Sdo::UploadSegment { toggle: true }
    );
    let second = Sdo::UploadData {
        toggle: true,
        data: vec![2; 2],
        last: true,
    };
    assert_eq!(
        upload.hear(heard(&second, 9)),
        Step::Done(vec![1, 1, 1, 1, 1, 1, 1, 2, 2])
    );
    let mut upload = Upload::new(9, 0x2000, 1);
    assert_eq!(
        upload.hear(heard(&first, 9)),
        Step::Failed(Error::OutOfTurn(first))
    );
}

#[test]
fn a_silent_node_is_given_up_on_however_busy_the_bus() {
    let heartbeat = Frame::new(0x700 + 3, &[5]).expect("frame");
    let mut upload = Upload::new(9, 0x2000, 1);
    let mut download = Download::new(9, 0x2000, 1, &[1, 2]).expect("sized");
    for _ in 0..100 {
        let foreign = || Heard::Frame {
            frame: heartbeat.clone(),
            late: false,
        };
        assert_eq!(upload.hear(foreign()), Step::Again);
        assert_eq!(download.hear(foreign()), Step::Again);
    }
    let foreign = || Heard::Frame {
        frame: heartbeat.clone(),
        late: true,
    };
    assert_eq!(upload.hear(foreign()), Step::Failed(Error::Silent));
    assert_eq!(download.hear(foreign()), Step::Failed(Error::Silent));
}

#[test]
fn an_answer_counts_even_if_it_is_read_past_the_deadline() {
    let mut download = Download::new(9, 0x2000, 1, &[1, 2]).expect("sized");
    let accepted = Sdo::DownloadAccepted {
        index: 0x2000,
        subindex: 1,
    };
    let frame = Frame::new(SERVER_BASE + 9, &accepted.encode()).expect("frame");
    assert_eq!(
        download.hear(Heard::Frame { frame, late: true }),
        Step::Done(())
    );
}
