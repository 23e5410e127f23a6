use canopen::node::{HEARTBEAT_BASE, NMT, RPDO1_BASE};
use canopen::sdo::{
    ABORT_COMMAND, ABORT_LENGTH, ABORT_NO_OBJECT, ABORT_TOGGLE, CLIENT_BASE, SERVER_BASE,
};
use canopen::{Command, Error, Frame, Node, Sdo, State};

fn answer(node: &mut Node, id: u32, data: &[u8]) -> Frame {
    node.transmit(&Frame::new(id, data).expect("frame"));
    node.receive().expect("an answer")
}

fn ask(node: &mut Node, request: &Sdo) -> Sdo {
    let id = u32::from(node.id());
    let frame = answer(node, CLIENT_BASE + id, &request.encode());
    assert_eq!(frame.id, SERVER_BASE + id);
    Sdo::decode(&frame.data, false).expect("an SDO")
}

#[test]
fn a_start_is_answered_with_a_heartbeat_and_a_pdo_lands_when_operational() {
    let mut node = Node::new(3);
    assert_eq!(node.state(), State::PreOperational);
    node.transmit(&Frame::new(RPDO1_BASE + 3, &[1]).expect("pdo"));
    assert!(
        node.object(0x6200, 1).is_none(),
        "ignored while pre-operational"
    );
    let heartbeat = answer(&mut node, NMT, &[Command::Start.code(), 0]);
    assert_eq!(heartbeat.id, HEARTBEAT_BASE + 3);
    assert_eq!(heartbeat.data, [State::Operational.code()]);
    node.transmit(&Frame::new(RPDO1_BASE + 3, &[1, 2]).expect("pdo"));
    assert_eq!(node.object(0x6200, 1), Some(vec![1, 2]));
    node.transmit(&Frame::new(NMT, &[Command::Stop.code(), 9]).expect("other"));
    assert_eq!(
        node.state(),
        State::Operational,
        "addressed to another node"
    );
    assert_eq!(node.id(), 3);
}

#[test]
fn a_download_to_a_missing_object_is_aborted_and_a_bad_toggle_too() {
    let mut node = Node::new(1).with_object(0x2000, 0, Vec::new());
    let open = Sdo::InitiateDownload {
        index: 0x9999,
        subindex: 0,
        expedited: None,
        size: 1,
    };
    let refused = answer(&mut node, CLIENT_BASE + 1, &open.encode());
    assert_eq!(refused.id, SERVER_BASE + 1);
    assert_eq!(
        Sdo::decode(&refused.data, false).expect("abort"),
        Sdo::Abort {
            index: 0x9999,
            subindex: 0,
            code: ABORT_NO_OBJECT
        }
    );
    let open = Sdo::InitiateDownload {
        index: 0x2000,
        subindex: 0,
        expedited: None,
        size: 3,
    };
    answer(&mut node, CLIENT_BASE + 1, &open.encode());
    let wrong = Sdo::DownloadSegment {
        toggle: true,
        data: vec![1],
        last: true,
    };
    let aborted = answer(&mut node, CLIENT_BASE + 1, &wrong.encode());
    assert!(matches!(
        Sdo::decode(&aborted.data, false).expect("abort"),
        Sdo::Abort {
            code: ABORT_TOGGLE,
            ..
        }
    ));
    let garbage = answer(&mut node, CLIENT_BASE + 1, &[0xff; 8]);
    assert!(matches!(
        Sdo::decode(&garbage.data, false).expect("abort"),
        Sdo::Abort {
            code: ABORT_COMMAND,
            ..
        }
    ));
}

#[test]
fn the_state_and_command_bytes_are_those_of_the_bus() {
    assert_eq!(State::PreOperational.code(), 0x7f);
    assert_eq!(State::Operational.code(), 0x05);
    assert_eq!(State::Stopped.code(), 0x04);
    assert_eq!(Command::Start.code(), 0x01);
    assert_eq!(Command::Stop.code(), 0x02);
    assert_eq!(Command::PreOperational.code(), 0x80);
    assert_eq!(Command::Reset.code(), 0x81);
}

#[test]
fn a_fresh_node_holds_its_device_type_and_nothing_else() {
    let node = Node::new(7);
    assert_eq!(node.object(0x1000, 0), Some(vec![0, 0, 0, 0]));
    assert_eq!(node.object(0x1000, 1), None);
    assert_eq!(node.object(0x2000, 0), None);
    assert_eq!(node.name(), "loopback");
}

#[test]
fn objects_of_neighbouring_numbers_are_kept_apart() {
    let node = Node::new(7)
        .with_object(0x2000, 255, vec![1])
        .with_object(0x2001, 0, vec![2])
        .with_object(0x20ff, 0, vec![3]);
    assert_eq!(node.object(0x2000, 255), Some(vec![1]));
    assert_eq!(node.object(0x2001, 0), Some(vec![2]));
    assert_eq!(node.object(0x20ff, 0), Some(vec![3]));
    assert_eq!(node.object(0x2000, 0), None);
}

#[test]
fn every_command_moves_the_node_and_is_answered() {
    let mut node = Node::new(4);
    for (command, state) in [
        (Command::Start, State::Operational),
        (Command::Stop, State::Stopped),
        (Command::PreOperational, State::PreOperational),
        (Command::Start, State::Operational),
        (Command::Reset, State::PreOperational),
    ] {
        let heartbeat = answer(&mut node, NMT, &[command.code(), 4]);
        assert_eq!(node.state(), state);
        assert_eq!(heartbeat.data, [state.code()]);
    }
    node.transmit(&Frame::new(NMT, &[Command::Start.code()]).expect("short"));
    node.transmit(&Frame::new(NMT, &[0x55, 4]).expect("unknown"));
    assert_eq!(node.state(), State::PreOperational);
    assert_eq!(node.receive(), None);
}

#[test]
fn a_command_drops_a_transfer_in_progress() {
    let mut node = Node::new(1).with_object(0x2000, 0, vec![9; 20]);
    ask(
        &mut node,
        &Sdo::InitiateUpload {
            index: 0x2000,
            subindex: 0,
        },
    );
    answer(&mut node, NMT, &[Command::Stop.code(), 0]);
    assert_eq!(
        ask(&mut node, &Sdo::UploadSegment { toggle: false }),
        Sdo::Abort {
            index: 0,
            subindex: 0,
            code: ABORT_LENGTH
        }
    );
}

#[test]
fn an_object_changes_with_the_last_segment() {
    let mut node = Node::new(1).with_object(0x2000, 0, vec![5]);
    ask(
        &mut node,
        &Sdo::InitiateDownload {
            index: 0x2000,
            subindex: 0,
            expedited: None,
            size: 8,
        },
    );
    assert_eq!(
        ask(
            &mut node,
            &Sdo::DownloadSegment {
                toggle: false,
                data: vec![1, 2, 3, 4, 5, 6, 7],
                last: false,
            }
        ),
        Sdo::SegmentAccepted { toggle: false }
    );
    assert_eq!(node.object(0x2000, 0), Some(vec![5]));
    assert_eq!(
        ask(
            &mut node,
            &Sdo::DownloadSegment {
                toggle: true,
                data: vec![8],
                last: true,
            }
        ),
        Sdo::SegmentAccepted { toggle: true }
    );
    assert_eq!(node.object(0x2000, 0), Some(vec![1, 2, 3, 4, 5, 6, 7, 8]));
    assert_eq!(
        ask(
            &mut node,
            &Sdo::DownloadSegment {
                toggle: false,
                data: vec![],
                last: true,
            }
        ),
        Sdo::Abort {
            index: 0,
            subindex: 0,
            code: ABORT_COMMAND
        }
    );
}

#[test]
fn a_wrong_toggle_ends_an_upload() {
    let mut node = Node::new(1).with_object(0x2000, 3, vec![9; 20]);
    assert_eq!(
        ask(
            &mut node,
            &Sdo::InitiateUpload {
                index: 0x2000,
                subindex: 3
            }
        ),
        Sdo::UploadOpened {
            index: 0x2000,
            subindex: 3,
            expedited: None,
            size: 20
        }
    );
    assert_eq!(
        ask(&mut node, &Sdo::UploadSegment { toggle: true }),
        Sdo::Abort {
            index: 0x2000,
            subindex: 3,
            code: ABORT_TOGGLE
        }
    );
    assert_eq!(
        ask(&mut node, &Sdo::UploadSegment { toggle: false }),
        Sdo::Abort {
            index: 0,
            subindex: 0,
            code: ABORT_LENGTH
        }
    );
}

#[test]
fn an_abort_ends_both_transfers() {
    let mut node = Node::new(1).with_object(0x2000, 0, vec![9; 20]);
    ask(
        &mut node,
        &Sdo::InitiateUpload {
            index: 0x2000,
            subindex: 0,
        },
    );
    ask(
        &mut node,
        &Sdo::InitiateDownload {
            index: 0x2000,
            subindex: 0,
            expedited: None,
            size: 1,
        },
    );
    ask(
        &mut node,
        &Sdo::Abort {
            index: 0x2000,
            subindex: 0,
            code: 1,
        },
    );
    assert!(matches!(
        ask(&mut node, &Sdo::UploadSegment { toggle: false }),
        Sdo::Abort {
            code: ABORT_LENGTH,
            ..
        }
    ));
    assert!(matches!(
        ask(
            &mut node,
            &Sdo::DownloadSegment {
                toggle: false,
                data: vec![],
                last: true
            }
        ),
        Sdo::Abort {
            code: ABORT_COMMAND,
            ..
        }
    ));
    assert_eq!(node.object(0x2000, 0), Some(vec![9; 20]));
}

#[test]
fn an_upload_of_nothing_is_one_empty_segment() {
    let mut node = Node::new(1).with_object(0x2000, 0, Vec::new());
    ask(
        &mut node,
        &Sdo::InitiateUpload {
            index: 0x2000,
            subindex: 0,
        },
    );
    assert_eq!(
        ask(&mut node, &Sdo::UploadSegment { toggle: false }),
        Sdo::UploadData {
            toggle: false,
            data: vec![],
            last: true
        }
    );
}

#[test]
fn frames_of_other_nodes_are_ignored() {
    let mut node = Node::new(1);
    let ask = Sdo::InitiateUpload {
        index: 0x1000,
        subindex: 0,
    };
    node.transmit(&Frame::new(CLIENT_BASE + 2, &ask.encode()).expect("frame"));
    node.transmit(&Frame::new(SERVER_BASE + 1, &ask.encode()).expect("frame"));
    node.transmit(&Frame::new(0x7ff, &[]).expect("frame"));
    assert_eq!(node.receive(), None);
}

#[test]
fn a_short_request_is_answered_with_an_abort() {
    let mut node = Node::new(1);
    let refused = answer(&mut node, CLIENT_BASE + 1, &[0x40]);
    assert_eq!(refused.data, [0x80, 0, 0, 0, 0x01, 0x00, 0x04, 0x05]);
}

#[test]
fn a_frame_carries_eight_bytes_at_most() {
    assert_eq!(
        Frame::new(0x123, &[7; 8]),
        Ok(Frame {
            id: 0x123,
            data: vec![7; 8]
        })
    );
    assert_eq!(Frame::new(0x123, &[7; 9]), Err(Error::Overlong));
}

#[test]
fn a_request_that_is_aborted_at_once_leaves_another_transfer_alone() {
    let mut node = Node::new(4).with_object(0x2000, 0, vec![]);
    let open = Sdo::InitiateDownload {
        index: 0x2000,
        subindex: 0,
        expedited: None,
        size: 2,
    };
    ask(&mut node, &open);
    let missing = Sdo::InitiateUpload {
        index: 0x3000,
        subindex: 1,
    };
    assert_eq!(
        ask(&mut node, &missing),
        Sdo::Abort {
            index: 0x3000,
            subindex: 1,
            code: ABORT_NO_OBJECT
        }
    );
    assert_eq!(
        ask(&mut node, &Sdo::UploadSegment { toggle: false }),
        Sdo::Abort {
            index: 0,
            subindex: 0,
            code: ABORT_LENGTH
        }
    );
    let segment = Sdo::DownloadSegment {
        toggle: false,
        data: vec![5, 6],
        last: true,
    };
    assert_eq!(
        ask(&mut node, &segment),
        Sdo::SegmentAccepted { toggle: false }
    );
    assert_eq!(node.object(0x2000, 0), Some(vec![5, 6]));
}

#[test]
fn bytes_that_are_no_request_end_the_transfer_with_their_abort() {
    let unknown = Sdo::Abort {
        index: 0,
        subindex: 0,
        code: ABORT_COMMAND,
    };
    let mut node = Node::new(1).with_object(0x2000, 0, vec![9]);
    answer(&mut node, 0x601, &[0x21, 0, 0x20, 0, 1, 0, 0, 0]);
    let garbage = answer(&mut node, 0x601, &[0xff; 8]);
    assert_eq!(Sdo::decode(&garbage.data, false), Ok(unknown.clone()));
    let late = answer(&mut node, 0x601, &[0x0d, 1, 0, 0, 0, 0, 0, 0]);
    assert_eq!(Sdo::decode(&late.data, false), Ok(unknown));
    assert_eq!(node.object(0x2000, 0), Some(vec![9]));
    let mut node = Node::new(1).with_object(0x2000, 0, vec![9; 10]);
    ask(
        &mut node,
        &Sdo::InitiateUpload {
            index: 0x2000,
            subindex: 0,
        },
    );
    answer(&mut node, 0x601, &[0x40]);
    assert_eq!(
        ask(&mut node, &Sdo::UploadSegment { toggle: false }),
        Sdo::Abort {
            index: 0,
            subindex: 0,
            code: ABORT_LENGTH
        }
    );
}

#[test]
fn an_upload_takes_a_segment_for_every_seven_bytes() {
    for (length, count) in [(0, 1), (5, 1), (7, 1), (8, 2), (14, 2), (15, 3)] {
        let bytes: Vec<u8> = (0..length).collect();
        let mut node = Node::new(6).with_object(0x2000, 0, bytes.clone());
        let ask_for = Sdo::InitiateUpload {
            index: 0x2000,
            subindex: 0,
        };
        ask(&mut node, &ask_for);
        let rewrite = Sdo::InitiateDownload {
            index: 0x2000,
            subindex: 0,
            expedited: Some(vec![0xee]),
            size: 1,
        };
        let mut read = Vec::new();
        for k in 0..count {
            ask(&mut node, &rewrite);
            let toggle = k % 2 == 1;
            match ask(&mut node, &Sdo::UploadSegment { toggle }) {
                Sdo::UploadData {
                    toggle: under,
                    data,
                    last,
                } => {
                    assert_eq!(under, toggle);
                    assert_eq!(last, k + 1 == count, "{length} bytes, segment {k}");
                    assert!(last || data.len() == 7);
                    read.extend(data);
                }
                other => panic!("{length} bytes, segment {k}: {other:?}"),
            }
        }
        assert_eq!(read, bytes);
        assert_eq!(node.object(0x2000, 0), Some(vec![0xee]));
    }
}
