use canopen::sdo::{Sdo, ABORT_NO_OBJECT};
use canopen::Error;

#[test]
fn an_expedited_download_carries_its_bytes_in_the_initiate() {
    let sdo = Sdo::InitiateDownload {
        index: 0x1017,
        subindex: 0,
        expedited: Some(vec![0xe8, 0x03]),
        size: 2,
    };
    let bytes = sdo.encode();
    assert_eq!(bytes, [0x2b, 0x17, 0x10, 0x00, 0xe8, 0x03, 0, 0]);
    assert_eq!(Sdo::decode(&bytes, true).expect("request"), sdo);
    let accepted = Sdo::DownloadAccepted {
        index: 0x1017,
        subindex: 0,
    };
    assert_eq!(accepted.encode(), [0x60, 0x17, 0x10, 0, 0, 0, 0, 0]);
    assert_eq!(
        Sdo::decode(&accepted.encode(), false).expect("answer"),
        accepted
    );
}

#[test]
fn a_segmented_download_says_its_size_then_toggles_its_segments() {
    let open = Sdo::InitiateDownload {
        index: 0x2000,
        subindex: 0,
        expedited: None,
        size: 300,
    };
    assert_eq!(open.encode(), [0x21, 0x00, 0x20, 0x00, 0x2c, 0x01, 0, 0]);
    assert_eq!(Sdo::decode(&open.encode(), true).expect("open"), open);
    let segment = Sdo::DownloadSegment {
        toggle: true,
        data: vec![1, 2, 3],
        last: true,
    };
    assert_eq!(segment.encode(), [0x19, 1, 2, 3, 0, 0, 0, 0]);
    assert_eq!(
        Sdo::decode(&segment.encode(), true).expect("segment"),
        segment
    );
    let took = Sdo::SegmentAccepted { toggle: true };
    assert_eq!(took.encode()[0], 0x30);
    assert_eq!(Sdo::decode(&took.encode(), false).expect("took"), took);
}

#[test]
fn an_upload_is_the_mirror_and_an_abort_carries_its_reason() {
    let ask = Sdo::InitiateUpload {
        index: 0x1000,
        subindex: 0,
    };
    assert_eq!(ask.encode(), [0x40, 0x00, 0x10, 0, 0, 0, 0, 0]);
    assert_eq!(Sdo::decode(&ask.encode(), true).expect("ask"), ask);
    let opened = Sdo::UploadOpened {
        index: 0x2000,
        subindex: 0,
        expedited: None,
        size: 9,
    };
    assert_eq!(
        Sdo::decode(&opened.encode(), false).expect("opened"),
        opened
    );
    let next = Sdo::UploadSegment { toggle: false };
    assert_eq!(Sdo::decode(&next.encode(), true).expect("next"), next);
    let data = Sdo::UploadData {
        toggle: false,
        data: vec![9; 7],
        last: false,
    };
    assert_eq!(Sdo::decode(&data.encode(), false).expect("data"), data);
    let abort = Sdo::Abort {
        index: 0x9999,
        subindex: 1,
        code: ABORT_NO_OBJECT,
    };
    assert_eq!(
        abort.encode(),
        [0x80, 0x99, 0x99, 1, 0x00, 0x00, 0x02, 0x06]
    );
    assert_eq!(Sdo::decode(&abort.encode(), true).expect("abort"), abort);
}

#[test]
fn what_is_not_an_sdo_is_refused() {
    assert!(Sdo::decode(&[0x40, 0, 0], true).is_err(), "short");
    assert!(
        Sdo::decode(&[0xa0, 0, 0, 0, 0, 0, 0, 0], true).is_err(),
        "specifier 5"
    );
    assert!(
        Sdo::decode(&[0xe0, 0, 0, 0, 0, 0, 0, 0], false).is_err(),
        "specifier 7"
    );
}

#[test]
fn a_refusal_says_why() {
    assert_eq!(Sdo::decode(&[0; 7], false), Err(Error::Short));
    assert_eq!(Sdo::decode(&[0xdf; 8], true), Err(Error::Specifier(6)));
    assert_eq!(
        Error::Short.message(),
        "an SDO shorter than eight bytes"
    );
    assert_eq!(
        Error::Specifier(6).message(),
        "an SDO command specifier of 6"
    );
}

#[test]
fn bytes_behind_the_eighth_say_nothing() {
    let mut long = Sdo::UploadSegment { toggle: true }.encode().to_vec();
    long.push(0xff);
    assert_eq!(
        Sdo::decode(&long, true),
        Ok(Sdo::UploadSegment { toggle: true })
    );
}

#[test]
fn an_unsized_expedited_transfer_carries_four_bytes() {
    assert_eq!(
        Sdo::decode(&[0x2e, 0x34, 0x12, 5, 1, 2, 3, 4], true),
        Ok(Sdo::InitiateDownload {
            index: 0x1234,
            subindex: 5,
            expedited: Some(vec![1, 2, 3, 4]),
            size: 4,
        })
    );
    assert_eq!(
        Sdo::decode(&[0x40, 0x34, 0x12, 5, 1, 2, 3, 4], false),
        Ok(Sdo::UploadOpened {
            index: 0x1234,
            subindex: 5,
            expedited: None,
            size: 0,
        })
    );
}

#[test]
fn the_same_bytes_mean_different_things_in_the_two_directions() {
    let bytes = [0x60, 0x01, 0x20, 3, 0, 0, 0, 0];
    assert_eq!(
        Sdo::decode(&bytes, true),
        Ok(Sdo::UploadSegment { toggle: false })
    );
    assert_eq!(
        Sdo::decode(&bytes, false),
        Ok(Sdo::DownloadAccepted {
            index: 0x2001,
            subindex: 3
        })
    );
}

#[test]
fn data_that_does_not_fit_is_cut_to_its_field() {
    let initiate = Sdo::InitiateDownload {
        index: 1,
        subindex: 2,
        expedited: Some(vec![1, 2, 3, 4, 5]),
        size: 5,
    };
    assert_eq!(initiate.encode(), [0x23, 1, 0, 2, 1, 2, 3, 4]);
    let nothing = Sdo::UploadOpened {
        index: 1,
        subindex: 2,
        expedited: Some(vec![]),
        size: 0,
    };
    assert_eq!(nothing.encode(), [0x53, 1, 0, 2, 0, 0, 0, 0]);
    let segment = Sdo::UploadData {
        toggle: false,
        data: vec![1, 2, 3, 4, 5, 6, 7, 8],
        last: false,
    };
    assert_eq!(segment.encode(), [0x00, 1, 2, 3, 4, 5, 6, 7]);
}

#[test]
fn every_short_exchange_is_read_back_as_it_was() {
    for length in 0..=7usize {
        for toggle in [false, true] {
            for last in [false, true] {
                let data: Vec<u8> = (1..=length as u8).collect();
                let down = Sdo::DownloadSegment {
                    toggle,
                    data: data.clone(),
                    last,
                };
                assert_eq!(Sdo::decode(&down.encode(), true), Ok(down));
                let up = Sdo::UploadData { toggle, data, last };
                assert_eq!(Sdo::decode(&up.encode(), false), Ok(up));
            }
        }
    }
    for length in 1..=4usize {
        let opened = Sdo::UploadOpened {
            index: 0xfffe,
            subindex: 0xfd,
            expedited: Some(vec![0xaa; length]),
            size: length as u32,
        };
        assert_eq!(Sdo::decode(&opened.encode(), false), Ok(opened));
    }
    let sized = Sdo::InitiateDownload {
        index: 0,
        subindex: 0,
        expedited: None,
        size: 0xfedc_ba98,
    };
    assert_eq!(
        sized.encode(),
        [0x21, 0, 0, 0, 0x98, 0xba, 0xdc, 0xfe]
    );
    assert_eq!(Sdo::decode(&sized.encode(), true), Ok(sized));
}

#[test]
fn what_is_decoded_survives_encoding() {
    for first in 0..=0x9fu8 {
        for request in [false, true] {
            let bytes = [first, 1, 2, 3, 4, 5, 6, 7];
            let sdo = Sdo::decode(&bytes, request).expect("a specifier in use");
            assert_eq!(Sdo::decode(&sdo.encode(), request), Ok(sdo));
        }
    }
}
