use rust_can::frame::{
    is_canonical_fd_data_len, is_false, is_zero_u32, is_zero_u8, matches_any,
    CAN_FD_CANONICAL_DATA_LENS,
};
use rust_can::{
    max_data_len, validate_frame, Error, Filter, Frame, LoanedFrame, CAN_FD_MAX_DATA_LEN,
    CAN_MAX_DATA_LEN, CAN_MAX_EXT_ID, CAN_MAX_STD_ID, CAN_XL_MAX_DATA_LEN, CAN_XL_MAX_PRIO_ID,
    CAN_XL_MIN_DATA_LEN,
};
use std::sync::{Arc, Mutex};

#[test]
fn valid_standard_frame() {
    let f = Frame {
        id: 0x100,
        data: vec![1, 2, 3, 4],
        ..Default::default()
    };
    assert!(validate_frame(&f).is_ok());
}

#[test]
fn valid_extended_frame() {
    let f = Frame {
        id: 0x1234_5678,
        ext: true,
        data: vec![0xFF; 8],
        ..Default::default()
    };
    assert!(validate_frame(&f).is_ok());
}

#[test]
fn valid_fd_frame() {
    let f = Frame {
        id: 0x100,
        fd: true,
        brs: true,
        data: vec![0u8; 64],
        ..Default::default()
    };
    assert!(validate_frame(&f).is_ok());
}

#[test]
fn fd_frame_all_canonical_lengths_accepted() {
    for &len in CAN_FD_CANONICAL_DATA_LENS.iter() {
        let f = Frame {
            id: 0x100,
            fd: true,
            data: vec![0u8; len],
            ..Default::default()
        };
        assert!(
            validate_frame(&f).is_ok(),
            "canonical FD length {len} should validate"
        );
    }
}

#[test]
fn fd_frame_non_canonical_lengths_rejected() {
    for len in [
        9usize, 10, 11, 13, 14, 15, 17, 18, 19, 21, 25, 33, 47, 49, 63,
    ] {
        let f = Frame {
            id: 0x100,
            fd: true,
            data: vec![0u8; len],
            ..Default::default()
        };
        assert!(
            matches!(validate_frame(&f), Err(Error::InvalidFrame { .. })),
            "non-canonical FD length {len} should be rejected"
        );
    }
}

#[test]
fn valid_xl_frame() {
    let f = Frame {
        id: 0x7FF,
        xl: true,
        data: vec![0u8; 2048],
        ..Default::default()
    };
    assert!(validate_frame(&f).is_ok());
}

#[test]
fn standard_id_too_large() {
    let f = Frame {
        id: 0x800,
        ..Default::default()
    };
    assert!(matches!(
        validate_frame(&f),
        Err(Error::InvalidFrame { .. })
    ));
}

#[test]
fn extended_id_too_large() {
    let f = Frame {
        id: 0x2000_0000,
        ext: true,
        ..Default::default()
    };
    assert!(matches!(
        validate_frame(&f),
        Err(Error::InvalidFrame { .. })
    ));
}

#[test]
fn brs_without_fd_rejected() {
    let f = Frame {
        id: 0x100,
        brs: true,
        ..Default::default()
    };
    assert!(matches!(
        validate_frame(&f),
        Err(Error::InvalidFrame { .. })
    ));
}

#[test]
fn rtr_with_fd_rejected() {
    let f = Frame {
        id: 0x100,
        fd: true,
        rtr: true,
        ..Default::default()
    };
    assert!(matches!(
        validate_frame(&f),
        Err(Error::InvalidFrame { .. })
    ));
}

#[test]
fn remote_request_preserves_requested_dlc() {
    for len in 0..=8usize {
        let f = Frame::remote_request(0x123, false, len);
        assert!(f.rtr);
        assert!(!f.fd);
        assert_eq!(
            f.data.len(),
            len,
            "remote_request({len}) must preserve the requested DLC in data.len()"
        );
        assert!(validate_frame(&f).is_ok());
    }
}

#[test]
fn remote_request_clamps_oversized_length() {
    let f = Frame::remote_request(0x123, false, 20);
    assert_eq!(f.data.len(), CAN_MAX_DATA_LEN);
    assert!(validate_frame(&f).is_ok());
}

#[test]
fn data_too_long_classic() {
    let f = Frame {
        id: 0x100,
        data: vec![0u8; 9],
        ..Default::default()
    };
    assert!(matches!(
        validate_frame(&f),
        Err(Error::InvalidFrame { .. })
    ));
}

#[test]
fn data_too_long_fd() {
    let f = Frame {
        id: 0x100,
        fd: true,
        data: vec![0u8; 65],
        ..Default::default()
    };
    assert!(matches!(
        validate_frame(&f),
        Err(Error::InvalidFrame { .. })
    ));
}

#[test]
fn xl_and_fd_rejected() {
    let f = Frame {
        id: 0x100,
        xl: true,
        fd: true,
        data: vec![0u8; 8],
        ..Default::default()
    };
    assert!(matches!(
        validate_frame(&f),
        Err(Error::InvalidFrame { .. })
    ));
}

#[test]
fn xl_ext_rejected() {
    let f = Frame {
        id: 0x100,
        xl: true,
        ext: true,
        data: vec![0u8; 8],
        ..Default::default()
    };
    assert!(matches!(
        validate_frame(&f),
        Err(Error::InvalidFrame { .. })
    ));
}

#[test]
fn xl_priority_id_too_large() {
    let f = Frame {
        id: 0x800,
        xl: true,
        data: vec![0u8; 8],
        ..Default::default()
    };
    assert!(matches!(
        validate_frame(&f),
        Err(Error::InvalidFrame { .. })
    ));
}

#[test]
fn xl_data_too_large() {
    let f = Frame {
        id: 0x100,
        xl: true,
        data: vec![0u8; 2049],
        ..Default::default()
    };
    assert!(matches!(
        validate_frame(&f),
        Err(Error::InvalidFrame { .. })
    ));
}

#[test]
fn esi_without_fd_rejected() {
    let f = Frame {
        id: 0x100,
        esi: true,
        ..Default::default()
    };
    assert!(matches!(
        validate_frame(&f),
        Err(Error::InvalidFrame { .. })
    ));
}

#[test]
fn filter_matches() {
    let f = Frame {
        id: 0x100,
        ..Default::default()
    };
    let pass = Filter {
        id: 0x100,
        mask: 0x7FF,
    };
    let miss = Filter {
        id: 0x200,
        mask: 0x7FF,
    };
    let all = Filter { id: 0, mask: 0 };

    assert!(pass.matches(&f));
    assert!(!miss.matches(&f));
    assert!(all.matches(&f));
}

#[test]
fn frame_max_data_len() {
    let classic = Frame::default();
    assert_eq!(classic.max_data_len(), 8);

    let fd = Frame {
        fd: true,
        ..Default::default()
    };
    assert_eq!(fd.max_data_len(), 64);

    let xl = Frame {
        xl: true,
        ..Default::default()
    };
    assert_eq!(xl.max_data_len(), 2048);
}

#[test]
fn loaned_frame_release_called() {
    let released = Arc::new(Mutex::new(false));
    let r = released.clone();
    let lf = LoanedFrame::new(Frame::default(), move || {
        *r.lock().unwrap() = true;
    });
    lf.return_loan();
    assert!(*released.lock().unwrap());
}

#[test]
fn max_data_len_fn() {
    assert_eq!(max_data_len(false), 8);
    assert_eq!(max_data_len(true), 64);
}

fn reason(f: Frame) -> String {
    match validate_frame(&f) {
        Err(Error::InvalidFrame { reason }) => reason,
        other => panic!("expected an invalid frame, got {:?}", other),
    }
}

#[test]
fn constants_of_the_formats() {
    assert_eq!(CAN_MAX_STD_ID, 0x7FF);
    assert_eq!(CAN_MAX_EXT_ID, 0x1FFF_FFFF);
    assert_eq!(CAN_XL_MAX_PRIO_ID, 0x7FF);
    assert_eq!(CAN_FD_MAX_DATA_LEN, 64);
    assert_eq!(CAN_XL_MIN_DATA_LEN, 1);
    assert_eq!(CAN_XL_MAX_DATA_LEN, 2048);
}

#[test]
fn canonical_lengths_are_sixteen() {
    let n = (0usize..200)
        .filter(|&len| is_canonical_fd_data_len(len))
        .count();
    assert_eq!(n, 16);
}

#[test]
fn zero_values() {
    assert!(is_false(&false) && !is_false(&true));
    assert!(is_zero_u8(&0) && !is_zero_u8(&1));
    assert!(is_zero_u32(&0) && !is_zero_u32(&7));
}

#[test]
fn any_of_two_filters() {
    let filters = vec![
        Filter {
            id: 0x100,
            mask: 0x7FF,
        },
        Filter {
            id: 0x20,
            mask: 0xF0,
        },
    ];
    let f = |id: u32| Frame {
        id,
        ..Default::default()
    };
    assert!(matches_any(&filters, &f(0x100)));
    assert!(matches_any(&filters, &f(0x2F)));
    assert!(!matches_any(&filters, &f(0x30)));
    assert!(matches_any(&vec![], &f(0x30)));
}

#[test]
fn a_reason_names_the_limit() {
    let long = reason(Frame {
        id: 0x100,
        data: vec![0u8; 9],
        ..Default::default()
    });
    assert!(long.contains("9"), "{}", long);
    assert!(long.contains("8"), "{}", long);
}

#[test]
fn an_empty_xl_frame_is_invalid() {
    assert!(validate_frame(&Frame {
        id: 1,
        xl: true,
        ..Default::default()
    })
    .is_err());
    assert!(validate_frame(&Frame::default()).is_ok());
}

#[test]
fn a_simple_loan_has_nothing_to_release() {
    let lf: LoanedFrame<fn()> = LoanedFrame::simple(Frame::default());
    assert!(lf.release.is_none());
    lf.return_loan();
}
