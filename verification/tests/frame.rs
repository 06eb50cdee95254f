use up4::frame::{FrameCtx, FrameError};

fn ctx(buf: &mut [u8]) -> FrameCtx<'_> {
    FrameCtx::new(buf, 64, 4, 0, 0).expect("window fits")
}

#[test]
fn window_must_fit_the_buffer() {
    let mut buf = [0u8; 8];
    assert!(FrameCtx::new(&mut buf, 4, 4, 0, 0).is_some());
    assert!(FrameCtx::new(&mut buf, 4, 5, 0, 0).is_none());
    assert!(
        FrameCtx::new(&mut buf, 0, usize::MAX, 0, 0).is_none(),
        "no overflow wrap"
    );
}

#[test]
fn frame_is_the_window_and_nothing_else() {
    let mut buf = [0u8; 128];
    buf[64..68].copy_from_slice(b"abcd");
    let mut c = ctx(&mut buf);
    assert_eq!(c.frame(), b"abcd");
    c.frame_mut()[0] = b'z';
    assert_eq!(c.frame(), b"zbcd");
    assert_eq!(c.headroom(), 64);
    assert_eq!(c.capacity(), 64);
}

#[test]
fn encap_moves_into_headroom_and_refuses_to_overrun_it() {
    let mut buf = [0u8; 128];
    buf[64..68].copy_from_slice(b"abcd");
    let mut c = ctx(&mut buf);
    c.push_front(2).expect("2 <= 64").copy_from_slice(b"xy");
    assert_eq!(c.frame(), b"xyabcd");
    assert_eq!(c.headroom(), 62);
    assert_eq!(
        c.push_front(63),
        Err(FrameError::NotEnoughHeadroom { want: 63, have: 62 })
    );
}

#[test]
fn decap_removes_from_the_front_and_refuses_to_overrun_the_frame() {
    let mut buf = [0u8; 128];
    buf[64..68].copy_from_slice(b"abcd");
    let mut c = ctx(&mut buf);
    c.pop_front(1).expect("1 <= 4");
    assert_eq!(c.frame(), b"bcd");
    assert_eq!(
        c.pop_front(4),
        Err(FrameError::FrameTooShort { want: 4, have: 3 })
    );
}

#[test]
fn growth_is_bounded_by_capacity() {
    let mut buf = [0u8; 128];
    let mut c = ctx(&mut buf);
    c.set_len(64).expect("fits exactly");
    assert_eq!(
        c.set_len(65),
        Err(FrameError::NotEnoughCapacity { want: 65, have: 64 })
    );
    c.truncate(10);
    assert_eq!(c.len(), 10);
    c.truncate(99);
    assert_eq!(c.len(), 10, "truncate never grows");
}

#[test]
fn buffer_refusals_say_both_lengths() {
    assert_eq!(
        FrameError::NotEnoughHeadroom { want: 63, have: 62 }.message(),
        "encap needs 63 B of headroom, 62 B available"
    );
    assert_eq!(
        FrameError::NotEnoughCapacity { want: 65, have: 64 }.message(),
        "frame length 65 exceeds capacity 64"
    );
    assert_eq!(
        FrameError::FrameTooShort { want: 4, have: 3 }.message(),
        "decap needs 4 B, frame is 3 B"
    );
}

#[test]
fn decap_undoes_encap() {
    let mut buf = [0u8; 128];
    buf[64..68].copy_from_slice(b"abcd");
    let mut c = ctx(&mut buf);
    c.push_front(3).expect("3 <= 64").copy_from_slice(b"xyz");
    c.pop_front(3).expect("3 <= 7");
    assert_eq!(c.frame(), b"abcd");
    assert_eq!(c.headroom(), 64);
}
