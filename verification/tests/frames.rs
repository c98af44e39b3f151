use cour2ier::errors::Error;
use cour2ier::walker::{resolve_chain, Frame, FrameWalker};

#[test]
fn frame_zero_returns_input_pointers() {
    // Frame zero is the current frame: no chain step, the inputs come back.
    let r = resolve_chain(8, 0x1000, 0x1020, 0, &[]);
    assert_eq!(
        r,
        Ok(Frame { index: 0, start: 0x1000, len: 0x28 })
    );
}

#[test]
fn frame_zero_asks_for_no_read() {
    let w = FrameWalker::new(8, 0x1000, 0x1020, 0);
    assert_eq!(w.next_read(), None);
}

#[test]
fn frame_zero_length_example() {
    // pointer_width 8, sp 0x1000, bp 0x1020: length 0x1020 - 0x1000 + 8.
    let r = resolve_chain(8, 0x1000, 0x1020, 0, &[]).unwrap();
    assert_eq!(r.start, 0x1000);
    assert_eq!(r.len, 0x28);
}

#[test]
fn null_saved_base_pointer_is_out_of_bounds() {
    // Memory at 0x1020 holds a null saved base pointer: one frame available.
    let r = resolve_chain(8, 0x1000, 0x1020, 1, &[0]);
    assert_eq!(r, Err(Error::FrameOutOfBounds { available: 1 }));
}

#[test]
fn chain_request_below_depth_succeeds() {
    // Three frames: saved base pointers 0x2000, 0x3000, then null.
    let reads = [0x2000u64, 0x3000, 0];
    let r = resolve_chain(8, 0x1000, 0x1020, 2, &reads).unwrap();
    assert_eq!(r.index, 2);
    assert_eq!(r.start, 0x2008);
    assert_eq!(r.len, 0x1000);
}

#[test]
fn chain_request_at_depth_reports_available() {
    let reads = [0x2000u64, 0x3000, 0];
    let r = resolve_chain(8, 0x1000, 0x1020, 3, &reads);
    assert_eq!(r, Err(Error::FrameOutOfBounds { available: 3 }));
}

#[test]
fn chain_request_beyond_depth_reports_available() {
    let reads = [0x2000u64, 0x3000, 0, 0x9999, 0x8888];
    let r = resolve_chain(8, 0x1000, 0x1020, 5, &reads);
    assert_eq!(r, Err(Error::FrameOutOfBounds { available: 3 }));
}

#[test]
fn switched_pointers_are_reported_not_sized() {
    // sp above bp: the frame cannot be sized, no wrapped length comes out.
    let r = resolve_chain(8, 0x2000, 0x1000, 0, &[]);
    assert_eq!(r, Err(Error::PointerOrder { sp: 0x2000, bp: 0x1000 }));
}

#[test]
fn switched_pointers_after_walk_are_reported() {
    // The first dereference lands below the new stack pointer.
    let r = resolve_chain(8, 0x1000, 0x1020, 1, &[0x500]);
    assert_eq!(r, Err(Error::PointerOrder { sp: 0x1028, bp: 0x500 }));
}

#[test]
fn frame_length_is_bp_minus_sp_plus_width() {
    let r = resolve_chain(4, 4096, 4096, 0, &[]).unwrap();
    assert_eq!(r.len, 4);
    let r = resolve_chain(4, 4096, 4144, 0, &[]).unwrap();
    assert_eq!(r.len, (4144 - 4096 + 4) as u128);
    let r = resolve_chain(8, 0, u64::MAX, 0, &[]).unwrap();
    assert_eq!(r.len, u64::MAX as u128 + 8);
}

#[test]
fn stack_pointer_past_address_space_is_order_error() {
    // The dereferenced base pointer sits so high that the next stack
    // pointer would pass the end of the address space.
    let r = resolve_chain(8, 0x1000, u64::MAX - 4, 1, &[u64::MAX]);
    assert_eq!(
        r,
        Err(Error::PointerOrder {
            sp: u64::MAX as u128 + 4,
            bp: u64::MAX as u128,
        })
    );
}

#[test]
fn step_api_walks_one_frame() {
    let mut w = FrameWalker::new(8, 0x1000, 0x1020, 1);
    assert_eq!(w.next_read(), Some(0x1020));
    assert_eq!(w.feed(0x2000), Ok(()));
    assert_eq!(w.next_read(), None);
    let frame = w.finish().unwrap();
    assert_eq!(frame.index, 1);
    assert_eq!(frame.start, 0x1028);
    assert_eq!(frame.len, 0x2000 - 0x1028 + 8);
}

#[test]
fn step_api_null_read_stops_walk() {
    let mut w = FrameWalker::new(8, 0x1000, 0x1020, 2);
    assert_eq!(w.feed(0x2000), Ok(()));
    assert_eq!(
        w.feed(0),
        Err(Error::FrameOutOfBounds { available: 2 })
    );
}

#[test]
fn four_byte_width_chain_walk() {
    let reads = [0x5000u64, 0];
    let r = resolve_chain(4, 0x4000, 0x4100, 1, &reads).unwrap();
    assert_eq!(r.index, 1);
    assert_eq!(r.start, 0x4104);
    assert_eq!(r.len, 0x5000 - 0x4104 + 4);
}
