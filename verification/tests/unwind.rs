use stax::unwind::{
    callers_of_frames, captured_frame_pointer_walk, fp_bridge_step, strip_code_pointer,
    strip_data_pointer, CapturedStack, CapturedThreadState, PointerBits,
};

#[test]
fn captured_fp_walk_reads_saved_lr_chain() {
    let mut stack = vec![0u8; 64];
    write_u64(&mut stack, 0, 0x1010);
    write_u64(&mut stack, 8, 0xaaaa);
    write_u64(&mut stack, 16, 0);
    write_u64(&mut stack, 24, 0xbbbb);

    let state = CapturedThreadState::new(0, 0, 0x1000, 0x1000, PointerBits::unsigned());
    let stack = CapturedStack::new(0x1000, &stack, PointerBits::unsigned());

    assert_eq!(
        captured_frame_pointer_walk(state, stack, 64),
        vec![0xaaaa, 0xbbbb]
    );
}

#[test]
fn captured_fp_walk_preserves_recursive_return_addresses() {
    let mut stack = vec![0u8; 64];
    write_u64(&mut stack, 0, 0x1010);
    write_u64(&mut stack, 8, 0xaaaa);
    write_u64(&mut stack, 16, 0x1020);
    write_u64(&mut stack, 24, 0xaaaa);
    write_u64(&mut stack, 32, 0);
    write_u64(&mut stack, 40, 0xbbbb);

    let state = CapturedThreadState::new(0, 0, 0x1000, 0x1000, PointerBits::unsigned());
    let stack = CapturedStack::new(0x1000, &stack, PointerBits::unsigned());

    assert_eq!(
        captured_frame_pointer_walk(state, stack, 64),
        vec![0xaaaa, 0xaaaa, 0xbbbb]
    );
}

fn write_u64(buf: &mut [u8], offset: usize, value: u64) {
    buf[offset..offset + 8].copy_from_slice(&value.to_le_bytes());
}

#[test]
fn signatures_are_taken_off_pointers() {
    let bits = PointerBits { code: 0x7fff_ffff_ffff, data: 0x7fff_ffff_ffff };
    assert_eq!(strip_code_pointer(0x1234_0000_0000_aaaa, bits), 0xaaaa);
    assert_eq!(strip_code_pointer(0x0080_1234_5678_9abc, bits), 0xffff_9234_5678_9abc);
    assert_eq!(strip_data_pointer(strip_data_pointer(0x5500_0000_0000_1010, bits), bits), 0x1010);
    assert_eq!(strip_code_pointer(0x1234_0000_0000_aaaa, PointerBits::unsigned()), 0x1234_0000_0000_aaaa);

    assert_eq!(
        CapturedThreadState::new(0x1234_0000_0000_aaaa, 7, 0x5500_0000_0000_1010, 8, bits),
        CapturedThreadState { pc: 0xaaaa, lr: 7, fp: 0x1010, sp: 8 }
    );
    let frames = vec![1, 0x1234_0000_0000_aaaa, 0x1234_0000_0000_0000, 0xbbbb];
    assert_eq!(callers_of_frames(&frames, None, 8, bits).unwrap(), [0xaaaa, 0xbbbb]);

    let mut bytes = vec![0u8; 64];
    write_u64(&mut bytes, 0, 0x5500_0000_0000_1010);
    write_u64(&mut bytes, 8, 0x1234_0000_0000_aaaa);
    write_u64(&mut bytes, 24, 0x1234_0000_0000_bbbb);
    let stack = CapturedStack::new(0x5500_0000_0000_1000, &bytes, bits);
    let state = CapturedThreadState::new(0, 0, 0x1000, 0x1000, PointerBits::unsigned());
    assert_eq!(captured_frame_pointer_walk(state, stack, 8), [0xaaaa, 0xbbbb]);
    let next = fp_bridge_step(stack, 0x1000, 0x1000);
    assert_eq!(
        next,
        Some(CapturedThreadState { pc: 0xaaaa, lr: 0xbbbb, fp: 0x1010, sp: 0x1010 })
    );
}
