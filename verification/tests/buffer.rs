use directio::align::{
    is_multiple_of_align, is_stageable, next_multiple_of_align, padding_of,
};
use directio::overlapped::{offset_halves, total_length};
use directio::route::{read_route, write_route, Route};
use directio::scalar::{copy_prefix, finish_read};
use directio::ext::{write_all_step, WriteAllStep, MAX_INTERRUPTS};
use directio::{alloc_aligend_buffer, Error, ALIGN};

#[test]
fn alignment_unit_is_a_sector() {
    assert_eq!(ALIGN, 512);
}

#[test]
fn aligned_buffer_is_aligned_and_zeroed() {
    for size in [0usize, 1, 511, 512, 513, 4096, 10000] {
        let buf = alloc_aligend_buffer(size);
        assert_eq!(buf.len(), size);
        assert!(buf.is_well_formed());
        assert_eq!(buf.as_slice().len(), size);
        assert_eq!(buf.as_slice().as_ptr() as usize % ALIGN, 0);
        assert_eq!(buf.addr(), buf.as_slice().as_ptr() as usize);
        assert!(buf.as_slice().iter().all(|b| *b == 0));
    }
}

#[test]
fn aligned_buffer_keeps_what_is_written() {
    let mut buf = alloc_aligend_buffer(1024);
    let addr = buf.as_slice().as_ptr() as usize;
    for (i, b) in buf.as_mut_slice().iter_mut().enumerate() {
        *b = (i % 251) as u8;
    }
    assert_eq!(buf.len(), 1024);
    assert_eq!(buf.as_slice().as_ptr() as usize, addr);
    assert_eq!(buf.as_mut_slice().as_ptr() as usize, addr);
    assert!(buf.as_slice().iter().enumerate().all(|(i, b)| *b == (i % 251) as u8));
    assert!(buf.is_well_formed());
}

#[test]
fn aligned_buffers_do_not_overlap() {
    let mut a = alloc_aligend_buffer(512);
    let mut b = alloc_aligend_buffer(512);
    a.as_mut_slice().fill(1);
    b.as_mut_slice().fill(2);
    assert!(a.as_slice().iter().all(|x| *x == 1));
    assert!(b.as_slice().iter().all(|x| *x == 2));
}

#[test]
fn multiples_of_the_unit() {
    assert!(is_multiple_of_align(0));
    assert!(!is_multiple_of_align(1));
    assert!(!is_multiple_of_align(511));
    assert!(is_multiple_of_align(512));
    assert!(!is_multiple_of_align(513));
    assert!(is_multiple_of_align(4096));
    assert!(!is_multiple_of_align(usize::MAX));
}

#[test]
fn rounding_up() {
    assert_eq!(next_multiple_of_align(0), 0);
    assert_eq!(next_multiple_of_align(1), 512);
    assert_eq!(next_multiple_of_align(511), 512);
    assert_eq!(next_multiple_of_align(512), 512);
    assert_eq!(next_multiple_of_align(513), 1024);
    assert_eq!(next_multiple_of_align(8192), 8192);
    assert_eq!(next_multiple_of_align(8193), 8704);
}

#[test]
fn padding_to_the_next_multiple() {
    assert_eq!(padding_of(0), 0);
    assert_eq!(padding_of(1), 511);
    assert_eq!(padding_of(511), 1);
    assert_eq!(padding_of(512), 0);
    assert_eq!(padding_of(1000), 24);
    assert_eq!(padding_of(usize::MAX), 512 - usize::MAX % 512);
}

#[test]
fn what_can_be_staged() {
    let most = isize::MAX as usize;
    assert!(is_stageable(0));
    assert!(is_stageable(1));
    assert!(is_stageable(1 << 30));
    assert!(is_stageable(most - 1024));
    assert!(is_stageable(most - 1023));
    assert!(!is_stageable(most - 1022));
    assert!(!is_stageable(most - 512));
    assert!(!is_stageable(most));
    assert!(!is_stageable(usize::MAX));
}

#[test]
fn routes_of_reads() {
    assert_eq!(read_route(4096, 100, 0), Route::Direct);
    assert_eq!(read_route(4096, 100, 4096), Route::Direct);
    assert_eq!(read_route(512, 1 << 20, 4096), Route::Direct);
    assert_eq!(read_route(4097, 100, 4096), Route::Scratch);
    assert_eq!(read_route(4097, 4096, 4096), Route::Scratch);
    assert_eq!(read_route(4097, 3585, 4096), Route::Scratch);
    assert_eq!(read_route(4097, 4097, 4096), Route::Temporary);
    assert_eq!(read_route(4097, 1, 511), Route::Temporary);
    assert_eq!(read_route(1, 100, 0), Route::Temporary);
    assert_eq!(read_route(1, 0, 0), Route::Temporary);
    assert_eq!(read_route(1, 0, 512), Route::Scratch);
}

#[test]
fn routes_of_writes() {
    assert_eq!(write_route(4096, 100, 4096), Err(Error::InvalidInput));
    assert_eq!(write_route(4097, 511, 4096), Err(Error::InvalidInput));
    assert_eq!(write_route(4097, 513, 0), Err(Error::InvalidInput));
    assert_eq!(write_route(4096, 512, 0), Ok(Route::Direct));
    assert_eq!(write_route(0, 0, 0), Ok(Route::Direct));
    assert_eq!(write_route(4097, 512, 4096), Ok(Route::Scratch));
    assert_eq!(write_route(4097, 4096, 4096), Ok(Route::Scratch));
    assert_eq!(write_route(4097, 4608, 4096), Ok(Route::Temporary));
    assert_eq!(write_route(4097, 8192, 4096), Ok(Route::Temporary));
    assert_eq!(write_route(1, 512, 0), Ok(Route::Temporary));
    assert_eq!(write_route(1, 0, 0), Ok(Route::Scratch));
}

#[test]
fn copy_of_a_prefix() {
    let mut dst = [9u8; 6];
    copy_prefix(&mut dst, &[1, 2, 3, 4], 3);
    assert_eq!(dst, [1, 2, 3, 9, 9, 9]);
    copy_prefix(&mut dst, &[7, 7], 0);
    assert_eq!(dst, [1, 2, 3, 9, 9, 9]);
    copy_prefix(&mut dst, &[5, 6, 7, 8, 9, 10, 11], 6);
    assert_eq!(dst, [5, 6, 7, 8, 9, 10]);
}

#[test]
fn end_of_a_staged_read() {
    let stage = [1u8, 2, 3, 4, 5, 6, 7, 8];
    let mut buf = [0u8; 5];
    assert_eq!(finish_read(&mut buf, &stage, Ok(3)), Ok(3));
    assert_eq!(buf, [1, 2, 3, 0, 0]);
    assert_eq!(finish_read(&mut buf, &stage, Ok(8)), Ok(5));
    assert_eq!(buf, [1, 2, 3, 4, 5]);
    let mut buf = [9u8; 5];
    assert_eq!(finish_read(&mut buf, &stage, Ok(0)), Ok(0));
    assert_eq!(buf, [9; 5]);
    assert_eq!(finish_read(&mut buf, &stage, Err(Error::Os(5))), Err(Error::Os(5)));
    assert_eq!(buf, [9; 5]);
    assert_eq!(finish_read(&mut buf, &stage, Ok(usize::MAX)), Ok(5));
    assert_eq!(buf, [1, 2, 3, 4, 5]);
}

#[test]
fn halves_of_an_offset() {
    assert_eq!(offset_halves(0), (0, 0));
    assert_eq!(offset_halves(0xffff_ffff), (0xffff_ffff, 0));
    assert_eq!(offset_halves(0x1_0000_0000), (0, 1));
    assert_eq!(offset_halves(0x1234_5678_9abc_def0), (0x9abc_def0, 0x1234_5678));
    assert_eq!(offset_halves(u64::MAX), (u32::MAX, u32::MAX));
}

#[test]
fn total_of_the_lengths() {
    let a = [0u8; 3];
    let b = [0u8; 0];
    let c = [0u8; 10];
    assert_eq!(total_length(&[]), Some(0));
    assert_eq!(total_length(&[&a[..]]), Some(3));
    assert_eq!(total_length(&[&a[..], &b[..], &c[..]]), Some(13));
}

#[test]
fn steps_of_a_whole_write() {
    assert_eq!(write_all_step(4, 9, Ok(0)), WriteAllStep::Fail(Error::WriteZero));
    assert_eq!(
        write_all_step(4, 9, Ok(3)),
        WriteAllStep::Continue { done: 7, tries: MAX_INTERRUPTS }
    );
    assert_eq!(
        write_all_step(4, 9, Err(Error::Interrupted)),
        WriteAllStep::Continue { done: 4, tries: 8 }
    );
    assert_eq!(
        write_all_step(0, 1, Err(Error::Interrupted)),
        WriteAllStep::Continue { done: 0, tries: 0 }
    );
    assert_eq!(
        write_all_step(4, 0, Err(Error::Interrupted)),
        WriteAllStep::Fail(Error::Interrupted)
    );
    assert_eq!(write_all_step(4, 9, Err(Error::Os(28))), WriteAllStep::Fail(Error::Os(28)));
    assert_eq!(write_all_step(4, 9, Err(Error::Other)), WriteAllStep::Fail(Error::Other));
    assert_eq!(
        write_all_step(4, 9, Err(Error::InvalidInput)),
        WriteAllStep::Fail(Error::InvalidInput)
    );
    assert_eq!(MAX_INTERRUPTS, u64::MAX);
}
