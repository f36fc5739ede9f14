use std::cell::{Cell, RefCell};

use directio::file::File;
use directio::vectored::{shared_count, tmp_bufs_into_bufs, VectoredPlan};
use directio::{alloc_aligend_buffer, AlignedBuf, Error, VectoredExt, ALIGN};

/// A file in memory that takes lists of buffers, and records where each
/// buffer of each call lay and how long it was.
struct Mem {
    data: RefCell<Vec<u8>>,
    pos: Cell<usize>,
    calls: RefCell<Vec<Vec<(usize, usize)>>>,
    fail: Option<Error>,
}

impl Mem {
    fn with(data: Vec<u8>) -> Self {
        Mem {
            data: RefCell::new(data),
            pos: Cell::new(0),
            calls: RefCell::new(Vec::new()),
            fail: None,
        }
    }

    fn failing(e: Error) -> Self {
        let mut mem = Mem::with(Vec::new());
        mem.fail = Some(e);
        mem
    }

    fn scatter(
        &self,
        bufs: &mut [&mut [u8]],
        addrs: &[usize],
        mut at: usize,
    ) -> Result<usize, Error> {
        assert_eq!(addrs, bufs.iter().map(|b| b.as_ptr() as usize).collect::<Vec<_>>());
        self.calls
            .borrow_mut()
            .push(bufs.iter().map(|b| (b.as_ptr() as usize, b.len())).collect());
        if let Some(e) = self.fail {
            return Err(e);
        }
        let data = self.data.borrow();
        let mut total = 0;
        for buf in bufs.iter_mut() {
            let n = buf.len().min(data.len().saturating_sub(at));
            buf[..n].copy_from_slice(&data[at..at + n]);
            at += n;
            total += n;
        }
        Ok(total)
    }

    fn gather(&self, bufs: &[&[u8]], addrs: &[usize], mut at: usize) -> Result<usize, Error> {
        assert_eq!(addrs, bufs.iter().map(|b| b.as_ptr() as usize).collect::<Vec<_>>());
        self.calls
            .borrow_mut()
            .push(bufs.iter().map(|b| (b.as_ptr() as usize, b.len())).collect());
        if let Some(e) = self.fail {
            return Err(e);
        }
        let mut data = self.data.borrow_mut();
        let mut total = 0;
        for buf in bufs {
            if data.len() < at + buf.len() {
                data.resize(at + buf.len(), 0);
            }
            data[at..at + buf.len()].copy_from_slice(buf);
            at += buf.len();
            total += buf.len();
        }
        Ok(total)
    }
}

impl VectoredExt for Mem {
    fn read_vectored(&self, bufs: &mut [&mut [u8]], addrs: &[usize]) -> Result<usize, Error> {
        let n = self.scatter(bufs, addrs, self.pos.get())?;
        self.pos.set(self.pos.get() + n);
        Ok(n)
    }

    fn read_vectored_at(
        &self,
        bufs: &mut [&mut [u8]],
        addrs: &[usize],
        offset: u64,
    ) -> Result<usize, Error> {
        self.scatter(bufs, addrs, offset as usize)
    }

    fn write_vectored(&self, bufs: &[&[u8]], addrs: &[usize]) -> Result<usize, Error> {
        let n = self.gather(bufs, addrs, self.pos.get())?;
        self.pos.set(self.pos.get() + n);
        Ok(n)
    }

    fn write_vectored_at(
        &self,
        bufs: &[&[u8]],
        addrs: &[usize],
        offset: u64,
    ) -> Result<usize, Error> {
        self.gather(bufs, addrs, offset as usize)
    }
}

fn distinct(len: usize) -> Vec<u8> {
    (0..len).map(|i| ((i * 31 + i / 256 * 7 + 1) % 256) as u8).collect()
}

/// A buffer of `len` bytes inside `arena`, `skew` bytes past its start.
fn skewed(arena: &mut AlignedBuf, len: usize, skew: usize) -> &mut [u8] {
    &mut arena.as_mut_slice()[skew..skew + len]
}

#[test]
fn vectored_read_fills_each_buffer_with_its_slice() {
    let data = distinct(4096);
    let file = File::new(Mem::with(data.clone()), 4096);

    let mut first = alloc_aligend_buffer(1024);
    let mut arena = alloc_aligend_buffer(1024 + ALIGN);
    let mut third = alloc_aligend_buffer(2048);
    let first_addr = first.as_slice().as_ptr() as usize;
    let third_addr = third.as_slice().as_ptr() as usize;
    let middle = skewed(&mut arena, 1024, 1);
    let middle_addr = middle.as_ptr() as usize;
    assert_ne!(middle_addr % ALIGN, 0);

    let n = {
        let mut bufs: Vec<&mut [u8]> = vec![first.as_mut_slice(), middle, third.as_mut_slice()];
        file.read_vectored_helper(&mut bufs, None)
    };
    assert_eq!(n, Ok(4096));
    assert_eq!(first.as_slice(), &data[..1024]);
    assert_eq!(&arena.as_slice()[1..1025], &data[1024..2048]);
    assert_eq!(third.as_slice(), &data[2048..]);

    let calls = file.as_inner().calls.borrow().clone();
    assert_eq!(calls.len(), 1);
    assert_eq!(calls[0].len(), 3);
    assert_eq!(calls[0][0], (first_addr, 1024));
    assert_eq!(calls[0][2], (third_addr, 2048));
    assert_eq!(calls[0][1].1, 1024);
    assert_eq!(calls[0][1].0 % ALIGN, 0);
    assert_ne!(calls[0][1].0, middle_addr);
}

#[test]
fn vectored_read_at_an_offset_with_every_buffer_misaligned() {
    let data = distinct(8192);
    let file = File::new(Mem::with(data.clone()), 0);
    let mut arenas: Vec<AlignedBuf> =
        (0..3).map(|_| alloc_aligend_buffer(1024 + ALIGN)).collect();
    let n = {
        let mut bufs: Vec<&mut [u8]> = arenas
            .iter_mut()
            .enumerate()
            .map(|(i, a)| skewed(a, 512 * (i + 1) - 512 * (i / 2), 1 + i))
            .collect();
        assert_eq!(bufs.iter().map(|b| b.len()).collect::<Vec<_>>(), vec![512, 1024, 1024]);
        file.read_vectored_helper(&mut bufs, Some(512))
    };
    assert_eq!(n, Ok(2560));
    assert_eq!(&arenas[0].as_slice()[1..513], &data[512..1024]);
    assert_eq!(&arenas[1].as_slice()[2..1026], &data[1024..2048]);
    assert_eq!(&arenas[2].as_slice()[3..1027], &data[2048..3072]);
    for (addr, _) in &file.as_inner().calls.borrow()[0] {
        assert_eq!(addr % ALIGN, 0);
    }
}

#[test]
fn vectored_read_shares_a_short_count_out_in_order() {
    let data = distinct(1300);
    let file = File::new(Mem::with(data.clone()), 4096);
    let mut arenas: Vec<AlignedBuf> =
        (0..3).map(|_| alloc_aligend_buffer(1024 + ALIGN)).collect();
    for a in arenas.iter_mut() {
        a.as_mut_slice().fill(0xaa);
    }
    let n = {
        let mut bufs: Vec<&mut [u8]> = arenas.iter_mut().map(|a| skewed(a, 1024, 1)).collect();
        file.read_vectored_helper(&mut bufs, None)
    };
    assert_eq!(n, Ok(1300));
    assert_eq!(&arenas[0].as_slice()[1..1025], &data[..1024]);
    assert_eq!(&arenas[1].as_slice()[1..277], &data[1024..]);
    assert!(arenas[1].as_slice()[277..].iter().all(|b| *b == 0xaa));
    assert!(arenas[2].as_slice().iter().all(|b| *b == 0xaa));
}

#[test]
fn vectored_read_of_nothing_changes_nothing() {
    let file = File::new(Mem::with(Vec::new()), 4096);
    let mut arena = alloc_aligend_buffer(512 + ALIGN);
    arena.as_mut_slice().fill(3);
    let n = {
        let mut bufs: Vec<&mut [u8]> = vec![skewed(&mut arena, 512, 1)];
        file.read_vectored_helper(&mut bufs, None)
    };
    assert_eq!(n, Ok(0));
    assert!(arena.as_slice().iter().all(|b| *b == 3));
    let mut none: Vec<&mut [u8]> = Vec::new();
    assert_eq!(file.read_vectored_helper(&mut none, None), Ok(0));
}

#[test]
fn vectored_read_rounds_an_odd_length_up() {
    let data = distinct(2048);
    let file = File::new(Mem::with(data.clone()), 4096);
    let mut first = alloc_aligend_buffer(100);
    let mut second = alloc_aligend_buffer(512);
    let n = {
        let mut bufs: Vec<&mut [u8]> = vec![first.as_mut_slice(), second.as_mut_slice()];
        file.read_vectored_helper(&mut bufs, None)
    };
    assert_eq!(n, Ok(612));
    let calls = file.as_inner().calls.borrow().clone();
    assert_eq!(calls[0].iter().map(|c| c.1).collect::<Vec<_>>(), vec![512, 512]);
    assert_eq!(first.as_slice(), &data[..100]);
    assert_eq!(second.as_slice(), &data[512..1024]);
}

#[test]
fn vectored_read_failure_is_passed_on() {
    let file = File::new(Mem::failing(Error::Os(5)), 4096);
    let mut arena = alloc_aligend_buffer(512 + ALIGN);
    arena.as_mut_slice().fill(9);
    let n = {
        let mut bufs: Vec<&mut [u8]> = vec![skewed(&mut arena, 512, 1)];
        file.read_vectored_helper(&mut bufs, Some(0))
    };
    assert_eq!(n, Err(Error::Os(5)));
    assert!(arena.as_slice().iter().all(|b| *b == 9));
}

#[test]
fn vectored_write_hands_over_the_same_bytes() {
    let data = distinct(4096);
    let file = File::new(Mem::with(Vec::new()), 4096);
    let mut first = alloc_aligend_buffer(1024);
    first.as_mut_slice().copy_from_slice(&data[..1024]);
    let mut arena = alloc_aligend_buffer(1024 + ALIGN);
    skewed(&mut arena, 1024, 5).copy_from_slice(&data[1024..2048]);
    let mut third = alloc_aligend_buffer(2048);
    third.as_mut_slice().copy_from_slice(&data[2048..]);

    let bufs: Vec<&[u8]> = vec![first.as_slice(), &arena.as_slice()[5..1029], third.as_slice()];
    assert_eq!(file.write_vectored_helper(&bufs, None), Ok(4096));
    assert_eq!(*file.as_inner().data.borrow(), data);
    assert_eq!(file.write_vectored_helper(&bufs, Some(4096)), Ok(4096));
    assert_eq!(&file.as_inner().data.borrow()[4096..], &data[..]);

    let calls = file.as_inner().calls.borrow().clone();
    assert_eq!(calls.len(), 2);
    for call in &calls {
        assert_eq!(call[0], (first.as_slice().as_ptr() as usize, 1024));
        assert_eq!(call[2], (third.as_slice().as_ptr() as usize, 2048));
        assert_eq!(call[1].1, 1024);
        assert_eq!(call[1].0 % ALIGN, 0);
    }
}

#[test]
fn vectored_write_with_one_odd_length_makes_no_native_call() {
    let file = File::new(Mem::with(Vec::new()), 4096);
    let first = alloc_aligend_buffer(512);
    let second = alloc_aligend_buffer(100);
    let third = alloc_aligend_buffer(512);
    let bufs: Vec<&[u8]> = vec![first.as_slice(), second.as_slice(), third.as_slice()];
    assert_eq!(file.write_vectored_helper(&bufs, None), Err(Error::InvalidInput));
    assert_eq!(file.write_vectored_helper(&bufs, Some(0)), Err(Error::InvalidInput));
    assert!(file.as_inner().calls.borrow().is_empty());
    assert!(file.as_inner().data.borrow().is_empty());
}

#[test]
fn vectored_write_failure_is_passed_on() {
    let file = File::new(Mem::failing(Error::Interrupted), 4096);
    let first = alloc_aligend_buffer(512);
    let bufs: Vec<&[u8]> = vec![first.as_slice()];
    assert_eq!(file.write_vectored_helper(&bufs, None), Err(Error::Interrupted));
}

#[test]
fn addresses_given_decide_which_buffers_are_staged() {
    let data = distinct(2048);
    let file = File::new(Mem::with(data.clone()), 4096);
    let mut first = alloc_aligend_buffer(1024);
    let mut arena = alloc_aligend_buffer(1024 + ALIGN);
    let own = (first.as_slice().as_ptr() as usize, arena.as_slice()[7..].as_ptr() as usize);
    let n = {
        let mut bufs: Vec<&mut [u8]> = vec![first.as_mut_slice(), skewed(&mut arena, 1024, 7)];
        file.read_vectored_at(&mut bufs, &[own.0, own.1], 0)
    };
    assert_eq!(n, Ok(2048));
    assert_eq!(first.as_slice(), &data[..1024]);
    assert_eq!(&arena.as_slice()[7..1031], &data[1024..]);
    let bufs: Vec<&[u8]> = vec![&arena.as_slice()[7..1031], first.as_slice()];
    assert_eq!(file.write_vectored(&bufs, &[own.1, own.0]), Ok(2048));
    assert_eq!(file.write_vectored_with_addresses(&bufs, &[own.1, own.0], Some(0)), Ok(2048));
    let calls = file.as_inner().calls.borrow().clone();
    assert_eq!(calls[0][0].0, own.0);
    assert_ne!(calls[0][1].0, own.1);
    assert_eq!(calls[0][1].0 % ALIGN, 0);
    for call in &calls[1..] {
        assert_ne!(call[0].0, own.1);
        assert_eq!(call[0].0 % ALIGN, 0);
        assert_eq!(call[1].0, own.0);
    }
}

fn filled(len: usize, byte: u8) -> AlignedBuf {
    let mut buf = alloc_aligend_buffer(len);
    buf.as_mut_slice().fill(byte);
    buf
}

#[test]
fn tmp_bufs_into_bufs_copies_each_share() {
    let mut a = vec![0u8; 4];
    let mut b = vec![0u8; 4];
    let mut c = vec![0u8; 4];
    let mut d = vec![0u8; 4];
    {
        let mut bufs: Vec<&mut [u8]> = vec![&mut a, &mut b, &mut c, &mut d];
        let tmp_bufs = vec![Some(filled(512, 1)), None, Some(filled(512, 3)), Some(filled(512, 4))];
        tmp_bufs_into_bufs(10, &mut bufs, tmp_bufs);
    }
    assert_eq!(a, vec![1, 1, 1, 1]);
    assert_eq!(b, vec![0, 0, 0, 0]);
    assert_eq!(c, vec![3, 3, 0, 0]);
    assert_eq!(d, vec![0, 0, 0, 0]);
}

#[test]
fn tmp_bufs_into_bufs_with_more_than_fits_fills_everything() {
    let mut a = vec![0u8; 3];
    let mut b = vec![0u8; 2];
    {
        let mut bufs: Vec<&mut [u8]> = vec![&mut a, &mut b];
        tmp_bufs_into_bufs(1000, &mut bufs, vec![Some(filled(512, 7)), Some(filled(512, 8))]);
    }
    assert_eq!(a, vec![7, 7, 7]);
    assert_eq!(b, vec![8, 8]);
}

#[test]
fn tmp_bufs_into_bufs_leaves_buffers_without_a_partner_alone() {
    let mut a = vec![0u8; 2];
    let mut b = vec![5u8; 2];
    {
        let mut bufs: Vec<&mut [u8]> = vec![&mut a, &mut b];
        tmp_bufs_into_bufs(4, &mut bufs, vec![Some(filled(512, 9))]);
    }
    assert_eq!(a, vec![9, 9]);
    assert_eq!(b, vec![5, 5]);
    let mut none: Vec<&mut [u8]> = Vec::new();
    tmp_bufs_into_bufs(4, &mut none, vec![Some(filled(512, 9))]);
    let mut bufs: Vec<&mut [u8]> = vec![&mut a];
    tmp_bufs_into_bufs(0, &mut bufs, vec![Some(filled(512, 1))]);
    assert_eq!(a, vec![9, 9]);
}

#[test]
fn tmp_bufs_into_bufs_takes_no_more_than_the_share() {
    let mut a = vec![0u8; 8];
    {
        let mut bufs: Vec<&mut [u8]> = vec![&mut a];
        tmp_bufs_into_bufs(2, &mut bufs, vec![Some(filled(2, 6))]);
    }
    assert_eq!(a, vec![6, 6, 0, 0, 0, 0, 0, 0]);
}

#[test]
fn shared_count_is_the_sum_of_the_shares() {
    let mut a = vec![0u8; 100];
    let mut b = vec![0u8; 512];
    let mut c = vec![0u8; 0];
    let bufs: Vec<&mut [u8]> = vec![&mut a, &mut b, &mut c];
    assert_eq!(shared_count(0, &bufs), 0);
    assert_eq!(shared_count(99, &bufs), 99);
    assert_eq!(shared_count(100, &bufs), 100);
    assert_eq!(shared_count(101, &bufs), 101);
    assert_eq!(shared_count(612, &bufs), 612);
    assert_eq!(shared_count(613, &bufs), 612);
    assert_eq!(shared_count(1024, &bufs), 612);
    assert_eq!(shared_count(usize::MAX, &bufs), 612);
    assert_eq!(shared_count(5, &[]), 0);
}

#[test]
fn plan_of_a_call_over_several_buffers() {
    let direct = File::new(Mem::with(Vec::new()), 4096);
    let plain = File::new(Mem::with(Vec::new()), 0);
    for positioned in [false, true] {
        assert_eq!(direct.vectored_plan(false, positioned), VectoredPlan::Adapt);
        assert_eq!(direct.vectored_plan(true, positioned), VectoredPlan::Adapt);
        assert_eq!(plain.vectored_plan(false, positioned), VectoredPlan::Adapt);
    }
    assert_eq!(plain.vectored_plan(true, false), VectoredPlan::PassThrough);
    assert_eq!(plain.vectored_plan(true, true), VectoredPlan::Refuse);
}
