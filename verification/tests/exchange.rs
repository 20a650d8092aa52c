use vg_core::error::Trap;
use vg_core::exchange::Exchange;
use vg_core::memory::LinearMemory;

#[test]
fn a_fresh_memory_is_empty() {
    let memory = LinearMemory::new(64);
    assert_eq!(memory.size(), 0);
    assert_eq!(memory.limit(), 64);
    assert!(memory.holds(0, 0));
    assert!(!memory.holds(0, 1));
}

#[test]
fn memory_grows_by_zero_bytes() {
    let mut memory = LinearMemory::new(64);
    assert_eq!(memory.grow(4), Ok(0));
    assert_eq!(memory.grow(3), Ok(4));
    assert_eq!(memory.size(), 7);
    assert_eq!(memory.read(0, 7), Ok(vec![0; 7]));
}

#[test]
fn memory_does_not_outgrow_its_limit() {
    let mut memory = LinearMemory::new(8);
    assert_eq!(memory.grow(8), Ok(0));
    assert_eq!(memory.grow(1), Err(Trap::OutOfMemory));
    assert_eq!(memory.append(&[1]), Err(Trap::OutOfMemory));
    assert_eq!(memory.size(), 8);
    assert_eq!(memory.grow(0), Ok(8));
}

#[test]
fn writes_land_where_they_are_told() {
    let mut memory = LinearMemory::new(64);
    memory.grow(8).unwrap();
    assert_eq!(memory.write(2, &[1, 2, 3]), Ok(()));
    assert_eq!(memory.read(0, 8), Ok(vec![0, 0, 1, 2, 3, 0, 0, 0]));
    assert_eq!(memory.read(2, 3), Ok(vec![1, 2, 3]));
    assert_eq!(memory.read(8, 0), Ok(vec![]));
}

#[test]
fn accesses_outside_memory_fault() {
    let mut memory = LinearMemory::new(64);
    memory.grow(8).unwrap();
    assert_eq!(memory.read(7, 2), Err(Trap::OutOfBounds));
    assert_eq!(memory.read(9, 0), Err(Trap::OutOfBounds));
    assert_eq!(memory.read(u64::MAX, 2), Err(Trap::OutOfBounds));
    assert_eq!(memory.read(2, u64::MAX), Err(Trap::OutOfBounds));
    assert_eq!(memory.write(6, &[1, 2, 3]), Err(Trap::OutOfBounds));
    assert_eq!(memory.write(u64::MAX, &[1]), Err(Trap::OutOfBounds));
    assert_eq!(memory.read(0, 8), Ok(vec![0; 8]));
}

#[test]
fn allocating_nothing_gives_a_valid_address() {
    let mut exchange = Exchange::new(0);
    assert_eq!(exchange.allocate(0), Ok(0));
    assert_eq!(exchange.pending(), 1);
    assert_eq!(exchange.read(0, 0), Ok(vec![]));
    assert_eq!(exchange.take(), Some(vec![]));

    let mut exchange = Exchange::new(16);
    exchange.allocate(16).unwrap();
    assert_eq!(exchange.allocate(0), Ok(16));
    assert_eq!(exchange.size(), 16);
}

#[test]
fn a_buffer_is_zero_filled_and_exactly_as_long_as_asked() {
    let mut exchange = Exchange::new(64);
    assert_eq!(exchange.allocate(5), Ok(0));
    assert_eq!(exchange.size(), 5);
    assert_eq!(exchange.take(), Some(vec![0; 5]));
}

#[test]
fn what_the_host_writes_is_what_the_guest_reads() {
    let mut exchange = Exchange::new(64);
    let addr = exchange.allocate(4).unwrap();
    assert_eq!(exchange.write(addr, &[9, 8, 7, 6]), Ok(()));
    assert_eq!(exchange.take(), Some(vec![9, 8, 7, 6]));
    assert_eq!(exchange.take(), None);
}

#[test]
fn buffers_reach_the_guest_oldest_first() {
    let mut exchange = Exchange::new(64);
    let first = exchange.allocate(2).unwrap();
    let second = exchange.allocate(3).unwrap();
    assert_eq!((first, second), (0, 2));
    exchange.write(second, &[4, 5, 6]).unwrap();
    exchange.write(first, &[1, 2]).unwrap();
    assert_eq!(exchange.pending(), 2);
    assert_eq!(exchange.take(), Some(vec![1, 2]));
    assert_eq!(exchange.take(), Some(vec![4, 5, 6]));
    assert_eq!(exchange.pending(), 0);
}

#[test]
fn a_buffer_that_does_not_fit_is_refused() {
    let mut exchange = Exchange::new(8);
    assert_eq!(exchange.allocate(9), Err(Trap::OutOfMemory));
    assert_eq!(exchange.allocate(u64::MAX), Err(Trap::OutOfMemory));
    assert_eq!(exchange.pending(), 0);
    assert_eq!(exchange.size(), 0);
    assert_eq!(exchange.allocate(8), Ok(0));
    assert_eq!(exchange.allocate(1), Err(Trap::OutOfMemory));
}

#[test]
fn memory_starts_over_once_nothing_waits() {
    let mut exchange = Exchange::new(8);
    exchange.allocate(8).unwrap();
    assert_eq!(exchange.allocate(1), Err(Trap::OutOfMemory));
    exchange.take().unwrap();
    assert_eq!(exchange.size(), 0);
    assert_eq!(exchange.allocate(8), Ok(0));
}

#[test]
fn memory_is_kept_while_anything_waits() {
    let mut exchange = Exchange::new(64);
    exchange.allocate(4).unwrap();
    exchange.post(&[1, 2, 3]).unwrap();
    exchange.take().unwrap();
    assert_eq!(exchange.size(), 7);
    assert_eq!(exchange.drain(), vec![vec![1, 2, 3]]);
    assert_eq!(exchange.size(), 0);
}

#[test]
fn messages_reach_the_host_in_order() {
    let mut exchange = Exchange::new(64);
    exchange.post(&[1]).unwrap();
    exchange.post(&[]).unwrap();
    exchange.post(&[2, 3]).unwrap();
    assert_eq!(exchange.waiting(), 3);
    assert_eq!(exchange.drain(), vec![vec![1], vec![], vec![2, 3]]);
    assert_eq!(exchange.waiting(), 0);
    assert_eq!(exchange.drain(), Vec::<Vec<u8>>::new());
}

#[test]
fn a_message_that_does_not_fit_is_refused() {
    let mut exchange = Exchange::new(2);
    assert_eq!(exchange.post(&[1, 2, 3]), Err(Trap::OutOfMemory));
    assert_eq!(exchange.waiting(), 0);
    assert_eq!(exchange.post(&[1, 2]), Ok(()));
}

#[test]
fn a_host_write_outside_memory_faults_and_changes_nothing() {
    let mut exchange = Exchange::new(64);
    let addr = exchange.allocate(4).unwrap();
    assert_eq!(exchange.write(addr + 1, &[1, 2, 3, 4]), Err(Trap::OutOfBounds));
    assert_eq!(exchange.read(addr, 5), Err(Trap::OutOfBounds));
    assert_eq!(exchange.take(), Some(vec![0; 4]));
}

#[test]
fn an_exchange_survives_a_snapshot() {
    let mut exchange = Exchange::new(64);
    let addr = exchange.allocate(3).unwrap();
    exchange.write(addr, &[7, 8, 9]).unwrap();
    exchange.post(&[1, 2]).unwrap();
    let mut bytes = Vec::new();
    exchange.save(&mut bytes);
    let mut reader = vg_core::wire::Reader::new(&bytes);
    let mut copy = Exchange::restore(&mut reader).unwrap();
    assert!(reader.is_empty());
    assert_eq!(copy.limit(), 64);
    assert_eq!(copy.drain(), vec![vec![1, 2]]);
    assert_eq!(copy.take(), Some(vec![7, 8, 9]));
}

#[test]
fn a_snapshot_with_a_region_outside_memory_is_refused() {
    let mut exchange = Exchange::new(64);
    exchange.allocate(3).unwrap();
    let mut bytes = Vec::new();
    exchange.save(&mut bytes);
    // limit (8), length of memory (8), memory (3), count (8), addr (8), len (8), count (8)
    assert_eq!(bytes.len(), 51);
    bytes[35] = 4;
    let mut reader = vg_core::wire::Reader::new(&bytes);
    assert!(Exchange::restore(&mut reader).is_none());
}
