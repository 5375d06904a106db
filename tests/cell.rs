use beacon_dao_scheduler::cell::{do_grow, do_read, do_read_chunk, do_write, do_write_chunk, MemoryCell};

fn clear() -> MemoryCell {
    MemoryCell::new(None)
}

#[test]
fn test_write() {
    let mut cell = clear();

    do_grow(&mut cell, 1);
    do_write(&mut cell, 0, 69);
    assert_eq!(do_read(&cell, 0), 69);

    do_grow(&mut cell, 2);
    do_write(&mut cell, 1, 4);
    do_write(&mut cell, 2, 20);
    assert_eq!(do_read(&cell, 1), 4);
    assert_eq!(do_read(&cell, 2), 20);
    assert_eq!(do_read(&cell, 0), 69);
}

#[test]
fn test_chunks() {
    let mut cell = clear();

    // Try writing some chunks
    let bytes: [u8; 16] = [1, 2, 3, 4, 5, 6, 7, 8, 9, 10, 11, 12, 13, 14, 15, 16];
    let packed = u128::from_le_bytes(bytes);

    do_grow(&mut cell, 16);
    assert_eq!(do_write_chunk(&mut cell, 0, packed, 16), 0);

    for i in 0..16u8 {
        assert_eq!(do_read(&cell, i as u32), i + 1);
    }

    // Try reading the chunks
    let bytes2: [u8; 16] = do_read_chunk(&cell, 0, 16).to_le_bytes();

    assert_eq!(bytes, bytes2);
}

#[test]
fn write_chunk_refuses_oversized_or_misplaced_chunks() {
    let mut cell = clear();
    do_grow(&mut cell, 20);
    assert_eq!(do_write_chunk(&mut cell, 0, 7, 17), 1);
    assert_eq!(do_write_chunk(&mut cell, 0, 7, 4), 1);
    assert_eq!(cell.len_sync(), 20);
    for i in 0..20u32 {
        assert_eq!(do_read(&cell, i), 0);
    }
    assert_eq!(do_write_chunk(&mut cell, 16, 0x0403_0201, 4), 0);
    assert_eq!(do_read(&cell, 16), 1);
    assert_eq!(do_read(&cell, 19), 4);
}

#[test]
fn read_chunk_of_fewer_bytes() {
    let mut cell = clear();
    do_grow(&mut cell, 3);
    do_write(&mut cell, 0, 0x34);
    do_write(&mut cell, 1, 0x12);
    assert_eq!(do_read_chunk(&cell, 0, 2), 0x1234);
    assert_eq!(do_read_chunk(&cell, 1, 2), 0x0012);
}

#[test]
fn cell_ownership_and_append() {
    let mut cell = MemoryCell::new(Some(3));
    assert!(cell.is_owner(3));
    assert!(!cell.is_owner(4));
    cell.reassign(4);
    assert!(cell.is_owner(4));
    assert!(!MemoryCell::new(None).is_owner(0));
    cell.append(9);
    cell.append(8);
    assert_eq!(cell.len_sync(), 2);
    assert_eq!(cell.read_sync(1), 8);
}
