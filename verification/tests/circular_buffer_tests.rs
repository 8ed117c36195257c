use circular_buffer::CircularBuffer;

/// Keep writing until all of `input` is stored; false when the buffer hits
/// its hard capacity first.
fn write_all(buffer: &mut CircularBuffer, input: &[u8]) -> bool {
    let mut offset = 0;
    while offset < input.len() {
        let written = buffer.write(&input[offset..]);
        if written == 0 {
            return false;
        }
        offset += written;
    }
    true
}

#[test]
fn basic() {
    let mut b = CircularBuffer::new(0, 16);
    assert!(write_all(&mut b, b"01234567"));
    assert_eq!(b.remaining(), 8);
    assert_eq!(b.remaining_mut(), 8);
    assert_eq!(b.remaining_mut_without_realloc(), 0);
    assert_eq!(b.bytes(), b"01234567");
    assert_eq!(b.current_capacity(), 8);

    b.advance(1);
    assert_eq!(b.remaining(), 7);
    assert_eq!(b.remaining_mut(), 9);
    assert_eq!(b.remaining_mut_without_realloc(), 1);
    assert_eq!(b.bytes(), b"1234567");
    assert_eq!(b.current_capacity(), 8);

    assert!(write_all(&mut b, b"8"));
    assert_eq!(b.remaining(), 8);
    assert_eq!(b.remaining_mut(), 8);
    assert_eq!(b.remaining_mut_without_realloc(), 0);
    assert_eq!(b.bytes(), b"1234567");
    assert_eq!(b.current_capacity(), 8);

    b.advance(7);
    assert_eq!(b.remaining(), 1);
    assert_eq!(b.remaining_mut(), 15);
    assert_eq!(b.remaining_mut_without_realloc(), 7);
    assert_eq!(b.bytes(), b"8");
    assert_eq!(b.current_capacity(), 8);
}

#[test]
fn grow_buffer_without_wraparound() {
    let mut b = CircularBuffer::new(0, 16);
    assert!(write_all(&mut b, b"01234567"));
    assert_eq!(b.remaining(), 8);
    assert_eq!(b.remaining_mut(), 8);
    assert_eq!(b.remaining_mut_without_realloc(), 0);
    assert_eq!(b.current_capacity(), 8);

    assert!(write_all(&mut b, b"89ABCDEF"));
    assert_eq!(b.remaining(), 16);
    assert_eq!(b.remaining_mut(), 0);
    assert_eq!(b.remaining_mut_without_realloc(), 0);
    assert_eq!(b.bytes(), b"0123456789ABCDEF");
    assert_eq!(b.current_capacity(), 16);
}

#[test]
fn grow_buffer_with_wraparound() {
    let mut b = CircularBuffer::new(0, 16);
    assert!(write_all(&mut b, b"01234567"));
    b.advance(4);
    assert!(write_all(&mut b, b"89ABCDEF"));
    assert_eq!(b.remaining(), 12);
    assert_eq!(b.remaining_mut(), 4);
    assert_eq!(b.remaining_mut_without_realloc(), 4);
    assert_eq!(b.bytes(), b"456789ABCDEF");
    assert_eq!(b.current_capacity(), 16);
}

#[test]
fn fill_whole_buffer() {
    let mut b = CircularBuffer::new(0, 8);
    assert!(write_all(&mut b, b"01234567"));
    assert_eq!(b.write(b"8"), 0);
    assert!(!write_all(&mut b, b"8"));
}

#[test]
fn read_from_buffer() {
    let mut b = CircularBuffer::new(0, 8);
    assert!(write_all(&mut b, b"01234567"));

    {
        let mut tmp = vec![0u8; 4];
        assert_eq!(b.read(&mut tmp), 4);
        assert_eq!(&tmp[..], b"0123");
    }

    {
        let mut tmp = vec![0u8; 2];
        assert_eq!(b.read(&mut tmp), 2);
        assert_eq!(&tmp[..], b"45");
    }

    {
        let mut tmp = vec![0u8; 4];
        assert_eq!(b.read(&mut tmp), 2);
        assert_eq!(&tmp[..], b"67\0\0");
    }

    {
        let mut tmp = vec![0u8; 4];
        assert_eq!(b.read(&mut tmp), 0);
        assert_eq!(&tmp[..], b"\0\0\0\0");
    }
}

#[test]
fn read_exact_into_vec() {
    let mut b = CircularBuffer::new(0, 16);
    assert!(write_all(&mut b, b"01234567"));
    b.advance(4);
    assert!(write_all(&mut b, b"89ABCDEF"));
    assert_eq!(b.read_exact_into_vec(12), b"456789ABCDEF");
}

#[test]
fn resize_buffer() {
    let mut b = CircularBuffer::new(0, 16);
    assert!(write_all(&mut b, b"0123456789ABCDEF"));
    assert_eq!(b.current_capacity(), 16);

    b.resize_buffer(16);
    assert_eq!(b.current_capacity(), 16);
    assert_eq!(b.bytes(), b"0123456789ABCDEF");

    b.advance(1);
    b.resize_buffer(16);
    assert_eq!(b.current_capacity(), 16);
    assert_eq!(b.bytes(), b"123456789ABCDEF");

    b.resize_buffer(15);
    assert_eq!(b.current_capacity(), 15);
    assert_eq!(b.bytes(), b"123456789ABCDEF");

    b.advance(15);
    b.resize_buffer(15);
    assert_eq!(b.current_capacity(), 15);
    assert_eq!(b.bytes(), b"");

    b.resize_buffer(0);
    assert_eq!(b.current_capacity(), 0);
    assert_eq!(b.bytes(), b"");
}

#[test]
fn apply_soft_limit() {
    let mut b = CircularBuffer::new(0, 16);
    assert!(write_all(&mut b, b"0123456789ABCDEF"));
    assert_eq!(b.current_capacity(), 16);

    b.apply_soft_limit(16);
    assert_eq!(b.current_capacity(), 16);
    assert_eq!(b.bytes(), b"0123456789ABCDEF");

    b.apply_soft_limit(0);
    assert_eq!(b.current_capacity(), 16);
    assert_eq!(b.bytes(), b"0123456789ABCDEF");

    b.advance(8);
    b.apply_soft_limit(8);
    assert_eq!(b.current_capacity(), 16);
    assert_eq!(b.bytes(), b"89ABCDEF");

    b.advance(3);
    b.apply_soft_limit(8);
    assert_eq!(b.current_capacity(), 16);
    assert_eq!(b.bytes(), b"BCDEF");

    b.advance(1);
    b.apply_soft_limit(8);
    assert_eq!(b.current_capacity(), 8);
    assert_eq!(b.bytes(), b"CDEF");

    b.advance(4);
    b.apply_soft_limit(8);
    assert_eq!(b.current_capacity(), 8);
    assert_eq!(b.bytes(), b"");

    assert!(write_all(&mut b, b"0123456789ABCDEF"));
    b.advance(16);
    b.apply_soft_limit(8);
    assert_eq!(b.current_capacity(), 0);
    assert_eq!(b.bytes(), b"");
}
