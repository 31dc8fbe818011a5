use fastboot::buffer::{FastbootBuffer, OutOfResources};

#[test]
fn writes_are_read_back_in_order() {
    let mut memory = [0u8; 8];
    let mut buffer = FastbootBuffer::new(&mut memory);
    assert_eq!(buffer.len(), 8);
    assert_eq!(buffer.write(b"abc"), Ok(()));
    assert_eq!(buffer.write(b"de"), Ok(()));
    assert_eq!(buffer.as_slice(), b"abcde\0\0\0");
    assert_eq!(buffer.offset, 5);
    assert_eq!(memory, *b"abcde\0\0\0");
}

#[test]
fn a_write_without_room_changes_nothing() {
    let mut memory = [0u8; 4];
    let mut buffer = FastbootBuffer::new(&mut memory);
    assert_eq!(buffer.write(b"abc"), Ok(()));
    assert_eq!(buffer.write(b"de"), Err(OutOfResources));
    assert_eq!(buffer.as_slice(), b"abc\0");
    assert_eq!(buffer.write(b"d"), Ok(()));
    assert_eq!(buffer.write(b""), Ok(()));
    assert_eq!(buffer.write(b"e"), Err(OutOfResources));
    assert_eq!(buffer.as_slice(), b"abcd");
}

#[test]
fn a_shorter_buffer_shows_its_first_bytes() {
    let mut memory = *b"abcdefgh";
    let mut buffer = FastbootBuffer::new(&mut memory);
    buffer.set_len(3);
    assert_eq!(buffer.len(), 3);
    assert_eq!(buffer.as_slice(), b"abc");
    buffer.as_mut_slice()[1] = b'X';
    assert_eq!(buffer.as_slice(), b"aXc");
    assert_eq!(buffer.write(b"long"), Err(OutOfResources));
    assert_eq!(memory, *b"aXcdefgh");
}

#[test]
fn a_write_of_the_whole_length_fills_the_buffer() {
    let mut memory = [0xffu8; 5];
    let mut buffer = FastbootBuffer::new(&mut memory);
    assert_eq!(buffer.write(b"image"), Ok(()));
    assert_eq!(buffer.as_slice(), b"image");
    assert_eq!(buffer.write(b"!"), Err(OutOfResources));
}
