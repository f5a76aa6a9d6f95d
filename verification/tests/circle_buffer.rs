use jcirclebuffer::CircleBuffer;
use std::io::Read;

/// Fill the buffer from a reader the way the io adapter does: hand the
/// reader the fillable area, then mark filled what it reports.
fn read_from(buffer: &mut CircleBuffer, reader: &mut impl Read) -> usize {
    let zone = buffer.get_fillable_area().expect("read buffer full");
    let amount = reader.read(zone).unwrap();
    buffer.fill(amount);
    amount
}

#[test]
fn circle_buffer_tests() {
    let mut read = std::io::Cursor::new(b"abcdefghijklmnopqrstuvwxyz");
    let mut circle_buffer = CircleBuffer::new(vec![0u8; 4]);
    assert!(circle_buffer.is_empty());
    let read_size = read_from(&mut circle_buffer, &mut read);
    assert_eq!(read_size, 4);
    assert_eq!(circle_buffer.len(), read_size);
    assert_eq!(circle_buffer.view_nocopy(), b"abcd");
    assert_eq!(circle_buffer.view_parts(4), (&b"abcd"[..], &b""[..]));
    assert!(circle_buffer.is_full());
    assert!(circle_buffer.get_fillable_area().is_none());
    circle_buffer.view(4, |data| assert_eq!(data, b"abcd"));
    let mut view_buf = [0u8; 4];
    circle_buffer.view_provided(&mut view_buf, |data| assert_eq!(data, b"abcd"));

    circle_buffer.consume(2);
    assert_eq!(circle_buffer.view_nocopy(), b"cd");
    let read_size = read_from(&mut circle_buffer, &mut read);
    assert_eq!(read_size, 2);
    assert_eq!(circle_buffer.view_parts(4), (&b"cd"[..], &b"ef"[..]));
    circle_buffer.view(4, |data| assert_eq!(data, b"cdef"));
    let mut view_buf = [0u8; 4];
    circle_buffer.view_provided(&mut view_buf[..], |data| assert_eq!(data, b"cdef"));
    assert_eq!(circle_buffer.view_nocopy(), b"cd");
    circle_buffer.consume(4);

    let mut big_buffer = CircleBuffer::default();
    assert_eq!(read_from(&mut big_buffer, &mut read), 20);

    big_buffer.extend(b"banana");
    big_buffer.consume(20);
    big_buffer.view(6, |x| assert_eq!(x, b"banana"));

    let mut buffer = CircleBuffer::new(vec![0u8; 4]);
    buffer.extend(b"abcd");
    buffer.consume(2);
    buffer.extend(b"ef");
    let mut read_buf = [0u8; 3];
    let result = buffer.read_into(&mut read_buf);
    assert_eq!(result, 3);
    assert_eq!(b"cde", &read_buf);
    assert_eq!(buffer.len(), 1);
}
