use jcirclebuffer::CircleBuffer;

#[test]
fn capacity_invariant_over_operation_sequences() {
    let mut buffer = CircleBuffer::new(vec![0u8; 4]);
    assert!(buffer.len() <= buffer.size());
    buffer.extend(b"ab");
    assert!(buffer.len() <= buffer.size());
    buffer.consume(1);
    assert!(buffer.len() <= buffer.size());
    buffer.extend(b"cde");
    assert!(buffer.len() <= buffer.size());
    buffer.consume(4);
    assert!(buffer.len() <= buffer.size());
    buffer.extend(b"fghi");
    assert!(buffer.len() <= buffer.size());
    buffer.consume(4);
    assert!(buffer.len() <= buffer.size());
}

#[test]
fn canonical_empty_fillable_spans_capacity() {
    let mut buffer = CircleBuffer::new(vec![0u8; 4]);
    buffer.extend(b"abc");
    buffer.consume(3);
    assert!(buffer.is_empty());
    // An empty buffer realigns at offset 0, so the one contiguous
    // fillable span is the whole backing store.
    assert_eq!(buffer.get_fillable_area().unwrap().len(), 4);
}

#[test]
fn round_trip_without_wrap() {
    let mut buffer = CircleBuffer::new(vec![0u8; 8]);
    buffer.extend(b"hello");
    let (head, tail) = buffer.view_parts(5);
    let mut got = head.to_vec();
    got.extend_from_slice(tail);
    assert_eq!(got, b"hello");
}

#[test]
fn round_trip_across_wrap() {
    let mut buffer = CircleBuffer::new(vec![0u8; 4]);
    buffer.extend(b"ab");
    buffer.consume(1);
    // start is now 1 with "b" occupied: a 3-byte append must straddle
    // the wrap point.
    buffer.extend(b"cde");
    let (head, tail) = buffer.view_parts(4);
    assert_eq!(head, b"bcd");
    assert_eq!(tail, b"e");
    let mut got = head.to_vec();
    got.extend_from_slice(tail);
    assert_eq!(got, b"bcde");
    // The appended bytes come back unchanged, right after what was
    // already there.
    assert_eq!(&got[1..], b"cde");
}

#[test]
fn fillable_area_aliases_the_backing_store() {
    let mut buffer = CircleBuffer::new(vec![0u8; 4]);
    let zone = buffer.get_fillable_area().unwrap();
    zone[0] = b'a';
    zone[1] = b'b';
    buffer.fill(2);
    // The bytes written through the returned region are the occupied
    // bytes: the region was a view of the backing store, not a copy.
    assert_eq!(buffer.view_nocopy(), b"ab");
}

#[test]
fn view_provided_mut_writes_land_in_buffer_when_not_wrapped() {
    let mut buffer = CircleBuffer::new(vec![0u8; 4]);
    buffer.extend(b"abc");
    let mut scratch = [0u8; 2];
    buffer.view_provided_mut(&mut scratch, |view| {
        view[0] = b'x';
    });
    // The view did not cross the wrap point, so it aliased the backing
    // store and the write shows up in the buffer itself.
    assert_eq!(buffer.view_nocopy(), b"xbc");
    assert_eq!(scratch, [0u8, 0u8]);
}

#[test]
fn view_provided_mut_writes_stay_in_scratch_when_wrapped() {
    let mut buffer = CircleBuffer::new(vec![0u8; 4]);
    buffer.extend(b"abcd");
    buffer.consume(2);
    buffer.extend(b"ef");
    let mut scratch = [0u8; 4];
    buffer.view_provided_mut(&mut scratch, |view| {
        assert_eq!(&view[..], b"cdef");
        view[0] = b'x';
    });
    // The view crossed the wrap point, so the callback ran on the
    // scratch copy and the buffer's own bytes are untouched.
    assert_eq!(scratch, *b"xdef");
    let (head, tail) = buffer.view_parts(4);
    assert_eq!(head, b"cd");
    assert_eq!(tail, b"ef");
}

#[test]
fn clear_is_idempotent() {
    let mut buffer = CircleBuffer::new(vec![0u8; 4]);
    buffer.extend(b"abc");
    buffer.consume(1);
    buffer.clear();
    let len_once = buffer.len();
    let size_once = buffer.size();
    let fillable_once = buffer.get_fillable_area().unwrap().len();
    buffer.clear();
    assert_eq!(buffer.len(), len_once);
    assert_eq!(buffer.size(), size_once);
    assert_eq!(buffer.get_fillable_area().unwrap().len(), fillable_once);
    assert!(buffer.is_empty());
    assert_eq!(fillable_once, 4);
}

#[test]
fn scenario_fill_whole_buffer() {
    let mut buffer = CircleBuffer::new(vec![0u8; 4]);
    let zone = buffer.get_fillable_area().unwrap();
    assert_eq!(zone.len(), 4);
    zone.copy_from_slice(b"abcd");
    buffer.fill(4);
    assert!(buffer.is_full());
    assert!(buffer.get_fillable_area().is_none());
    assert_eq!(buffer.view_nocopy(), b"abcd");
}

#[test]
fn scenario_fillable_area_wraps_in_two_steps() {
    let mut buffer = CircleBuffer::new(vec![0u8; 4]);
    buffer.extend(b"abc");
    buffer.consume(2);
    assert_eq!(buffer.view_nocopy(), b"c");
    // Only the tail span up to the wrap point is offered first.
    let zone = buffer.get_fillable_area().unwrap();
    assert_eq!(zone.len(), 1);
    zone[0] = b'd';
    buffer.fill(1);
    // After filling it, the span at the front becomes reachable.
    let zone = buffer.get_fillable_area().unwrap();
    assert_eq!(zone.len(), 2);
}

#[test]
fn scenario_materialized_view_across_wrap() {
    let mut buffer = CircleBuffer::new(vec![0u8; 4]);
    buffer.extend(b"abcd");
    buffer.consume(1);
    buffer.extend(b"e");
    // The backing store now holds "ebcd": the view must reorder it.
    let (head, tail) = buffer.view_parts(4);
    assert_eq!(head, b"bcd");
    assert_eq!(tail, b"e");
    buffer.view(4, |data| assert_eq!(data, b"bcde"));
    let mut scratch = [0u8; 4];
    buffer.view_provided(&mut scratch, |data| assert_eq!(data, b"bcde"));
    assert_eq!(scratch, *b"bcde");
}

#[test]
fn zero_capacity_buffer_is_empty_and_full() {
    let mut buffer = CircleBuffer::with_size(0);
    assert!(buffer.is_empty());
    assert!(buffer.is_full());
    assert_eq!(buffer.available(), 0);
    assert!(buffer.get_fillable_area().is_none());
    assert_eq!(buffer.write_partial(b"a"), None);
    let mut sink = [0u8; 2];
    assert_eq!(buffer.read_into(&mut sink), 0);
}

#[test]
fn write_partial_takes_what_fits() {
    let mut buffer = CircleBuffer::new(vec![0u8; 4]);
    assert_eq!(buffer.write_partial(b"abc"), Some(3));
    assert_eq!(buffer.view_nocopy(), b"abc");
    assert_eq!(buffer.write_partial(b"defg"), Some(1));
    assert_eq!(buffer.len(), 4);
    assert_eq!(buffer.write_partial(b"h"), None);
    buffer.view(4, |data| assert_eq!(data, b"abcd"));
}

#[test]
fn read_into_consumes_what_it_copies() {
    let mut buffer = CircleBuffer::new(vec![0u8; 4]);
    buffer.extend(b"abcd");
    buffer.consume(2);
    buffer.extend(b"ef");
    let mut sink = [0u8; 3];
    assert_eq!(buffer.read_into(&mut sink), 3);
    assert_eq!(&sink, b"cde");
    assert_eq!(buffer.len(), 1);
    assert_eq!(buffer.view_nocopy(), b"f");
}

#[test]
fn default_buffer_has_a_mebibyte() {
    let buffer = CircleBuffer::default();
    assert_eq!(buffer.size(), 1_048_576);
    assert!(buffer.is_empty());
}

#[test]
fn queries_report_the_cursors() {
    let mut buffer = CircleBuffer::with_size(5);
    assert_eq!(buffer.size(), 5);
    assert_eq!(buffer.len(), 0);
    assert_eq!(buffer.available(), 5);
    buffer.extend(b"ab");
    assert_eq!(buffer.size(), 5);
    assert_eq!(buffer.len(), 2);
    assert_eq!(buffer.available(), 3);
    assert!(!buffer.is_empty());
    assert!(!buffer.is_full());
}
