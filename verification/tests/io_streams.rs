use capnp::io::{
    read_at_least, ArrayInputStream, ArrayOutputStream, BufferedInputStream,
    BufferedInputStreamWrapper, BufferedOutputStream, BufferedOutputStreamWrapper, OutputStream,
    BUFFER_CAPACITY,
};
use capnp::Error;

fn pattern(n: usize) -> Vec<u8> {
    let mut v = Vec::new();
    let mut i = 0usize;
    while i < n {
        v.push((i % 251) as u8);
        i += 1;
    }
    v
}

#[test]
fn read_at_least_meets_minimum() {
    let mut src = ArrayInputStream::new(vec![1, 2, 3, 4, 5, 6, 7, 8]);
    let mut buf = vec![0u8; 8];
    let n = read_at_least(&mut src, &mut buf, 0, 8, 5).unwrap();
    assert!(n >= 5);
    for (i, b) in buf.iter().take(n).enumerate() {
        assert_eq!(*b, (i + 1) as u8);
    }
}

#[test]
fn read_at_least_fails_on_exhausted_source() {
    let mut src = ArrayInputStream::new(vec![9, 9, 9]);
    let mut buf = vec![0u8; 10];
    let r = read_at_least(&mut src, &mut buf, 0, 10, 5);
    assert_eq!(r, Err(Error::EndOfData));
}

#[test]
fn read_at_least_into_subrange() {
    let mut src = ArrayInputStream::new(vec![7, 8, 9]);
    let mut buf = vec![0u8; 6];
    let n = read_at_least(&mut src, &mut buf, 2, 5, 3).unwrap();
    assert_eq!(n, 3);
    assert_eq!(buf, vec![0, 0, 7, 8, 9, 0]);
}

#[test]
fn chunked_reads_and_skips_observe_source_prefix() {
    let data = pattern(200);
    let src = ArrayInputStream::new(data.clone());
    let mut stream = BufferedInputStreamWrapper::new(src);
    let mut observed: Vec<u8> = Vec::new();
    let mut position = 0usize;
    // Interleave reads and skips of arbitrary sizes; what is read must be
    // exactly what a single contiguous read would have seen.
    let script: [(bool, usize); 7] = [
        (true, 3),
        (false, 5),
        (true, 11),
        (false, 1),
        (true, 2),
        (false, 0),
        (true, 40),
    ];
    for (is_read, amount) in script {
        if is_read {
            let mut buf = vec![0u8; amount];
            let n = stream.read_exact(&mut buf, 0, amount).unwrap();
            assert_eq!(n, amount);
            for (k, b) in buf.iter().enumerate() {
                assert_eq!(*b, data[position + k]);
            }
            observed.extend(buf);
            position += amount;
        } else {
            stream.skip(amount).unwrap();
            position += amount;
        }
    }
    assert_eq!(observed.len(), 56);
}

#[test]
fn buffered_read_bypasses_for_large_requests() {
    let n = BUFFER_CAPACITY * 2 + 100;
    let data = pattern(n);
    let src = ArrayInputStream::new(data.clone());
    let mut stream = BufferedInputStreamWrapper::new(src);
    let mut head = vec![0u8; 10];
    stream.read_exact(&mut head, 0, 10).unwrap();
    assert_eq!(&head[..], &data[..10]);
    let big = BUFFER_CAPACITY + 500;
    let mut buf = vec![0u8; big];
    let got = stream.read_exact(&mut buf, 0, big).unwrap();
    assert_eq!(got, big);
    for (k, b) in buf.iter().enumerate() {
        assert_eq!(*b, data[10 + k]);
    }
}

#[test]
fn buffered_skip_larger_than_buffer_discards_exactly() {
    let n = BUFFER_CAPACITY * 3;
    let data = pattern(n);
    let src = ArrayInputStream::new(data.clone());
    let mut stream = BufferedInputStreamWrapper::new(src);
    let skip_len = BUFFER_CAPACITY * 2 + 123;
    stream.skip(skip_len).unwrap();
    let mut buf = vec![0u8; 5];
    stream.read_exact(&mut buf, 0, 5).unwrap();
    for (k, b) in buf.iter().enumerate() {
        assert_eq!(*b, data[skip_len + k]);
    }
}

#[test]
fn buffered_skip_past_end_fails() {
    let src = ArrayInputStream::new(pattern(10));
    let mut stream = BufferedInputStreamWrapper::new(src);
    assert!(stream.skip(11).is_err());
}

#[test]
fn read_past_end_of_stream_fails() {
    let src = ArrayInputStream::new(pattern(4));
    let mut stream = BufferedInputStreamWrapper::new(src);
    let mut buf = vec![0u8; 6];
    assert!(stream.read_exact(&mut buf, 0, 6).is_err());
}

#[test]
fn read_window_lends_unread_bytes_in_place() {
    let data = vec![5u8, 6, 7, 8];
    let src = ArrayInputStream::new(data.clone());
    let mut stream = BufferedInputStreamWrapper::new(src);
    let (start, end) = stream.get_read_buffer().unwrap();
    assert!(end > start);
    assert_eq!(stream.buffered_byte(start), 5);
    stream.skip(2).unwrap();
    let (start2, end2) = stream.get_read_buffer().unwrap();
    assert_eq!(end2 - start2, 2);
    assert_eq!(stream.buffered_byte(start2), 7);
}

#[test]
fn array_input_window_is_whole_remainder() {
    let mut s = ArrayInputStream::new(vec![1u8, 2, 3]);
    let (start, end) = s.get_read_buffer().unwrap();
    assert_eq!((start, end), (0, 3));
    s.skip(2).unwrap();
    let (start, end) = s.get_read_buffer().unwrap();
    assert_eq!((start, end), (2, 3));
    assert_eq!(s.buffered_byte(2), 3);
}

#[test]
fn array_input_skip_past_end_is_capacity_overflow() {
    let mut s = ArrayInputStream::new(vec![1u8, 2]);
    assert_eq!(s.skip(3), Err(Error::FixedCapacityOverflow));
    // The failure is deterministic: the same call fails the same way again.
    assert_eq!(s.skip(3), Err(Error::FixedCapacityOverflow));
    assert_eq!(s.skip(2), Ok(()));
}

#[test]
fn array_output_exact_capacity_succeeds() {
    let mut sink = ArrayOutputStream::new(vec![0u8; 4]);
    sink.write_all(&vec![1, 2], 0, 2).unwrap();
    assert_eq!(sink.remaining(), 2);
    // Writing exactly the remaining capacity succeeds.
    sink.write_all(&vec![3, 4], 0, 2).unwrap();
    assert_eq!(sink.remaining(), 0);
    let out = sink.into_array();
    assert_eq!(out, vec![1, 2, 3, 4]);
}

#[test]
fn array_output_one_byte_too_many_fails_every_time() {
    let mut sink = ArrayOutputStream::new(vec![0u8; 3]);
    sink.write_all(&vec![1, 2], 0, 2).unwrap();
    // One byte more than the remaining capacity fails, deterministically.
    assert_eq!(sink.write_all(&vec![8, 9], 0, 2), Err(Error::FixedCapacityOverflow));
    assert_eq!(sink.write_all(&vec![8, 9], 0, 2), Err(Error::FixedCapacityOverflow));
    // The sink is unchanged and still takes an exact fit.
    sink.write_all(&vec![3], 0, 1).unwrap();
    assert_eq!(sink.into_array(), vec![1, 2, 3]);
}

#[test]
fn buffered_output_buffers_then_flushes() {
    let sink = ArrayOutputStream::new(vec![0u8; 5]);
    let mut out = BufferedOutputStreamWrapper::new(sink);
    out.write_all(&vec![1, 2, 3], 0, 3).unwrap();
    out.write_all(&vec![4, 5], 0, 2).unwrap();
    out.flush().unwrap();
    let sink = out.into_inner();
    assert_eq!(sink.into_array(), vec![1, 2, 3, 4, 5]);
}

#[test]
fn buffered_output_large_write_reaches_sink() {
    let n = BUFFER_CAPACITY * 2 + 17;
    let data = pattern(n);
    let sink = ArrayOutputStream::new(vec![0u8; n + 101]);
    let mut out = BufferedOutputStreamWrapper::new(sink);
    out.write_all(&vec![42u8], 0, 1).unwrap();
    // Larger than the whole buffer: bypasses buffering.
    out.write_all(&data, 0, n).unwrap();
    // Not a full buffer's worth but more than the free region: one flush.
    out.write_all(&vec![7u8; 100], 0, 100).unwrap();
    out.flush().unwrap();
    let sink = out.into_inner();
    let written = sink.into_array();
    assert_eq!(written[0], 42);
    for k in 0..n {
        assert_eq!(written[1 + k], data[k]);
    }
    for k in 0..100 {
        assert_eq!(written[1 + n + k], 7);
    }
}

#[test]
fn write_lease_commit_fast_path() {
    let sink = ArrayOutputStream::new(vec![0u8; 16]);
    let mut out = BufferedOutputStreamWrapper::new(sink);
    let (token, avail) = out.get_write_buffer();
    assert!(avail >= 4);
    // Committing against the current lease, within its size, must succeed.
    out.write_ptr(token, &vec![1, 2, 3, 4]).unwrap();
    // A stale token falls back to the ordinary write path and still lands.
    out.write_ptr(token, &vec![5, 6]).unwrap();
    out.flush().unwrap();
    let sink = out.into_inner();
    let written = sink.into_array();
    assert_eq!(&written[..6], &[1, 2, 3, 4, 5, 6]);
}

#[test]
fn array_write_lease_commit() {
    let mut sink = ArrayOutputStream::new(vec![0u8; 4]);
    let (token, avail) = sink.get_write_buffer();
    assert_eq!(avail, 4);
    sink.write_ptr(token, &vec![9, 8, 7]).unwrap();
    assert_eq!(sink.remaining(), 1);
    assert_eq!(sink.write_ptr(token, &vec![1, 2]), Err(Error::FixedCapacityOverflow));
    assert_eq!(sink.into_array(), vec![9, 8, 7, 0]);
}

#[test]
fn read_at_least_zero_minimum_reads_nothing() {
    let mut src = ArrayInputStream::new(vec![1, 2, 3]);
    let mut buf = vec![9u8; 4];
    let n = read_at_least(&mut src, &mut buf, 1, 3, 0).unwrap();
    assert_eq!(n, 0);
    assert_eq!(buf, vec![9, 9, 9, 9]);
    // The source is untouched: a later read still sees everything.
    let got = src.read(&mut buf, 0, 3).unwrap();
    assert_eq!(got, 3);
    assert_eq!(&buf[..3], &[1, 2, 3]);
}

#[test]
fn array_read_returns_exact_bounded_count() {
    let mut src = ArrayInputStream::new(vec![4, 5]);
    let mut buf = vec![0u8; 8];
    // More requested than remains: exactly the remainder comes back.
    assert_eq!(src.read(&mut buf, 0, 8), Ok(2));
    assert_eq!(&buf[..2], &[4, 5]);
    // Exhausted: a read returns zero bytes, never an error.
    assert_eq!(src.read(&mut buf, 0, 8), Ok(0));
}
