use bytes::BytesMut;
use smt_core::codec_engine::buffer_pool::FixBufferPool;
use smt_core::codec_engine::fix_codec::CodecError;
use smt_core::network_tcp::{
    first_free_slot, read_snapshot, NetworkBufferPool, NetworkError, TcpConnectionManager,
};

#[test]
fn a_codec_pool_hands_out_each_buffer_once() {
    let mut pool = FixBufferPool::new(2, 64);
    pool.get_buffer().unwrap().extend_from_slice(b"one");
    pool.get_buffer().unwrap().extend_from_slice(b"two");
    assert_eq!(pool.get_buffer().err(), Some(CodecError::BufferPoolExhausted));

    pool.return_buffer(1);
    let again = pool.get_buffer().unwrap();
    assert!(again.is_empty());
    again.extend_from_slice(b"three");
    assert_eq!(pool.get_buffer().err(), Some(CodecError::BufferPoolExhausted));

    pool.return_buffer(7);
    assert_eq!(pool.get_buffer().err(), Some(CodecError::BufferPoolExhausted));
}

#[test]
fn a_buffer_that_is_returned_twice_is_free_once() {
    let mut pool = FixBufferPool::new(2, 64);
    assert!(pool.get_buffer().is_ok());
    assert!(pool.get_buffer().is_ok());
    pool.return_buffer(0);
    pool.return_buffer(0);
    assert!(pool.get_buffer().is_ok());
    assert_eq!(pool.get_buffer().err(), Some(CodecError::BufferPoolExhausted));

    let mut pool = NetworkBufferPool::new(2, 64);
    pool.return_buffer(1);
    assert_eq!(pool.get_buffer().map(|(i, _)| i).ok(), Some(1));
    assert_eq!(pool.get_buffer().map(|(i, _)| i).ok(), Some(0));
    pool.return_buffer(1);
    pool.return_buffer(1);
    assert_eq!(pool.get_buffer().map(|(i, _)| i).ok(), Some(1));
    assert_eq!(pool.get_buffer().map(|(i, _)| i).err(), Some(NetworkError::BufferPoolExhausted));
}

#[test]
fn a_codec_pool_without_buffers_is_exhausted() {
    let mut pool = FixBufferPool::new(0, 64);
    assert_eq!(pool.get_buffer().err(), Some(CodecError::BufferPoolExhausted));
}

#[test]
fn a_network_pool_hands_out_the_last_index_first() {
    let mut pool = NetworkBufferPool::new(3, 16);
    let (index, buf) = pool.get_buffer().unwrap();
    assert_eq!(index, 2);
    buf.extend_from_slice(b"abc");
    let (index, _) = pool.get_buffer().unwrap();
    assert_eq!(index, 1);
    assert_eq!(pool.get_buffer_by_index(2).map(|b| b.to_vec()), Some(b"abc".to_vec()));
    assert_eq!(pool.get_buffer_by_index(3), None);

    pool.return_buffer(2);
    assert_eq!(pool.get_buffer_by_index(2).map(|b| b.to_vec()), Some(b"abc".to_vec()));
    let (index, buf) = pool.get_buffer().unwrap();
    assert_eq!(index, 2);
    assert!(buf.is_empty());
    let (index, _) = pool.get_buffer().unwrap();
    assert_eq!(index, 0);
    assert_eq!(pool.get_buffer().err(), Some(NetworkError::BufferPoolExhausted));
    pool.return_buffer(3);
    assert_eq!(pool.get_buffer().err(), Some(NetworkError::BufferPoolExhausted));
}

#[test]
fn a_default_pool_has_256_buffers() {
    let mut pool = NetworkBufferPool::default();
    for expected in (0..256).rev() {
        let (index, buf) = pool.get_buffer().unwrap();
        assert_eq!(index, expected);
        assert!(buf.capacity() >= 8192);
    }
    assert_eq!(pool.get_buffer().err(), Some(NetworkError::BufferPoolExhausted));

    let mut manager = TcpConnectionManager::new();
    let (index, _) = manager.get_buffer().unwrap();
    assert_eq!(index, 255);
    manager.return_buffer(255);
    let (index, _) = manager.get_buffer().unwrap();
    assert_eq!(index, 255);
    let (index, _) = manager.get_buffer().unwrap();
    assert_eq!(index, 254);
}

#[test]
fn a_read_of_nothing_is_the_end_of_the_stream() {
    let buffer = BytesMut::from(&b"hello server"[..]);
    assert_eq!(read_snapshot(0, &buffer), None);
    let snapshot = read_snapshot(12, &buffer).unwrap();
    assert_eq!(snapshot.as_ref(), b"hello server");
    assert_eq!(buffer.as_ref(), b"hello server");
    assert_eq!(read_snapshot(6, &buffer).unwrap().as_ref(), b"server");
    assert_eq!(read_snapshot(1, &buffer).unwrap().as_ref(), b"r");
    assert_eq!(read_snapshot(13, &buffer).unwrap().as_ref(), b"hello server");
    assert_eq!(read_snapshot(1, &BytesMut::new()).unwrap().as_ref(), b"");
}

#[test]
fn the_first_free_slot_is_taken() {
    assert_eq!(first_free_slot(&[]), None);
    assert_eq!(first_free_slot(&[false, false]), Some(0));
    assert_eq!(first_free_slot(&[true, false, true, false]), Some(1));
    assert_eq!(first_free_slot(&[true, true, true]), None);
}
