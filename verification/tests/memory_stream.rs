use inquirynet::io::{MemoryStream, SeekFrom, StreamError};

#[test]
fn write_test() {
    let mut ms = MemoryStream::new();
    ms.write(&[0u8, 1, 2, 3, 4, 5]).unwrap();
    assert_eq!(ms.as_vec().len(), 6);
    assert_eq!(ms.as_vec(), &[0u8, 1, 2, 3, 4, 5]);

    ms = MemoryStream::with_capacity(1);
    ms.write(&[0u8, 1, 2, 3, 4, 5]).unwrap();
    assert_eq!(ms.as_vec().len(), 6);
    assert_eq!(ms.as_vec(), &[0u8, 1, 2, 3, 4, 5]);
}

#[test]
fn seek_test() {
    let mut ms = MemoryStream::new();
    ms.write(&[0u8, 1, 2, 3, 4, 5]).unwrap();
    assert_eq!(ms.as_vec().len(), 6);
    assert_eq!(ms.as_vec(), &[0u8, 1, 2, 3, 4, 5]);

    assert_eq!(ms.seek(SeekFrom::Start(0)).unwrap(), 0);
    assert!(match ms.seek(SeekFrom::Current(-1)) {
        Err(_) => true,
        _ => false,
    });
    ms.write(&[255u8]).unwrap();
    assert!(match ms.seek(SeekFrom::End(1)) {
        Err(_) => true,
        _ => false,
    });
    assert_eq!(ms.seek(SeekFrom::Start(6)).unwrap(), 6);
    ms.write(&[6u8]).unwrap();
    assert_eq!(ms.as_vec(), &[255u8, 1, 2, 3, 4, 5, 6]);
}

#[test]
fn read_test() {
    let mut ms = MemoryStream::new();
    ms.write(&[0u8, 1, 2, 3, 4, 5]).unwrap();
    ms.seek(SeekFrom::Start(0)).unwrap();
    let mut buf = Vec::new();
    buf.resize(64, 0u8);
    assert_eq!(ms.read(&mut buf).unwrap(), 6);
    assert_eq!(&buf[0..6], &[0u8, 1, 2, 3, 4, 5]);

    ms = MemoryStream::with_buffer(Box::new([0u8, 1, 2, 3, 4, 5]));
    assert_eq!(ms.read(&mut buf).unwrap(), 6);
    assert_eq!(&buf[0..6], &[0u8, 1, 2, 3, 4, 5]);
    ms.seek(SeekFrom::End(0)).unwrap();
    ms.write(&[6, 7, 8, 9]).unwrap();
    assert_eq!(ms.as_vec(), &[0u8, 1, 2, 3, 4, 5, 6, 7, 8, 9]);
}

#[test]
fn read_back_what_was_written() {
    let mut ms = MemoryStream::with_buffer(Box::new([9u8, 9, 9, 9, 9, 9, 9, 9]));
    ms.seek(SeekFrom::Start(2)).unwrap();
    ms.write(&[1u8, 2, 3]).unwrap();
    assert_eq!(ms.seek(SeekFrom::Current(-3)).unwrap(), 2);
    let mut out = [0u8; 3];
    assert_eq!(ms.read(&mut out).unwrap(), 3);
    assert_eq!(out, [1u8, 2, 3]);
    // the bytes outside the written range are kept
    assert_eq!(ms.as_ref(), &[9u8, 9, 1, 2, 3, 9, 9, 9]);
}

#[test]
fn short_read_leaves_rest_of_buffer() {
    let mut ms = MemoryStream::with_buffer(Box::new([1u8, 2, 3]));
    ms.seek(SeekFrom::Start(1)).unwrap();
    let mut out = [7u8; 5];
    assert_eq!(ms.read(&mut out).unwrap(), 2);
    assert_eq!(out, [2u8, 3, 7, 7, 7]);
    // at the end nothing more is read
    assert_eq!(ms.read(&mut out).unwrap(), 0);
    // a read into an empty buffer reads nothing and stays put
    ms.seek(SeekFrom::Start(0)).unwrap();
    let mut empty: [u8; 0] = [];
    assert_eq!(ms.read(&mut empty).unwrap(), 0);
    assert_eq!(ms.seek(SeekFrom::Current(0)).unwrap(), 0);
}

#[test]
fn consecutive_writes_equal_one_joined_write() {
    let mut a = MemoryStream::new();
    a.write(&[1u8, 2]).unwrap();
    a.write(&[3u8, 4, 5]).unwrap();
    let mut b = MemoryStream::new();
    b.write(&[1u8, 2, 3, 4, 5]).unwrap();
    assert_eq!(a.as_vec(), b.as_vec());
    assert_eq!(a.seek(SeekFrom::Current(0)).unwrap(), 5);
}

#[test]
fn rewriting_same_bytes_changes_nothing() {
    let mut ms = MemoryStream::with_buffer(Box::new([0u8, 0, 0, 0]));
    ms.seek(SeekFrom::Start(1)).unwrap();
    ms.write(&[5u8, 6]).unwrap();
    let once = ms.as_vec().clone();
    ms.seek(SeekFrom::Start(1)).unwrap();
    ms.write(&[5u8, 6]).unwrap();
    assert_eq!(ms.as_vec(), &once);
}

#[test]
fn write_past_a_truncated_end_fills_with_zeros() {
    let mut ms = MemoryStream::new();
    ms.write(&[1u8, 2, 3, 4, 5]).unwrap();
    ms.as_mut_vec().truncate(2);
    ms.write(&[9u8]).unwrap();
    assert_eq!(ms.as_vec(), &[1u8, 2, 0, 0, 0, 9]);
}

#[test]
fn seek_from_end_and_errors() {
    let mut ms = MemoryStream::with_buffer(Box::new([1u8, 2, 3, 4]));
    assert_eq!(ms.seek(SeekFrom::End(-1)).unwrap(), 3);
    assert_eq!(ms.seek(SeekFrom::End(-4)).unwrap(), 0);
    assert_eq!(ms.seek(SeekFrom::End(-5)), Err(StreamError::OutOfRange));
    assert_eq!(ms.seek(SeekFrom::Start(5)), Err(StreamError::OutOfRange));
    assert_eq!(ms.seek(SeekFrom::End(i64::MAX)), Err(StreamError::OutOfRange));
    assert_eq!(ms.seek(SeekFrom::Current(i64::MIN)), Err(StreamError::OutOfRange));
    // a refused seek keeps the position
    assert_eq!(ms.seek(SeekFrom::Current(0)).unwrap(), 0);
    assert_eq!(ms.seek(SeekFrom::Start(4)).unwrap(), 4);
    assert_eq!(ms.flush(), Ok(()));
}
