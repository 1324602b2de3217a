use std::collections::VecDeque;
use toyterm::utils::extension::GetMutPair;
use toyterm::utils::utf8::{process_utf8, process_utf8_lossy, Chunk};

fn lossy_into(buf: &[u8], res: &mut String) -> Vec<u8> {
    let (pieces, rem) = process_utf8_lossy(buf);
    for s in pieces.iter() {
        res.push_str(s);
    }
    rem.to_vec()
}

#[test]
fn test_process_utf8_lossy() {
    {
        let buf = b"abc".to_vec();
        let mut res = String::new();
        let rem = lossy_into(&buf[..], &mut res);
        assert_eq!(rem.len(), 0);
        assert_eq!(&res, "abc");
    }

    {
        let buf = b"\xE3\x81\x82\xE3\x81\x84\xE3\x81\x86".to_vec();
        let mut res = String::new();
        let rem = lossy_into(&buf[..], &mut res);
        assert_eq!(rem.len(), 0);
        assert_eq!(&res, "あいう");
    }

    {
        let mut buf = b"\xE3\x81\x82\xE3\x81\x84\xE3".to_vec();
        let buf_len = buf.len();
        let mut res = String::new();

        let rem = lossy_into(&buf[..], &mut res);
        assert_eq!(rem.len(), 1);
        assert_eq!(rem[0], b'\xE3');

        let rem_offset = buf_len - rem.len();
        buf.copy_within(rem_offset.., 0);

        buf[1..3].copy_from_slice(b"\x81\x86");
        let rem = lossy_into(&buf[..3], &mut res);
        assert_eq!(rem.len(), 0);

        assert_eq!(&res, "あいう");
    }

    {
        let mut buf = b"\xE3\x81\x82\xE3\x81\x84\xE3\x81".to_vec();
        let buf_len = buf.len();
        let mut res = String::new();

        let rem = lossy_into(&buf[..], &mut res);
        assert_eq!(rem.len(), 2);
        assert_eq!(&rem[0..2], b"\xE3\x81");

        let rem_offset = buf_len - rem.len();
        buf.copy_within(rem_offset.., 0);

        buf[2..3].copy_from_slice(b"\x86");
        let rem = lossy_into(&buf[..3], &mut res);
        assert_eq!(rem.len(), 0);

        assert_eq!(&res, "あいう");
    }
}

#[test]
fn process_utf8_reports_invalid_sequences() {
    let buf = b"a\xFFb\xE3\x81".to_vec();
    let (chunks, rem) = process_utf8(&buf[..]);
    assert_eq!(rem, b"\xE3\x81");
    assert_eq!(chunks.len(), 3);
    match &chunks[0] {
        Chunk::Text(s) => assert_eq!(s, "a"),
        _ => panic!("expected text"),
    }
    match &chunks[1] {
        Chunk::Invalid(b) => assert_eq!(b, &vec![0xFFu8]),
        _ => panic!("expected an invalid sequence"),
    }
    match &chunks[2] {
        Chunk::Text(s) => assert_eq!(s, "b"),
        _ => panic!("expected text"),
    }
}

#[test]
fn test_slice() {
    let mut a = [0, 1, 2, 3, 4];
    let slice = a.as_mut_slice();

    let (x, y) = slice.get_mut_pair(0, 1);
    assert_eq!(*x, 0);
    assert_eq!(*y, 1);

    let (x, y) = slice.get_mut_pair(1, 0);
    assert_eq!(*x, 1);
    assert_eq!(*y, 0);

    let (x, y) = slice.get_mut_pair(0, 4);
    assert_eq!(*x, 0);
    assert_eq!(*y, 4);

    let (x, y) = slice.get_mut_pair(4, 0);
    assert_eq!(*x, 4);
    assert_eq!(*y, 0);
}

#[test]
fn test_deque() {
    let mut deq = VecDeque::with_capacity(5);
    deq.push_back(2);
    deq.push_back(3);
    deq.push_back(4);
    deq.push_front(1);
    deq.push_front(0);

    assert_eq!(deq[0], 0);
    assert_eq!(deq[1], 1);
    assert_eq!(deq[2], 2);
    assert_eq!(deq[3], 3);
    assert_eq!(deq[4], 4);

    let (x, y) = deq.get_mut_pair(0, 1);
    assert_eq!(*x, 0);
    assert_eq!(*y, 1);
    let (x, y) = deq.get_mut_pair(1, 0);
    assert_eq!(*x, 1);
    assert_eq!(*y, 0);

    let (x, y) = deq.get_mut_pair(1, 2);
    assert_eq!(*x, 1);
    assert_eq!(*y, 2);
    let (x, y) = deq.get_mut_pair(2, 1);
    assert_eq!(*x, 2);
    assert_eq!(*y, 1);

    let (x, y) = deq.get_mut_pair(2, 3);
    assert_eq!(*x, 2);
    assert_eq!(*y, 3);
    let (x, y) = deq.get_mut_pair(3, 2);
    assert_eq!(*x, 3);
    assert_eq!(*y, 2);
}

#[test]
fn get_mut_pair_writes_both_elements() {
    let mut a = [10, 20, 30];
    {
        let (x, y) = a.as_mut_slice().get_mut_pair(2, 0);
        *x += 1;
        *y += 2;
    }
    assert_eq!(a, [12, 20, 31]);
}

#[test]
fn split_pieces_give_back_the_input() {
    let input: &[u8] = b"a\xFFb\xE3\x81\x82\xC0\xAFz\xF0\x9F";
    let (chunks, rest) = process_utf8(input);
    let mut bytes: Vec<u8> = Vec::new();
    for c in chunks.iter() {
        match c {
            Chunk::Text(s) => bytes.extend_from_slice(s.as_bytes()),
            Chunk::Invalid(b) => bytes.extend_from_slice(b),
        }
    }
    bytes.extend_from_slice(rest);
    assert_eq!(bytes, input.to_vec());
    assert_eq!(rest, b"\xF0\x9F");
}
