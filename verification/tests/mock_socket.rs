use rustix::process::{Gid, Pid, Uid};
use zlink::connection::credentials::PassedCredentials;
use zlink::mock_socket::{CountingWriteHalf, MockSocket, MockWriteHalf, TestWriteHalf};

fn sample_creds() -> PassedCredentials {
    PassedCredentials::new(Uid::ROOT, Gid::ROOT, Pid::from_raw(1).unwrap())
}

fn dup(fds: Vec<u32>) -> Result<Vec<u32>, String> {
    Ok(fds)
}

#[test]
fn mock_socket_with_fds_basic() {
    let fds = vec![vec![11], vec![12]];
    let socket = MockSocket::new(&["test1", "test2"], fds);

    let (mut read, _write) = socket.split();

    let mut buf = [0u8; 10];
    let result = read.read(&mut buf);
    assert!(result.bytes_read() > 0);
    assert_eq!(result.fds().len(), 1);

    let result = read.read(&mut buf);
    assert!(result.bytes_read() > 0);
    assert_eq!(result.fds().len(), 1);
    assert_eq!(read.messages_remaining(), 0);
    assert_eq!(read.fds_consumed(), 2);
    assert_eq!(read.read(&mut buf).bytes_read(), 0);
}

#[test]
fn mock_write_half_captures_fds() {
    let mut write = MockWriteHalf::new();

    write.write(b"test", dup(vec![5]), None).unwrap();

    assert_eq!(write.written_data(), b"test");
    assert_eq!(write.fd_write_count(), 1);
    assert_eq!(write.fds_written().len(), 1);
    assert_eq!(write.fds_written()[0].len(), 1);
}

#[test]
fn test_write_half_validates_fd_count() {
    let mut write = TestWriteHalf::new_with_fds(4, 2);
    assert!(write.accepts(4, 2));
    assert!(!write.accepts(4, 1));
    assert!(!write.accepts(5, 2));

    write.write(b"test", 2);

    assert_eq!(write.write_count(), 1);
    let write = TestWriteHalf::new(3);
    assert!(write.accepts(3, 0));
    assert!(!write.accepts(3, 1));
}

#[test]
#[should_panic(expected = "assertion `left == right` failed")]
fn test_write_half_panics_on_wrong_fd_count() {
    let mut write = TestWriteHalf::new_with_fds(4, 2);

    write.write(b"test", 1);
}

#[test]
fn mock_read_half_multiple_fds_per_read() {
    let fds = vec![vec![1, 2, 3]];
    let socket = MockSocket::new(&["test"], fds);

    let (mut read, _write) = socket.split();

    let mut buf = [0u8; 1024];
    let result = read.read(&mut buf);
    assert!(result.bytes_read() > 0);
    assert_eq!(result.fds().len(), 3);
}

#[test]
fn mock_read_half_mixed_fd_and_no_fd_reads() {
    let fds = vec![vec![1], vec![]];
    let socket = MockSocket::new(&["test1", "test2"], fds);

    let (mut read, _write) = socket.split();

    let mut buf = [0u8; 10];

    let result = read.read(&mut buf);
    assert!(result.bytes_read() > 0);
    assert!(!result.fds().is_empty());

    let result = read.read(&mut buf);
    assert!(result.bytes_read() > 0);
    assert!(result.fds().is_empty());
}

#[test]
fn messages_come_in_pieces_and_in_order() {
    let (mut read, _write) = MockSocket::new(&["abc", "d"], vec![vec![7], vec![8]]).split();
    let mut all = vec![];
    let mut fds = vec![];
    let mut buf = [9u8; 3];
    loop {
        let result = read.read(&mut buf);
        if result.bytes_read() == 0 {
            break;
        }
        all.extend_from_slice(&buf[..result.bytes_read()]);
        fds.push(result.into_fds());
    }
    assert_eq!(all, b"abc\0d\0\0");
    assert_eq!(fds, [vec![], vec![7], vec![8]]);
    let (mut read, _write) = MockSocket::<u32>::with_responses(&["ab"]).split();
    let mut none = [0u8; 0];
    assert_eq!(read.read(&mut none).bytes_read(), 0);
    assert_eq!(read.messages_remaining(), 1);
    let mut buf = [1u8; 6];
    assert_eq!(read.read(&mut buf).bytes_read(), 4);
    assert_eq!(buf, [b'a', b'b', 0, 0, 1, 1]);
}

#[test]
fn no_credentials_by_default() {
    let mut write = MockWriteHalf::new();
    write.write(b"x", dup(vec![]), None).unwrap();
    assert!(write.credentials_written().is_empty());
    assert_eq!(write.fd_write_count(), 0);
}

#[test]
fn credentials_sent_after_set() {
    let mut write = MockWriteHalf::new();
    let creds = sample_creds();
    write.write(b"x", dup(vec![]), Some(&creds)).unwrap();
    let written = write.credentials_written();
    assert_eq!(written.len(), 1);
    assert_eq!(written[0].unix_user_id(), Uid::ROOT);
}

#[test]
fn credentials_cleared_on_set_none() {
    let mut write = MockWriteHalf::default();
    let creds = sample_creds();
    write.write(b"x", dup(vec![]), Some(&creds)).unwrap();
    write.write(b"y", dup(vec![]), None).unwrap();
    assert_eq!(write.credentials_written().len(), 1);
    assert_eq!(write.written_data(), b"xy");
}

#[test]
fn failed_duplication_keeps_the_bytes() {
    let mut write: MockWriteHalf<u32> = MockWriteHalf::new();
    let creds = sample_creds();
    let r: Result<(), &str> = write.write(b"x", Err("dup"), Some(&creds));
    assert_eq!(r, Err("dup"));
    assert_eq!(write.written_data(), b"x");
    assert!(write.credentials_written().is_empty());
}

#[test]
fn writes_are_counted() {
    let mut write = CountingWriteHalf::default();
    assert_eq!(write.count(), 0);
    write.write();
    write.write();
    assert_eq!(write.count(), 2);
    assert_eq!(CountingWriteHalf::new().count(), 0);
}

#[test]
fn series_of_reads_gives_all_messages_and_descriptors() {
    let fds = vec![vec![1, 2], vec![], vec![3], vec![4]];
    let (mut read, _) = MockSocket::new(&["abc", "d", "ef"], fds).split();
    let (mut bytes, mut given) = (Vec::new(), Vec::new());
    for room in [2, 1, 9, 0, 1, 1, 9, 2, 5] {
        let mut buf = vec![0; room];
        let result = read.read(&mut buf);
        bytes.extend_from_slice(&buf[..result.bytes_read()]);
        given.extend(result.into_fds());
    }
    assert_eq!(bytes, b"abc\0d\0ef\0\0");
    assert_eq!(given, [1, 2, 3]);
    assert_eq!(read.messages_remaining(), 0);
    assert_eq!(read.read(&mut [0; 4]).bytes_read(), 0);
}
