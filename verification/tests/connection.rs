use rustix::fd::OwnedFd;
use rustix::process::{Gid, Pid, Uid};
use serde_json::Value;
use zlink::call::{Call, Reply};
use zlink::connection::chain::Chain;
use zlink::connection::credentials::{Credentials, PassedCredentials};
use zlink::connection::reply_stream::{Received, ReplyStream};
use zlink::connection::socket::ReadResult;
use zlink::connection::unix_utils::{
    check_fds, get_peer_credentials, groups_step, received, require_pid, Ancillary, Answer, Codes,
    Failure, GroupsStep, Next, Phase, Problem, Question,
};
use zlink::mock_socket::{MockReadHalf, MockSocket};

fn sample() -> PassedCredentials {
    PassedCredentials::new(Uid::ROOT, Gid::ROOT, Pid::from_raw(1).unwrap())
}

fn some_fd() -> OwnedFd {
    let (fd, _) = rustix::net::socketpair(
        rustix::net::AddressFamily::UNIX,
        rustix::net::SocketType::STREAM,
        rustix::net::SocketFlags::empty(),
        None,
    )
    .unwrap();
    fd
}

fn ok() -> Result<(), String> {
    Ok(())
}

fn yielded(mut replies: ReplyStream, items: &[Received]) -> usize {
    let mut n = 0;
    while !replies.is_done() {
        replies.advance(items[n]);
        n += 1;
    }
    n
}

/// Reads the next message of a socket, up to its null byte.
fn receive(read: &mut MockReadHalf<u8>) -> Value {
    let mut message = Vec::new();
    let mut buf = [0u8; 1024];
    while !message.contains(&0) {
        let n = read.read(&mut buf).bytes_read();
        assert!(n > 0);
        message.extend_from_slice(&buf[..n]);
    }
    let end = message.iter().position(|b| *b == 0).unwrap();
    serde_json::from_slice(&message[..end]).unwrap()
}

/// The replies that come over a socket, as many as are waited for.
fn received_over(responses: &[&str], mut replies: ReplyStream) -> Vec<Value> {
    let (mut read, _) = MockSocket::with_responses(responses).split();
    let mut values = Vec::new();
    while !replies.is_done() {
        let value = receive(&mut read);
        replies.advance(Received::Reply(value["continues"].as_bool()));
        values.push(value);
    }
    assert_eq!(read.messages_remaining(), 0);
    values
}

fn id(value: &Value) -> u64 {
    value["parameters"]["id"].as_u64().unwrap()
}

#[test]
fn homogeneous_calls() {
    let responses = [r#"{"parameters":{"id":1}}"#, r#"{"parameters":{"id":2}}"#];
    let chain = Chain::new((), &Call::new(1), ok()).unwrap();
    let chain = chain.append(&Call::new(2), ok()).unwrap();
    assert_eq!(chain.call_count(), 2);
    let (_, replies) = chain.send(ok()).unwrap();
    let users = received_over(&responses, replies);
    assert_eq!(users.len(), 2);
    assert_eq!(id(&users[0]), 1);
    assert_eq!(id(&users[1]), 2);
}

#[test]
fn oneway_calls_no_reply() {
    let responses = [r#"{"parameters":{"id":1}}"#];
    let chain = Chain::new((), &Call::new(1), ok()).unwrap();
    let chain = chain.append(&Call::new(2).set_oneway(true), ok()).unwrap();
    assert_eq!(chain.call_count(), 2);
    assert_eq!(chain.reply_count(), 1);
    let (_, replies) = chain.send(ok()).unwrap();
    let users = received_over(&responses, replies);
    assert_eq!(users.len(), 1);
    assert_eq!(id(&users[0]), 1);
    let chain = Chain::new((), &Call::new(1).set_oneway(true), ok()).unwrap();
    let (_, replies) = chain.send(ok()).unwrap();
    assert!(replies.is_done());
}

#[test]
fn more_calls_with_streaming() {
    let responses = [
        r#"{"parameters":{"id":1},"continues":true}"#,
        r#"{"parameters":{"id":2},"continues":true}"#,
        r#"{"parameters":{"id":3},"continues":false}"#,
        r#"{"parameters":{"id":4}}"#,
    ];
    let chain = Chain::new((), &Call::new(1).set_more(true), ok()).unwrap();
    let chain = chain.append(&Call::new(2), ok()).unwrap();
    let (_, replies) = chain.send(ok()).unwrap();
    let users = received_over(&responses, replies);
    assert_eq!(users.len(), 4);
    let expected = [(1, Some(true)), (2, Some(true)), (3, Some(false)), (4, None)];
    for (user, (number, continues)) in users.iter().zip(expected) {
        assert_eq!(id(user), number);
        assert_eq!(user["continues"].as_bool(), continues);
    }
}

#[test]
fn stream_interface_works() {
    let responses = [
        r#"{"parameters":{"id":1}}"#,
        r#"{"parameters":{"id":2}}"#,
        r#"{"parameters":{"id":3}}"#,
    ];
    let chain = Chain::new((), &Call::new(1), ok()).unwrap();
    let chain = chain.append(&Call::new(2), ok()).unwrap();
    let chain = chain.append(&Call::new(3), ok()).unwrap();
    let (_, replies) = chain.send(ok()).unwrap();
    let results = received_over(&responses, replies);
    assert_eq!(results.len(), 3);
    for (i, result) in results.iter().enumerate() {
        assert_eq!(id(result), i as u64 + 1);
    }
}

#[test]
fn heterogeneous_calls() {
    let responses = [
        r#"{"parameters":{"id":1}}"#,
        r#"{"parameters":{"id":123,"title":"Test Post"}}"#,
        r#"{"parameters":{"success":true}}"#,
    ];
    let chain = Chain::new((), &Call::new("GetUser"), ok()).unwrap();
    let chain = chain.append(&Call::new(("GetPost", 123)), ok()).unwrap();
    let chain = chain.append(&Call::new(456u32), ok()).unwrap();
    let (_, replies) = chain.send(ok()).unwrap();
    let results = received_over(&responses, replies);
    assert_eq!(results.len(), 3);
    assert_eq!(id(&results[0]), 1);
    assert_eq!(id(&results[1]), 123);
    assert_eq!(results[1]["parameters"]["title"], "Test Post");
    assert_eq!(results[2]["parameters"]["success"], true);
}

#[test]
fn errors_and_failures_end_what_they_should() {
    let replies = ReplyStream::new(2);
    assert_eq!(yielded(replies, &[Received::MethodError, Received::Reply(None)]), 2);
    let replies = ReplyStream::new(5);
    assert_eq!(yielded(replies, &[Received::Reply(Some(true)), Received::Failure]), 2);
}

#[test]
fn failed_calls_fail_the_chain() {
    let failed: Result<(), String> = Err("full".to_string());
    assert_eq!(Chain::new((), &Call::new(1), failed.clone()).unwrap_err(), "full");
    let mut chain = Chain::new(7, &Call::new(1), ok()).unwrap();
    *chain.connection_mut() = 8;
    assert_eq!(chain.append(&Call::new(1), failed.clone()).unwrap_err(), "full");
    let chain = Chain::new(7, &Call::new(1), ok()).unwrap();
    assert_eq!(chain.send(failed).unwrap_err(), "full");
    let chain = Chain::new(7, &Call::new(1), ok()).unwrap();
    assert_eq!(chain.send(ok()).unwrap().0, 7);
}

#[test]
fn calls_and_replies_keep_what_is_set() {
    let call = Call::new("m").set_oneway(true).set_more(false);
    assert!(call.oneway());
    assert_eq!(call.more, Some(false));
    assert!(!Call::new("m").set_oneway(false).oneway());
    let reply = Reply::new(Some(3)).set_continues(Some(true));
    assert_eq!(reply.parameters, Some(3));
    assert_eq!(reply.continues, Some(true));
    assert_eq!(Reply::new(None::<u8>).continues, None);
}

#[test]
fn credentials_are_kept() {
    let passed = sample();
    assert_eq!(passed.unix_user_id(), Uid::ROOT);
    assert_eq!(passed.unix_primary_group_id(), Gid::ROOT);
    assert_eq!(passed.process_id(), Pid::from_raw(1).unwrap());
    let creds = Credentials::new(sample(), Some(vec![Gid::from_raw(5)]), Some(some_fd()));
    assert_eq!(creds.unix_user_id(), Uid::ROOT);
    assert_eq!(creds.unix_primary_group_id(), Gid::ROOT);
    assert_eq!(creds.process_id(), Pid::from_raw(1).unwrap());
    assert_eq!(creds.unix_supplementary_group_ids(), Some([Gid::from_raw(5)].as_slice()));
    let _fd: &OwnedFd = creds.process_fd().unwrap();
    let bare = Credentials::new(sample(), None, None);
    assert_eq!(bare.unix_user_id(), Uid::ROOT);
    assert_eq!(bare.unix_supplementary_group_ids(), None);
    assert!(bare.process_fd().is_none());
}

#[test]
fn descriptors_beside_messages_are_collected() {
    let r = received(
        3,
        vec![Ancillary::Rights(vec![1, 2]), Ancillary::Other, Ancillary::Rights(vec![3])],
    );
    assert_eq!(r.bytes_read(), 3);
    assert_eq!(r.fds(), [1, 2, 3]);
    let r: ReadResult<u8> = ReadResult::new(4);
    assert!(r.fds().is_empty());
    assert_eq!(r.set_fds(vec![9]).into_fds(), [9]);
}

#[test]
fn problems_are_explained() {
    assert_eq!(check_fds(0, false), Ok(()));
    assert_eq!(check_fds(2, true), Ok(()));
    let err = check_fds(2, false).unwrap_err();
    assert_eq!(err, Problem::TooManyFds);
    assert_eq!(err.message(), "too many file descriptors to send");
    assert_eq!(require_pid(None).unwrap_err().message(), "invalid peer PID");
    assert_eq!(require_pid(Pid::from_raw(3)).unwrap(), Pid::from_raw(3).unwrap());
    assert_eq!(
        Problem::Unsupported.message(),
        "peer credentials not supported on this platform"
    );
}

#[test]
fn answers_about_groups_are_judged() {
    assert_eq!(groups_step(None, 34, 12, 128), GroupsStep::Done(3));
    assert_eq!(groups_step(None, 34, 512, 128), GroupsStep::Done(128));
    assert_eq!(groups_step(Some(Some(34)), 34, 800, 128), GroupsStep::Grow(200));
    assert_eq!(groups_step(Some(Some(34)), 34, 800, 200), GroupsStep::Done(200));
    assert_eq!(groups_step(Some(Some(5)), 34, 12, 128), GroupsStep::Fail);
    assert_eq!(groups_step(Some(None), 34, 12, 128), GroupsStep::Fail);
}

fn answer(phase: Phase, answer: Answer<&'static str>) -> Next<&'static str> {
    phase.next(answer, Codes { too_small: 34, not_supported: 92 })
}

fn asked(next: Next<&'static str>) -> (Phase, Question) {
    match next {
        Next::Ask(phase, question) => (phase, question),
        _ => panic!("no question"),
    }
}

fn group_buffer(n: u32) -> Vec<Gid> {
    (0..n).map(Gid::from_raw).collect()
}

#[test]
fn peers_are_asked_for_step_by_step() {
    let (phase, question) = get_peer_credentials();
    assert_eq!(question, Question::Peer);
    let (phase, question) = asked(answer(phase, Answer::Peer(Ok(sample()))));
    assert_eq!(question, Question::Groups(128));
    let too_small = Answer::Groups {
        failed: Some(Failure { error: "range", code: Some(34) }),
        bytes: 800,
        buffer: group_buffer(128),
    };
    let (phase, question) = asked(answer(phase, too_small));
    assert_eq!(question, Question::Groups(200));
    let enough = Answer::Groups { failed: None, bytes: 8, buffer: group_buffer(200) };
    let (phase, question) = asked(answer(phase, enough));
    assert_eq!(question, Question::ProcessFd);
    let unknown = Answer::ProcessFd(Err(Failure { error: "opt", code: Some(92) }));
    let (phase, question) = asked(answer(phase, unknown));
    assert_eq!(question, Question::OpenProcess);
    match answer(phase, Answer::OpenProcess(Ok(some_fd()))) {
        Next::Done(creds) => {
            assert_eq!(creds.unix_user_id(), Uid::ROOT);
            assert_eq!(creds.unix_supplementary_group_ids(), Some(group_buffer(2).as_slice()));
        }
        _ => panic!("not done"),
    }
}

#[test]
fn errors_end_the_asking() {
    let (phase, _) = get_peer_credentials();
    assert!(matches!(answer(phase, Answer::Peer(Err("cred"))), Next::Fail("cred")));
    let failed = Answer::Groups {
        failed: Some(Failure { error: "io", code: Some(5) }),
        bytes: 0,
        buffer: vec![],
    };
    assert!(matches!(answer(Phase::Groups(sample()), failed), Next::Fail("io")));
    let failed = Answer::ProcessFd(Err(Failure { error: "fd", code: Some(1) }));
    assert!(matches!(answer(Phase::ProcessFd(sample(), vec![]), failed), Next::Fail("fd")));
    let opened = Answer::OpenProcess(Err("open"));
    assert!(matches!(answer(Phase::OpenProcess(sample(), vec![]), opened), Next::Fail("open")));
    let given = Answer::ProcessFd(Ok(some_fd()));
    assert!(matches!(answer(Phase::ProcessFd(sample(), vec![]), given), Next::Done(_)));
}
