use zlink::codegen_error::Error;
use zlink::notified::{Broadcast, OnceStream, State, Step, Stream};
use zlink::server::MethodReply;
use zlink::text::{decimal_text, list, replace, terminate};
use zlink::varlink_service::{Info, OwnedInfo};

#[test]
fn state_is_set_and_read() {
    let mut state = State::new(1);
    assert_eq!(state.get(), 1);
    assert_eq!(state.set(2), 2);
    assert_eq!(state.get(), 2);
}

#[test]
fn listeners_get_every_value_and_the_last_one_again() {
    let mut stream = Stream::new();
    for value in [1, 2] {
        match stream.next(Broadcast::Value(value)) {
            Step::Yield(reply) => {
                assert_eq!(reply.parameters, Some(value));
                assert_eq!(reply.continues, Some(true));
            }
            _ => panic!("nothing yielded"),
        }
        assert!(matches!(stream.next(Broadcast::Lagged), Step::Wait));
    }
    match stream.next(Broadcast::Closed) {
        Step::Yield(reply) => {
            assert_eq!(reply.parameters, Some(2));
            assert_eq!(reply.continues, Some(false));
        }
        _ => panic!("nothing yielded"),
    }
    assert!(matches!(stream.next(Broadcast::Closed), Step::End));
    let mut silent: Stream<u8> = Stream::new();
    assert!(matches!(silent.next(Broadcast::Closed), Step::End));
}

#[test]
fn one_value_is_waited_for_once() {
    let mut stream = OnceStream::new();
    assert!(!stream.is_terminated());
    let reply = stream.next(Some(5)).unwrap();
    assert_eq!(reply.parameters, Some(5));
    assert_eq!(reply.continues, Some(false));
    assert!(stream.is_terminated());
    let mut stream = OnceStream::new();
    assert!(stream.next(None::<u8>).is_none());
    assert!(stream.is_terminated());
}

#[test]
fn owned_info_says_the_same() {
    let info = Info::new(
        "Test Vendor",
        "Test Product",
        "1.0.0",
        "https://example.com",
        vec!["com.example.test", "com.example.other"],
    );
    let owned = OwnedInfo::from(info.clone());
    assert_eq!(
        owned,
        OwnedInfo::new(
            "Test Vendor".to_string(),
            "Test Product".to_string(),
            "1.0.0".to_string(),
            "https://example.com".to_string(),
            vec!["com.example.test".to_string(), "com.example.other".to_string()],
        )
    );
    assert_eq!(OwnedInfo::from_info(&info), owned);
}

#[test]
fn method_replies_come_in_three_kinds() {
    let replies: [MethodReply<u8, u8, u8>; 3] =
        [MethodReply::Single(None), MethodReply::Error(1), MethodReply::Multi(2)];
    assert!(matches!(replies[0], MethodReply::Single(None)));
    assert!(matches!(replies[1], MethodReply::Error(1)));
    assert!(matches!(replies[2], MethodReply::Multi(2)));
}

#[test]
fn generation_errors_are_explained() {
    let e = || "cause".to_string();
    let cases = [
        (Error::InvalidArgument, "Invalid argument provided", None),
        (Error::Io(e()), "I/O error: cause", Some("cause")),
        (Error::Zlink(e()), "Zlink error: cause", Some("cause")),
        (Error::Fmt(e()), "Formatting error: cause", Some("cause")),
        (Error::InvalidUtf8(e()), "Invalid UTF-8 from rustfmt: cause", Some("cause")),
    ];
    for (error, message, source) in cases {
        assert_eq!(error.message(), message);
        assert_eq!(error.source(), source);
    }
}

#[test]
fn texts_are_put_together() {
    assert_eq!(decimal_text(0), "0");
    assert_eq!(decimal_text(1090), "1090");
    let parts = vec!["a".to_string(), "b".to_string()];
    assert_eq!(list(&parts), "a, b");
    assert_eq!(terminate(&parts), "a, b, ");
    assert_eq!(list(&vec![]), "");
    assert_eq!(replace("a.b.c", '.', '_'), "a_b_c");
}
