use tg_storage::gateway::{
    after_send, is_local_path, retry_decision, GatewayError, Retry, SendOutcome, SendStep,
    REQUEST_TIMEOUT_SECS, SEND_PAUSE_MILLIS,
};

#[test]
fn gateway_errors_in_words() {
    assert_eq!(GatewayError::Telegram("a".to_string()).message(), "telegram: a");
    assert_eq!(GatewayError::Download("b".to_string()).message(), "download: b");
    assert_eq!(GatewayError::Io("c".to_string()).message(), "io: c");
}

#[test]
fn pauses() {
    assert_eq!(REQUEST_TIMEOUT_SECS, 600);
    assert_eq!(SEND_PAUSE_MILLIS, 1200);
}

#[test]
fn a_named_pause_is_waited_for() {
    assert_eq!(retry_decision("Too Many Requests: Retry after 35s"), Retry::Wait(35));
    assert_eq!(retry_decision("Retry after 7"), Retry::Wait(7));
    assert_eq!(retry_decision("Retry after 007!"), Retry::Wait(7));
    assert_eq!(retry_decision("Retry after 1, Retry after 2"), Retry::Wait(1));
}

#[test]
fn other_errors_are_given_up_on() {
    assert_eq!(retry_decision(""), Retry::GiveUp);
    assert_eq!(retry_decision("Bad Request"), Retry::GiveUp);
    assert_eq!(retry_decision("retry after 5"), Retry::GiveUp);
    assert_eq!(retry_decision("Retry after"), Retry::GiveUp);
    assert_eq!(retry_decision("Retry after 0"), Retry::GiveUp);
    assert_eq!(retry_decision("Retry after soon"), Retry::GiveUp);
    assert_eq!(retry_decision("Retry after soon, Retry after 3"), Retry::GiveUp);
}

#[test]
fn the_longest_pause() {
    assert_eq!(retry_decision("Retry after 18446744073709551615"), Retry::Wait(u64::MAX));
    assert_eq!(retry_decision("Retry after 18446744073709551616"), Retry::TooLong);
    assert_eq!(retry_decision("Retry after 99999999999999999999x"), Retry::TooLong);
}

#[test]
fn text_before_the_pause_may_be_anything() {
    assert_eq!(retry_decision("ошибка ✗ Retry after 12 секунд"), Retry::Wait(12));
    assert_eq!(retry_decision("Retry Retry after 4"), Retry::Wait(4));
}

#[test]
fn after_an_attempt_to_send() {
    assert!(matches!(
        after_send(SendOutcome::Sent("abc".to_string())),
        SendStep::Done(name) if name == "abc"
    ));
    assert!(matches!(
        after_send(SendOutcome::Refused("Retry after 3s".to_string())),
        SendStep::RetryAfter(3)
    ));
    assert!(matches!(after_send(SendOutcome::Refused("Forbidden".to_string())), SendStep::Fail));
    assert!(matches!(
        after_send(SendOutcome::Refused("Retry after 18446744073709551616".to_string())),
        SendStep::TooLong
    ));
    assert!(matches!(after_send(SendOutcome::Broken), SendStep::Fail));
}

#[test]
fn paths_on_this_machine() {
    assert!(is_local_path("C:\\Users\\me\\file_2.bin"));
    assert!(is_local_path(":\\"));
    assert!(!is_local_path("documents/file_2.bin"));
    assert!(is_local_path("C:/Users/me/file_2.bin"));
    assert!(is_local_path(":/"));
    assert!(!is_local_path("/:"));
    assert!(!is_local_path("C:file_2.bin"));
    assert!(!is_local_path("\\:"));
    assert!(!is_local_path(""));
}
