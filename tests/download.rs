use novel_dl::download::{after_attempt, Attempt, DEFAULT_RETRY_DELAY};
use novel_dl::fetch::Reply;
use novel_dl::render::{Chapter, WriteError};

fn chapter() -> Chapter {
    Chapter { title: "C".to_string(), url: "/c".to_string() }
}

fn attempt(reply: Reply, delay: u64) -> Attempt {
    let outcome = chapter().write_chapter(reply).map(|_| ());
    after_attempt(&outcome, delay)
}

#[test]
fn unavailable_chapter_is_retried_after_the_delay() {
    for _ in 0..3 {
        assert_eq!(attempt(Reply::Answered { status: 503, body: None }, 7), Attempt::RetryAfter(7));
    }
    let body = "<div id=\"chapter-container\"><p>x</p></div>".to_string();
    assert_eq!(attempt(Reply::Answered { status: 200, body: Some(body) }, 7), Attempt::Done);
}

#[test]
fn gone_then_missing_body_aborts() {
    assert_eq!(attempt(Reply::Answered { status: 410, body: None }, 2), Attempt::RetryAfter(2));
    let body = "<div><p>x</p></div>".to_string();
    assert_eq!(attempt(Reply::Answered { status: 200, body: Some(body) }, 2), Attempt::Abort);
}

#[test]
fn write_failure_aborts() {
    let outcome: Result<(), WriteError> = Err(WriteError::File(std::io::Error::new(std::io::ErrorKind::Other, "disk full")));
    assert_eq!(after_attempt(&outcome, 2), Attempt::Abort);
}

#[test]
fn unreachable_site_is_retried() {
    assert_eq!(attempt(Reply::Unreachable, 2), Attempt::RetryAfter(2));
}

#[test]
fn default_delay_is_two_seconds() {
    assert_eq!(DEFAULT_RETRY_DELAY, 2);
}
