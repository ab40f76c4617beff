use minsec::control::{Response, TIMEOUT_SECS};

#[test]
fn response_constructors() {
    let r = Response::ok();
    assert!(r.ok && r.error.is_none() && r.message.is_none() && r.status.is_none());
    let r = Response::message("banned 10.0.0.1".to_string());
    assert!(r.ok);
    assert_eq!(r.message.as_deref(), Some("banned 10.0.0.1"));
    let r = Response::err("nope".to_string());
    assert!(!r.ok);
    assert_eq!(r.error.as_deref(), Some("nope"));
    assert!(r.message.is_none() && r.bans.is_none() && r.filters.is_none());
    let d = Response::default();
    assert!(!d.ok && d.error.is_none());
    assert_eq!(TIMEOUT_SECS, 5);
}

#[test]
fn finish_reports_message_or_error() {
    assert_eq!(Response::ok().finish(), Ok(None));
    assert_eq!(Response::message("done".to_string()).finish(), Ok(Some("done".to_string())));
    assert_eq!(Response::err("no such ban".to_string()).finish(), Err("no such ban".to_string()));
    assert_eq!(Response::default().finish(), Err(String::new()));
}
