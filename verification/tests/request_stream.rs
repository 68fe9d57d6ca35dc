use gofer::request_stream::{
    Action, Event, RequestStream, Wait, MAX_QUEUED_REQUESTS, MAX_SELECTOR_LENGTH,
};

#[test]
fn defaults() {
    assert_eq!(MAX_QUEUED_REQUESTS, 50);
    assert_eq!(MAX_SELECTOR_LENGTH, 1024);
}

#[test]
fn empty_stream_waits_for_connections_only() {
    let stream = RequestStream::new(2);
    assert_eq!(stream.next_step(), Wait { for_request: false, for_connection: true });
    assert_eq!(stream.max_reads(), 2);
}

#[test]
fn full_stream_waits_for_requests_only() {
    let mut stream = RequestStream::new(2);
    assert_eq!(
        stream.on_event(Event::Accepted),
        Action::Read { number: 0, max_length: 1024, dropped: None }
    );
    assert_eq!(stream.next_step(), Wait { for_request: true, for_connection: true });
    assert_eq!(
        stream.on_event(Event::Accepted),
        Action::Read { number: 1, max_length: 1024, dropped: None }
    );
    assert_eq!(stream.next_step(), Wait { for_request: true, for_connection: false });
}

#[test]
fn admission_to_a_full_stream_drops_the_oldest_read() {
    let mut stream = RequestStream::new(2);
    stream.on_event(Event::Accepted);
    stream.on_event(Event::Accepted);
    assert_eq!(
        stream.on_event(Event::Accepted),
        Action::Read { number: 2, max_length: 1024, dropped: Some(0) }
    );
    // What was dropped is not delivered, should it still finish.
    assert_eq!(stream.on_event(Event::Completed(0)), Action::Continue);
    assert_eq!(stream.on_event(Event::Completed(2)), Action::Deliver(2));
    assert_eq!(stream.on_event(Event::Completed(1)), Action::Deliver(1));
    assert_eq!(stream.next_step(), Wait { for_request: false, for_connection: true });
}

#[test]
fn failed_accept_changes_nothing() {
    let mut stream = RequestStream::new(3);
    stream.on_event(Event::Accepted);
    assert_eq!(stream.connections(), 1);
    assert_eq!(stream.on_event(Event::AcceptFailed), Action::Continue);
    assert_eq!(stream.connections(), 1);
    assert_eq!(stream.next_step(), Wait { for_request: true, for_connection: true });
    assert_eq!(
        stream.on_event(Event::Accepted),
        Action::Read { number: 1, max_length: 1024, dropped: None }
    );
}

#[test]
fn decoder_for_a_new_connection() {
    let stream = RequestStream::new(MAX_QUEUED_REQUESTS);
    let decoder = stream.decoder();
    assert!(!decoder.is_finished());
}
