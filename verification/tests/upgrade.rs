//! Upgraded streams.

use bytes::Bytes;
use vibeio_http::h3::upgrade::{ReadAction, ReadBuffer, SendTask};

#[test]
fn reads_are_cut_to_the_room_there_is() {
    let mut buffer = ReadBuffer::new();
    assert!(buffer.is_empty());
    assert_eq!(buffer.fill(Some(Bytes::new())), ReadAction::Receive);
    assert_eq!(
        buffer.fill(Some(Bytes::from_static(b"hello"))),
        ReadAction::Deliver
    );
    assert_eq!(&buffer.read(2)[..], b"he");
    assert!(!buffer.is_empty());
    assert_eq!(&buffer.read(10)[..], b"llo");
    assert!(buffer.is_empty());
    assert_eq!(buffer.fill(None), ReadAction::End);
}

#[test]
fn send_task_forwards_until_the_application_closes() {
    let mut task = SendTask::Waiting;
    task.on_received(true);
    assert_eq!(task, SendTask::Sending);
    task.on_done(true);
    assert_eq!(task, SendTask::Waiting);
    task.on_received(false);
    assert_eq!(task, SendTask::Finishing);
    task.on_done(true);
    assert_eq!(task, SendTask::Over { failed: false });
    task.on_received(true);
    assert_eq!(task, SendTask::Over { failed: false });

    let mut task = SendTask::Waiting;
    task.on_received(true);
    task.on_done(false);
    assert_eq!(task, SendTask::Over { failed: true });
}
