use librqbit::instances::fd_passing::{
    first_passed_fd, recv_fd_step, send_fd_step, AncillaryMessage, RecvOutcome, RecvStep,
    SendOutcome, SendStep,
};
use librqbit::instances::prefixed_reader::PrefixedReader;
use librqbit::instances::ForwardMode;

#[test]
fn sockets_are_handed_over_by_default() {
    assert_eq!(ForwardMode::default(), ForwardMode::FdPass);
}

#[test]
fn the_prefix_comes_first_and_in_order() {
    let mut reader = PrefixedReader::new(vec![1, 2, 3, 4, 5], "rest");
    assert_eq!(reader.poll_read(2), Some(vec![1, 2]));
    assert_eq!(reader.poll_read(0), Some(vec![]));
    assert_eq!(reader.poll_read(10), Some(vec![3, 4, 5]));
    assert_eq!(reader.poll_read(10), None);
    assert_eq!(*reader.reader_mut(), "rest");
    *reader.reader_mut() = "end";
    assert_eq!(*reader.reader_mut(), "end");
}

#[test]
fn without_a_prefix_the_stream_is_read_at_once() {
    let mut reader = PrefixedReader::new(vec![], 7u8);
    assert_eq!(reader.poll_read(1), None);
    assert_eq!(*reader.reader_mut(), 7);
}

#[test]
fn sending_is_tried_again_only_when_the_socket_was_full() {
    assert_eq!(send_fd_step(SendOutcome::Sent), SendStep::Done);
    assert_eq!(send_fd_step(SendOutcome::WouldBlock), SendStep::Retry);
    assert_eq!(send_fd_step(SendOutcome::Failed(32)), SendStep::Fail(32));
}

#[test]
fn the_first_descriptor_is_taken() {
    assert_eq!(
        recv_fd_step(&RecvOutcome::Received(vec![
            AncillaryMessage::Other,
            AncillaryMessage::ScmRights(vec![]),
            AncillaryMessage::ScmRights(vec![7, 8]),
            AncillaryMessage::ScmRights(vec![9]),
        ])),
        RecvStep::Take(7)
    );
    assert_eq!(
        recv_fd_step(&RecvOutcome::Received(vec![AncillaryMessage::Other])),
        RecvStep::NoDescriptor
    );
    assert_eq!(
        recv_fd_step(&RecvOutcome::Received(vec![])),
        RecvStep::NoDescriptor
    );
    assert_eq!(recv_fd_step(&RecvOutcome::WouldBlock), RecvStep::Retry);
    assert_eq!(recv_fd_step(&RecvOutcome::Failed(9)), RecvStep::Fail(9));
    assert_eq!(first_passed_fd(&vec![AncillaryMessage::ScmRights(vec![])]), None);
}
