//! Handing a TCP socket over by its descriptor.

use vstd::prelude::*;

verus! {

/// An ancillary message that came with the sentinel byte.
#[derive(Debug)]
pub enum AncillaryMessage {
    /// `SCM_RIGHTS`: descriptors, now open in this process.
    ScmRights(Vec<i32>),
    /// Anything else.
    Other,
}

impl AncillaryMessage {
    /// The first descriptor that the message brings.
    pub open spec fn fd(self) -> Option<i32> {
        match self {
            AncillaryMessage::ScmRights(fds) => if fds.len() > 0 {
                Some(fds[0])
            } else {
                None
            },
            AncillaryMessage::Other => None,
        }
    }
}

/// The first descriptor that any of the messages brings.
pub open spec fn first_fd(messages: Seq<AncillaryMessage>) -> Option<i32>
    decreases messages.len(),
{
    if messages.len() == 0 {
        None
    } else if messages[0].fd() is Some {
        messages[0].fd()
    } else {
        first_fd(messages.skip(1))
    }
}

/// The first descriptor that any of the messages brings.
pub fn first_passed_fd(messages: &Vec<AncillaryMessage>) -> (r: Option<i32>)
    ensures
        r == first_fd(messages@),
{
    let n: usize = messages.len();
    assert(messages@.skip(0) == messages@);
    for i in 0..n
        invariant
            n == messages.len(),
            first_fd(messages@) == first_fd(messages@.skip(i as int)),
    {
        assert(messages@.skip(i as int)[0] == messages[i as int]);
        assert(messages@.skip(i as int).skip(1) == messages@.skip(i + 1));
        if let AncillaryMessage::ScmRights(fds) = &messages[i] {
            if fds.len() > 0 {
                return Some(fds[0]);
            }
        }
    }
    None
}

/// How sending a descriptor went.
#[derive(Clone, Copy, Debug, PartialEq, Eq, Structural)]
pub enum SendOutcome {
    Sent,
    /// The socket could not take the message yet.
    WouldBlock,
    /// The system refused, with this error number.
    Failed(i32),
}

/// What the sender does next.
#[derive(Clone, Copy, Debug, PartialEq, Eq, Structural)]
pub enum SendStep {
    Done,
    /// Wait until the socket is writable, and send again.
    Retry,
    Fail(i32),
}

/// What the sender does next.
pub fn send_fd_step(outcome: SendOutcome) -> (step: SendStep)
    ensures
        step == match outcome {
            SendOutcome::Sent => SendStep::Done,
            SendOutcome::WouldBlock => SendStep::Retry,
            SendOutcome::Failed(errno) => SendStep::Fail(errno),
        },
{
    match outcome {
        SendOutcome::Sent => SendStep::Done,
        SendOutcome::WouldBlock => SendStep::Retry,
        SendOutcome::Failed(errno) => SendStep::Fail(errno),
    }
}

/// How receiving a descriptor went.
#[derive(Debug)]
pub enum RecvOutcome {
    Received(Vec<AncillaryMessage>),
    /// Nothing has arrived yet.
    WouldBlock,
    /// The system refused, with this error number.
    Failed(i32),
}

/// What the receiver does next.
#[derive(Clone, Copy, Debug, PartialEq, Eq, Structural)]
pub enum RecvStep {
    /// Take this descriptor for the forwarded connection.
    Take(i32),
    /// Wait until the socket is readable, and receive again.
    Retry,
    /// The message arrived without a descriptor.
    NoDescriptor,
    Fail(i32),
}

/// What the receiver does next.
pub fn recv_fd_step(outcome: &RecvOutcome) -> (step: RecvStep)
    ensures
        step == match *outcome {
            RecvOutcome::Received(messages) => match first_fd(messages@) {
                Some(fd) => RecvStep::Take(fd),
                None => RecvStep::NoDescriptor,
            },
            RecvOutcome::WouldBlock => RecvStep::Retry,
            RecvOutcome::Failed(errno) => RecvStep::Fail(errno),
        },
{
    match outcome {
        RecvOutcome::Received(messages) => match first_passed_fd(messages) {
            Some(fd) => RecvStep::Take(fd),
            None => RecvStep::NoDescriptor,
        },
        RecvOutcome::WouldBlock => RecvStep::Retry,
        RecvOutcome::Failed(errno) => RecvStep::Fail(*errno),
    }
}

/// No descriptor is found exactly when no `SCM_RIGHTS` message holds one.
/// Otherwise the one found is the first in a message before which none holds
/// any.
pub proof fn law_first_descriptor_is_taken(messages: Seq<AncillaryMessage>)
    ensures
        first_fd(messages) is None <==> forall|i: int|
            0 <= i < messages.len() ==> (#[trigger] messages[i] matches AncillaryMessage::ScmRights(
                fds,
            ) ==> fds.len() == 0),
        first_fd(messages) matches Some(fd) ==> exists|k: int|
            #![trigger messages[k]]
            0 <= k < messages.len() && (messages[k] matches AncillaryMessage::ScmRights(fds)
                && fds.len() > 0 && fds[0] == fd) && forall|j: int|
                0 <= j < k ==> (#[trigger] messages[j] matches AncillaryMessage::ScmRights(fds)
                    ==> fds.len() == 0),
    decreases messages.len(),
{
    if messages.len() > 0 {
        let rest = messages.skip(1);
        law_first_descriptor_is_taken(rest);
        assert forall|i: int| 0 <= i < rest.len() implies #[trigger] rest[i] == messages[i + 1] by {}
        if messages[0].fd() is Some {
            assert(messages[0] matches AncillaryMessage::ScmRights(fds) && fds.len() > 0);
        } else {
            if first_fd(rest) is None {
                assert forall|i: int| 0 <= i < messages.len() implies (
                #[trigger] messages[i] matches AncillaryMessage::ScmRights(fds) ==> fds.len()
                    == 0) by {
                    if i > 0 {
                        assert(rest[i - 1] == messages[i]);
                    }
                }
            } else {
                let fd = first_fd(rest)->0;
                let k = choose|k: int|
                    #![trigger rest[k]]
                    0 <= k < rest.len() && (rest[k] matches AncillaryMessage::ScmRights(fds)
                        && fds.len() > 0 && fds[0] == fd) && forall|j: int|
                        0 <= j < k ==> (#[trigger] rest[j] matches AncillaryMessage::ScmRights(fds)
                            ==> fds.len() == 0);
                assert(rest[k] == messages[k + 1]);
                assert forall|j: int| 0 <= j < k + 1 implies (
                #[trigger] messages[j] matches AncillaryMessage::ScmRights(fds) ==> fds.len()
                    == 0) by {
                    if j > 0 {
                        assert(rest[j - 1] == messages[j]);
                    }
                }
            }
        }
    }
}

/// The one message with the one descriptor that a sender sends leads to that
/// descriptor, whatever empty or other messages come before it and whatever
/// comes behind it.
pub proof fn law_sent_descriptor_is_taken(
    before: Seq<AncillaryMessage>,
    sent: AncillaryMessage,
    behind: Seq<AncillaryMessage>,
    fd: i32,
)
    requires
        sent matches AncillaryMessage::ScmRights(fds) && fds@ == seq![fd],
        forall|i: int|
            0 <= i < before.len() ==> (#[trigger] before[i] matches AncillaryMessage::ScmRights(fds)
                ==> fds.len() == 0),
    ensures
        first_fd(before + seq![sent] + behind) == Some(fd),
{
    let all = before + seq![sent] + behind;
    law_first_descriptor_is_taken(all);
    let n = before.len() as int;
    assert(all[n] == sent);
    assert(sent matches AncillaryMessage::ScmRights(fds) && fds.len() == 1 && fds@[0] == fd);
    let found = first_fd(all)->0;
    let k = choose|k: int|
        #![trigger all[k]]
        0 <= k < all.len() && (all[k] matches AncillaryMessage::ScmRights(fds) && fds.len() > 0
            && fds[0] == found) && forall|j: int|
            0 <= j < k ==> (#[trigger] all[j] matches AncillaryMessage::ScmRights(fds)
                ==> fds.len() == 0);
    if k < n {
        assert(all[k] == before[k]);
    } else if k > n {
        assert(all[n] matches AncillaryMessage::ScmRights(fds) ==> fds.len() == 0);
    }
}

} // verus!
