//! Messages: what compiled code calls for them.

use vstd::prelude::*;
use crate::atom::Atom;
use crate::mailbox::{Mailbox, MailboxView};
use crate::term::{small_value, small_value_of};

verus! {

pub const RECEIVE_STATUS_MESSAGE: u8 = 0;

pub const RECEIVE_STATUS_EMPTY: u8 = 1;

pub const WAIT_STATUS_NEW_MESSAGE: u8 = 0;

pub const WAIT_STATUS_TIMEOUT: u8 = 1;

pub const WAIT_STATUS_WAITING: u8 = 2;

/// What a process is doing.
#[derive(Debug, Clone, Copy, PartialEq, Eq, Structural)]
pub enum ProcessStatus {
    New,
    Running,
    Waiting,
    Exited,
}

/// Where a process is in its code.
#[derive(Debug, Clone, Copy, PartialEq, Eq, Structural)]
pub struct CodePosition {
    pub module: Atom,
    pub instruction_pointer: usize,
}

/// After how long, and where, a process goes on that no message reaches.
#[derive(Debug, Clone, Copy, PartialEq, Eq, Structural)]
pub struct ReceiveTimeout {
    pub timeout_position: CodePosition,
    pub milliseconds: u64,
}

/// What of a process sending and receiving is about.
#[derive(Debug)]
pub struct Receiver {
    pub pid: u64,
    pub status: ProcessStatus,
    pub mailbox: Mailbox,
    pub code_position: Option<CodePosition>,
    pub timeout: Option<ReceiveTimeout>,
    /// The timer that runs for the timeout.
    pub timer: Option<u64>,
    /// Whether the process has asked to yield.
    pub yields: bool,
}

/// A [`Receiver`] with a view of its mailbox.
#[verifier::ext_equal]
pub struct ReceiverView {
    pub pid: u64,
    pub status: ProcessStatus,
    pub mailbox: MailboxView,
    pub code_position: Option<CodePosition>,
    pub timeout: Option<ReceiveTimeout>,
    pub timer: Option<u64>,
    pub yields: bool,
}

impl View for Receiver {
    type V = ReceiverView;

    open spec fn view(&self) -> ReceiverView {
        ReceiverView {
            pid: self.pid,
            status: self.status,
            mailbox: self.mailbox@,
            code_position: self.code_position,
            timeout: self.timeout,
            timer: self.timer,
            yields: self.yields,
        }
    }
}

/// What a process is doing once it waits: a new one runs first, and one that has
/// exited stays so.
pub open spec fn waiting(status: ProcessStatus) -> ProcessStatus {
    match status {
        ProcessStatus::Exited => ProcessStatus::Exited,
        _ => ProcessStatus::Waiting,
    }
}

/// What a term says of how long to wait: a number of milliseconds, if it is one.
pub open spec fn milliseconds_of(timeout: i64) -> Option<u64> {
    match small_value_of(timeout) {
        Some(value) => if value >= 0 {
            Some(value as u64)
        } else {
            None
        },
        None => None,
    }
}

impl ReceiverView {
    /// After a message was sent: one to the process itself is queued, and wakes
    /// it; any other is dropped.
    pub open spec fn sent(self, dest: Option<u64>, message: i64) -> ReceiverView {
        if dest == Some(self.pid) {
            ReceiverView {
                mailbox: self.mailbox.with_arrival(message),
                status: if self.status is Waiting {
                    ProcessStatus::Running
                } else {
                    self.status
                },
                ..self
            }
        } else {
            self
        }
    }

    /// After the arrived messages were looked through.
    pub open spec fn looked(self) -> ReceiverView {
        ReceiverView { mailbox: self.mailbox.drained(), ..self }
    }

    /// After the process went on to the next message.
    pub open spec fn passed(self) -> ReceiverView {
        ReceiverView {
            mailbox: MailboxView {
                save_pointer: if self.mailbox.save_pointer < self.mailbox.scanned.len() {
                    self.mailbox.save_pointer + 1
                } else {
                    self.mailbox.save_pointer
                },
                ..self.mailbox
            },
            ..self
        }
    }

    /// After the message that is looked at was taken out.
    pub open spec fn accepted(self) -> ReceiverView {
        ReceiverView {
            mailbox: if self.mailbox.save_pointer < self.mailbox.scanned.len() {
                MailboxView {
                    scanned: self.mailbox.scanned.remove(self.mailbox.save_pointer as int),
                    save_pointer: 0,
                    ..self.mailbox
                }
            } else {
                self.mailbox
            },
            ..self
        }.untimed()
    }

    /// After a timeout was over.
    pub open spec fn timed_out(self) -> ReceiverView {
        ReceiverView {
            mailbox: MailboxView { save_pointer: 0, ..self.mailbox },
            ..self
        }.untimed()
    }

    /// After the process began to wait.
    pub open spec fn put_to_wait(self) -> ReceiverView {
        ReceiverView { status: waiting(self.status), yields: true, ..self }
    }

    /// Without timeout.
    pub open spec fn untimed(self) -> ReceiverView {
        ReceiverView { timeout: None, timer: None, ..self }
    }

    /// With a timeout, if the process knows where it is in its code.
    pub open spec fn timed(self, milliseconds: u64) -> ReceiverView {
        match self.code_position {
            Some(timeout_position) => ReceiverView {
                timeout: Some(ReceiveTimeout { timeout_position, milliseconds }),
                timer: None,
                ..self
            },
            None => self,
        }
    }

    /// What waiting answers, and the process after it. It does not wait when
    /// there is a message to look at.
    pub open spec fn wait(self) -> (u8, ReceiverView) {
        if self.mailbox.current() is Some {
            (WAIT_STATUS_NEW_MESSAGE, self.looked())
        } else {
            (WAIT_STATUS_WAITING, self.looked().put_to_wait())
        }
    }

    /// What waiting with a timeout answers, and the process after it. A timeout
    /// of zero is over at once.
    pub open spec fn wait_timeout(self, timeout: i64) -> (u8, ReceiverView) {
        if self.mailbox.current() is Some {
            (WAIT_STATUS_NEW_MESSAGE, self.looked())
        } else {
            match milliseconds_of(timeout) {
                Some(milliseconds) => if milliseconds == 0 {
                    (WAIT_STATUS_TIMEOUT, self.looked())
                } else {
                    (WAIT_STATUS_WAITING, self.looked().timed(milliseconds).put_to_wait())
                },
                None => (WAIT_STATUS_WAITING, self.looked().put_to_wait()),
            }
        }
    }
}

impl Receiver {
    /// Sends a message; answers it.
    pub fn send_message(&mut self, dest: Option<u64>, message: i64) -> (r: i64)
        ensures
            r == message,
            final(self)@ == old(self)@.sent(dest, message),
    {
        if let Some(pid) = dest {
            if pid == self.pid {
                self.mailbox.push_owned(message);
                if self.status == ProcessStatus::Waiting {
                    self.status = ProcessStatus::Running;
                }
            }
        }
        message
    }

    /// The message to look at, if there is one.
    pub fn receive_peek(&mut self) -> (r: (u8, i64))
        ensures
            r == match old(self)@.mailbox.current() {
                Some(message) => (RECEIVE_STATUS_MESSAGE, message),
                None => (RECEIVE_STATUS_EMPTY, 0i64),
            },
            final(self)@ == old(self)@.looked(),
    {
        match self.mailbox.current_message() {
            Some(message) => (RECEIVE_STATUS_MESSAGE, message),
            None => (RECEIVE_STATUS_EMPTY, 0),
        }
    }

    /// Goes on to the next message.
    pub fn receive_next(&mut self)
        ensures
            final(self)@ == old(self)@.passed(),
    {
        self.mailbox.advance_save_pointer();
    }

    /// Takes the message that matched out of the mailbox.
    pub fn receive_accept(&mut self)
        ensures
            final(self)@ == old(self)@.accepted(),
    {
        let _ = self.mailbox.remove_current_message();
        self.timeout = None;
        self.timer = None;
    }

    fn wait_for_message(&mut self)
        ensures
            final(self)@ == old(self)@.put_to_wait(),
    {
        if self.status == ProcessStatus::New {
            self.status = ProcessStatus::Running;
        }
        if self.status == ProcessStatus::Running {
            self.status = ProcessStatus::Waiting;
        }
        self.yields = true;
    }

    /// Waits for a message, unless there is one to look at.
    pub fn receive_wait(&mut self) -> (r: u8)
        ensures
            (r, final(self)@) == old(self)@.wait(),
    {
        if self.mailbox.current_message().is_some() {
            return WAIT_STATUS_NEW_MESSAGE;
        }
        self.wait_for_message();
        WAIT_STATUS_WAITING
    }

    /// Waits for a message, for as long as a term says, unless there is one to
    /// look at.
    pub fn receive_wait_timeout(&mut self, timeout: i64) -> (r: u8)
        ensures
            (r, final(self)@) == old(self)@.wait_timeout(timeout),
    {
        if self.mailbox.current_message().is_some() {
            return WAIT_STATUS_NEW_MESSAGE;
        }
        if let Some(value) = small_value(timeout) {
            if value == 0 {
                return WAIT_STATUS_TIMEOUT;
            }
            if value > 0 {
                if let Some(timeout_position) = self.code_position {
                    self.timeout = Some(
                        ReceiveTimeout { timeout_position, milliseconds: value as u64 },
                    );
                    self.timer = None;
                }
            }
        }
        self.wait_for_message();
        WAIT_STATUS_WAITING
    }

    /// Lets the next receive start at the first message, once a timeout is over.
    pub fn receive_timeout(&mut self)
        ensures
            final(self)@ == old(self)@.timed_out(),
    {
        self.mailbox.reset_save_pointer();
        self.timeout = None;
        self.timer = None;
    }
}

/// A process that sends itself a message while it waits runs again and does not
/// wait for another.
pub proof fn law_own_message_ends_waiting(receiver: ReceiverView, message: i64)
    requires
        receiver.mailbox.save_pointer <= receiver.mailbox.messages().len(),
    ensures
        receiver.status is Waiting ==> receiver.sent(Some(receiver.pid), message).status is Running,
        receiver.sent(Some(receiver.pid), message).wait().0 == WAIT_STATUS_NEW_MESSAGE,
{
    crate::mailbox::law_looking_keeps_the_order(receiver.mailbox, message);
}

/// A process after it looked at a number of messages and passed each over.
pub open spec fn passed_over(receiver: ReceiverView, count: nat) -> ReceiverView
    decreases count,
{
    if count == 0 {
        receiver
    } else {
        passed_over(receiver, (count - 1) as nat).looked().passed()
    }
}

proof fn lemma_passed_over(receiver: ReceiverView, count: nat)
    requires
        receiver.mailbox.save_pointer == 0,
        count <= receiver.mailbox.messages().len(),
    ensures
        ({
            let later = passed_over(receiver, count);
            &&& later.mailbox.messages() == receiver.mailbox.messages()
            &&& later.mailbox.save_pointer == count
            &&& later.pid == receiver.pid
            &&& later.status == receiver.status
            &&& later.code_position == receiver.code_position
            &&& later.timeout == receiver.timeout
            &&& later.timer == receiver.timer
            &&& later.yields == receiver.yields
        }),
    decreases count,
{
    if count > 0 {
        lemma_passed_over(receiver, (count - 1) as nat);
        let before = passed_over(receiver, (count - 1) as nat);
        assert(before.looked().mailbox.messages() =~= before.mailbox.messages());
        assert(before.looked().passed().mailbox.messages() =~= before.mailbox.messages());
    }
}

/// A receive looks at the messages in the order in which they came. When it passes
/// some over and takes the next, that one is gone, all others are there in their
/// order, the next receive starts at the first, and no timeout runs any more.
pub proof fn law_receive_takes_the_message_that_matched(receiver: ReceiverView, count: nat)
    requires
        receiver.mailbox.save_pointer == 0,
        count < receiver.mailbox.messages().len(),
    ensures
        ({
            let messages = receiver.mailbox.messages();
            let found = passed_over(receiver, count);
            let left = found.looked().accepted();
            &&& found.mailbox.current() == Some(messages[count as int])
            &&& left.mailbox.messages() == messages.remove(count as int)
            &&& left.mailbox.save_pointer == 0
            &&& left.timeout is None
            &&& left.timer is None
            &&& left.pid == receiver.pid
            &&& left.status == receiver.status
            &&& left.code_position == receiver.code_position
            &&& left.yields == receiver.yields
        }),
{
    lemma_passed_over(receiver, count);
    let found = passed_over(receiver, count);
    let left = found.looked().accepted();
    assert(left.mailbox.messages() =~= receiver.mailbox.messages().remove(count as int));
}

/// A mailbox of one message is empty after a receive that matched it.
pub proof fn law_only_message_leaves_the_mailbox_empty(receiver: ReceiverView, message: i64)
    requires
        receiver.mailbox.save_pointer == 0,
        receiver.mailbox.messages() == seq![message],
    ensures
        receiver.mailbox.current() == Some(message),
        receiver.looked().accepted().mailbox.messages().len() == 0,
        receiver.looked().accepted().mailbox.current() is None,
{
    law_receive_takes_the_message_that_matched(receiver, 0);
    assert(passed_over(receiver, 0) == receiver);
}

/// A receive that passed every message over has none to look at and lost none; when
/// its time is up, the next receive starts at the first message again, and no
/// timeout runs any more.
pub proof fn law_receive_that_matched_nothing_keeps_all(receiver: ReceiverView)
    requires
        receiver.mailbox.save_pointer == 0,
    ensures
        ({
            let messages = receiver.mailbox.messages();
            let searched = passed_over(receiver, messages.len());
            let over = searched.timed_out();
            &&& searched.mailbox.current() is None
            &&& over.mailbox.messages() == messages
            &&& over.mailbox.save_pointer == 0
            &&& over.timeout is None
            &&& over.timer is None
            &&& over.pid == receiver.pid
            &&& over.status == receiver.status
            &&& over.code_position == receiver.code_position
            &&& over.yields == receiver.yields
        }),
{
    lemma_passed_over(receiver, receiver.mailbox.messages().len());
}

/// A message to another process, or to none, changes nothing here; one to the process
/// itself is the last of its messages.
pub proof fn law_message_goes_to_its_receiver(
    receiver: ReceiverView,
    dest: Option<u64>,
    message: i64,
)
    ensures
        dest == Some(receiver.pid) ==> receiver.sent(dest, message).mailbox.messages()
            == receiver.mailbox.messages().push(message),
        dest != Some(receiver.pid) ==> receiver.sent(dest, message) == receiver,
{
    crate::mailbox::law_looking_keeps_the_order(receiver.mailbox, message);
}

/// Waiting answers 0 at once, and changes neither messages nor timeout, while there is
/// a message to look at; otherwise it answers 2, and the process waits and has asked
/// to yield, unless it has exited.
pub proof fn law_waiting_is_for_a_message(receiver: ReceiverView)
    ensures
        ({
            let (status, later) = receiver.wait();
            &&& later.mailbox.messages() == receiver.mailbox.messages()
            &&& later.mailbox.save_pointer == receiver.mailbox.save_pointer
            &&& later.timeout == receiver.timeout
            &&& later.timer == receiver.timer
            &&& if receiver.mailbox.save_pointer < receiver.mailbox.messages().len() {
                status == 0 && later.status == receiver.status && later.yields == receiver.yields
            } else {
                status == 2 && later.yields && (receiver.status is Exited <==> later.status
                    is Exited) && (later.status is Waiting || later.status is Exited)
            }
        }),
{
    assert(receiver.mailbox.drained().messages() =~= receiver.mailbox.messages());
}

/// Waiting for a time that is given answers 0 while there is a message to look at; else
/// 1 for no time at all, and 2 for any other: the process then waits, and goes on
/// where it is in its code after as many milliseconds as the term says. A term that is
/// no such number is waited for without an end.
pub proof fn law_timed_waiting_ends(receiver: ReceiverView, milliseconds: int, position: CodePosition)
    requires
        0 <= milliseconds < 0x1000_0000_0000_0000,
        receiver.code_position == Some(position),
    ensures
        ({
            let (status, later) = receiver.wait_timeout((8 * milliseconds) as i64);
            &&& later.mailbox.messages() == receiver.mailbox.messages()
            &&& if receiver.mailbox.save_pointer < receiver.mailbox.messages().len() {
                status == 0 && later.timeout == receiver.timeout && later.status == receiver.status
            } else if milliseconds == 0 {
                status == 1 && later.timeout == receiver.timeout && later.status == receiver.status
            } else {
                status == 2 && later.timeout == Some(
                    ReceiveTimeout {
                        timeout_position: position,
                        milliseconds: milliseconds as u64,
                    },
                ) && later.timer is None && later.yields && (later.status is Waiting
                    || receiver.status is Exited)
            }
        }),
{
    assert(receiver.mailbox.drained().messages() =~= receiver.mailbox.messages());
    assert(small_value_of((8 * milliseconds) as i64) == Some(milliseconds as i64));
}

} // verus!
