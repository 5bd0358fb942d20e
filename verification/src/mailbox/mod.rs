//! Messages and mailboxes.
//!
//! A message is copied to the heap of its receiver before it is queued. Arrived
//! messages are kept in a queue until the receiver looks at them; those that it
//! has looked at are kept in a list, in the order in which they arrived.

pub mod selective;

use crossbeam_queue::SegQueue;
use vstd::prelude::*;
use vstd::string::*;
use crate::heap::{after_copy, copy_term, decodes, extends, is_term, value_of, Heap, SendError};
use crate::text::{decimal_u64, nat_text};

verus! {

#[verifier::external_type_specification]
#[verifier::external_body]
#[verifier::reject_recursive_types(T)]
pub struct ExSegQueue<T>(SegQueue<T>);

/// What a queue of terms holds, the first to leave first.
pub uninterp spec fn queued(queue: SegQueue<i64>) -> Seq<i64>;

/// `SegQueue::new`: an empty queue.
#[verifier::external_body]
fn new_queue() -> (r: SegQueue<i64>)
    ensures
        queued(r) == Seq::<i64>::empty(),
{
    SegQueue::new()
}

/// `SegQueue::push`: adds a term behind the others.
#[verifier::external_body]
fn enqueue(queue: &mut SegQueue<i64>, term: i64)
    ensures
        queued(*final(queue)) == queued(*old(queue)).push(term),
{
    queue.push(term);
}

/// The first term of a queue, if there is one.
pub open spec fn front(queue: Seq<i64>) -> Option<i64> {
    if queue.len() == 0 {
        None
    } else {
        Some(queue[0])
    }
}

/// A queue without its first term.
pub open spec fn without_front(queue: Seq<i64>) -> Seq<i64> {
    if queue.len() == 0 {
        queue
    } else {
        queue.skip(1)
    }
}

/// `SegQueue::pop`: takes the first term, if there is one.
#[verifier::external_body]
fn dequeue(queue: &mut SegQueue<i64>) -> (r: Option<i64>)
    ensures
        r == front(queued(*old(queue))),
        queued(*final(queue)) == without_front(queued(*old(queue))),
{
    queue.pop()
}

/// `SegQueue::len`: how many terms are queued.
#[verifier::external_body]
fn queue_len(queue: &SegQueue<i64>) -> (r: usize)
    ensures
        r == queued(*queue).len(),
{
    queue.len()
}

/// The messages of a process.
#[derive(Debug)]
pub struct Mailbox {
    arrival: SegQueue<i64>,
    scan_list: Vec<i64>,
    save_pointer: usize,
}

/// A [`Mailbox`] with sequences in place of its containers.
#[verifier::ext_equal]
pub struct MailboxView {
    /// The messages that arrived and were not looked at.
    pub arrived: Seq<i64>,
    /// The messages that were looked at.
    pub scanned: Seq<i64>,
    /// Where to look next.
    pub save_pointer: nat,
}

impl View for Mailbox {
    type V = MailboxView;

    closed spec fn view(&self) -> MailboxView {
        MailboxView {
            arrived: queued(self.arrival),
            scanned: self.scan_list@,
            save_pointer: self.save_pointer as nat,
        }
    }
}

impl MailboxView {
    /// All messages, in the order in which they arrived.
    pub open spec fn messages(self) -> Seq<i64> {
        self.scanned + self.arrived
    }

    /// After one more message arrived.
    pub open spec fn with_arrival(self, message: i64) -> MailboxView {
        MailboxView { arrived: self.arrived.push(message), ..self }
    }

    /// After the arrived messages were moved to the others.
    pub open spec fn drained(self) -> MailboxView {
        MailboxView {
            arrived: Seq::empty(),
            scanned: self.messages(),
            save_pointer: self.save_pointer,
        }
    }

    /// The message to look at, if there is one.
    pub open spec fn current(self) -> Option<i64> {
        if self.save_pointer < self.messages().len() {
            Some(self.messages()[self.save_pointer as int])
        } else {
            None
        }
    }
}

/// The sentence for an error.
pub open spec fn send_error_text(error: SendError) -> Seq<char> {
    match error {
        SendError::HeapFull(full) => "heap full: requested "@ + nat_text(full.requested as nat)
            + " words, "@ + nat_text(full.available as nat) + " available"@,
        SendError::InvalidBoxedTerm => "invalid boxed term"@,
    }
}

impl SendError {
    /// The error as a sentence.
    pub fn describe(&self) -> (r: String)
        ensures
            r@ == send_error_text(*self),
    {
        match *self {
            SendError::HeapFull(full) => {
                let mut text = "heap full: requested ".to_owned();
                text.append(decimal_u64(full.requested as u64).as_str());
                text.append(" words, ");
                text.append(decimal_u64(full.available as u64).as_str());
                text.append(" available");
                text
            },
            SendError::InvalidBoxedTerm => "invalid boxed term".to_owned(),
        }
    }
}

impl Mailbox {
    /// An empty mailbox.
    pub fn new() -> (r: Mailbox)
        ensures
            r@ == (MailboxView { arrived: Seq::empty(), scanned: Seq::empty(), save_pointer: 0 }),
    {
        let r = Mailbox { arrival: new_queue(), scan_list: Vec::new(), save_pointer: 0 };
        assert(r@.scanned =~= Seq::empty());
        r
    }

    /// How many messages there are.
    pub fn message_count(&self) -> (r: usize)
        requires
            self@.messages().len() <= usize::MAX,
        ensures
            r == self@.messages().len(),
    {
        queue_len(&self.arrival) + self.scan_list.len()
    }

    /// Moves the arrived messages to those that were looked at.
    pub fn drain_arrival(&mut self)
        ensures
            final(self)@ == old(self)@.drained(),
    {
        let ghost all = self@.messages();
        let mut next: Option<i64> = dequeue(&mut self.arrival);
        loop
            invariant
                self.save_pointer == old(self).save_pointer,
                match next {
                    Some(message) => self.scan_list@.push(message) + queued(self.arrival) =~= all,
                    None => queued(self.arrival).len() == 0 && self.scan_list@ =~= all,
                },
            ensures
                self.save_pointer == old(self).save_pointer,
                queued(self.arrival).len() == 0,
                self.scan_list@ =~= all,
            decreases queued(self.arrival).len(), (next is Some) as int,
        {
            match next {
                None => {
                    break ;
                },
                Some(message) => {
                    self.scan_list.push(message);
                    next = dequeue(&mut self.arrival);
                },
            }
        }
        assert(self@.arrived =~= Seq::empty());
    }

    /// Copies a message to the heap of the receiver and queues the copy. Nothing
    /// is queued when it could not be copied.
    pub fn send(&mut self, source: &Heap, message: i64, receiver_heap: &mut Heap) -> (r: Result<
        (),
        SendError,
    >)
        requires
            source.wf(),
            old(receiver_heap).wf(),
            is_term(source@, message),
        ensures
            final(receiver_heap).wf(),
            final(receiver_heap).room() == old(receiver_heap).room(),
            extends(final(receiver_heap)@, old(receiver_heap)@),
            match after_copy(value_of(source@, message), old(receiver_heap).free()) {
                Ok(left) => {
                    &&& r is Ok
                    &&& final(receiver_heap).free() == left
                    &&& exists|copy: i64|
                        {
                            &&& #[trigger] decodes(
                                final(receiver_heap)@,
                                copy,
                                value_of(source@, message),
                            )
                            &&& final(self)@ == old(self)@.with_arrival(copy)
                        }
                },
                Err(e) => r == Err::<(), SendError>(e) && final(self)@ == old(self)@,
            },
    {
        let copied: i64 = copy_term(source, message, receiver_heap)?;
        enqueue(&mut self.arrival, copied);
        Ok(())
    }

    /// Queues a term that the receiver owns already.
    pub fn push_owned(&mut self, message: i64)
        ensures
            final(self)@ == old(self)@.with_arrival(message),
    {
        enqueue(&mut self.arrival, message);
    }

    /// The messages that were looked at.
    pub fn scanned(&self) -> (r: &Vec<i64>)
        ensures
            r@ == self@.scanned,
    {
        &self.scan_list
    }

    /// Where to look next.
    pub fn save_pointer(&self) -> (r: usize)
        ensures
            r == self@.save_pointer,
    {
        self.save_pointer
    }

    /// The message to look at, if there is one.
    pub fn current_message(&mut self) -> (r: Option<i64>)
        ensures
            r == old(self)@.current(),
            final(self)@ == old(self)@.drained(),
    {
        self.drain_arrival();
        if self.save_pointer < self.scan_list.len() {
            Some(self.scan_list[self.save_pointer])
        } else {
            None
        }
    }

    /// Goes on to the next message.
    pub fn advance_save_pointer(&mut self)
        ensures
            final(self)@ == (MailboxView {
                save_pointer: if old(self)@.save_pointer < old(self)@.scanned.len() {
                    old(self)@.save_pointer + 1
                } else {
                    old(self)@.save_pointer
                },
                ..old(self)@
            }),
    {
        if self.save_pointer < self.scan_list.len() {
            self.save_pointer = self.save_pointer + 1;
        }
    }

    /// Takes the message that is looked at out of the mailbox; the next look
    /// starts at the first message.
    pub fn remove_current_message(&mut self) -> (r: Option<i64>)
        ensures
            r == if old(self)@.save_pointer < old(self)@.scanned.len() {
                Some(old(self)@.scanned[old(self)@.save_pointer as int])
            } else {
                None::<i64>
            },
            final(self)@ == if old(self)@.save_pointer < old(self)@.scanned.len() {
                MailboxView {
                    scanned: old(self)@.scanned.remove(old(self)@.save_pointer as int),
                    save_pointer: 0,
                    ..old(self)@
                }
            } else {
                old(self)@
            },
    {
        if self.save_pointer < self.scan_list.len() {
            let message: i64 = self.scan_list.remove(self.save_pointer);
            self.save_pointer = 0;
            Some(message)
        } else {
            None
        }
    }

    /// Lets the next look start at the first message.
    pub fn reset_save_pointer(&mut self)
        ensures
            final(self)@ == (MailboxView { save_pointer: 0, ..old(self)@ }),
    {
        self.save_pointer = 0;
    }
}

/// Messages keep the order in which they arrived when they are looked at.
pub proof fn law_looking_keeps_the_order(mailbox: MailboxView, message: i64)
    ensures
        mailbox.drained().messages() == mailbox.messages(),
        mailbox.with_arrival(message).messages()
            == mailbox.messages().push(message),
{
    assert(mailbox.drained().messages() =~= mailbox.messages());
    assert(mailbox.with_arrival(message).messages()
        =~= mailbox.messages().push(message));
}

} // verus!
