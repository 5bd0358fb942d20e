//! Receiving the first message that matches.

use vstd::prelude::*;
use super::{Mailbox, MailboxView};

verus! {

/// Whether a message is the first from a place on that the function accepts: it
/// has been asked for those before it and has accepted none.
pub open spec fn first_match<F: Fn(i64) -> bool>(
    matches: F,
    messages: Seq<i64>,
    start: int,
    index: int,
) -> bool {
    &&& start <= index < messages.len()
    &&& call_ensures(matches, (messages[index],), true)
    &&& forall|j: int| start <= j < index ==> call_ensures(matches, (#[trigger] messages[j],), false)
}

/// Where a receiver starts to look: where it stopped, or at the end.
pub open spec fn scan_start(mailbox: MailboxView) -> int {
    if mailbox.save_pointer <= mailbox.messages().len() {
        mailbox.save_pointer as int
    } else {
        mailbox.messages().len() as int
    }
}

/// Takes the first message out of the mailbox that the function accepts, of
/// those that it has not refused before. The others keep their order.
pub fn receive<F: Fn(i64) -> bool>(mailbox: &mut Mailbox, matches: F) -> (r: Option<i64>)
    requires
        forall|message: i64| call_requires(matches, (message,)),
    ensures
        match r {
            Some(message) => exists|index: int|
                {
                    &&& #[trigger] first_match(
                        matches,
                        old(mailbox)@.messages(),
                        scan_start(old(mailbox)@),
                        index,
                    )
                    &&& message == old(mailbox)@.messages()[index]
                    &&& final(mailbox)@ == (MailboxView {
                        arrived: Seq::empty(),
                        scanned: old(mailbox)@.messages().remove(index),
                        save_pointer: 0,
                    })
                },
            None => {
                &&& forall|j: int|
                    scan_start(old(mailbox)@) <= j < old(mailbox)@.messages().len()
                        ==> call_ensures(matches, (#[trigger] old(mailbox)@.messages()[j],), false)
                &&& final(mailbox)@ == (MailboxView {
                    arrived: Seq::empty(),
                    scanned: old(mailbox)@.messages(),
                    save_pointer: old(mailbox)@.messages().len(),
                })
            },
        },
{
    mailbox.drain_arrival();
    let ghost all = old(mailbox)@.messages();
    let ghost start = scan_start(old(mailbox)@);
    let mut index: usize = if mailbox.save_pointer <= mailbox.scan_list.len() {
        mailbox.save_pointer
    } else {
        mailbox.scan_list.len()
    };
    while index < mailbox.scan_list.len()
        invariant
            start <= index <= all.len(),
            start == scan_start(old(mailbox)@),
            all == old(mailbox)@.messages(),
            mailbox@.scanned == all,
            mailbox@.arrived == Seq::<i64>::empty(),
            forall|message: i64| call_requires(matches, (message,)),
            forall|j: int| start <= j < index ==> call_ensures(matches, (#[trigger] all[j],), false),
        decreases all.len() - index,
    {
        let message: i64 = mailbox.scan_list[index];
        if matches(message) {
            mailbox.scan_list.remove(index);
            mailbox.save_pointer = 0;
            assert(first_match(matches, all, start, index as int));
            return Some(message);
        }
        index += 1;
    }
    mailbox.save_pointer = mailbox.scan_list.len();
    None
}

} // verus!
