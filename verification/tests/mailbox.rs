use beamr::heap::{copy_term, Heap, HeapFull, SendError};
use beamr::mailbox::selective::receive;
use beamr::mailbox::Mailbox;
use beamr::term::{
    small_term, small_value, BOXED_TAG, FLOAT_HEADER_TAG, LIST_TAG, MAP_HEADER_TAG,
    NIL_TERM, TUPLE_HEADER_TAG,
};
use std::cell::RefCell;

fn small(value: i64) -> i64 {
    small_term(value).expect("test value is a small integer")
}

fn header(tag: i64, size: usize) -> i64 {
    ((size as i64) << 8) | tag
}

fn allocate_tuple(heap: &mut Heap, elements: &[i64]) -> i64 {
    heap.alloc_boxed(
        header(TUPLE_HEADER_TAG, elements.len()),
        &Vec::new(),
        &elements.to_vec(),
    )
    .expect("test allocation should fit")
}

fn allocate_cons(heap: &mut Heap, head: i64, tail: i64) -> i64 {
    heap.alloc_cons(head, tail)
        .expect("test allocation should fit")
}

fn position(term: i64) -> usize {
    (term >> 3) as usize
}

fn word(heap: &Heap, at: usize) -> i64 {
    heap.word(at).expect("word is on the heap")
}

/// Whether terms of two heaps stand for the same value.
fn same(left: &Heap, a: i64, right: &Heap, b: i64) -> bool {
    if a & 7 != b & 7 {
        return false;
    }
    let (at, other) = (position(a), position(b));
    if a & 7 == LIST_TAG {
        (0..2).all(|i| same(left, word(left, at + i), right, word(right, other + i)))
    } else if a & 7 == BOXED_TAG {
        let arity = word(left, at) >> 8;
        assert_eq!(word(left, at) & 0xff, TUPLE_HEADER_TAG);
        word(left, at) == word(right, other)
            && (1..=arity as usize)
                .all(|i| same(left, word(left, at + i), right, word(right, other + i)))
    } else {
        a == b
    }
}

fn value(term: i64) -> i64 {
    small_value(term).expect("test message should be small int")
}

fn send(mailbox: &mut Mailbox, number: i64, receiver_heap: &mut Heap) {
    let source = Heap::new(0);
    mailbox
        .send(&source, small(number), receiver_heap)
        .expect("send should copy immediate");
}

fn mailbox_with_values(values: impl IntoIterator<Item = i64>) -> Mailbox {
    let mut mailbox = Mailbox::new();
    let mut receiver_heap = Heap::new(64);
    for value in values {
        send(&mut mailbox, value, &mut receiver_heap);
    }
    mailbox.drain_arrival();
    mailbox
}

fn scan_values(mailbox: &Mailbox) -> Vec<i64> {
    mailbox.scanned().iter().map(|term| value(*term)).collect()
}

#[test]
fn a_new_mailbox_is_empty() {
    let mailbox = Mailbox::new();
    assert_eq!(mailbox.message_count(), 0);
    assert_eq!(mailbox.scanned().len(), 0);
    assert_eq!(mailbox.save_pointer(), 0);
}

#[test]
fn send_small_integer_arrives_with_same_value() {
    let mut mailbox = Mailbox::new();
    let mut receiver_heap = Heap::new(8);

    send(&mut mailbox, 42, &mut receiver_heap);

    mailbox.drain_arrival();
    assert_eq!(mailbox.message_count(), 1);
    assert_eq!(mailbox.scanned().first().copied(), Some(small(42)));
}

#[test]
fn message_count_and_drain_include_arrival_and_scan_list() {
    let mut mailbox = Mailbox::new();
    let mut receiver_heap = Heap::new(8);

    for value in 1..=3 {
        send(&mut mailbox, value, &mut receiver_heap);
    }

    assert_eq!(mailbox.message_count(), 3);
    mailbox.drain_arrival();
    assert_eq!(mailbox.message_count(), 3);
    assert_eq!(mailbox.scanned().len(), 3);
}

#[test]
fn sending_tuple_deep_copies_nested_boxed_elements() {
    let mut sender_heap = Heap::new(16);
    let nested = allocate_tuple(&mut sender_heap, &[small(7)]);
    let tuple = allocate_tuple(&mut sender_heap, &[small(1), nested]);
    let mut receiver_heap = Heap::new(16);
    let mut mailbox = Mailbox::new();

    mailbox
        .send(&sender_heap, tuple, &mut receiver_heap)
        .expect("tuple copy should fit");
    mailbox.drain_arrival();
    let copied = mailbox.scanned().first().copied().expect("copied tuple");

    assert!(same(&sender_heap, tuple, &receiver_heap, copied));
    assert_eq!(receiver_heap.len(), 5);
    let copied_nested = word(&receiver_heap, position(copied) + 2);
    assert!(position(copied) < receiver_heap.len());
    assert!(position(copied_nested) < receiver_heap.len());
}

#[test]
fn sending_list_deep_copies_all_cons_cells() {
    let mut sender_heap = Heap::new(16);
    let tail = allocate_cons(&mut sender_heap, small(2), NIL_TERM);
    let list = allocate_cons(&mut sender_heap, small(1), tail);
    let mut receiver_heap = Heap::new(16);
    let mut mailbox = Mailbox::new();

    mailbox
        .send(&sender_heap, list, &mut receiver_heap)
        .expect("list copy should fit");
    mailbox.drain_arrival();
    let copied = mailbox.scanned().first().copied().expect("copied list");

    assert!(same(&sender_heap, list, &receiver_heap, copied));
    assert_eq!(receiver_heap.len(), 4);
    let copied_tail = word(&receiver_heap, position(copied) + 1);
    assert!(position(copied_tail) < receiver_heap.len());
}

#[test]
fn fifo_order_is_preserved_within_one_sender() {
    let mut mailbox = Mailbox::new();
    let mut receiver_heap = Heap::new(8);

    for value in 0..5 {
        send(&mut mailbox, value, &mut receiver_heap);
    }

    mailbox.drain_arrival();
    assert_eq!(scan_values(&mailbox), vec![0, 1, 2, 3, 4]);
}

#[test]
fn send_fails_without_enqueuing_when_receiver_heap_is_full() {
    let mut sender_heap = Heap::new(3);
    let tuple = allocate_tuple(&mut sender_heap, &[small(1), small(2)]);
    let mut receiver_heap = Heap::new(2);
    let mut mailbox = Mailbox::new();

    let error = mailbox
        .send(&sender_heap, tuple, &mut receiver_heap)
        .expect_err("tuple requires three words");

    assert!(matches!(error, SendError::HeapFull(_)));
    assert_eq!(mailbox.message_count(), 0);
    assert_eq!(
        error,
        SendError::HeapFull(HeapFull {
            requested: 3,
            available: 2
        })
    );
    assert_eq!(
        error.describe(),
        "heap full: requested 3 words, 2 available"
    );
}

#[test]
fn a_pointer_to_nothing_is_not_sent() {
    let sender_heap = Heap::new(0);
    let mut receiver_heap = Heap::new(8);
    let mut mailbox = Mailbox::new();
    assert_eq!(
        mailbox.send(&sender_heap, BOXED_TAG, &mut receiver_heap),
        Err(SendError::InvalidBoxedTerm)
    );
    assert_eq!(mailbox.message_count(), 0);
    assert_eq!(SendError::InvalidBoxedTerm.describe(), "invalid boxed term");
}

#[test]
fn maps_and_floats_are_copied_word_for_word() {
    let mut sender_heap = Heap::new(16);
    let float = sender_heap
        .alloc_boxed(
            header(FLOAT_HEADER_TAG, 1),
            &vec![1.5f64.to_bits() as i64],
            &Vec::new(),
        )
        .expect("fits");
    let map = sender_heap
        .alloc_boxed(header(MAP_HEADER_TAG, 3), &vec![1], &vec![small(4), float])
        .expect("fits");
    let mut receiver_heap = Heap::new(16);
    let copied = copy_term(&sender_heap, map, &mut receiver_heap).expect("fits");
    let at = position(copied);
    assert_eq!(word(&receiver_heap, at), header(MAP_HEADER_TAG, 3));
    assert_eq!(word(&receiver_heap, at + 1), 1);
    assert_eq!(word(&receiver_heap, at + 2), small(4));
    let float_at = position(word(&receiver_heap, at + 3));
    assert_eq!(word(&receiver_heap, float_at + 1), 1.5f64.to_bits() as i64);
}

#[test]
fn empty_receive_returns_none_and_preserves_zero_save_pointer() {
    let mut mailbox = Mailbox::new();
    let tested = RefCell::new(0);

    assert_eq!(
        receive(&mut mailbox, |_| {
            *tested.borrow_mut() += 1;
            true
        }),
        None
    );

    assert_eq!(*tested.borrow(), 0);
    assert_eq!(mailbox.save_pointer(), 0);
}

#[test]
fn receive_with_matching_message_returns_and_removes_it() {
    let mut mailbox = mailbox_with_values([1, 2, 3]);

    let matched = receive(&mut mailbox, |term| small_value(term) == Some(2));

    assert_eq!(matched, Some(small(2)));
    assert_eq!(mailbox.message_count(), 2);
    assert_eq!(scan_values(&mailbox), vec![1, 3]);
    assert_eq!(mailbox.save_pointer(), 0);
}

#[test]
fn receive_with_no_matching_messages_returns_none_and_saves_end() {
    let mut mailbox = mailbox_with_values([1, 2, 3]);

    let matched = receive(&mut mailbox, |term| small_value(term) == Some(9));

    assert_eq!(matched, None);
    assert_eq!(mailbox.message_count(), 3);
    assert_eq!(scan_values(&mailbox), vec![1, 2, 3]);
    assert_eq!(mailbox.save_pointer(), 3);
}

#[test]
fn new_messages_after_failed_scan_are_tested_from_save_pointer() {
    let mut mailbox = mailbox_with_values([1, 2]);
    let tested = RefCell::new(Vec::new());
    assert_eq!(
        receive(&mut mailbox, |term| {
            tested.borrow_mut().push(value(term));
            false
        }),
        None
    );
    assert_eq!(*tested.borrow(), vec![1, 2]);
    assert_eq!(mailbox.save_pointer(), 2);

    let mut receiver_heap = Heap::new(8);
    send(&mut mailbox, 3, &mut receiver_heap);
    tested.borrow_mut().clear();

    let matched = receive(&mut mailbox, |term| {
        tested.borrow_mut().push(value(term));
        small_value(term) == Some(3)
    });

    assert_eq!(matched, Some(small(3)));
    assert_eq!(*tested.borrow(), vec![3]);
    assert_eq!(scan_values(&mailbox), vec![1, 2]);
    assert_eq!(mailbox.save_pointer(), 0);
}

#[test]
fn messages_before_save_pointer_are_not_retested() {
    let mut mailbox = mailbox_with_values([1, 2]);
    assert_eq!(receive(&mut mailbox, |_| false), None);

    let mut receiver_heap = Heap::new(8);
    send(&mut mailbox, 4, &mut receiver_heap);
    let tested = RefCell::new(Vec::new());

    assert_eq!(
        receive(&mut mailbox, |term| {
            tested.borrow_mut().push(value(term));
            false
        }),
        None
    );

    assert_eq!(*tested.borrow(), vec![4]);
    assert_eq!(mailbox.save_pointer(), 3);
    assert_eq!(scan_values(&mailbox), vec![1, 2, 4]);
}

#[test]
fn save_pointer_resets_after_success_following_previous_miss() {
    let mut mailbox = mailbox_with_values([1, 2]);
    assert_eq!(receive(&mut mailbox, |_| false), None);

    let mut receiver_heap = Heap::new(8);
    send(&mut mailbox, 3, &mut receiver_heap);

    assert_eq!(
        receive(&mut mailbox, |term| small_value(term) == Some(3)),
        Some(small(3))
    );
    assert_eq!(mailbox.save_pointer(), 0);
}

#[test]
fn looking_at_messages_one_by_one_takes_the_current_one() {
    let mut mailbox = Mailbox::new();
    mailbox.push_owned(small(1));
    mailbox.push_owned(small(2));
    assert_eq!(mailbox.current_message(), Some(small(1)));
    mailbox.advance_save_pointer();
    assert_eq!(mailbox.current_message(), Some(small(2)));
    assert_eq!(mailbox.remove_current_message(), Some(small(2)));
    assert_eq!(mailbox.save_pointer(), 0);
    mailbox.advance_save_pointer();
    mailbox.advance_save_pointer();
    assert_eq!(mailbox.save_pointer(), 1);
    assert_eq!(mailbox.current_message(), None);
    assert_eq!(mailbox.remove_current_message(), None);
    mailbox.reset_save_pointer();
    assert_eq!(mailbox.current_message(), Some(small(1)));
}

#[test]
fn a_term_that_comes_back_to_itself_stands_for_nothing() {
    let mut heap = Heap::new(16);
    let first = allocate_cons(&mut heap, small(1), NIL_TERM);
    let shared = allocate_tuple(&mut heap, &[first, first, small(2)]);
    assert!(heap.holds_term(first));
    assert!(heap.holds_term(shared));
    assert!(heap.holds_term(small(7)));
    // No cell is there: the reference stands for something that cannot be sent.
    assert!(heap.holds_term(100 * 8 + LIST_TAG));
    let next = heap.len() as i64 * 8 + LIST_TAG;
    let looped = allocate_cons(&mut heap, first, next);
    assert_eq!(looped, next);
    assert!(!heap.holds_term(looped));
    let around = allocate_tuple(&mut heap, &[small(1), looped]);
    assert!(!heap.holds_term(around));
    assert!(heap.holds_term(shared));
}

#[test]
fn shared_terms_are_followed_once() {
    let mut heap = Heap::new(1024);
    let mut term = NIL_TERM;
    for _ in 0..200 {
        term = allocate_cons(&mut heap, term, term);
    }
    assert!(heap.holds_term(term));
}

#[test]
fn heaps_may_be_larger_than_a_word_of_thirty_two_bits_counts() {
    let mut heap = Heap::new(1 << 36);
    let cell = allocate_cons(&mut heap, small(1), NIL_TERM);
    assert!(heap.holds_term(cell));
    assert_eq!(heap.len(), 2);
}
