//! Heaps of processes, and copying terms from one to another.
//!
//! A heap is a row of words. A term is a word: an immediate, or the position of
//! a list cell or of a boxed object. A boxed object starts with a header that
//! says what it is and how many words follow; these are first plain words, then
//! terms.

use vstd::prelude::*;
use vstd::set_lib::{lemma_int_range, lemma_len_subset, set_int_range};
use crate::term::{
    split_word, BIGINT_HEADER_TAG, BINARY_HEADER_TAG, BOXED_TAG, CLOSURE_HEADER_TAG,
    FLOAT_HEADER_TAG, LIST_TAG, MAP_HEADER_TAG, REFERENCE_HEADER_TAG, TUPLE_HEADER_TAG,
};

verus! {

/// The most words that a heap can have: as many as a row of eight-byte words can on
/// this machine, which leaves a term for each.
pub const MAX_HEAP_WORDS: usize = usize::MAX / 16;

/// A heap has not as many words left as asked for.
#[derive(Debug, Clone, Copy, PartialEq, Eq, Structural)]
pub struct HeapFull {
    pub requested: usize,
    pub available: usize,
}

/// The words of a process.
#[derive(Debug)]
pub struct Heap {
    words: Vec<i64>,
    capacity: usize,
}

/// What a term stands for.
pub enum TermValue {
    /// A word that refers to nothing.
    Immediate(i64),
    /// A list cell.
    Cons(Box<TermValue>, Box<TermValue>),
    /// A boxed object: its header, its plain words and its terms.
    Boxed { header: i64, plain: Seq<i64>, terms: Seq<TermValue> },
    /// A reference to no list cell and no boxed object of a known kind.
    Invalid,
}

/// Where the words of a boxed object are: how many plain ones follow the header,
/// and how many terms follow these.
#[derive(Debug, Clone, Copy, PartialEq, Eq, Structural)]
pub struct Layout {
    pub plain: usize,
    pub terms: usize,
}

/// How the words are laid out that follow a header. A closure says in its fourth
/// word how many of its last words are terms, a map in its first word how many
/// pairs of terms follow.
pub open spec fn layout_of(words: Seq<i64>, at: int) -> Option<(int, int)> {
    if !(0 <= at < words.len()) {
        None
    } else {
        let header = words[at];
        let tag = header as int % 256;
        let size = header as int / 256;
        if size < 0 || at + 1 + size > words.len() {
            None
        } else if tag == TUPLE_HEADER_TAG {
            Some((0, size))
        } else if tag == FLOAT_HEADER_TAG || tag == BIGINT_HEADER_TAG || tag == BINARY_HEADER_TAG
            || tag == REFERENCE_HEADER_TAG {
            Some((size, 0))
        } else if tag == CLOSURE_HEADER_TAG {
            if size >= 4 && 0 <= words[at + 4] <= size - 4 {
                Some((size - words[at + 4], words[at + 4] as int))
            } else {
                None
            }
        } else if tag == MAP_HEADER_TAG {
            if size >= 1 && 0 <= words[at + 1] && size == 1 + 2 * words[at + 1] {
                Some((1, size - 1))
            } else {
                None
            }
        } else {
            None
        }
    }
}

/// Whether a term stands for a value.
pub open spec fn decodes(words: Seq<i64>, term: i64, value: TermValue) -> bool
    decreases value,
{
    let tag = term as int % 8;
    let at = term as int / 8;
    match value {
        TermValue::Immediate(word) => word == term && tag != LIST_TAG && tag != BOXED_TAG,
        TermValue::Cons(head, tail) => {
            &&& tag == LIST_TAG
            &&& 0 <= at && at + 1 < words.len()
            &&& decodes(words, words[at], *head)
            &&& decodes(words, words[at + 1], *tail)
        },
        TermValue::Boxed { header, plain, terms } => {
            &&& tag == BOXED_TAG
            &&& layout_of(words, at) == Some((plain.len() as int, terms.len() as int))
            &&& header == words[at]
            &&& forall|i: int|
                #![trigger plain[i]]
                0 <= i < plain.len() ==> plain[i] == words[at + 1 + i]
            &&& forall|i: int|
                #![trigger terms[i]]
                0 <= i < terms.len() ==> decodes(words, words[at + 1 + plain.len() + i], terms[i])
        },
        TermValue::Invalid => {
            ||| tag == LIST_TAG && !(0 <= at && at + 1 < words.len())
            ||| tag == BOXED_TAG && layout_of(words, at) is None
        },
    }
}

/// Why a message could not be sent.
#[derive(Debug, Clone, Copy, PartialEq, Eq, Structural)]
pub enum SendError {
    /// The heap of the receiver has not as many words left as the message needs.
    HeapFull(HeapFull),
    /// The message holds something that is no term.
    InvalidBoxedTerm,
}

/// How many words are left after as many were taken, or that there are not as
/// many.
pub open spec fn taken(free: nat, n: nat) -> Result<nat, SendError> {
    if n > free {
        Err(SendError::HeapFull(HeapFull { requested: n as usize, available: free as usize }))
    } else {
        Ok((free - n) as nat)
    }
}

/// How many words are left after a copy of a value was made, or why none was.
/// What a cell or an object refers to is copied before it.
pub open spec fn after_copy(value: TermValue, free: nat) -> Result<nat, SendError>
    decreases value, 0nat,
{
    match value {
        TermValue::Immediate(_) => Ok(free),
        TermValue::Cons(head, tail) => match after_copy(*head, free) {
            Err(e) => Err(e),
            Ok(free) => match after_copy(*tail, free) {
                Err(e) => Err(e),
                Ok(free) => taken(free, 2),
            },
        },
        TermValue::Boxed { plain, terms, .. } => match after_copies(terms, terms.len(), free) {
            Err(e) => Err(e),
            Ok(free) => taken(free, 1 + plain.len() + terms.len()),
        },
        TermValue::Invalid => Err(SendError::InvalidBoxedTerm),
    }
}

/// How many words are left after copies of the first `n` values were made.
pub open spec fn after_copies(values: Seq<TermValue>, n: nat, free: nat) -> Result<nat, SendError>
    decreases values, n,
{
    if n == 0 {
        Ok(free)
    } else if n > values.len() {
        arbitrary()
    } else {
        match after_copies(values, (n - 1) as nat, free) {
            Err(e) => Err(e),
            Ok(free) => after_copy(values[n - 1], free),
        }
    }
}

proof fn lemma_copies_fail(values: Seq<TermValue>, n: nat, free: nat)
    requires
        n <= values.len(),
    ensures
        after_copies(values, n, free) matches Err(e) ==> after_copies(values, values.len(), free)
            == Err::<nat, SendError>(e),
    decreases values.len() - n,
{
    if n < values.len() {
        lemma_copies_fail(values, n + 1, free);
    }
}

/// Whether a heap is another one with more words behind.
pub open spec fn extends(words: Seq<i64>, before: Seq<i64>) -> bool {
    &&& before.len() <= words.len()
    &&& forall|i: int| 0 <= i < before.len() ==> words[i] == #[trigger] before[i]
}

/// Whether a value holds no invalid reference.
pub open spec fn is_valid(value: TermValue) -> bool
    decreases value,
{
    match value {
        TermValue::Immediate(_) => true,
        TermValue::Cons(head, tail) => is_valid(*head) && is_valid(*tail),
        TermValue::Boxed { terms, .. } => forall|i: int|
            #![trigger terms[i]]
            0 <= i < terms.len() ==> is_valid(terms[i]),
        TermValue::Invalid => false,
    }
}

/// A term stands for the same value after more words were taken from its heap.
pub proof fn law_terms_outlive_allocation(
    words: Seq<i64>,
    before: Seq<i64>,
    term: i64,
    value: TermValue,
)
    requires
        extends(words, before),
        decodes(before, term, value),
        is_valid(value),
    ensures
        decodes(words, term, value),
    decreases value,
{
    let at = term as int / 8;
    match value {
        TermValue::Cons(head, tail) => {
            assert(words[at] == before[at]);
            assert(words[at + 1] == before[at + 1]);
            law_terms_outlive_allocation(words, before, before[at], *head);
            law_terms_outlive_allocation(words, before, before[at + 1], *tail);
        },
        TermValue::Boxed { header, plain, terms } => {
            lemma_layout_within(before, at);
            assert(words[at] == before[at]);
            if before[at] as int / 256 >= 4 {
                assert(words[at + 4] == before[at + 4]);
            }
            if before[at] as int / 256 >= 1 {
                assert(words[at + 1] == before[at + 1]);
            }
            assert(layout_of(words, at) == layout_of(before, at));
            assert forall|i: int|
                #![trigger plain[i]]
                0 <= i < plain.len() implies plain[i] == words[at + 1 + i] by {
                assert(words[at + 1 + i] == before[at + 1 + i]);
            }
            assert forall|i: int|
                #![trigger terms[i]]
                0 <= i < terms.len() implies decodes(
                words,
                words[at + 1 + plain.len() + i],
                terms[i],
            ) by {
                let word = before[at + 1 + plain.len() + i];
                assert(words[at + 1 + plain.len() + i] == word);
                assert(decodes_to(value, terms, i));
                law_terms_outlive_allocation(words, before, word, terms[i]);
            }
        },
        _ => {},
    }
}

/// Whether the terms of a boxed value come before it.
spec fn decodes_to(value: TermValue, terms: Seq<TermValue>, i: int) -> bool {
    decreases_to!(value => terms) && decreases_to!(terms => terms[i])
}

proof fn lemma_layout_within(words: Seq<i64>, at: int)
    ensures
        layout_of(words, at) matches Some((plain, terms)) ==> {
            &&& 0 <= plain
            &&& 0 <= terms
            &&& 0 <= at
            &&& at + 1 + plain + terms <= words.len()
            &&& plain + terms == words[at] as int / 256
        },
{
}

proof fn lemma_free_shrinks(value: TermValue, free: nat)
    ensures
        after_copy(value, free) matches Ok(left) ==> left <= free,
    decreases value, 0nat,
{
    match value {
        TermValue::Cons(head, tail) => {
            lemma_free_shrinks(*head, free);
            if let Ok(left) = after_copy(*head, free) {
                lemma_free_shrinks(*tail, left);
            }
        },
        TermValue::Boxed { plain, terms, .. } => {
            lemma_frees_shrink(terms, terms.len(), free);
        },
        _ => {},
    }
}

proof fn lemma_frees_shrink(values: Seq<TermValue>, n: nat, free: nat)
    requires
        n <= values.len(),
    ensures
        after_copies(values, n, free) matches Ok(left) ==> left <= free,
    decreases values, n,
{
    if n > 0 {
        lemma_frees_shrink(values, (n - 1) as nat, free);
        if let Ok(left) = after_copies(values, (n - 1) as nat, free) {
            lemma_free_shrinks(values[n - 1], left);
        }
    }
}

/// A value of which a copy was made holds no invalid reference.
proof fn lemma_copied_is_valid(value: TermValue, free: nat)
    requires
        after_copy(value, free) is Ok,
    ensures
        is_valid(value),
    decreases value, 0nat,
{
    match value {
        TermValue::Cons(head, tail) => {
            lemma_copied_is_valid(*head, free);
            lemma_copied_is_valid(*tail, after_copy(*head, free)->Ok_0);
        },
        TermValue::Boxed { plain, terms, .. } => {
            lemma_copied_are_valid(terms, terms.len(), free);
        },
        _ => {},
    }
}

proof fn lemma_copied_are_valid(values: Seq<TermValue>, n: nat, free: nat)
    requires
        n <= values.len(),
        after_copies(values, n, free) is Ok,
    ensures
        forall|i: int| 0 <= i < n ==> is_valid(#[trigger] values[i]),
    decreases values, n,
{
    if n > 0 {
        lemma_copied_are_valid(values, (n - 1) as nat, free);
        lemma_copied_is_valid(values[n - 1], after_copies(values, (n - 1) as nat, free)->Ok_0);
    }
}

impl View for Heap {
    type V = Seq<i64>;

    closed spec fn view(&self) -> Seq<i64> {
        self.words@
    }
}

impl Heap {
    /// How many words the heap can have.
    pub closed spec fn room(&self) -> nat {
        self.capacity as nat
    }

    /// How many words are left.
    pub open spec fn free(&self) -> nat {
        (self.room() - self@.len()) as nat
    }

    /// The heap has no more words than it can have, and each has a term that
    /// refers to it.
    pub open spec fn wf(&self) -> bool {
        &&& self@.len() <= self.room()
        &&& self.room() <= MAX_HEAP_WORDS
    }

    /// A heap that can have as many words.
    pub fn new(capacity: usize) -> (r: Heap)
        requires
            capacity <= MAX_HEAP_WORDS,
        ensures
            r.wf(),
            r@ == Seq::<i64>::empty(),
            r.room() == capacity,
    {
        Heap { words: Vec::new(), capacity }
    }

    /// Makes sure that as many words are left.
    fn ensure(&self, n: usize) -> (r: Result<(), SendError>)
        requires
            self.wf(),
        ensures
            match taken(self.free(), n as nat) {
                Ok(_) => r is Ok,
                Err(e) => r == Err::<(), SendError>(e),
            },
    {
        let available: usize = self.capacity - self.words.len();
        if n > available {
            Err(SendError::HeapFull(HeapFull { requested: n, available }))
        } else {
            Ok(())
        }
    }

    /// Makes a list cell.
    pub fn alloc_cons(&mut self, head: i64, tail: i64) -> (r: Result<i64, SendError>)
        requires
            old(self).wf(),
        ensures
            final(self).wf(),
            final(self).room() == old(self).room(),
            match taken(old(self).free(), 2) {
                Ok(_) => {
                    &&& r == Ok::<i64, SendError>((old(self)@.len() * 8 + LIST_TAG) as i64)
                    &&& final(self)@ == old(self)@.push(head).push(tail)
                },
                Err(e) => r == Err::<i64, SendError>(e) && final(self)@ == old(self)@,
            },
    {
        self.ensure(2)?;
        let at: usize = self.words.len();
        self.words.push(head);
        self.words.push(tail);
        Ok(at as i64 * 8 + LIST_TAG)
    }

    /// Makes a boxed object of a header, plain words and terms.
    pub fn alloc_boxed(&mut self, header: i64, plain: &Vec<i64>, terms: &Vec<i64>) -> (r: Result<
        i64,
        SendError,
    >)
        requires
            old(self).wf(),
            1 + plain@.len() + terms@.len() <= usize::MAX,
        ensures
            final(self).wf(),
            final(self).room() == old(self).room(),
            match taken(old(self).free(), 1 + plain@.len() + terms@.len()) {
                Ok(_) => {
                    &&& r == Ok::<i64, SendError>((old(self)@.len() * 8 + BOXED_TAG) as i64)
                    &&& final(self)@ == old(self)@.push(header) + plain@ + terms@
                },
                Err(e) => r == Err::<i64, SendError>(e) && final(self)@ == old(self)@,
            },
    {
        self.ensure(1 + plain.len() + terms.len())?;
        let ghost start = self@.push(header);
        let at: usize = self.words.len();
        self.words.push(header);
        let mut i: usize = 0;
        assert(self@ =~= start + plain@.take(0));
        while i < plain.len()
            invariant
                i <= plain@.len(),
                self@ == start + plain@.take(i as int),
                self.capacity == old(self).capacity,
            decreases plain@.len() - i,
        {
            self.words.push(plain[i]);
            i += 1;
            assert(self@ =~= start + plain@.take(i as int));
        }
        assert(plain@.take(i as int) =~= plain@);
        let ghost middle = self@;
        let mut i: usize = 0;
        assert(self@ =~= middle + terms@.take(0));
        while i < terms.len()
            invariant
                i <= terms@.len(),
                self@ == middle + terms@.take(i as int),
                self.capacity == old(self).capacity,
            decreases terms@.len() - i,
        {
            self.words.push(terms[i]);
            i += 1;
            assert(self@ =~= middle + terms@.take(i as int));
        }
        assert(terms@.take(i as int) =~= terms@);
        Ok(at as i64 * 8 + BOXED_TAG)
    }

    /// The word at a position.
    pub fn word(&self, at: usize) -> (r: Option<i64>)
        ensures
            r == if at < self@.len() {
                Some(self@[at as int])
            } else {
                None::<i64>
            },
    {
        if at < self.words.len() {
            Some(self.words[at])
        } else {
            None
        }
    }

    /// How many words are in use.
    pub fn len(&self) -> (r: usize)
        ensures
            r == self@.len(),
    {
        self.words.len()
    }

    fn layout(&self, at: i64) -> (r: Option<Layout>)
        requires
            self.wf(),
        ensures
            layout_of(self@, at as int) == match r {
                Some(layout) => Some((layout.plain as int, layout.terms as int)),
                None => None::<(int, int)>,
            },
    {
        let count: i64 = self.words.len() as i64;
        if at < 0 || at >= count {
            return None;
        }
        let header: i64 = self.words[at as usize];
        if header < 0 {
            assert(header as int / 256 < 0);
            return None;
        }
        let tag: i64 = header % 256;
        let size: i64 = header / 256;
        if size > count - at - 1 {
            return None;
        }
        if tag == TUPLE_HEADER_TAG {
            Some(Layout { plain: 0, terms: size as usize })
        } else if tag == FLOAT_HEADER_TAG || tag == BIGINT_HEADER_TAG || tag == BINARY_HEADER_TAG
            || tag == REFERENCE_HEADER_TAG {
            Some(Layout { plain: size as usize, terms: 0 })
        } else if tag == CLOSURE_HEADER_TAG {
            if size < 4 {
                return None;
            }
            let free: i64 = self.words[at as usize + 4];
            if free < 0 || free > size - 4 {
                return None;
            }
            Some(Layout { plain: (size - free) as usize, terms: free as usize })
        } else if tag == MAP_HEADER_TAG {
            if size < 1 {
                return None;
            }
            let pairs: i64 = self.words[at as usize + 1];
            if pairs < 0 || pairs > size || size != 1 + 2 * pairs {
                return None;
            }
            Some(Layout { plain: 1, terms: (size - 1) as usize })
        } else {
            None
        }
    }
}

proof fn lemma_new_cons(before: Seq<i64>, head: i64, tail: i64, head_value: TermValue, tail_value: TermValue)
    requires
        before.len() <= MAX_HEAP_WORDS,
        decodes(before, head, head_value),
        decodes(before, tail, tail_value),
        is_valid(head_value),
        is_valid(tail_value),
    ensures
        decodes(
            before.push(head).push(tail),
            (before.len() * 8 + LIST_TAG) as i64,
            TermValue::Cons(Box::new(head_value), Box::new(tail_value)),
        ),
{
    let after = before.push(head).push(tail);
    law_terms_outlive_allocation(after, before, head, head_value);
    law_terms_outlive_allocation(after, before, tail, tail_value);
    let term = (before.len() * 8 + LIST_TAG) as i64;
    assert(term as int / 8 == before.len());
    assert(term as int % 8 == LIST_TAG);
}

proof fn lemma_new_boxed(
    source: Seq<i64>,
    at: int,
    before: Seq<i64>,
    value: TermValue,
    children: Seq<i64>,
)
    requires
        before.len() <= MAX_HEAP_WORDS,
        value is Boxed,
        is_valid(value),
        layout_of(source, at) == Some(
            (value->plain.len() as int, value->terms.len() as int),
        ),
        value->header == source[at],
        forall|i: int|
            #![trigger value->plain[i]]
            0 <= i < value->plain.len() ==> value->plain[i] == source[at + 1 + i],
        children.len() == value->terms.len(),
        forall|i: int|
            #![trigger children[i]]
            0 <= i < children.len() ==> decodes(before, children[i], value->terms[i]),
    ensures
        decodes(
            before.push(value->header) + value->plain + children,
            (before.len() * 8 + BOXED_TAG) as i64,
            value,
        ),
{
    let header = value->header;
    let plain = value->plain;
    let terms = value->terms;
    let after = before.push(header) + plain + children;
    let term = (before.len() * 8 + BOXED_TAG) as i64;
    let to = before.len() as int;
    assert(term as int / 8 == to);
    assert(term as int % 8 == BOXED_TAG);
    lemma_layout_within(source, at);
    assert(after[to] == header);
    assert forall|i: int| #![trigger plain[i]] 0 <= i < plain.len() implies plain[i] == after[to + 1
        + i] by {}
    if header as int % 256 == CLOSURE_HEADER_TAG {
        assert(plain.len() >= 4);
        assert(after[to + 4] == plain[3]);
        assert(plain[3] == source[at + 4]);
    }
    if header as int % 256 == MAP_HEADER_TAG {
        assert(plain.len() == 1);
        assert(after[to + 1] == plain[0]);
        assert(plain[0] == source[at + 1]);
    }
    assert(layout_of(after, to) == layout_of(source, at));
    assert forall|i: int|
        #![trigger terms[i]]
        0 <= i < terms.len() implies decodes(after, after[to + 1 + plain.len() + i], terms[i]) by {
        assert(after[to + 1 + plain.len() + i] == children[i]);
        law_terms_outlive_allocation(after, before, children[i], terms[i]);
    }
}

/// Copies what a term stands for from one heap to another. The copy refers to
/// the other heap alone, and the terms that were there keep their values.
fn copy_value(source: &Heap, term: i64, heap: &mut Heap, Ghost(value): Ghost<TermValue>) -> (r: Result<
    i64,
    SendError,
>)
    requires
        source.wf(),
        old(heap).wf(),
        decodes(source@, term, value),
    ensures
        final(heap).wf(),
        final(heap).room() == old(heap).room(),
        extends(final(heap)@, old(heap)@),
        match after_copy(value, old(heap).free()) {
            Ok(left) => {
                &&& r matches Ok(copy) && decodes(final(heap)@, copy, value)
                &&& final(heap).free() == left
                &&& is_valid(value)
            },
            Err(e) => r == Err::<i64, SendError>(e),
        },
    decreases value, 0nat,
{
    let (tag, at) = split_word(term);
    proof {
        if after_copy(value, heap.free()) is Ok {
            lemma_copied_is_valid(value, heap.free());
        }
    }
    if tag == LIST_TAG {
        if at < 0 || at + 1 >= source.words.len() as i64 {
            assert(value is Invalid);
            return Err(SendError::InvalidBoxedTerm);
        }
        assert(value is Cons);
        let ghost head_value = *value->Cons_0;
        let ghost tail_value = *value->Cons_1;
        let head: i64 = copy_value(
            source,
            source.words[at as usize],
            heap,
            Ghost(head_value),
        )?;
        let ghost middle = heap@;
        let tail: i64 = copy_value(
            source,
            source.words[at as usize + 1],
            heap,
            Ghost(tail_value),
        )?;
        proof {
            law_terms_outlive_allocation(heap@, middle, head, head_value);
            lemma_new_cons(heap@, head, tail, head_value, tail_value);
        }
        heap.alloc_cons(head, tail)
    } else if tag == BOXED_TAG {
        match source.layout(at) {
            None => {
                assert(value is Invalid);
                Err(SendError::InvalidBoxedTerm)
            },
            Some(layout) => {
                assert(value is Boxed);
                let ghost terms = value->terms;
                let ghost plain_words = value->plain;
                proof {
                    lemma_layout_within(source@, at as int);
                }
                let first: usize = at as usize + 1 + layout.plain;
                let children = copy_values(source, first, layout.terms, heap, Ghost(terms))?;
                let mut plain: Vec<i64> = Vec::new();
                let mut i: usize = 0;
                assert(plain@ =~= plain_words.take(0));
                while i < layout.plain
                    invariant
                        i <= layout.plain,
                        layout.plain == plain_words.len(),
                        0 <= at,
                        at + 1 + layout.plain <= source@.len(),
                        source.wf(),
                        plain@ == plain_words.take(i as int),
                        forall|j: int|
                            #![trigger plain_words[j]]
                            0 <= j < plain_words.len() ==> plain_words[j] == source@[at + 1 + j],
                    decreases layout.plain - i,
                {
                    assert(plain_words[i as int] == source@[at + 1 + i]);
                    plain.push(source.words[at as usize + 1 + i]);
                    i += 1;
                    assert(plain@ =~= plain_words.take(i as int));
                }
                assert(plain_words.take(i as int) =~= plain_words);
                let header: i64 = source.words[at as usize];
                proof {
                    if taken(heap.free(), 1 + plain@.len() + children@.len()) is Ok {
                        lemma_new_boxed(source@, at as int, heap@, value, children@);
                    }
                }
                heap.alloc_boxed(header, &plain, &children)
            },
        }
    } else {
        assert(value is Immediate);
        Ok(term)
    }
}

fn copy_values(
    source: &Heap,
    first: usize,
    count: usize,
    heap: &mut Heap,
    Ghost(values): Ghost<Seq<TermValue>>,
) -> (r: Result<Vec<i64>, SendError>)
    requires
        source.wf(),
        old(heap).wf(),
        first + count <= source@.len(),
        values.len() == count,
        forall|i: int|
            #![trigger values[i]]
            0 <= i < count ==> decodes(source@, source@[first + i], values[i]),
    ensures
        final(heap).wf(),
        final(heap).room() == old(heap).room(),
        extends(final(heap)@, old(heap)@),
        match after_copies(values, count as nat, old(heap).free()) {
            Ok(left) => {
                &&& r matches Ok(copies) && copies@.len() == count && forall|i: int|
                    #![trigger copies@[i]]
                    0 <= i < count ==> decodes(final(heap)@, copies@[i], values[i])
                &&& final(heap).free() == left
                &&& forall|i: int| 0 <= i < count ==> is_valid(#[trigger] values[i])
            },
            Err(e) => r matches Err(error) && error == e,
        },
    decreases values, 0nat,
{
    let mut copies: Vec<i64> = Vec::new();
    let mut i: usize = 0;
    while i < count
        invariant
            i <= count,
            source.wf(),
            heap.wf(),
            heap.room() == old(heap).room(),
            extends(heap@, old(heap)@),
            first + count <= source@.len(),
            values.len() == count,
            forall|j: int|
                #![trigger values[j]]
                0 <= j < count ==> decodes(source@, source@[first + j], values[j]),
            after_copies(values, i as nat, old(heap).free()) == Ok::<nat, SendError>(heap.free()),
            copies@.len() == i,
            forall|j: int|
                #![trigger copies@[j]]
                0 <= j < i ==> decodes(heap@, copies@[j], values[j]),
            forall|j: int| 0 <= j < i ==> is_valid(#[trigger] values[j]),
        decreases count - i,
    {
        proof {
            lemma_copies_fail(values, (i + 1) as nat, old(heap).free());
            assert(decreases_to!(values => values[i as int]));
        }
        let ghost before = heap@;
        let ghost kept = copies@;
        let copy: i64 = copy_value(
            source,
            source.words[first + i],
            heap,
            Ghost(values[i as int]),
        )?;
        copies.push(copy);
        proof {
            assert forall|j: int| #![trigger copies@[j]] 0 <= j < i + 1 implies decodes(
                heap@,
                copies@[j],
                values[j],
            ) by {
                if j < i {
                    assert(copies@[j] == kept[j]);
                    law_terms_outlive_allocation(heap@, before, kept[j], values[j]);
                }
            }
        }
        i += 1;
    }
    Ok(copies)
}

/// Whether a term of a heap stands for some value: what it refers to does not
/// come back to it.
pub open spec fn is_term(words: Seq<i64>, term: i64) -> bool {
    exists|value: TermValue| decodes(words, term, value)
}

/// What a term stands for.
pub open spec fn value_of(words: Seq<i64>, term: i64) -> TermValue {
    choose|value: TermValue| decodes(words, term, value)
}

/// Whether a term refers to something that is on the heap.
pub open spec fn refers(words: Seq<i64>, term: i64) -> bool {
    let at = term as int / 8;
    ||| term as int % 8 == LIST_TAG && 0 <= at && at + 1 < words.len()
    ||| term as int % 8 == BOXED_TAG && layout_of(words, at) is Some
}

/// The terms in what a term refers to.
pub open spec fn parts(words: Seq<i64>, term: i64) -> Seq<i64> {
    let at = term as int / 8;
    if term as int % 8 == LIST_TAG {
        words.subrange(at, at + 2)
    } else {
        let (plain, terms) = layout_of(words, at)->Some_0;
        words.subrange(at + 1 + plain, at + 1 + plain + terms)
    }
}

/// Whether following a term from reference to reference ends within as many steps.
spec fn ends_within(words: Seq<i64>, term: i64, steps: nat) -> bool
    decreases steps,
{
    refers(words, term) ==> steps > 0 && forall|i: int|
        0 <= i < parts(words, term).len() ==> ends_within(
            words,
            #[trigger] parts(words, term)[i],
            (steps - 1) as nat,
        )
}

/// Whether each of the first terms stands for some value.
spec fn are_terms(words: Seq<i64>, terms: Seq<i64>, n: int) -> bool {
    forall|i: int| 0 <= i < n ==> is_term(words, #[trigger] terms[i])
}

proof fn lemma_parts(words: Seq<i64>, term: i64)
    requires
        refers(words, term),
    ensures
        term as int % 8 == LIST_TAG ==> parts(words, term).len() == 2,
        term as int % 8 == BOXED_TAG ==> parts(words, term).len() == layout_of(
            words,
            term as int / 8,
        )->Some_0.1,
{
    if term as int % 8 == BOXED_TAG {
        lemma_layout_within(words, term as int / 8);
    }
}

/// A term stands for a value when all that it refers to does.
proof fn lemma_term_of_parts(words: Seq<i64>, term: i64)
    requires
        refers(words, term) ==> are_terms(
            words,
            parts(words, term),
            parts(words, term).len() as int,
        ),
    ensures
        is_term(words, term),
{
    let tag = term as int % 8;
    let at = term as int / 8;
    if !refers(words, term) {
        if tag == LIST_TAG || tag == BOXED_TAG {
            assert(decodes(words, term, TermValue::Invalid));
        } else {
            assert(decodes(words, term, TermValue::Immediate(term)));
        }
    } else {
        let terms = parts(words, term);
        lemma_parts(words, term);
        let values = Seq::new(terms.len(), |i: int| value_of(words, terms[i]));
        assert forall|i: int| 0 <= i < terms.len() implies decodes(
            words,
            terms[i],
            #[trigger] values[i],
        ) by {
            assert(is_term(words, terms[i]));
        }
        if tag == LIST_TAG {
            let value = TermValue::Cons(Box::new(values[0]), Box::new(values[1]));
            assert(terms[0] == words[at] && terms[1] == words[at + 1]);
            assert(decodes(words, term, value));
        } else {
            lemma_layout_within(words, at);
            let (count, _) = layout_of(words, at)->Some_0;
            let plain = words.subrange(at + 1, at + 1 + count);
            let value = TermValue::Boxed { header: words[at], plain, terms: values };
            assert forall|i: int| #![trigger values[i]] 0 <= i < values.len() implies decodes(
                words,
                words[at + 1 + plain.len() + i],
                values[i],
            ) by {
                assert(terms[i] == words[at + 1 + plain.len() + i]);
            }
            assert(decodes(words, term, value));
        }
    }
}

proof fn lemma_more_steps(words: Seq<i64>, term: i64, fewer: nat, steps: nat)
    requires
        fewer <= steps,
        ends_within(words, term, fewer),
    ensures
        ends_within(words, term, steps),
    decreases fewer,
{
    if refers(words, term) {
        assert forall|i: int| 0 <= i < parts(words, term).len() implies ends_within(
            words,
            #[trigger] parts(words, term)[i],
            (steps - 1) as nat,
        ) by {
            lemma_more_steps(words, parts(words, term)[i], (fewer - 1) as nat, (steps - 1) as nat);
        }
    }
}

/// The terms that stand for values all end within some number of steps.
proof fn lemma_terms_end(
    words: Seq<i64>,
    terms: Seq<i64>,
    values: Seq<TermValue>,
    n: nat,
) -> (steps: nat)
    requires
        n <= terms.len() == values.len(),
        forall|i: int| #![trigger values[i]] 0 <= i < n ==> decodes(words, terms[i], values[i]),
    ensures
        forall|i: int| 0 <= i < n ==> ends_within(words, #[trigger] terms[i], steps),
    decreases values, n,
{
    if n == 0 {
        0
    } else {
        let before = lemma_terms_end(words, terms, values, (n - 1) as nat);
        assert(decreases_to!(values => values[n - 1]));
        let last = lemma_term_ends(words, terms[n - 1], values[n - 1]);
        assert forall|i: int| 0 <= i < n implies ends_within(
            words,
            #[trigger] terms[i],
            before + last,
        ) by {
            if i < n - 1 {
                lemma_more_steps(words, terms[i], before, before + last);
            } else {
                lemma_more_steps(words, terms[i], last, before + last);
            }
        }
        before + last
    }
}

proof fn lemma_term_ends(words: Seq<i64>, term: i64, value: TermValue) -> (steps: nat)
    requires
        decodes(words, term, value),
    ensures
        ends_within(words, term, steps),
    decreases value, 0nat,
{
    let at = term as int / 8;
    match value {
        TermValue::Cons(head, tail) => {
            let one = lemma_term_ends(words, words[at], *head);
            let other = lemma_term_ends(words, words[at + 1], *tail);
            lemma_more_steps(words, words[at], one, one + other);
            lemma_more_steps(words, words[at + 1], other, one + other);
            one + other + 1
        },
        TermValue::Boxed { plain, terms, .. } => {
            lemma_parts(words, term);
            lemma_layout_within(words, at);
            let found = parts(words, term);
            assert forall|i: int| #![trigger terms[i]] 0 <= i < terms.len() implies decodes(
                words,
                found[i],
                terms[i],
            ) by {
                assert(found[i] == words[at + 1 + plain.len() + i]);
            }
            let steps = lemma_terms_end(words, found, terms, terms.len());
            steps + 1
        },
        _ => 0,
    }
}

/// Whether following a term takes as many steps, and no fewer.
spec fn takes(words: Seq<i64>, term: i64, steps: nat) -> bool {
    ends_within(words, term, steps) && (steps > 0 ==> !ends_within(
        words,
        term,
        (steps - 1) as nat,
    ))
}

proof fn lemma_takes_some(words: Seq<i64>, term: i64, steps: nat) -> (least: nat)
    requires
        ends_within(words, term, steps),
    ensures
        least <= steps,
        takes(words, term, least),
    decreases steps,
{
    if steps > 0 && ends_within(words, term, (steps - 1) as nat) {
        lemma_takes_some(words, term, (steps - 1) as nat)
    } else {
        steps
    }
}

/// The number of a reference: the position that it refers to, and its tag.
spec fn number_of(term: i64) -> int {
    2 * (term as int / 8) + (term as int % 8 - BOXED_TAG)
}

/// The references by their numbers that take some steps, as many as there are steps.
proof fn lemma_chain(words: Seq<i64>, term: i64, steps: nat) -> (chain: Set<int>)
    requires
        takes(words, term, steps),
    ensures
        chain.finite(),
        chain.len() == steps,
        forall|k: int|
            #[trigger] chain.contains(k) ==> 0 <= k < 2 * words.len() && takes_at_most(
                words,
                k,
                steps,
            ),
    decreases steps,
{
    if steps == 0 {
        Set::empty()
    } else {
        assert(refers(words, term));
        lemma_parts(words, term);
        let number = number_of(term);
        let rest = if steps == 1 {
            Set::empty()
        } else {
            let i = choose|i: int|
                0 <= i < parts(words, term).len() && !ends_within(
                    words,
                    #[trigger] parts(words, term)[i],
                    (steps - 2) as nat,
                );
            lemma_chain(words, parts(words, term)[i], (steps - 1) as nat)
        };
        if rest.contains(number) {
            let (other, fewer) = choose|other: i64, fewer: nat|
                number_of(other) == number && (other as int % 8 == LIST_TAG || other as int % 8
                    == BOXED_TAG) && fewer < steps && #[trigger] takes(words, other, fewer);
            assert(other == term);
            lemma_more_steps(words, term, fewer, (steps - 1) as nat);
        }
        let chain = rest.insert(number);
        assert(takes(words, term, steps));
        assert forall|k: int| #[trigger] chain.contains(k) implies 0 <= k < 2 * words.len()
            && takes_at_most(words, k, steps) by {
            if k != number {
                assert(rest.contains(k));
                let (other, fewer) = choose|other: i64, fewer: nat|
                    number_of(other) == k && (other as int % 8 == LIST_TAG || other as int % 8
                        == BOXED_TAG) && fewer <= steps - 1 && #[trigger] takes(words, other, fewer);
                assert(takes(words, other, fewer));
            }
        }
        chain
    }
}

/// Whether the reference of a number takes at most as many steps.
spec fn takes_at_most(words: Seq<i64>, number: int, steps: nat) -> bool {
    exists|term: i64, fewer: nat|
        number_of(term) == number && (term as int % 8 == LIST_TAG || term as int % 8 == BOXED_TAG)
            && fewer <= steps && #[trigger] takes(words, term, fewer)
}

/// What stands for a value is followed to its end in two steps for each word at most:
/// one for each reference that there can be.
proof fn lemma_terms_end_soon(words: Seq<i64>, term: i64)
    requires
        is_term(words, term),
    ensures
        ends_within(words, term, 2 * words.len()),
{
    let steps = lemma_term_ends(words, term, value_of(words, term));
    let least = lemma_takes_some(words, term, steps);
    let chain = lemma_chain(words, term, least);
    lemma_int_range(0, 2 * words.len() as int);
    assert(chain.subset_of(set_int_range(0, 2 * words.len() as int)));
    lemma_len_subset(chain, set_int_range(0, 2 * words.len() as int));
    lemma_more_steps(words, term, least, 2 * words.len());
}

/// Whether what was followed to its end stands for a value.
spec fn followed(words: Seq<i64>, done: Seq<bool>) -> bool {
    &&& done.len() == 2 * words.len()
    &&& forall|term: i64|
        #[trigger] refers(words, term) && done[number_of(term)] ==> is_term(words, term)
}

impl Heap {
    /// Follows a term to its end, unless that takes more than so many steps. What was
    /// followed before is not followed again.
    fn follow(&self, term: i64, steps: usize, done: &mut Vec<bool>) -> (r: bool)
        requires
            self.wf(),
            followed(self@, old(done)@),
        ensures
            followed(self@, final(done)@),
            r ==> is_term(self@, term),
            ends_within(self@, term, steps as nat) ==> r,
        decreases steps,
    {
        let (tag, at) = split_word(term);
        let count: i64 = self.words.len() as i64;
        let (first, length): (usize, usize) = if tag == LIST_TAG && at >= 0 && at + 1 < count {
            (at as usize, 2)
        } else if tag == BOXED_TAG {
            match self.layout(at) {
                Some(layout) => {
                    proof {
                        lemma_layout_within(self@, at as int);
                    }
                    (at as usize + 1 + layout.plain, layout.terms)
                },
                None => {
                    proof {
                        lemma_term_of_parts(self@, term);
                    }
                    return true;
                },
            }
        } else {
            proof {
                lemma_term_of_parts(self@, term);
            }
            return true;
        };
        proof {
            assert(refers(self@, term));
            lemma_parts(self@, term);
            assert(parts(self@, term) =~= self@.subrange(first as int, first + length));
        }
        let number: usize = 2 * at as usize + (tag - BOXED_TAG) as usize;
        assert(number == number_of(term));
        if done[number] {
            return true;
        }
        if steps == 0 {
            return false;
        }
        let ghost terms = parts(self@, term);
        let mut i: usize = 0;
        while i < length
            invariant
                self.wf(),
                i <= length,
                first + length <= self@.len(),
                terms == parts(self@, term),
                terms == self@.subrange(first as int, first + length),
                refers(self@, term),
                steps > 0,
                followed(self@, done@),
                are_terms(self@, terms, i as int),
            decreases length - i,
        {
            assert(terms[i as int] == self@[first + i]);
            if !self.follow(self.words[first + i], steps - 1, done) {
                return false;
            }
            i += 1;
        }
        proof {
            lemma_term_of_parts(self@, term);
        }
        let ghost before = done@;
        done.set(number, true);
        proof {
            assert forall|other: i64|
                #[trigger] refers(self@, other) && done@[number_of(other)] implies is_term(
                self@,
                other,
            ) by {
                if number_of(other) != number {
                    assert(before[number_of(other)]);
                } else {
                    assert(other == term);
                }
            }
        }
        true
    }

    /// Whether a term stands for some value: whether following it from reference to
    /// reference comes to an end.
    pub fn holds_term(&self, term: i64) -> (r: bool)
        requires
            self.wf(),
        ensures
            r == is_term(self@, term),
    {
        let mut done: Vec<bool> = Vec::new();
        let count: usize = 2 * self.words.len();
        while done.len() < count
            invariant
                done@.len() <= count,
                forall|i: int| 0 <= i < done@.len() ==> !(#[trigger] done@[i]),
            decreases count - done@.len(),
        {
            done.push(false);
        }
        proof {
            if is_term(self@, term) {
                lemma_terms_end_soon(self@, term);
            }
            assert forall|other: i64| #[trigger] refers(self@, other) implies 0 <= number_of(other)
                < count by {
                if other as int % 8 == BOXED_TAG {
                    lemma_layout_within(self@, other as int / 8);
                }
            }
        }
        self.follow(term, count, &mut done)
    }
}

/// Copies what a term stands for from one heap to another.
pub fn copy_term(source: &Heap, term: i64, heap: &mut Heap) -> (r: Result<i64, SendError>)
    requires
        source.wf(),
        old(heap).wf(),
        is_term(source@, term),
    ensures
        final(heap).wf(),
        final(heap).room() == old(heap).room(),
        extends(final(heap)@, old(heap)@),
        match after_copy(value_of(source@, term), old(heap).free()) {
            Ok(left) => {
                &&& r matches Ok(copy) && decodes(final(heap)@, copy, value_of(source@, term))
                &&& final(heap).free() == left
            },
            Err(e) => r == Err::<i64, SendError>(e),
        },
{
    copy_value(source, term, heap, Ghost(value_of(source@, term)))
}

/// A term stands for one value only.
pub proof fn law_terms_are_unambiguous(words: Seq<i64>, term: i64, one: TermValue, other: TermValue)
    requires
        decodes(words, term, one),
        decodes(words, term, other),
    ensures
        one == other,
    decreases one,
{
    let at = term as int / 8;
    match one {
        TermValue::Cons(head, tail) => {
            law_terms_are_unambiguous(words, words[at], *head, *other->Cons_0);
            law_terms_are_unambiguous(words, words[at + 1], *tail, *other->Cons_1);
        },
        TermValue::Boxed { header, plain, terms } => {
            let others = other->terms;
            assert(plain =~= other->plain) by {
                assert forall|i: int| 0 <= i < plain.len() implies plain[i] == other->plain[i] by {
                    assert(plain[i] == words[at + 1 + i]);
                    assert(other->plain[i] == words[at + 1 + i]);
                }
            }
            assert(terms =~= others) by {
                assert forall|i: int| 0 <= i < terms.len() implies terms[i] == others[i] by {
                    assert(decodes(words, words[at + 1 + plain.len() + i], terms[i]));
                    assert(decodes(words, words[at + 1 + plain.len() + i], others[i]));
                    assert(decodes_to(one, terms, i));
                    law_terms_are_unambiguous(
                        words,
                        words[at + 1 + plain.len() + i],
                        terms[i],
                        others[i],
                    );
                }
            }
        },
        _ => {},
    }
}

} // verus!
