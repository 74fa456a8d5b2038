//! Where the room for a buffer comes from, and where it goes back to.

use vstd::prelude::*;

verus! {

/// Reserves room for `additional` bytes behind those of `buffer`, and says whether
/// it was given.
///
/// Calls `Vec::try_reserve_exact`. Claimed of it: the bytes of the buffer stay as
/// they are, and room for more than `isize::MAX` bytes in all is never given.
/// Whether smaller room is given is up to the allocator.
#[verifier::external_body]
fn try_reserve_exact(buffer: Vec<u8>, additional: usize) -> (reserved: (Vec<u8>, bool))
    ensures
        reserved.0@ == buffer@,
        reserved.1 ==> buffer@.len() + additional <= isize::MAX,
{
    let mut buffer = buffer;
    let given = buffer.try_reserve_exact(additional).is_ok();
    (buffer, given)
}

/// Whether the allocator was asked for room for `n` bytes and gave it, or was
/// asked and did not. It was asked behind a new buffer, which has no room of its own.
pub closed spec fn allocator_answered(n: usize, given: bool) -> bool {
    exists|empty: Vec<u8>, after: Vec<u8>|
        empty@.len() == 0 && call_ensures(Vec::<u8>::new, (), empty) && #[trigger] call_ensures(
            try_reserve_exact,
            (empty, n),
            (after, given),
        )
}

/// Whether `room` is a buffer that was new and that the allocator gave room for
/// `n` bytes to.
pub closed spec fn allocator_gave(n: usize, room: Vec<u8>) -> bool {
    exists|empty: Vec<u8>|
        empty@.len() == 0 && call_ensures(Vec::<u8>::new, (), empty) && #[trigger] call_ensures(
            try_reserve_exact,
            (empty, n),
            (room, true),
        )
}

/// An empty buffer with room for `n` bytes, or `None` where the allocator
/// refuses. A refusal does not end the process.
pub fn reserve(n: usize) -> (buffer: Option<Vec<u8>>)
    ensures
        allocator_answered(n, buffer is Some),
        buffer matches Some(v) ==> allocator_gave(n, v) && v@.len() == 0 && n <= isize::MAX,
{
    let empty: Vec<u8> = Vec::new();
    let ghost before = empty;
    assert(call_ensures(Vec::<u8>::new, (), before));
    let (room, given) = try_reserve_exact(empty, n);
    assert(call_ensures(try_reserve_exact, (before, n), (room, given)));
    if given {
        Some(room)
    } else {
        None
    }
}

/// Reserving `n` bytes asks the allocator for that many behind a new buffer. What
/// comes out is that buffer with the room, or nothing where it was refused.
proof fn law_room_is_what_was_asked_for(n: usize, buffer: Option<Vec<u8>>)
    requires
        call_ensures(reserve, (n,), buffer),
    ensures
        exists|empty: Vec<u8>, after: Vec<u8>, given: bool|
            call_ensures(Vec::<u8>::new, (), empty) && #[trigger] call_ensures(
                try_reserve_exact,
                (empty, n),
                (after, given),
            ) && buffer == (if given {
                Some(after)
            } else {
                None
            }),
{
}

/// Whether a buffer was given up, and its room with it: `Result::err` was called on
/// it as a success value, which consumes the result and discards that value.
pub open spec fn was_given_back(buffer: Vec<u8>) -> bool {
    call_ensures(Result::<Vec<u8>, ()>::err, (Ok::<Vec<u8>, ()>(buffer),), None::<()>)
}

/// Gives a buffer up, and its room with it.
pub fn give_back(buffer: Vec<u8>)
    ensures
        was_given_back(buffer),
{
    let ghost given = buffer;
    let unused: Result<Vec<u8>, ()> = Ok(buffer);
    let nothing = unused.err();
    assert(call_ensures(Result::<Vec<u8>, ()>::err, (Ok::<Vec<u8>, ()>(given),), nothing));
}

/// What was done with a source.
pub ghost enum Event {
    /// A buffer was given back.
    GaveBack(Vec<u8>),
    /// Room for this many bytes was asked for.
    Asked(usize),
}

/// The events of giving back buffers and then asking for sizes.
pub open spec fn back_then_asked(given: Seq<Vec<u8>>, asked: Seq<usize>) -> Seq<Event> {
    given.map_values(|v: Vec<u8>| Event::GaveBack(v)) + asked.map_values(
        |n: usize| Event::Asked(n),
    )
}

/// In such events every giving back comes before every asking.
pub proof fn law_back_before_asked(given: Seq<Vec<u8>>, asked: Seq<usize>)
    ensures
        back_then_asked(given, asked).len() == given.len() + asked.len(),
        forall|i: int|
            0 <= i < given.len() ==> #[trigger] back_then_asked(given, asked)[i] == Event::GaveBack(
                given[i],
            ),
        forall|i: int|
            given.len() <= i < given.len() + asked.len() ==> #[trigger] back_then_asked(
                given,
                asked,
            )[i] == Event::Asked(asked[i - given.len()]),
{
}

/// A function that gives room or refuses it, and, for the proofs, the sizes that it
/// was asked for and, in one order with these, the buffers that were given back.
///
/// The function can be called through `ask` alone, so no request goes unrecorded.
pub struct Source<R> {
    reserve: R,
    asked: Ghost<Seq<usize>>,
    events: Ghost<Seq<Event>>,
}

impl<R: Fn(usize) -> Option<Vec<u8>>> Source<R> {
    /// The function that gives the room.
    pub closed spec fn reserve(&self) -> R {
        self.reserve
    }

    /// The sizes that the function was asked for, in order.
    pub closed spec fn asked(&self) -> Seq<usize> {
        self.asked@
    }

    /// What was done with the source, in order.
    pub closed spec fn events(&self) -> Seq<Event> {
        self.events@
    }

    /// A source that was not asked for anything.
    pub fn new(reserve: R) -> (source: Self)
        ensures
            source.reserve() == reserve,
            source.asked() == Seq::<usize>::empty(),
            source.events() == Seq::<Event>::empty(),
    {
        Source { reserve, asked: Ghost(Seq::empty()), events: Ghost(Seq::empty()) }
    }

    /// Asks for room for `n` bytes.
    pub fn ask(&mut self, n: usize) -> (answer: Option<Vec<u8>>)
        requires
            call_requires(old(self).reserve(), (n,)),
        ensures
            call_ensures(old(self).reserve(), (n,), answer),
            final(self).reserve() == old(self).reserve(),
            final(self).asked() == old(self).asked().push(n),
            final(self).events() == old(self).events().push(Event::Asked(n)),
    {
        self.asked = Ghost(self.asked@.push(n));
        self.events = Ghost(self.events@.push(Event::Asked(n)));
        (self.reserve)(n)
    }

    /// Gives a buffer back.
    pub fn take_back(&mut self, buffer: Vec<u8>)
        ensures
            was_given_back(buffer),
            final(self).reserve() == old(self).reserve(),
            final(self).asked() == old(self).asked(),
            final(self).events() == old(self).events().push(Event::GaveBack(buffer)),
    {
        self.events = Ghost(self.events@.push(Event::GaveBack(buffer)));
        give_back(buffer);
    }
}

} // verus!
