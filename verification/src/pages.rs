//! Writing to the pages of a buffer, so that each is backed by memory.

use vstd::prelude::*;

verus! {

/// The number of bytes in a memory page.
pub const PAGE: usize = 4096;

/// Whether byte `i` of a buffer of `len` bytes is one that touching writes: the
/// first of a page, or the last of all.
pub open spec fn is_touched(i: int, len: nat) -> bool {
    i % PAGE as int == 0 || i == len - 1
}

/// What touching leaves in byte `i` of a buffer of `len` bytes: 1 in the last
/// byte, else the low byte of the position.
pub open spec fn touch_value(i: int, len: nat) -> u8 {
    if i == len - 1 {
        1
    } else {
        (i % 256) as u8
    }
}

/// Whether every page of a buffer was written.
pub open spec fn pages_touched(buffer: Seq<u8>) -> bool {
    forall|i: int|
        0 <= i < buffer.len() && is_touched(i, buffer.len()) ==> #[trigger] buffer[i]
            == touch_value(i, buffer.len())
}

/// Whether every byte of a buffer was written: those that touching writes, and
/// zeros in all the others.
pub open spec fn is_filled(buffer: Seq<u8>) -> bool {
    &&& pages_touched(buffer)
    &&& forall|i: int|
        0 <= i < buffer.len() && !is_touched(i, buffer.len()) ==> #[trigger] buffer[i] == 0
}

/// Takes the bytes out of a buffer and keeps its room.
///
/// What comes out is what `Vec::clear` made of `buffer`.
pub fn emptied(buffer: Vec<u8>) -> (empty: Vec<u8>)
    ensures
        empty@.len() == 0,
        exists|r: &mut Vec<u8>|
            *r == buffer && *final(r) == empty && #[trigger] call_ensures(
                Vec::<u8>::clear,
                (r,),
                (),
            ),
{
    let mut empty = buffer;
    empty.clear();
    empty
}

/// Gives a buffer `len` bytes, with zeros for those that it lacks.
///
/// What comes out is what `Vec::resize` made of `buffer`, so where `buffer` had the
/// room it has it still.
pub fn lengthened(buffer: Vec<u8>, len: usize) -> (longer: Vec<u8>)
    ensures
        longer@.len() == len,
        forall|i: int| 0 <= i < len && i < buffer@.len() ==> #[trigger] longer@[i] == buffer@[i],
        forall|i: int| buffer@.len() <= i < len ==> #[trigger] longer@[i] == 0,
        exists|r: &mut Vec<u8>|
            *r == buffer && *final(r) == longer && #[trigger] call_ensures(
                Vec::<u8>::resize,
                (r, len, 0u8),
                (),
            ),
{
    let ghost before = buffer@;
    let mut longer = buffer;
    longer.resize(len, 0);
    proof {
        if len > before.len() {
            assert forall|i: int| 0 <= i < before.len() implies #[trigger] longer@[i] == before[i] by {
                assert(longer@.subrange(0, before.len() as int)[i] == longer@[i]);
            }
        }
    }
    longer
}

/// Stores a byte in a buffer.
///
/// What comes out is what a store of `byte` at `i` made of `buffer`.
pub fn stored(buffer: Vec<u8>, i: usize, byte: u8) -> (after: Vec<u8>)
    requires
        i < buffer@.len(),
    ensures
        after@ == buffer@.update(i as int, byte),
        exists|r: &mut Vec<u8>|
            *r == buffer && *final(r) == after && #[trigger] call_ensures(
                vstd::std_specs::core::index_set::<Vec<u8>, usize, u8>,
                (r, i, byte),
                (),
            ),
{
    let mut after = buffer;
    vstd::std_specs::core::index_set(&mut after, i, byte);
    after
}

/// Whether each buffer of `steps` is what a store made of the one before it, at the
/// place and of the byte that `places` and `bytes` give.
pub open spec fn stores_made(steps: Seq<Vec<u8>>, places: Seq<usize>, bytes: Seq<u8>) -> bool {
    &&& steps.len() == places.len() + 1
    &&& bytes.len() == places.len()
    &&& forall|j: int, k: int|
        #![trigger steps[j], steps[k]]
        0 <= j < places.len() && k == j + 1 ==> call_ensures(
            stored,
            (steps[j], places[j], bytes[j]),
            steps[k],
        )
}

/// Whether one of `places` is in the page of byte `i`.
pub open spec fn in_page_of(places: Seq<usize>, i: int) -> bool {
    exists|j: int|
        0 <= j < places.len() && #[trigger] places[j] as int / PAGE as int == i / PAGE as int
}

/// Whether each page of a buffer of `len` bytes has one of `places` in it.
pub open spec fn on_every_page(places: Seq<usize>, len: nat) -> bool {
    forall|i: int| 0 <= i < len ==> #[trigger] in_page_of(places, i)
}

/// Whether `after` came from `before` by stores alone, with one in every page.
pub open spec fn touched_by_stores(before: Vec<u8>, after: Vec<u8>) -> bool {
    exists|steps: Seq<Vec<u8>>, places: Seq<usize>, bytes: Seq<u8>| #[trigger]
        stores_made(steps, places, bytes) && steps.first() == before && steps.last() == after
            && on_every_page(places, before@.len())
}

/// Whether `buffer` was made of `room` in place: its bytes taken out, `len` bytes
/// put in, and a byte stored in every page.
pub open spec fn filled_in_place(room: Vec<u8>, len: usize, buffer: Vec<u8>) -> bool {
    exists|empty: Vec<u8>, longer: Vec<u8>| #[trigger]
        call_ensures(emptied, (room,), empty) && #[trigger] call_ensures(
            lengthened,
            (empty, len),
            longer,
        ) && touched_by_stores(longer, buffer)
}

/// Writes one byte in every page of a buffer, and the last byte.
///
/// The system backs a page with memory when it is first written, so a
/// reservation alone takes none. One byte in each page is enough. The last byte
/// is written for the page that a length off the page size leaves over.
pub fn touched(buffer: Vec<u8>) -> (after: Vec<u8>)
    ensures
        after@.len() == buffer@.len(),
        pages_touched(after@),
        forall|i: int|
            0 <= i < buffer@.len() && !is_touched(i, buffer@.len()) ==> #[trigger] after@[i]
                == buffer@[i],
        touched_by_stores(buffer, after),
{
    let ghost before = buffer;
    let ghost mut steps: Seq<Vec<u8>> = seq![before];
    let ghost mut places: Seq<usize> = Seq::empty();
    let ghost mut bytes: Seq<u8> = Seq::empty();
    let mut after = buffer;
    let len: usize = after.len();
    if len == 0 {
        assert(stores_made(steps, places, bytes));
        return after;
    }
    let mut i: usize = 0;
    loop
        invariant_except_break
            i == places.len() * PAGE,
            forall|j: int|
                0 <= j < len ==> #[trigger] after@[j] == (if j < i && j % PAGE as int == 0 {
                    (j % 256) as u8
                } else {
                    before@[j]
                }),
        invariant
            after@.len() == len,
            before@.len() == len,
            i < len,
            i % PAGE == 0,
            stores_made(steps, places, bytes),
            steps.first() == before,
            steps.last() == after,
            forall|q: int| 0 <= q < places.len() ==> #[trigger] places[q] == q * PAGE,
        ensures
            places.len() * PAGE >= len,
            forall|j: int|
                0 <= j < len ==> #[trigger] after@[j] == (if j % PAGE as int == 0 {
                    (j % 256) as u8
                } else {
                    before@[j]
                }),
        decreases len - i,
    {
        assert((i & 0xFF) == i % 256) by (bit_vector);
        let byte: u8 = (i & 0xFF) as u8;
        after = stored(after, i, byte);
        proof {
            lemma_store_made(steps, places, bytes, i, byte, after);
            steps = steps.push(after);
            places = places.push(i);
            bytes = bytes.push(byte);
        }
        if len - i <= PAGE {
            break;
        }
        i = i + PAGE;
    }
    let ghost starts = places;
    after = stored(after, len - 1, 1);
    proof {
        lemma_store_made(steps, places, bytes, (len - 1) as usize, 1, after);
        steps = steps.push(after);
        places = places.push((len - 1) as usize);
        bytes = bytes.push(1);
        assert forall|b: int| 0 <= b < len implies #[trigger] in_page_of(places, b) by {
            let page = b / PAGE as int;
            assert(page < starts.len());
            assert(places[page] == starts[page]);
            assert(places[page] as int / PAGE as int == page);
        }
    }
    after
}

/// One more store keeps a record of stores a record of stores.
proof fn lemma_store_made(
    steps: Seq<Vec<u8>>,
    places: Seq<usize>,
    bytes: Seq<u8>,
    at: usize,
    byte: u8,
    after: Vec<u8>,
)
    requires
        stores_made(steps, places, bytes),
        call_ensures(stored, (steps.last(), at, byte), after),
    ensures
        stores_made(steps.push(after), places.push(at), bytes.push(byte)),
        steps.push(after).first() == steps.first(),
        steps.push(after).last() == after,
{
    let more = steps.push(after);
    let more_places = places.push(at);
    let more_bytes = bytes.push(byte);
    assert forall|j: int, k: int|
        #![trigger more[j], more[k]]
        0 <= j < more_places.len() && k == j + 1 implies call_ensures(
        stored,
        (more[j], more_places[j], more_bytes[j]),
        more[k],
    ) by {
        if j < places.len() {
            assert(more[j] == steps[j] && more[k] == steps[k]);
        }
    }
}

/// Writes one byte in every page of `buffer`, and the last byte.
pub fn touch_pages(buffer: &mut Vec<u8>)
    ensures
        final(buffer)@.len() == old(buffer)@.len(),
        pages_touched(final(buffer)@),
        forall|i: int|
            0 <= i < old(buffer)@.len() && !is_touched(i, old(buffer)@.len())
                ==> #[trigger] final(buffer)@[i] == old(buffer)@[i],
        touched_by_stores(*old(buffer), *final(buffer)),
{
    let mut taken: Vec<u8> = Vec::new();
    core::mem::swap(&mut taken, buffer);
    *buffer = touched(taken);
}

/// Fills the room of a buffer with `len` bytes and writes to each of its pages.
///
/// What the buffer held before is dropped, its room is kept. The zeros give it
/// its length, the writes that follow back its pages.
pub fn fill(room: Vec<u8>, len: usize) -> (buffer: Vec<u8>)
    ensures
        buffer@.len() == len,
        is_filled(buffer@),
        filled_in_place(room, len, buffer),
{
    let empty = emptied(room);
    assert(call_ensures(emptied, (room,), empty));
    let ghost bare = empty;
    let longer = lengthened(empty, len);
    assert(call_ensures(lengthened, (bare, len), longer));
    touched(longer)
}

/// Touching writes the first byte of each page and the last byte of all, the last
/// with 1 and the others with the low byte of their position.
pub proof fn law_touched_bytes(buffer: Seq<u8>)
    requires
        pages_touched(buffer),
    ensures
        buffer.len() > 0 ==> buffer[buffer.len() - 1] == 1,
        forall|i: int|
            0 <= i < buffer.len() - 1 && i % 4096 == 0 ==> #[trigger] buffer[i] as int == i % 256,
        forall|i: int|
            0 <= i < buffer.len() && i % 4096 != 0 && i != buffer.len() - 1 ==> !#[trigger] is_touched(
                i,
                buffer.len(),
            ),
{
}

/// Touching a buffer keeps its length, puts 1 in its last byte and the low byte of
/// the position in the first byte of each page before it, and leaves every other
/// byte as it was. It stores in every page. The steps of the stores, with their
/// places and bytes, and for each byte a store in its page, are returned.
pub proof fn law_touching(before: Vec<u8>, after: Vec<u8>) -> (record: (
    Seq<Vec<u8>>,
    Seq<usize>,
    Seq<u8>,
    Seq<int>,
))
    requires
        exists|r: &mut Vec<u8>|
            *r == before && *final(r) == after && #[trigger] call_ensures(touch_pages, (r,), ()),
    ensures
        after@.len() == before@.len(),
        after@.len() > 0 ==> after@[after@.len() - 1] == 1,
        forall|i: int|
            0 <= i < after@.len() - 1 ==> #[trigger] after@[i] as int == (if i % 4096 == 0 {
                i % 256
            } else {
                before@[i] as int
            }),
        ({
            let (steps, places, bytes, store_of) = record;
            &&& steps[0] == before
            &&& steps.len() == places.len() + 1
            &&& bytes.len() == places.len()
            &&& steps[steps.len() - 1] == after
            &&& forall|j: int, k: int|
                #![trigger steps[j], steps[k]]
                0 <= j < places.len() && k == j + 1 ==> call_ensures(
                    stored,
                    (steps[j], places[j], bytes[j]),
                    steps[k],
                )
            &&& store_of.len() == before@.len()
            &&& forall|i: int|
                0 <= i < before@.len() ==> 0 <= #[trigger] store_of[i] < places.len()
                    && places[store_of[i]] as int / 4096 == i / 4096
        }),
{
    assert(touched_by_stores(before, after));
    lemma_record_of_stores(before, after)
}

/// The record of the stores that made one buffer of another, with a store in the page
/// of each byte.
proof fn lemma_record_of_stores(before: Vec<u8>, after: Vec<u8>) -> (record: (
    Seq<Vec<u8>>,
    Seq<usize>,
    Seq<u8>,
    Seq<int>,
))
    requires
        touched_by_stores(before, after),
    ensures
        ({
            let (steps, places, bytes, store_of) = record;
            &&& stores_made(steps, places, bytes)
            &&& steps[0] == before
            &&& steps[steps.len() - 1] == after
            &&& store_of.len() == before@.len()
            &&& forall|i: int|
                0 <= i < before@.len() ==> 0 <= #[trigger] store_of[i] < places.len()
                    && places[store_of[i]] as int / PAGE as int == i / PAGE as int
        }),
{
    let (steps, places, bytes) = choose|
        steps: Seq<Vec<u8>>,
        places: Seq<usize>,
        bytes: Seq<u8>,
    | #[trigger]
        stores_made(steps, places, bytes) && steps.first() == before && steps.last() == after
            && on_every_page(places, before@.len());
    let store_of = Seq::new(
        before@.len(),
        |i: int|
            choose|j: int|
                0 <= j < places.len() && #[trigger] places[j] as int / PAGE as int == i / PAGE as int,
    );
    assert forall|i: int| 0 <= i < before@.len() implies 0 <= #[trigger] store_of[i] < places.len()
        && places[store_of[i]] as int / PAGE as int == i / PAGE as int by {
        assert(in_page_of(places, i));
    }
    (steps, places, bytes, store_of)
}

/// A filled buffer is zeros up to its last byte, which is 1.
pub proof fn law_filled_bytes(buffer: Seq<u8>)
    requires
        is_filled(buffer),
    ensures
        buffer.len() > 0 ==> buffer[buffer.len() - 1] == 1,
        forall|i: int| 0 <= i < buffer.len() - 1 ==> #[trigger] buffer[i] == 0,
{
}

/// Emptying, lengthening and storing are what `Vec::clear`, `Vec::resize` and a
/// store by index make of the very buffer that they are given.
pub proof fn law_steps_are_made_in_place(before: Vec<u8>, n: usize, byte: u8, after: Vec<u8>)
    ensures
        call_ensures(emptied, (before,), after) ==> exists|r: &mut Vec<u8>|
            *r == before && *final(r) == after && #[trigger] call_ensures(
                Vec::<u8>::clear,
                (r,),
                (),
            ),
        call_ensures(lengthened, (before, n), after) ==> exists|r: &mut Vec<u8>|
            *r == before && *final(r) == after && #[trigger] call_ensures(
                Vec::<u8>::resize,
                (r, n, 0u8),
                (),
            ),
        call_ensures(stored, (before, n, byte), after) ==> exists|r: &mut Vec<u8>|
            *r == before && *final(r) == after && #[trigger] call_ensures(
                vstd::std_specs::core::index_set::<Vec<u8>, usize, u8>,
                (r, n, byte),
                (),
            ),
{
}

/// A buffer that was filled is the room that it was filled in: the bytes of the room
/// were taken out, `len` bytes were put in, and from then on bytes were stored in it
/// and nothing else was done. At least one of these stores is in each page of it.
/// The record names the room once emptied, the buffer after each store, the place
/// and the byte of each store, and for each byte a store in its page.
pub proof fn law_every_page_is_stored_to(room: Vec<u8>, len: usize, buffer: Vec<u8>) -> (record: (
    Vec<u8>,
    Seq<Vec<u8>>,
    Seq<usize>,
    Seq<u8>,
    Seq<int>,
))
    requires
        call_ensures(fill, (room, len), buffer),
    ensures
        buffer@.len() == len,
        len > 0 ==> buffer@[len - 1] == 1,
        forall|i: int| 0 <= i < len - 1 ==> #[trigger] buffer@[i] == 0,
        ({
            let (empty, steps, places, bytes, store_of) = record;
            &&& call_ensures(emptied, (room,), empty)
            &&& call_ensures(lengthened, (empty, len), steps[0])
            &&& steps.len() == places.len() + 1
            &&& bytes.len() == places.len()
            &&& steps[steps.len() - 1] == buffer
            &&& forall|j: int, k: int|
                #![trigger steps[j], steps[k]]
                0 <= j < places.len() && k == j + 1 ==> call_ensures(
                    stored,
                    (steps[j], places[j], bytes[j]),
                    steps[k],
                )
            &&& store_of.len() == len
            &&& forall|i: int|
                0 <= i < len ==> 0 <= #[trigger] store_of[i] < places.len()
                    && places[store_of[i]] as int / 4096 == i / 4096
        }),
{
    assert(filled_in_place(room, len, buffer));
    let (empty, longer) = choose|empty: Vec<u8>, longer: Vec<u8>| #[trigger]
        call_ensures(emptied, (room,), empty) && #[trigger] call_ensures(
            lengthened,
            (empty, len),
            longer,
        ) && touched_by_stores(longer, buffer);
    let (steps, places, bytes, store_of) = lemma_record_of_stores(longer, buffer);
    (empty, steps, places, bytes, store_of)
}

} // verus!
