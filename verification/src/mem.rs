//! The memory that is held, and setting how much of it there is.

use vstd::arithmetic::power2::*;
use vstd::prelude::*;

use crate::gib::{GIB, MAX_GIB};
use crate::pages::{
    emptied, fill, is_filled, law_every_page_is_stored_to, law_filled_bytes, lengthened, stored,
};
use crate::source::{back_then_asked, law_back_before_asked, reserve, was_given_back, Event, Source};

verus! {

/// The size reported as requested before any request was made: 1.5 GiB.
pub const DEFAULT_BYTES: u64 = 1_610_612_736;

/// The number of bytes in one MiB.
pub const MIB: usize = 1_048_576;

/// The size at which a refused reservation is not tried again at half of it.
pub const SMALLEST_RETRY: usize = MIB;

/// The memory that is held and the size that was last asked for.
///
/// The size asked for is kept beside the buffer: where memory was short the
/// buffer is smaller or missing, and the difference shows how much was lost. For
/// the proofs the state also records the sizes that were asked of allocators, and
/// the buffers that were taken from them.
pub struct MemState {
    buf: Option<Vec<u8>>,
    requested_bytes: u64,
    asked: Ghost<Seq<usize>>,
    taken: Ghost<Seq<Vec<u8>>>,
}

/// What setting the memory came to.
#[derive(Clone, Copy, Debug, PartialEq, Eq)]
pub struct HoldOutcome {
    /// Whether memory is held now.
    pub holding: bool,
    /// Whether less is held than was asked for.
    pub degraded: bool,
    /// The bytes asked for.
    pub requested: u64,
    /// The bytes held, 0 where none are.
    pub held: usize,
    /// Whether memory that was held before was given back.
    pub released: bool,
}

/// The size of attempt `k` at a request for `target` bytes: `target`, halved
/// `k` times.
pub open spec fn attempt_size(target: nat, k: nat) -> nat {
    target / pow2(k)
}

/// Whether attempt `k` at a request for `target` bytes can come: it is the
/// first, or the one before it was for more than `SMALLEST_RETRY`.
pub open spec fn attempt_allowed(target: nat, k: nat) -> bool {
    k == 0 || attempt_size(target, (k - 1) as nat) > SMALLEST_RETRY
}

/// Whether `reserve` may be asked for the sizes of the attempts at a request for
/// `target` bytes.
pub open spec fn may_be_asked<R: Fn(usize) -> Option<Vec<u8>>>(reserve: R, target: nat) -> bool {
    forall|k: nat| #[trigger]
        attempt_allowed(target, k) ==> call_requires(reserve, (attempt_size(target, k) as usize,))
}

/// Whether `reserve` was asked for `n` bytes and refused them.
pub open spec fn was_refused<R: Fn(usize) -> Option<Vec<u8>>>(reserve: R, n: nat) -> bool {
    call_ensures(reserve, (n as usize,), None::<Vec<u8>>)
}

/// Whether `reserve` was asked for `n` bytes and gave them.
pub open spec fn was_granted<R: Fn(usize) -> Option<Vec<u8>>>(reserve: R, n: nat) -> bool {
    exists|v: Vec<u8>| #[trigger] call_ensures(reserve, (n as usize,), Some(v))
}

/// Whether attempt `k` at a request for `target` bytes settled that `held` bytes
/// are held: the attempts before it were refused, and it was granted all of
/// `held`, or nothing is held and it was refused at no more than
/// `SMALLEST_RETRY` bytes.
pub open spec fn settled_at<R: Fn(usize) -> Option<Vec<u8>>>(
    reserve: R,
    target: nat,
    held: nat,
    k: nat,
) -> bool {
    &&& attempt_allowed(target, k)
    &&& forall|j: nat| j < k ==> #[trigger] was_refused(reserve, attempt_size(target, j))
    &&& held > 0 ==> held == attempt_size(target, k) && was_granted(reserve, held)
    &&& held == 0 ==> attempt_size(target, k) <= SMALLEST_RETRY && was_refused(
        reserve,
        attempt_size(target, k),
    )
}

/// Whether `held` bytes are what a request for `target` bytes gets from
/// `reserve`: the size of the first attempt that was granted, or 0 where every
/// attempt was refused down to one of at most `SMALLEST_RETRY` bytes.
pub open spec fn obtained<R: Fn(usize) -> Option<Vec<u8>>>(
    reserve: R,
    target: nat,
    held: nat,
) -> bool {
    exists|k: nat| settled_at(reserve, target, held, k)
}

/// The sizes of the first `count` attempts at a request for `target` bytes.
pub open spec fn attempt_sizes(target: nat, count: nat) -> Seq<usize> {
    Seq::new(count, |j: int| attempt_size(target, j as nat) as usize)
}

/// Whether a request for `target` bytes that came to `held` asked `reserve` once
/// for each of its attempts up to the one that settled it, and for nothing where
/// the size is 0 or `usize` cannot hold it. `before` and `after` are the sizes
/// asked for until then, and with the request.
pub open spec fn asked_in_turn<R: Fn(usize) -> Option<Vec<u8>>>(
    reserve: R,
    target: u64,
    held: nat,
    before: Seq<usize>,
    after: Seq<usize>,
) -> bool {
    if 0 < target <= usize::MAX {
        exists|k: nat| #[trigger]
            settled_at(reserve, target as nat, held, k) && after == before + attempt_sizes(
                target as nat,
                k + 1,
            )
    } else {
        after == before
    }
}

impl MemState {
    /// The bytes last asked for.
    pub closed spec fn requested(&self) -> u64 {
        self.requested_bytes
    }

    /// The sizes asked of allocators for this state so far, in order.
    pub closed spec fn asked(&self) -> Seq<usize> {
        self.asked@
    }

    /// The buffers taken into this state so far, in order.
    pub closed spec fn taken(&self) -> Seq<Vec<u8>> {
        self.taken@
    }

    /// The buffer that is held, alone, or nothing.
    pub closed spec fn kept(&self) -> Seq<Vec<u8>> {
        match self.buf {
            Some(v) => seq![v],
            None => Seq::empty(),
        }
    }

    /// Of the buffers taken so far, the last is held if one is, and every other was
    /// given back.
    pub open spec fn balanced(&self) -> bool {
        &&& self.kept().len() <= self.taken().len()
        &&& self.taken().skip(self.taken().len() - self.kept().len()) == self.kept()
        &&& forall|i: int|
            0 <= i < self.taken().len() - self.kept().len() ==> was_given_back(
                #[trigger] self.taken()[i],
            )
    }

    /// The bytes of the buffer that is held, if one is.
    pub closed spec fn buffer(&self) -> Option<Seq<u8>> {
        match self.buf {
            Some(v) => Some(v@),
            None => None,
        }
    }

    /// The number of bytes held.
    pub open spec fn held(&self) -> nat {
        match self.buffer() {
            Some(b) => b.len(),
            None => 0,
        }
    }

    /// A buffer that is held has the size of an attempt at what was last asked
    /// for, is not empty, and has all its bytes written.
    pub open spec fn wf(&self) -> bool {
        self.buffer() matches Some(b) ==> {
            &&& b.len() > 0
            &&& is_filled(b)
            &&& exists|k: nat| #[trigger]
                attempt_allowed(self.requested() as nat, k) && b.len() == attempt_size(
                    self.requested() as nat,
                    k,
                )
        }
    }

    /// Nothing held, and the default size as the one last asked for.
    pub fn new() -> (state: Self)
        ensures
            state.wf(),
            state.buffer() is None,
            state.requested() == DEFAULT_BYTES,
            state.asked() == Seq::<usize>::empty(),
            state.taken() == Seq::<Vec<u8>>::empty(),
            state.kept() == Seq::<Vec<u8>>::empty(),
            state.balanced(),
    {
        let state = MemState {
            buf: None,
            requested_bytes: DEFAULT_BYTES,
            asked: Ghost(Seq::empty()),
            taken: Ghost(Seq::empty()),
        };
        assert(state.taken().skip(0) =~= state.kept());
        state
    }

    /// Gives back what is held to `source` and says whether that was anything.
    fn release<R: Fn(usize) -> Option<Vec<u8>>>(
        &mut self,
        source: &mut Source<R>,
    ) -> (released: bool)
        ensures
            final(self).buffer() is None,
            final(self).requested() == old(self).requested(),
            final(self).asked() == old(self).asked(),
            final(self).taken() == old(self).taken(),
            final(self).kept() == Seq::<Vec<u8>>::empty(),
            old(self).balanced() ==> final(self).balanced(),
            released == (old(self).buffer() is Some),
            forall|i: int|
                0 <= i < old(self).kept().len() ==> was_given_back(#[trigger] old(self).kept()[i]),
            final(source).reserve() == old(source).reserve(),
            final(source).asked() == old(source).asked(),
            final(source).events() == old(source).events() + back_then_asked(
                old(self).kept(),
                Seq::empty(),
            ),
    {
        let ghost kept = self.kept();
        let ghost taken = self.taken();
        proof {
            assert(back_then_asked(Seq::empty(), Seq::empty()) =~= Seq::<Event>::empty());
        }
        match self.buf.take() {
            Some(buffer) => {
                proof {
                    assert(kept =~= seq![buffer]);
                    assert(back_then_asked(kept, Seq::empty()) =~= seq![Event::GaveBack(buffer)]);
                    if old(self).balanced() {
                        assert(taken.skip(taken.len() - 1)[0] == taken[taken.len() - 1]);
                    }
                }
                source.take_back(buffer);
                assert(self.taken().skip(self.taken().len() as int) =~= self.kept());
                true
            },
            None => {
                assert(kept =~= Seq::<Vec<u8>>::empty());
                false
            },
        }
    }
}

/// Whether the buffer that is held was made in room that `reserve` gave for all of
/// it.
pub closed spec fn made_from_grant<R: Fn(usize) -> Option<Vec<u8>>>(
    reserve: R,
    state: MemState,
) -> bool {
    exists|room: Vec<u8>|
        call_ensures(reserve, (state.held() as usize,), Some(room)) && #[trigger] call_ensures(
            fill,
            (room, state.held() as usize),
            state.buf->Some_0,
        )
}

/// What setting the memory to `target` bytes leaves behind and reports,
/// whatever the allocator did.
pub open spec fn memory_set(
    before: MemState,
    target: u64,
    after: MemState,
    outcome: HoldOutcome,
) -> bool {
    &&& after.wf()
    &&& after.requested() == target
    &&& target == 0 ==> after.buffer() is None
    &&& target > usize::MAX ==> after.buffer() is None
    &&& outcome.holding == (after.buffer() is Some)
    &&& outcome.held == after.held()
    &&& outcome.requested == target
    &&& outcome.degraded == (after.held() != target)
    &&& outcome.released == (before.buffer() is Some)
}

/// Each attempt is for half of the one before it.
proof fn lemma_next_attempt(target: nat, k: nat)
    ensures
        attempt_size(target, k + 1) == attempt_size(target, k) / 2,
{
    lemma_pow2_pos(k);
    lemma_pow2_unfold(k + 1);
    vstd::arithmetic::div_mod::lemma_div_denominator(target as int, pow2(k) as int, 2);
    assert(pow2(k) * 2 == pow2(k + 1));
}

/// Later attempts are for no more.
proof fn lemma_attempts_shrink(target: nat, j: nat, k: nat)
    requires
        j <= k,
    ensures
        attempt_size(target, k) <= attempt_size(target, j),
    decreases k - j,
{
    if j < k {
        lemma_attempts_shrink(target, j, (k - 1) as nat);
        lemma_next_attempt(target, (k - 1) as nat);
    }
}

/// No attempt is for more than was asked for, and one that comes after the
/// first is for at least half of `SMALLEST_RETRY`.
proof fn lemma_attempt_bounds(target: nat, k: nat)
    requires
        attempt_allowed(target, k),
    ensures
        attempt_size(target, k) <= target,
        k == 0 ==> attempt_size(target, k) == target,
        k > 0 ==> attempt_size(target, k) < target,
        k > 0 ==> attempt_size(target, k) >= SMALLEST_RETRY / 2,
{
    lemma2_to64();
    lemma_attempts_shrink(target, 0, k);
    if k > 0 {
        lemma_attempts_shrink(target, 0, (k - 1) as nat);
        lemma_next_attempt(target, (k - 1) as nat);
    }
}

/// No more is held than was last asked for, and a buffer that is held is never
/// empty.
pub proof fn law_held_within_requested(state: MemState)
    requires
        state.wf(),
    ensures
        state.held() <= state.requested(),
        state.held() > 0 <==> state.buffer() is Some,
{
    if state.buffer() is Some {
        let k = choose|k: nat| #[trigger]
            attempt_allowed(state.requested() as nat, k) && state.held() == attempt_size(
                state.requested() as nat,
                k,
            );
        lemma_attempt_bounds(state.requested() as nat, k);
    }
}

/// Where less is held than was asked for, it is nothing or at least half of
/// `SMALLEST_RETRY`.
pub proof fn law_no_tiny_remainder(state: MemState)
    requires
        state.wf(),
        state.held() != state.requested(),
    ensures
        state.held() == 0 || state.held() >= SMALLEST_RETRY / 2,
{
    if state.buffer() is Some {
        let k = choose|k: nat| #[trigger]
            attempt_allowed(state.requested() as nat, k) && state.held() == attempt_size(
                state.requested() as nat,
                k,
            );
        lemma_attempt_bounds(state.requested() as nat, k);
    }
}

/// Setting the memory does not toggle: what a request leaves behind does not
/// depend on what was held before it, and the report differs in `released`
/// alone. So asking again for the same size can leave the same behind.
pub proof fn law_setting_is_absolute(
    before: MemState,
    other: MemState,
    target: u64,
    after: MemState,
    outcome: HoldOutcome,
)
    requires
        memory_set(before, target, after, outcome),
    ensures
        memory_set(
            other,
            target,
            after,
            HoldOutcome { released: other.buffer() is Some, ..outcome },
        ),
{
}

/// Asking for the same size again keeps it: the size asked for stands, the
/// second request gives back what the first had taken, and where neither was
/// short both hold the whole size.
pub proof fn law_repeat_keeps_size(
    before: MemState,
    target: u64,
    first: HoldOutcome,
    between: MemState,
    second: HoldOutcome,
    after: MemState,
)
    requires
        memory_set(before, target, between, first),
        memory_set(between, target, after, second),
    ensures
        between.requested() == target,
        after.requested() == target,
        second.released == first.holding,
        !first.degraded && !second.degraded ==> between.held() == target && after.held() == target,
{
}

/// Asking for 0 bytes leaves nothing held and is never short of anything. Asking
/// for it again finds nothing to give back.
pub proof fn law_release_happens_once(
    before: MemState,
    first: HoldOutcome,
    between: MemState,
    second: HoldOutcome,
    after: MemState,
)
    requires
        memory_set(before, 0, between, first),
        memory_set(between, 0, after, second),
    ensures
        between.held() == 0 && after.held() == 0,
        !first.degraded && !second.degraded,
        first.released == (before.buffer() is Some),
        !second.released,
{
}

/// After any request, the sizes asked for and held differ exactly where the
/// request was reported as degraded.
pub proof fn law_shortfall_is_degradation(
    before: MemState,
    target: u64,
    after: MemState,
    outcome: HoldOutcome,
)
    requires
        memory_set(before, target, after, outcome),
    ensures
        outcome.degraded <==> after.requested() != after.held(),
        outcome.degraded ==> after.held() < target,
        !outcome.degraded ==> after.held() == target,
{
    law_held_within_requested(after);
}

/// No request takes more than 45 attempts, none of up to `MAX_GIB` GiB more than 14, and
/// none of up to `SMALLEST_RETRY` more than the first. Attempts count from 0.
pub proof fn law_attempts_are_few(target: u64, k: nat)
    requires
        attempt_allowed(target as nat, k),
    ensures
        k <= 44,
        target <= MAX_GIB * GIB ==> k <= 13,
        target <= SMALLEST_RETRY ==> k == 0,
{
    lemma2_to64();
    lemma2_to64_rest();
    if k > 44 {
        lemma_attempts_shrink(target as nat, 44, (k - 1) as nat);
        assert(attempt_size(target as nat, 44) == target as nat / 0x1000_0000_0000);
    }
    if k > 13 && target <= MAX_GIB * GIB {
        lemma_attempts_shrink(target as nat, 13, (k - 1) as nat);
        assert(attempt_size(target as nat, 13) == target as nat / 0x2000);
    }
    if k > 0 {
        lemma_attempts_shrink(target as nat, 0, (k - 1) as nat);
        assert(attempt_size(target as nat, 0) == target);
    }
}

/// A request asks at most 45 times, at most 14 times for up to `MAX_GIB` GiB, once for up
/// to `SMALLEST_RETRY` bytes, and never for 0 bytes or for a size past `usize`.
pub proof fn law_asks_are_few<R: Fn(usize) -> Option<Vec<u8>>>(
    reserve: R,
    target: u64,
    held: nat,
    before: Seq<usize>,
    after: Seq<usize>,
)
    requires
        asked_in_turn(reserve, target, held, before, after),
    ensures
        before.len() <= after.len() <= before.len() + 45,
        target <= MAX_GIB * GIB ==> after.len() <= before.len() + 14,
        0 < target <= SMALLEST_RETRY ==> after.len() == before.len() + 1,
        target == 0 || target > usize::MAX ==> after.len() == before.len(),
{
    if 0 < target <= usize::MAX {
        let k = choose|k: nat| #[trigger]
            settled_at(reserve, target as nat, held, k) && after == before + attempt_sizes(
                target as nat,
                k + 1,
            );
        law_attempts_are_few(target, k);
    }
}

/// Where the attempts before attempt `k` cannot be granted and attempt `k`
/// cannot be refused, a request holds the size of attempt `k`.
pub proof fn law_first_grant_is_held<R: Fn(usize) -> Option<Vec<u8>>>(
    reserve: R,
    target: nat,
    held: nat,
    k: nat,
)
    requires
        target > 0,
        obtained(reserve, target, held),
        attempt_allowed(target, k),
        forall|j: nat| j < k ==> !#[trigger] was_granted(reserve, attempt_size(target, j)),
        !was_refused(reserve, attempt_size(target, k)),
    ensures
        held == attempt_size(target, k),
{
    let i = choose|i: nat| settled_at(reserve, target, held, i);
    if i < k {
        lemma_attempts_shrink(target, i, (k - 1) as nat);
    }
}

/// Two requests for one size, to allocators that answer each size of its attempts
/// alike, hold the same, whether or not they are short.
pub proof fn law_same_answers_hold_the_same<
    R: Fn(usize) -> Option<Vec<u8>>,
    S: Fn(usize) -> Option<Vec<u8>>,
>(one: R, other: S, target: nat, held: nat, held_by_other: nat)
    requires
        obtained(one, target, held),
        obtained(other, target, held_by_other),
        forall|k: nat| #[trigger]
            attempt_allowed(target, k) ==> {
                let n = attempt_size(target, k);
                &&& !(was_granted(one, n) && was_refused(other, n))
                &&& !(was_refused(one, n) && was_granted(other, n))
            },
    ensures
        held == held_by_other,
{
    let i = choose|i: nat| settled_at(one, target, held, i);
    let j = choose|j: nat| settled_at(other, target, held_by_other, j);
    if i < j {
        lemma_attempts_shrink(target, i, (j - 1) as nat);
    } else if j < i {
        lemma_attempts_shrink(target, j, (i - 1) as nat);
    }
}

/// Where nothing can be granted, a request holds nothing.
pub proof fn law_all_refused_holds_nothing<R: Fn(usize) -> Option<Vec<u8>>>(
    reserve: R,
    target: nat,
    held: nat,
)
    requires
        obtained(reserve, target, held),
        forall|n: nat| !#[trigger] was_granted(reserve, n),
    ensures
        held == 0,
{
}

/// Where the record is balanced, every buffer that was ever taken was given up
/// through `Result::err`, except the one that is held: that one was taken last.
pub proof fn law_all_but_the_held_are_given_back(state: MemState)
    requires
        state.balanced(),
    ensures
        state.buffer() is None ==> forall|i: int|
            0 <= i < state.taken().len() ==> #[trigger] call_ensures(
                Result::<Vec<u8>, ()>::err,
                (Ok::<Vec<u8>, ()>(state.taken()[i]),),
                None::<()>,
            ),
        state.buffer() is Some ==> state.taken().len() > 0 && state.buffer() == Some(
            state.taken().last()@,
        ),
        state.buffer() is Some ==> forall|i: int|
            0 <= i < state.taken().len() - 1 ==> #[trigger] call_ensures(
                Result::<Vec<u8>, ()>::err,
                (Ok::<Vec<u8>, ()>(state.taken()[i]),),
                None::<()>,
            ),
{
    let taken = state.taken();
    if state.buffer() is Some {
        assert(taken.skip(taken.len() - 1)[0] == taken.last());
    }
    assert forall|i: int| 0 <= i < taken.len() - state.kept().len() implies #[trigger] call_ensures(
        Result::<Vec<u8>, ()>::err,
        (Ok::<Vec<u8>, ()>(taken[i]),),
        None::<()>,
    ) by {
        assert(was_given_back(taken[i]));
    }
}

/// A request made of a source, by what it did to a state and to the source: the
/// buffer held before was given up, and that before any room was asked for; the
/// buffer held after is the only one that was taken; and a balanced record stays
/// so.
pub proof fn law_gives_back_before_asking<R: Fn(usize) -> Option<Vec<u8>>>(
    before: MemState,
    target: u64,
    from: Source<R>,
    after: MemState,
    left: Source<R>,
    outcome: HoldOutcome,
)
    requires
        exists|s: &mut MemState, f: &mut Source<R>|
            *s == before && *final(s) == after && *f == from && *final(f) == left
                && #[trigger] call_ensures(set_memory_with::<R>, (s, target, f), outcome),
    ensures
        before.buffer() is Some ==> {
            &&& left.events().len() > from.events().len()
            &&& left.events()[from.events().len() as int] matches Event::GaveBack(v)
            &&& before.buffer() == Some(v@)
            &&& call_ensures(Result::<Vec<u8>, ()>::err, (Ok::<Vec<u8>, ()>(v),), None::<()>)
        },
        forall|i: int|
            from.events().len() + before.kept().len() <= i < left.events().len() ==> (
            #[trigger] left.events()[i]) is Asked,
        before.kept().len() == (if before.buffer() is Some { 1nat } else { 0nat }),
        from.asked().len() <= left.asked().len(),
        left.events().len() - from.events().len() - before.kept().len() == left.asked().len()
            - from.asked().len(),
        forall|i: int|
            from.asked().len() <= i < left.asked().len() ==> left.events()[i - from.asked().len()
                + from.events().len() + before.kept().len()] == Event::Asked(
                #[trigger] left.asked()[i],
            ),
        target == 0 || target > usize::MAX ==> left.asked() == from.asked(),
        after.taken().len() == before.taken().len() + (if after.buffer() is Some {
            1nat
        } else {
            0nat
        }),
        before.balanced() ==> after.balanced(),
{
    let sizes = left.asked().skip(from.asked().len() as int);
    law_back_before_asked(before.kept(), sizes);
    law_asks_are_few(from.reserve(), target, after.held(), from.asked(), left.asked());
    assert forall|i: int| from.asked().len() <= i < left.asked().len() implies left.events()[i
        - from.asked().len() + from.events().len() + before.kept().len()] == Event::Asked(
        #[trigger] left.asked()[i],
    ) by {
        assert(sizes[i - from.asked().len()] == left.asked()[i]);
        assert(left.events()[i - from.asked().len() + from.events().len() + before.kept().len()]
            == back_then_asked(before.kept(), sizes)[i - from.asked().len()
            + before.kept().len()]);
    }
    if before.buffer() is Some {
        let v = before.kept()[0];
        assert(left.events()[from.events().len() as int] == back_then_asked(
            before.kept(),
            sizes,
        )[0]);
        assert(was_given_back(v));
    }
}

/// A request of a source, for a size that `usize` holds, asks for that size first.
/// After a refusal it asks for half as much, down to the first size of at most 1 MiB.
/// The first grant is what it holds, and it holds nothing only where each size was
/// refused. The number of refusals before the last size is returned.
pub proof fn law_asks_for_halves<R: Fn(usize) -> Option<Vec<u8>>>(
    before: MemState,
    target: u64,
    from: Source<R>,
    after: MemState,
    left: Source<R>,
    outcome: HoldOutcome,
) -> (refusals: nat)
    requires
        exists|s: &mut MemState, f: &mut Source<R>|
            *s == before && *final(s) == after && *f == from && *final(f) == left
                && #[trigger] call_ensures(set_memory_with::<R>, (s, target, f), outcome),
        0 < target <= usize::MAX,
    ensures
        left.asked().len() == from.asked().len() + refusals + 1,
        left.asked().take(from.asked().len() as int) == from.asked(),
        left.asked()[from.asked().len() as int] == target,
        forall|i: int, j: int|
            #![trigger left.asked()[i], left.asked()[j]]
            from.asked().len() <= i && j == i + 1 && j < left.asked().len() ==> {
                &&& left.asked()[j] == left.asked()[i] / 2
                &&& left.asked()[i] > 1_048_576
                &&& call_ensures(from.reserve(), (left.asked()[i],), None::<Vec<u8>>)
            },
        after.held() > 0 ==> after.held() == left.asked().last() && exists|v: Vec<u8>| #[trigger]
            call_ensures(from.reserve(), (left.asked().last(),), Some(v)),
        after.held() == 0 ==> left.asked().last() <= 1_048_576 && call_ensures(
            from.reserve(),
            (left.asked().last(),),
            None::<Vec<u8>>,
        ),
{
    let reserve = from.reserve();
    let start = from.asked().len();
    let held = after.held();
    let size = target as nat;
    let k = choose|k: nat| #[trigger]
        settled_at(reserve, size, held, k) && left.asked() == from.asked() + attempt_sizes(
            size,
            k + 1,
        );
    lemma2_to64();
    assert(left.asked().take(start as int) =~= from.asked());
    assert forall|i: int| start <= i < left.asked().len() implies #[trigger] left.asked()[i]
        == attempt_size(size, (i - start) as nat) by {
        lemma_attempts_shrink(size, 0, (i - start) as nat);
    }
    assert forall|i: int, j: int|
        #![trigger left.asked()[i], left.asked()[j]]
        start <= i && j == i + 1 && j < left.asked().len() implies {
        &&& left.asked()[j] == left.asked()[i] / 2
        &&& left.asked()[i] > 1_048_576
        &&& call_ensures(reserve, (left.asked()[i],), None::<Vec<u8>>)
    } by {
        let a = (i - start) as nat;
        lemma_next_attempt(size, a);
        lemma_attempts_shrink(size, a, (k - 1) as nat);
        assert(was_refused(reserve, attempt_size(size, a)));
    }
    assert(left.asked().last() == left.asked()[(start + k) as int]);
    if held > 0 {
        assert(was_granted(reserve, held));
    }
    k
}

/// The buffer held after a request of a source lies in the very room that the source
/// gave for all its bytes. The room and the record of filling it are returned, the
/// latter as in `law_every_page_is_stored_to`.
pub proof fn law_held_in_its_room<R: Fn(usize) -> Option<Vec<u8>>>(
    before: MemState,
    target: u64,
    from: Source<R>,
    after: MemState,
    left: Source<R>,
    outcome: HoldOutcome,
) -> (record: (Vec<u8>, Vec<u8>, Seq<Vec<u8>>, Seq<usize>, Seq<u8>, Seq<int>))
    requires
        exists|s: &mut MemState, f: &mut Source<R>|
            *s == before && *final(s) == after && *f == from && *final(f) == left
                && #[trigger] call_ensures(set_memory_with::<R>, (s, target, f), outcome),
        after.buffer() is Some,
    ensures
        ({
            let (room, empty, steps, places, bytes, store_of) = record;
            let len = after.taken().last()@.len();
            &&& after.buffer() == Some(after.taken().last()@)
            &&& call_ensures(from.reserve(), (len as usize,), Some(room))
            &&& call_ensures(emptied, (room,), empty)
            &&& call_ensures(lengthened, (empty, len as usize), steps[0])
            &&& steps.len() == places.len() + 1
            &&& bytes.len() == places.len()
            &&& steps[steps.len() - 1] == after.taken().last()
            &&& forall|j: int, k: int|
                #![trigger steps[j], steps[k]]
                0 <= j < places.len() && k == j + 1 ==> call_ensures(
                    stored,
                    (steps[j], places[j], bytes[j]),
                    steps[k],
                )
            &&& store_of.len() == len
            &&& forall|i: int|
                0 <= i < len ==> 0 <= #[trigger] store_of[i] < places.len()
                    && places[store_of[i]] as int / 4096 == i / 4096
        }),
{
    let buffer = after.kept()[0];
    assert(after.taken().last() == buffer);
    let len = buffer@.len() as usize;
    let room = choose|room: Vec<u8>|
        call_ensures(from.reserve(), (after.held() as usize,), Some(room))
            && #[trigger] call_ensures(fill, (room, after.held() as usize), after.buf->Some_0);
    let (empty, steps, places, bytes, store_of) = law_every_page_is_stored_to(room, len, buffer);
    (room, empty, steps, places, bytes, store_of)
}

/// A request, by what it did to a state: what it reports is how the states before
/// and after it differ, and reading the state back gives the sizes that it reported.
pub proof fn law_report_tells_the_states(
    before: MemState,
    target: u64,
    after: MemState,
    outcome: HoldOutcome,
    read: (u64, usize),
)
    requires
        exists|s: &mut MemState|
            *s == before && *final(s) == after && #[trigger] call_ensures(
                set_memory,
                (s, target),
                outcome,
            ),
        call_ensures(current_state, (&after,), read),
    ensures
        read == (target, outcome.held),
        outcome.requested == target,
        outcome.held <= target,
        target == 0 ==> outcome.held == 0,
        outcome.holding <==> outcome.held > 0,
        outcome.degraded <==> outcome.held < target,
        outcome.released <==> before.buffer() is Some,
        outcome.holding <==> after.buffer() is Some,
        after.buffer() is Some ==> after.buffer()->Some_0.len() == outcome.held && after.buffer()
            == Some(after.taken().last()@),
        after.taken().len() == before.taken().len() + (if outcome.holding {
            1nat
        } else {
            0nat
        }),
        before.balanced() ==> after.balanced(),
{
    law_held_within_requested(after);
    if after.buffer() is Some {
        assert(after.taken().last() == after.kept()[0]);
    }
}

/// A new state reads as nothing held and 1.5 GiB last asked for, and no buffer was
/// taken into it.
pub proof fn law_starts_empty(state: MemState, read: (u64, usize))
    requires
        call_ensures(MemState::new, (), state),
        call_ensures(current_state, (&state,), read),
    ensures
        read == (1_610_612_736u64, 0usize),
        state.buffer() is None,
        state.taken().len() == 0,
        state.balanced(),
{
}

/// The bytes of a buffer that is held are zeros up to the last, which is 1.
pub proof fn law_held_bytes(state: MemState)
    requires
        state.wf(),
    ensures
        state.buffer() matches Some(b) ==> {
            &&& b.len() > 0
            &&& b[b.len() - 1] == 1
            &&& forall|i: int| 0 <= i < b.len() - 1 ==> #[trigger] b[i] == 0
        },
{
    if let Some(b) = state.buffer() {
        law_filled_bytes(b);
    }
}

/// Takes a buffer of `first` bytes from `source` into a state that holds none,
/// fills it, and returns its size.
///
/// A refused reservation is tried again at half its size. Once one of at most
/// `SMALLEST_RETRY` bytes is refused, nothing is held and the size is 0. The state
/// holds no buffer while reservations are tried.
fn hold_in_empty<R: Fn(usize) -> Option<Vec<u8>>>(
    state: &mut MemState,
    first: usize,
    source: &mut Source<R>,
) -> (held: usize)
    requires
        may_be_asked(old(source).reserve(), first as nat),
        old(state).buffer() is None,
        old(state).requested() == first,
        first > 0,
    ensures
        final(state).wf(),
        final(state).requested() == old(state).requested(),
        final(state).asked() == old(state).asked(),
        final(state).taken() == old(state).taken(),
        final(state).held() == held,
        held > 0 <==> final(state).buffer() is Some,
        final(state).buffer() is Some ==> made_from_grant(old(source).reserve(), *final(state)),
        final(source).reserve() == old(source).reserve(),
        asked_in_turn(
            old(source).reserve(),
            first as u64,
            held as nat,
            old(source).asked(),
            final(source).asked(),
        ),
        final(source).events() == old(source).events() + back_then_asked(
            Seq::empty(),
            final(source).asked().skip(old(source).asked().len() as int),
        ),
{
    let ghost reserve = source.reserve();
    let ghost before = source.asked();
    let ghost events = source.events();
    let ghost target = first as nat;
    let mut want: usize = first;
    let ghost mut k: nat = 0;
    proof {
        lemma2_to64();
        assert(before =~= before + attempt_sizes(target, 0));
        assert(events =~= events + back_then_asked(Seq::empty(), attempt_sizes(target, 0)));
    }
    loop
        invariant
            may_be_asked(reserve, target),
            target == first,
            reserve == old(source).reserve(),
            before == old(source).asked(),
            source.reserve() == reserve,
            source.asked() == before + attempt_sizes(target, k),
            events == old(source).events(),
            source.events() == events + back_then_asked(Seq::empty(), attempt_sizes(target, k)),
            state.taken() == old(state).taken(),
            state.requested() == old(state).requested() == first,
            state.asked() == old(state).asked(),
            state.buffer() is None,
            0 < want <= first,
            want == attempt_size(target, k),
            attempt_allowed(target, k),
            forall|j: nat| j < k ==> #[trigger] was_refused(reserve, attempt_size(target, j)),
        decreases want,
    {
        let answer = source.ask(want);
        let ghost size = attempt_size(target, k);
        assert(source.asked() =~= before + attempt_sizes(target, k + 1));
        assert(source.asked().skip(before.len() as int) =~= attempt_sizes(target, k + 1));
        assert(source.events() =~= events + back_then_asked(
            Seq::empty(),
            attempt_sizes(target, k + 1),
        ));
        assert(call_ensures(reserve, (size as usize,), answer));
        if let Some(buffer) = answer {
            assert(call_ensures(reserve, (size as usize,), Some(buffer)));
            assert(was_granted(reserve, size));
            let ghost room = buffer;
            state.buf = Some(fill(buffer, want));
            assert(state.held() == want);
            assert(call_ensures(fill, (room, state.held() as usize), state.buf->Some_0));
            assert(attempt_allowed(state.requested() as nat, k));
            assert(settled_at(reserve, target, want as nat, k));
            return want;
        }
        assert(was_refused(reserve, size));
        if want <= SMALLEST_RETRY {
            assert(settled_at(reserve, target, 0, k));
            return 0;
        }
        proof {
            lemma_next_attempt(target, k);
            k = k + 1;
        }
        want = want / 2;
    }
}

/// Sets the memory held to `target_bytes`, taken from `source`: 0 gives back what
/// is held, any other size replaces it.
///
/// What was held is given back before anything is reserved. The source is asked
/// once for the size and for each half of it that is tried: for nothing where the
/// size is 0, nor where `usize` cannot hold it.
pub fn set_memory_with<R: Fn(usize) -> Option<Vec<u8>>>(
    state: &mut MemState,
    target_bytes: u64,
    source: &mut Source<R>,
) -> (outcome: HoldOutcome)
    requires
        0 < target_bytes <= usize::MAX ==> may_be_asked(
            old(source).reserve(),
            target_bytes as nat,
        ),
    ensures
        memory_set(*old(state), target_bytes, *final(state), outcome),
        0 < target_bytes <= usize::MAX ==> obtained(
            old(source).reserve(),
            target_bytes as nat,
            final(state).held(),
        ),
        final(state).buffer() is Some ==> made_from_grant(old(source).reserve(), *final(state)),
        final(source).reserve() == old(source).reserve(),
        asked_in_turn(
            old(source).reserve(),
            target_bytes,
            final(state).held(),
            old(source).asked(),
            final(source).asked(),
        ),
        asked_in_turn(
            old(source).reserve(),
            target_bytes,
            final(state).held(),
            old(state).asked(),
            final(state).asked(),
        ),
        forall|i: int|
            0 <= i < old(state).kept().len() ==> was_given_back(#[trigger] old(state).kept()[i]),
        final(state).taken() == old(state).taken() + final(state).kept(),
        old(state).balanced() ==> final(state).balanced(),
        final(source).events() == old(source).events() + back_then_asked(
            old(state).kept(),
            final(source).asked().skip(old(source).asked().len() as int),
        ),
{
    let ghost kept = state.kept();
    let ghost events = source.events();
    let released = state.release(source);
    let ghost released_events = source.events();
    proof {
        assert(source.asked().skip(source.asked().len() as int) =~= Seq::<usize>::empty());
    }
    state.requested_bytes = target_bytes;
    if target_bytes == 0 {
        return HoldOutcome {
            holding: false,
            degraded: false,
            requested: 0,
            held: 0,
            released,
        };
    }
    let want: usize = match usize::try_from(target_bytes) {
        Ok(n) => n,
        Err(_) => {
            return HoldOutcome {
                holding: false,
                degraded: true,
                requested: target_bytes,
                held: 0,
                released,
            };
        },
    };
    let ghost before = source.asked();
    let held: usize = hold_in_empty(state, want, source);
    let ghost sizes = source.asked().skip(before.len() as int);
    let ghost filled = *state;
    state.asked = Ghost(state.asked@ + sizes);
    state.taken = Ghost(state.taken@ + state.kept());
    proof {
        assert(state.kept() == filled.kept());
        assert(state.taken().skip(state.taken().len() - state.kept().len()) =~= state.kept());
        assert(released_events + back_then_asked(Seq::empty(), sizes) =~= events
            + back_then_asked(kept, sizes));
        assert(state.buffer() == filled.buffer() && state.requested() == filled.requested());
        let k = choose|k: nat| #[trigger]
            settled_at(source.reserve(), want as nat, held as nat, k) && source.asked() == before
                + attempt_sizes(want as nat, k + 1);
        assert(sizes =~= attempt_sizes(want as nat, k + 1));
    }
    HoldOutcome {
        holding: held > 0,
        degraded: held != want,
        requested: target_bytes,
        held,
        released,
    }
}

/// Sets the memory held to `target_bytes`: 0 gives back what is held, any other
/// size is reserved, written, and held in its place.
///
/// This sets and does not toggle: asking for the same size again keeps it.
pub fn set_memory(state: &mut MemState, target_bytes: u64) -> (outcome: HoldOutcome)
    ensures
        memory_set(*old(state), target_bytes, *final(state), outcome),
        0 < target_bytes <= usize::MAX ==> obtained(
            reserve,
            target_bytes as nat,
            final(state).held(),
        ),
        final(state).buffer() is Some ==> made_from_grant(reserve, *final(state)),
        asked_in_turn(
            reserve,
            target_bytes,
            final(state).held(),
            old(state).asked(),
            final(state).asked(),
        ),
        final(state).asked().len() <= old(state).asked().len() + 45,
        target_bytes <= MAX_GIB * GIB ==> final(state).asked().len() <= old(state).asked().len()
            + 14,
        0 < target_bytes <= SMALLEST_RETRY ==> final(state).asked().len() == old(
            state,
        ).asked().len() + 1,
        target_bytes == 0 ==> final(state).asked() == old(state).asked(),
        forall|i: int|
            0 <= i < old(state).kept().len() ==> was_given_back(#[trigger] old(state).kept()[i]),
        final(state).taken() == old(state).taken() + final(state).kept(),
        old(state).balanced() ==> final(state).balanced(),
{
    let mut source = Source::new(reserve);
    let outcome = set_memory_with(state, target_bytes, &mut source);
    proof {
        law_asks_are_few(
            reserve,
            target_bytes,
            state.held(),
            old(state).asked(),
            state.asked(),
        );
    }
    outcome
}

/// The bytes last asked for and the bytes held. Changes nothing.
pub fn current_state(state: &MemState) -> (sizes: (u64, usize))
    ensures
        sizes.0 == state.requested(),
        sizes.1 == state.held(),
{
    let held: usize = match &state.buf {
        Some(v) => v.len(),
        None => 0,
    };
    (state.requested_bytes, held)
}

} // verus!
