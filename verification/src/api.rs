//! The two requests: setting how much memory is held, and asking about it.

use vstd::prelude::*;
use vstd::string::*;

use crate::clock::{get_current_time, is_beijing_time};
use crate::gib::{
    bytes_of, is_acceptable, law_accepted_patterns, requested_bytes, GIB, MAX_GIB,
};
use crate::mem::{
    asked_in_turn, current_state, law_held_within_requested, made_from_grant,
    memory_set, obtained, set_memory, HoldOutcome, MemState, MIB,
};
use crate::source::reserve;

verus! {

/// How a request went, as an HTTP status.
#[derive(Clone, Copy, Debug, PartialEq, Eq)]
pub enum Status {
    Success,
    BadRequest,
}

impl Status {
    /// The number of the HTTP status.
    pub fn code(&self) -> (code: u16)
        ensures
            code == (match self {
                Status::Success => 200u16,
                Status::BadRequest => 400u16,
            }),
    {
        match self {
            Status::Success => 200,
            Status::BadRequest => 400,
        }
    }
}

/// What a request to set the memory did.
#[derive(Clone, Copy, Debug, PartialEq, Eq)]
pub enum Action {
    /// Memory is held for it.
    Allocated,
    /// Nothing could be had. What was held before is gone.
    Failed,
    /// What was held before was given back, as asked.
    Released,
    /// Asked to give back, with nothing held.
    Noop,
}

/// What an outcome says was done.
pub open spec fn action_of(outcome: HoldOutcome) -> Action {
    if outcome.holding {
        Action::Allocated
    } else if outcome.requested > 0 {
        Action::Failed
    } else if outcome.released {
        Action::Released
    } else {
        Action::Noop
    }
}

/// The name of an action in a reply.
pub open spec fn action_name(action: Action) -> Seq<char> {
    match action {
        Action::Allocated => "allocated"@,
        Action::Failed => "failed"@,
        Action::Released => "released"@,
        Action::Noop => "noop"@,
    }
}

impl Action {
    /// What an outcome says was done.
    pub fn of(outcome: &HoldOutcome) -> (action: Action)
        ensures
            action == action_of(*outcome),
    {
        if outcome.holding {
            Action::Allocated
        } else if outcome.requested > 0 {
            Action::Failed
        } else if outcome.released {
            Action::Released
        } else {
            Action::Noop
        }
    }

    /// The name of the action in a reply.
    pub fn name(&self) -> (name: &'static str)
        ensures
            name@ == action_name(*self),
    {
        match self {
            Action::Allocated => "allocated",
            Action::Failed => "failed",
            Action::Released => "released",
            Action::Noop => "noop",
        }
    }
}

/// A number of GiB that was read from a request: the bits of its binary64 value,
/// and the decimal text that the value is shown as.
#[derive(Debug)]
pub struct Amount {
    pub bits: u64,
    pub text: String,
}

/// The reply to a request that was carried out.
#[derive(Debug)]
pub struct HoldBody {
    pub ok: bool,
    pub holding: bool,
    pub action: Action,
    pub degraded: bool,
    /// The GiB asked for, as the bits of a binary64 number.
    pub requested_gib: u64,
    pub requested_bytes: u64,
    pub target_bytes: u64,
    pub held_bytes: usize,
    pub held_mib: usize,
    pub time: String,
}

/// The reply to a request that was refused.
#[derive(Debug)]
pub struct ErrorBody {
    pub ok: bool,
    pub error: String,
    pub max_gib: u64,
    pub time: String,
}

/// The reply to a question about what is held.
#[derive(Debug)]
pub struct InfoBody {
    pub holding: bool,
    pub target_bytes: u64,
    pub held_bytes: usize,
    pub held_mib: usize,
    pub time: String,
}

/// The reply to a request to set the memory.
#[derive(Debug)]
pub enum HoldReply {
    Held(HoldBody),
    Refused(ErrorBody),
}

/// A text in quotes, with what would not show in it escaped.
pub uninterp spec fn quoted(text: Seq<char>) -> Seq<char>;

/// What is said of an amount that is no number.
pub open spec fn not_a_number_message(raw: Seq<char>) -> Seq<char> {
    "gb 不是合法数字: "@ + quoted(raw)
}

/// What is said of a number outside of 0 to `MAX_GIB`.
pub open spec fn out_of_range_message(text: Seq<char>) -> Seq<char> {
    "gb 必须是 0 ~ 6 之间的数字（单位 GiB），收到 "@ + text
}

/// The reply to a refused request. The time in it is left open.
pub open spec fn error_body(body: ErrorBody, message: Seq<char>) -> bool {
    !body.ok && body.error@ == message && body.max_gib == MAX_GIB
}

/// The reply on an outcome. The time in it is left open.
pub open spec fn hold_body(body: HoldBody, bits: u64, outcome: HoldOutcome) -> bool {
    &&& body.ok
    &&& body.holding == outcome.holding
    &&& body.action == action_of(outcome)
    &&& body.degraded == outcome.degraded
    &&& body.requested_gib == bits
    &&& body.requested_bytes == outcome.requested
    &&& body.target_bytes == outcome.requested
    &&& body.held_bytes == outcome.held
    &&& body.held_mib == outcome.held / MIB
}

/// The reply on a state. The time in it is left open.
pub open spec fn info_body(body: InfoBody, state: MemState) -> bool {
    &&& body.holding == (state.held() > 0)
    &&& body.target_bytes == state.requested()
    &&& body.held_bytes == state.held()
    &&& body.held_mib == state.held() / MIB as nat
}

/// The outcome that a reply tells of, with `released` beside it.
pub open spec fn reported_outcome(body: HoldBody, released: bool) -> HoldOutcome {
    HoldOutcome {
        holding: body.holding,
        degraded: body.degraded,
        requested: body.requested_bytes,
        held: body.held_bytes,
        released,
    }
}

/// Whether a request for this amount is carried out.
pub open spec fn is_admitted(amount: Option<Amount>) -> bool {
    amount matches Some(a) && is_acceptable(a.bits)
}

/// What is said of an amount that is not admitted.
pub open spec fn refusal_message(raw: Seq<char>, amount: Option<Amount>) -> Seq<char> {
    match amount {
        None => not_a_number_message(raw),
        Some(a) => out_of_range_message(a.text@),
    }
}

/// A text in quotes, with what would not show in it escaped.
///
/// Formats `text` with the `Debug` of `str`. Claimed of it: the result depends
/// on the text alone. Which characters are escaped, and how, is left unsaid.
#[verifier::external_body]
fn quote(text: &str) -> (result: String)
    ensures
        result@ == quoted(text@),
{
    format!("{:?}", text)
}

/// What is said of an amount that is no number, given that amount in quotes.
pub fn not_a_number_error(quoted_raw: &str) -> (msg: String)
    ensures
        msg@ == "gb 不是合法数字: "@ + quoted_raw@,
{
    String::from_str("gb 不是合法数字: ").concat(quoted_raw)
}

/// What is said of a number outside of 0 to `MAX_GIB`, given its text.
pub fn out_of_range_error(text: &str) -> (msg: String)
    ensures
        msg@ == out_of_range_message(text@),
{
    String::from_str("gb 必须是 0 ~ 6 之间的数字（单位 GiB），收到 ").concat(text)
}

/// A refusal with `msg`, in the one form that every refusal has.
pub fn bad_request(msg: String) -> (reply: (Status, ErrorBody))
    ensures
        reply.0 is BadRequest,
        error_body(reply.1, msg@),
        is_beijing_time(reply.1.time@),
{
    (
        Status::BadRequest,
        ErrorBody { ok: false, error: msg, max_gib: MAX_GIB, time: get_current_time() },
    )
}

/// The reply on an outcome of a request for the GiB that `bits` stands for.
pub fn report_hold(bits: u64, outcome: &HoldOutcome, time: String) -> (body: HoldBody)
    ensures
        hold_body(body, bits, *outcome),
        body.time == time,
{
    HoldBody {
        ok: true,
        holding: outcome.holding,
        action: Action::of(outcome),
        degraded: outcome.degraded,
        requested_gib: bits,
        requested_bytes: outcome.requested,
        target_bytes: outcome.requested,
        held_bytes: outcome.held,
        held_mib: outcome.held / MIB,
        time,
    }
}

/// The refusal of a request, or `None` where it is carried out.
///
/// `raw` is the amount as it stands in the request, and `amount` the number that
/// it reads as, if it reads as one. No state is needed to tell, so a request can
/// be refused without waiting for the lock on it.
pub fn refuse(raw: &str, amount: &Option<Amount>) -> (refusal: Option<(Status, ErrorBody)>)
    ensures
        refusal is None <==> is_admitted(*amount),
        refusal matches Some(reply) ==> {
            &&& reply.0 is BadRequest
            &&& error_body(reply.1, refusal_message(raw@, *amount))
            &&& is_beijing_time(reply.1.time@)
        },
{
    match amount {
        None => Some(bad_request(not_a_number_error(quote(raw).as_str()))),
        Some(a) => match requested_bytes(a.bits) {
            None => Some(bad_request(out_of_range_error(a.text.as_str()))),
            Some(_) => None,
        },
    }
}

/// Sets how much memory is held to the GiB asked for; 0 gives back what is held.
///
/// `raw` and `amount` are as in `refuse`. A request that is refused changes
/// nothing.
pub fn memhold(state: &mut MemState, raw: &str, amount: Option<Amount>) -> (reply: (
    Status,
    HoldReply,
))
    ensures
        !is_admitted(amount) ==> {
            &&& *final(state) == *old(state)
            &&& reply.0 is BadRequest
            &&& reply.1 matches HoldReply::Refused(body)
            &&& error_body(body, refusal_message(raw@, amount))
            &&& is_beijing_time(body.time@)
        },
        is_admitted(amount) ==> {
            let bits = amount->Some_0.bits;
            &&& reply.0 is Success
            &&& reply.1 matches HoldReply::Held(body)
            &&& hold_body(body, bits, reported_outcome(body, old(state).buffer() is Some))
            &&& memory_set(
                *old(state),
                bytes_of(bits) as u64,
                *final(state),
                reported_outcome(body, old(state).buffer() is Some),
            )
            &&& 0 < bytes_of(bits) <= usize::MAX ==> obtained(
                reserve,
                bytes_of(bits),
                final(state).held(),
            )
            &&& final(state).buffer() is Some ==> made_from_grant(reserve, *final(state))
            &&& asked_in_turn(
                reserve,
                bytes_of(bits) as u64,
                final(state).held(),
                old(state).asked(),
                final(state).asked(),
            )
            &&& final(state).asked().len() <= old(state).asked().len() + 14
            &&& final(state).requested() == bytes_of(bits)
            &&& final(state).held() <= MAX_GIB * GIB
            &&& call_ensures(requested_bytes, (bits,), Some(body.requested_bytes))
            &&& exists|s: &mut MemState|
                *s == *old(state) && *final(s) == *final(state) && #[trigger] call_ensures(
                    set_memory,
                    (s, body.requested_bytes),
                    reported_outcome(body, old(state).buffer() is Some),
                )
            &&& final(state).taken() == old(state).taken() + final(state).kept()
            &&& is_beijing_time(body.time@)
        },
        old(state).balanced() ==> final(state).balanced(),
{
    if let Some((status, body)) = refuse(raw, &amount) {
        return (status, HoldReply::Refused(body));
    }
    let bits: u64 = amount.unwrap().bits;
    let target_bytes: u64 = requested_bytes(bits).unwrap();
    let outcome = set_memory(state, target_bytes);
    proof {
        law_held_within_requested(*state);
    }
    let body = report_hold(bits, &outcome, get_current_time());
    assert(outcome == reported_outcome(body, old(state).buffer() is Some));
    (Status::Success, HoldReply::Held(body))
}

/// The reply on the bytes last asked for and the bytes held.
pub fn report_info(requested: u64, held: usize, time: String) -> (body: InfoBody)
    ensures
        body.holding == (held > 0),
        body.target_bytes == requested,
        body.held_bytes == held,
        body.held_mib == held / MIB,
        body.time == time,
{
    InfoBody {
        holding: held > 0,
        target_bytes: requested,
        held_bytes: held,
        held_mib: held / MIB,
        time,
    }
}

/// Tells how much memory is held and how much was last asked for. Changes
/// nothing.
pub fn meminfo(state: &MemState) -> (reply: (Status, InfoBody))
    ensures
        reply.0 is Success,
        info_body(reply.1, *state),
        is_beijing_time(reply.1.time@),
{
    let (requested, held) = current_state(state);
    (Status::Success, report_info(requested, held, get_current_time()))
}

/// What a question tells after a request is what the request's reply told.
pub proof fn law_info_reads_back(
    before: MemState,
    target: u64,
    after: MemState,
    outcome: HoldOutcome,
    bits: u64,
    reply: HoldBody,
    info: InfoBody,
)
    requires
        memory_set(before, target, after, outcome),
        hold_body(reply, bits, outcome),
        info_body(info, after),
    ensures
        info.holding == reply.holding,
        info.target_bytes == reply.target_bytes,
        info.held_bytes == reply.held_bytes,
        info.held_mib == reply.held_mib,
        reply.degraded <==> info.target_bytes != info.held_bytes,
{
    law_held_within_requested(after);
}

/// The action in a reply tells the four ways apart that a request can go.
pub proof fn law_action_tells_what_happened(
    before: MemState,
    target: u64,
    after: MemState,
    outcome: HoldOutcome,
)
    requires
        memory_set(before, target, after, outcome),
    ensures
        action_of(outcome) is Allocated <==> after.held() > 0,
        action_of(outcome) is Failed <==> target > 0 && after.held() == 0,
        action_of(outcome) is Released <==> target == 0 && before.buffer() is Some,
        action_of(outcome) is Noop <==> target == 0 && before.buffer() is None,
{
    law_held_within_requested(after);
}

/// What is reported on an outcome is what the outcome says: the action tells whether
/// memory is held, and if none is, whether some was asked for, and if not, whether
/// some was given back. The MiB are the whole ones in the bytes.
pub proof fn law_report_tells_the_outcome(
    bits: u64,
    outcome: HoldOutcome,
    time: String,
    body: HoldBody,
)
    requires
        call_ensures(report_hold, (bits, &outcome, time), body),
    ensures
        body.ok,
        body.holding == outcome.holding,
        body.degraded == outcome.degraded,
        body.requested_gib == bits,
        body.requested_bytes == outcome.requested,
        body.target_bytes == outcome.requested,
        body.held_bytes == outcome.held,
        body.held_mib * 1_048_576 <= outcome.held < (body.held_mib + 1) * 1_048_576,
        body.time == time,
        body.action is Allocated <==> outcome.holding,
        body.action is Failed <==> !outcome.holding && outcome.requested > 0,
        body.action is Released <==> !outcome.holding && outcome.requested == 0 && outcome.released,
        body.action is Noop <==> !outcome.holding && outcome.requested == 0 && !outcome.released,
{
}

/// The reply to a request that is carried out tells how the states before and after
/// it differ: memory is held, or some was asked for and none is held, or none was
/// asked for and what was held was given back, or there was nothing to give back.
pub proof fn law_reply_tells_the_states(
    before: MemState,
    raw: &str,
    amount: Amount,
    after: MemState,
    reply: (Status, HoldReply),
)
    requires
        exists|s: &mut MemState|
            *s == before && *final(s) == after && #[trigger] call_ensures(
                memhold,
                (s, raw, Some(amount)),
                reply,
            ),
        amount.bits <= 0x4018_0000_0000_0000 || amount.bits == 0x8000_0000_0000_0000,
    ensures
        reply.0 == Status::Success,
        reply.1 is Held,
        ({
            let body = reply.1->Held_0;
            let asked = body.requested_bytes;
            &&& call_ensures(requested_bytes, (amount.bits,), Some(asked))
            &&& body.ok
            &&& is_beijing_time(body.time@)
            &&& body.requested_gib == amount.bits
            &&& body.target_bytes == asked
            &&& after.requested() == asked
            &&& body.held_bytes == after.held()
            &&& body.held_bytes <= asked <= 6 * 1_073_741_824
            &&& body.held_mib * 1_048_576 <= after.held() < (body.held_mib + 1) * 1_048_576
            &&& body.holding <==> after.held() > 0
            &&& body.degraded <==> after.held() < asked
            &&& body.action is Allocated <==> after.held() > 0
            &&& body.action is Failed <==> asked > 0 && after.held() == 0
            &&& body.action is Released <==> asked == 0 && before.buffer() is Some
            &&& body.action is Noop <==> asked == 0 && before.buffer() is None
            &&& exists|s: &mut MemState, outcome: HoldOutcome|
                *s == before && *final(s) == after && #[trigger] call_ensures(
                    set_memory,
                    (s, asked),
                    outcome,
                )
        }),
{
    law_accepted_patterns(amount.bits);
    assert(is_admitted(Some(amount)));
    law_held_within_requested(after);
}

/// A request that is refused leaves the state as it was and is answered with what is
/// wrong with it: an amount that is no number, or one that is neither from 0 to 6 nor
/// negative 0. `refuse` tells of such a request alone, and answers it alike.
pub proof fn law_refusal_changes_nothing(
    before: MemState,
    raw: &str,
    amount: Option<Amount>,
    after: MemState,
    reply: (Status, HoldReply),
    refusal: Option<(Status, ErrorBody)>,
)
    requires
        exists|s: &mut MemState|
            *s == before && *final(s) == after && #[trigger] call_ensures(
                memhold,
                (s, raw, amount),
                reply,
            ),
        call_ensures(refuse, (raw, &amount), refusal),
    ensures
        refusal is None <==> (amount matches Some(a) && (a.bits <= 0x4018_0000_0000_0000 || a.bits
            == 0x8000_0000_0000_0000)),
        reply.1 is Refused <==> refusal is Some,
        refusal matches Some(told) ==> {
            let body = reply.1->Refused_0;
            &&& after == before
            &&& reply.0 == Status::BadRequest && told.0 == Status::BadRequest
            &&& !body.ok && !told.1.ok
            &&& body.max_gib == 6 && told.1.max_gib == 6
            &&& body.error@ == told.1.error@
            &&& is_beijing_time(body.time@) && is_beijing_time(told.1.time@)
            &&& body.error@ == (match amount {
                None => "gb 不是合法数字: "@ + quoted(raw@),
                Some(a) => "gb 必须是 0 ~ 6 之间的数字（单位 GiB），收到 "@ + a.text@,
            })
        },
{
    if let Some(a) = amount {
        law_accepted_patterns(a.bits);
    }
}

/// A refusal with a message has that message in it, and says no with the limit beside
/// it, whatever the message.
pub proof fn law_refusal_carries_its_message(msg: String, reply: (Status, ErrorBody))
    requires
        call_ensures(bad_request, (msg,), reply),
    ensures
        reply.0 == Status::BadRequest,
        !reply.1.ok,
        reply.1.error@ == msg@,
        reply.1.max_gib == 6,
        is_beijing_time(reply.1.time@),
{
}

/// The answer to a question is the sizes of the state, with the whole MiB in the
/// bytes held.
pub proof fn law_info_tells_the_state(state: MemState, reply: (Status, InfoBody))
    requires
        call_ensures(meminfo, (&state,), reply),
    ensures
        reply.0 == Status::Success,
        reply.1.target_bytes == state.requested(),
        reply.1.held_bytes == (match state.buffer() {
            Some(b) => b.len(),
            None => 0,
        }),
        reply.1.holding <==> reply.1.held_bytes > 0,
        reply.1.held_mib * 1_048_576 <= reply.1.held_bytes < (reply.1.held_mib + 1) * 1_048_576,
        is_beijing_time(reply.1.time@),
{
}

/// The names of the four actions, and the numbers of the two statuses.
pub proof fn law_names_and_numbers(action: Action, name: &'static str, status: Status, code: u16)
    requires
        call_ensures(Action::name, (&action,), name),
        call_ensures(Status::code, (&status,), code),
    ensures
        action is Allocated ==> name@ == "allocated"@,
        action is Failed ==> name@ == "failed"@,
        action is Released ==> name@ == "released"@,
        action is Noop ==> name@ == "noop"@,
        status is Success ==> code == 200,
        status is BadRequest ==> code == 400,
{
}

/// No two actions have the same name.
pub proof fn law_action_names_differ(a: Action, b: Action)
    requires
        action_name(a) == action_name(b),
    ensures
        a == b,
{
    reveal_strlit("allocated");
    reveal_strlit("failed");
    reveal_strlit("released");
    reveal_strlit("noop");
    assert("allocated"@.len() == 9 && "failed"@.len() == 6);
    assert("released"@.len() == 8 && "noop"@.len() == 4);
}

} // verus!
