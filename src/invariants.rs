//! What holds of every run of the reader: the order of a message's header
//! events, how the forwarding depth moves, and how far a skip reaches.
use vstd::prelude::*;

use crate::reader::{
    admits, folds_to, gate_next, initial_view, name_bytes, next, EventResult, EventView, HolderView,
    MessageEvent, ParseState, TagName, Token,
};

verus! {

/// How many of a message's header fields (full name, handle, date) the reader
/// has passed in state `s`; -1 outside any message.
pub open spec fn header_rank(s: ParseState) -> int {
    match s {
        ParseState::Prelude | ParseState::NoMessage => -1,
        ParseState::MessageStart | ParseState::MessageFullNameStart => 0,
        ParseState::MessageFullNameExtracted | ParseState::MessageShortNameStart => 1,
        ParseState::MessageShortNameExtracted | ParseState::MessageDateStart => 2,
        _ => 3,
    }
}

/// Position of an event kind within a message: start, full name, handle, date,
/// then body and attachment parts.
pub open spec fn event_rank(e: EventView) -> int {
    match e {
        EventView::Start(_) => 0,
        EventView::FullName(_) => 1,
        EventView::ShortName(_) => 2,
        EventView::Date(_) => 3,
        _ => 4,
    }
}

pub open spec fn min3(r: int) -> int {
    if r < 3 {
        r
    } else {
        3
    }
}

/// The events the reader emits on `toks` from state `h`, up to the first
/// end-of-stream token or error.
pub open spec fn trace(h: HolderView, toks: Seq<Token>) -> Seq<EventView>
    decreases toks.len(),
{
    if toks.len() == 0 || toks[0] is Eof {
        Seq::empty()
    } else {
        match next(h, toks[0]) {
            Err(_) => Seq::empty(),
            Ok((h2, None)) => trace(h2, toks.drop_first()),
            Ok((h2, Some(e))) => seq![e] + trace(h2, toks.drop_first()),
        }
    }
}

/// Every event of `t` that is not a start comes right after an event one rank
/// below it (`prev` being the event before `t`), body and attachment parts
/// coming after the date or after another part.
pub open spec fn ordered_after(prev: Option<EventView>, t: Seq<EventView>) -> bool {
    forall|k: int| 0 <= k < t.len() && !(#[trigger] t[k] is Start) ==> {
        let p = if k == 0 { prev } else { Some(t[k - 1]) };
        p is Some && event_rank(t[k]) - 1 == min3(event_rank(p->0))
    }
}

/// One transition keeps the header order: a start opens a message, every other
/// event needs the reader one field further, and without an event the reader
/// either stays at its field or leaves the message.
pub proof fn lemma_step_header_order(h: HolderView, tok: Token)
    requires
        next(h, tok) is Ok,
    ensures
        ({
            let (h2, e) = next(h, tok)->Ok_0;
            match e {
                None => header_rank(h2.at) == header_rank(h.at) || header_rank(h2.at) == -1,
                Some(ev) => if ev is Start {
                    header_rank(h2.at) == 0
                } else {
                    header_rank(h.at) == event_rank(ev) - 1 && header_rank(h2.at) == min3(event_rank(ev))
                },
            }
        }),
{
}

proof fn lemma_trace_order(h: HolderView, prev: Option<EventView>, toks: Seq<Token>)
    requires
        header_rank(h.at) == -1 || (prev is Some && header_rank(h.at) == min3(event_rank(prev->0))),
    ensures
        ordered_after(prev, trace(h, toks)),
    decreases toks.len(),
{
    if toks.len() == 0 || toks[0] is Eof {
    } else {
        match next(h, toks[0]) {
            Err(_) => {},
            Ok((h2, None)) => {
                lemma_step_header_order(h, toks[0]);
                lemma_trace_order(h2, prev, toks.drop_first());
            },
            Ok((h2, Some(e))) => {
                lemma_step_header_order(h, toks[0]);
                lemma_trace_order(h2, Some(e), toks.drop_first());
                let rest = trace(h2, toks.drop_first());
                let t = seq![e] + rest;
                assert(trace(h, toks) == t);
                assert forall|k: int| 0 <= k < t.len() && !(#[trigger] t[k] is Start) implies {
                    let p = if k == 0 { prev } else { Some(t[k - 1]) };
                    p is Some && event_rank(t[k]) - 1 == min3(event_rank(p->0))
                } by {
                    if k > 0 {
                        assert(t[k] == rest[k - 1]);
                        if k > 1 {
                            assert(t[k - 1] == rest[k - 2]);
                        }
                    }
                }
            },
        }
    }
}

/// Whatever the tokens, the reader's events open with a start, and inside a
/// message the full name comes right after the start, the handle right after
/// the full name, the date right after the handle, and body and attachment
/// parts only after the date.
pub proof fn lemma_header_order(toks: Seq<Token>)
    ensures
        trace(initial_view(), toks).len() > 0 ==> trace(initial_view(), toks)[0] is Start,
        ordered_after(None, trace(initial_view(), toks)),
{
    lemma_trace_order(initial_view(), None, toks);
}

/// One transition moves the forwarding depth by at most one: up only when a
/// forwarded wrapper is entered, down only on the second of its two closing
/// tags. A start event carries the current depth.
pub proof fn lemma_step_level(h: HolderView, tok: Token)
    requires
        next(h, tok) is Ok,
    ensures
        ({
            let (h2, e) = next(h, tok)->Ok_0;
            &&& h2.msg_level == h.msg_level
                || (h2.msg_level == h.msg_level + 1 && h.at == ParseState::MessageForwardedStart
                    && h2.at == ParseState::NoMessage && !h2.fwd_closed)
                || (h2.msg_level + 1 == h.msg_level && h.at == ParseState::NoMessage && h.fwd_closed
                    && h2.at == ParseState::NoMessage && !h2.fwd_closed)
            &&& e matches Some(EventView::Start(l)) ==> l == h.msg_level
        }),
{
}

/// Between forwarded messages, the two closing tags of a wrapper bring the
/// depth back to the enclosing level, emitting nothing.
pub proof fn lemma_wrapper_pair_closes(h: HolderView, div: Vec<u8>)
    requires
        h.at == ParseState::NoMessage,
        h.msg_level > 0,
        !h.fwd_closed,
        div@ == name_bytes(TagName::Div),
    ensures
        ({
            let first = next(h, Token::End(div));
            let h1 = first->Ok_0.0;
            let second = next(h1, Token::End(div));
            &&& first is Ok && first->Ok_0.1 is None
            &&& h1.msg_level == h.msg_level && h1.fwd_closed && h1.at == ParseState::NoMessage
            &&& second is Ok && second->Ok_0.1 is None
            &&& second->Ok_0.0.msg_level == h.msg_level - 1
            &&& !second->Ok_0.0.fwd_closed && second->Ok_0.0.at == ParseState::NoMessage
        }),
{
}

/// The skip depth after the events `evs` (depth, is a start) with the verdicts
/// `verdicts` the reducer would give them.
pub open spec fn gate_run(skip: Option<u32>, evs: Seq<(u32, bool)>, verdicts: Seq<bool>) -> Option<u32>
    decreases evs.len(),
{
    if evs.len() == 0 {
        skip
    } else {
        gate_run(gate_next(skip, evs[0].0, evs[0].1, verdicts[0]), evs.drop_first(), verdicts.drop_first())
    }
}

/// A skip asked for on an event of a message at depth `l` holds over every
/// following event that is not the start of a message at depth `l` or above:
/// none of them reaches the reducer, and the skip stays. The start of the next
/// message at depth `l` or above does reach it.
pub proof fn lemma_skip_propagates(
    skip: Option<u32>,
    l: u32,
    is_start: bool,
    evs: Seq<(u32, bool)>,
    verdicts: Seq<bool>,
)
    requires
        admits(skip, l, is_start),
        evs.len() == verdicts.len(),
        forall|k: int| 0 <= k < evs.len() ==> !(#[trigger] evs[k].1 && evs[k].0 <= l),
    ensures
        gate_next(skip, l, is_start, true) == Some(l),
        forall|k: int| 0 <= k < evs.len() ==> !admits(Some(l), #[trigger] evs[k].0, evs[k].1),
        gate_run(Some(l), evs, verdicts) == Some(l),
        forall|m: u32| m <= l ==> #[trigger] admits(Some(l), m, true),
    decreases evs.len(),
{
    if evs.len() > 0 {
        let rest = evs.drop_first();
        assert forall|k: int| 0 <= k < rest.len() implies !(#[trigger] rest[k].1 && rest[k].0 <= l) by {
            assert(rest[k] == evs[k + 1]);
        }
        assert(!(evs[0].1 && evs[0].0 <= l));
        lemma_skip_propagates(Some(l), l, true, rest, verdicts.drop_first());
    }
}

/// The events the reader emits on `toks` from state `h`, each with the depth it
/// is emitted at, up to the first end-of-stream token or error.
pub open spec fn level_trace(h: HolderView, toks: Seq<Token>) -> Seq<(u32, EventView)>
    decreases toks.len(),
{
    if toks.len() == 0 || toks[0] is Eof {
        Seq::empty()
    } else {
        match next(h, toks[0]) {
            Err(_) => Seq::empty(),
            Ok((h2, None)) => level_trace(h2, toks.drop_first()),
            Ok((h2, Some(e))) => seq![(h2.msg_level, e)] + level_trace(h2, toks.drop_first()),
        }
    }
}

/// While a skip asked for at depth `l` is in force, a fold over tokens that
/// emit no start of a message at depth `l` or above never calls the reducer:
/// whatever the fold ends with is the accumulator it had when the skip began.
pub proof fn lemma_fold_skips_nested<A, F: Fn(A, MessageEvent) -> EventResult<A>>(
    reducer: F,
    h: HolderView,
    l: u32,
    acc: A,
    toks: Seq<Token>,
    out: A,
)
    requires
        folds_to(reducer, h, Some(l), acc, toks, out),
        forall|k: int| 0 <= k < level_trace(h, toks).len()
            ==> !(#[trigger] level_trace(h, toks)[k].1 is Start && level_trace(h, toks)[k].0 <= l),
    ensures
        out == acc,
    decreases toks.len(),
{
    if toks.len() == 0 || toks[0] is Eof {
    } else {
        match next(h, toks[0]) {
            Err(_) => {},
            Ok((h2, None)) => {
                assert(level_trace(h, toks) == level_trace(h2, toks.drop_first()));
                lemma_fold_skips_nested(reducer, h2, l, acc, toks.drop_first(), out);
            },
            Ok((h2, Some(e))) => {
                let rest = level_trace(h2, toks.drop_first());
                let t = level_trace(h, toks);
                assert(t == seq![(h2.msg_level, e)] + rest);
                assert(t[0] == (h2.msg_level, e));
                assert(!(t[0].1 is Start && t[0].0 <= l));
                assert forall|k: int| 0 <= k < rest.len() implies !(#[trigger] rest[k].1 is Start && rest[k].0 <= l) by {
                    assert(t[k + 1] == rest[k]);
                }
                lemma_fold_skips_nested(reducer, h2, l, acc, toks.drop_first(), out);
            },
        }
    }
}

/// While a skip asked for at depth `l` is in force, the next call of the reducer
/// in a fold is on the start of the next message at depth `l` or above (the
/// event at `k`), and it gets the accumulator the skip began with.
pub proof fn lemma_fold_resumes<A, F: Fn(A, MessageEvent) -> EventResult<A>>(
    reducer: F,
    h: HolderView,
    l: u32,
    acc: A,
    toks: Seq<Token>,
    out: A,
    k: int,
)
    requires
        folds_to(reducer, h, Some(l), acc, toks, out),
        0 <= k < level_trace(h, toks).len(),
        level_trace(h, toks)[k].1 is Start && level_trace(h, toks)[k].0 <= l,
        forall|j: int| 0 <= j < k
            ==> !(#[trigger] level_trace(h, toks)[j].1 is Start && level_trace(h, toks)[j].0 <= l),
    ensures
        exists|e: MessageEvent, v: EventResult<A>|
            e@ == level_trace(h, toks)[k].1 && #[trigger] call_ensures(reducer, (acc, e), v),
    decreases toks.len(),
{
    if toks.len() == 0 || toks[0] is Eof {
    } else {
        match next(h, toks[0]) {
            Err(_) => {},
            Ok((h2, None)) => {
                assert(level_trace(h, toks) == level_trace(h2, toks.drop_first()));
                lemma_fold_resumes(reducer, h2, l, acc, toks.drop_first(), out, k);
            },
            Ok((h2, Some(e))) => {
                let rest = level_trace(h2, toks.drop_first());
                let t = level_trace(h, toks);
                assert(t == seq![(h2.msg_level, e)] + rest);
                assert(t[0] == (h2.msg_level, e));
                if k > 0 {
                    assert(!(t[0].1 is Start && t[0].0 <= l));
                    assert forall|j: int| 0 <= j < k - 1 implies !(#[trigger] rest[j].1 is Start && rest[j].0 <= l) by {
                        assert(t[j + 1] == rest[j]);
                    }
                    assert(t[k] == rest[k - 1]);
                    lemma_fold_resumes(reducer, h2, l, acc, toks.drop_first(), out, k - 1);
                } else {
                    assert(admits(Some(l), h2.msg_level, e is Start));
                }
            },
        }
    }
}

/// Along `t`, each start is at most one level deeper than the start before it,
/// the first one (when `last` is `None`) being at depth 0.
pub open spec fn starts_climb(last: Option<u32>, t: Seq<EventView>) -> bool
    decreases t.len(),
{
    if t.len() == 0 {
        true
    } else {
        match t[0] {
            EventView::Start(b) => (match last {
                None => b == 0,
                Some(a) => b <= a + 1,
            }) && starts_climb(Some(b), t.drop_first()),
            _ => starts_climb(last, t.drop_first()),
        }
    }
}

proof fn lemma_trace_climbs(h: HolderView, last: Option<u32>, toks: Seq<Token>)
    requires
        match last {
            None => h.msg_level == 0 && header_rank(h.at) == -1,
            Some(a) => h.msg_level <= a + 1 && (h.msg_level == a + 1 ==> header_rank(h.at) == -1),
        },
    ensures
        starts_climb(last, trace(h, toks)),
    decreases toks.len(),
{
    if toks.len() == 0 || toks[0] is Eof {
    } else {
        match next(h, toks[0]) {
            Err(_) => {},
            Ok((h2, None)) => {
                lemma_step_header_order(h, toks[0]);
                lemma_step_level(h, toks[0]);
                lemma_trace_climbs(h2, last, toks.drop_first());
            },
            Ok((h2, Some(e))) => {
                lemma_step_header_order(h, toks[0]);
                lemma_step_level(h, toks[0]);
                let rest = trace(h2, toks.drop_first());
                assert((seq![e] + rest).drop_first() =~= rest);
                assert((seq![e] + rest)[0] == e);
                if let EventView::Start(b) = e {
                    lemma_trace_climbs(h2, Some(b), toks.drop_first());
                } else {
                    lemma_trace_climbs(h2, last, toks.drop_first());
                }
            },
        }
    }
}

/// Over any tokens, the first message the reader starts is at depth 0, and each
/// later start is at most one level deeper than the start before it: a wrapper
/// is entered only from inside a message, so depth grows by one per forwarded
/// level and never skips one.
pub proof fn lemma_nesting_climbs(toks: Seq<Token>)
    ensures
        starts_climb(None, trace(initial_view(), toks)),
{
    lemma_trace_climbs(initial_view(), None, toks);
}

/// Calling `reducer` on events viewed as `evs`, one after another, starting
/// from `acc`, can end with `out`.
pub open spec fn calls_chain<A, F: Fn(A, MessageEvent) -> EventResult<A>>(
    reducer: F,
    acc: A,
    evs: Seq<EventView>,
    out: A,
) -> bool
    decreases evs.len(),
{
    if evs.len() == 0 {
        out == acc
    } else {
        exists|e: MessageEvent, v: EventResult<A>|
            e@ == evs[0] && #[trigger] call_ensures(reducer, (acc, e), v)
            && calls_chain(reducer, v.acc(), evs.drop_first(), out)
    }
}

/// The reducer never asks to skip.
pub open spec fn never_skips<A, F: Fn(A, MessageEvent) -> EventResult<A>>(reducer: F) -> bool {
    forall|a: A, e: MessageEvent, v: EventResult<A>| #[trigger] call_ensures(reducer, (a, e), v) ==> v is Consumed
}

/// With a reducer that never asks to skip, a fold hands it every event the
/// reader emits, in order: the events delivered are exactly `trace`.
pub proof fn lemma_fold_delivers_trace<A, F: Fn(A, MessageEvent) -> EventResult<A>>(
    reducer: F,
    h: HolderView,
    acc: A,
    toks: Seq<Token>,
    out: A,
)
    requires
        never_skips(reducer),
        folds_to(reducer, h, None, acc, toks, out),
    ensures
        calls_chain(reducer, acc, trace(h, toks), out),
    decreases toks.len(),
{
    if toks.len() == 0 || toks[0] is Eof {
    } else {
        match next(h, toks[0]) {
            Err(_) => {},
            Ok((h2, None)) => {
                lemma_fold_delivers_trace(reducer, h2, acc, toks.drop_first(), out);
            },
            Ok((h2, Some(ev))) => {
                assert(admits(None, h2.msg_level, ev is Start));
                let (e, v) = choose|e: MessageEvent, v: EventResult<A>|
                    e@ == ev && #[trigger] call_ensures(reducer, (acc, e), v)
                    && folds_to(reducer, h2, gate_next(None, h2.msg_level, ev is Start, v is SkipMessage),
                        v.acc(), toks.drop_first(), out);
                assert(v is Consumed);
                lemma_fold_delivers_trace(reducer, h2, v.acc(), toks.drop_first(), out);
                let t = seq![ev] + trace(h2, toks.drop_first());
                assert(t.drop_first() =~= trace(h2, toks.drop_first()));
                assert(t[0] == ev);
                assert(calls_chain(reducer, acc, t, out));
            },
        }
    }
}

} // verus!
