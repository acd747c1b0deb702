//! What a list of listeners makes of an item, and the laws of a pass.

use crate::collect::kept;
use crate::collect::lemma_kept_concat;
use crate::collect::lemma_kept_skips_dead;
use crate::observer::may_reply;
use crate::observer::Observer;
use std::rc::Rc;
use vstd::prelude::*;

verus! {

/// Whether offering `item` to `listeners`, first to last, can end in `out`.
///
/// The first listener answers the item. If it consumes the item, the
/// outcome is `None` and the others play no part. If it hands an item
/// back, that item is offered to the remaining listeners in the same way.
/// With no listener left, the outcome is the item itself.
pub open spec fn relays<T, L: Observer<Item = T> + ?Sized>(
    listeners: Seq<Rc<L>>,
    item: T,
    out: Option<T>,
) -> bool
    decreases listeners.len(),
{
    if listeners.len() == 0 {
        out == Some(item)
    } else {
        exists|reply: Option<T>|
            #[trigger] may_reply(&*listeners[0], item, reply) && match reply {
                Some(next) => relays(listeners.drop_first(), next, out),
                None => out is None,
            }
    }
}

/// How an answer goes on to the listeners that come after: a consumed item
/// ends the pass with `None`, an item handed back is offered to `rest`.
pub open spec fn passes_on<T, L: Observer<Item = T> + ?Sized>(
    reply: Option<T>,
    rest: Seq<Rc<L>>,
    out: Option<T>,
) -> bool {
    match reply {
        Some(next) => relays(rest, next, out),
        None => out is None,
    }
}

/// With no listener, an item comes back unchanged, and nothing else does.
pub proof fn lemma_relays_nobody<T, L: Observer<Item = T> + ?Sized>(
    listeners: Seq<Rc<L>>,
    item: T,
    out: Option<T>,
)
    requires
        listeners.len() == 0,
    ensures
        relays(listeners, item, out) <==> out == Some(item),
{
}

/// A single listener relays exactly what it can answer.
pub proof fn lemma_relays_one<T, L: Observer<Item = T> + ?Sized>(
    listeners: Seq<Rc<L>>,
    item: T,
    out: Option<T>,
)
    requires
        listeners.len() == 1,
    ensures
        relays(listeners, item, out) <==> may_reply(&*listeners[0], item, out),
{
    let rest = listeners.drop_first();
    assert(rest.len() == 0);
    if relays(listeners, item, out) {
        let reply = choose|reply: Option<T>|
            #[trigger] may_reply(&*listeners[0], item, reply) && match reply {
                Some(next) => relays(rest, next, out),
                None => out is None,
            };
        assert(reply == out);
    }
    if may_reply(&*listeners[0], item, out) {
        assert(match out {
            Some(next) => relays(rest, next, out),
            None => out is None,
        });
    }
}

/// Listeners are consulted in order: if the front of a list can turn
/// `item` into `mid`, and `mid` goes on through the back of the list to
/// `out`, then the whole list can turn `item` into `out`.
pub proof fn lemma_relays_join<T, L: Observer<Item = T> + ?Sized>(
    front: Seq<Rc<L>>,
    back: Seq<Rc<L>>,
    item: T,
    mid: Option<T>,
    out: Option<T>,
)
    requires
        relays(front, item, mid),
        passes_on(mid, back, out),
    ensures
        relays(front + back, item, out),
    decreases front.len(),
{
    let whole = front + back;
    if front.len() == 0 {
        assert(whole == back);
    } else {
        let reply = choose|reply: Option<T>|
            #[trigger] may_reply(&*front[0], item, reply) && match reply {
                Some(next) => relays(front.drop_first(), next, mid),
                None => mid is None,
            };
        assert(whole[0] == front[0]);
        assert(whole.drop_first() == front.drop_first() + back);
        match reply {
            Some(next) => {
                lemma_relays_join(front.drop_first(), back, next, mid, out);
            },
            None => {},
        }
        assert(may_reply(&*whole[0], item, reply));
    }
}

/// Listeners are consulted in order: whatever a list makes of an item, the
/// back of the list has it from the front.
pub proof fn lemma_relays_split<T, L: Observer<Item = T> + ?Sized>(
    front: Seq<Rc<L>>,
    back: Seq<Rc<L>>,
    item: T,
    out: Option<T>,
)
    requires
        relays(front + back, item, out),
    ensures
        exists|mid: Option<T>| #[trigger] relays(front, item, mid) && passes_on(mid, back, out),
    decreases front.len(),
{
    let whole = front + back;
    if front.len() == 0 {
        assert(whole == back);
        assert(relays(front, item, Some(item)) && passes_on(Some(item), back, out));
    } else {
        let reply = choose|reply: Option<T>|
            #[trigger] may_reply(&*whole[0], item, reply) && match reply {
                Some(next) => relays(whole.drop_first(), next, out),
                None => out is None,
            };
        assert(whole[0] == front[0]);
        assert(whole.drop_first() == front.drop_first() + back);
        match reply {
            Some(next) => {
                lemma_relays_split(front.drop_first(), back, next, out);
                let mid = choose|mid: Option<T>| #[trigger]
                    relays(front.drop_first(), next, mid) && passes_on(mid, back, out);
                assert(may_reply(&*front[0], item, reply));
                assert(relays(front, item, mid) && passes_on(mid, back, out));
            },
            None => {
                assert(may_reply(&*front[0], item, reply));
                assert(relays(front, item, None) && passes_on(None::<T>, back, out));
            },
        }
    }
}

/// Consuming stops the pass: once a listener has consumed the item, the
/// outcome is `None` whichever listeners come after it, alive or not.
pub proof fn lemma_consume_stops<T, L: Observer<Item = T> + ?Sized>(
    front: Seq<Rc<L>>,
    consumer: Rc<L>,
    back: Seq<Rc<L>>,
    item: T,
    reached: T,
)
    requires
        relays(front, item, Some(reached)),
        may_reply(&*consumer, reached, None),
    ensures
        relays(front + seq![consumer] + back, item, None),
{
    let one = seq![consumer];
    lemma_relays_one(one, reached, None);
    lemma_relays_join(front, one, item, Some(reached), None);
    lemma_relays_join(front + one, back, item, None, None);
}

/// Consuming is final: where the listeners in front can only hand on
/// `reached`, or consume, and the next listener can only consume `reached`,
/// no listener behind it has a say, and the outcome is `None`.
pub proof fn lemma_consume_is_final<T, L: Observer<Item = T> + ?Sized>(
    front: Seq<Rc<L>>,
    consumer: Rc<L>,
    back: Seq<Rc<L>>,
    item: T,
    reached: T,
    out: Option<T>,
)
    requires
        forall|mid: Option<T>| #[trigger]
            relays(front, item, mid) ==> mid is None || mid == Some(reached),
        forall|reply: Option<T>| #[trigger] may_reply(&*consumer, reached, reply) ==> reply is None,
        relays(front + seq![consumer] + back, item, out),
    ensures
        out is None,
{
    let behind = seq![consumer] + back;
    assert(front + seq![consumer] + back == front + behind);
    lemma_relays_split(front, behind, item, out);
    let mid = choose|mid: Option<T>| #[trigger]
        relays(front, item, mid) && passes_on(mid, behind, out);
    if mid is Some {
        let reply = choose|reply: Option<T>|
            #[trigger] may_reply(&*behind[0], reached, reply) && match reply {
                Some(next) => relays(behind.drop_first(), next, out),
                None => out is None,
            };
        assert(behind[0] == consumer);
    }
}

/// A pass ends in `None` only if one of the listeners consumed what the
/// listeners before it had handed on.
pub proof fn lemma_consumed_by_one<T, L: Observer<Item = T> + ?Sized>(
    listeners: Seq<Rc<L>>,
    item: T,
)
    requires
        relays(listeners, item, None),
    ensures
        exists|k: int, reached: T|
            0 <= k < listeners.len() && #[trigger] relays(
                listeners.take(k),
                item,
                Some(reached),
            ) && may_reply(&*listeners[k], reached, None),
    decreases listeners.len(),
{
    let reply = choose|reply: Option<T>|
        #[trigger] may_reply(&*listeners[0], item, reply) && match reply {
            Some(next) => relays(listeners.drop_first(), next, None),
            None => true,
        };
    match reply {
        Some(next) => {
            let rest = listeners.drop_first();
            lemma_consumed_by_one(rest, next);
            let (k, reached) = choose|k: int, reached: T|
                0 <= k < rest.len() && #[trigger] relays(rest.take(k), next, Some(reached))
                    && may_reply(&*rest[k], reached, None);
            let one = seq![listeners[0]];
            lemma_relays_one(one, item, reply);
            lemma_relays_join(one, rest.take(k), item, reply, Some(reached));
            assert(one + rest.take(k) == listeners.take(k + 1));
            assert(relays(listeners.take(k + 1), item, Some(reached)) && may_reply(
                &*listeners[k + 1],
                reached,
                None,
            ));
        },
        None => {
            assert(listeners.take(0).len() == 0);
            assert(relays(listeners.take(0), item, Some(item)) && may_reply(
                &*listeners[0],
                item,
                None,
            ));
        },
    }
}

/// The order of the list is the order of the pass: whatever goes on from
/// position `k` has come through the listeners before `k` that were alive,
/// first to last, and goes through those from `k` on that are alive.
pub proof fn lemma_reached_in_order<T, L: Observer<Item = T> + ?Sized>(
    listeners: Seq<Rc<L>>,
    alive: Seq<bool>,
    k: int,
    item: T,
    out: Option<T>,
)
    requires
        alive.len() == listeners.len(),
        0 <= k <= listeners.len(),
        relays(kept(listeners, alive), item, out),
    ensures
        exists|mid: Option<T>| #[trigger]
            relays(kept(listeners.take(k), alive.take(k)), item, mid) && passes_on(
                mid,
                kept(listeners.skip(k), alive.skip(k)),
                out,
            ),
{
    lemma_kept_concat(listeners.take(k), alive.take(k), listeners.skip(k), alive.skip(k));
    assert(listeners.take(k) + listeners.skip(k) == listeners);
    assert(alive.take(k) + alive.skip(k) == alive);
    lemma_relays_split(
        kept(listeners.take(k), alive.take(k)),
        kept(listeners.skip(k), alive.skip(k)),
        item,
        out,
    );
}

/// A listener that is gone is transparent: a pass over a list makes of an
/// item what it would make of it if the dead listener had never been in
/// the list.
pub proof fn lemma_dead_is_skipped<T, L: Observer<Item = T> + ?Sized>(
    listeners: Seq<Rc<L>>,
    alive: Seq<bool>,
    dead: int,
    item: T,
    out: Option<T>,
)
    requires
        alive.len() == listeners.len(),
        0 <= dead < listeners.len(),
        !alive[dead],
    ensures
        relays(kept(listeners, alive), item, out) <==> relays(
            kept(listeners.remove(dead), alive.remove(dead)),
            item,
            out,
        ),
{
    lemma_kept_skips_dead(listeners, alive, dead);
}

/// Whether listener `k` can hand entry `k` of `trace` on as entry `k + 1`.
pub open spec fn hands_on<T, L: Observer<Item = T> + ?Sized>(
    listeners: Seq<Rc<L>>,
    trace: Seq<T>,
    k: int,
) -> bool {
    may_reply(&*listeners[k], trace[k], Some(trace[k + 1]))
}

/// Whether every listener hands on what it gets: `trace` holds the item as
/// it enters the list, then as each listener in turn hands it back.
pub open spec fn passes_through<T, L: Observer<Item = T> + ?Sized>(
    listeners: Seq<Rc<L>>,
    trace: Seq<T>,
) -> bool {
    &&& trace.len() == listeners.len() + 1
    &&& forall|k: int| 0 <= k < listeners.len() ==> #[trigger] hands_on(listeners, trace, k)
}

/// Passing through keeps the chain: if every listener hands an item back,
/// each to the next, the outcome is what the last one handed back, and the
/// item was not consumed.
pub proof fn lemma_pass_through<T, L: Observer<Item = T> + ?Sized>(
    listeners: Seq<Rc<L>>,
    trace: Seq<T>,
)
    requires
        passes_through(listeners, trace),
    ensures
        relays(listeners, trace.first(), Some(trace.last())),
    decreases listeners.len(),
{
    if listeners.len() > 0 {
        let rest = listeners.drop_first();
        let later = trace.drop_first();
        assert forall|k: int| 0 <= k < rest.len() implies #[trigger] hands_on(rest, later, k) by {
            assert(hands_on(listeners, trace, k + 1));
        }
        lemma_pass_through(rest, later);
        assert(hands_on(listeners, trace, 0));
    }
}

/// An item that comes out of a pass went through every listener: there is
/// a trace of what each of them handed back, from the item that went in to
/// the item that came out.
pub proof fn lemma_passed_through_all<T, L: Observer<Item = T> + ?Sized>(
    listeners: Seq<Rc<L>>,
    item: T,
    last: T,
)
    requires
        relays(listeners, item, Some(last)),
    ensures
        exists|trace: Seq<T>|
            #[trigger] passes_through(listeners, trace) && trace.first() == item && trace.last()
                == last,
    decreases listeners.len(),
{
    if listeners.len() == 0 {
        let trace = seq![item];
        assert(passes_through(listeners, trace) && trace.first() == item && trace.last() == last);
    } else {
        let rest = listeners.drop_first();
        let reply = choose|reply: Option<T>|
            #[trigger] may_reply(&*listeners[0], item, reply) && match reply {
                Some(next) => relays(rest, next, Some(last)),
                None => false,
            };
        let next = reply->Some_0;
        lemma_passed_through_all(rest, next, last);
        let later = choose|later: Seq<T>|
            #[trigger] passes_through(rest, later) && later.first() == next && later.last()
                == last;
        let trace = seq![item] + later;
        assert forall|k: int| 0 <= k < listeners.len() implies #[trigger] hands_on(
            listeners,
            trace,
            k,
        ) by {
            if k > 0 {
                assert(hands_on(rest, later, k - 1));
            }
        }
        assert(passes_through(listeners, trace) && trace.first() == item && trace.last() == last);
    }
}

/// What every listener keeps, a pass keeps: if `inv` holds of the item
/// that goes in, and of whatever a listener hands back for an item of
/// which it holds, then it holds of the item that comes out.
pub proof fn lemma_relays_keeps<T, L: Observer<Item = T> + ?Sized>(
    listeners: Seq<Rc<L>>,
    item: T,
    out: Option<T>,
    inv: spec_fn(T) -> bool,
)
    requires
        relays(listeners, item, out),
        inv(item),
        forall|k: int, given: T, back: T|
            0 <= k < listeners.len() && inv(given) && #[trigger] may_reply(
                &*listeners[k],
                given,
                Some(back),
            ) ==> inv(back),
    ensures
        out matches Some(last) ==> inv(last),
    decreases listeners.len(),
{
    if listeners.len() > 0 {
        let rest = listeners.drop_first();
        let reply = choose|reply: Option<T>|
            #[trigger] may_reply(&*listeners[0], item, reply) && match reply {
                Some(next) => relays(rest, next, out),
                None => out is None,
            };
        match reply {
            Some(next) => {
                assert forall|k: int, given: T, back: T|
                    0 <= k < rest.len() && inv(given) && #[trigger] may_reply(
                        &*rest[k],
                        given,
                        Some(back),
                    ) implies inv(back) by {
                    assert(may_reply(&*listeners[k + 1], given, Some(back)));
                }
                lemma_relays_keeps(rest, next, out, inv);
            },
            None => {},
        }
    }
}

/// An item that no listener consumes comes out of the pass: if `inv` holds
/// of the item that goes in, every listener keeps `inv`, and none of them
/// consumes an item of which `inv` holds, then the outcome is not `None`.
pub proof fn lemma_relays_survives<T, L: Observer<Item = T> + ?Sized>(
    listeners: Seq<Rc<L>>,
    item: T,
    out: Option<T>,
    inv: spec_fn(T) -> bool,
)
    requires
        relays(listeners, item, out),
        inv(item),
        forall|k: int, given: T, back: Option<T>|
            0 <= k < listeners.len() && inv(given) && #[trigger] may_reply(
                &*listeners[k],
                given,
                back,
            ) ==> back is Some && inv(back->Some_0),
    ensures
        out is Some,
    decreases listeners.len(),
{
    if listeners.len() > 0 {
        let rest = listeners.drop_first();
        let reply = choose|reply: Option<T>|
            #[trigger] may_reply(&*listeners[0], item, reply) && match reply {
                Some(next) => relays(rest, next, out),
                None => out is None,
            };
        assert forall|k: int, given: T, back: Option<T>|
            0 <= k < rest.len() && inv(given) && #[trigger] may_reply(
                &*rest[k],
                given,
                back,
            ) implies back is Some && inv(back->Some_0) by {
            assert(may_reply(&*listeners[k + 1], given, back));
        }
        lemma_relays_survives(rest, reply->Some_0, out, inv);
    }
}

} // verus!
