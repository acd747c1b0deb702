//! Keeping the marked entries of a list: what a collection pass leaves.

use vstd::prelude::*;

verus! {

/// The entries of `slots` at the positions that `alive` marks, in their
/// order. A position beyond the end of `alive` counts as dead.
pub open spec fn kept<A>(slots: Seq<A>, alive: Seq<bool>) -> Seq<A>
    decreases slots.len(),
{
    if slots.len() == 0 {
        Seq::empty()
    } else {
        let earlier = kept(slots.drop_last(), alive);
        if slots.len() <= alive.len() && alive[slots.len() - 1] {
            earlier.push(slots.last())
        } else {
            earlier
        }
    }
}

/// What is kept of a prefix does not depend on marks beyond that prefix.
pub proof fn lemma_kept_ignores_later_marks<A>(slots: Seq<A>, alive: Seq<bool>, more: Seq<bool>)
    requires
        slots.len() <= alive.len(),
    ensures
        kept(slots, alive + more) == kept(slots, alive),
    decreases slots.len(),
{
    if slots.len() > 0 {
        lemma_kept_ignores_later_marks(slots.drop_last(), alive, more);
    }
}

/// Looking at one more slot either appends it to what was kept so far or
/// leaves that unchanged, as the slot's mark says.
pub proof fn lemma_kept_step<A>(slots: Seq<A>, alive: Seq<bool>, mark: bool)
    requires
        alive.len() < slots.len(),
    ensures
        kept(slots.take((alive.len() + 1) as int), alive.push(mark)) == if mark {
            kept(slots.take(alive.len() as int), alive).push(slots[alive.len() as int])
        } else {
            kept(slots.take(alive.len() as int), alive)
        },
{
    let seen: int = alive.len() as int;
    lemma_kept_ignores_later_marks(slots.take(seen), alive, seq![mark]);
    assert(alive + seq![mark] == alive.push(mark));
    assert(slots.take(seen + 1).drop_last() == slots.take(seen));
}

/// Collection keeps the order of the slots: what is kept of two lists laid
/// end to end is what is kept of the first, followed by what is kept of the
/// second.
pub proof fn lemma_kept_concat<A>(
    front: Seq<A>,
    front_alive: Seq<bool>,
    back: Seq<A>,
    back_alive: Seq<bool>,
)
    requires
        front_alive.len() == front.len(),
    ensures
        kept(front + back, front_alive + back_alive) == kept(front, front_alive) + kept(
            back,
            back_alive,
        ),
    decreases back.len(),
{
    if back.len() == 0 {
        assert(front + back == front);
        lemma_kept_ignores_later_marks(front, front_alive, back_alive);
        assert(kept(front, front_alive) + kept(back, back_alive) == kept(front, front_alive));
    } else {
        let whole = front + back;
        let marks = front_alive + back_alive;
        assert(whole.drop_last() == front + back.drop_last());
        assert(whole.last() == back.last());
        lemma_kept_concat(front, front_alive, back.drop_last(), back_alive);
        if back.len() <= back_alive.len() {
            assert(marks[whole.len() - 1] == back_alive[back.len() - 1]);
            assert(kept(front, front_alive) + kept(back.drop_last(), back_alive).push(back.last())
                == (kept(front, front_alive) + kept(back.drop_last(), back_alive)).push(
                back.last(),
            ));
        }
    }
}

/// A collection pass never adds an entry.
pub proof fn lemma_kept_len<A>(slots: Seq<A>, alive: Seq<bool>)
    ensures
        kept(slots, alive).len() <= slots.len(),
    decreases slots.len(),
{
    if slots.len() > 0 {
        lemma_kept_len(slots.drop_last(), alive);
    }
}

/// A collection pass invents nothing: each entry that it keeps is an entry
/// of the list it went over.
pub proof fn lemma_kept_members<A>(slots: Seq<A>, alive: Seq<bool>)
    ensures
        forall|i: int|
            0 <= i < kept(slots, alive).len() ==> slots.contains(#[trigger] kept(slots, alive)[i]),
    decreases slots.len(),
{
    if slots.len() > 0 {
        let earlier = slots.drop_last();
        lemma_kept_members(earlier, alive);
        assert forall|i: int| 0 <= i < kept(slots, alive).len() implies slots.contains(
            #[trigger] kept(slots, alive)[i],
        ) by {
            if i < kept(earlier, alive).len() {
                let j: int = choose|j: int|
                    0 <= j < earlier.len() && earlier[j] == kept(earlier, alive)[i];
                assert(slots[j] == kept(slots, alive)[i]);
            } else {
                assert(slots[slots.len() - 1] == kept(slots, alive)[i]);
            }
        }
    }
}

/// A collection pass that finds every entry alive changes nothing.
pub proof fn lemma_kept_all<A>(slots: Seq<A>, alive: Seq<bool>)
    requires
        slots.len() <= alive.len(),
        forall|i: int| 0 <= i < slots.len() ==> alive[i],
    ensures
        kept(slots, alive) == slots,
    decreases slots.len(),
{
    if slots.len() > 0 {
        lemma_kept_all(slots.drop_last(), alive);
        assert(slots.drop_last().push(slots.last()) == slots);
    }
}

/// The marks that a pass keeps are as many as the entries it keeps, and
/// each of them says alive.
pub proof fn lemma_kept_marks<A>(slots: Seq<A>, alive: Seq<bool>)
    requires
        alive.len() == slots.len(),
    ensures
        kept(alive, alive).len() == kept(slots, alive).len(),
        forall|i: int| 0 <= i < kept(alive, alive).len() ==> kept(alive, alive)[i],
    decreases slots.len(),
{
    if slots.len() > 0 {
        let fewer = alive.drop_last();
        lemma_kept_marks(slots.drop_last(), fewer);
        assert(fewer + seq![alive.last()] == alive);
        lemma_kept_ignores_later_marks(slots.drop_last(), fewer, seq![alive.last()]);
        lemma_kept_ignores_later_marks(fewer, fewer, seq![alive.last()]);
    }
}

/// Collecting is idempotent: a second pass, run while the entries are as
/// alive as the first pass found them, leaves what the first pass left.
/// The marks of the second pass are those of the first, carried along with
/// the entries that stayed.
pub proof fn lemma_collect_idempotent<A>(slots: Seq<A>, alive: Seq<bool>)
    requires
        alive.len() == slots.len(),
    ensures
        kept(kept(slots, alive), kept(alive, alive)) == kept(slots, alive),
{
    lemma_kept_marks(slots, alive);
    lemma_kept_all(kept(slots, alive), kept(alive, alive));
}

/// A dead entry is transparent: with it or without it, a pass keeps the
/// same entries in the same order.
pub proof fn lemma_kept_skips_dead<A>(slots: Seq<A>, alive: Seq<bool>, dead: int)
    requires
        alive.len() == slots.len(),
        0 <= dead < slots.len(),
        !alive[dead],
    ensures
        kept(slots.remove(dead), alive.remove(dead)) == kept(slots, alive),
{
    let front = slots.take(dead);
    let front_alive = alive.take(dead);
    let back = slots.skip(dead + 1);
    let back_alive = alive.skip(dead + 1);
    let one = seq![slots[dead]];
    let mark = seq![false];
    assert(kept(one, mark) == Seq::<A>::empty()) by {
        assert(kept(one.drop_last(), mark) == Seq::<A>::empty());
    }
    lemma_kept_concat(one, mark, back, back_alive);
    lemma_kept_concat(front, front_alive, one + back, mark + back_alive);
    lemma_kept_concat(front, front_alive, back, back_alive);
    assert(front + (one + back) == slots);
    assert(front_alive + (mark + back_alive) == alive);
    assert(front + back == slots.remove(dead));
    assert(front_alive + back_alive == alive.remove(dead));
    assert(kept(one, mark) + kept(back, back_alive) == kept(back, back_alive));
}

/// Returns the entries of `slots` whose position `alive` marks, in their
/// order. Entries beyond the end of `alive` are dropped.
pub fn retain_marked<A>(slots: Vec<A>, alive: &Vec<bool>) -> (out: Vec<A>)
    ensures
        out@ == kept(slots@, alive@),
{
    let ghost all = slots@;
    let mut out: Vec<A> = Vec::new();
    let mut i: usize = 0;
    proof {
        assert(all.len() == slots.len());
    }
    for slot in it: slots
        invariant
            it.seq() == all,
            all.len() <= usize::MAX,
            i == it.index(),
            out@ == kept(all.take(i as int), alive@),
    {
        proof {
            assert(all.take(i + 1).drop_last() == all.take(i as int));
        }
        if i < alive.len() && alive[i] {
            out.push(slot);
        }
        i += 1;
    }
    proof {
        assert(all.take(all.len() as int) == all);
    }
    out
}

} // verus!
