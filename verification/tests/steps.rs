use multiplexer::offer;
use multiplexer::Observer;
use multiplexer::WeakRef;
use std::cell::Cell;
use std::rc::Rc;

/// Consumes the item it waits for and counts how often it was asked.
struct Waiter {
    n: u32,
    asked: Cell<u32>,
    found: Cell<bool>,
}

impl Observer for Waiter {
    type Item = u32;

    fn handle(&self, item: u32) -> Option<u32> {
        self.asked.set(self.asked.get() + 1);
        if item == self.n {
            self.found.set(true);
            None
        } else {
            Some(item)
        }
    }
}

fn waiter(n: u32) -> Rc<Waiter> {
    Rc::new(Waiter { n, asked: Cell::new(0), found: Cell::new(false) })
}

struct AddOne;

impl Observer for AddOne {
    type Item = u32;

    fn handle(&self, item: u32) -> Option<u32> {
        Some(item + 1)
    }
}

struct Double;

impl Observer for Double {
    type Item = u32;

    fn handle(&self, item: u32) -> Option<u32> {
        Some(2 * item)
    }
}

#[test]
fn offer_to_a_slot_whose_listener_is_gone_hands_the_item_on() {
    assert_eq!(offer(None::<Rc<Waiter>>, 3), Some(3));
    assert_eq!(offer(None::<Rc<Waiter>>, 0), Some(0));
    assert_eq!(offer(None::<Rc<dyn Observer<Item = u32>>>, 7), Some(7));
}

#[test]
fn offer_to_a_live_listener_returns_its_answer() {
    let w_7 = waiter(7);
    assert_eq!(offer(Some(w_7.clone()), 3), Some(3));
    assert_eq!(w_7.asked.get(), 1);
    assert!(!w_7.found.get());

    assert_eq!(offer(Some(w_7.clone()), 7), None);
    assert_eq!(w_7.asked.get(), 2);
    assert!(w_7.found.get());

    assert_eq!(offer(Some(Rc::new(AddOne)), 41), Some(42));
    assert_eq!(offer(Some(Rc::new(Double)), 21), Some(42));
}

#[test]
fn offer_lets_go_of_the_strong_pointer() {
    let w_7 = waiter(7);
    let handle = WeakRef::downgrade(&w_7);
    assert_eq!(offer(handle.upgrade(), 1), Some(1));
    assert_eq!(Rc::strong_count(&w_7), 1);
    drop(w_7);
    assert_eq!(offer(handle.upgrade(), 7), Some(7));
}

#[test]
fn offer_resolved_handles_one_by_one() {
    let w_1 = waiter(1);
    let w_7 = waiter(7);
    let w_99 = waiter(99);
    let slots =
        vec![WeakRef::downgrade(&w_1), WeakRef::downgrade(&w_7), WeakRef::downgrade(&w_99)];

    // 7 passes the first waiter and is consumed by the second
    let after_first = offer(slots[0].upgrade(), 7);
    assert_eq!(after_first, Some(7));
    let after_second = offer(slots[1].upgrade(), 7);
    assert_eq!(after_second, None);
    assert!(!w_1.found.get());
    assert!(w_7.found.get());
    assert_eq!(w_99.asked.get(), 0);

    // 1 is consumed at once, 99 only by the last waiter
    assert_eq!(offer(slots[0].upgrade(), 1), None);
    assert!(w_1.found.get());
    assert_eq!(offer(slots[0].upgrade(), 99), Some(99));
    assert_eq!(offer(slots[1].upgrade(), 99), Some(99));
    assert_eq!(offer(slots[2].upgrade(), 99), None);
    assert!(w_99.found.get());
}

#[test]
fn offer_over_a_dead_slot_then_a_doubler_then_an_incrementer() {
    let a: Rc<dyn Observer<Item = u32>> = Rc::new(AddOne);
    let b: Rc<dyn Observer<Item = u32>> = Rc::new(Double);
    let c: Rc<dyn Observer<Item = u32>> = Rc::new(AddOne);
    let slots = vec![WeakRef::downgrade(&a), WeakRef::downgrade(&b), WeakRef::downgrade(&c)];
    drop(a);

    let mut current = 3;
    let mut seen = Vec::new();
    for slot in slots.iter() {
        current = offer(slot.upgrade(), current).expect("nobody consumes");
        seen.push(current);
    }
    assert_eq!(seen, vec![3, 6, 7]);
}
