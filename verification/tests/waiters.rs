use multiplexer::Multiplexer;
use multiplexer::Observer;
use std::cell::Cell;
use std::rc::Rc;

struct Num(pub u32);

struct NumWaiter {
    pub n: u32,
    pub found: Cell<bool>,
}

impl NumWaiter {
    fn new(n: u32) -> NumWaiter {
        NumWaiter { n: n, found: Cell::new(false) }
    }
}

impl Observer for NumWaiter {
    type Item = Num;

    fn handle(&self, item: Num) -> Option<Num> {
        if self.n != item.0 {
            Some(item)
        } else {
            self.found.set(true);

            // consume if number matches
            None
        }
    }
}

#[test]
fn basic_observer() {
    let mut mp = Multiplexer::new();

    let w_1 = Rc::new(NumWaiter::new(1));
    let w_7 = Rc::new(NumWaiter::new(7));
    let w_99 = Rc::new(NumWaiter::new(99));

    mp.register(w_1.clone());
    mp.register(w_7.clone());
    mp.register(w_99.clone());

    assert!(!w_1.found.get());
    assert!(!w_7.found.get());
    assert!(!w_99.found.get());

    mp.distribute(Num(3));
    mp.distribute(Num(4));

    assert!(!w_1.found.get());
    assert!(!w_7.found.get());
    assert!(!w_99.found.get());

    mp.distribute(Num(7));

    assert!(!w_1.found.get());
    assert!(w_7.found.get());
    assert!(!w_99.found.get());

    mp.distribute(Num(1));
    mp.distribute(Num(99));

    assert!(w_1.found.get());
    assert!(w_7.found.get());
    assert!(w_99.found.get());
}

#[test]
fn waiters_report_what_became_of_each_item() {
    let mut mp = Multiplexer::new();
    let w_1 = Rc::new(NumWaiter::new(1));
    let w_7 = Rc::new(NumWaiter::new(7));
    let w_99 = Rc::new(NumWaiter::new(99));
    mp.register(w_1.clone());
    mp.register(w_7.clone());
    mp.register(w_99.clone());

    assert_eq!(mp.distribute(Num(3)).map(|num| num.0), Some(3));
    assert_eq!(mp.distribute(Num(4)).map(|num| num.0), Some(4));
    assert!(mp.distribute(Num(7)).is_none());
    assert!(mp.distribute(Num(1)).is_none());
    assert!(mp.distribute(Num(99)).is_none());
}

#[test]
fn no_listeners_returns_item_unchanged() {
    let mp: Multiplexer<Num> = Multiplexer::new();
    assert_eq!(mp.listeners().get().len(), 0);
    assert_eq!(mp.distribute(Num(42)).map(|num| num.0), Some(42));
    assert_eq!(mp.distribute(Num(0)).map(|num| num.0), Some(0));
}

#[test]
fn dead_slot_goes_when_the_next_listener_registers() {
    let mut mp: Multiplexer<Num> = Multiplexer::new();
    let first = Rc::new(NumWaiter::new(1));
    let doomed = Rc::new(NumWaiter::new(1));
    let third = Rc::new(NumWaiter::new(3));
    mp.register(first.clone());
    mp.register(doomed.clone());
    mp.register(third.clone());
    assert_eq!(mp.listeners().get().len(), 3);

    drop(doomed);
    // reading does not collect
    assert_eq!(mp.distribute(Num(5)).map(|num| num.0), Some(5));
    assert_eq!(mp.listeners().get().len(), 3);
    assert!(mp.listeners().get()[1].upgrade().is_none());

    let newcomer = Rc::new(NumWaiter::new(1));
    mp.register(newcomer.clone());
    let slots = mp.listeners().get();
    assert_eq!(slots.len(), 3);
    assert!(slots.iter().all(|slot| slot.upgrade().is_some()));

    // the newcomer stands behind the survivors: `first` gets the 1
    assert!(mp.distribute(Num(1)).is_none());
    assert!(first.found.get());
    assert!(!newcomer.found.get());

    // and with `first` gone the newcomer is reached
    drop(first);
    assert!(mp.distribute(Num(1)).is_none());
    assert!(newcomer.found.get());
    assert!(!third.found.get());
}
