use reentrancy::AccessConflict;
use reentrancy::Callback;
use reentrancy::Callbacks;
use reentrancy::CallbacksMut;
use reentrancy::Event;
use reentrancy::MutCallback;

#[test]
fn it_works() {}

#[test]
fn empty_registry_dispatches_nothing() {
    let mut c = Callbacks::new();
    assert_eq!(c.len(), 0);
    assert_eq!(c.call(7), Ok(()));
    assert!(c.trace().is_empty());

    let mut m = CallbacksMut::new();
    assert_eq!(m.len(), 0);
    assert_eq!(m.call(7), Ok(()));
    assert!(m.trace().is_empty());
}

#[test]
fn shared_order_preserved_without_reentry() {
    let mut c = Callbacks::new();
    c.register(Callback::counter());
    c.register(Callback::fib());
    c.register(Callback::counter());
    assert_eq!(c.call(7), Ok(()));
    let t = c.trace();
    assert_eq!(t.len(), 3);
    assert_eq!(t[0], Event::Counted { index: 0, value: 7, count: 1 });
    assert_eq!(t[1], Event::Fib { index: 1, value: 7, fib: 0, count: 1 });
    assert_eq!(t[2], Event::Counted { index: 2, value: 7, count: 1 });
}

#[test]
fn exclusive_order_preserved_without_reentry() {
    let mut m = CallbacksMut::new();
    m.register(MutCallback::counter());
    m.register(MutCallback::counter());
    assert_eq!(m.call(1), Ok(()));
    let t = m.trace();
    assert_eq!(t.len(), 2);
    assert_eq!(t[0], Event::Counted { index: 0, value: 1, count: 1 });
    assert_eq!(t[1], Event::Counted { index: 1, value: 1, count: 1 });
}

#[test]
fn shared_shared_reentry_succeeds() {
    // callback 0 counts, callback 1 re-enters under shared access with the
    // value stepped toward zero: six levels for a start value of five
    let mut c = Callbacks::new();
    c.register(Callback::counter());
    c.register(Callback::step());
    assert_eq!(c.call(5), Ok(()));
    let t = c.trace();
    assert_eq!(t.len(), 12);
    for level in 0..6 {
        let value = 5 - level as i32;
        let count = (level + 1) as u64;
        assert_eq!(t[2 * level], Event::Counted { index: 0, value, count });
        assert_eq!(t[2 * level + 1], Event::Stepped { index: 1, value });
    }
}

#[test]
fn exclusive_exclusive_reentry_fails() {
    let mut m = CallbacksMut::new();
    m.register(MutCallback::counter());
    m.register(MutCallback::reenter());
    assert_eq!(m.call(1), Err(AccessConflict));
    let t = m.trace();
    assert_eq!(t.len(), 2);
    assert_eq!(t[0], Event::Counted { index: 0, value: 1, count: 1 });
    assert_eq!(t[1], Event::Reentered { index: 1, value: 1 });

    // the conflict did not corrupt the counter: the next dispatch picks up
    // exactly where the first left off
    assert_eq!(m.call(1), Err(AccessConflict));
    let t = m.trace();
    assert_eq!(t.len(), 4);
    assert_eq!(t[2], Event::Counted { index: 0, value: 1, count: 2 });
    assert_eq!(t[3], Event::Reentered { index: 1, value: 1 });
}

#[test]
fn shared_then_exclusive_reentry_fails() {
    // the registry's iteration holds a shared guard; a callback demanding an
    // exclusive acquisition mid-iteration conflicts
    let mut c = Callbacks::new();
    c.register(Callback::counter());
    c.register(Callback::reenter());
    assert_eq!(c.call(1), Err(AccessConflict));
    let t = c.trace();
    assert_eq!(t.len(), 2);
    assert_eq!(t[0], Event::Counted { index: 0, value: 1, count: 1 });
    assert_eq!(t[1], Event::Reentered { index: 1, value: 1 });
}

#[test]
fn conflict_propagates_through_nested_dispatches() {
    // the exclusive demand is only reached in the innermost nested dispatch,
    // and the conflict propagates out through every enclosing invocation:
    // nothing after it runs at any level
    let mut c = Callbacks::new();
    c.register(Callback::step());
    c.register(Callback::reenter());
    assert_eq!(c.call(2), Err(AccessConflict));
    let t = c.trace();
    assert_eq!(t.len(), 4);
    assert_eq!(t[0], Event::Stepped { index: 0, value: 2 });
    assert_eq!(t[1], Event::Stepped { index: 0, value: 1 });
    assert_eq!(t[2], Event::Stepped { index: 0, value: 0 });
    assert_eq!(t[3], Event::Reentered { index: 1, value: 0 });
}

#[test]
fn registration_is_append_only() {
    let mut c = Callbacks::new();
    c.register(Callback::counter());
    c.register(Callback::counter());
    assert_eq!(c.len(), 2);
    c.register(Callback::counter());
    c.register(Callback::fib());
    c.register(Callback::counter());
    assert_eq!(c.len(), 5);
    assert!(c.trace().is_empty());
    assert_eq!(c.call(3), Ok(()));
    let t = c.trace();
    assert_eq!(t.len(), 5);
    for (j, e) in t.iter().enumerate() {
        let index = match e {
            Event::Counted { index, .. } => *index,
            Event::Fib { index, .. } => *index,
            _ => panic!("unexpected event"),
        };
        assert_eq!(index, j);
    }
}

#[test]
fn fibonacci_forward() {
    let mut c = Callbacks::new();
    c.register(Callback::fib());
    c.register(Callback::step());
    assert_eq!(c.call(5), Ok(()));
    let fibs: Vec<i64> = c
        .trace()
        .iter()
        .filter_map(|e| match e {
            Event::Fib { fib, .. } => Some(*fib),
            _ => None,
        })
        .collect();
    assert_eq!(fibs, vec![0, 1, 1, 2, 3, 5]);
}

#[test]
fn fibonacci_backward() {
    let mut c = Callbacks::new();
    c.register(Callback::fib());
    c.register(Callback::step());
    assert_eq!(c.call(-5), Ok(()));
    let fibs: Vec<i64> = c
        .trace()
        .iter()
        .filter_map(|e| match e {
            Event::Fib { fib, .. } => Some(*fib),
            _ => None,
        })
        .collect();
    assert_eq!(fibs, vec![0, 1, -1, 2, -3, 5]);
}
