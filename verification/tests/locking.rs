use std::sync::Mutex;

use memhold::lock::{lock_state, recover};
use memhold::mem::{current_state, set_memory, MemState};

fn shared() -> &'static Mutex<MemState> {
    Box::leak(Box::new(Mutex::new(MemState::new())))
}

fn poison(hold: &'static Mutex<MemState>) {
    let runtime = tokio::runtime::Runtime::new().unwrap();
    let task = runtime.spawn(async move {
        let mut state = hold.lock().unwrap();
        set_memory(&mut state, 1234);
        panic!("poisons the lock");
    });
    assert!(runtime.block_on(task).is_err());
    assert!(hold.is_poisoned());
}

#[test]
fn lock_gives_the_state() {
    let hold = shared();
    set_memory(&mut lock_state(hold), 4321);
    assert_eq!(current_state(&lock_state(hold)), (4321, 4321));
    assert!(hold.try_lock().is_ok());
}

#[test]
fn lock_is_kept_by_its_guard() {
    let hold = shared();
    let guard = lock_state(hold);
    assert!(hold.try_lock().is_err());
    drop(guard);
    assert!(hold.try_lock().is_ok());
}

#[test]
fn poisoned_state_is_used_as_it_stands() {
    let hold = shared();
    poison(hold);
    assert_eq!(current_state(&lock_state(hold)), (1234, 1234));
    set_memory(&mut lock_state(hold), 0);
    assert_eq!(current_state(&lock_state(hold)), (0, 0));
}

#[test]
fn recover_takes_either_result() {
    let hold = shared();
    assert_eq!(current_state(&recover(hold.lock())).1, 0);
    poison(hold);
    assert_eq!(current_state(&recover(hold.lock())).1, 1234);
}
