use reentrancy::AccessConflict;
use reentrancy::GuardedCell;

#[test]
fn exclusive_excludes_everything() {
    let mut cell = GuardedCell::new(10u64);
    assert_eq!(cell.acquire_exclusive(), Ok(()));
    assert_eq!(cell.acquire_exclusive(), Err(AccessConflict));
    assert_eq!(cell.acquire_shared(), Err(AccessConflict));
    assert_eq!(*cell.read(), 10);
    cell.write(11);
    assert_eq!(*cell.read(), 11);
    cell.release_exclusive();
    assert_eq!(cell.acquire_exclusive(), Ok(()));
}

#[test]
fn shared_admits_more_shared_but_no_exclusive() {
    let mut cell = GuardedCell::new(5i32);
    assert_eq!(cell.acquire_shared(), Ok(()));
    assert_eq!(cell.acquire_shared(), Ok(()));
    assert_eq!(cell.acquire_exclusive(), Err(AccessConflict));
    assert_eq!(*cell.read(), 5);
    cell.release_shared();
    // one reader is still outstanding
    assert_eq!(cell.acquire_exclusive(), Err(AccessConflict));
    cell.release_shared();
    // all readers released: the cell is free again
    assert_eq!(cell.acquire_exclusive(), Ok(()));
}

#[test]
fn failed_acquisition_leaves_state_unchanged() {
    let mut cell = GuardedCell::new(0u8);
    assert_eq!(cell.acquire_shared(), Ok(()));
    assert_eq!(cell.acquire_exclusive(), Err(AccessConflict));
    // still exactly one shared reader: one release frees the cell
    cell.release_shared();
    assert_eq!(cell.acquire_exclusive(), Ok(()));
}
