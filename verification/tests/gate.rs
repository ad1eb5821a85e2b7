use pagewalk::gate::ConcurrencyGate;

#[test]
fn gate_admits_up_to_its_cap() {
    let mut gate = ConcurrencyGate::new(2);
    assert_eq!(gate.capacity(), 2);
    assert_eq!(gate.holders(), 0);
    assert!(gate.try_acquire());
    assert!(gate.try_acquire());
    assert_eq!(gate.holders(), 2);
    assert!(!gate.try_acquire());
    assert_eq!(gate.holders(), 2);
}

#[test]
fn release_frees_one_slot() {
    let mut gate = ConcurrencyGate::new(1);
    assert!(gate.try_acquire());
    assert!(!gate.try_acquire());
    assert!(gate.release());
    assert_eq!(gate.holders(), 0);
    assert!(gate.try_acquire());
    assert_eq!(gate.holders(), 1);
}

#[test]
fn release_of_an_empty_gate_changes_nothing() {
    let mut gate = ConcurrencyGate::new(3);
    assert!(!gate.release());
    assert_eq!(gate.holders(), 0);
    assert_eq!(gate.capacity(), 3);
}

#[test]
fn a_gate_without_room_admits_nobody() {
    let mut gate = ConcurrencyGate::new(0);
    assert!(!gate.try_acquire());
    assert_eq!(gate.holders(), 0);
}

#[test]
fn holders_never_exceed_the_cap() {
    let mut gate = ConcurrencyGate::new(50);
    let mut admitted = 0;
    for round in 0..200u32 {
        if gate.try_acquire() {
            admitted += 1;
        }
        if round % 3 == 0 {
            gate.release();
        }
        assert!(gate.holders() <= 50);
    }
    assert!(admitted >= 50);
}

#[test]
fn release_all_empties_the_gate() {
    let mut gate = ConcurrencyGate::new(3);
    assert!(gate.try_acquire());
    assert!(gate.try_acquire());
    gate.release_all();
    assert_eq!(gate.holders(), 0);
    assert_eq!(gate.capacity(), 3);
    assert!(gate.try_acquire());
    assert_eq!(gate.holders(), 1);
    gate.release_all();
    gate.release_all();
    assert_eq!(gate.holders(), 0);
}
