use bf_repl::state::BFState;

#[test]
fn test_init() {
    let state = BFState::new();
    assert_eq!(state.index(), 15_000);
    assert!(state.is_zero());
}

#[test]
fn test_incr_decr() {
    let mut state = BFState::new();
    for _i in 0..50 {
        state.incr();
    }
    assert_eq!(state.out() as char, '2'); // converts to correct ascii
    for _i in 0..16 {
        state.incr();
    }
    assert_eq!(state.out() as char, 'B'); // shift up is correct
    for _j in 0..5 {
        state.decr();
    }
    assert_eq!(state.out() as char, '='); // shift down is correct
    for _i in 0..256 {
        state.incr();
    }
    assert_eq!(state.out() as char, '='); // wraps around for addition
    for _j in 0..256 {
        state.decr();
    }
    assert_eq!(state.out() as char, '='); // wraps around for subtraction
}

#[test]
fn test_up_down() {
    let mut state = BFState::new();
    for _i in 0..50 {
        state.incr();
    }
    state.up();
    assert!(state.is_zero());
    for _i in 0..66 {
        state.incr();
    }
    state.down();
    assert_eq!(state.out() as char, '2');
    state.up();
    assert_eq!(state.out() as char, 'B');
    state.up();
    assert!(state.is_zero());
}

#[test]
fn test_inp() {
    let mut state = BFState::new();

    state.inp(',' as u8);
    for _i in 0..44 {
        state.decr();
    }
    assert!(state.is_zero());
}

#[test]
fn test_extend() {
    let mut state = BFState::new();

    assert_eq!(state.len(), 30_000);
    for _ in 0..15_001 {
        state.up();
    }
    assert_eq!(state.len(), 35_000);
}

#[test]
fn incr_wraps_from_255_to_0() {
    let mut state = BFState::new();
    for _ in 0..255 {
        state.incr();
    }
    assert_eq!(state.out(), 255);
    state.incr();
    assert_eq!(state.out(), 0);
}

#[test]
fn decr_wraps_from_0_to_255() {
    let mut state = BFState::new();
    state.decr();
    assert_eq!(state.out(), 255);
}

#[test]
fn increment_256_times_restores_every_value() {
    let mut state = BFState::new();
    for v in 0..=255u16 {
        state.inp(v as u8);
        for _ in 0..256 {
            state.incr();
        }
        assert_eq!(state.out(), v as u8);
        for _ in 0..256 {
            state.decr();
        }
        assert_eq!(state.out(), v as u8);
    }
}

#[test]
fn right_edge_grows_by_5000_zero_cells() {
    let mut state = BFState::new();
    while state.index() + 1 < state.len() {
        state.up();
    }
    assert_eq!(state.index(), 29_999);
    state.inp(7);
    state.up();
    assert_eq!(state.len(), 35_000);
    assert_eq!(state.index(), 30_000);
    assert_eq!(state.cell(29_999), 7);
    for i in 30_000..35_000 {
        assert_eq!(state.cell(i), 0);
    }
}

#[test]
fn move_inside_tape_does_not_grow() {
    let mut state = BFState::new();
    state.up();
    state.down();
    state.down();
    assert_eq!(state.len(), 30_000);
    assert_eq!(state.index(), 14_999);
}
