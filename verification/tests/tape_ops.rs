use esolang::tape::{Tape, MEMORY_SIZE};

#[test]
fn tape_has_thirty_thousand_zero_cells() {
    let tape = Tape::new();
    assert_eq!(MEMORY_SIZE, 30_000);
    assert_eq!(tape.cells().len(), 30_000);
    assert!(tape.cells().iter().all(|cell| *cell == 0));
    assert_eq!(tape.position(), 0);
    assert_eq!(tape.read(), 0);
}

#[test]
fn tape_cells_wrap_around() {
    let mut tape = Tape::new();
    tape.decrement();
    assert_eq!(tape.read(), 255);
    tape.increment();
    assert_eq!(tape.read(), 0);
    tape.write(254);
    tape.increment();
    assert_eq!(tape.read(), 255);
    tape.increment();
    assert_eq!(tape.read(), 0);
}

#[test]
fn tape_write_touches_only_the_current_cell() {
    let mut tape = Tape::new();
    assert!(tape.move_right());
    assert!(tape.move_right());
    tape.write(7);
    assert_eq!(tape.position(), 2);
    assert_eq!(tape.cells()[2], 7);
    assert_eq!(tape.cells().iter().filter(|cell| **cell != 0).count(), 1);
    assert!(tape.move_left());
    assert_eq!(tape.read(), 0);
    assert!(tape.move_right());
    assert_eq!(tape.read(), 7);
}

#[test]
fn tape_refuses_to_move_off_the_left_end() {
    let mut tape = Tape::new();
    tape.write(9);
    assert!(!tape.move_left());
    assert_eq!(tape.position(), 0);
    assert_eq!(tape.read(), 9);
}

#[test]
fn tape_refuses_to_move_off_the_right_end() {
    let mut tape = Tape::new();
    for _ in 0..MEMORY_SIZE - 1 {
        assert!(tape.move_right());
    }
    assert_eq!(tape.position(), MEMORY_SIZE - 1);
    tape.write(3);
    assert!(!tape.move_right());
    assert_eq!(tape.position(), MEMORY_SIZE - 1);
    assert_eq!(tape.read(), 3);
}

#[test]
fn tape_dump_appends_all_cells_in_order() {
    let mut tape = Tape::new();
    tape.write(1);
    assert!(tape.move_right());
    tape.write(2);
    let mut output = vec![9u8, 8];
    tape.dump(&mut output);
    assert_eq!(output.len(), 2 + MEMORY_SIZE);
    assert_eq!(&output[..5], &[9, 8, 1, 2, 0]);
    assert!(output[5..].iter().all(|byte| *byte == 0));
}
