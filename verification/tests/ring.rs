use evenpog::delay_line::{DelayLine, MAX_LENGTH, MIN_LENGTH};

#[test]
fn new_line_is_silent_and_fully_active() {
    let line = DelayLine::new(MAX_LENGTH);
    assert_eq!(line.capacity(), 16384);
    assert_eq!(line.active_length(), 16384);
    assert_eq!(line.write_count(), 0);
    for index in [0usize, 1, 15, 16, 511, 16383] {
        assert_eq!(line.read(index), 0);
    }
}

#[test]
fn write_lands_at_count_modulo_length() {
    let mut line = DelayLine::new(64);
    line.set_active_length(16);
    for step in 0..16u32 {
        line.write(100 + step);
    }
    for index in 0..16usize {
        assert_eq!(line.read(index), 100 + index as u32);
    }
    line.write(900);
    assert_eq!(line.read(0), 900);
    assert_eq!(line.read(1), 101);
    assert_eq!(line.write_count(), 17);
}

#[test]
fn cell_holds_sample_of_its_age() {
    for length in [MIN_LENGTH, 17, 100, 512, 16384] {
        for extra in [0usize, 1, 5, length - 1, length, 2 * length + 3] {
            let count = length + extra;
            let mut line = DelayLine::new(MAX_LENGTH);
            line.set_active_length(length);
            let samples: Vec<u32> = (0..count as u32).map(|step| step * 7 + 3).collect();
            for sample in &samples {
                line.write(*sample);
            }
            for cell in 0..length {
                let age = (count - 1 - cell) % length;
                assert_eq!(line.read(cell), samples[count - 1 - age]);
            }
        }
    }
}

#[test]
fn cell_in_a_full_turn_holds_its_own_step() {
    // After exactly one turn of distinct samples, cell 0 holds the first of
    // them and the last cell holds the latest.
    let mut line = DelayLine::new(16);
    for step in 0..16u32 {
        line.write(step);
    }
    assert_eq!(line.read(0), 0);
    assert_eq!(line.read(15), 15);
}

#[test]
fn short_run_leaves_unreached_cells() {
    let mut line = DelayLine::new(32);
    line.set_active_length(16);
    for step in 0..5u32 {
        line.write(step + 1);
    }
    assert_eq!(line.read(4), 5);
    assert_eq!(line.read(5), 0);
    assert_eq!(line.read(15), 0);
}

#[test]
fn length_change_takes_effect_on_next_write() {
    let mut line = DelayLine::new(64);
    line.set_active_length(16);
    for step in 0..20u32 {
        line.write(step);
    }
    // 20 mod 32 is 20, not 20 mod 16.
    line.set_active_length(32);
    assert_eq!(line.active_length(), 32);
    assert_eq!(line.write_count(), 20);
    line.write(777);
    assert_eq!(line.read(20), 777);
    assert_eq!(line.read(4), 4);
    assert_eq!(line.read(3), 19);
    // Shrinking again: 21 mod 16 is 5.
    line.set_active_length(16);
    line.write(888);
    assert_eq!(line.read(5), 888);
}

#[test]
fn cells_beyond_the_active_length_are_kept() {
    let mut line = DelayLine::new(64);
    for step in 0..64u32 {
        line.write(step + 1);
    }
    line.set_active_length(16);
    for step in 0..100u32 {
        line.write(1000 + step);
    }
    line.set_active_length(64);
    for cell in 16..64usize {
        assert_eq!(line.read(cell), cell as u32 + 1);
    }
}
