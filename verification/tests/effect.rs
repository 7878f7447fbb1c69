use evenpog::processor::{Outcome, Taps};
use evenpog::{EvenPog, EvenPogParams};
use evenpog::shaper::ShaperCurve;

const SAMPLE_RATE: f32 = 44100.0;

/// The arithmetic that a host wraps around the processor: mix of the taps,
/// soft clip, DC blocker, shaper curve, output gain and dry signal.
struct Voice {
    core: EvenPog,
    filter_state: f32,
}

impl Voice {
    fn new() -> Voice {
        Voice { core: EvenPog::new(), filter_state: 0.0 }
    }

    fn shape(curve: &ShaperCurve, x: f32) -> f32 {
        let s = curve.segment(x.to_bits());
        let (low, high) = (f32::from_bits(s.low_edge), f32::from_bits(s.high_edge));
        let w = ((high - x) / (high - low)).clamp(0.0, 1.0);
        w * f32::from_bits(s.low_value) + (1.0 - w) * f32::from_bits(s.high_value)
    }

    fn process(&mut self, params: &EvenPogParams, block: &mut [f32]) {
        let input: Vec<u32> = block.iter().map(|x| x.to_bits()).collect();
        let curve = params.curve();
        let outcomes = self.core.process_block(params, &input);
        for (sample, outcome) in block.iter_mut().zip(outcomes) {
            *sample = match outcome {
                Outcome::Dry(bits) => f32::from_bits(bits),
                Outcome::Wet(taps) => {
                    let s = f32::from_bits(taps.slur) * f32::from_bits(params.mix_slur)
                        + f32::from_bits(taps.hfj) * f32::from_bits(params.mix_hfj);
                    let emphasised = s - s * s / 8.0 - s * s * s / 16.0 + 0.125;
                    let filtered = emphasised - self.filter_state;
                    self.filter_state +=
                        20.0 / (2.0 * std::f32::consts::PI * SAMPLE_RATE) * filtered;
                    f32::from_bits(params.mix_dry) * f32::from_bits(taps.input)
                        + f32::from_bits(params.gain) * Voice::shape(&curve, filtered)
                }
            };
        }
    }
}

fn impulse(length: usize) -> Vec<f32> {
    let mut block = vec![0.0f32; length];
    block[0] = 1.0;
    block
}

#[test]
fn starts_silent_and_at_rest() {
    let effect = EvenPog::new();
    assert_eq!(effect.write_count(), 0);
    assert_eq!(effect.active_length(), 16384);
    assert_eq!(effect.slur_position(), 0);
    assert_eq!(effect.hfj_position(), 0);
    assert_eq!(effect.hfj_rate(), 0);
    let other = EvenPog::default();
    assert_eq!(other.write_count(), 0);
    assert_eq!(other.active_length(), 16384);
    assert_eq!(other.hfj_rate(), 0);
}

#[test]
fn first_steps_with_default_parameters() {
    let mut effect = EvenPog::new();
    let params = EvenPogParams::new();
    // Both heads stand on cell 0, which has just been written.
    assert_eq!(effect.step(&params, 71), Outcome::Wet(Taps { input: 71, slur: 71, hfj: 71 }));
    assert_eq!(effect.active_length(), 512);
    assert_eq!(effect.write_count(), 1);
    assert_eq!((effect.slur_position(), effect.hfj_position(), effect.hfj_rate()), (1, 0, 10));
    // The slur head reads cell 1, just written; the honk head still cell 0.
    assert_eq!(effect.step(&params, 72), Outcome::Wet(Taps { input: 72, slur: 72, hfj: 71 }));
    assert_eq!((effect.slur_position(), effect.hfj_position(), effect.hfj_rate()), (1, 502, 20));
    // Cell 1 keeps the second sample; cell 502 has not been written yet.
    assert_eq!(effect.step(&params, 73), Outcome::Wet(Taps { input: 73, slur: 72, hfj: 0 }));
    assert_eq!((effect.slur_position(), effect.hfj_position(), effect.hfj_rate()), (1, 482, 30));
}

#[test]
fn bypass_returns_the_input_and_freezes_the_state() {
    let mut effect = EvenPog::new();
    let active = EvenPogParams::new();
    let bypassed = EvenPogParams { bypass: true, ..active };
    for step in 0..100u32 {
        effect.step(&active, step);
    }
    let before = (
        effect.write_count(),
        effect.active_length(),
        effect.slur_position(),
        effect.hfj_position(),
        effect.hfj_rate(),
    );
    let block: Vec<u32> = (0..64u32).map(|i| i.wrapping_mul(0x9E37_79B9)).collect();
    let outcomes = effect.process_block(&bypassed, &block);
    assert_eq!(outcomes.len(), 64);
    for (outcome, input) in outcomes.iter().zip(&block) {
        assert_eq!(*outcome, Outcome::Dry(*input));
    }
    for input in &block {
        assert_eq!(effect.step(&bypassed, *input), Outcome::Dry(*input));
    }
    let after = (
        effect.write_count(),
        effect.active_length(),
        effect.slur_position(),
        effect.hfj_position(),
        effect.hfj_rate(),
    );
    assert_eq!(before, after);
    // The delay line itself is untouched: the next active taps are what they
    // would have been without the bypassed samples.
    let mut twin = EvenPog::new();
    for step in 0..100u32 {
        twin.step(&active, step);
    }
    for step in 100..700u32 {
        assert_eq!(effect.step(&active, step), twin.step(&active, step));
    }
}

#[test]
fn bypass_ignores_the_other_parameters() {
    let mut effect = EvenPog::new();
    let params = EvenPogParams { bypass: true, buffer_length: -3, ..EvenPogParams::new() };
    assert_eq!(effect.step(&params, 5), Outcome::Dry(5));
    assert_eq!(effect.process_block(&params, &[1, 2, 3]).len(), 3);
    assert_eq!(effect.write_count(), 0);
}

#[test]
fn block_equals_sample_by_sample() {
    let params = EvenPogParams { slur_multiplier: 2.5f32.to_bits(), ..EvenPogParams::new() };
    let input: Vec<u32> = (0..3000u32).map(|i| i ^ 0x5555).collect();
    let mut whole = EvenPog::new();
    let at_once = whole.process_block(&params, &input);
    let mut single = EvenPog::new();
    let one_by_one: Vec<Outcome> = input.iter().map(|x| single.step(&params, *x)).collect();
    assert_eq!(at_once, one_by_one);
    let mut chunked = EvenPog::new();
    let mut in_chunks = Vec::new();
    for chunk in input.chunks(64) {
        in_chunks.extend(chunked.process_block(&params, chunk));
    }
    assert_eq!(at_once, in_chunks);
    assert_eq!(whole.write_count(), 3000);
    assert_eq!(whole.slur_position(), chunked.slur_position());
    assert_eq!(whole.hfj_position(), single.hfj_position());
}

#[test]
fn empty_block() {
    let mut effect = EvenPog::new();
    assert!(effect.process_block(&EvenPogParams::new(), &[]).is_empty());
    assert_eq!(effect.write_count(), 0);
    assert_eq!(effect.active_length(), 16384);
}

#[test]
fn taps_read_the_ring_at_the_heads() {
    // With a multiplier of 1 the slur head rests on cell 1, and without
    // acceleration the honk head rests on cell 0.
    let params = EvenPogParams {
        buffer_length: 16,
        buffer_acceleration: 0,
        slur_multiplier: 1.0f32.to_bits(),
        ..EvenPogParams::new()
    };
    let mut effect = EvenPog::new();
    for step in 0..200u32 {
        let outcome = effect.step(&params, 1000 + step);
        let slur_cell = if step == 0 { 0 } else { 1 };
        // Latest step at or before this one that went to the head's cell.
        let latest = |cell: u32| {
            if step < cell {
                None
            } else {
                Some(step - (step - cell) % 16)
            }
        };
        let expect = |cell: u32| latest(cell).map_or(0, |s| 1000 + s);
        assert_eq!(
            outcome,
            Outcome::Wet(Taps { input: 1000 + step, slur: expect(slur_cell), hfj: expect(0) })
        );
    }
}

#[test]
fn length_change_moves_the_heads_into_the_new_ring() {
    let long = EvenPogParams {
        buffer_length: 16384,
        slur_multiplier: 2.0f32.to_bits(),
        ..EvenPogParams::new()
    };
    let short = EvenPogParams { buffer_length: 16, ..long };
    let mut effect = EvenPog::new();
    for step in 0..12u32 {
        effect.step(&long, step + 1);
    }
    assert_eq!(effect.slur_position(), 2048);
    // Write count 12 goes to cell 12 of the ring of 16; the slur head reads
    // cell 2048 mod 16 = 0, which holds the first sample.
    let outcome = effect.step(&short, 99);
    assert_eq!(effect.active_length(), 16);
    match outcome {
        Outcome::Wet(taps) => assert_eq!(taps.slur, 1),
        Outcome::Dry(_) => panic!("active step gave a dry outcome"),
    }
    assert!(effect.slur_position() < 16);
    assert!(effect.hfj_position() < 16);
}

#[test]
fn unit_impulse_is_deterministic_and_bounded() {
    let params = EvenPogParams::new();
    assert_eq!(params.buffer_length, 512);
    let mut first = Voice::new();
    let mut second = Voice::new();
    let mut a = impulse(4096);
    let mut b = impulse(4096);
    for chunk in a.chunks_mut(64) {
        first.process(&params, chunk);
    }
    for chunk in b.chunks_mut(64) {
        second.process(&params, chunk);
    }
    for (x, y) in a.iter().zip(&b) {
        assert_eq!(x.to_bits(), y.to_bits());
        assert!(x.is_finite());
        assert!((-24.0..=24.0).contains(x));
    }
    // The impulse itself: both taps read it back, so the mixture is 1.0, the
    // soft clip gives 1 - 1/8 - 1/16 + 1/8 = 0.9375, the curve leaves 0.9375
    // as it is, and half the input is added.
    assert!((a[0] - 1.4375).abs() < 1e-6, "{}", a[0]);
    // The second sample: the slur head reads the silent cell 1 and the honk
    // head the impulse in cell 0, so the mixture is 0.5.
    let clipped = 0.5f32 - 0.25 / 8.0 - 0.125 / 16.0 + 0.125;
    let state = 20.0 / (2.0 * std::f32::consts::PI * SAMPLE_RATE) * 0.9375;
    assert!((a[1] - (clipped - state)).abs() < 1e-6, "{}", a[1]);
}

#[test]
fn unit_impulse_is_bounded_at_full_gain() {
    let params = EvenPogParams {
        gain: 24.0f32.to_bits(),
        mix_dry: 0.0f32.to_bits(),
        slur_multiplier: 3.7f32.to_bits(),
        ..EvenPogParams::new()
    };
    let mut voice = Voice::new();
    let mut block = impulse(8192);
    for chunk in block.chunks_mut(64) {
        voice.process(&params, chunk);
    }
    for y in &block {
        assert!((-24.0..=24.0).contains(y), "{}", y);
    }
}

#[test]
fn bypassed_voice_returns_its_input() {
    let params = EvenPogParams { bypass: true, ..EvenPogParams::new() };
    let mut voice = Voice::new();
    let input: Vec<f32> = (0..64).map(|i| (i as f32 * 0.37).sin()).collect();
    let mut block = input.clone();
    voice.process(&params, &mut block);
    for (x, y) in input.iter().zip(&block) {
        assert_eq!(x.to_bits(), y.to_bits());
    }
    assert_eq!(voice.filter_state, 0.0);
    assert_eq!(voice.core.write_count(), 0);
}
