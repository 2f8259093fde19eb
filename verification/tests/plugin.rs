use median_filter::{MedianFilter, ParameterType, RawParameters};

fn bits(samples: &[f32]) -> Vec<u32> {
    samples.iter().map(|sample| sample.to_bits()).collect()
}

fn values(patterns: &[u32]) -> Vec<f32> {
    patterns.iter().map(|pattern| f32::from_bits(*pattern)).collect()
}

fn storage(window_size: f32, wet_dry: f32) -> RawParameters {
    RawParameters::snapshot(window_size.to_bits(), wet_dry.to_bits())
}

fn model(window: &mut Vec<f32>, limit: usize, input: &[f32], wet_dry: f32) -> Vec<f32> {
    let mut output = Vec::new();
    for &sample in input {
        if window.len() == limit {
            window.remove(0);
        }
        window.push(sample);
        let mut sorted = window.clone();
        sorted.sort_by(|a, b| a.total_cmp(b));
        let median = sorted[(sorted.len() - 1) / 2];
        output.push(sample * (1.0 - wet_dry) + median * wet_dry);
    }
    output
}

fn noise(count: usize, seed: u64) -> Vec<f32> {
    let mut state = seed;
    let mut samples = Vec::new();
    for _ in 0..count {
        state ^= state << 13;
        state ^= state >> 7;
        state ^= state << 17;
        samples.push(((state >> 40) as f32 / 8_388_608.0) - 1.0);
    }
    samples
}

#[test]
fn constant_signal_with_defaults() {
    let params = RawParameters::default();
    let mut unit = MedianFilter::new();
    let input = bits(&[1.0; 200]);
    let output = unit.process(&params, &input, &input);
    assert_eq!(output.left.len(), 200);
    assert_eq!(output.right.len(), 200);
    for i in 0..200 {
        assert_eq!(f32::from_bits(output.left[i]), 1.0 * (1.0 - 0.5) + 1.0 * 0.5);
        assert_eq!(f32::from_bits(output.left[i]), 1.0);
        assert_eq!(output.right[i], output.left[i]);
    }
}

#[test]
fn silence_blends_to_one_half() {
    let params = RawParameters::default();
    let mut unit = MedianFilter::new();
    let mut input = vec![0.0f32; 30];
    input.extend([1.0f32; 20]);
    let output = unit.process(&params, &bits(&input), &bits(&input));
    for i in 0..30 {
        assert_eq!(f32::from_bits(output.left[i]), 0.0);
    }
    for i in 30..50 {
        assert_eq!(f32::from_bits(output.left[i]), 1.0 * 0.5 + 0.0 * 0.5);
    }
}

#[test]
fn output_is_as_long_as_the_input() {
    let params = RawParameters::default();
    let mut unit = MedianFilter::new();
    for (left, right) in [(0usize, 0usize), (1, 1), (7, 7), (64, 64), (5, 9), (0, 3)] {
        let output = unit.process(&params, &bits(&noise(left, 1)), &bits(&noise(right, 2)));
        assert_eq!(output.left.len(), left);
        assert_eq!(output.right.len(), right);
    }
}

#[test]
fn window_of_four() {
    let params = storage(0.04, 1.0);
    let cases: [([f32; 7], [f32; 7]); 8] = [
        ([10., 20., 30., 100., 30., 20., 10.], [10., 10., 20., 20., 30., 30., 20.]),
        ([90., 80., 70., 10., 70., 80., 90.], [90., 80., 80., 70., 70., 70., 70.]),
        ([10., 10., 10., 100., 10., 10., 10.], [10., 10., 10., 10., 10., 10., 10.]),
        ([10., 10., 100., 100., 100., 10., 10.], [10., 10., 10., 10., 100., 100., 10.]),
        ([10., 100., 100., 100., 100., 100., 10.], [10., 10., 100., 100., 100., 100., 100.]),
        ([10., 20., 10., 20., 10., 20., 10.], [10., 10., 10., 10., 10., 10., 10.]),
        ([10., 20., 30., 40., 50., 60., 70.], [10., 10., 20., 20., 30., 40., 50.]),
        ([70., 60., 50., 40., 30., 20., 10.], [70., 60., 60., 50., 40., 30., 20.]),
    ];
    for (input, expected) in cases {
        let mut unit = MedianFilter::new();
        let output = unit.process(&params, &bits(&input), &bits(&input));
        assert_eq!(values(&output.left), expected);
        assert_eq!(values(&output.right), expected);
    }
}

#[test]
fn window_of_five() {
    let params = storage(0.05, 1.0);
    let cases: [([f32; 7], [f32; 7]); 8] = [
        ([10., 20., 30., 100., 30., 20., 10.], [10., 10., 20., 20., 30., 30., 30.]),
        ([90., 80., 70., 10., 70., 80., 90.], [90., 80., 80., 70., 70., 70., 70.]),
        ([10., 10., 10., 100., 10., 10., 10.], [10., 10., 10., 10., 10., 10., 10.]),
        ([10., 10., 100., 100., 100., 10., 10.], [10., 10., 10., 10., 100., 100., 100.]),
        ([10., 100., 100., 100., 100., 100., 10.], [10., 10., 100., 100., 100., 100., 100.]),
        ([10., 20., 10., 20., 10., 20., 10.], [10., 10., 10., 10., 10., 20., 10.]),
        ([10., 20., 30., 40., 50., 60., 70.], [10., 10., 20., 20., 30., 40., 50.]),
        ([70., 60., 50., 40., 30., 20., 10.], [70., 60., 60., 50., 50., 40., 30.]),
    ];
    for (input, expected) in cases {
        let mut unit = MedianFilter::new();
        let output = unit.process(&params, &bits(&input), &bits(&input));
        assert_eq!(values(&output.left), expected);
    }
}

#[test]
fn window_of_one_passes_the_signal() {
    let params = storage(0.0, 1.0);
    let input = noise(100, 77);
    let mut unit = MedianFilter::new();
    let output = unit.process(&params, &bits(&input), &bits(&input));
    assert_eq!(values(&output.left), input);
}

#[test]
fn agrees_with_a_sorted_window() {
    for (round, window_size) in [0.01f32, 0.02, 0.03, 0.04, 0.07, 0.1, 0.5, 1.0].iter().enumerate() {
        for wet_dry in [0.0f32, 0.25, 0.5, 0.8, 1.0] {
            let params = storage(*window_size, wet_dry);
            let limit = (*window_size as f64 * 100.0 + 0.5).floor() as usize;
            let mut unit = MedianFilter::new();
            let mut left_window = Vec::new();
            let mut right_window = Vec::new();
            for buffer in 0..4u64 {
                let left = noise(97, 1000 + 10 * round as u64 + buffer);
                let right = noise(97, 5000 + 10 * round as u64 + buffer);
                let output = unit.process(&params, &bits(&left), &bits(&right));
                assert_eq!(
                    values(&output.left),
                    model(&mut left_window, limit, &left, wet_dry)
                );
                assert_eq!(
                    values(&output.right),
                    model(&mut right_window, limit, &right, wet_dry)
                );
            }
        }
    }
}

#[test]
fn negative_samples_and_both_zeros_are_ordered() {
    let params = storage(0.03, 1.0);
    let input = [-1.0f32, 0.0, -0.0, 3.0, -2.5, 0.5, -0.0, 0.0, 0.0];
    let mut unit = MedianFilter::new();
    let output = unit.process(&params, &bits(&input), &bits(&input));
    let mut window = Vec::new();
    let expected = model(&mut window, 3, &input, 1.0);
    assert_eq!(bits(&values(&output.left)), bits(&expected));
}

#[test]
fn infinities_and_what_is_not_a_number_are_ordered_too() {
    let params = storage(0.03, 1.0);
    let input = [1.0f32, f32::INFINITY, f32::NAN, -2.0, f32::NEG_INFINITY, 0.5, f32::NAN, 3.0, 4.0];
    let mut unit = MedianFilter::new();
    let output = unit.process(&params, &bits(&input), &bits(&input));
    let mut window = Vec::new();
    let expected = model(&mut window, 3, &input, 1.0);
    assert_eq!(output.left.len(), expected.len());
    for (ours, theirs) in values(&output.left).iter().zip(expected) {
        if theirs.is_nan() {
            assert!(ours.is_nan());
        } else {
            assert_eq!(*ours, theirs);
        }
    }
}

#[test]
fn all_dry_gives_the_input() {
    let params = storage(0.2, 0.0);
    let left = noise(300, 11);
    let right = noise(300, 12);
    let mut unit = MedianFilter::new();
    let output = unit.process(&params, &bits(&left), &bits(&right));
    assert_eq!(values(&output.left), left);
    assert_eq!(values(&output.right), right);
}

#[test]
fn all_wet_gives_the_median() {
    let params = storage(0.09, 1.0);
    let left = noise(300, 21);
    let mut unit = MedianFilter::new();
    let output = unit.process(&params, &bits(&left), &bits(&left));
    let mut window = Vec::new();
    for (i, &sample) in left.iter().enumerate() {
        if window.len() == 9 {
            window.remove(0);
        }
        window.push(sample);
        let mut sorted = window.clone();
        sorted.sort_by(|a, b| a.total_cmp(b));
        assert_eq!(f32::from_bits(output.left[i]), sorted[(sorted.len() - 1) / 2]);
    }
}

#[test]
fn channels_do_not_mix() {
    let params = storage(0.1, 0.7);
    let left = noise(120, 31);
    let right = noise(120, 32);
    let mut both = MedianFilter::new();
    let together = both.process(&params, &bits(&left), &bits(&right));
    let mut swapped = MedianFilter::new();
    let crossed = swapped.process(&params, &bits(&right), &bits(&left));
    assert_eq!(together.left, crossed.right);
    assert_eq!(together.right, crossed.left);
    let mut alone = MedianFilter::new();
    let single = alone.process(&params, &bits(&left), &Vec::new());
    assert_eq!(single.left, together.left);
    assert!(single.right.is_empty());
}

#[test]
fn window_is_kept_between_buffers() {
    let params = storage(0.3, 1.0);
    let samples = noise(200, 41);
    let mut whole = MedianFilter::new();
    let at_once = whole.process(&params, &bits(&samples), &bits(&samples));
    let mut parts = MedianFilter::new();
    let mut in_parts = Vec::new();
    for chunk in samples.chunks(33) {
        in_parts.extend(parts.process(&params, &bits(chunk), &bits(chunk)).left);
    }
    assert_eq!(at_once.left, in_parts);
}

#[test]
fn new_window_size_starts_cold() {
    let mut params = RawParameters::default();
    params.set(1.0f32.to_bits(), ParameterType::WetDry);
    let mut unit = MedianFilter::new();
    let warm = unit.process(&params, &bits(&[1.0; 80]), &bits(&[1.0; 80]));
    assert_eq!(f32::from_bits(warm.left[79]), 1.0);
    params.set(0.03f32.to_bits(), ParameterType::WindowSize);
    let after = unit.process(&params, &bits(&[0.0, 0.0]), &bits(&[0.0, 0.0]));
    assert_eq!(values(&after.left), [0.0, 0.0]);
    assert_eq!(values(&after.right), [0.0, 0.0]);

    let mut kept = MedianFilter::new();
    params.set(0.5f32.to_bits(), ParameterType::WindowSize);
    kept.process(&params, &bits(&[1.0; 80]), &bits(&[1.0; 80]));
    let same = kept.process(&params, &bits(&[0.0, 0.0]), &bits(&[0.0, 0.0]));
    assert_eq!(values(&same.left), [1.0, 1.0]);
}

#[test]
fn reset_if_changed_keeps_a_window_of_the_same_size() {
    let mut params = RawParameters::default();
    params.set(1.0f32.to_bits(), ParameterType::WetDry);
    let mut unit = MedianFilter::new();
    unit.process(&params, &bits(&[1.0; 60]), &bits(&[1.0; 60]));
    unit.reset_if_changed(&params);
    unit.init(&params);
    let same = unit.process(&params, &bits(&[0.0]), &bits(&[0.0]));
    assert_eq!(values(&same.left), [1.0]);
    params.set(0.51f32.to_bits(), ParameterType::WindowSize);
    unit.reset_if_changed(&params);
    params.set(0.5f32.to_bits(), ParameterType::WindowSize);
    let cold = unit.process(&params, &bits(&[0.0]), &bits(&[0.0]));
    assert_eq!(values(&cold.left), [0.0]);
}

#[test]
fn init_takes_up_the_window_size() {
    let params = storage(0.02, 1.0);
    let mut unit = MedianFilter::new();
    unit.init(&params);
    let output = unit.process(&params, &bits(&[1.0, 2.0, 3.0, 4.0]), &bits(&[4.0, 3.0, 2.0, 1.0]));
    assert_eq!(values(&output.left), [1.0, 1.0, 2.0, 3.0]);
    assert_eq!(values(&output.right), [4.0, 3.0, 2.0, 1.0]);
}

#[test]
fn old_samples_leave_the_window() {
    let params = storage(0.03, 1.0);
    let mut unit = MedianFilter::new();
    let input = [9.0f32, 9.0, 9.0, 1.0, 1.0, 1.0, 5.0];
    let output = unit.process(&params, &bits(&input), &bits(&input));
    assert_eq!(values(&output.left), [9.0, 9.0, 9.0, 9.0, 1.0, 1.0, 1.0]);
}

#[test]
fn window_fits_for_values_in_range() {
    assert!(MedianFilter::window_fits(&RawParameters::default()));
    assert!(MedianFilter::window_fits(&storage(0.0, 0.5)));
    assert!(MedianFilter::window_fits(&storage(1.0, 0.5)));
    assert!(MedianFilter::window_fits(&storage(20.0, 0.5)));
    assert!(MedianFilter::window_fits(&storage(f32::NAN, 0.5)));
    assert!(MedianFilter::window_fits(&storage(-1.0, 0.5)));
    assert!(!MedianFilter::window_fits(&storage(f32::INFINITY, 0.5)));
    assert!(!MedianFilter::window_fits(&storage(f32::MAX, 0.5)));
    assert!(!MedianFilter::window_fits(&storage(1.0e18, 0.5)));
}

#[test]
fn window_beyond_one_hundred() {
    let params = storage(2.0, 1.0);
    let input = noise(500, 51);
    let mut unit = MedianFilter::new();
    let output = unit.process(&params, &bits(&input), &bits(&input));
    let mut window = Vec::new();
    assert_eq!(values(&output.left), model(&mut window, 200, &input, 1.0));
}

#[test]
fn info_of_the_unit() {
    let unit = MedianFilter::new();
    let info = unit.get_info();
    assert_eq!(info.name, "Median Filter");
    assert_eq!(info.vendor, "a2aaron");
    assert_eq!(info.unique_id, 612413);
    assert_eq!(info.version, 1);
    assert_eq!(info.parameters, ParameterType::COUNT as i32);
    assert_eq!(info.parameters, 2);
    assert_eq!(info.inputs, 2);
    assert_eq!(info.outputs, 2);
}

#[test]
fn bypass_is_the_only_capability() {
    let unit = MedianFilter::new();
    assert!(unit.can_do("bypass"));
    for name in ["sendVstEvents", "receiveVstMidiEvent", "offline", "Bypass", "bypass ", ""] {
        assert!(!unit.can_do(name));
    }
}
