use median_filter::arithmetic::{
    add_patterns, blend_samples, multiply_patterns, negate, subtract_patterns,
};
use median_filter::rounding::compose;

fn same(ours: u32, theirs: f32) -> bool {
    if theirs.is_nan() {
        f32::from_bits(ours).is_nan()
    } else {
        ours == theirs.to_bits()
    }
}

fn patterns(count: usize, seed: u64) -> Vec<u32> {
    let mut list = vec![
        0x0000_0000, 0x8000_0000, 0x0000_0001, 0x8000_0001, 0x007F_FFFF, 0x0080_0000, 0x0080_0001,
        0x00FF_FFFF, 0x0100_0000, 0x3F00_0000, 0x3F7F_FFFF, 0x3F80_0000, 0x3F80_0001, 0xBF80_0000,
        0x3380_0000, 0x3400_0000, 0x3480_0000, 0x3300_0000, 0x3300_0001, 0x32FF_FFFF, 0x4B00_0000,
        0x4B7F_FFFF, 0x4B80_0000, 0x7E7F_FFFF, 0x7F00_0000, 0x7F7F_FFFF, 0x7F80_0000, 0xFF80_0000,
        0x7F80_0001, 0x7FC0_0000, 0xFFC0_0000, 0xFF7F_FFFF, 0x8080_0000, 0x807F_FFFF, 0x1F80_0000,
        0x2000_0000, 0x5F80_0000, 0x6000_0000,
    ];
    let mut state = seed;
    for _ in 0..count {
        state ^= state << 13;
        state ^= state >> 7;
        state ^= state << 17;
        list.push((state >> 16) as u32);
    }
    list
}

fn near(bits: u32, state: &mut u64) -> u32 {
    *state ^= *state << 13;
    *state ^= *state >> 7;
    *state ^= *state << 17;
    let spread = (*state >> 20) as u32;
    let exponent_step = (spread % 60) as i32 - 30;
    let exponent = (((bits >> 23) & 0xFF) as i32 + exponent_step).clamp(0, 254) as u32;
    (spread & 0x8000_0000) | (exponent << 23) | ((spread >> 3) & 0x7F_FFFF)
}

fn unit_patterns(count: usize, seed: u64) -> Vec<u32> {
    let mut list = vec![0, 0x3F80_0000, 0x3F00_0000, 0x3E80_0000, 0x3F7F_FFFF, 1, 0x0080_0000];
    let mut state = seed;
    for _ in 0..count {
        state ^= state << 13;
        state ^= state >> 7;
        state ^= state << 17;
        list.push(((state >> 16) as u32) % 0x3F80_0001);
    }
    list
}

fn audio_patterns(count: usize, seed: u64) -> Vec<u32> {
    let mut list = vec![0, 0x8000_0000, 0x3F80_0000, 0xBF80_0000, 0x3F00_0000, 0xBF00_0000];
    let mut state = seed;
    for _ in 0..count {
        state ^= state << 13;
        state ^= state >> 7;
        state ^= state << 17;
        let bits = (state >> 16) as u32;
        list.push((bits & 0x8000_0000) | ((bits & 0x7FFF_FFFF) % 0x4000_0000));
    }
    list
}

#[test]
fn sum_is_the_float_sum() {
    let list = patterns(700, 0x1234_5678_9ABC_DEF1);
    for &a in &list {
        for &b in &list {
            let expected = f32::from_bits(a) + f32::from_bits(b);
            assert!(same(add_patterns(a, b), expected), "{a:#x} + {b:#x}");
        }
    }
}

#[test]
fn sum_of_near_patterns_is_the_float_sum() {
    let mut state = 0x0F0F_1234_5678_9ABCu64;
    for a in patterns(300_000, 0x6A09_E667_F3BC_C909) {
        let b = near(a, &mut state);
        let expected = f32::from_bits(a) + f32::from_bits(b);
        assert!(same(add_patterns(a, b), expected), "{a:#x} + {b:#x}");
        let expected = f32::from_bits(a) - f32::from_bits(b);
        assert!(same(subtract_patterns(a, b), expected), "{a:#x} - {b:#x}");
    }
}

#[test]
fn difference_is_the_float_difference() {
    let list = patterns(700, 0xBB67_AE85_84CA_A73B);
    for &a in &list {
        for &b in &list {
            let expected = f32::from_bits(a) - f32::from_bits(b);
            assert!(same(subtract_patterns(a, b), expected), "{a:#x} - {b:#x}");
        }
    }
}

#[test]
fn product_is_the_float_product() {
    let list = patterns(700, 0x3C6E_F372_FE94_F82B);
    for &a in &list {
        for &b in &list {
            let expected = f32::from_bits(a) * f32::from_bits(b);
            assert!(same(multiply_patterns(a, b), expected), "{a:#x} * {b:#x}");
        }
    }
}

#[test]
fn product_of_near_patterns_is_the_float_product() {
    let mut state = 0x0F0F_1234_5678_9ABCu64;
    for a in patterns(300_000, 0xA54F_F53A_5F1D_36F1) {
        let b = near(0x3F80_0000, &mut state);
        let expected = f32::from_bits(a) * f32::from_bits(b);
        assert!(same(multiply_patterns(a, b), expected), "{a:#x} * {b:#x}");
    }
}

#[test]
fn negate_turns_the_sign() {
    for a in patterns(10_000, 0x510E_527F_ADE6_82D1) {
        let value = f32::from_bits(a);
        if value.is_nan() {
            assert!(f32::from_bits(negate(a)).is_nan());
        } else {
            assert_eq!(negate(a), (-value).to_bits());
        }
        assert_eq!(negate(negate(a)), a);
    }
}

#[test]
fn blend_is_the_float_formula() {
    let samples = audio_patterns(120, 0x9B05_688C_2B3E_6C1F);
    let mixes = unit_patterns(40, 0x1F83_D9AB_FB41_BD6B);
    for &dry in &samples {
        for &wet in &samples {
            for &mix in &mixes {
                let (input, out, wet_dry) =
                    (f32::from_bits(dry), f32::from_bits(wet), f32::from_bits(mix));
                let expected = input * (1.0 - wet_dry) + out * wet_dry;
                assert!(same(blend_samples(dry, wet, mix), expected), "{dry:#x} {wet:#x} {mix:#x}");
            }
        }
    }
}

#[test]
fn blend_of_any_patterns_is_the_float_formula() {
    let list = patterns(80, 0x5BE0_CD19_137E_2179);
    for &dry in &list {
        for &wet in &list {
            for &mix in &list {
                let (input, out, wet_dry) =
                    (f32::from_bits(dry), f32::from_bits(wet), f32::from_bits(mix));
                let expected = input * (1.0 - wet_dry) + out * wet_dry;
                assert!(same(blend_samples(dry, wet, mix), expected), "{dry:#x} {wet:#x} {mix:#x}");
            }
        }
    }
}

#[test]
fn blend_named_values() {
    let one = 1.0f32.to_bits();
    let half = 0.5f32.to_bits();
    assert_eq!(blend_samples(one, one, half), one);
    assert_eq!(blend_samples(one, 0, half), half);
    assert_eq!(blend_samples(0.25f32.to_bits(), 0.75f32.to_bits(), half), half);
    assert_eq!(blend_samples(0.3f32.to_bits(), 0.9f32.to_bits(), 0), 0.3f32.to_bits());
    assert_eq!(blend_samples(0.3f32.to_bits(), 0.9f32.to_bits(), one), 0.9f32.to_bits());
    assert_eq!(
        blend_samples((-0.8f32).to_bits(), 0.2f32.to_bits(), 0.25f32.to_bits()),
        (-0.8f32 * (1.0 - 0.25) + 0.2 * 0.25).to_bits()
    );
}

#[test]
fn blend_all_dry_gives_the_input() {
    for dry in audio_patterns(2_000, 0x428A_2F98_D728_AE22) {
        for wet in audio_patterns(20, 0x7137_4491_23EF_65CD) {
            let output = blend_samples(dry, wet, 0);
            assert_eq!(f32::from_bits(output), f32::from_bits(dry));
            if dry & 0x7FFF_FFFF != 0 {
                assert_eq!(output, dry);
            }
        }
    }
}

#[test]
fn blend_all_wet_gives_the_filtered_value() {
    for wet in audio_patterns(2_000, 0xB5C0_FBCF_EC4D_3B2F) {
        for dry in audio_patterns(20, 0xE9B5_DBA5_8189_DBBC) {
            let output = blend_samples(dry, wet, 1.0f32.to_bits());
            assert_eq!(f32::from_bits(output), f32::from_bits(wet));
            if wet & 0x7FFF_FFFF != 0 {
                assert_eq!(output, wet);
            }
        }
    }
}

#[test]
fn compose_gives_the_nearest_pattern() {
    assert_eq!(compose(false, 1, 0), 1.0f32.to_bits());
    assert_eq!(compose(true, 3, -1), (-1.5f32).to_bits());
    assert_eq!(compose(false, 0, 0), 0);
    assert_eq!(compose(true, 0, 17), 0x8000_0000);
    assert_eq!(compose(false, 1, -149), 1);
    assert_eq!(compose(false, 1, -150), 0);
    assert_eq!(compose(false, 3, -150), 2);
    assert_eq!(compose(false, 0x100_0001, 0), 16_777_216.0f32.to_bits());
    assert_eq!(compose(false, 0x100_0003, 0), 16_777_220.0f32.to_bits());
    assert_eq!(compose(false, 0x1FF_FFFF, 0), 33_554_432.0f32.to_bits());
    assert_eq!(compose(false, 1, 127), 2.0f32.powi(127).to_bits());
    assert_eq!(compose(false, 1, 128), f32::INFINITY.to_bits());
    assert_eq!(compose(true, 0xFF_FFFF, 104), f32::MIN.to_bits());
    assert_eq!(compose(true, 0x1FF_FFFF, 103), f32::NEG_INFINITY.to_bits());
    for whole in [1u64, 2, 3, 5, 255, 0xFF_FFFF, 0x100_0000, 0x7FFF_FFFF_FFFF_FFFF, 123_456_789_012] {
        for scale in [-400, -200, -150, -149, -100, -24, -1, 0, 1, 24, 64, 100, 127] {
            let expected = (whole as f64 * 2.0f64.powi(scale)) as f32;
            assert_eq!(compose(false, whole, scale), expected.to_bits(), "{whole} {scale}");
        }
    }
}

#[test]
fn compose_takes_every_whole_number_and_scale() {
    assert_eq!(compose(false, 1, i32::MAX), f32::INFINITY.to_bits());
    assert_eq!(compose(true, 1, i32::MAX), f32::NEG_INFINITY.to_bits());
    assert_eq!(compose(false, 1, i32::MIN), 0);
    assert_eq!(compose(true, u64::MAX, i32::MIN), 0x8000_0000);
    assert_eq!(compose(false, 0, i32::MAX), 0);
    assert_eq!(compose(false, u64::MAX, 0), 18_446_744_073_709_551_616.0f32.to_bits());
    assert_eq!(compose(false, u64::MAX, -213), 1);
    assert_eq!(compose(false, 0x8000_0000_0000_0001, -213), 1);
    assert_eq!(compose(false, 0x8000_0000_0000_0000, -213), 0);
    assert_eq!(compose(false, 0x8000_0000_0000_0000, -212), 1);
    assert_eq!(compose(false, u64::MAX, -214), 0);
    assert_eq!(compose(false, u64::MAX, -300), 0);
    assert_eq!(compose(false, 0xC000_0000_0000_0000, -212), 2);
}
