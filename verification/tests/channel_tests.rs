use ray_kernel::channel::{byte_clamp, MAX_CHANNEL};

fn by_floats(x: f64) -> i64 {
    (x * 255.0).clamp(0.0, 255.0).round() as i64
}

#[test]
fn byte_clamp_scales_clamps_and_rounds() {
    assert_eq!(byte_clamp(0.0f64.to_bits()), 0);
    assert_eq!(byte_clamp(1.0f64.to_bits()), 255);
    assert_eq!(byte_clamp(0.5f64.to_bits()), 128);
    assert_eq!(byte_clamp(0.8f64.to_bits()), 204);
    assert_eq!(byte_clamp(0.6f64.to_bits()), 153);
    assert_eq!(byte_clamp(1.5f64.to_bits()), 255);
    assert_eq!(byte_clamp((-0.5f64).to_bits()), 0);
    assert_eq!(byte_clamp(0.25f64.to_bits()), 64);
    assert_eq!(byte_clamp(0.001f64.to_bits()), 0);
    assert_eq!(byte_clamp(0.002f64.to_bits()), 1);
    assert_eq!(MAX_CHANNEL, 255);
}

#[test]
fn byte_clamp_rounds_halves_up_after_the_product_is_rounded() {
    assert_eq!(byte_clamp(0.1f64.to_bits()), 26);
    assert_eq!(byte_clamp(0.3f64.to_bits()), 77);
    assert_eq!(byte_clamp(0.7f64.to_bits()), 179);
    assert_eq!(byte_clamp(0.9f64.to_bits()), 230);
    let half_step: f64 = 0.5 / 255.0;
    assert_eq!(byte_clamp(half_step.to_bits()), by_floats(half_step));
}

#[test]
fn byte_clamp_of_special_numbers() {
    assert_eq!(byte_clamp(f64::NAN.to_bits()), 0);
    assert_eq!(byte_clamp((-f64::NAN).to_bits()), 0);
    assert_eq!(byte_clamp(0x7ff0_0000_0000_0001), 0);
    assert_eq!(byte_clamp(f64::INFINITY.to_bits()), 255);
    assert_eq!(byte_clamp(f64::NEG_INFINITY.to_bits()), 0);
    assert_eq!(byte_clamp((-0.0f64).to_bits()), 0);
    assert_eq!(byte_clamp(f64::MAX.to_bits()), 255);
    assert_eq!(byte_clamp(f64::MIN.to_bits()), 0);
    assert_eq!(byte_clamp(f64::MIN_POSITIVE.to_bits()), 0);
    assert_eq!(byte_clamp(1), 0);
    assert_eq!(byte_clamp(0x000f_ffff_ffff_ffff), 0);
    assert_eq!(byte_clamp((1.0f64 - f64::EPSILON / 2.0).to_bits()), 255);
}

#[test]
fn byte_clamp_agrees_with_binary64_arithmetic_on_a_grid() {
    for i in -20_000i64..=120_000 {
        let x = i as f64 / 100_000.0;
        assert_eq!(byte_clamp(x.to_bits()), by_floats(x), "at {}", x);
    }
    for i in 0i64..=510 {
        let x = i as f64 / 510.0;
        assert_eq!(byte_clamp(x.to_bits()), by_floats(x), "at {}", x);
        let above = f64::from_bits(x.to_bits() + 1);
        assert_eq!(byte_clamp(above.to_bits()), by_floats(above), "above {}", x);
        if x > 0.0 {
            let below = f64::from_bits(x.to_bits() - 1);
            assert_eq!(byte_clamp(below.to_bits()), by_floats(below), "below {}", x);
        }
    }
}

#[test]
fn byte_clamp_agrees_with_binary64_arithmetic_on_scattered_bit_patterns() {
    let mut state: u64 = 0x9e37_79b9_7f4a_7c15;
    for _ in 0..200_000 {
        state = state
            .wrapping_mul(6364136223846793005)
            .wrapping_add(1442695040888963407);
        let bits = state;
        assert_eq!(byte_clamp(bits), by_floats(f64::from_bits(bits)), "at {:#x}", bits);
        let near_one = 0x3f00_0000_0000_0000 | (state >> 8);
        assert_eq!(
            byte_clamp(near_one),
            by_floats(f64::from_bits(near_one)),
            "at {:#x}",
            near_one
        );
    }
}
