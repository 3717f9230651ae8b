use burn_automata::text::{push_decimal, push_gib};

fn gib(bytes: u64) -> String {
    let mut out = String::new();
    push_gib(&mut out, bytes);
    out
}

fn formatted(bytes: u64) -> String {
    format!("{:.2}", bytes as f64 / (1_u64 << 30) as f64)
}

#[test]
fn gibibytes_render_like_two_digit_float_formatting() {
    let mut samples = vec![
        0u64,
        1,
        2_000_000_000,
        2_952_790_016,
        369_098_752,
        (1 << 30) / 200,
        (1 << 30) / 200 + 1,
        3 * (1 << 30) / 200,
        u64::MAX,
        u64::MAX - 2_047,
        1 << 53,
        (1 << 53) + 1,
        (1 << 60) + 12_345,
    ];
    // Ties between hundredths: (2k + 1) * 2^27 / 25 bytes.
    for k in [0u64, 12, 37, 1_000_003, 1 << 40] {
        let tie = (2 * k + 1) * (1 << 27);
        if tie % 25 == 0 {
            samples.push(tie / 25);
        }
    }
    for k in 0..50u128 {
        let tie = (2 * (k * 25 + 12) + 1) * (1u128 << 27) / 25;
        samples.push(tie as u64);
        if let Ok(bytes) = u64::try_from(tie << 20) {
            samples.push(bytes);
            samples.push(bytes + 1);
            samples.push(bytes - 1);
        }
    }
    let mut state = 0x2545_f491_4f6c_dd1d_u64;
    for _ in 0..2_000 {
        state ^= state << 13;
        state ^= state >> 7;
        state ^= state << 17;
        samples.push(state);
        samples.push(state >> 20);
    }
    for bytes in samples {
        assert_eq!(gib(bytes), formatted(bytes), "bytes = {bytes}");
    }
}

#[test]
fn decimals_render_without_leading_zeros() {
    let mut out = String::from("n=");
    push_decimal(&mut out, 0);
    push_decimal(&mut out, 1_441_792);
    assert_eq!(out, "n=01441792");
    let mut max = String::new();
    push_decimal(&mut max, u128::MAX);
    assert_eq!(max, u128::MAX.to_string());
}
