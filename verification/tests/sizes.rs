use tmux_mem::human::human_bytes;
use tmux_mem::size::parse_compact_bytes;

fn float_human(bytes: u64) -> String {
    let units = ["B", "KiB", "MiB", "GiB", "TiB", "PiB"];
    let mut v = bytes as f64;
    let mut i = 0usize;
    while v >= 1024.0 && i < units.len() - 1 {
        v /= 1024.0;
        i += 1;
    }
    if i == 0 {
        format!("{} {}", bytes, units[i])
    } else {
        format!("{v:.2} {}", units[i])
    }
}

#[test]
fn plain_integers_are_bytes() {
    assert_eq!(parse_compact_bytes("0"), 0);
    assert_eq!(parse_compact_bytes("7"), 7);
    assert_eq!(parse_compact_bytes("18446744073709551615"), u64::MAX);
    assert_eq!(parse_compact_bytes("+12"), 12);
    assert_eq!(parse_compact_bytes("007"), 7);
    for n in [1u64, 9, 10, 99, 100, 1023, 1024, 65_536, 4_294_967_296, u64::MAX - 1] {
        assert_eq!(parse_compact_bytes(&n.to_string()), n);
    }
}

#[test]
fn units_multiply_by_powers_of_1024() {
    assert_eq!(parse_compact_bytes("1B"), 1);
    assert_eq!(parse_compact_bytes("1k"), 1024);
    assert_eq!(parse_compact_bytes("3m"), 3 * 1024 * 1024);
    assert_eq!(parse_compact_bytes("1g"), 1 << 30);
    assert_eq!(parse_compact_bytes("1T"), 1 << 40);
    assert_eq!(parse_compact_bytes("2t"), 2 << 40);
    assert_eq!(parse_compact_bytes("512K"), 512 * 1024);
}

#[test]
fn fractions_round_down() {
    assert_eq!(parse_compact_bytes("0.5K"), 512);
    assert_eq!(parse_compact_bytes("0.1K"), 102);
    assert_eq!(parse_compact_bytes("1.9B"), 1);
    assert_eq!(parse_compact_bytes(".5K"), 512);
    assert_eq!(parse_compact_bytes("5.K"), 5120);
    assert_eq!(parse_compact_bytes("0.0009765625K"), 1);
    assert_eq!(parse_compact_bytes("0.0009765624K"), 0);
    assert_eq!(parse_compact_bytes("2.75G"), 2_952_790_016);
    assert_eq!(parse_compact_bytes("0.000000000000909494701772928237915039062500T"), 1);
    assert_eq!(parse_compact_bytes("0.000000000000909494701772928237915039062499T"), 0);
    assert_eq!(parse_compact_bytes("1.9999999999999999999K"), 2047);
}

#[test]
fn unknown_unit_counts_as_one() {
    assert_eq!(parse_compact_bytes("12x"), 12);
    assert_eq!(parse_compact_bytes("12.9x"), 12);
    assert_eq!(parse_compact_bytes("3.7é"), 3);
}

#[test]
fn unreadable_tokens_are_zero() {
    assert_eq!(parse_compact_bytes(""), 0);
    assert_eq!(parse_compact_bytes("   "), 0);
    assert_eq!(parse_compact_bytes("K"), 0);
    assert_eq!(parse_compact_bytes("abcK"), 0);
    assert_eq!(parse_compact_bytes("1.2.3K"), 0);
    assert_eq!(parse_compact_bytes(".K"), 0);
    assert_eq!(parse_compact_bytes("-5K"), 0);
    assert_eq!(parse_compact_bytes("-0"), 0);
    assert_eq!(parse_compact_bytes("x"), 0);
}

fn float_size(token: &str) -> u64 {
    let t = token.trim();
    if t.is_empty() {
        return 0;
    }
    if let Ok(v) = t.parse::<u64>() {
        return v;
    }
    let mut chars = t.chars();
    let unit = chars.next_back().unwrap();
    let n = chars.as_str().parse::<f64>().unwrap_or(0.0);
    let m = match unit.to_ascii_uppercase() {
        'B' => 1.0,
        'K' => 1024.0,
        'M' => 1024.0 * 1024.0,
        'G' => 1024.0 * 1024.0 * 1024.0,
        'T' => 1024.0 * 1024.0 * 1024.0 * 1024.0,
        _ => 1.0,
    };
    (n * m) as u64
}

#[test]
fn powers_of_ten_move_the_point() {
    assert_eq!(parse_compact_bytes("1e3K"), 1_024_000);
    assert_eq!(parse_compact_bytes("1E3k"), 1_024_000);
    assert_eq!(parse_compact_bytes("1.5e3B"), 1500);
    assert_eq!(parse_compact_bytes("15e-1K"), 1536);
    assert_eq!(parse_compact_bytes("1e-3K"), 1);
    assert_eq!(parse_compact_bytes("1e+2K"), 102_400);
    assert_eq!(parse_compact_bytes("0.001e3K"), 1024);
    assert_eq!(parse_compact_bytes(".5e1K"), 5120);
    assert_eq!(parse_compact_bytes("5.e-1K"), 512);
    assert_eq!(parse_compact_bytes("1e19B"), 10_000_000_000_000_000_000);
    assert_eq!(parse_compact_bytes("1e20B"), u64::MAX);
    assert_eq!(parse_compact_bytes("123456789e-9G"), 132_560_717);
    assert_eq!(parse_compact_bytes("00012.5e-0001M"), 1_310_720);
    assert_eq!(parse_compact_bytes("1e0K"), 1024);
    assert_eq!(parse_compact_bytes("1e-0K"), 1024);
    assert_eq!(parse_compact_bytes("1234e-2B"), 12);
    assert_eq!(parse_compact_bytes("1234e-4B"), 0);
    assert_eq!(parse_compact_bytes("1234e-6K"), 1);
    assert_eq!(parse_compact_bytes("0.00000000000001e14K"), 1024);
    assert_eq!(parse_compact_bytes("1e-13T"), 0);
    assert_eq!(parse_compact_bytes("1e-12T"), 1);
    assert_eq!(parse_compact_bytes("9e-13T"), 0);
    assert_eq!(parse_compact_bytes("0.5e21B"), u64::MAX);
    assert_eq!(parse_compact_bytes("0.00000000000000000001e39B"), 10_000_000_000_000_000_000);
}

#[test]
fn far_powers_of_ten_are_all_or_nothing() {
    assert_eq!(parse_compact_bytes("1e400K"), u64::MAX);
    assert_eq!(parse_compact_bytes("1e-400K"), 0);
    assert_eq!(parse_compact_bytes("0e400K"), 0);
    assert_eq!(parse_compact_bytes("0.000e99999999999999999999999K"), 0);
    assert_eq!(parse_compact_bytes("0.001e99999999999999999999999K"), u64::MAX);
    assert_eq!(parse_compact_bytes("1e-99999999999999999999999K"), 0);
    assert_eq!(parse_compact_bytes("1e18446744073709551615B"), u64::MAX);
    assert_eq!(parse_compact_bytes("1e-18446744073709551615B"), 0);
    assert_eq!(parse_compact_bytes("1e21B"), u64::MAX);
    assert_eq!(parse_compact_bytes("0e21B"), 0);
    assert_eq!(parse_compact_bytes("1e-14T"), 0);
}

#[test]
fn broken_powers_of_ten_are_no_numbers() {
    assert_eq!(parse_compact_bytes("1eK"), 0);
    assert_eq!(parse_compact_bytes("1e+K"), 0);
    assert_eq!(parse_compact_bytes("e5K"), 0);
    assert_eq!(parse_compact_bytes(".e5K"), 0);
    assert_eq!(parse_compact_bytes("1e2.5K"), 0);
    assert_eq!(parse_compact_bytes("1e 2K"), 0);
    assert_eq!(parse_compact_bytes("1ee5K"), 0);
    assert_eq!(parse_compact_bytes("1e5e5K"), 0);
    assert_eq!(parse_compact_bytes("1E2"), 0);
    assert_eq!(parse_compact_bytes("1.5"), 1);
}

#[test]
fn the_words_for_infinity_and_no_number() {
    assert_eq!(parse_compact_bytes("infK"), u64::MAX);
    assert_eq!(parse_compact_bytes("+InfinityB"), u64::MAX);
    assert_eq!(parse_compact_bytes("INFt"), u64::MAX);
    assert_eq!(parse_compact_bytes("-infK"), 0);
    assert_eq!(parse_compact_bytes("nanK"), 0);
    assert_eq!(parse_compact_bytes("-NaNG"), 0);
    assert_eq!(parse_compact_bytes("inf"), 0);
    assert_eq!(parse_compact_bytes("nan"), 0);
    assert_eq!(parse_compact_bytes("infiK"), 0);
    assert_eq!(parse_compact_bytes("infinity"), 0);
}

#[test]
fn modest_sizes_agree_with_double_precision() {
    let mut tokens: Vec<String> = Vec::new();
    for unit in ["B", "K", "M", "G", "k", "m", "g", "b", "x", ""] {
        for whole in [0u32, 1, 7, 12, 99, 100, 512, 999, 1000] {
            tokens.push(format!("{}{}", whole, unit));
            for fraction in ["0", "5", "25", "125", "1", "9", "75", "001", "999", "33"] {
                tokens.push(format!("{}.{}{}", whole, fraction, unit));
                tokens.push(format!(" +{}.{}{} ", whole, fraction, unit));
                tokens.push(format!("-{}.{}{}", whole, fraction, unit));
            }
            for power in ["e0", "e1", "e2", "E-1", "e-2", "e+1"] {
                tokens.push(format!("{}{}{}", whole, power, unit));
                tokens.push(format!("{}.5{}{}", whole, power, unit));
            }
        }
    }
    for odd in ["", " ", "K", ".", ".K", "1.2.3K", "abc", "1e", "1eK", "infK", "-infK", "nanK", "1e400K", "1e-400K", "0x10K", "1_000K", "+K", "-K", "++1K", "1 K", "１K"] {
        tokens.push(odd.to_string());
    }
    for token in tokens {
        assert_eq!(parse_compact_bytes(&token), float_size(&token), "for {:?}", token);
    }
}

#[test]
fn white_space_around_a_token_is_ignored() {
    assert_eq!(parse_compact_bytes("  1K\n"), 1024);
    assert_eq!(parse_compact_bytes("\t42 "), 42);
}

#[test]
fn large_counts_stay_at_the_maximum() {
    assert_eq!(parse_compact_bytes("18446744073709551616"), 1_844_674_407_370_955_161);
    assert_eq!(parse_compact_bytes("16777216T"), u64::MAX);
    assert_eq!(parse_compact_bytes("16777215T"), 16_777_215u64 << 40);
    assert_eq!(parse_compact_bytes("16777215.5T"), (16_777_215u64 << 40) + (1u64 << 39));
    assert_eq!(parse_compact_bytes("99999999999999999999999999K"), u64::MAX);
    assert_eq!(parse_compact_bytes("+1.5M"), 1_572_864);
}

#[test]
fn human_bytes_below_1024_are_whole() {
    assert_eq!(human_bytes(0), "0 B");
    assert_eq!(human_bytes(1), "1 B");
    assert_eq!(human_bytes(1023), "1023 B");
}

#[test]
fn human_bytes_scale_with_two_digits() {
    assert_eq!(human_bytes(1024), "1.00 KiB");
    assert_eq!(human_bytes(1536), "1.50 KiB");
    assert_eq!(human_bytes(1_572_864), "1.50 MiB");
    assert_eq!(human_bytes(2_147_483_648), "2.00 GiB");
    assert_eq!(human_bytes(1 << 40), "1.00 TiB");
    assert_eq!(human_bytes(1 << 50), "1.00 PiB");
    assert_eq!(human_bytes(u64::MAX), "16384.00 PiB");
    assert_eq!(human_bytes(1_048_575), "1024.00 KiB");
}

#[test]
fn human_bytes_round_ties_to_even() {
    assert_eq!(human_bytes(1152), "1.12 KiB");
    assert_eq!(human_bytes(1408), "1.38 KiB");
    assert_eq!(human_bytes(1029), "1.00 KiB");
    assert_eq!(human_bytes(1030), "1.01 KiB");
}

#[test]
fn human_bytes_agree_with_double_precision() {
    let mut samples: Vec<u64> = vec![0, 1, 1023, 1024, 1025, 1152, 1408, u64::MAX, u64::MAX - 1];
    for shift in 0..64u32 {
        let p = 1u64 << shift;
        for delta in [0u64, 1, 2, 3, 127, 128, 129, 511, 512, 513, 1023, 1024, 1025] {
            samples.push(p.wrapping_add(delta));
            samples.push(p.wrapping_sub(delta));
            samples.push(p.wrapping_mul(3).wrapping_add(delta));
        }
    }
    let mut x: u64 = 0x9E37_79B9_7F4A_7C15;
    for _ in 0..20_000 {
        x ^= x << 13;
        x ^= x >> 7;
        x ^= x << 17;
        samples.push(x);
        samples.push(x >> 10);
        samples.push(x >> 24);
        samples.push(x >> 40);
        samples.push(x >> 52);
    }
    for k in 0..4096u64 {
        samples.push(1024 + k);
        samples.push((1 << 20) + k * 5243);
        samples.push((1u64 << 53) + k);
        samples.push((1u64 << 60) + k * 128);
    }
    for bytes in samples {
        assert_eq!(human_bytes(bytes), float_human(bytes), "for {}", bytes);
    }
}
