use oomwrap::duration::{parse_duration, Duration, DurationError, DurationUnit};
use oomwrap::meminfo::{meminfo_overflows, meminfo_path, parse_meminfo, read_meminfo, MeminfoError};
use oomwrap::number::{parse_signed, parse_whole, NumberError, WholeError};
use oomwrap::size::{format_bytes, parse_size, SizeError};
use oomwrap::text;

#[test]
fn parses_sizes() {
    assert_eq!(parse_size("1").unwrap(), 1);
    assert_eq!(parse_size("1K").unwrap(), 1024);
    assert_eq!(parse_size("1.5M").unwrap(), 1_572_864);
    assert_eq!(parse_size("2G").unwrap(), 2_147_483_648);
    assert_eq!(parse_size("1T").unwrap(), 1_099_511_627_776);
    assert_eq!(parse_size("1TB").unwrap(), 1_099_511_627_776);
    assert!(parse_size("12Z").is_err());
    assert!(parse_size("").is_err());
    assert!(parse_size("-1G").is_err());
    assert!(parse_size("NaNG").is_err());
    assert!(parse_size("infG").is_err());
}

#[test]
fn parses_durations() {
    assert_eq!(parse_duration("250ms").unwrap(), Duration::from_millis(250));
    assert_eq!(parse_duration("2s").unwrap(), Duration::from_secs(2));
    assert_eq!(parse_duration("1m").unwrap(), Duration::from_secs(60));
    assert_eq!(parse_duration("0.5").unwrap(), Duration::from_millis(500));
    assert!(parse_duration("").is_err());
    assert!(parse_duration("abc").is_err());
    assert!(parse_duration("-1").is_err());
    assert!(parse_duration("NaN").is_err());
    assert!(parse_duration("inf").is_err());
    assert!(parse_duration("-1ms").is_err());
    assert!(parse_duration("NaNs").is_err());
    assert!(parse_duration("infm").is_err());
}

#[test]
fn parses_meminfo() {
    let mem = parse_meminfo(
        r#"
MemTotal:       1000000 kB
MemAvailable:   123456 kB
SwapFree:          789 kB
"#,
    )
    .unwrap();
    assert_eq!(mem.mem_available_bytes, 123456 * 1024);
    assert_eq!(mem.swap_free_bytes, 789 * 1024);
}

/// Numbers of all shapes: plain, with fractions and exponents, near the limits, and broken.
fn numbers() -> Vec<String> {
    let mut out: Vec<String> = Vec::new();
    for s in [
        "0", "00", "1", "7", "10", "24", "+3", "-0", "-0.0", "-1", "-1e-400", "1.", ".5", ".", "+", "-",
        "+.", "1..2", "1.2.3", "1e", "1e+", "e5", "1e5", "1E5", "1e+5", "1e-5", "1.5e3", "1e0", "5e-1",
        "0.1", "0.2", "0.3", "2.5", "3.5", "0.49999999999999994", "4503599627370497.5",
        "9007199254740991", "9007199254740992", "9007199254740993", "9007199254740994.999",
        "18446744073709551615", "18446744073709551616", "1e19", "1e20", "1e308", "1.7976931348623157e308",
        "1.7976931348623158e308", "1.7976931348623159e308", "1e309", "1e400", "1e99999999999999999999",
        "1e-99999999999999999999", "0e99999999999999999999", "2.2250738585072014e-308",
        "2.2250738585072011e-308", "5e-324", "2.4703282292062327e-324", "2.4703282292062328e-324", "1e-400",
        "123456789012345678901234567890", "0.000000000000000000000000000001", "1e-9", "5e-10", "4.9e-10",
        "1.0000000005", "0.9999999995", "2.0000000015", "1000.0000000005", "18446744073709549568",
        "18446744073709550000", "307445734561825860", "307445734561825850", "0.0005", "0.0015", "1e-3",
    ] {
        out.push(s.to_string());
    }
    out
}

/// More numbers, spread over the whole range.
fn scattered_numbers() -> Vec<String> {
    let mut out: Vec<String> = Vec::new();
    for k in 0..50u32 {
        let n = (k as u64).wrapping_mul(0x9e37_79b9_7f4a_7c15);
        out.push(format!("{}", n));
        out.push(format!("{}.{}", n >> 40, n & 0xffff));
        out.push(format!("{}e{}", n >> 20, 14 * (k as i32) - 350));
        out.push(format!("0.{:020}", n));
    }
    out
}

/// What a size means, worked out with floating point.
fn float_size(input: &str) -> Option<u64> {
    let trimmed = input.trim();
    let at = trimmed
        .char_indices()
        .find(|(_, c)| !(c.is_ascii_digit() || matches!(c, '.' | '+' | '-' | 'e' | 'E')))
        .map(|(i, _)| i)
        .unwrap_or(trimmed.len());
    let (number, unit) = trimmed.split_at(at);
    let value: f64 = number.parse().ok()?;
    let factor: f64 = match unit.trim().to_ascii_lowercase().as_str() {
        "" | "b" => 1.0,
        "k" | "kb" | "kib" => 1024.0,
        "m" | "mb" | "mib" => 1048576.0,
        "g" | "gb" | "gib" => 1073741824.0,
        "t" | "tb" | "tib" => 1099511627776.0,
        _ => return None,
    };
    if !value.is_finite() || value < 0.0 {
        return None;
    }
    Some((value * factor).round() as u64)
}

#[test]
fn sizes_agree_with_floating_point() {
    for number in numbers() {
        for unit in ["", "b", "K", "kB", "KiB", " m", "Mb", "gib", "G ", "t", "TiB", "x", "e"] {
            let input = format!("{}{}", number, unit);
            assert_eq!(parse_size(&input).ok(), float_size(&input), "{}", input);
        }
    }
}

#[test]
fn scattered_sizes_agree_with_floating_point() {
    for number in scattered_numbers() {
        for unit in ["", "G"] {
            let input = format!("{}{}", number, unit);
            assert_eq!(parse_size(&input).ok(), float_size(&input), "{}", input);
        }
    }
}

/// What a duration means, worked out with floating point.
fn float_duration(input: &str) -> Option<std::time::Duration> {
    let trimmed = input.trim();
    let seconds: f64 = if let Some(number) = trimmed.strip_suffix("ms") {
        number.parse::<f64>().ok()? / 1000.0
    } else if let Some(number) = trimmed.strip_suffix('s') {
        number.parse::<f64>().ok()?
    } else if let Some(number) = trimmed.strip_suffix('m') {
        number.parse::<f64>().ok()? * 60.0
    } else {
        trimmed.parse::<f64>().ok()?
    };
    std::time::Duration::try_from_secs_f64(seconds).ok()
}

#[test]
fn durations_agree_with_floating_point() {
    for number in numbers().into_iter().chain(
        ["nan", "NaN", "inf", "-inf", "Infinity", "infinit", "+nan", "x"].iter().map(|s| s.to_string()),
    ) {
        for unit in ["", "ms", "s", "m", " s", "h"] {
            let input = format!("{}{}", number, unit);
            let ours = parse_duration(&input).ok();
            let floats = float_duration(&input);
            assert_eq!(
                ours.map(|d| (d.as_secs(), d.subsec_nanos())),
                floats.map(|d| (d.as_secs(), d.subsec_nanos())),
                "{}",
                input
            );
        }
    }
}

#[test]
fn scattered_durations_agree_with_floating_point() {
    for number in scattered_numbers() {
        for unit in ["ms", "s"] {
            let input = format!("{}{}", number, unit);
            let ours = parse_duration(&input).ok();
            let floats = float_duration(&input);
            assert_eq!(
                ours.map(|d| (d.as_secs(), d.subsec_nanos())),
                floats.map(|d| (d.as_secs(), d.subsec_nanos())),
                "{}",
                input
            );
        }
    }
}

#[test]
fn byte_counts_agree_with_floating_point() {
    fn expected(bytes: u64) -> String {
        if bytes >= 1024 * 1024 * 1024 {
            format!("{:.1}GiB", bytes as f64 / (1024.0 * 1024.0 * 1024.0))
        } else if bytes >= 1024 * 1024 {
            format!("{:.1}MiB", bytes as f64 / (1024.0 * 1024.0))
        } else {
            format!("{}B", bytes)
        }
    }
    let mut n: u64 = 1;
    for k in 0..4000u64 {
        for bytes in [n, n ^ (k << 13), n.rotate_left(17), k * 53687091, k * 52428 + 1048576, u64::MAX - k] {
            assert_eq!(format_bytes(bytes), expected(bytes), "{}", bytes);
        }
        n = n.wrapping_mul(6364136223846793005).wrapping_add(1442695040888963407);
    }
    for bytes in [0, 1, 1023, 1024, 1048575, 1048576, 1073741823, 1073741824, 1073741824 + 53687091, u64::MAX] {
        assert_eq!(format_bytes(bytes), expected(bytes), "{}", bytes);
    }
}

#[test]
fn whole_sizes_and_spans_are_exact() {
    assert_eq!(parse_size("24G"), Ok(24 << 30));
    assert_eq!(parse_size("9007199254740991"), Ok(9007199254740991));
    assert_eq!(parse_size("9007199254740992"), Ok(9007199254740992));
    assert_eq!(parse_duration("9007199254740992s"), Ok(Duration::from_secs(9007199254740992)));
    assert_eq!(parse_size("9007199254740991K"), Ok(9007199254740991 << 10));
    assert_eq!(parse_size("9007199254740991T"), Ok(u64::MAX));
    assert_eq!(parse_duration("86400"), Ok(Duration::from_secs(86400)));
    assert_eq!(parse_duration("86400s"), Ok(Duration::from_secs(86400)));
    assert_eq!(parse_duration("1440m"), Ok(Duration::from_secs(86400)));
}

#[test]
fn size_errors_say_what_is_wrong() {
    assert_eq!(parse_size("  ").unwrap_err(), SizeError::Empty);
    assert_eq!(parse_size("  ").unwrap_err().message(), "size cannot be empty");
    let e = parse_size("1.2.3G").unwrap_err();
    assert_eq!(
        e,
        SizeError::Number {
            number: "1.2.3".to_string(),
            cause: NumberError::Invalid
        }
    );
    assert_eq!(e.message(), "invalid numeric size: \"1.2.3\": invalid float literal");
    assert_eq!(
        parse_size("G").unwrap_err().message(),
        "invalid numeric size: \"\": cannot parse float from empty string"
    );
    assert_eq!(parse_size("12 Zb").unwrap_err().message(), "unknown size unit: zb");
    assert_eq!(
        parse_size("-1G").unwrap_err().message(),
        "size must be a non-negative finite number"
    );
}

#[test]
fn duration_errors_say_what_is_wrong() {
    assert_eq!(parse_duration("").unwrap_err(), DurationError::Empty);
    assert_eq!(parse_duration("").unwrap_err().message(), "duration cannot be empty");
    for (input, words) in [
        ("xms", "invalid millisecond duration: \"x\": invalid float literal"),
        ("xs", "invalid second duration: \"x\": invalid float literal"),
        ("xm", "invalid minute duration: \"x\": invalid float literal"),
        ("x\"y", "invalid duration: \"x\\\"y\": invalid float literal"),
        ("s", "invalid second duration: \"\": cannot parse float from empty string"),
        ("-1", "duration must be a non-negative finite number"),
        ("1e20", "duration must be a non-negative finite number"),
    ] {
        assert_eq!(parse_duration(input).unwrap_err().message(), words);
    }
    assert!(matches!(
        parse_duration("xms").unwrap_err(),
        DurationError::Number { unit: DurationUnit::Milliseconds, .. }
    ));
}

#[test]
fn spans_of_time_compare_and_subtract() {
    let a = Duration::new(2, 300);
    let b = Duration::new(1, 400);
    assert!(a.reaches(&b) && a.reaches(&a) && !b.reaches(&a));
    assert_eq!(a.saturating_sub(b), Duration::new(0, 999_999_900));
    assert_eq!(b.saturating_sub(a), Duration::from_secs(0));
    assert_eq!(a.min(b), b);
    assert_eq!(Duration::from_millis(1500), Duration::new(1, 500_000_000));
}

#[test]
fn memory_reports_are_read_line_by_line() {
    let mem = parse_meminfo("MemAvailable:: 1\nX\n\nSwapFree 2 kB\r\nMemAvailable: 3\n").unwrap();
    assert_eq!(mem.mem_available_bytes, 3 * 1024);
    assert_eq!(mem.swap_free_bytes, 2 * 1024);
    assert_eq!(parse_meminfo("SwapFree: 2\n").unwrap_err(), MeminfoError::NoMemAvailable);
    assert_eq!(parse_meminfo("MemAvailable: 2\n").unwrap_err(), MeminfoError::NoSwapFree);
    assert_eq!(
        parse_meminfo("").unwrap_err().message(),
        "MemAvailable missing from meminfo"
    );
    assert_eq!(
        parse_meminfo("MemAvailable: 2\n").unwrap_err().message(),
        "SwapFree missing from meminfo"
    );
    assert_eq!(
        parse_meminfo("Name: x\n").unwrap_err().message(),
        "invalid meminfo value in \"Name: x\": invalid digit found in string"
    );
    assert!(meminfo_overflows("SwapFree: 18014398509481984\n"));
    assert!(!meminfo_overflows("SwapFree: 18014398509481983\n"));
    assert!(!meminfo_overflows("Other: 18014398509481984\n"));
}

#[test]
fn memory_reports_tell_where_they_were_to_be_read() {
    assert_eq!(meminfo_path(None), b"/proc/meminfo");
    assert_eq!(meminfo_path(Some(b"/x".to_vec())), b"/x");
    assert_eq!(
        read_meminfo(b"/x", Err("No such file".to_string())),
        Err("failed to read /x: No such file".to_string())
    );
    assert_eq!(
        read_meminfo(b"/x", Ok("MemAvailable: 1\n".to_string())),
        Err("SwapFree missing from meminfo".to_string())
    );
    let mem = read_meminfo(b"/x", Ok("MemAvailable: 1\nSwapFree: 0\n".to_string())).unwrap();
    assert_eq!((mem.mem_available_bytes, mem.swap_free_bytes), (1024, 0));
}

#[test]
fn whole_numbers_agree_with_the_standard_parser() {
    for s in [
        "", "+", "-", "0", "+0", "-0", "007", "12", "-12", "1x", "x", " 1", "2147483647", "2147483648",
        "-2147483648", "-2147483649", "4294967295", "4294967296", "18446744073709551615",
        "18446744073709551616", "99999999999999999999x", "x99999999999999999999", "1_000", "٣",
    ] {
        let chars = text::to_chars(s);
        let ours = parse_whole(&chars, u64::MAX);
        assert_eq!(ours.map_err(|e| e.message()), s.parse::<u64>().map_err(|e| e.to_string()), "{}", s);
        let ours = parse_whole(&chars, u32::MAX as u64);
        assert_eq!(
            ours.map(|n| n as u32).map_err(|e| e.message()),
            s.parse::<u32>().map_err(|e| e.to_string()),
            "{}",
            s
        );
        let ours = parse_signed(&chars);
        assert_eq!(ours.map_err(|e| e.message()), s.parse::<i32>().map_err(|e| e.to_string()), "{}", s);
    }
    assert_eq!(parse_signed(&text::to_chars("-2147483649")), Err(WholeError::TooSmall));
}

#[test]
fn white_space_is_that_of_the_standard_library() {
    for n in 0..=0x10ffffu32 {
        if let Some(c) = char::from_u32(n) {
            assert_eq!(text::white(c), c.is_whitespace(), "{:x}", n);
            assert_eq!(text::lower_char(c), c.to_ascii_lowercase());
            assert_eq!(text::upper_char(c), c.to_ascii_uppercase());
        }
    }
}

#[test]
fn words_and_lines_agree_with_the_standard_library() {
    for s in [
        "", " ", "a", " a b\tc ", "a\u{2003}b", "\n\n", "a\nb", "a\r\nb\r\n", "a\rb\n", "\r\n", "a\r", "x\n\ny",
    ] {
        let chars = text::to_chars(s);
        let words: Vec<String> = text::split_words(&chars).iter().map(|w| w.iter().collect()).collect();
        let expected: Vec<&str> = s.split_whitespace().collect();
        assert_eq!(words, expected);
        let lines: Vec<String> = text::split_lines(&chars).iter().map(|w| w.iter().collect()).collect();
        let expected: Vec<&str> = s.lines().collect();
        assert_eq!(lines, expected, "{:?}", s);
    }
    assert_eq!(text::decimal_string(u128::MAX), u128::MAX.to_string());
    assert_eq!(text::signed_string(i32::MIN), i32::MIN.to_string());
}

#[test]
fn whole_milliseconds_are_exact() {
    for millis in [0u64, 1, 3, 7, 333, 86_399_999, 8_388_607_999] {
        assert_eq!(parse_duration(&format!("{millis}ms")), Ok(Duration::from_millis(millis)));
    }
}

#[test]
fn white_space_makes_no_difference() {
    assert_eq!(parse_size(" \t8 \u{a0}G\n"), Ok(8 << 30));
    assert_eq!(parse_size("8 "), Ok(8));
    assert_eq!(parse_duration("\u{3000}250ms\r\n"), Ok(Duration::from_millis(250)));
}
