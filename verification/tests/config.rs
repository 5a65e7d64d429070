use tcp_throttle::config::{
    parse_flag, read_args, read_port, validate_args, FILENAME, MAX_ARG_COUNT, MAX_BYTES,
    MIN_ARG_COUNT, PORT, RATE_CHUNK, RATE_TIME, REPEAT,
};
use tcp_throttle::decimal::parse_number;
use tcp_throttle::error::ConfigError;
use tcp_throttle::plan::Plan;

fn words(list: &[&str]) -> Vec<String> {
    list.iter().map(|w| w.to_string()).collect()
}

#[test]
fn argument_places() {
    assert_eq!((RATE_CHUNK, RATE_TIME, PORT, FILENAME, REPEAT, MAX_BYTES), (1, 2, 3, 4, 5, 6));
    assert_eq!((MIN_ARG_COUNT, MAX_ARG_COUNT), (3, 6));
}

#[test]
fn validate_args_accepts_three_to_six_arguments() {
    assert_eq!(validate_args(&words(&["prog", "500", "1000", "1033"])), Ok(()));
    assert_eq!(validate_args(&words(&["prog", "500", "1000", "1033", "f"])), Ok(()));
    assert_eq!(validate_args(&words(&["prog", "500", "1000", "1033", "f", "true"])), Ok(()));
    assert_eq!(validate_args(&words(&["prog", "500", "1000", "1033", "f", "true", "9"])), Ok(()));
}

#[test]
fn validate_args_rejects_too_few_and_too_many() {
    assert_eq!(validate_args(&words(&[])), Err(ConfigError::ArgumentCount));
    assert_eq!(validate_args(&words(&["prog"])), Err(ConfigError::ArgumentCount));
    assert_eq!(validate_args(&words(&["prog", "500", "1000"])), Err(ConfigError::ArgumentCount));
    assert_eq!(
        validate_args(&words(&["prog", "500", "1000", "1033", "f", "true", "9", "x"])),
        Err(ConfigError::ArgumentCount)
    );
}

#[test]
fn read_port_reads_the_third_argument() {
    assert_eq!(read_port(&words(&["prog", "500", "1000", "1033"])), Ok(1033));
    assert_eq!(read_port(&words(&["prog", "x", "y", "0"])), Ok(0));
    assert_eq!(read_port(&words(&["prog", "x", "y", "65535", "f", "maybe", "z"])), Ok(65535));
    assert_eq!(read_port(&words(&["prog", "x", "y", "+8080"])), Ok(8080));
    assert_eq!(read_port(&words(&["prog", "x", "y", "0008080"])), Ok(8080));
}

#[test]
fn read_port_rejects_what_is_not_a_port() {
    for bad in ["65536", "70000", "-1", "", "+", "80a", " 80", "80 ", "8_0", "0x50", "8.0", "٨٠", "99999999999999999999999"] {
        assert_eq!(read_port(&words(&["prog", "500", "1000", bad])), Err(ConfigError::InvalidPort), "{bad:?}");
    }
}

#[test]
fn read_port_checks_the_count_first() {
    assert_eq!(read_port(&words(&["prog", "500", "1000"])), Err(ConfigError::ArgumentCount));
    assert_eq!(
        read_port(&words(&["prog", "500", "1000", "bad", "f", "true", "9", "x"])),
        Err(ConfigError::ArgumentCount)
    );
}

#[test]
fn parse_number_agrees_with_the_standard_parser() {
    let samples = [
        "0", "1", "9", "10", "42", "500", "1033", "65535", "65536", "000", "+0", "+65535", "+65536", "++1",
        "+-1", "-0", "-1", "", "+", "-", " ", " 1", "1 ", "1 2", "1_000", "1e3", "0x10", "١٢٣", "１２", "12é",
        "é12", "4294967295", "4294967296", "18446744073709551615", "18446744073709551616",
        "000000000000000000000000000000000000065535", "99999999999999999999999999", "/", ":", "1/", "1:",
    ];
    for s in samples {
        assert_eq!(parse_number(s, u16::MAX as u64), s.parse::<u16>().ok().map(u64::from), "{s:?} as u16");
        assert_eq!(parse_number(s, u32::MAX as u64), s.parse::<u32>().ok().map(u64::from), "{s:?} as u32");
        assert_eq!(parse_number(s, u64::MAX), s.parse::<u64>().ok(), "{s:?} as u64");
    }
}

#[test]
fn parse_number_exact_values() {
    assert_eq!(parse_number("8080", 65535), Some(8080));
    assert_eq!(parse_number("65535", 65535), Some(65535));
    assert_eq!(parse_number("65536", 65535), None);
    assert_eq!(parse_number("7", 0), None);
    assert_eq!(parse_number("0", 0), Some(0));
    assert_eq!(parse_number("18446744073709551615", u64::MAX), Some(u64::MAX));
    assert_eq!(parse_number("18446744073709551616", u64::MAX), None);
}

#[test]
fn parse_flag_ignores_case() {
    for yes in ["true", "TRUE", "True", "tRuE"] {
        assert_eq!(parse_flag(yes), Some(true));
    }
    for no in ["false", "FALSE", "False", "fAlSe"] {
        assert_eq!(parse_flag(no), Some(false));
    }
}

#[test]
fn parse_flag_rejects_other_words() {
    for bad in ["", "yes", "no", "1", "0", "tru", "truee", " true", "true ", "t", "falsee", "fals", "ｔｒｕｅ", "trüe", "\u{212a}", "fal\u{17f}e"] {
        assert_eq!(parse_flag(bad), None, "{bad:?}");
    }
}

#[test]
fn parse_flag_agrees_with_lowercasing() {
    let samples = [
        "true", "TRUE", "TrUe", "false", "FALSE", "FaLsE", "", "yes", "True ", "ＴＲＵＥ", "TRÜE", "İ", "fal\u{17f}e",
        "FAL\u{17f}E", "\u{212a}", "truE", "falsE", "t\u{0}ue", "TRUE\u{0}",
    ];
    for s in samples {
        let expected = match s.to_lowercase().as_str() {
            "true" => Some(true),
            "false" => Some(false),
            _ => None,
        };
        assert_eq!(parse_flag(s), expected, "{s:?}");
    }
}

#[test]
fn read_args_with_three_arguments_uses_defaults() {
    let found = read_args(&words(&["prog", "500", "1000", "1033"])).unwrap();
    assert_eq!(found.rate_chunk, 500);
    assert_eq!(found.rate_time, 1000);
    assert_eq!(found.filename, None);
    assert!(!found.repeat);
    assert_eq!(found.max_bytes, None);
}

#[test]
fn read_args_with_all_arguments() {
    let found = read_args(&words(&["prog", "64", "0", "8080", "/tmp/raw.data", "TRUE", "4096"])).unwrap();
    assert_eq!(found.rate_chunk, 64);
    assert_eq!(found.rate_time, 0);
    assert_eq!(found.filename, Some("/tmp/raw.data".to_string()));
    assert!(found.repeat);
    assert_eq!(found.max_bytes, Some(4096));
}

#[test]
fn read_args_with_filename_only() {
    let found = read_args(&words(&["prog", "64", "10", "8080", "data.bin"])).unwrap();
    assert_eq!(found.filename, Some("data.bin".to_string()));
    assert!(!found.repeat);
    assert_eq!(found.max_bytes, None);
}

#[test]
fn read_args_with_repeat_false() {
    let found = read_args(&words(&["prog", "64", "10", "8080", "data.bin", "False"])).unwrap();
    assert!(!found.repeat);
    assert_eq!(found.max_bytes, None);
}

#[test]
fn read_args_does_not_look_at_the_port() {
    let found = read_args(&words(&["prog", "64", "10", "not-a-port"])).unwrap();
    assert_eq!(found.rate_chunk, 64);
}

#[test]
fn read_args_rejects_zero_chunk_size() {
    assert_eq!(
        read_args(&words(&["prog", "0", "1000", "1033", "f.txt"])).err(),
        Some(ConfigError::ZeroChunkSize)
    );
    for zero in ["0", "+0", "000"] {
        assert_eq!(
            read_args(&words(&["prog", zero, "1000", "1033"])).err(),
            Some(ConfigError::ZeroChunkSize),
            "{zero:?}"
        );
    }
}

#[test]
fn read_args_rejects_zero_cap() {
    assert_eq!(
        read_args(&words(&["prog", "4", "0", "80", "f.txt", "false", "0"])).err(),
        Some(ConfigError::ZeroMaxBytes)
    );
    for zero in ["0", "+0", "000"] {
        assert_eq!(
            read_args(&words(&["prog", "4", "10", "80", "f.txt", "true", zero])).err(),
            Some(ConfigError::ZeroMaxBytes),
            "{zero:?}"
        );
    }
}

#[test]
fn read_args_accepts_zero_interval_and_smallest_sizes() {
    let found = read_args(&words(&["prog", "1", "0", "0", "f", "false", "1"])).unwrap();
    assert_eq!(found.rate_chunk, 1);
    assert_eq!(found.rate_time, 0);
    assert_eq!(found.max_bytes, Some(1));
}

#[test]
fn read_args_reports_zero_in_its_place_from_the_left() {
    // A zero chunk size comes before anything wrong to its right.
    assert_eq!(
        read_args(&words(&["prog", "0", "b", "c", "f", "d", "e"])).err(),
        Some(ConfigError::ZeroChunkSize)
    );
    assert_eq!(
        read_args(&words(&["prog", "0", "1", "c", "f", "true", "0"])).err(),
        Some(ConfigError::ZeroChunkSize)
    );
    // A zero cap comes after anything wrong to its left.
    assert_eq!(
        read_args(&words(&["prog", "1", "b", "c", "f", "true", "0"])).err(),
        Some(ConfigError::InvalidRateTime)
    );
    assert_eq!(
        read_args(&words(&["prog", "1", "2", "c", "f", "d", "0"])).err(),
        Some(ConfigError::InvalidRepeat)
    );
    assert_eq!(
        read_args(&words(&["prog", "x", "2", "c", "f", "true", "0"])).err(),
        Some(ConfigError::InvalidRateChunk)
    );
}

#[test]
fn settings_that_are_read_always_make_a_plan() {
    let largest = usize::MAX.to_string();
    let lines = [
        words(&["prog", "500", "1000", "1033"]),
        words(&["prog", "1", "0", "80", "f"]),
        words(&["prog", "64", "10", "80", "f", "TRUE"]),
        words(&["prog", "64", "10", "80", "f", "false", "1"]),
        words(&["prog", largest.as_str(), "0", "80", "f", "false", largest.as_str()]),
    ];
    for line in &lines {
        let found = read_args(line).unwrap();
        assert!(found.rate_chunk >= 1);
        assert_ne!(found.max_bytes, Some(0));
        for payload in [Vec::new(), vec![7u8; 10]] {
            let plan = Plan::new(payload, found.rate_chunk, found.rate_time, found.repeat, found.max_bytes);
            assert!(plan.is_ok());
        }
    }
}

#[test]
fn read_args_reports_each_error() {
    assert_eq!(read_args(&words(&["prog", "500", "1000"])).err(), Some(ConfigError::ArgumentCount));
    assert_eq!(read_args(&words(&["prog", "5x", "1000", "80"])).err(), Some(ConfigError::InvalidRateChunk));
    assert_eq!(read_args(&words(&["prog", "500", "1s", "80"])).err(), Some(ConfigError::InvalidRateTime));
    assert_eq!(
        read_args(&words(&["prog", "500", "1000", "80", "f", "yes"])).err(),
        Some(ConfigError::InvalidRepeat)
    );
    assert_eq!(
        read_args(&words(&["prog", "500", "1000", "80", "f", "true", "many"])).err(),
        Some(ConfigError::InvalidMaxBytes)
    );
}

#[test]
fn read_args_reports_the_leftmost_error() {
    assert_eq!(
        read_args(&words(&["prog", "a", "b", "c", "f", "d", "e"])).err(),
        Some(ConfigError::InvalidRateChunk)
    );
    assert_eq!(
        read_args(&words(&["prog", "1", "b", "c", "f", "d", "e"])).err(),
        Some(ConfigError::InvalidRateTime)
    );
    assert_eq!(
        read_args(&words(&["prog", "1", "2", "c", "f", "d", "e"])).err(),
        Some(ConfigError::InvalidRepeat)
    );
    assert_eq!(
        read_args(&words(&["prog", "1", "2", "c", "f", "true", "e"])).err(),
        Some(ConfigError::InvalidMaxBytes)
    );
}

#[test]
fn read_args_rejects_numbers_too_large_for_their_type() {
    assert_eq!(
        read_args(&words(&["prog", "99999999999999999999999999", "1", "80"])).err(),
        Some(ConfigError::InvalidRateChunk)
    );
    assert_eq!(
        read_args(&words(&["prog", "1", "18446744073709551616", "80"])).err(),
        Some(ConfigError::InvalidRateTime)
    );
    let largest = usize::MAX.to_string();
    let found = read_args(&words(&["prog", largest.as_str(), "18446744073709551615", "80"])).unwrap();
    assert_eq!(found.rate_chunk, usize::MAX);
    assert_eq!(found.rate_time, u64::MAX);
}
