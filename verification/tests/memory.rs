use runner::memory::{FromStrMemoryError, Memory};

#[test]
fn mega() {
    let memory = Memory::new_megabytes(10);
    assert_eq!(memory.as_megabytes(), 10);
    assert_eq!(memory.as_kilobytes(), 10 * 1024);
    assert_eq!(memory.as_bytes(), 10 * 1024 * 1024);
}

#[test]
fn kilo() {
    let memory = Memory::new_kilobytes(10);
    assert_eq!(memory.as_megabytes(), 0);
    assert_eq!(memory.as_kilobytes(), 10);
    assert_eq!(memory.as_bytes(), 10 * 1024);
}

#[test]
fn bytes() {
    let memory = Memory::new_bytes(10);
    assert_eq!(memory.as_megabytes(), 0);
    assert_eq!(memory.as_kilobytes(), 0);
    assert_eq!(memory.as_bytes(), 10);
}

#[test]
fn from_str() {
    assert_eq!(Memory::from_str("10M").unwrap().as_megabytes(), 10);
    assert_eq!(Memory::from_str("10K").unwrap().as_kilobytes(), 10);
    assert_eq!(Memory::from_str("10B").unwrap().as_bytes(), 10);
    assert_eq!(
        Memory::from_str("10X").unwrap_err(),
        FromStrMemoryError::InvalidSuffix("X".to_string())
    );
    assert_eq!(
        Memory::from_str("10").unwrap_err(),
        FromStrMemoryError::InvalidSuffix("0".to_string())
    );
    assert_eq!(
        Memory::from_str("1").unwrap_err(),
        FromStrMemoryError::ShortLength("1".to_string())
    );
    assert_eq!(
        Memory::from_str("").unwrap_err(),
        FromStrMemoryError::ShortLength("".to_string())
    );
}

#[test]
fn display() {
    assert_eq!(Memory::new_megabytes(10).to_string(), "10M");
    assert_eq!(Memory::new_kilobytes(10).to_string(), "10K");
    assert_eq!(Memory::new_bytes(10).to_string(), "10B");
}

#[test]
fn from_str_rejects_bad_numerals() {
    assert_eq!(
        Memory::from_str("xxM").unwrap_err(),
        FromStrMemoryError::InvalidNumber("xx".to_string())
    );
    // twenty nines exceed u64::MAX
    assert_eq!(
        Memory::from_str("99999999999999999999M").unwrap_err(),
        FromStrMemoryError::InvalidNumber("99999999999999999999".to_string())
    );
    // the numeral fits, but not multiplied by its unit
    assert_eq!(
        Memory::from_str("18446744073709551615M").unwrap_err(),
        FromStrMemoryError::InvalidNumber("18446744073709551615".to_string())
    );
}

#[test]
fn display_then_parse_round_trips() {
    for bytes in [0u64, 10, 1023, 1024, 10 * 1024, 1024 * 1024, 7 * 1024 * 1024] {
        let m = Memory::new_bytes(bytes);
        let parsed = Memory::from_str(&m.to_string()).unwrap();
        assert_eq!(parsed.as_bytes(), bytes);
    }
    // truncated to its display unit when not a whole number of it
    let m = Memory::new_bytes(1024 * 1024 + 1);
    assert_eq!(Memory::from_str(&m.to_string()).unwrap().as_bytes(), 1024 * 1024);
}
