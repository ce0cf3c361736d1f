use runner::time::MsTime;

#[test]
fn parses_minutes_seconds_millis() {
    assert_eq!(MsTime::from_str_mm_ss_ms("01:02.345"), Some(MsTime::new_ms(62345)));
}

#[test]
fn parse_reads_the_millis_field_as_a_number() {
    // "3" in the millisecond field means three milliseconds
    assert_eq!(MsTime::from_str_mm_ss_ms("1:2.3"), Some(MsTime::new_ms(62003)));
    assert_eq!(MsTime::from_str_mm_ss_ms("0:00.05"), Some(MsTime::new_ms(5)));
}

#[test]
fn parse_ignores_anything_after_a_second_colon() {
    assert_eq!(MsTime::from_str_mm_ss_ms("01:02.345:zz"), Some(MsTime::new_ms(62345)));
}

#[test]
fn parse_rejects_malformed_times() {
    assert_eq!(MsTime::from_str_mm_ss_ms(""), None);
    assert_eq!(MsTime::from_str_mm_ss_ms("123"), None);
    assert_eq!(MsTime::from_str_mm_ss_ms("1:23"), None);
    assert_eq!(MsTime::from_str_mm_ss_ms("1:2.3.4"), None);
    assert_eq!(MsTime::from_str_mm_ss_ms("1:2.1000"), None);
    assert_eq!(MsTime::from_str_mm_ss_ms("x:2.3"), None);
    assert_eq!(MsTime::from_str_mm_ss_ms("1:x.3"), None);
    assert_eq!(MsTime::from_str_mm_ss_ms("1:2.x"), None);
}

#[test]
fn constructors_and_accessors() {
    assert_eq!(MsTime::new(62, 345).as_ms(), 62345);
    assert_eq!(MsTime::new_seconds(2).as_ms(), 2000);
    assert_eq!(MsTime::new_ms(1500).add_seconds(1).as_ms(), 2500);
    assert_eq!(MsTime::new_ms(1500).add_ms(10).as_ms(), 1510);
}

#[test]
fn seconds_round_up() {
    assert_eq!(MsTime::new_ms(0).as_seconds_ceil(), 0);
    assert_eq!(MsTime::new_ms(1).as_seconds_ceil(), 1);
    assert_eq!(MsTime::new_ms(1000).as_seconds_ceil(), 1);
    assert_eq!(MsTime::new_ms(1001).as_seconds_ceil(), 2);
}
