use mediocore::Core;
use mediocore::CoreError;
use mediocore::core_number_from_name;
use mediocore::parse_freq;
use mediocore::strip_control_chars;

#[test]
fn parse_freq_plain_number() {
    assert_eq!(parse_freq("800000"), Ok(800000));
    assert_eq!(parse_freq("0"), Ok(0));
    assert_eq!(parse_freq("4294967295"), Ok(u32::MAX));
}

#[test]
fn parse_freq_strips_control_characters() {
    assert_eq!(parse_freq("2500000\n"), Ok(2500000));
    assert_eq!(parse_freq("\t900000\r\n"), Ok(900000));
}

#[test]
fn parse_freq_rejects_non_digits() {
    assert_eq!(parse_freq(""), Err(CoreError::MalformedAttribute));
    assert_eq!(parse_freq("\n"), Err(CoreError::MalformedAttribute));
    assert_eq!(parse_freq("12a3"), Err(CoreError::MalformedAttribute));
    assert_eq!(parse_freq("-5"), Err(CoreError::MalformedAttribute));
    assert_eq!(parse_freq("80 000"), Err(CoreError::MalformedAttribute));
}

#[test]
fn parse_freq_rejects_values_beyond_u32() {
    assert_eq!(parse_freq("4294967296"), Err(CoreError::MalformedAttribute));
    assert_eq!(parse_freq("99999999999"), Err(CoreError::MalformedAttribute));
}

#[test]
fn strip_control_chars_keeps_printable_text() {
    assert_eq!(strip_control_chars("performance powersave\n"), "performance powersave");
    assert_eq!(strip_control_chars("a\tb\rc\nd"), "abcd");
    assert_eq!(strip_control_chars(""), "");
}

#[test]
fn core_number_from_directory_name() {
    assert_eq!(core_number_from_name("cpu0"), Ok(0));
    assert_eq!(core_number_from_name("cpu12"), Ok(12));
    assert_eq!(core_number_from_name("cpucpu5"), Ok(5));
    assert_eq!(core_number_from_name("cpu"), Err(CoreError::MalformedAttribute));
    assert_eq!(core_number_from_name("cpu1x"), Err(CoreError::MalformedAttribute));
    assert_eq!(core_number_from_name("node0"), Err(CoreError::MalformedAttribute));
}

#[test]
fn discover_parses_attribute_texts() {
    let c = Core::discover(
        "cpu3",
        "800000\n",
        "2500000\n",
        "850000\n",
        "900000\n",
        "powersave\n",
        "performance powersave \n",
    )
    .unwrap();
    assert_eq!(c.num(), 3);
    assert_eq!(c.cpu_min(), 800000);
    assert_eq!(c.cpu_max(), 2500000);
    assert_eq!(c.curr_min(), 850000);
    assert_eq!(c.curr_max(), 900000);
    assert_eq!(c.curr_gov(), "powersave");
    assert_eq!(c.available_govs().len(), 2);
    assert_eq!(c.available_govs()[0], "performance");
    assert_eq!(c.available_govs()[1], "powersave");
}

#[test]
fn discover_rejects_bad_attribute_texts() {
    let ok = ("cpu0", "800000", "2500000", "850000", "900000", "powersave", "performance powersave");

    let r = Core::discover("cpu0", "junk", ok.2, ok.3, ok.4, ok.5, ok.6);
    assert_eq!(r.err(), Some(CoreError::MalformedAttribute));

    let r = Core::discover("cpux", ok.1, ok.2, ok.3, ok.4, ok.5, ok.6);
    assert_eq!(r.err(), Some(CoreError::MalformedAttribute));

    // scaling bounds inverted
    let r = Core::discover("cpu0", ok.1, ok.2, "900000", "850000", ok.5, ok.6);
    assert_eq!(r.err(), Some(CoreError::MalformedAttribute));

    // active governor not among the available ones
    let r = Core::discover("cpu0", ok.1, ok.2, ok.3, ok.4, "ondemand", ok.6);
    assert_eq!(r.err(), Some(CoreError::MalformedAttribute));

    // repeated entry in the governor list
    let r = Core::discover("cpu0", ok.1, ok.2, ok.3, ok.4, ok.5, "powersave powersave");
    assert_eq!(r.err(), Some(CoreError::MalformedAttribute));
}
