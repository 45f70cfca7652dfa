use getinfo::dispatch::{
    clock_outcome, directive_of, invalid_command, lookup, ClockReading, Handler,
};

#[test]
fn gettime_is_the_clock_directive() {
    assert_eq!(lookup("gettime"), Some(Handler::Clock));
}

#[test]
fn unknown_directives_have_no_handler() {
    assert_eq!(lookup("foo"), None);
    assert_eq!(lookup(""), None);
    assert_eq!(lookup("gettim"), None);
    assert_eq!(lookup("gettimes"), None);
    assert_eq!(lookup("settime"), None);
}

#[test]
fn the_match_is_exact_and_case_sensitive() {
    assert_eq!(lookup("GETTIME"), None);
    assert_eq!(lookup("GetTime"), None);
    assert_eq!(lookup(" gettime"), None);
    assert_eq!(lookup("gettime\n"), None);
}

#[test]
fn invalid_command_is_the_fixed_outcome() {
    assert_eq!(invalid_command(), "invalid command");
}

#[test]
fn clock_output_is_returned_as_it_came() {
    let stamp = b"Sun Nov 26 12:53:47 CST 2023\n".to_vec();
    let outcome = clock_outcome(ClockReading::Output(stamp));
    assert_eq!(outcome, "Sun Nov 26 12:53:47 CST 2023\n");
    assert!(!outcome.is_empty());
    assert_ne!(outcome, "Failed to execute command");
    assert_ne!(outcome, "Error converting output to string");
}

#[test]
fn clock_output_beyond_ascii_is_decoded() {
    let outcome = clock_outcome(ClockReading::Output("2023年11月26日 星期日".as_bytes().to_vec()));
    assert_eq!(outcome, "2023年11月26日 星期日");
    assert_eq!(clock_outcome(ClockReading::Output(vec![])), "");
}

#[test]
fn failed_clock_gives_the_fixed_sentence() {
    assert_eq!(clock_outcome(ClockReading::Failed), "Failed to execute command");
}

#[test]
fn clock_output_that_is_not_text_gives_the_fixed_sentence() {
    assert_eq!(
        clock_outcome(ClockReading::Output(vec![0xff, 0xfe])),
        "Error converting output to string"
    );
    assert_eq!(
        clock_outcome(ClockReading::Output(vec![b'o', b'k', 0xc3])),
        "Error converting output to string"
    );
}

#[test]
fn directive_of_reads_utf8_and_refuses_the_rest() {
    assert_eq!(directive_of(b"gettime".to_vec()), Some("gettime".to_string()));
    assert_eq!(directive_of(vec![]), Some(String::new()));
    assert_eq!(directive_of("héllo".as_bytes().to_vec()), Some("héllo".to_string()));
    assert_eq!(directive_of(vec![0x80]), None);
    assert_eq!(directive_of(vec![0xed, 0xa0, 0x80]), None);
}
