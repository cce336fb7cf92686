use ipmi_fan::error::dec_i32_string;
use ipmi_fan::error::Error;

#[test]
fn nonzero_exit_message_surfaces_code_and_stderr() {
    let e = Error::NonZeroExit { code: 1, stderr: String::from("permission denied") };
    let msg = e.message();
    assert_eq!(msg, "status:1, stderr: permission denied");
    assert!(msg.contains("1"));
    assert!(msg.contains("permission denied"));
}

#[test]
fn messages_of_the_other_variants() {
    let e = Error::LaunchFailure { detail: String::from("no such file") };
    assert_eq!(e.message(), "launch failure: no such file");
    assert_eq!(Error::NotFound.message(), "not found");
    let e = Error::ParseFailure { digits: String::from("70000") };
    assert_eq!(e.message(), "parse failure: 70000");
}

#[test]
fn decimal_rendering_handles_signs() {
    assert_eq!(dec_i32_string(0), "0");
    assert_eq!(dec_i32_string(7), "7");
    assert_eq!(dec_i32_string(255), "255");
    assert_eq!(dec_i32_string(-5), "-5");
    assert_eq!(dec_i32_string(i32::MAX), "2147483647");
    assert_eq!(dec_i32_string(i32::MIN), "-2147483648");
}
