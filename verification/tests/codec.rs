use ipmi_fan::error::Error;
use ipmi_fan::hex::decode_duty;
use ipmi_fan::hex::encode_duty;
use ipmi_fan::ipmi::Cmd;

#[test]
fn encode_pads_bytes_to_two_digits() {
    assert_eq!(encode_duty(0), "0x00");
    assert_eq!(encode_duty(10), "0x0a");
    assert_eq!(encode_duty(16), "0x10");
    assert_eq!(encode_duty(255), "0xff");
}

#[test]
fn encode_passes_out_of_range_values_through() {
    // No range validation: values over 0xff keep their natural width.
    assert_eq!(encode_duty(256), "0x100");
    assert_eq!(encode_duty(1000), "0x3e8");
    assert_eq!(encode_duty(65535), "0xffff");
}

#[test]
fn duty_round_trip_is_lossless_over_the_byte_range() {
    for v in 0..=255u16 {
        assert_eq!(decode_duty(&encode_duty(v)), Some(v));
    }
}

#[test]
fn decode_rejects_malformed_literals() {
    assert_eq!(decode_duty(""), None);
    assert_eq!(decode_duty("0x"), None);
    assert_eq!(decode_duty("10"), None);
    assert_eq!(decode_duty("0X0a"), None);
    assert_eq!(decode_duty("0x0A"), None);
    assert_eq!(decode_duty("0xg1"), None);
    assert_eq!(decode_duty("0x10000"), None);
}

#[test]
fn raw_command_args_follow_the_protocol() {
    let cmd = Cmd::new();
    for f in 0..=4u16 {
        let args = cmd.raw_command_args(f, 10);
        assert_eq!(args.len(), 6);
        assert_eq!(args[0], "raw");
        assert_eq!(args[1], "0x30");
        assert_eq!(args[2], "0x30");
        assert_eq!(args[3], "0x02");
        assert_eq!(args[4], encode_duty(f));
        assert_eq!(args[5], "0x0a");
    }
    assert_eq!(cmd.raw_command_args(3, 255)[4], "0x03");
    assert_eq!(cmd.raw_command_args(3, 255)[5], "0xff");
}

#[test]
fn dump_queries_use_the_fixed_argument_vectors() {
    let cmd = Cmd::new();
    assert_eq!(cmd.program(), "ipmitool");
    assert_eq!(cmd.fan_temp_dump_args(), vec!["sdr", "list", "full"]);
    assert_eq!(cmd.cpu_temp_dump_args(), vec!["sdr", "type", "Temperature"]);
}

#[test]
fn interpret_output_splits_on_exit_status() {
    let cmd = Cmd::new();
    let ok = cmd.interpret_output(0, String::from("all good"), String::from(""));
    assert_eq!(ok, Ok(String::from("all good")));
    let err = cmd.interpret_output(1, String::from(""), String::from("permission denied"));
    assert_eq!(
        err,
        Err(Error::NonZeroExit { code: 1, stderr: String::from("permission denied") })
    );
}
