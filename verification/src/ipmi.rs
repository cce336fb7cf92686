//! The two layers of the management interface: an `Executer` that runs
//! one external command, and the `IpmiTool` controller built on top of
//! an injected executor.

use vstd::prelude::*;

use crate::error::Error;
use crate::hex::encode_duty;
use crate::hex::hex_literal_of;
use crate::sensor::cpu_temp_digits;
use crate::sensor::fan_temp_report;
use crate::sensor::filter_fan_temp;
use crate::sensor::parse_cpu_temperature;
use crate::text::digits_val;

verus! {

/// One invocation of the external management tool: each call spawns one
/// synchronous run and hands back its raw text, or how it failed.
///
/// Implementations run the real subprocess or substitute a test double;
/// nothing is assumed here of what an implementation hands back.
pub trait Executer {
    /// The "list all sensors, full detail" query.
    fn run_fan_temp_dump(&self) -> Result<String, Error>;

    /// The "list sensors of type Temperature" query.
    fn run_cpu_temp_dump(&self) -> Result<String, Error>;

    /// The raw low-level command that sets one fan's duty cycle.
    fn run_raw_command(&self, fan: u16, duty: u16) -> Result<(), Error>;
}

/// The concrete command set of the `ipmitool` management interface:
/// which program is run, with which argument vector, and how an exit
/// status and the captured output of a finished run are read. Spawning
/// the process itself is I/O and stays with the embedding program.
pub struct Cmd {}

impl Cmd {
    pub fn new() -> (r: Self) {
        Cmd {}
    }

    /// The program every query and command goes through.
    pub fn program(&self) -> (r: &'static str)
        ensures
            r@ == "ipmitool"@,
    {
        "ipmitool"
    }

    /// Arguments of the full sensor-data-repository listing.
    pub fn fan_temp_dump_args(&self) -> (r: Vec<String>)
        ensures
            r@.len() == 3,
            r@[0]@ == "sdr"@,
            r@[1]@ == "list"@,
            r@[2]@ == "full"@,
    {
        let mut v: Vec<String> = Vec::new();
        v.push(String::from_str("sdr"));
        v.push(String::from_str("list"));
        v.push(String::from_str("full"));
        v
    }

    /// Arguments of the Temperature-type sensor listing.
    pub fn cpu_temp_dump_args(&self) -> (r: Vec<String>)
        ensures
            r@.len() == 3,
            r@[0]@ == "sdr"@,
            r@[1]@ == "type"@,
            r@[2]@ == "Temperature"@,
    {
        let mut v: Vec<String> = Vec::new();
        v.push(String::from_str("sdr"));
        v.push(String::from_str("type"));
        v.push(String::from_str("Temperature"));
        v
    }

    /// Arguments of the raw fan-duty command: the protocol prefix bytes
    /// `0x30 0x30 0x02`, then the fan index and the duty value, each
    /// encoded as a two-digit lowercase hexadecimal byte literal.
    pub fn raw_command_args(&self, fan: u16, duty: u16) -> (r: Vec<String>)
        ensures
            r@.len() == 6,
            r@[0]@ == "raw"@,
            r@[1]@ == "0x30"@,
            r@[2]@ == "0x30"@,
            r@[3]@ == "0x02"@,
            r@[4]@ == hex_literal_of(fan as nat),
            r@[5]@ == hex_literal_of(duty as nat),
    {
        let mut v: Vec<String> = Vec::new();
        v.push(String::from_str("raw"));
        v.push(String::from_str("0x30"));
        v.push(String::from_str("0x30"));
        v.push(String::from_str("0x02"));
        v.push(encode_duty(fan));
        v.push(encode_duty(duty));
        v
    }

    /// Read one finished invocation: a zero exit status yields the
    /// captured standard output; any other status is a non-zero-exit
    /// error carrying that status and the captured standard error text.
    pub fn interpret_output(&self, code: i32, stdout: String, stderr: String) -> (r: Result<
        String,
        Error,
    >)
        ensures
            code == 0 ==> r == Result::<String, Error>::Ok(stdout),
            code != 0 ==> r == Result::<String, Error>::Err(Error::NonZeroExit { code, stderr }),
    {
        if code == 0 {
            Result::Ok(stdout)
        } else {
            Result::Err(Error::NonZeroExit { code, stderr })
        }
    }
}

/// The domain-level sensor and actuator API a fan controller calls.
pub trait Ipmi {
    /// The fan/temperature report of the current sensor dump. Whatever
    /// dump the executor hands back, a successful result is exactly
    /// that dump's lines that start with "fan" or contain "temp"
    /// (case-insensitively), in order, newline-terminated.
    fn get_info_fan_temp(&self) -> (r: Result<String, Error>)
        ensures
            r matches Result::Ok(s) ==> exists|t: Seq<char>| s@ == #[trigger] fan_temp_report(t),
    ;

    /// The CPU-zero temperature in degrees Celsius. Whatever dump the
    /// executor hands back, a successful result is the value of the
    /// digit run before the first " degrees" of that dump's first
    /// "temp_cpu0" line.
    fn get_cpu_temperature(&self) -> (r: Result<u16, Error>)
        ensures
            r matches Result::Ok(v) ==> exists|t: Seq<char>|
                #[trigger] cpu_temp_digits(t) matches Some(d) && d.len() > 0 && digits_val(d)
                    == v as nat,
    ;

    /// Ask for every fan index in `0..=fans` — the range is inclusive,
    /// so `fans + 1` commands are issued — to be set to `speed`, in
    /// ascending index order, stopping at the first failure. There is
    /// no rollback: commands already issued stay issued.
    fn set_fan_speed(&self, fans: u16, speed: u16) -> Result<(), Error>;
}

/// The controller: domain operations built strictly on an injected
/// executor, so that a test double can stand in for the real tool.
pub struct IpmiTool<E: Executer> {
    cmd: E,
}

impl<E: Executer> IpmiTool<E> {
    pub fn new(cmd: E) -> (r: Self) {
        IpmiTool { cmd }
    }
}

impl<E: Executer> Ipmi for IpmiTool<E> {
    fn get_info_fan_temp(&self) -> (r: Result<String, Error>) {
        let dump = match self.cmd.run_fan_temp_dump() {
            Result::Ok(d) => d,
            Result::Err(e) => {
                return Result::Err(e);
            },
        };
        let report = filter_fan_temp(dump.as_str());
        proof {
            assert(report@ == fan_temp_report(dump@));
        }
        Result::Ok(report)
    }

    fn get_cpu_temperature(&self) -> (r: Result<u16, Error>) {
        let dump = match self.cmd.run_cpu_temp_dump() {
            Result::Ok(d) => d,
            Result::Err(e) => {
                return Result::Err(e);
            },
        };
        let r = parse_cpu_temperature(dump.as_str());
        proof {
            match r {
                Result::Ok(v) => {
                    assert(cpu_temp_digits(dump@) matches Some(d) && d.len() > 0 && digits_val(d)
                        == v as nat);
                },
                Result::Err(_) => {},
            }
        }
        r
    }

    fn set_fan_speed(&self, fans: u16, speed: u16) -> Result<(), Error> {
        let mut f: u32 = 0;
        while f <= fans as u32
            invariant
                f <= fans as u32 + 1,
            decreases fans as u32 + 1 - f,
        {
            match self.cmd.run_raw_command(f as u16, speed) {
                Result::Ok(_) => {},
                Result::Err(e) => {
                    return Result::Err(e);
                },
            }
            f += 1;
        }
        Result::Ok(())
    }
}

} // verus!
