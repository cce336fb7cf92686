use std::cell::RefCell;
use std::rc::Rc;

use ipmi_fan::error::Error;
use ipmi_fan::ipmi::Executer;
use ipmi_fan::ipmi::Ipmi;
use ipmi_fan::ipmi::IpmiTool;

struct MockCommand {}

impl Executer for MockCommand {
    fn run_fan_temp_dump(&self) -> Result<String, Error> {
        let output = "
Airflow                  | 26 CFM            | ok
Temp_Outlet              | 29 degrees C      | ok
Temp_CPU0                | 35 degrees C      | ok
Temp_CPU1                | 34 degrees C      | ok
Temp_DIMM_AB             | 28 degrees C      | ok
Temp_DIMM_CD             | 28 degrees C      | ok
Temp_DIMM_EF             | 28 degrees C      | ok
Temp_DIMM_GH             | 28 degrees C      | ok
Temp_PCH                 | 36 degrees C      | ok
Temp_VR_CPU0             | 28 degrees C      | ok
Temp_VR_CPU1             | 28 degrees C      | ok
Temp_VR_DIMM_AB          | 29 degrees C      | ok
Temp_VR_DIMM_CD          | 27 degrees C      | ok
Temp_VR_DIMM_EF          | 29 degrees C      | ok
Temp_VR_DIMM_GH          | 27 degrees C      | ok
Temp_PCI1_Outlet         | 31 degrees C      | ok
Temp_PCI2_Outlet         | 35 degrees C      | ok
Temp_Inlet               | 24 degrees C      | ok
Temp_CPU0_Inlet          | 28 degrees C      | ok
Temp_CPU1_Inlet          | 27 degrees C      | ok
Temp_OCP_MEZZ            | 57 degrees C      | ok
Temp_SYS_Outlet          | 29 degrees C      | ok
Fan_SYS0_1               | 8700 RPM          | ok
Fan_SYS0_2               | 7300 RPM          | ok
Fan_SYS1_1               | 8800 RPM          | ok
Fan_SYS1_2               | 7300 RPM          | ok
Fan_SYS2_1               | 8900 RPM          | ok
Fan_SYS2_2               | 7200 RPM          | ok
Fan_SYS3_1               | 9000 RPM          | ok
Fan_SYS3_2               | 7200 RPM          | ok
Fan_SYS4_1               | 8700 RPM          | ok
Fan_SYS4_2               | 7300 RPM          | ok
Volt_P3V3                | 3.35 Volts        | ok
Volt_P5V                 | 5.01 Volts        | ok
Volt_P12V                | 12.12 Volts       | ok
Volt_P1V05               | 1.04 Volts        | ok
Volt_P1V8_AUX            | 1.81 Volts        | ok
Volt_P3V3_AUX            | 3.31 Volts        | ok
Volt_P5V_AUX             | 5.03 Volts        | ok
Volt_P3V_BAT             | 3.13 Volts        | ok
Volt_VR_CPU0             | 1.79 Volts        | ok
Volt_VR_CPU1             | 1.79 Volts        | ok
Volt_VR_DIMM_AB          | 1.21 Volts        | ok
Volt_VR_DIMM_CD          | 1.21 Volts        | ok
Volt_VR_DIMM_EF          | 1.22 Volts        | ok
Volt_VR_DIMM_GH          | 1.22 Volts        | ok
PSU1_Input               | 84 Watts          | ok
PSU2_Input               | 0 Watts           | cr
            ";
        Ok(output.to_string())
    }

    fn run_cpu_temp_dump(&self) -> Result<String, Error> {
        let output = "
Temp_Outlet              | 1Fh | ok  |  7.1 | 30 degrees C
DCMI Therm Limit | A2h | ns  |  7.31 | Event-Only
Temp_CPU0                | 70h | ok  | 65.1 | 36 degrees C
Temp_CPU1                | 71h | ok  | 65.2 | 34 degrees C
Temp_DIMM_AB             | 72h | ok  | 66.1 | 28 degrees C
Temp_DIMM_CD             | 73h | ok  | 66.2 | 29 degrees C
Temp_DIMM_EF             | 74h | ok  | 66.3 | 29 degrees C
Temp_DIMM_GH             | 75h | ok  | 66.4 | 29 degrees C
Temp_PCH                 | 76h | ok  | 66.5 | 37 degrees C
Temp_VR_CPU0             | 77h | ok  | 66.6 | 28 degrees C
Temp_VR_CPU1             | 78h | ok  | 66.7 | 28 degrees C
Temp_VR_DIMM_AB          | 79h | ok  | 66.8 | 29 degrees C
Temp_VR_DIMM_CD          | 7Ah | ok  | 66.9 | 27 degrees C
Temp_VR_DIMM_EF          | 7Bh | ok  | 66.10 | 29 degrees C
Temp_VR_DIMM_GH          | 7Ch | ok  | 66.11 | 27 degrees C
Temp_PCI1_Outlet         | 7Dh | ok  | 66.12 | 32 degrees C
Temp_PCI2_Outlet         | 7Eh | ok  | 66.13 | 36 degrees C
Temp_Inlet               | 7Fh | ok  | 64.1 | 25 degrees C
Temp_CPU0_Inlet          | A8h | ok  | 66.14 | 28 degrees C
Temp_CPU1_Inlet          | A9h | ok  | 66.15 | 27 degrees C
Temp_OCP_MEZZ            | AAh | ok  | 66.16 | 58 degrees C
Temp_SYS_Outlet          | B5h | ok  | 66.27 | 30 degrees C
PCH Thermal Trip         | BCh | ok  |  7.6 |
MB Thermal Trip          | BDh | ok  |  7.7 |
            ";
        Ok(output.to_string())
    }

    fn run_raw_command(&self, _fan: u16, _duty: u16) -> Result<(), Error> {
        Ok(())
    }
}

#[test]
fn test_mock_works() {
    let cmd = MockCommand {};
    assert!(cmd.run_fan_temp_dump().is_ok());
}

#[test]
fn test_ipmi_tool() {
    let ipmi = IpmiTool::new(MockCommand {});

    let res = ipmi.get_info_fan_temp();
    assert!(res.is_ok());
    println!("{}", res.unwrap());

    let res = ipmi.get_cpu_temperature();
    assert!(res.is_ok());
    assert_eq!(36, res.unwrap());

    let res = ipmi.set_fan_speed(4, 10);
    assert!(res.is_ok());
}

/// A double that records every raw command it is asked for, and fails
/// the attempt whose zero-based index equals `fail_at`.
struct Recorder {
    calls: Rc<RefCell<Vec<(u16, u16)>>>,
    fail_at: Option<usize>,
}

impl Executer for Recorder {
    fn run_fan_temp_dump(&self) -> Result<String, Error> {
        Ok(String::new())
    }

    fn run_cpu_temp_dump(&self) -> Result<String, Error> {
        Ok(String::new())
    }

    fn run_raw_command(&self, fan: u16, duty: u16) -> Result<(), Error> {
        let n = self.calls.borrow().len();
        self.calls.borrow_mut().push((fan, duty));
        if Some(n) == self.fail_at {
            return Err(Error::NonZeroExit { code: 1, stderr: String::from("boom") });
        }
        Ok(())
    }
}

#[test]
fn set_fan_speed_issues_five_ascending_commands() {
    let calls = Rc::new(RefCell::new(Vec::new()));
    let ipmi = IpmiTool::new(Recorder { calls: calls.clone(), fail_at: None });
    assert!(ipmi.set_fan_speed(4, 10).is_ok());
    assert_eq!(*calls.borrow(), vec![(0, 10), (1, 10), (2, 10), (3, 10), (4, 10)]);
}

#[test]
fn set_fan_speed_stops_at_first_failure() {
    let calls = Rc::new(RefCell::new(Vec::new()));
    let ipmi = IpmiTool::new(Recorder { calls: calls.clone(), fail_at: Some(2) });
    let res = ipmi.set_fan_speed(4, 10);
    assert!(matches!(res, Err(Error::NonZeroExit { code: 1, .. })));
    assert_eq!(*calls.borrow(), vec![(0, 10), (1, 10), (2, 10)]);
}
