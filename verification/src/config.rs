//! Process configuration: Ethernet endpoint, DoIP addressing and the
//! tester parameters, with the hex-field parsing that builds them from
//! the configuration file's strings.

use vstd::prelude::*;

use crate::common::{
    parse_hex_u16, parse_hex_u8, spec_parse_hex, spec_trim_0x, trim_0x,
};
use crate::error::TesterError;

verus! {

/// Remote endpoint and role selection.
#[derive(Debug, Clone)]
pub struct Ethernet {
    pub interface: String,
    pub local_ipv4: Option<String>,
    pub local_ipv6: Option<String>,
    pub remote_ip: String,
    pub remote_port: String,
    pub role: String,
    pub vendor: String,
}

/// DoIP addressing: protocol version with its inverse, the logical
/// addresses, and the routing-activation code.
#[derive(Debug, Clone, PartialEq, Eq, Structural)]
pub struct Doip {
    pub version: u8,
    pub inverse_version: u8,
    pub tester_addr: u16,
    pub ecu_addr: u16,
    pub sga_addr: u16,
    pub activation_code: u8,
}

/// Tester parameters from the configuration file.
#[derive(Debug, Clone)]
pub struct Parameters {
    pub vin: String,
    pub tester_present: bool,
    pub tester_present_interval: String,
}

/// The whole configuration.
#[derive(Debug, Clone)]
pub struct Config {
    pub ethernet: Ethernet,
    pub doip: Doip,
    pub parameter: Parameters,
}

/// Whether a hex field parses to a value within `bound`.
pub open spec fn spec_hex_field_ok(s: Seq<char>, bound: int) -> bool {
    match spec_parse_hex(spec_trim_0x(s)) {
        Some(v) => v <= bound,
        None => false,
    }
}

/// The value of a hex field that parses.
pub open spec fn spec_hex_field_val(s: Seq<char>) -> int {
    spec_parse_hex(spec_trim_0x(s)).unwrap()
}

/// Builds the configuration from the file's string fields. Each DoIP
/// field is a hex string with an optional `0x` prefix; a field that
/// does not parse, or does not fit its width, is rejected.
pub fn config_from_strings(
    ethernet: Ethernet,
    version: &str,
    inverse_version: &str,
    tester_addr: &str,
    ecu_addr: &str,
    sga_addr: &str,
    activation_code: &str,
    vin: &str,
    tester_present: bool,
    tester_present_interval: String,
) -> (r: Result<Config, TesterError>)
    ensures
        r is Ok <==> (spec_hex_field_ok(version@, 255)
            && spec_hex_field_ok(inverse_version@, 255)
            && spec_hex_field_ok(tester_addr@, 65535)
            && spec_hex_field_ok(ecu_addr@, 65535)
            && spec_hex_field_ok(sga_addr@, 65535)
            && spec_hex_field_ok(activation_code@, 255)),
        r is Ok ==> ({
            let c = r.unwrap();
            &&& c.doip.version == spec_hex_field_val(version@)
            &&& c.doip.inverse_version == spec_hex_field_val(inverse_version@)
            &&& c.doip.tester_addr == spec_hex_field_val(tester_addr@)
            &&& c.doip.ecu_addr == spec_hex_field_val(ecu_addr@)
            &&& c.doip.sga_addr == spec_hex_field_val(sga_addr@)
            &&& c.doip.activation_code == spec_hex_field_val(activation_code@)
            &&& c.parameter.vin@ == spec_trim_0x(vin@)
            &&& c.parameter.tester_present == tester_present
            &&& c.parameter.tester_present_interval@ == tester_present_interval@
        }),
        r is Err ==> r.unwrap_err() == TesterError::InvalidInput,
{
    let version = match parse_hex_u8(version) {
        Ok(v) => v,
        Err(e) => {
            return Err(e);
        },
    };
    let inverse_version = match parse_hex_u8(inverse_version) {
        Ok(v) => v,
        Err(e) => {
            return Err(e);
        },
    };
    let tester_addr = match parse_hex_u16(tester_addr) {
        Ok(v) => v,
        Err(e) => {
            return Err(e);
        },
    };
    let ecu_addr = match parse_hex_u16(ecu_addr) {
        Ok(v) => v,
        Err(e) => {
            return Err(e);
        },
    };
    let sga_addr = match parse_hex_u16(sga_addr) {
        Ok(v) => v,
        Err(e) => {
            return Err(e);
        },
    };
    let activation_code = match parse_hex_u8(activation_code) {
        Ok(v) => v,
        Err(e) => {
            return Err(e);
        },
    };
    let doip = Doip {
        version,
        inverse_version,
        tester_addr,
        ecu_addr,
        sga_addr,
        activation_code,
    };
    let parameter = Parameters {
        vin: trim_0x(vin).to_owned(),
        tester_present,
        tester_present_interval,
    };
    Ok(Config { ethernet, doip, parameter })
}

} // verus!
