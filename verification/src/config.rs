use vstd::prelude::*;

verus! {

/// The highest scannable port.
pub const MAX: u16 = 65535;

/// The scan configuration, exactly as the external command-line layer
/// hands it over. The library never reads or writes files itself, so the
/// output settings are carried through untouched.
#[derive(Clone, Debug)]
pub struct Arguments {
    pub target: String,
    pub start_port: u16,
    pub end_port: u16,
    pub timeout: u64,
    pub concurrency: usize,
    pub output_file: Option<String>,
    pub json_output: bool,
    pub detect_services: bool,
    pub grab_banners: bool,
    pub scan_udp: bool,
    pub interface: Option<String>,
    pub rate_limit: u32,
    pub use_ipv6: bool,
}

/// A start port must be positive.
pub fn start_port_guard(input: &u16) -> (ok: bool)
    ensures
        ok == (*input > 0),
{
    *input > 0
}

/// An end port must not exceed the port space.
pub fn end_port_guard(input: &u16) -> (ok: bool)
    ensures
        ok == (*input <= MAX),
{
    *input <= MAX
}

} // verus!
