use vstd::prelude::*;

verus! {

/// Which kinds of hardware the monitor looks at
#[derive(Clone, Copy, Debug, PartialEq, Eq, Structural)]
pub struct ComputerOptions {
    pub battery_enabled: bool,
    pub controller_enabled: bool,
    pub cpu_enabled: bool,
    pub gpu_enabled: bool,
    pub memory_enabled: bool,
    pub motherboard_enabled: bool,
    pub network_enabled: bool,
    pub psu_enabled: bool,
    pub storage_enabled: bool,
}

} // verus!
