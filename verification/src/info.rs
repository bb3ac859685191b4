//! The capabilities that a device may report.

use vstd::prelude::*;

verus! {

/// A capability of a device that has a name of its own.
#[derive(Debug, Clone, Copy, PartialEq, Eq, Structural)]
pub enum Capability {
    AutoreportTemp,
    AutoreportPos,
    EmergencyParser,
    AutoreportSdStatus,
    Arcs,
    HostActionCommands,
    BuildPercent,
    Progress,
    AdvancedOk,
}

/// The name under which a device reports a capability.
pub open spec fn capability_name(capability: Capability) -> &'static str {
    match capability {
        Capability::AutoreportTemp => "AUTOREPORT_TEMP",
        Capability::AutoreportPos => "AUTOREPORT_POS",
        Capability::EmergencyParser => "EMERGENCY_PARSER",
        Capability::AutoreportSdStatus => "AUTOREPORT_SD_STATUS",
        Capability::Arcs => "ARCS",
        Capability::HostActionCommands => "HOST_ACTION_COMMANDS",
        Capability::BuildPercent => "BUILD_PERCENT",
        Capability::Progress => "PROGRESS",
        Capability::AdvancedOk => "ADVANCED_OK",
    }
}

impl Capability {
    /// The name under which a device reports this capability.
    pub fn as_str(&self) -> (name: &'static str)
        ensures
            name == capability_name(*self),
    {
        match self {
            Capability::AutoreportTemp => "AUTOREPORT_TEMP",
            Capability::AutoreportPos => "AUTOREPORT_POS",
            Capability::EmergencyParser => "EMERGENCY_PARSER",
            Capability::AutoreportSdStatus => "AUTOREPORT_SD_STATUS",
            Capability::Arcs => "ARCS",
            Capability::HostActionCommands => "HOST_ACTION_COMMANDS",
            Capability::BuildPercent => "BUILD_PERCENT",
            Capability::Progress => "PROGRESS",
            Capability::AdvancedOk => "ADVANCED_OK",
        }
    }

    /// The name under which a device reports this capability.
    pub fn as_ref(&self) -> (name: &'static str)
        ensures
            name == capability_name(*self),
    {
        self.as_str()
    }
}

} // verus!
