//! States that the network service publishes for devices and active
//! connections, decoded from their numeric codes.
use vstd::prelude::*;

verus! {

/// State of a network device.
#[derive(Clone, Copy, Debug, PartialEq, Eq, Structural)]
pub enum NMDeviceState {
    /// The device's state is unknown
    Unknown,
    /// The device is recognized, but not managed by the network service
    Unmanaged,
    /// The device is managed, but is not available for use.
    Unavailable,
    /// The device can be activated, but is idle and not connected to a network.
    Disconnected,
    /// The device is preparing the connection to the network.
    Prepare,
    /// The device is connecting to the requested network.
    Config,
    /// The device requires more information to continue connecting.
    NeedAuth,
    /// The device is requesting addresses and routing information.
    IpConfig,
    /// The device is checking whether further action is required.
    IpCheck,
    /// The device is waiting for a secondary connection (like a VPN).
    Secondaries,
    /// The device has a network connection, either local or global.
    Activated,
    /// A disconnection was requested and the device is cleaning up.
    Deactivating,
    /// The device failed to connect and is cleaning up the request.
    Failed,
}

pub open spec fn device_state_code(s: NMDeviceState) -> u32 {
    match s {
        NMDeviceState::Unknown => 0,
        NMDeviceState::Unmanaged => 10,
        NMDeviceState::Unavailable => 20,
        NMDeviceState::Disconnected => 30,
        NMDeviceState::Prepare => 40,
        NMDeviceState::Config => 50,
        NMDeviceState::NeedAuth => 60,
        NMDeviceState::IpConfig => 70,
        NMDeviceState::IpCheck => 80,
        NMDeviceState::Secondaries => 90,
        NMDeviceState::Activated => 100,
        NMDeviceState::Deactivating => 110,
        NMDeviceState::Failed => 120,
    }
}

impl NMDeviceState {
    /// Decodes a device state code; codes the service does not define give `None`.
    pub fn from_code(code: u32) -> (r: Option<NMDeviceState>)
        ensures
            r matches Some(s) ==> device_state_code(s) == code,
            r is None <==> (forall|s: NMDeviceState| device_state_code(s) != code),
    {
        let r = match code {
            0 => Some(NMDeviceState::Unknown),
            10 => Some(NMDeviceState::Unmanaged),
            20 => Some(NMDeviceState::Unavailable),
            30 => Some(NMDeviceState::Disconnected),
            40 => Some(NMDeviceState::Prepare),
            50 => Some(NMDeviceState::Config),
            60 => Some(NMDeviceState::NeedAuth),
            70 => Some(NMDeviceState::IpConfig),
            80 => Some(NMDeviceState::IpCheck),
            90 => Some(NMDeviceState::Secondaries),
            100 => Some(NMDeviceState::Activated),
            110 => Some(NMDeviceState::Deactivating),
            120 => Some(NMDeviceState::Failed),
            _ => None,
        };
        proof {
            if let Some(s) = r {
                assert(device_state_code(s) == code);
            }
            if r is None {
                assert forall|s: NMDeviceState| device_state_code(s) != code by {
                    match s {
                        NMDeviceState::Unknown => {},
                        NMDeviceState::Unmanaged => {},
                        NMDeviceState::Unavailable => {},
                        NMDeviceState::Disconnected => {},
                        NMDeviceState::Prepare => {},
                        NMDeviceState::Config => {},
                        NMDeviceState::NeedAuth => {},
                        NMDeviceState::IpConfig => {},
                        NMDeviceState::IpCheck => {},
                        NMDeviceState::Secondaries => {},
                        NMDeviceState::Activated => {},
                        NMDeviceState::Deactivating => {},
                        NMDeviceState::Failed => {},
                    }
                }
            }
        }
        r
    }
}

/// State of an active connection.
#[derive(Clone, Copy, Debug, PartialEq, Eq, Structural)]
pub enum NMActiveConnectionState {
    UnknownConnection,
    ActivatingConnection,
    ActivatedConnection,
    DeactivatingConnection,
    DeactivatedConnection,
}

pub open spec fn connection_state_code(s: NMActiveConnectionState) -> u32 {
    match s {
        NMActiveConnectionState::UnknownConnection => 0,
        NMActiveConnectionState::ActivatingConnection => 1,
        NMActiveConnectionState::ActivatedConnection => 2,
        NMActiveConnectionState::DeactivatingConnection => 3,
        NMActiveConnectionState::DeactivatedConnection => 4,
    }
}

impl NMActiveConnectionState {
    /// Decodes an active connection state code; codes above 4 give `None`.
    pub fn from_code(code: u32) -> (r: Option<NMActiveConnectionState>)
        ensures
            r matches Some(s) ==> connection_state_code(s) == code,
            r is None <==> code > 4,
    {
        match code {
            0 => Some(NMActiveConnectionState::UnknownConnection),
            1 => Some(NMActiveConnectionState::ActivatingConnection),
            2 => Some(NMActiveConnectionState::ActivatedConnection),
            3 => Some(NMActiveConnectionState::DeactivatingConnection),
            4 => Some(NMActiveConnectionState::DeactivatedConnection),
            _ => None,
        }
    }
}

/// The kinds of device whose link the bar can describe.
#[derive(Clone, Copy, Debug, PartialEq, Eq, Structural)]
pub enum DeviceKind {
    /// An Ethernet device, type code 1.
    Wired,
    /// An 802.11 WiFi device, type code 2.
    Wireless,
}

/// The kind of a device from the service's device type code; other types
/// (Bluetooth, modems, bridges, tunnels, ...) give `None`.
pub fn device_kind(type_code: u32) -> (r: Option<DeviceKind>)
    ensures
        type_code == 1 ==> r == Some(DeviceKind::Wired),
        type_code == 2 ==> r == Some(DeviceKind::Wireless),
        type_code != 1 && type_code != 2 ==> r is None,
{
    match type_code {
        1 => Some(DeviceKind::Wired),
        2 => Some(DeviceKind::Wireless),
        _ => None,
    }
}

} // verus!
