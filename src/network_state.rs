//! Connection state as reported by the network service, and its mapping to a
//! display icon.
use vstd::prelude::*;

verus! {

/// Global connectivity state of the network service.
#[derive(Clone, Copy, Debug, PartialEq, Eq, Structural)]
pub enum NMState {
    Unknow,
    Asleep,
    Disconnected,
    Disconnecting,
    Connecting,
    ConnectedLocal,
    ConnectedSite,
    ConnectedGlobal,
}

/// The numeric code under which the service publishes each state.
pub open spec fn nm_state_code(s: NMState) -> u32 {
    match s {
        NMState::Unknow => 0,
        NMState::Asleep => 10,
        NMState::Disconnected => 20,
        NMState::Disconnecting => 30,
        NMState::Connecting => 40,
        NMState::ConnectedLocal => 50,
        NMState::ConnectedSite => 60,
        NMState::ConnectedGlobal => 70,
    }
}

/// The variant name of each state, as printed in the `state` field.
pub open spec fn nm_state_name(s: NMState) -> Seq<char> {
    match s {
        NMState::Unknow => "Unknow"@,
        NMState::Asleep => "Asleep"@,
        NMState::Disconnected => "Disconnected"@,
        NMState::Disconnecting => "Disconnecting"@,
        NMState::Connecting => "Connecting"@,
        NMState::ConnectedLocal => "ConnectedLocal"@,
        NMState::ConnectedSite => "ConnectedSite"@,
        NMState::ConnectedGlobal => "ConnectedGlobal"@,
    }
}

impl NMState {
    /// Decodes the numeric state code; codes the service does not define give `None`.
    pub fn from_code(code: u32) -> (r: Option<NMState>)
        ensures
            r matches Some(s) ==> nm_state_code(s) == code,
            r is None <==> (forall|s: NMState| nm_state_code(s) != code),
    {
        let r = match code {
            0 => Some(NMState::Unknow),
            10 => Some(NMState::Asleep),
            20 => Some(NMState::Disconnected),
            30 => Some(NMState::Disconnecting),
            40 => Some(NMState::Connecting),
            50 => Some(NMState::ConnectedLocal),
            60 => Some(NMState::ConnectedSite),
            70 => Some(NMState::ConnectedGlobal),
            _ => None,
        };
        proof {
            if r is None {
                assert forall|s: NMState| nm_state_code(s) != code by {
                    match s {
                        NMState::Unknow => {},
                        _ => {},
                    }
                }
            }
        }
        r
    }

    /// The numeric code of this state.
    pub fn code(&self) -> (r: u32)
        ensures
            r == nm_state_code(*self),
    {
        match self {
            NMState::Unknow => 0,
            NMState::Asleep => 10,
            NMState::Disconnected => 20,
            NMState::Disconnecting => 30,
            NMState::Connecting => 40,
            NMState::ConnectedLocal => 50,
            NMState::ConnectedSite => 60,
            NMState::ConnectedGlobal => 70,
        }
    }

    /// The variant name of this state.
    pub fn name(&self) -> (r: String)
        ensures
            r@ == nm_state_name(*self),
    {
        match self {
            NMState::Unknow => "Unknow".to_owned(),
            NMState::Asleep => "Asleep".to_owned(),
            NMState::Disconnected => "Disconnected".to_owned(),
            NMState::Disconnecting => "Disconnecting".to_owned(),
            NMState::Connecting => "Connecting".to_owned(),
            NMState::ConnectedLocal => "ConnectedLocal".to_owned(),
            NMState::ConnectedSite => "ConnectedSite".to_owned(),
            NMState::ConnectedGlobal => "ConnectedGlobal".to_owned(),
        }
    }
}

/// What the status bar shows for the network; the connected variants carry
/// the signal strength in percent.
#[derive(Clone, Copy, Debug, PartialEq, Eq, Structural)]
pub enum NetworkState {
    Alseep,
    Disconnected,
    /// Shown with an animated asset.
    Connecting,
    Disconnecting,
    Connected(u8),
    ConnectedGlobal(u8),
}

/// The quarter of the percentage scale that a signal strength falls in,
/// numbered 1 to 4: `[0,25) [25,50) [50,75) [75,100]`.
pub open spec fn signal_bucket(strength: int) -> int {
    if strength < 25 {
        1
    } else if strength < 50 {
        2
    } else if strength < 75 {
        3
    } else {
        4
    }
}

/// The display state for a service state, a signal strength and whether the
/// internet is reachable.
pub open spec fn classify_state(state: NMState, signal_strength: u8, is_connected: bool) -> NetworkState {
    match state {
        NMState::Unknow | NMState::Asleep => NetworkState::Alseep,
        NMState::Connecting => NetworkState::Connecting,
        NMState::Disconnecting => NetworkState::Disconnecting,
        NMState::Disconnected => NetworkState::Disconnected,
        NMState::ConnectedLocal | NMState::ConnectedSite | NMState::ConnectedGlobal => {
            if is_connected {
                NetworkState::ConnectedGlobal(signal_strength)
            } else {
                NetworkState::Connected(signal_strength)
            }
        },
    }
}

/// The icon identifier of a display state.
pub open spec fn icon_id(ns: NetworkState) -> Seq<char> {
    match ns {
        NetworkState::Alseep => "asleep"@,
        NetworkState::Disconnected => "disconnected"@,
        NetworkState::Connecting => "connecting"@,
        NetworkState::Disconnecting => "disconnecting"@,
        NetworkState::Connected(x) => {
            let b = signal_bucket(x as int);
            if b == 1 {
                "connected-1"@
            } else if b == 2 {
                "connected-2"@
            } else if b == 3 {
                "connected-3"@
            } else {
                "connected-4"@
            }
        },
        NetworkState::ConnectedGlobal(x) => {
            let b = signal_bucket(x as int);
            if b == 1 {
                "connected-global-1"@
            } else if b == 2 {
                "connected-global-2"@
            } else if b == 3 {
                "connected-global-3"@
            } else {
                "connected-global-4"@
            }
        },
    }
}

/// The image file of a display state.
pub open spec fn icon_file(ns: NetworkState) -> Seq<char> {
    match ns {
        NetworkState::Alseep => "/image/Asleep.svg"@,
        NetworkState::Disconnected => "/image/Disconnected.svg"@,
        NetworkState::Connecting => "/image/Connecting.gif"@,
        NetworkState::Disconnecting => "/image/Disconnecting.svg"@,
        NetworkState::Connected(x) => {
            let b = signal_bucket(x as int);
            if b == 1 {
                "/image/Connected-1.svg"@
            } else if b == 2 {
                "/image/Connected-2.svg"@
            } else if b == 3 {
                "/image/Connected-3.svg"@
            } else {
                "/image/Connected-4.svg"@
            }
        },
        NetworkState::ConnectedGlobal(x) => {
            let b = signal_bucket(x as int);
            if b == 1 {
                "/image/ConnectedGlobal-1.svg"@
            } else if b == 2 {
                "/image/ConnectedGlobal-2.svg"@
            } else if b == 3 {
                "/image/ConnectedGlobal-3.svg"@
            } else {
                "/image/ConnectedGlobal-4.svg"@
            }
        },
    }
}

/// Returns the quarter (1 to 4) that a signal strength falls in.
fn bucket_of(strength: u8) -> (r: u8)
    ensures
        r as int == signal_bucket(strength as int),
{
    if strength < 25 {
        1
    } else if strength < 50 {
        2
    } else if strength < 75 {
        3
    } else {
        4
    }
}

impl NetworkState {
    /// A signal strength, where the state carries one, is a percentage.
    pub open spec fn wf(&self) -> bool {
        match *self {
            NetworkState::Connected(x) | NetworkState::ConnectedGlobal(x) => x <= 100,
            _ => true,
        }
    }

    /// The display state for a service state, a signal strength in percent and
    /// whether the internet is reachable.
    pub fn new(state: NMState, signal_strength: u8, is_connected: bool) -> (r: NetworkState)
        ensures
            r == classify_state(state, signal_strength, is_connected),
            signal_strength <= 100 ==> r.wf(),
    {
        match state {
            NMState::Unknow | NMState::Asleep => NetworkState::Alseep,
            NMState::Connecting => NetworkState::Connecting,
            NMState::Disconnecting => NetworkState::Disconnecting,
            NMState::ConnectedGlobal | NMState::ConnectedSite | NMState::ConnectedLocal => {
                if is_connected {
                    NetworkState::ConnectedGlobal(signal_strength)
                } else {
                    NetworkState::Connected(signal_strength)
                }
            },
            NMState::Disconnected => NetworkState::Disconnected,
        }
    }

    /// The image file shown for this state.
    pub fn path(&self) -> (r: String)
        requires
            self.wf(),
        ensures
            r@ == icon_file(*self),
    {
        match self {
            NetworkState::Alseep => "/image/Asleep.svg".to_owned(),
            NetworkState::Disconnected => "/image/Disconnected.svg".to_owned(),
            NetworkState::Connecting => "/image/Connecting.gif".to_owned(),
            NetworkState::Disconnecting => "/image/Disconnecting.svg".to_owned(),
            NetworkState::Connected(x) => {
                let b = bucket_of(*x);
                if b == 1 {
                    "/image/Connected-1.svg".to_owned()
                } else if b == 2 {
                    "/image/Connected-2.svg".to_owned()
                } else if b == 3 {
                    "/image/Connected-3.svg".to_owned()
                } else {
                    "/image/Connected-4.svg".to_owned()
                }
            },
            NetworkState::ConnectedGlobal(x) => {
                let b = bucket_of(*x);
                if b == 1 {
                    "/image/ConnectedGlobal-1.svg".to_owned()
                } else if b == 2 {
                    "/image/ConnectedGlobal-2.svg".to_owned()
                } else if b == 3 {
                    "/image/ConnectedGlobal-3.svg".to_owned()
                } else {
                    "/image/ConnectedGlobal-4.svg".to_owned()
                }
            },
        }
    }

    /// The icon identifier of this state.
    pub fn icon(&self) -> (r: String)
        requires
            self.wf(),
        ensures
            r@ == icon_id(*self),
    {
        match self {
            NetworkState::Alseep => "asleep".to_owned(),
            NetworkState::Disconnected => "disconnected".to_owned(),
            NetworkState::Connecting => "connecting".to_owned(),
            NetworkState::Disconnecting => "disconnecting".to_owned(),
            NetworkState::Connected(x) => {
                let b = bucket_of(*x);
                if b == 1 {
                    "connected-1".to_owned()
                } else if b == 2 {
                    "connected-2".to_owned()
                } else if b == 3 {
                    "connected-3".to_owned()
                } else {
                    "connected-4".to_owned()
                }
            },
            NetworkState::ConnectedGlobal(x) => {
                let b = bucket_of(*x);
                if b == 1 {
                    "connected-global-1".to_owned()
                } else if b == 2 {
                    "connected-global-2".to_owned()
                } else if b == 3 {
                    "connected-global-3".to_owned()
                } else {
                    "connected-global-4".to_owned()
                }
            },
        }
    }
}

/// The image file for a service state, internet reachability and signal strength.
pub fn icon_path(state: NMState, global_conn: bool, signal_strength: u8) -> (r: String)
    requires
        signal_strength <= 100,
    ensures
        r@ == icon_file(classify_state(state, signal_strength, global_conn)),
{
    NetworkState::new(state, signal_strength, global_conn).path()
}

/// The icon identifier for a service state, signal strength and internet reachability.
pub fn classify(state: NMState, signal_strength: u8, is_globally_connected: bool) -> (r: String)
    requires
        signal_strength <= 100,
    ensures
        r@ == icon_id(classify_state(state, signal_strength, is_globally_connected)),
        (state == NMState::Unknow || state == NMState::Asleep) ==> r@ == "asleep"@,
        state == NMState::Disconnected ==> r@ == "disconnected"@,
{
    NetworkState::new(state, signal_strength, is_globally_connected).icon()
}

/// The bar count (1 to 4) that a display state shows; 0 where it shows none.
pub open spec fn icon_level(ns: NetworkState) -> int {
    match ns {
        NetworkState::Connected(x) | NetworkState::ConnectedGlobal(x) => signal_bucket(x as int),
        _ => 0,
    }
}

/// An unknown or sleeping service shows the asleep icon, whatever the signal
/// strength and internet reachability.
pub proof fn lemma_asleep_ignores_signal(state: NMState, signal_strength: u8, is_connected: bool)
    requires
        state == NMState::Unknow || state == NMState::Asleep,
    ensures
        icon_id(classify_state(state, signal_strength, is_connected)) == "asleep"@,
        icon_file(classify_state(state, signal_strength, is_connected)) == "/image/Asleep.svg"@,
{
}

/// When connected, a stronger signal never shows fewer bars.
pub proof fn lemma_bucket_monotonic(weaker: u8, stronger: u8, is_connected: bool)
    requires
        weaker <= stronger <= 100,
    ensures
        1 <= icon_level(classify_state(NMState::ConnectedGlobal, weaker, is_connected)),
        icon_level(classify_state(NMState::ConnectedGlobal, weaker, is_connected)) <= icon_level(
            classify_state(NMState::ConnectedGlobal, stronger, is_connected),
        ),
        icon_level(classify_state(NMState::ConnectedGlobal, stronger, is_connected)) <= 4,
{
}

/// A disconnected service shows the disconnected icon, whatever the signal
/// strength and internet reachability.
pub proof fn lemma_disconnected_ignores_signal(signal_strength: u8, is_connected: bool)
    ensures
        icon_id(classify_state(NMState::Disconnected, signal_strength, is_connected)) == "disconnected"@,
        icon_file(classify_state(NMState::Disconnected, signal_strength, is_connected)) == "/image/Disconnected.svg"@,
{
}

} // verus!
