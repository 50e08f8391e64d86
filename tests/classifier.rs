use statusbar::network_state::{classify, icon_path, NMState, NetworkState};

const ALL_STATES: [NMState; 8] = [
    NMState::Unknow,
    NMState::Asleep,
    NMState::Disconnected,
    NMState::Disconnecting,
    NMState::Connecting,
    NMState::ConnectedLocal,
    NMState::ConnectedSite,
    NMState::ConnectedGlobal,
];

fn bars(icon: &str) -> u32 {
    icon.rsplit('-').next().unwrap().parse().unwrap()
}

#[test]
fn asleep_whatever_the_signal() {
    for state in [NMState::Unknow, NMState::Asleep] {
        for strength in [0u8, 24, 25, 50, 99, 100] {
            for global in [false, true] {
                assert_eq!(classify(state, strength, global), "asleep");
                assert_eq!(icon_path(state, global, strength), "/image/Asleep.svg");
            }
        }
    }
}

#[test]
fn bars_never_drop_as_signal_grows() {
    for global in [false, true] {
        let mut last = 0;
        for strength in 0u8..=100 {
            let b = bars(&classify(NMState::ConnectedGlobal, strength, global));
            assert!(b >= last);
            assert!((1..=4).contains(&b));
            last = b;
        }
        assert_eq!(last, 4);
    }
}

#[test]
fn bucket_edges() {
    assert_eq!(classify(NMState::ConnectedGlobal, 24, false), "connected-1");
    assert_eq!(classify(NMState::ConnectedGlobal, 25, false), "connected-2");
    assert_eq!(classify(NMState::ConnectedGlobal, 99, true), "connected-global-4");
    assert_eq!(classify(NMState::ConnectedLocal, 49, false), "connected-2");
    assert_eq!(classify(NMState::ConnectedSite, 50, true), "connected-global-3");
    assert_eq!(classify(NMState::ConnectedGlobal, 74, true), "connected-global-3");
    assert_eq!(classify(NMState::ConnectedGlobal, 75, false), "connected-4");
    assert_eq!(classify(NMState::ConnectedGlobal, 0, true), "connected-global-1");
    assert_eq!(classify(NMState::ConnectedGlobal, 100, false), "connected-4");
}

#[test]
fn disconnected_whatever_the_signal() {
    assert_eq!(classify(NMState::Disconnected, 0, false), "disconnected");
    for strength in [0u8, 37, 100] {
        for global in [false, true] {
            assert_eq!(classify(NMState::Disconnected, strength, global), "disconnected");
        }
    }
}

#[test]
fn transitional_states() {
    assert_eq!(classify(NMState::Connecting, 80, true), "connecting");
    assert_eq!(classify(NMState::Disconnecting, 80, true), "disconnecting");
    assert_eq!(icon_path(NMState::Connecting, false, 10), "/image/Connecting.gif");
    assert_eq!(icon_path(NMState::Disconnecting, false, 10), "/image/Disconnecting.svg");
    assert_eq!(icon_path(NMState::Disconnected, true, 10), "/image/Disconnected.svg");
}

#[test]
fn icon_files() {
    assert_eq!(icon_path(NMState::ConnectedGlobal, false, 24), "/image/Connected-1.svg");
    assert_eq!(icon_path(NMState::ConnectedGlobal, true, 25), "/image/ConnectedGlobal-2.svg");
    assert_eq!(icon_path(NMState::ConnectedLocal, true, 60), "/image/ConnectedGlobal-3.svg");
    assert_eq!(icon_path(NMState::ConnectedSite, false, 100), "/image/Connected-4.svg");
}

#[test]
fn network_state_new() {
    assert_eq!(NetworkState::new(NMState::Unknow, 50, true), NetworkState::Alseep);
    assert_eq!(NetworkState::new(NMState::ConnectedSite, 50, true), NetworkState::ConnectedGlobal(50));
    assert_eq!(NetworkState::new(NMState::ConnectedLocal, 7, false), NetworkState::Connected(7));
    assert_eq!(NetworkState::Connected(7).path(), "/image/Connected-1.svg");
    assert_eq!(NetworkState::ConnectedGlobal(80).icon(), "connected-global-4");
}

#[test]
fn state_codes() {
    for s in ALL_STATES {
        assert_eq!(NMState::from_code(s.code()), Some(s));
    }
    assert_eq!(NMState::from_code(70), Some(NMState::ConnectedGlobal));
    assert_eq!(NMState::from_code(0), Some(NMState::Unknow));
    assert_eq!(NMState::from_code(15), None);
    assert_eq!(NMState::from_code(80), None);
    assert_eq!(NMState::ConnectedLocal.name(), "ConnectedLocal");
    assert_eq!(NMState::Unknow.name(), "Unknow");
}
