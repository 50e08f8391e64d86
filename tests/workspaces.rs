use statusbar::workspaces::{
    get_workspaces_active_id, get_workspaces_id, parse_workspaces, serialize_workspaces, WorkspaceEntry,
    WorkspaceSnapshot,
};

fn snapshot(entries: &[(i32, u16)], active: i32) -> WorkspaceSnapshot {
    WorkspaceSnapshot {
        workspaces: entries.iter().map(|&(id, windows)| WorkspaceEntry { id, windows }).collect(),
        active_workspace: active,
    }
}

#[test]
fn serializes_with_sorted_keys() {
    let s = snapshot(&[(1, 2), (2, 0), (5, 13)], 2);
    assert_eq!(
        serialize_workspaces(&s),
        r#"{"active_workspace":2,"workspaces":[{"id":1,"windows":2},{"id":2,"windows":0},{"id":5,"windows":13}]}"#
    );
}

#[test]
fn serializes_empty_and_negative() {
    assert_eq!(serialize_workspaces(&snapshot(&[], 1)), r#"{"active_workspace":1,"workspaces":[]}"#);
    assert_eq!(
        serialize_workspaces(&snapshot(&[(-99, 1), (i32::MIN, u16::MAX)], -99)),
        r#"{"active_workspace":-99,"workspaces":[{"id":-99,"windows":1},{"id":-2147483648,"windows":65535}]}"#
    );
}

#[test]
fn round_trip_keeps_ids_and_active() {
    let cases = [
        snapshot(&[], 0),
        snapshot(&[(1, 0)], 1),
        snapshot(&[(1, 3), (2, 1), (3, 0), (10, 7)], 10),
        snapshot(&[(-98, 0), (0, 10), (i32::MAX, 100)], i32::MIN),
    ];
    for s in cases {
        let line = serialize_workspaces(&s);
        let back = parse_workspaces(&line).expect("printed line reads back");
        assert_eq!(back.workspaces, s.workspaces);
        assert_eq!(back.active_workspace, s.active_workspace);
        assert_eq!(get_workspaces_id(&back), get_workspaces_id(&s));
        assert_eq!(get_workspaces_active_id(&back), get_workspaces_active_id(&s));
    }
}

#[test]
fn parse_accepts_the_printed_form_only() {
    let ok = r#"{"active_workspace":3,"workspaces":[{"id":3,"windows":1}]}"#;
    let s = parse_workspaces(ok).unwrap();
    assert_eq!(s.workspaces, vec![WorkspaceEntry { id: 3, windows: 1 }]);
    assert_eq!(s.active_workspace, 3);
    for bad in [
        "",
        "{}",
        r#"{"active_workspace":3,"workspaces":[]} "#,
        r#"{"active_workspace":03,"workspaces":[]}"#,
        r#"{"active_workspace":-0,"workspaces":[]}"#,
        r#"{"active_workspace":3,"workspaces":[,]}"#,
        r#"{"active_workspace":3,"workspaces":[{"id":1,"windows":1},]}"#,
        r#"{"active_workspace":3,"workspaces":[{"id":1,"windows":65536}]}"#,
        r#"{"active_workspace":2147483648,"workspaces":[]}"#,
        r#"{"workspaces":[],"active_workspace":3}"#,
        r#"{"active_workspace": 3,"workspaces":[]}"#,
    ] {
        assert!(parse_workspaces(bad).is_none(), "{bad}");
    }
    assert_eq!(
        parse_workspaces(r#"{"active_workspace":-2147483648,"workspaces":[]}"#).unwrap().active_workspace,
        i32::MIN
    );
}

#[test]
fn ids_in_order() {
    let s = snapshot(&[(4, 1), (1, 1), (7, 0)], 1);
    assert_eq!(get_workspaces_id(&s), r#"[{"id":4,"windows":1},{"id":1,"windows":1},{"id":7,"windows":0}]"#);
    assert_eq!(get_workspaces_id(&snapshot(&[], 3)), "[]");
    assert_eq!(get_workspaces_active_id(&s), 1);
}
