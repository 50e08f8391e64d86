//! The network snapshot printed on every state change: validation of the
//! signal strength read from the access point, and the JSON line itself.
use vstd::prelude::*;
use crate::network_state::{classify_state, icon_file, icon_path, nm_state_name, NMState};
use vstd::string::*;
use crate::scan::{all_digits, dec_nat, digit_char, digits_value, is_digit, is_digit_char, lemma_value_nonneg, push_nat};

verus! {

#[verifier::external_type_specification]
#[verifier::external_body]
pub struct ExJsonError(serde_json::Error);

/// A lowercase hexadecimal digit, `0 <= d < 16`.
pub open spec fn hex_digit(d: int) -> char {
    if d < 10 {
        digit_char(d)
    } else {
        ((d - 10 + 97) as u8) as char
    }
}

/// How one character stands inside a JSON string: quote and backslash take a
/// backslash, five control characters a letter escape, the other characters
/// below U+0020 a `\u00xx` escape; all else stands as it is.
pub open spec fn escape_char(c: char) -> Seq<char> {
    if c == '"' {
        seq!['\\', '"']
    } else if c == '\\' {
        seq!['\\', '\\']
    } else if c == '\u{8}' {
        seq!['\\', 'b']
    } else if c == '\t' {
        seq!['\\', 't']
    } else if c == '\n' {
        seq!['\\', 'n']
    } else if c == '\u{c}' {
        seq!['\\', 'f']
    } else if c == '\r' {
        seq!['\\', 'r']
    } else if (c as u32) < 0x20 {
        seq!['\\', 'u', '0', '0', hex_digit((c as u32) as int / 16), hex_digit((c as u32) as int % 16)]
    } else {
        seq![c]
    }
}

pub open spec fn escape_text(s: Seq<char>) -> Seq<char>
    decreases s.len(),
{
    if s.len() == 0 {
        Seq::empty()
    } else {
        escape_text(s.drop_last()) + escape_char(s.last())
    }
}

/// The JSON string literal for a text: its characters escaped, between quotes.
pub open spec fn json_quoted(s: Seq<char>) -> Seq<char> {
    seq!['"'] + escape_text(s) + seq!['"']
}

/// Relies on `serde_json::to_string` applied to a `str`: it writes into a
/// `Vec`, which never fails, the text between quotes with the escapes of
/// `format_escaped_str` and the compact formatter's `write_char_escape`.
#[verifier::external_body]
fn json_string(s: &str) -> (r: Result<String, serde_json::Error>)
    ensures
        r is Ok,
        r matches Ok(t) ==> t@ == json_quoted(s@),
{
    serde_json::to_string(s)
}

/// Why a signal strength reading was refused.
#[derive(Clone, Copy, Debug, PartialEq, Eq, Structural)]
pub enum SignalError {
    /// Not a decimal number.
    Malformed,
    /// A number above 100.
    OutOfRange,
}

/// Why no network snapshot could be written.
#[derive(Clone, Copy, Debug, PartialEq, Eq, Structural)]
pub enum InfoError {
    /// The signal strength is neither empty nor a decimal number.
    MalformedSignal,
    /// The signal strength is a number above 100.
    SignalOutOfRange,
}

/// A decimal number as printed for an integer: digits only, no leading zero.
pub open spec fn is_numeral(t: Seq<char>) -> bool {
    &&& t.len() >= 1
    &&& all_digits(t)
    &&& (t[0] != '0' || t.len() == 1)
}

/// Reads a signal strength in percent. Anything but a decimal number is
/// malformed; a number above 100 is out of range.
pub fn parse_signal_strength(s: &str) -> (r: Result<u8, SignalError>)
    ensures
        r matches Ok(v) ==> is_numeral(s@) && digits_value(s@) == v as int && v <= 100,
        r == Err::<u8, SignalError>(SignalError::Malformed) <==> !is_numeral(s@),
        r == Err::<u8, SignalError>(SignalError::OutOfRange) <==> is_numeral(s@) && digits_value(s@) > 100,
{
    let n = s.unicode_len();
    if n == 0 {
        return Err(SignalError::Malformed);
    }
    if n > 1 && s.get_char(0) == '0' {
        return Err(SignalError::Malformed);
    }
    // The value read so far, held at 101 once it is above 100.
    let mut acc: u32 = 0;
    let mut i: usize = 0;
    proof {
        assert(s@.subrange(0, 0) =~= Seq::<char>::empty());
        assert(digits_value(Seq::<char>::empty()) == 0);
    }
    while i < n
        invariant
            n == s@.len(),
            i <= n,
            all_digits(s@.subrange(0, i as int)),
            acc <= 101,
            digits_value(s@.subrange(0, i as int)) <= 100 ==> acc == digits_value(s@.subrange(0, i as int)),
            digits_value(s@.subrange(0, i as int)) > 100 ==> acc == 101,
        decreases n - i,
    {
        let c = s.get_char(i);
        if !is_digit_char(c) {
            return Err(SignalError::Malformed);
        }
        let ghost t = s@.subrange(0, i as int);
        let ghost t1 = s@.subrange(0, i + 1);
        proof {
            assert(t1 =~= t.push(c));
            assert(t1.drop_last() =~= t);
            assert forall|k: int| 0 <= k < t1.len() implies is_digit(#[trigger] t1[k]) by {
                if k < t.len() {
                    assert(t1[k] == t[k]);
                }
            }
            lemma_value_nonneg(t);
        }
        let d = c as u32 - 48;
        let next = acc * 10 + d;
        acc = if next > 100 {
            101
        } else {
            next
        };
        i = i + 1;
    }
    proof {
        assert(s@.subrange(0, n as int) =~= s@);
    }
    if acc > 100 {
        Err(SignalError::OutOfRange)
    } else {
        Ok(acc as u8)
    }
}

/// What is known of the link in use, each field as it is printed. The
/// wireless fields are empty for a wired link.
pub struct LinkInfo {
    pub interface: String,
    pub kind: String,
    pub ssid: String,
    pub signal_strength: String,
    pub frequency: String,
    pub ipaddr: String,
    pub cird: String,
    pub gateway: String,
}


impl LinkInfo {
    /// A wireless link: its radio frequency in MHz, signal strength in percent
    /// and network name are printed.
    pub fn wireless(
        interface: String,
        frequency: u32,
        signal_strength: u8,
        ssid: String,
        ipaddr: String,
        cird: String,
        gateway: String,
    ) -> (r: LinkInfo)
        ensures
            r.interface@ == interface@,
            r.kind@ == "wireless"@,
            r.frequency@ == dec_nat(frequency as nat),
            r.signal_strength@ == dec_nat(signal_strength as nat),
            r.ssid@ == ssid@,
            r.ipaddr@ == ipaddr@,
            r.cird@ == cird@,
            r.gateway@ == gateway@,
    {
        let mut freq = String::new();
        push_nat(&mut freq, frequency as u64);
        let mut strength = String::new();
        push_nat(&mut strength, signal_strength as u64);
        proof {
            assert(freq@ =~= dec_nat(frequency as nat));
            assert(strength@ =~= dec_nat(signal_strength as nat));
        }
        LinkInfo {
            interface,
            kind: "wireless".to_owned(),
            ssid,
            signal_strength: strength,
            frequency: freq,
            ipaddr,
            cird,
            gateway,
        }
    }

    /// A wired link: the radio fields are empty.
    pub fn wired(interface: String, ipaddr: String, cird: String, gateway: String) -> (r: LinkInfo)
        ensures
            r.interface@ == interface@,
            r.kind@ == "wired"@,
            r.frequency@.len() == 0,
            r.signal_strength@.len() == 0,
            r.ssid@.len() == 0,
            r.ipaddr@ == ipaddr@,
            r.cird@ == cird@,
            r.gateway@ == gateway@,
    {
        LinkInfo {
            interface,
            kind: "wired".to_owned(),
            ssid: String::new(),
            signal_strength: String::new(),
            frequency: String::new(),
            ipaddr,
            cird,
            gateway,
        }
    }
}

/// The state that is shown: a globally connected service without internet
/// access counts as connected locally.
pub open spec fn shown_state(state: NMState, global_conn: bool) -> NMState {
    if state == NMState::ConnectedGlobal && !global_conn {
        NMState::ConnectedLocal
    } else {
        state
    }
}

pub fn effective_state(state: NMState, global_conn: bool) -> (r: NMState)
    ensures
        r == shown_state(state, global_conn),
{
    if state == NMState::ConnectedGlobal && !global_conn {
        NMState::ConnectedLocal
    } else {
        state
    }
}

/// The signal strength the icon is chosen by: a link without a reading (a
/// wired one) counts as full strength.
pub open spec fn icon_strength(text: Seq<char>) -> int {
    if text.len() == 0 {
        100
    } else {
        digits_value(text)
    }
}

/// `key:value` for a member whose key and value are JSON text already.
pub open spec fn member_text(m: (Seq<char>, Seq<char>)) -> Seq<char> {
    m.0 + ":"@ + m.1
}

pub open spec fn members_text(ms: Seq<(Seq<char>, Seq<char>)>) -> Seq<char>
    decreases ms.len(),
{
    if ms.len() == 0 {
        Seq::empty()
    } else if ms.len() == 1 {
        member_text(ms[0])
    } else {
        members_text(ms.drop_last()) + ","@ + member_text(ms.last())
    }
}

/// A JSON object with the given members, in the given order.
pub open spec fn object_text(ms: Seq<(Seq<char>, Seq<char>)>) -> Seq<char> {
    "{"@ + members_text(ms) + "}"@
}

pub open spec fn member_views(ms: Seq<(String, String)>) -> Seq<(Seq<char>, Seq<char>)> {
    ms.map_values(|m: (String, String)| (m.0@, m.1@))
}

/// Joins members, whose keys and values are JSON text already, into one
/// JSON object.
pub fn json_object(members: &Vec<(String, String)>) -> (r: String)
    ensures
        r@ == object_text(member_views(members@)),
{
    let mut out = String::new();
    out.append("{");
    let n = members.len();
    let mut k: usize = 0;
    proof {
        assert(member_views(members@.subrange(0, 0)) =~= Seq::<(Seq<char>, Seq<char>)>::empty());
        assert(out@ =~= "{"@ + members_text(member_views(members@.subrange(0, 0))));
    }
    while k < n
        invariant
            n == members@.len(),
            k <= n,
            out@ == "{"@ + members_text(member_views(members@.subrange(0, k as int))),
        decreases n - k,
    {
        if k > 0 {
            out.append(",");
        }
        out.append(members[k].0.as_str());
        out.append(":");
        out.append(members[k].1.as_str());
        proof {
            let p = member_views(members@.subrange(0, k + 1));
            let q = member_views(members@.subrange(0, k as int));
            assert(p.drop_last() =~= q);
            assert(p.last() == (members@[k as int].0@, members@[k as int].1@));
            assert(out@ =~= "{"@ + members_text(p));
        }
        k = k + 1;
    }
    out.append("}");
    proof {
        assert(members@.subrange(0, n as int) =~= members@);
    }
    out
}

/// A member whose key and value are both written as JSON strings.
fn quoted_member(key: &str, value: &str) -> (r: (String, String))
    ensures
        r.0@ == json_quoted(key@),
        r.1@ == json_quoted(value@),
{
    (json_string(key).unwrap(), json_string(value).unwrap())
}

pub open spec fn quoted(k: Seq<char>, v: Seq<char>) -> (Seq<char>, Seq<char>) {
    (json_quoted(k), json_quoted(v))
}

/// The members of the network snapshot, keys in lexicographic order.
pub open spec fn info_members(state: NMState, global_conn: bool, link: LinkInfo) -> Seq<(Seq<char>, Seq<char>)> {
    let shown = shown_state(state, global_conn);
    let icon = icon_file(classify_state(shown, icon_strength(link.signal_strength@) as u8, global_conn));
    seq![
        quoted("cird"@, link.cird@),
        quoted("frequency"@, link.frequency@),
        quoted("gateway"@, link.gateway@),
        quoted("icon"@, icon),
        quoted("interface"@, link.interface@),
        quoted("ipaddr"@, link.ipaddr@),
        quoted("kind"@, link.kind@),
        quoted("signalStrength"@, link.signal_strength@),
        quoted("ssid"@, link.ssid@),
        quoted("state"@, nm_state_name(shown)),
    ]
}

/// The network snapshot as one line of JSON. The signal strength must be
/// empty or a number from 0 to 100; the icon is chosen from the state shown,
/// internet reachability and that strength.
pub fn info_json(state: NMState, global_conn: bool, link: &LinkInfo) -> (r: Result<String, InfoError>)
    ensures
        r == Err::<String, InfoError>(InfoError::MalformedSignal) <==> link.signal_strength@.len() > 0
            && !is_numeral(link.signal_strength@),
        r == Err::<String, InfoError>(InfoError::SignalOutOfRange) <==> is_numeral(link.signal_strength@)
            && digits_value(link.signal_strength@) > 100,
        link.signal_strength@.len() == 0 || (is_numeral(link.signal_strength@) && digits_value(link.signal_strength@)
            <= 100) ==> r is Ok,
        r matches Ok(t) ==> t@ == object_text(info_members(state, global_conn, *link)),
{
    let shown = effective_state(state, global_conn);
    let strength: u8 = if link.signal_strength.as_str().unicode_len() == 0 {
        100
    } else {
        match parse_signal_strength(link.signal_strength.as_str()) {
            Ok(v) => v,
            Err(SignalError::Malformed) => return Err(InfoError::MalformedSignal),
            Err(SignalError::OutOfRange) => return Err(InfoError::SignalOutOfRange),
        }
    };
    let icon = icon_path(shown, global_conn, strength);
    let name = shown.name();
    let members = vec![
        quoted_member("cird", link.cird.as_str()),
        quoted_member("frequency", link.frequency.as_str()),
        quoted_member("gateway", link.gateway.as_str()),
        quoted_member("icon", icon.as_str()),
        quoted_member("interface", link.interface.as_str()),
        quoted_member("ipaddr", link.ipaddr.as_str()),
        quoted_member("kind", link.kind.as_str()),
        quoted_member("signalStrength", link.signal_strength.as_str()),
        quoted_member("ssid", link.ssid.as_str()),
        quoted_member("state", name.as_str()),
    ];
    proof {
        assert(member_views(members@) =~= info_members(state, global_conn, *link));
    }
    Ok(json_object(&members))
}

/// The short snapshot printed when the link cannot be described:
/// `{"state":<state>}`.
pub fn state_json(state: NMState) -> (r: String)
    ensures
        r@ == object_text(seq![quoted("state"@, nm_state_name(state))]),
{
    let name = state.name();
    let members = vec![quoted_member("state", name.as_str())];
    proof {
        assert(member_views(members@) =~= seq![quoted("state"@, nm_state_name(state))]);
    }
    json_object(&members)
}

/// The line printed after a state change: the full snapshot when the link in
/// use could be read, the short one otherwise.
pub fn state_snapshot(state: NMState, global_conn: bool, link: Option<&LinkInfo>) -> (r: Result<String, InfoError>)
    ensures
        link is None ==> (r matches Ok(t) && t@ == object_text(seq![quoted("state"@, nm_state_name(state))])),
        link matches Some(l) ==> (r == Err::<String, InfoError>(InfoError::MalformedSignal) <==> l.signal_strength@.len() > 0
            && !is_numeral(l.signal_strength@)),
        link matches Some(l) ==> (r == Err::<String, InfoError>(InfoError::SignalOutOfRange) <==> is_numeral(l.signal_strength@)
            && digits_value(l.signal_strength@) > 100),
        link matches Some(l) ==> (l.signal_strength@.len() == 0 || (is_numeral(l.signal_strength@) && digits_value(
            l.signal_strength@,
        ) <= 100) ==> r is Ok),
        link matches Some(l) ==> (r matches Ok(t) ==> t@ == object_text(info_members(state, global_conn, *l))),
{
    match link {
        Some(l) => info_json(state, global_conn, l),
        None => Ok(state_json(state)),
    }
}

} // verus!
