//! The workspace snapshot printed on every workspace event, as one line of
//! JSON, and reading such a line back.
use vstd::prelude::*;
use vstd::string::*;
use crate::scan::{
    dec_int, dec_nat, is_digit, lit_at, push_int, push_nat, read_int, read_lit, read_nat, token_at,
    lemma_dec_nat_shape, lemma_dec_nat_value,
};

verus! {

/// One workspace: its identifier and how many windows it holds.
#[derive(Clone, Copy, Debug, PartialEq, Eq, Structural)]
pub struct WorkspaceEntry {
    pub id: i32,
    pub windows: u16,
}

/// All workspaces, in the order the window manager lists them, and the
/// focused one.
#[derive(Debug)]
pub struct WorkspaceSnapshot {
    pub workspaces: Vec<WorkspaceEntry>,
    pub active_workspace: i32,
}

/// `{"id":<id>,"windows":<windows>}`
pub open spec fn entry_text(e: WorkspaceEntry) -> Seq<char> {
    "{\"id\":"@ + dec_int(e.id as int) + ",\"windows\":"@ + dec_nat(e.windows as nat) + "}"@
}

/// The entries, separated by commas.
pub open spec fn entries_text(es: Seq<WorkspaceEntry>) -> Seq<char>
    decreases es.len(),
{
    if es.len() == 0 {
        Seq::empty()
    } else if es.len() == 1 {
        entry_text(es[0])
    } else {
        entries_text(es.drop_last()) + ","@ + entry_text(es.last())
    }
}

/// The entries from index `k` on, each preceded by a comma.
pub open spec fn entries_after(es: Seq<WorkspaceEntry>, k: int) -> Seq<char>
    decreases es.len() - k,
{
    if k < 0 || k >= es.len() {
        Seq::empty()
    } else {
        ","@ + entry_text(es[k]) + entries_after(es, k + 1)
    }
}

/// What comes before the list of entries.
pub open spec fn snapshot_head(active: i32) -> Seq<char> {
    "{\"active_workspace\":"@ + dec_int(active as int) + ",\"workspaces\":["@
}

/// `{"active_workspace":<active>,"workspaces":[<entries>]}`, keys in
/// lexicographic order.
pub open spec fn snapshot_text(ws: Seq<WorkspaceEntry>, active: i32) -> Seq<char> {
    snapshot_head(active) + entries_text(ws) + "]}"@
}

proof fn lemma_entries_split(es: Seq<WorkspaceEntry>, k: int)
    requires
        1 <= k <= es.len(),
    ensures
        entries_text(es) == entries_text(es.subrange(0, k)) + entries_after(es, k),
    decreases es.len() - k,
{
    if k == es.len() {
        assert(es.subrange(0, k) =~= es);
        assert(entries_text(es) + Seq::<char>::empty() =~= entries_text(es));
    } else {
        lemma_entries_split(es, k + 1);
        let p = es.subrange(0, k + 1);
        assert(p.drop_last() =~= es.subrange(0, k));
        assert(entries_text(p) == entries_text(es.subrange(0, k)) + ","@ + entry_text(es[k]));
        assert(entries_text(es.subrange(0, k)) + entries_after(es, k) =~= entries_text(p) + entries_after(es, k + 1));
    }
}

proof fn lemma_entries_first(es: Seq<WorkspaceEntry>)
    requires
        es.len() >= 1,
    ensures
        entries_text(es) == entry_text(es[0]) + entries_after(es, 1),
{
    lemma_entries_split(es, 1);
    assert(entries_text(es.subrange(0, 1)) == entry_text(es[0]));
}

proof fn lemma_entry_text_shape(e: WorkspaceEntry)
    ensures
        entry_text(e).len() >= 1,
        entry_text(e)[0] == '{',
{
    reveal_strlit("{\"id\":");
    assert(entry_text(e)[0] == "{\"id\":"@[0]);
}

/// `lit_at` of a concatenation is `lit_at` of its two parts.
proof fn lemma_lit_concat(t: Seq<char>, p: int, a: Seq<char>, b: Seq<char>)
    requires
        0 <= p,
    ensures
        lit_at(t, p, a + b) <==> (lit_at(t, p, a) && lit_at(t, p + a.len(), b)),
{
    let ab = a + b;
    if lit_at(t, p, ab) {
        let w = t.subrange(p, p + ab.len());
        assert(w == ab);
        assert(t.subrange(p, p + a.len()) =~= w.subrange(0, a.len() as int));
        assert(ab.subrange(0, a.len() as int) =~= a);
        assert(t.subrange(p + a.len(), p + a.len() + b.len()) =~= w.subrange(a.len() as int, ab.len() as int));
        assert(ab.subrange(a.len() as int, ab.len() as int) =~= b);
    }
    if lit_at(t, p, a) && lit_at(t, p + a.len(), b) {
        assert(t.subrange(p, p + ab.len()) =~= t.subrange(p, p + a.len()) + t.subrange(p + a.len(), p + a.len() + b.len()));
    }
}

/// The first character of a literal found at `p` is the one at `p`.
proof fn lemma_lit_first(t: Seq<char>, p: int, w: Seq<char>)
    requires
        lit_at(t, p, w),
        w.len() >= 1,
    ensures
        t[p] == w[0],
{
    assert(t.subrange(p, p + w.len())[0] == t[p]);
}

/// Where the parts of a snapshot's text stand once its first `k` entries
/// have been read.
proof fn lemma_snapshot_at(t: Seq<char>, ws: Seq<WorkspaceEntry>, a: i32, k: int)
    requires
        snapshot_text(ws, a) == t,
        1 <= k <= ws.len(),
    ensures
        ({
            let pos = (snapshot_head(a).len() + entries_text(ws.subrange(0, k)).len()) as int;
            &&& k < ws.len() ==> lit_at(t, pos, ","@) && lit_at(t, pos + 1, entry_text(ws[k]))
            &&& k == ws.len() ==> lit_at(t, pos, "]}"@) && pos + "]}"@.len() == t.len()
        }),
{
    reveal_strlit(",");
    reveal_strlit("]}");
    let head = snapshot_head(a);
    let pre = entries_text(ws.subrange(0, k));
    let tl = "]}"@;
    let pos = (head.len() + pre.len()) as int;
    lemma_entries_split(ws, k);
    assert(t =~= (head + pre) + (entries_after(ws, k) + tl));
    assert(lit_at(t, 0, t)) by {
        assert(t.subrange(0, t.len() as int) =~= t);
    }
    lemma_lit_concat(t, 0, head + pre, entries_after(ws, k) + tl);
    if k < ws.len() {
        let e = entry_text(ws[k]);
        assert(entries_after(ws, k) + tl =~= (","@ + e) + (entries_after(ws, k + 1) + tl));
        lemma_lit_concat(t, pos, ","@ + e, entries_after(ws, k + 1) + tl);
        lemma_lit_concat(t, pos, ","@, e);
    } else {
        assert(entries_after(ws, k) + tl =~= tl);
    }
}

/// A word followed by a nonempty literal that starts with no digit is a token.
proof fn lemma_token_before(t: Seq<char>, p: int, w: Seq<char>, b: Seq<char>)
    requires
        lit_at(t, p, w),
        lit_at(t, p + w.len(), b),
        b.len() >= 1,
        !is_digit(b[0]),
    ensures
        token_at(t, p, w),
{
    assert(t.subrange(p + w.len(), p + w.len() + b.len())[0] == t[p + w.len()]);
}

/// Reads one entry at `pos`; returns it with the position after it.
fn read_entry(s: &str, pos: usize) -> (r: Option<(WorkspaceEntry, usize)>)
    requires
        pos <= s@.len(),
    ensures
        r matches Some((e, q)) ==> q == pos + entry_text(e).len() && lit_at(s@, pos as int, entry_text(e)),
        forall|e: WorkspaceEntry|
            #[trigger] lit_at(s@, pos as int, entry_text(e)) ==> r == Some((e, (pos + entry_text(e).len()) as usize)),
{
    let ghost t = s@;
    let ghost a = "{\"id\":"@;
    let ghost b = ",\"windows\":"@;
    let ghost c = "}"@;
    proof {
        reveal_strlit("{\"id\":");
        reveal_strlit(",\"windows\":");
        reveal_strlit("}");
        assert forall|e: WorkspaceEntry| #[trigger] lit_at(t, pos as int, entry_text(e)) implies {
            let p1 = pos + a.len();
            let p2 = p1 + dec_int(e.id as int).len();
            let p3 = p2 + b.len();
            let p4 = p3 + dec_nat(e.windows as nat).len();
            &&& lit_at(t, pos as int, a)
            &&& token_at(t, p1, dec_int(e.id as int))
            &&& lit_at(t, p2, b)
            &&& token_at(t, p3, dec_nat(e.windows as nat))
            &&& lit_at(t, p4, c)
        } by {
            let di = dec_int(e.id as int);
            let dw = dec_nat(e.windows as nat);
            lemma_lit_concat(t, pos as int, a + di + b + dw, c);
            lemma_lit_concat(t, pos as int, a + di + b, dw);
            lemma_lit_concat(t, pos as int, a + di, b);
            lemma_lit_concat(t, pos as int, a, di);
            lemma_token_before(t, pos + a.len(), di, b);
            lemma_token_before(t, pos + a.len() + di.len() + b.len(), dw, c);
        }
    }
    let p1 = match read_lit(s, pos, "{\"id\":") {
        Some(p) => p,
        None => return None,
    };
    let (id, p2) = match read_int(s, p1) {
        Some(x) => x,
        None => return None,
    };
    let p3 = match read_lit(s, p2, ",\"windows\":") {
        Some(p) => p,
        None => return None,
    };
    let (windows, p4) = match read_nat(s, p3, 0xFFFF) {
        Some(x) => x,
        None => return None,
    };
    let q = match read_lit(s, p4, "}") {
        Some(p) => p,
        None => return None,
    };
    let e = WorkspaceEntry { id, windows: windows as u16 };
    proof {
        let di = dec_int(e.id as int);
        let dw = dec_nat(e.windows as nat);
        lemma_lit_concat(t, pos as int, a, di);
        lemma_lit_concat(t, pos as int, a + di, b);
        lemma_lit_concat(t, pos as int, a + di + b, dw);
        lemma_lit_concat(t, pos as int, a + di + b + dw, c);
    }
    Some((e, q))
}

/// Reads a line printed by [`serialize_workspaces`]. It gives back exactly
/// the snapshot whose text the line is, and `None` when it is no such text.
pub fn parse_workspaces(s: &str) -> (r: Option<WorkspaceSnapshot>)
    ensures
        r matches Some(x) ==> snapshot_text(x.workspaces@, x.active_workspace) == s@,
        forall|ws: Seq<WorkspaceEntry>, a: i32|
            #[trigger] snapshot_text(ws, a) == s@ ==> (r matches Some(x) && x.workspaces@ == ws && x.active_workspace == a),
{
    let ghost t = s@;
    let ghost h1 = "{\"active_workspace\":"@;
    let ghost h2 = ",\"workspaces\":["@;
    let ghost tl = "]}"@;
    let len = s.unicode_len();
    proof {
        reveal_strlit("{\"active_workspace\":");
        reveal_strlit(",\"workspaces\":[");
        reveal_strlit("]}");
        reveal_strlit(",");
        assert forall|ws: Seq<WorkspaceEntry>, a: i32| #[trigger] snapshot_text(ws, a) == t implies {
            &&& lit_at(t, 0, h1)
            &&& token_at(t, h1.len() as int, dec_int(a as int))
            &&& lit_at(t, (h1.len() + dec_int(a as int).len()) as int, h2)
            &&& lit_at(t, snapshot_head(a).len() as int, entries_text(ws) + tl)
        } by {
            let da = dec_int(a as int);
            lemma_lit_concat(t, 0, snapshot_head(a), entries_text(ws) + tl);
            assert(lit_at(t, 0, t)) by {
                assert(t.subrange(0, t.len() as int) =~= t);
            }
            assert(snapshot_head(a) + (entries_text(ws) + tl) =~= t);
            lemma_lit_concat(t, 0, h1 + da, h2);
            lemma_lit_concat(t, 0, h1, da);
            lemma_token_before(t, h1.len() as int, da, h2);
        }
    }
    let p1 = match read_lit(s, 0, "{\"active_workspace\":") {
        Some(p) => p,
        None => return None,
    };
    let (active, p2) = match read_int(s, p1) {
        Some(x) => x,
        None => return None,
    };
    let p3 = match read_lit(s, p2, ",\"workspaces\":[") {
        Some(p) => p,
        None => return None,
    };
    let ghost head = snapshot_head(active);
    proof {
        lemma_lit_concat(t, 0, h1, dec_int(active as int));
        lemma_lit_concat(t, 0, h1 + dec_int(active as int), h2);
        assert(p3 == head.len());
        assert(lit_at(t, 0, head));
    }
    // An empty list.
    match read_lit(s, p3, "]}") {
        Some(q) => {
            proof {
                assert forall|ws: Seq<WorkspaceEntry>, a: i32| #[trigger] snapshot_text(ws, a) == t implies ws.len() == 0
                    && q == len by {
                    lemma_lit_concat(t, p3 as int, entries_text(ws), tl);
                    if ws.len() > 0 {
                        lemma_entry_text_shape(ws[0]);
                        lemma_entries_first(ws);
                        assert(t.subrange(p3 as int, p3 + tl.len())[0] == t[p3 as int]);
                        assert(t.subrange(p3 as int, p3 + entries_text(ws).len())[0] == t[p3 as int]);
                    }
                    assert(entries_text(ws) == Seq::<char>::empty());
                }
            }
            if q == len {
                let x = WorkspaceSnapshot { workspaces: Vec::new(), active_workspace: active };
                proof {
                    assert(entries_text(x.workspaces@) == Seq::<char>::empty());
                    lemma_lit_concat(t, 0, head, tl);
                    assert(head + entries_text(x.workspaces@) + tl =~= head + tl);
                    assert(t =~= t.subrange(0, (head + tl).len() as int));
                }
                return Some(x);
            } else {
                return None;
            }
        },
        None => {},
    }
    proof {
        assert forall|ws: Seq<WorkspaceEntry>, a: i32| #[trigger] snapshot_text(ws, a) == t implies ws.len() >= 1
            && lit_at(t, p3 as int, entry_text(ws[0])) by {
            lemma_lit_concat(t, p3 as int, entries_text(ws), tl);
            if ws.len() == 0 {
                assert(entries_text(ws) + tl =~= tl);
            }
            lemma_entries_first(ws);
            lemma_lit_concat(t, p3 as int, entry_text(ws[0]), entries_after(ws, 1));
        }
    }
    let (e0, mut pos) = match read_entry(s, p3) {
        Some(x) => x,
        None => return None,
    };
    let mut parsed: Vec<WorkspaceEntry> = Vec::new();
    parsed.push(e0);
    proof {
        assert(entries_text(parsed@) == entry_text(e0));
        lemma_lit_concat(t, 0, head, entry_text(e0));
        assert forall|ws: Seq<WorkspaceEntry>, a: i32| #[trigger] snapshot_text(ws, a) == t implies parsed@.len() <= ws.len()
            && ws.subrange(0, parsed@.len() as int) == parsed@ by {
            assert(ws.subrange(0, 1) =~= parsed@);
        }
    }
    loop
        invariant
            len == t.len(),
            t == s@,
            parsed@.len() >= 1,
            head == snapshot_head(active),
            pos == head.len() + entries_text(parsed@).len(),
            lit_at(t, 0, head + entries_text(parsed@)),
            forall|ws: Seq<WorkspaceEntry>, a: i32| #[trigger] snapshot_text(ws, a) == t ==> a == active
                && parsed@.len() <= ws.len() && ws.subrange(0, parsed@.len() as int) == parsed@,
        ensures
            len == t.len(),
            parsed@.len() >= 1,
            pos == head.len() + entries_text(parsed@).len(),
            lit_at(t, 0, head + entries_text(parsed@)),
            forall|ws: Seq<WorkspaceEntry>, a: i32| #[trigger] snapshot_text(ws, a) == t ==> ws == parsed@,
        decreases len - pos,
    {
        let ghost k = parsed@.len() as int;
        let p1 = match read_lit(s, pos, ",") {
            Some(p) => p,
            None => {
                proof {
                    assert forall|ws: Seq<WorkspaceEntry>, a: i32| #[trigger] snapshot_text(ws, a) == t implies ws == parsed@ by {
                        lemma_snapshot_at(t, ws, a, k);
                        assert(ws.subrange(0, k) == parsed@);
                        if k == ws.len() {
                            assert(ws.subrange(0, k) =~= ws);
                        }
                    }
                }
                break;
            },
        };
        let (e, p2) = match read_entry(s, p1) {
            Some(x) => x,
            None => {
                proof {
                    assert forall|ws: Seq<WorkspaceEntry>, a: i32| #[trigger] snapshot_text(ws, a) == t implies false by {
                        lemma_snapshot_at(t, ws, a, k);
                        assert(ws.subrange(0, k) == parsed@);
                        reveal_strlit(",");
                        reveal_strlit("]}");
                        if k == ws.len() {
                            lemma_lit_first(t, pos as int, "]}"@);
                            lemma_lit_first(t, pos as int, ","@);
                        }
                    }
                }
                return None;
            },
        };
        let ghost old_parsed = parsed@;
        parsed.push(e);
        proof {
            assert(parsed@.drop_last() =~= old_parsed);
            assert(entries_text(parsed@) == entries_text(old_parsed) + ","@ + entry_text(e));
            lemma_lit_concat(t, 0, head + entries_text(old_parsed), ","@);
            lemma_lit_concat(t, 0, head + entries_text(old_parsed) + ","@, entry_text(e));
            assert(head + entries_text(parsed@) =~= head + entries_text(old_parsed) + ","@ + entry_text(e));
            assert forall|ws: Seq<WorkspaceEntry>, a: i32| #[trigger] snapshot_text(ws, a) == t implies parsed@.len() <= ws.len()
                && ws.subrange(0, parsed@.len() as int) == parsed@ by {
                lemma_snapshot_at(t, ws, a, k);
                assert(ws.subrange(0, k) == old_parsed);
                reveal_strlit(",");
                reveal_strlit("]}");
                if k == ws.len() {
                    lemma_lit_first(t, pos as int, "]}"@);
                    lemma_lit_first(t, pos as int, ","@);
                } else {
                    assert(ws.subrange(0, k + 1) =~= parsed@);
                }
            }
        }
        pos = p2;
    }
    let q = match read_lit(s, pos, "]}") {
        Some(q) => q,
        None => {
            proof {
                assert forall|ws: Seq<WorkspaceEntry>, a: i32| #[trigger] snapshot_text(ws, a) == t implies false by {
                    let k = parsed@.len() as int;
                    assert(ws.subrange(0, k) =~= ws);
                    lemma_snapshot_at(t, ws, a, k);
                }
            }
            return None;
        },
    };
    if q != len {
        proof {
            assert forall|ws: Seq<WorkspaceEntry>, a: i32| #[trigger] snapshot_text(ws, a) == t implies false by {
                let k = parsed@.len() as int;
                assert(ws.subrange(0, k) =~= ws);
                lemma_snapshot_at(t, ws, a, k);
            }
        }
        return None;
    }
    let x = WorkspaceSnapshot { workspaces: parsed, active_workspace: active };
    proof {
        lemma_lit_concat(t, 0, head + entries_text(x.workspaces@), tl);
        assert(t =~= t.subrange(0, q as int));
    }
    Some(x)
}

/// Appends the text of one entry.
fn push_entry(out: &mut String, e: WorkspaceEntry)
    ensures
        final(out)@ == old(out)@ + entry_text(e),
{
    out.append("{\"id\":");
    push_int(out, e.id);
    out.append(",\"windows\":");
    push_nat(out, e.windows as u64);
    out.append("}");
    proof {
        assert(final(out)@ =~= old(out)@ + entry_text(e));
    }
}

/// The list of workspaces as a JSON array, one `{"id":..,"windows":..}`
/// object per workspace, in order.
pub fn get_workspaces_id(snapshot: &WorkspaceSnapshot) -> (r: String)
    ensures
        r@ == "["@ + entries_text(snapshot.workspaces@) + "]"@,
{
    let ws = &snapshot.workspaces;
    let mut out = String::new();
    out.append("[");
    proof {
        assert(ws@.subrange(0, 0) =~= Seq::<WorkspaceEntry>::empty());
        assert(out@ =~= "["@ + entries_text(ws@.subrange(0, 0)));
    }
    let n = ws.len();
    let mut k: usize = 0;
    while k < n
        invariant
            n == ws@.len(),
            k <= n,
            out@ == "["@ + entries_text(ws@.subrange(0, k as int)),
        decreases n - k,
    {
        if k > 0 {
            out.append(",");
        }
        push_entry(&mut out, ws[k]);
        proof {
            let p = ws@.subrange(0, k + 1);
            assert(p.drop_last() =~= ws@.subrange(0, k as int));
            assert(p.last() == ws@[k as int]);
            if k == 0 {
                assert(entries_text(ws@.subrange(0, 0)) == Seq::<char>::empty());
            }
            assert(out@ =~= "["@ + entries_text(p));
        }
        k = k + 1;
    }
    out.append("]");
    proof {
        assert(ws@.subrange(0, n as int) =~= ws@);
    }
    out
}

/// The snapshot as one line of JSON:
/// `{"active_workspace":<id>,"workspaces":[{"id":<id>,"windows":<n>},...]}`.
pub fn serialize_workspaces(snapshot: &WorkspaceSnapshot) -> (r: String)
    ensures
        r@ == snapshot_text(snapshot.workspaces@, snapshot.active_workspace),
{
    let mut out = String::new();
    out.append("{\"active_workspace\":");
    push_int(&mut out, snapshot.active_workspace);
    out.append(",\"workspaces\":");
    let list = get_workspaces_id(snapshot);
    out.append(list.as_str());
    out.append("}");
    proof {
        reveal_strlit(",\"workspaces\":[");
        reveal_strlit(",\"workspaces\":");
        reveal_strlit("[");
        reveal_strlit("]}");
        reveal_strlit("]");
        reveal_strlit("}");
        assert(out@ =~= snapshot_text(snapshot.workspaces@, snapshot.active_workspace));
    }
    out
}

/// The identifier of the focused workspace.
pub fn get_workspaces_active_id(snapshot: &WorkspaceSnapshot) -> (r: i32)
    ensures
        r == snapshot.active_workspace,
{
    snapshot.active_workspace
}

/// Two decimal numbers read at the same place are the same number.
proof fn lemma_token_nat_unique(t: Seq<char>, p: int, m: nat, n: nat)
    requires
        token_at(t, p, dec_nat(m)),
        token_at(t, p, dec_nat(n)),
    ensures
        m == n,
{
    let wm = dec_nat(m);
    let wn = dec_nat(n);
    lemma_dec_nat_shape(m);
    lemma_dec_nat_shape(n);
    if wm.len() < wn.len() {
        assert(t.subrange(p, p + wn.len())[wm.len() as int] == t[p + wm.len()]);
        assert(is_digit(wn[wm.len() as int]));
    } else if wn.len() < wm.len() {
        assert(t.subrange(p, p + wm.len())[wn.len() as int] == t[p + wn.len()]);
        assert(is_digit(wm[wn.len() as int]));
    }
    assert(wm == wn);
    lemma_dec_nat_value(m);
    lemma_dec_nat_value(n);
}

proof fn lemma_token_int_unique(t: Seq<char>, p: int, x: i32, y: i32)
    requires
        token_at(t, p, dec_int(x as int)),
        token_at(t, p, dec_int(y as int)),
    ensures
        x == y,
{
    let wx = dec_int(x as int);
    let wy = dec_int(y as int);
    assert(t.subrange(p, p + wx.len())[0] == t[p]);
    assert(t.subrange(p, p + wy.len())[0] == t[p]);
    if x < 0 && y < 0 {
        let ux = dec_nat((-x) as nat);
        let uy = dec_nat((-y) as nat);
        assert(t.subrange(p + 1, p + 1 + ux.len()) =~= t.subrange(p, p + wx.len()).subrange(1, wx.len() as int));
        assert(t.subrange(p + 1, p + 1 + uy.len()) =~= t.subrange(p, p + wy.len()).subrange(1, wy.len() as int));
        assert(wx.subrange(1, wx.len() as int) =~= ux);
        assert(wy.subrange(1, wy.len() as int) =~= uy);
        lemma_token_nat_unique(t, p + 1, (-x) as nat, (-y) as nat);
    } else if x >= 0 && y >= 0 {
        lemma_token_nat_unique(t, p, x as nat, y as nat);
    } else if x < 0 {
        lemma_dec_nat_shape(y as nat);
        assert(is_digit(wy[0]));
    } else {
        lemma_dec_nat_shape(x as nat);
        assert(is_digit(wx[0]));
    }
}

/// Two entries read at the same place are the same entry.
proof fn lemma_entry_unique(t: Seq<char>, p: int, e1: WorkspaceEntry, e2: WorkspaceEntry)
    requires
        0 <= p,
        lit_at(t, p, entry_text(e1)),
        lit_at(t, p, entry_text(e2)),
    ensures
        e1 == e2,
{
    let a = "{\"id\":"@;
    let b = ",\"windows\":"@;
    let c = "}"@;
    reveal_strlit("{\"id\":");
    reveal_strlit(",\"windows\":");
    reveal_strlit("}");
    let i1 = dec_int(e1.id as int);
    let i2 = dec_int(e2.id as int);
    let w1 = dec_nat(e1.windows as nat);
    let w2 = dec_nat(e2.windows as nat);
    lemma_lit_concat(t, p, a + i1 + b + w1, c);
    lemma_lit_concat(t, p, a + i1 + b, w1);
    lemma_lit_concat(t, p, a + i1, b);
    lemma_lit_concat(t, p, a, i1);
    lemma_lit_concat(t, p, a + i2 + b + w2, c);
    lemma_lit_concat(t, p, a + i2 + b, w2);
    lemma_lit_concat(t, p, a + i2, b);
    lemma_lit_concat(t, p, a, i2);
    lemma_token_before(t, p + a.len(), i1, b);
    lemma_token_before(t, p + a.len(), i2, b);
    lemma_token_int_unique(t, p + a.len(), e1.id, e2.id);
    lemma_token_before(t, p + a.len() + i1.len() + b.len(), w1, c);
    lemma_token_before(t, p + a.len() + i1.len() + b.len(), w2, c);
    lemma_token_nat_unique(t, p + a.len() + i1.len() + b.len(), e1.windows as nat, e2.windows as nat);
}

proof fn lemma_entries_agree(t: Seq<char>, ws1: Seq<WorkspaceEntry>, ws2: Seq<WorkspaceEntry>, a: i32, k: int)
    requires
        snapshot_text(ws1, a) == t,
        snapshot_text(ws2, a) == t,
        1 <= k <= ws1.len(),
        k <= ws2.len(),
        ws1.subrange(0, k) == ws2.subrange(0, k),
    ensures
        ws1 == ws2,
    decreases ws1.len() - k,
{
    reveal_strlit(",");
    reveal_strlit("]}");
    lemma_snapshot_at(t, ws1, a, k);
    lemma_snapshot_at(t, ws2, a, k);
    let pos = (snapshot_head(a).len() + entries_text(ws1.subrange(0, k)).len()) as int;
    if k == ws1.len() && k == ws2.len() {
        assert(ws1 =~= ws1.subrange(0, k));
        assert(ws2 =~= ws2.subrange(0, k));
    } else if k == ws1.len() {
        lemma_lit_first(t, pos, "]}"@);
        lemma_lit_first(t, pos, ","@);
    } else if k == ws2.len() {
        lemma_lit_first(t, pos, "]}"@);
        lemma_lit_first(t, pos, ","@);
    } else {
        lemma_entry_unique(t, pos + 1, ws1[k], ws2[k]);
        assert(ws1.subrange(0, k + 1) =~= ws1.subrange(0, k).push(ws1[k]));
        assert(ws2.subrange(0, k + 1) =~= ws2.subrange(0, k).push(ws2[k]));
        lemma_entries_agree(t, ws1, ws2, a, k + 1);
    }
}

/// The line printed for a snapshot is the line of no other snapshot. So
/// reading it back with [`parse_workspaces`], which returns the snapshot
/// whose line it reads, gives the same workspaces in the same order and the
/// same focused workspace.
pub proof fn lemma_round_trip(ws: Seq<WorkspaceEntry>, active: i32)
    ensures
        forall|ws2: Seq<WorkspaceEntry>, active2: i32|
            #[trigger] snapshot_text(ws2, active2) == snapshot_text(ws, active) ==> ws2 == ws && active2 == active,
{
    assert forall|ws2: Seq<WorkspaceEntry>, active2: i32|
        #[trigger] snapshot_text(ws2, active2) == snapshot_text(ws, active) implies ws2 == ws && active2 == active by {
        lemma_snapshot_text_injective(ws, active, ws2, active2);
    }
}

proof fn lemma_snapshot_text_injective(ws1: Seq<WorkspaceEntry>, a1: i32, ws2: Seq<WorkspaceEntry>, a2: i32)
    requires
        snapshot_text(ws1, a1) == snapshot_text(ws2, a2),
    ensures
        ws1 == ws2,
        a1 == a2,
{
    let t = snapshot_text(ws1, a1);
    let h1 = "{\"active_workspace\":"@;
    let h2 = ",\"workspaces\":["@;
    let tl = "]}"@;
    reveal_strlit("{\"active_workspace\":");
    reveal_strlit(",\"workspaces\":[");
    reveal_strlit("]}");
    assert(lit_at(t, 0, t)) by {
        assert(t.subrange(0, t.len() as int) =~= t);
    }
    let d1 = dec_int(a1 as int);
    let d2 = dec_int(a2 as int);
    assert(t =~= (h1 + d1 + h2) + (entries_text(ws1) + tl));
    assert(t =~= (h1 + d2 + h2) + (entries_text(ws2) + tl));
    lemma_lit_concat(t, 0, h1 + d1 + h2, entries_text(ws1) + tl);
    lemma_lit_concat(t, 0, h1 + d2 + h2, entries_text(ws2) + tl);
    lemma_lit_concat(t, 0, h1 + d1, h2);
    lemma_lit_concat(t, 0, h1 + d2, h2);
    lemma_lit_concat(t, 0, h1, d1);
    lemma_lit_concat(t, 0, h1, d2);
    lemma_token_before(t, h1.len() as int, d1, h2);
    lemma_token_before(t, h1.len() as int, d2, h2);
    lemma_token_int_unique(t, h1.len() as int, a1, a2);
    let p = snapshot_head(a1).len() as int;
    lemma_lit_concat(t, p, entries_text(ws1), tl);
    lemma_lit_concat(t, p, entries_text(ws2), tl);
    if ws1.len() == 0 && ws2.len() == 0 {
        assert(ws1 =~= ws2);
    } else if ws1.len() == 0 {
        assert(entries_text(ws1) == Seq::<char>::empty());
        lemma_entries_first(ws2);
        lemma_entry_text_shape(ws2[0]);
        lemma_lit_concat(t, p, entry_text(ws2[0]), entries_after(ws2, 1));
        lemma_lit_first(t, p, tl);
        lemma_lit_first(t, p, entry_text(ws2[0]));
    } else if ws2.len() == 0 {
        assert(entries_text(ws2) == Seq::<char>::empty());
        lemma_entries_first(ws1);
        lemma_entry_text_shape(ws1[0]);
        lemma_lit_concat(t, p, entry_text(ws1[0]), entries_after(ws1, 1));
        lemma_lit_first(t, p, tl);
        lemma_lit_first(t, p, entry_text(ws1[0]));
    } else {
        lemma_entries_first(ws1);
        lemma_entries_first(ws2);
        lemma_lit_concat(t, p, entry_text(ws1[0]), entries_after(ws1, 1));
        lemma_lit_concat(t, p, entry_text(ws2[0]), entries_after(ws2, 1));
        lemma_entry_unique(t, p, ws1[0], ws2[0]);
        assert(ws1.subrange(0, 1) =~= ws2.subrange(0, 1));
        lemma_entries_agree(t, ws1, ws2, a1, 1);
    }
}

} // verus!
