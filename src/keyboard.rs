//! Choosing the keyboard whose layout the bar shows, and reading the layout
//! name out of a layout change event.
use vstd::prelude::*;
use crate::scan::{lit_at, read_lit};

verus! {

/// `t` holds `p` somewhere.
pub open spec fn contains(t: Seq<char>, p: Seq<char>) -> bool {
    exists|i: int| lit_at(t, i, p)
}

/// Keyboards proper carry `(kb)` in their name.
pub open spec fn is_keyboard_name(t: Seq<char>) -> bool {
    contains(t, "(kb)"@)
}

/// Lexicographic order on character sequences; a proper prefix comes first.
/// It is the order of the texts' UTF-8 bytes.
pub open spec fn seq_lt(a: Seq<char>, b: Seq<char>) -> bool
    decreases a.len(),
{
    if a.len() == 0 {
        b.len() > 0
    } else if b.len() == 0 {
        false
    } else if (a[0] as u32) != (b[0] as u32) {
        (a[0] as u32) < (b[0] as u32)
    } else {
        seq_lt(a.drop_first(), b.drop_first())
    }
}

/// Whether `p` occurs in `t`.
pub fn contains_str(t: &str, p: &str) -> (r: bool)
    ensures
        r == contains(t@, p@),
{
    let n = t.unicode_len();
    let m = p.unicode_len();
    if m > n {
        proof {
            assert forall|i: int| !lit_at(t@, i, p@) by {}
        }
        return false;
    }
    if m == 0 {
        proof {
            assert(lit_at(t@, 0, p@)) by {
                assert(t@.subrange(0, 0) =~= p@);
            }
        }
        return true;
    }
    let mut i: usize = 0;
    while i <= n - m
        invariant
            n == t@.len(),
            m == p@.len(),
            1 <= m <= n,
            i <= n - m + 1,
            forall|j: int| 0 <= j < i ==> !#[trigger] lit_at(t@, j, p@),
        decreases n - m + 1 - i,
    {
        if read_lit(t, i, p).is_some() {
            return true;
        }
        i = i + 1;
    }
    false
}

/// Whether `a` comes before `b` in lexicographic order.
pub fn str_lt(a: &str, b: &str) -> (r: bool)
    ensures
        r == seq_lt(a@, b@),
{
    let n = a.unicode_len();
    let m = b.unicode_len();
    let mut i: usize = 0;
    proof {
        assert(a@.subrange(0, n as int) =~= a@);
        assert(b@.subrange(0, m as int) =~= b@);
    }
    while i < n && i < m
        invariant
            n == a@.len(),
            m == b@.len(),
            i <= n,
            i <= m,
            seq_lt(a@, b@) == seq_lt(a@.subrange(i as int, n as int), b@.subrange(i as int, m as int)),
        decreases n - i,
    {
        let x = a.get_char(i);
        let y = b.get_char(i);
        let ghost sa = a@.subrange(i as int, n as int);
        let ghost sb = b@.subrange(i as int, m as int);
        if (x as u32) != (y as u32) {
            proof {
                assert(sa[0] == x);
                assert(sb[0] == y);
            }
            return (x as u32) < (y as u32);
        }
        proof {
            assert(sa.drop_first() =~= a@.subrange(i + 1, n as int));
            assert(sb.drop_first() =~= b@.subrange(i + 1, m as int));
        }
        i = i + 1;
    }
    i < m
}

/// The index of the keyboard whose name the bar follows: of the names that
/// contain `(kb)`, the least in lexicographic order, the first of equal
/// ones. `None` when no name contains `(kb)`.
pub fn select_keyboard(names: &Vec<String>) -> (r: Option<usize>)
    ensures
        r is None <==> (forall|j: int| 0 <= j < names@.len() ==> !is_keyboard_name(#[trigger] names@[j]@)),
        r matches Some(i) ==> {
            &&& i < names@.len()
            &&& is_keyboard_name(names@[i as int]@)
            &&& forall|j: int|
                0 <= j < names@.len() && is_keyboard_name(#[trigger] names@[j]@) ==> !seq_lt(names@[j]@, names@[i as int]@)
            &&& forall|j: int|
                0 <= j < i && is_keyboard_name(#[trigger] names@[j]@) ==> seq_lt(names@[i as int]@, names@[j]@)
        },
{
    let mut best: Option<usize> = None;
    let mut k: usize = 0;
    while k < names.len()
        invariant
            k <= names@.len(),
            best is None <==> (forall|j: int| 0 <= j < k ==> !is_keyboard_name(#[trigger] names@[j]@)),
            best matches Some(i) ==> {
                &&& i < k
                &&& is_keyboard_name(names@[i as int]@)
                &&& forall|j: int|
                    0 <= j < k && is_keyboard_name(#[trigger] names@[j]@) ==> !seq_lt(names@[j]@, names@[i as int]@)
                &&& forall|j: int|
                    0 <= j < i && is_keyboard_name(#[trigger] names@[j]@) ==> seq_lt(names@[i as int]@, names@[j]@)
            },
        decreases names@.len() - k,
    {
        proof {
            reveal_strlit("(kb)");
        }
        if contains_str(names[k].as_str(), "(kb)") {
            match best {
                None => {
                    proof {
                        lemma_seq_lt_facts(names@[k as int]@, names@[k as int]@);
                    }
                    best = Some(k);
                },
                Some(i) => {
                    if str_lt(names[k].as_str(), names[i].as_str()) {
                        proof {
                            assert forall|j: int| 0 <= j <= k && is_keyboard_name(#[trigger] names@[j]@) implies !seq_lt(names@[j]@, names@[k as int]@)
                                && (j < k ==> seq_lt(names@[k as int]@, names@[j]@)) by {
                                lemma_seq_lt_facts(names@[k as int]@, names@[k as int]@);
                                if j < k {
                                    lemma_seq_lt_trans_le(names@[k as int]@, names@[i as int]@, names@[j]@);
                                    lemma_seq_lt_facts(names@[k as int]@, names@[j]@);
                                }
                            }
                        }
                        best = Some(k);
                    }
                },
            }
        }
        k = k + 1;
    }
    best
}

/// `seq_lt` is irreflexive and asymmetric.
proof fn lemma_seq_lt_facts(a: Seq<char>, b: Seq<char>)
    ensures
        !seq_lt(a, a),
        seq_lt(a, b) ==> !seq_lt(b, a),
    decreases a.len(),
{
    if a.len() > 0 && b.len() > 0 {
        lemma_seq_lt_facts(a.drop_first(), b.drop_first());
    }
    if a.len() > 0 {
        lemma_seq_lt_facts(a.drop_first(), a.drop_first());
    }
}

/// `a < b` and `b <= c` give `a < c`.
proof fn lemma_seq_lt_trans_le(a: Seq<char>, b: Seq<char>, c: Seq<char>)
    requires
        seq_lt(a, b),
        !seq_lt(c, b),
    ensures
        seq_lt(a, c),
    decreases a.len(),
{
    if a.len() > 0 && b.len() > 0 && c.len() > 0 {
        if (a[0] as u32) == (b[0] as u32) && (b[0] as u32) == (c[0] as u32) {
            lemma_seq_lt_trans_le(a.drop_first(), b.drop_first(), c.drop_first());
        }
    }
}

/// The first comma of `t`, if any.
pub open spec fn first_comma(t: Seq<char>, i: int) -> bool {
    &&& 0 <= i < t.len()
    &&& t[i] == ','
    &&& forall|j: int| 0 <= j < i ==> t[j] != ','
}

/// The layout name of a layout change event: what follows the first comma
/// of the event's text. `None` when there is no comma.
pub fn layout_name(event: &str) -> (r: Option<String>)
    ensures
        r is None <==> (forall|j: int| 0 <= j < event@.len() ==> event@[j] != ','),
        r matches Some(l) ==> exists|i: int| #[trigger] first_comma(event@, i) && l@ == event@.subrange(i + 1, event@.len() as int),
{
    let n = event.unicode_len();
    let mut i: usize = 0;
    while i < n
        invariant
            n == event@.len(),
            i <= n,
            forall|j: int| 0 <= j < i ==> event@[j] != ',',
        decreases n - i,
    {
        if event.get_char(i) == ',' {
            let rest = event.substring_char(i + 1, n);
            proof {
                assert(first_comma(event@, i as int));
            }
            return Some(rest.to_owned());
        }
        i = i + 1;
    }
    None
}

} // verus!
