//! Decimal numbers and fixed literals in text: writing them, and reading them
//! back at a position.
use vstd::prelude::*;
use vstd::string::*;

verus! {

pub open spec fn is_digit(c: char) -> bool {
    '0' <= c && c <= '9'
}

/// The character of a decimal digit `0 <= d < 10`.
pub open spec fn digit_char(d: int) -> char {
    ((d + 48) as u8) as char
}

/// The value of a decimal digit character.
pub open spec fn char_value(c: char) -> int {
    (c as u32) as int - 48
}

/// The shortest decimal text of a natural number: no sign, no leading zero.
pub open spec fn dec_nat(n: nat) -> Seq<char>
    decreases n,
{
    if n < 10 {
        seq![digit_char(n as int)]
    } else {
        dec_nat(n / 10).push(digit_char((n % 10) as int))
    }
}

/// The decimal text of an integer: a minus sign before the magnitude of a
/// negative number.
pub open spec fn dec_int(i: int) -> Seq<char> {
    if i < 0 {
        seq!['-'] + dec_nat((-i) as nat)
    } else {
        dec_nat(i as nat)
    }
}

/// The value of a sequence of digit characters, most significant first.
pub open spec fn digits_value(t: Seq<char>) -> int
    decreases t.len(),
{
    if t.len() == 0 {
        0
    } else {
        digits_value(t.drop_last()) * 10 + char_value(t.last())
    }
}

pub open spec fn all_digits(t: Seq<char>) -> bool {
    forall|k: int| 0 <= k < t.len() ==> is_digit(#[trigger] t[k])
}

/// `t` holds the text `w` at `pos`, and no digit follows it.
pub open spec fn token_at(t: Seq<char>, pos: int, w: Seq<char>) -> bool {
    &&& 0 <= pos
    &&& pos + w.len() <= t.len()
    &&& t.subrange(pos, pos + w.len()) == w
    &&& (pos + w.len() == t.len() || !is_digit(t[pos + w.len()]))
}

proof fn lemma_digit_roundtrip(d: int)
    requires
        0 <= d < 10,
    ensures
        is_digit(digit_char(d)),
        char_value(digit_char(d)) == d,
{
}

proof fn lemma_char_roundtrip(c: char)
    requires
        is_digit(c),
    ensures
        0 <= char_value(c) < 10,
        digit_char(char_value(c)) == c,
{
}

proof fn lemma_div_mod_10(a: int, d: int)
    requires
        0 <= a,
        0 <= d < 10,
    ensures
        (a * 10 + d) / 10 == a,
        (a * 10 + d) % 10 == d,
{
    assert((a * 10 + d) / 10 == a) by (nonlinear_arith)
        requires
            0 <= a,
            0 <= d < 10,
    ;
    assert((a * 10 + d) % 10 == d) by (nonlinear_arith)
        requires
            0 <= a,
            0 <= d < 10,
    ;
}

/// The text of a number is a nonempty run of digits, which starts with `0`
/// only for zero itself.
pub proof fn lemma_dec_nat_shape(n: nat)
    ensures
        dec_nat(n).len() >= 1,
        all_digits(dec_nat(n)),
        n == 0 ==> dec_nat(n) == seq!['0'],
        n > 0 ==> dec_nat(n)[0] != '0',
    decreases n,
{
    if n < 10 {
        lemma_digit_roundtrip(n as int);
        if n > 0 {
            assert(char_value(dec_nat(n)[0]) == n);
        }
        if n == 0 {
            assert(dec_nat(n) =~= seq!['0']);
        }
    } else {
        lemma_dec_nat_shape(n / 10);
        lemma_digit_roundtrip((n % 10) as int);
        let p = dec_nat(n / 10);
        assert forall|k: int| 0 <= k < dec_nat(n).len() implies is_digit(#[trigger] dec_nat(n)[k]) by {
            if k < p.len() {
                assert(dec_nat(n)[k] == p[k]);
            }
        }
        assert(dec_nat(n)[0] == p[0]);
    }
}

/// Reading the text of a number gives the number.
pub proof fn lemma_dec_nat_value(n: nat)
    ensures
        digits_value(dec_nat(n)) == n,
    decreases n,
{
    if n < 10 {
        lemma_digit_roundtrip(n as int);
        assert(seq![digit_char(n as int)].drop_last() =~= Seq::<char>::empty());
        assert(digits_value(Seq::<char>::empty()) == 0);
    } else {
        lemma_dec_nat_value(n / 10);
        lemma_digit_roundtrip((n % 10) as int);
        let p = dec_nat(n / 10);
        assert(p.push(digit_char((n % 10) as int)).drop_last() =~= p);
    }
}

proof fn lemma_value_positive(t: Seq<char>)
    requires
        t.len() >= 1,
        all_digits(t),
        t[0] != '0',
    ensures
        digits_value(t) >= 1,
    decreases t.len(),
{
    if t.len() == 1 {
        assert(t.drop_last() =~= Seq::<char>::empty());
        assert(digits_value(Seq::<char>::empty()) == 0);
        assert(is_digit(t[0]));
    } else {
        let p = t.drop_last();
        assert(p[0] == t[0]);
        assert forall|k: int| 0 <= k < p.len() implies is_digit(#[trigger] p[k]) by {
            assert(p[k] == t[k]);
        }
        lemma_value_positive(p);
        assert(is_digit(t[t.len() - 1]));
    }
}

/// A run of digits without a leading zero is the text of its own value.
pub proof fn lemma_digits_canonical(t: Seq<char>)
    requires
        t.len() >= 1,
        all_digits(t),
        t[0] != '0' || t.len() == 1,
    ensures
        digits_value(t) >= 0,
        dec_nat(digits_value(t) as nat) == t,
    decreases t.len(),
{
    let c = t.last();
    assert(is_digit(t[t.len() - 1]));
    lemma_char_roundtrip(c);
    lemma_value_nonneg(t);
    if t.len() == 1 {
        assert(t.drop_last() =~= Seq::<char>::empty());
        assert(digits_value(Seq::<char>::empty()) == 0);
        assert(dec_nat(digits_value(t) as nat) =~= t);
    } else {
        let p = t.drop_last();
        assert(p[0] == t[0]);
        assert forall|k: int| 0 <= k < p.len() implies is_digit(#[trigger] p[k]) by {
            assert(p[k] == t[k]);
        }
        lemma_value_positive(p);
        lemma_digits_canonical(p);
        let v = digits_value(t);
        lemma_div_mod_10(digits_value(p), char_value(c));
        assert(v >= 10);
        assert(dec_nat(v as nat) == dec_nat((v / 10) as nat).push(digit_char(v % 10)));
        assert(p.push(c) =~= t);
    }
}

/// The value of a prefix of a digit run is at most the value of the run.
proof fn lemma_prefix_value(t: Seq<char>, k: int)
    requires
        0 <= k <= t.len(),
        all_digits(t),
    ensures
        0 <= digits_value(t.subrange(0, k)) <= digits_value(t),
    decreases t.len(),
{
    if k == t.len() {
        assert(t.subrange(0, k) =~= t);
        lemma_value_nonneg(t);
    } else {
        let p = t.drop_last();
        assert forall|j: int| 0 <= j < p.len() implies is_digit(#[trigger] p[j]) by {
            assert(p[j] == t[j]);
        }
        lemma_prefix_value(p, k);
        assert(p.subrange(0, k) =~= t.subrange(0, k));
        assert(is_digit(t[t.len() - 1]));
        lemma_value_nonneg(p);
    }
}

pub proof fn lemma_value_nonneg(t: Seq<char>)
    requires
        all_digits(t),
    ensures
        digits_value(t) >= 0,
    decreases t.len(),
{
    if t.len() > 0 {
        let p = t.drop_last();
        assert forall|j: int| 0 <= j < p.len() implies is_digit(#[trigger] p[j]) by {
            assert(p[j] == t[j]);
        }
        lemma_value_nonneg(p);
        assert(is_digit(t[t.len() - 1]));
    }
}

/// `t` holds the text `w` at `pos`.
pub open spec fn lit_at(t: Seq<char>, pos: int, w: Seq<char>) -> bool {
    &&& 0 <= pos
    &&& pos + w.len() <= t.len()
    &&& t.subrange(pos, pos + w.len()) == w
}

pub fn is_digit_char(c: char) -> (r: bool)
    ensures
        r == is_digit(c),
{
    '0' <= c && c <= '9'
}

/// The one-character text of a decimal digit.
fn digit_str(d: u64) -> (r: &'static str)
    requires
        d < 10,
    ensures
        r@ == seq![digit_char(d as int)],
{
    match d {
        0 => {
            proof {
                reveal_strlit("0");
            }
            "0"
        },
        1 => {
            proof {
                reveal_strlit("1");
            }
            "1"
        },
        2 => {
            proof {
                reveal_strlit("2");
            }
            "2"
        },
        3 => {
            proof {
                reveal_strlit("3");
            }
            "3"
        },
        4 => {
            proof {
                reveal_strlit("4");
            }
            "4"
        },
        5 => {
            proof {
                reveal_strlit("5");
            }
            "5"
        },
        6 => {
            proof {
                reveal_strlit("6");
            }
            "6"
        },
        7 => {
            proof {
                reveal_strlit("7");
            }
            "7"
        },
        8 => {
            proof {
                reveal_strlit("8");
            }
            "8"
        },
        _ => {
            proof {
                reveal_strlit("9");
            }
            "9"
        },
    }
}

/// Appends the decimal text of `n`.
pub fn push_nat(out: &mut String, n: u64)
    ensures
        final(out)@ == old(out)@ + dec_nat(n as nat),
    decreases n,
{
    if n >= 10 {
        push_nat(out, n / 10);
    }
    out.append(digit_str(n % 10));
    proof {
        assert(old(out)@ + dec_nat(n as nat) =~= final(out)@);
    }
}

/// Appends the decimal text of `i`, with a minus sign when it is negative.
pub fn push_int(out: &mut String, i: i32)
    ensures
        final(out)@ == old(out)@ + dec_int(i as int),
{
    if i < 0 {
        proof {
            reveal_strlit("-");
        }
        out.append("-");
        push_nat(out, (-(i as i64)) as u64);
        proof {
            assert(old(out)@ + dec_int(i as int) =~= final(out)@);
        }
    } else {
        push_nat(out, i as u64);
    }
}

/// Matches the literal `lit` at `pos`; on a match, returns the position after it.
pub fn read_lit(s: &str, pos: usize, lit: &str) -> (r: Option<usize>)
    requires
        pos <= s@.len(),
    ensures
        r matches Some(q) ==> q == pos + lit@.len() && lit_at(s@, pos as int, lit@),
        lit_at(s@, pos as int, lit@) ==> r is Some,
{
    let len = s.unicode_len();
    let m = lit.unicode_len();
    if m > len - pos {
        return None;
    }
    let mut j: usize = 0;
    while j < m
        invariant
            len == s@.len(),
            m == lit@.len(),
            pos + m <= len,
            j <= m,
            s@.subrange(pos as int, pos + j) == lit@.subrange(0, j as int),
        decreases m - j,
    {
        if s.get_char(pos + j) != lit.get_char(j) {
            proof {
                assert(s@.subrange(pos as int, pos + m)[j as int] == s@[pos + j]);
            }
            return None;
        }
        proof {
            assert(s@.subrange(pos as int, pos + j + 1) =~= s@.subrange(pos as int, pos + j).push(s@[pos + j]));
            assert(lit@.subrange(0, j + 1) =~= lit@.subrange(0, j as int).push(lit@[j as int]));
        }
        j = j + 1;
    }
    proof {
        assert(lit@.subrange(0, m as int) =~= lit@);
    }
    Some(pos + m)
}

/// Reads a natural number of at most `bound` written in shortest decimal
/// form at `pos`; returns it with the position after its last digit.
pub fn read_nat(s: &str, pos: usize, bound: u64) -> (r: Option<(u64, usize)>)
    requires
        pos <= s@.len(),
        bound <= 0xFFFF_FFFF,
    ensures
        r matches Some((v, e)) ==> v <= bound && e == pos + dec_nat(v as nat).len() && token_at(s@, pos as int, dec_nat(v as nat)),
        forall|n: nat|
            n <= bound && #[trigger] token_at(s@, pos as int, dec_nat(n)) ==> r == Some((n as u64, (pos + dec_nat(n).len()) as usize)),
{
    let len = s.unicode_len();
    if pos >= len || !is_digit_char(s.get_char(pos)) {
        proof {
            assert forall|n: nat| n <= bound && #[trigger] token_at(s@, pos as int, dec_nat(n)) implies false by {
                lemma_dec_nat_shape(n);
                assert(s@.subrange(pos as int, pos + dec_nat(n).len())[0] == s@[pos as int]);
            }
        }
        return None;
    }
    let first = s.get_char(pos);
    if first == '0' {
        if pos + 1 < len && is_digit_char(s.get_char(pos + 1)) {
            proof {
                assert forall|n: nat| n <= bound && #[trigger] token_at(s@, pos as int, dec_nat(n)) implies false by {
                    lemma_dec_nat_shape(n);
                    assert(s@.subrange(pos as int, pos + dec_nat(n).len())[0] == s@[pos as int]);
                }
            }
            return None;
        }
        proof {
            lemma_dec_nat_shape(0);
            assert(s@.subrange(pos as int, pos + 1) =~= seq!['0']);
            assert forall|n: nat| n <= bound && #[trigger] token_at(s@, pos as int, dec_nat(n)) implies n == 0 by {
                lemma_dec_nat_shape(n);
                assert(s@.subrange(pos as int, pos + dec_nat(n).len())[0] == s@[pos as int]);
            }
        }
        return Some((0, pos + 1));
    }
    let mut acc: u64 = 0;
    let mut i: usize = pos;
    proof {
        assert(s@.subrange(pos as int, pos as int) =~= Seq::<char>::empty());
        assert(digits_value(Seq::<char>::empty()) == 0);
    }
    while i < len && is_digit_char(s.get_char(i))
        invariant
            len == s@.len(),
            pos < len,
            s@[pos as int] == first,
            first != '0',
            is_digit(first),
            pos <= i <= len,
            bound <= 0xFFFF_FFFF,
            all_digits(s@.subrange(pos as int, i as int)),
            acc == digits_value(s@.subrange(pos as int, i as int)),
            acc <= bound,
            forall|n: nat| #[trigger] token_at(s@, pos as int, dec_nat(n)) ==> i <= pos + dec_nat(n).len(),
        decreases len - i,
    {
        let c = s.get_char(i);
        let d = (c as u32 - 48) as u64;
        let ghost t = s@.subrange(pos as int, i as int);
        let ghost t1 = s@.subrange(pos as int, i + 1);
        proof {
            assert(t1 =~= t.push(c));
            assert(t1.drop_last() =~= t);
            assert forall|k: int| 0 <= k < t1.len() implies is_digit(#[trigger] t1[k]) by {
                if k < t.len() {
                    assert(t1[k] == t[k]);
                }
            }
        }
        let next = acc * 10 + d;
        if next > bound {
            proof {
                assert forall|n: nat| n <= bound && #[trigger] token_at(s@, pos as int, dec_nat(n)) implies false by {
                    let w = dec_nat(n);
                    lemma_dec_nat_shape(n);
                    lemma_dec_nat_value(n);
                    assert(i + 1 <= pos + w.len());
                    assert(w.subrange(0, i + 1 - pos) =~= t1);
                    lemma_prefix_value(w, i + 1 - pos);
                }
            }
            return None;
        }
        proof {
            assert forall|n: nat| #[trigger] token_at(s@, pos as int, dec_nat(n)) implies i + 1 <= pos + dec_nat(n).len() by {
                if i == pos + dec_nat(n).len() {
                    assert(!is_digit(s@[i as int]));
                }
            }
        }
        acc = next;
        i = i + 1;
    }
    proof {
        let t = s@.subrange(pos as int, i as int);
        assert(i > pos);
        assert(t[0] == first);
        lemma_digits_canonical(t);
        assert forall|n: nat| n <= bound && #[trigger] token_at(s@, pos as int, dec_nat(n)) implies i == pos + dec_nat(n).len()
            && acc == n by {
            let w = dec_nat(n);
            lemma_dec_nat_shape(n);
            lemma_dec_nat_value(n);
            if i < pos + w.len() {
                assert(s@.subrange(pos as int, pos + w.len())[i - pos] == s@[i as int]);
                assert(is_digit(w[i - pos]));
            }
            assert(t =~= w);
        }
    }
    Some((acc, i))
}

/// Reads an `i32` written in shortest decimal form at `pos`, with a minus
/// sign when negative; returns it with the position after its last digit.
pub fn read_int(s: &str, pos: usize) -> (r: Option<(i32, usize)>)
    requires
        pos <= s@.len(),
    ensures
        r matches Some((v, e)) ==> e == pos + dec_int(v as int).len() && token_at(s@, pos as int, dec_int(v as int)),
        forall|v: i32|
            #[trigger] token_at(s@, pos as int, dec_int(v as int)) ==> r == Some((v, (pos + dec_int(v as int).len()) as usize)),
{
    let len = s.unicode_len();
    if pos < len && s.get_char(pos) == '-' {
        let m = read_nat(s, pos + 1, 0x8000_0000);
        proof {
            assert forall|v: i32| #[trigger] token_at(s@, pos as int, dec_int(v as int)) implies v < 0
                && token_at(s@, pos + 1, dec_nat((-v) as nat)) by {
                let w = dec_int(v as int);
                assert(s@.subrange(pos as int, pos + w.len())[0] == s@[pos as int]);
                if v >= 0 {
                    lemma_dec_nat_shape(v as nat);
                    assert(is_digit(w[0]));
                } else {
                    let u = dec_nat((-v) as nat);
                    assert(s@.subrange(pos + 1, pos + 1 + u.len()) =~= s@.subrange(pos as int, pos + w.len()).subrange(1, w.len() as int));
                    assert(w.subrange(1, w.len() as int) =~= u);
                }
            }
        }
        match m {
            Some((n, e)) => {
                if n == 0 {
                    proof {
                        assert forall|v: i32| #[trigger] token_at(s@, pos as int, dec_int(v as int)) implies false by {
                            assert(token_at(s@, pos + 1, dec_nat((-v) as nat)));
                        }
                    }
                    return None;
                }
                let v = (-(n as i64)) as i32;
                proof {
                    let w = dec_int(v as int);
                    assert(w =~= seq!['-'] + dec_nat(n as nat));
                    assert(s@.subrange(pos as int, pos + w.len()) =~= seq![s@[pos as int]] + s@.subrange(pos + 1, e as int));
                }
                Some((v, e))
            },
            None => None,
        }
    } else {
        let m = read_nat(s, pos, 0x7FFF_FFFF);
        proof {
            assert forall|v: i32| #[trigger] token_at(s@, pos as int, dec_int(v as int)) implies v >= 0
                && token_at(s@, pos as int, dec_nat(v as nat)) by {
                let w = dec_int(v as int);
                if v < 0 {
                    assert(s@.subrange(pos as int, pos + w.len())[0] == s@[pos as int]);
                }
            }
        }
        match m {
            Some((n, e)) => Some((n as i32, e)),
            None => None,
        }
    }
}

} // verus!
