//! Verified string helpers shared by the parsers and name builders.
//!
//! Everything here is stated over the `Seq<char>` view of `str` and
//! `String`: first-occurrence splitting, decimal parsing and rendering,
//! and prefix/subtree tests on hierarchical volume names.

use vstd::prelude::*;
use vstd::string::StrSliceExecFns;
use vstd::string::StringExecFns;

verus! {

/// A decimal digit `'0'..='9'`.
pub open spec fn is_digit(c: char) -> bool {
    48 <= c as int && c as int <= 57
}

/// Numeric value of a decimal digit.
pub open spec fn digit_val(c: char) -> nat {
    (c as int - 48) as nat
}

/// The digit character for a value below ten.
pub open spec fn char_of_digit(d: nat) -> char {
    if d == 0 {
        '0'
    } else if d == 1 {
        '1'
    } else if d == 2 {
        '2'
    } else if d == 3 {
        '3'
    } else if d == 4 {
        '4'
    } else if d == 5 {
        '5'
    } else if d == 6 {
        '6'
    } else if d == 7 {
        '7'
    } else if d == 8 {
        '8'
    } else {
        '9'
    }
}

pub open spec fn all_digits(s: Seq<char>) -> bool {
    forall|i: int| 0 <= i < s.len() ==> is_digit(s[i])
}

/// Value of a string of decimal digits, most significant first.
pub open spec fn dec_val(s: Seq<char>) -> nat
    decreases s.len(),
{
    if s.len() == 0 {
        0
    } else {
        dec_val(s.drop_last()) * 10 + digit_val(s.last())
    }
}

pub open spec fn pow10(n: nat) -> nat
    decreases n,
{
    if n == 0 {
        1
    } else {
        10 * pow10((n - 1) as nat)
    }
}

pub proof fn lemma_char_of_digit(d: nat)
    requires
        d < 10,
    ensures
        is_digit(char_of_digit(d)),
        digit_val(char_of_digit(d)) == d,
{
}

/// Dropping trailing digits can only shrink the value.
pub proof fn lemma_dec_val_take(s: Seq<char>, i: int)
    requires
        0 <= i <= s.len(),
    ensures
        dec_val(s.take(i)) <= dec_val(s),
    decreases s.len() - i,
{
    if i < s.len() {
        lemma_dec_val_take(s, i + 1);
        assert(s.take(i + 1).drop_last() =~= s.take(i));
        assert(dec_val(s.take(i + 1)) == dec_val(s.take(i)) * 10 + digit_val(s.take(i + 1).last()));
    } else {
        assert(s.take(i) =~= s);
    }
}

/// Digit strings stay digit strings under concatenation.
pub proof fn lemma_all_digits_concat(a: Seq<char>, b: Seq<char>)
    requires
        all_digits(a),
        all_digits(b),
    ensures
        all_digits(a + b),
{
    assert forall|i: int| 0 <= i < (a + b).len() implies is_digit((a + b)[i]) by {
        if i < a.len() {
            assert((a + b)[i] == a[i]);
        } else {
            assert((a + b)[i] == b[i - a.len()]);
        }
    }
}

/// Find the first occurrence of `sep` in `s`, if any.
pub fn find_char(s: &str, sep: char) -> (r: Option<usize>)
    ensures
        match r {
            Some(i) => {
                &&& i < s@.len()
                &&& s@[i as int] == sep
                &&& forall|k: int| 0 <= k < i ==> s@[k] != sep
            },
            None => forall|k: int| 0 <= k < s@.len() ==> s@[k] != sep,
        },
{
    let n = s.unicode_len();
    let mut i: usize = 0;
    while i < n
        invariant
            n == s@.len(),
            i <= n,
            forall|k: int| 0 <= k < i ==> s@[k] != sep,
        decreases n - i,
    {
        if s.get_char(i) == sep {
            return Some(i);
        }
        i = i + 1;
    }
    None
}

/// Character-for-character string equality.
pub fn str_eq(a: &str, b: &str) -> (r: bool)
    ensures
        r == (a@ == b@),
{
    let na = a.unicode_len();
    let nb = b.unicode_len();
    if na != nb {
        return false;
    }
    let mut i: usize = 0;
    while i < na
        invariant
            na == a@.len(),
            na == b@.len(),
            i <= na,
            forall|k: int| 0 <= k < i ==> a@[k] == b@[k],
        decreases na - i,
    {
        if a.get_char(i) != b.get_char(i) {
            return false;
        }
        i = i + 1;
    }
    proof {
        assert(a@ =~= b@);
    }
    true
}

/// Does `v` hold a string whose characters are those of `x`?
pub fn vec_contains_str(v: &Vec<String>, x: &str) -> (r: bool)
    ensures
        r == v.deep_view().contains(x@),
{
    let mut i: usize = 0;
    while i < v.len()
        invariant
            i <= v@.len(),
            forall|k: int| 0 <= k < i ==> v.deep_view()[k] != x@,
        decreases v@.len() - i,
    {
        proof {
            assert(v.deep_view()[i as int] == v@[i as int]@);
        }
        if str_eq(v[i].as_str(), x) {
            proof {
                assert(v.deep_view().contains(x@)) by {
                    assert(v.deep_view()[i as int] == x@);
                }
            }
            return true;
        }
        i = i + 1;
    }
    proof {
        if v.deep_view().contains(x@) {
            let k = choose|k: int| 0 <= k < v.deep_view().len() && v.deep_view()[k] == x@;
            assert(false);
        }
    }
    false
}

/// Does `name` start with `prefix`?
pub fn has_prefix(name: &str, prefix: &str) -> (r: bool)
    ensures
        r == (name@.len() >= prefix@.len() && name@.take(prefix@.len() as int) == prefix@),
{
    let np = prefix.unicode_len();
    let nn = name.unicode_len();
    if nn < np {
        return false;
    }
    let mut i: usize = 0;
    while i < np
        invariant
            np == prefix@.len(),
            nn == name@.len(),
            np <= nn,
            i <= np,
            forall|k: int| 0 <= k < i ==> name@[k] == prefix@[k],
        decreases np - i,
    {
        if name.get_char(i) != prefix.get_char(i) {
            return false;
        }
        i = i + 1;
    }
    proof {
        assert(name@.take(np as int) =~= prefix@);
    }
    true
}

/// An owned copy of the character range `[from, to)` of `s`.
pub fn substr(s: &str, from: usize, to: usize) -> (r: String)
    requires
        from <= to <= s@.len(),
    ensures
        r@ == s@.subrange(from as int, to as int),
{
    let piece = s.substring_char(from, to);
    piece.to_owned()
}

/// `i` is the position of the first `sep` in `s`.
pub open spec fn is_first_occurrence(s: Seq<char>, sep: char, i: int) -> bool {
    &&& 0 <= i < s.len()
    &&& s[i] == sep
    &&& forall|k: int| 0 <= k < i ==> s[k] != sep
}

/// The split of `s` at the first occurrence of `sep`: everything before
/// it, and everything after it.  `None` when `sep` does not occur.
pub open spec fn split2_spec(s: Seq<char>, sep: char) -> Option<(Seq<char>, Seq<char>)> {
    if s.contains(sep) {
        let i = choose|i: int| is_first_occurrence(s, sep, i);
        Some((s.take(i), s.skip(i + 1)))
    } else {
        None
    }
}

/// Split `s` at the first occurrence of `sep`; the separator itself is
/// dropped.  `None` exactly when `sep` does not occur.
pub fn split_once_at(s: &str, sep: char) -> (r: Option<(String, String)>)
    ensures
        match r {
            Some(parts) => {
                &&& split2_spec(s@, sep) == Some((parts.0@, parts.1@))
                &&& s@ == parts.0@ + seq![sep] + parts.1@
                &&& !parts.0@.contains(sep)
            },
            None => {
                &&& split2_spec(s@, sep) is None
                &&& !s@.contains(sep)
            },
        },
{
    match find_char(s, sep) {
        None => {
            proof {
                assert(!s@.contains(sep));
            }
            None
        },
        Some(i) => {
            let n = s.unicode_len();
            let head = substr(s, 0, i);
            let tail = substr(s, i + 1, n);
            proof {
                assert(s@ =~= head@ + seq![sep] + tail@);
                assert(!head@.contains(sep)) by {
                    assert(forall|k: int| 0 <= k < i ==> s@[k] != sep);
                }
                assert(s@.contains(sep)) by {
                    assert(s@[i as int] == sep);
                }
                assert(is_first_occurrence(s@, sep, i as int));
                let j = choose|j: int| is_first_occurrence(s@, sep, j);
                assert(j == i as int) by {
                    if j < i {
                        assert(s@[j] != sep);
                    }
                    if j > i {
                        assert(s@[i as int] != sep);
                    }
                }
                assert(head@ =~= s@.take(i as int));
                assert(tail@ =~= s@.skip(i + 1));
            }
            Some((head, tail))
        },
    }
}

/// Is `name` the subtree root `under` itself, or a descendant `under/...`?
pub open spec fn subtree_member(under: Seq<char>, name: Seq<char>) -> bool {
    ||| name == under
    ||| (name.len() > under.len() && name.take(under.len() as int) == under && name[under.len() as int]
        == '/')
}

pub fn is_subtree_member(under: &str, name: &str) -> (r: bool)
    ensures
        r == subtree_member(under@, name@),
{
    let nu = under.unicode_len();
    let nn = name.unicode_len();
    if !has_prefix(name, under) {
        proof {
            if name@ == under@ {
                assert(name@.take(nu as int) =~= under@);
            }
        }
        return false;
    }
    if nn == nu {
        proof {
            assert(name@ =~= under@);
        }
        return true;
    }
    let c = name.get_char(nu);
    c == '/'
}

/// Parse an unsigned decimal number.  `None` when `s` is empty, holds a
/// non-digit, or the value does not fit in `u64`.
pub fn parse_u64(s: &str) -> (r: Option<u64>)
    ensures
        match r {
            Some(v) => {
                &&& s@.len() > 0
                &&& all_digits(s@)
                &&& v == dec_val(s@)
            },
            None => s@.len() == 0 || !all_digits(s@) || dec_val(s@) > u64::MAX,
        },
{
    let n = s.unicode_len();
    if n == 0 {
        return None;
    }
    let mut v: u64 = 0;
    let mut i: usize = 0;
    while i < n
        invariant
            n == s@.len(),
            i <= n,
            all_digits(s@.take(i as int)),
            v == dec_val(s@.take(i as int)),
        decreases n - i,
    {
        let c = s.get_char(i);
        let u = c as u32;
        if u < 48 || u > 57 {
            proof {
                assert(!is_digit(s@[i as int]));
            }
            return None;
        }
        let d = (u - 48) as u64;
        proof {
            assert(s@.take(i + 1).drop_last() =~= s@.take(i as int));
            assert(s@.take(i + 1).last() == s@[i as int]);
        }
        if v > (u64::MAX - d) / 10 {
            proof {
                assert(dec_val(s@.take(i + 1)) == v * 10 + d);
                assert(dec_val(s@.take(i + 1)) > u64::MAX);
                lemma_dec_val_take(s@, i + 1);
            }
            return None;
        }
        v = v * 10 + d;
        proof {
            assert(forall|k: int| 0 <= k < i + 1 ==> is_digit(#[trigger] s@.take(i + 1)[k]));
        }
        i = i + 1;
    }
    proof {
        assert(s@.take(n as int) =~= s@);
    }
    Some(v)
}

/// Append the digit character for `d`.
pub fn push_digit(out: &mut String, d: u32)
    requires
        d < 10,
    ensures
        final(out)@ == old(out)@ + seq![char_of_digit(d as nat)],
{
    let table = "0123456789";
    proof {
        reveal_strlit("0123456789");
    }
    let piece = table.substring_char(d as usize, d as usize + 1);
    proof {
        assert(piece@ =~= seq![char_of_digit(d as nat)]);
    }
    out.append(piece);
}

/// The two-digit zero-padded decimal rendering of `n`.
pub open spec fn pad2_spec(n: nat) -> Seq<char> {
    seq![char_of_digit(n / 10 % 10), char_of_digit(n % 10)]
}

/// A two-digit pad parses back to its value.
pub proof fn lemma_pad2_round_trip(n: nat)
    requires
        n < 100,
    ensures
        all_digits(pad2_spec(n)),
        pad2_spec(n).len() == 2,
        dec_val(pad2_spec(n)) == n,
{
    lemma_char_of_digit(n / 10 % 10);
    lemma_char_of_digit(n % 10);
    let s = pad2_spec(n);
    assert(s.drop_last() =~= seq![s[0]]);
    assert(seq![s[0]].drop_last() =~= Seq::<char>::empty());
    assert(dec_val(Seq::<char>::empty()) == 0);
    assert(dec_val(seq![s[0]]) == n / 10 % 10);
    assert(dec_val(s) == (n / 10 % 10) * 10 + n % 10);
}

/// Append `n` as exactly two decimal digits.
pub fn push_pad2(out: &mut String, n: u32)
    requires
        n < 100,
    ensures
        final(out)@ == old(out)@ + pad2_spec(n as nat),
{
    push_digit(out, n / 10 % 10);
    push_digit(out, n % 10);
    proof {
        assert(out@ =~= old(out)@ + pad2_spec(n as nat));
    }
}

/// The four-digit zero-padded decimal rendering of `n`.
pub open spec fn pad4_spec(n: nat) -> Seq<char> {
    seq![
        char_of_digit(n / 1000 % 10),
        char_of_digit(n / 100 % 10),
        char_of_digit(n / 10 % 10),
        char_of_digit(n % 10),
    ]
}

/// A four-digit pad parses back to its value.
pub proof fn lemma_pad4_round_trip(n: nat)
    requires
        n < 10000,
    ensures
        all_digits(pad4_spec(n)),
        pad4_spec(n).len() == 4,
        dec_val(pad4_spec(n)) == n,
{
    let a = n / 1000 % 10;
    let b = n / 100 % 10;
    let c = n / 10 % 10;
    let d = n % 10;
    lemma_char_of_digit(a);
    lemma_char_of_digit(b);
    lemma_char_of_digit(c);
    lemma_char_of_digit(d);
    let s = pad4_spec(n);
    assert(s.drop_last() =~= seq![s[0], s[1], s[2]]);
    assert(s.drop_last().drop_last() =~= seq![s[0], s[1]]);
    assert(s.drop_last().drop_last().drop_last() =~= seq![s[0]]);
    assert(seq![s[0]].drop_last() =~= Seq::<char>::empty());
    assert(dec_val(Seq::<char>::empty()) == 0);
    assert(dec_val(seq![s[0]]) == a);
    assert(dec_val(seq![s[0], s[1]]) == a * 10 + b);
    assert(dec_val(seq![s[0], s[1], s[2]]) == (a * 10 + b) * 10 + c);
    assert(dec_val(s) == ((a * 10 + b) * 10 + c) * 10 + d);
    assert(((a * 10 + b) * 10 + c) * 10 + d == n);
}

/// Append `n` as exactly four decimal digits.
pub fn push_pad4(out: &mut String, n: u32)
    requires
        n < 10000,
    ensures
        final(out)@ == old(out)@ + pad4_spec(n as nat),
{
    push_digit(out, n / 1000 % 10);
    push_digit(out, n / 100 % 10);
    push_digit(out, n / 10 % 10);
    push_digit(out, n % 10);
    proof {
        assert(out@ =~= old(out)@ + pad4_spec(n as nat));
    }
}

/// Append the plain decimal rendering of `n`: no sign, no leading zero,
/// `"0"` for zero.
pub fn push_u64(out: &mut String, n: u64)
    ensures
        final(out)@ == old(out)@ + dec_seq(n as nat),
    decreases n,
{
    if n < 10 {
        push_digit(out, n as u32);
        return ;
    }
    push_u64(out, n / 10);
    push_digit(out, (n % 10) as u32);
    proof {
        assert(dec_seq(n as nat).drop_last() =~= dec_seq(n as nat / 10));
        assert(out@ =~= old(out)@ + dec_seq(n as nat));
    }
}

/// The decimal digit string of `n`, most significant first.
pub open spec fn dec_seq(n: nat) -> Seq<char>
    decreases n,
{
    if n < 10 {
        seq![char_of_digit(n)]
    } else {
        dec_seq(n / 10).push(char_of_digit(n % 10))
    }
}

/// The decimal rendering parses back to its value and never starts
/// with a superfluous zero.
pub proof fn lemma_dec_seq(n: nat)
    ensures
        all_digits(dec_seq(n)),
        dec_seq(n).len() >= 1,
        dec_val(dec_seq(n)) == n,
        n >= 10 <==> dec_seq(n).len() > 1,
        dec_seq(n).len() > 1 ==> dec_seq(n)[0] != '0',
    decreases n,
{
    lemma_char_of_digit(n % 10);
    if n < 10 {
        lemma_char_of_digit(n);
        assert(dec_seq(n).drop_last() =~= Seq::<char>::empty());
        assert(dec_val(Seq::<char>::empty()) == 0);
        assert(dec_seq(n).last() == char_of_digit(n));
    } else {
        lemma_dec_seq(n / 10);
        assert(dec_seq(n).drop_last() =~= dec_seq(n / 10));
        assert(dec_seq(n)[0] == dec_seq(n / 10)[0]);
        if dec_seq(n / 10).len() == 1 {
            assert(dec_seq(n / 10) == seq![char_of_digit(n / 10)]);
            assert(n / 10 >= 1);
            assert(char_of_digit(n / 10) != '0');
        }
        assert(all_digits(dec_seq(n))) by {
            assert(forall|i: int| 0 <= i < dec_seq(n).len() - 1 ==> dec_seq(n)[i] == dec_seq(
                n / 10,
            )[i]);
        }
    }
}

/// The decimal rendering of `n` as an owned string.
pub fn u64_string(n: u64) -> (r: String)
    ensures
        r@ == dec_seq(n as nat),
        all_digits(r@),
        dec_val(r@) == n,
{
    let mut out = String::new();
    push_u64(&mut out, n);
    proof {
        lemma_dec_seq(n as nat);
        assert(out@ =~= dec_seq(n as nat));
    }
    out
}

} // verus!
