//! Byte-count formatting with base-2 unit prefixes.

use vstd::prelude::*;
use vstd::string::StrSliceExecFns;
use vstd::string::StringExecFns;

use crate::strutil::char_of_digit;
use crate::strutil::dec_seq;
use crate::strutil::pad2_spec;
use crate::strutil::push_digit;
use crate::strutil::push_pad2;
use crate::strutil::u64_string;

verus! {

pub open spec fn pow1024(n: nat) -> nat
    decreases n,
{
    if n == 0 {
        1
    } else {
        1024 * pow1024((n - 1) as nat)
    }
}

/// The unit column for `n` bytes: the smallest power of 1024 that
/// keeps the displayed value at or below 1024.
pub open spec fn unit_of(n: nat) -> nat {
    if n <= pow1024(1) {
        0
    } else if n <= pow1024(2) {
        1
    } else if n <= pow1024(3) {
        2
    } else if n <= pow1024(4) {
        3
    } else if n <= pow1024(5) {
        4
    } else if n <= pow1024(6) {
        5
    } else if n <= pow1024(7) {
        6
    } else if n <= pow1024(8) {
        7
    } else {
        8
    }
}

pub open spec fn unit_suffix(u: nat) -> Seq<char> {
    if u == 0 {
        "B  "@
    } else if u == 1 {
        "KiB"@
    } else if u == 2 {
        "MiB"@
    } else if u == 3 {
        "GiB"@
    } else if u == 4 {
        "TiB"@
    } else if u == 5 {
        "PiB"@
    } else {
        "EiB"@
    }
}

pub open spec fn pad3_spec(x: nat) -> Seq<char> {
    seq![char_of_digit(x / 100 % 10), char_of_digit(x / 10 % 10), char_of_digit(x % 10)]
}

/// `k` spaces.
pub open spec fn spaces(k: int) -> Seq<char>
    decreases k,
{
    if k <= 0 {
        Seq::empty()
    } else {
        seq![' '] + spaces(k - 1)
    }
}

pub proof fn lemma_spaces(k: int)
    ensures
        spaces(k).len() == if k <= 0 {
            0int
        } else {
            k
        },
        forall|i: int| 0 <= i < spaces(k).len() ==> spaces(k)[i] == ' ',
    decreases k,
{
    if k > 0 {
        lemma_spaces(k - 1);
        assert(forall|i: int| 1 <= i < spaces(k).len() ==> spaces(k)[i] == spaces(k - 1)[i - 1]);
    }
}

/// The human-readable rendering of `n` bytes: the value scaled into
/// its unit, three decimals below ten and two above, space-padded to
/// a six-character column, then the unit suffix.
pub open spec fn humanize_spec(n: nat) -> Seq<char> {
    let u = unit_of(n);
    let den = pow1024(u);
    let whole = n / den;
    let body = if whole < 10 {
        dec_seq(whole) + seq!['.'] + pad3_spec(n * 1000 / den % 1000)
    } else {
        dec_seq(whole) + seq!['.'] + pad2_spec(n * 100 / den % 100)
    };
    spaces(6 - body.len()) + body + unit_suffix(u)
}

/// Render a byte count with base-2 unit prefixes, `  3.500KiB` style.
#[verifier::rlimit(60)]
pub fn humanize_size(size: usize) -> (r: String)
    ensures
        r@ == humanize_spec(size as nat),
{
    let n = size as u64;
    proof {
        assert(pow1024(0) == 1);
        assert(pow1024(1) == 1024);
        assert(pow1024(2) == 1048576);
        assert(pow1024(3) == 1073741824);
        assert(pow1024(4) == 1099511627776);
        assert(pow1024(5) == 1125899906842624);
        assert(pow1024(6) == 1152921504606846976);
        assert(pow1024(7) == 1180591620717411303424);
    }
    let mut den: u64 = 1;
    let mut u: usize = 0;
    while (n as u128) > (den as u128) * 1024
        invariant
            n == size as u64,
            den == pow1024(u as nat),
            u <= 6,
            pow1024(7) > u64::MAX,
            forall|v: nat| 1 <= v <= u ==> n > #[trigger] pow1024(v),
        decreases 6 - u,
    {
        proof {
            assert(pow1024((u + 1) as nat) == 1024 * pow1024(u as nat));
            assert(pow1024(0) == 1);
            assert(pow1024(1) == 1024);
            assert(pow1024(2) == 1048576);
            assert(pow1024(3) == 1073741824);
            assert(pow1024(4) == 1099511627776);
            assert(pow1024(5) == 1125899906842624);
            assert(pow1024(6) == 1152921504606846976);
            assert(pow1024(7) == 1180591620717411303424);
            assert(u < 6) by {
                if u == 6 {
                    assert(n as nat > pow1024(7));
                }
            }
        }
        den = den * 1024;
        u = u + 1;
        proof {
            assert(forall|v: nat| 1 <= v <= u ==> n > #[trigger] pow1024(v)) by {
                assert(forall|v: nat| 1 <= v <= u - 1 ==> n > #[trigger] pow1024(v));
                assert(n > pow1024(u as nat));
            }
        }
    }
    proof {
        assert(n <= pow1024((u + 1) as nat)) by {
            assert(pow1024((u + 1) as nat) == 1024 * pow1024(u as nat));
        }
        assert(unit_of(n as nat) == u as nat) by {
            assert(forall|v: nat| 1 <= v <= u ==> n > #[trigger] pow1024(v));
        }
    }
    let whole = n / den;
    proof {
        assert(whole <= 1024) by (nonlinear_arith)
            requires
                n <= 1024 * den,
                den >= 1,
                whole == n / den,
        {}
    }
    let ws = u64_string(whole);
    let wl = ws.as_str().unicode_len();
    proof {
        crate::strutil::lemma_dec_seq(whole as nat);
        assert(dec_seq(whole as nat).len() <= 4) by {
            let m = whole as nat;
            if m >= 10 {
                assert(dec_seq(m).len() == dec_seq(m / 10).len() + 1);
                if m / 10 >= 10 {
                    assert(dec_seq(m / 10).len() == dec_seq(m / 10 / 10).len() + 1);
                    if m / 10 / 10 >= 10 {
                        assert(dec_seq(m / 10 / 10).len() == dec_seq(m / 10 / 10 / 10).len() + 1);
                        assert(m / 10 / 10 / 10 < 10);
                    }
                }
            }
        }
        assert(wl <= 4);
    }
    let three = whole < 10;
    let total: usize = if three {
        wl + 4
    } else {
        wl + 3
    };
    let mut out = String::new();
    let mut padn: usize = if total < 6 {
        6 - total
    } else {
        0
    };
    let ghost npad = padn as int;
    let mut p: usize = 0;
    while p < padn
        invariant
            p <= padn,
            out@.len() == p,
            forall|i: int| 0 <= i < out@.len() ==> out@[i] == ' ',
        decreases padn - p,
    {
        out.append(" ");
        proof {
            reveal_strlit(" ");
        }
        p = p + 1;
    }
    proof {
        lemma_spaces(npad);
        assert(out@ =~= spaces(npad));
    }
    out.append(ws.as_str());
    out.append(".");
    proof {
        reveal_strlit(".");
        assert("."@ =~= seq!['.']);
    }
    if three {
        let frac = ((n as u128) * 1000 / (den as u128) % 1000) as u32;
        proof {
            assert(frac == size as nat * 1000 / pow1024(u as nat) % 1000);
        }
        push_digit(&mut out, frac / 100 % 10);
        push_digit(&mut out, frac / 10 % 10);
        push_digit(&mut out, frac % 10);
    } else {
        let frac = ((n as u128) * 100 / (den as u128) % 100) as u32;
        proof {
            assert(frac == size as nat * 100 / pow1024(u as nat) % 100);
        }
        push_pad2(&mut out, frac);
    }
    if u == 0 {
        out.append("B  ");
        proof {
            reveal_strlit("B  ");
        }
    } else if u == 1 {
        out.append("KiB");
        proof {
            reveal_strlit("KiB");
        }
    } else if u == 2 {
        out.append("MiB");
        proof {
            reveal_strlit("MiB");
        }
    } else if u == 3 {
        out.append("GiB");
        proof {
            reveal_strlit("GiB");
        }
    } else if u == 4 {
        out.append("TiB");
        proof {
            reveal_strlit("TiB");
        }
    } else if u == 5 {
        out.append("PiB");
        proof {
            reveal_strlit("PiB");
        }
    } else {
        out.append("EiB");
        proof {
            reveal_strlit("EiB");
        }
    }
    proof {
        assert(out@ =~= humanize_spec(size as nat));
    }
    out
}

} // verus!
