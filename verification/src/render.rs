//! Rendering of balances and snapshot lines as decimal text.
//!
//! Amounts are printed as `<units>.<4 digits>` fixed-point decimals, with
//! a leading `-` for negative balances — never scientific notation.

use crate::engine::{Account, LedgerView};
use vstd::prelude::*;
use vstd::string::StringExecFns;

verus! {

/// The character for one decimal digit.
pub open spec fn char_of_digit(d: nat) -> char {
    if d == 0 {
        '0'
    } else if d == 1 {
        '1'
    } else if d == 2 {
        '2'
    } else if d == 3 {
        '3'
    } else if d == 4 {
        '4'
    } else if d == 5 {
        '5'
    } else if d == 6 {
        '6'
    } else if d == 7 {
        '7'
    } else if d == 8 {
        '8'
    } else {
        '9'
    }
}

/// Decimal digits of `n`, most significant first, no leading zeros
/// (a single `0` for zero).
pub open spec fn dec_digits(n: nat) -> Seq<char>
    decreases n,
{
    if n < 10 {
        seq![char_of_digit(n)]
    } else {
        dec_digits(n / 10).push(char_of_digit(n % 10))
    }
}

/// The four fractional digits of a balance, most significant first.
pub open spec fn frac4_chars(f: nat) -> Seq<char> {
    seq![
        char_of_digit(f / 1000 % 10),
        char_of_digit(f / 100 % 10),
        char_of_digit(f / 10 % 10),
        char_of_digit(f % 10),
    ]
}

/// A balance of `v` fixed-point units as decimal text: an optional sign,
/// the whole units, a point, and exactly four fractional digits.
pub open spec fn amount_chars(v: int) -> Seq<char> {
    let mag = if v < 0 {
        -v
    } else {
        v
    };
    let sign: Seq<char> = if v < 0 {
        seq!['-']
    } else {
        Seq::<char>::empty()
    };
    sign + dec_digits((mag / 10000) as nat) + seq!['.'] + frac4_chars((mag % 10000) as nat)
}

pub open spec fn bool_chars(b: bool) -> Seq<char> {
    if b {
        "true"@
    } else {
        "false"@
    }
}

/// One snapshot row: `client,available,held,total,locked`.
pub open spec fn account_line_chars(a: Account) -> Seq<char> {
    dec_digits(a.client as nat) + seq![','] + amount_chars(a.available as int) + seq![',']
        + amount_chars(a.held as int) + seq![','] + amount_chars(a.total as int) + seq![',']
        + bool_chars(a.locked)
}

/// The snapshot rows for the clients from position `i` on, in account
/// creation order, each ended by a newline.
pub open spec fn snapshot_rows(v: LedgerView, i: int) -> Seq<char>
    decreases v.clients.len() - i,
{
    if i < 0 || i >= v.clients.len() {
        Seq::<char>::empty()
    } else {
        account_line_chars(v.accounts[v.clients[i]]) + seq!['\n'] + snapshot_rows(v, i + 1)
    }
}

/// The whole snapshot: a header naming the five columns, then one row per
/// account.
pub open spec fn snapshot_chars(v: LedgerView) -> Seq<char> {
    "client,available,held,total,locked"@ + seq!['\n'] + snapshot_rows(v, 0)
}

/// Appends one decimal digit.
pub(crate) fn push_digit(out: &mut String, d: u128)
    requires
        d < 10,
    ensures
        final(out)@ == old(out)@.push(char_of_digit(d as nat)),
{
    if d == 0 {
        proof {
            reveal_strlit("0");
        }
        out.append("0");
    } else if d == 1 {
        proof {
            reveal_strlit("1");
        }
        out.append("1");
    } else if d == 2 {
        proof {
            reveal_strlit("2");
        }
        out.append("2");
    } else if d == 3 {
        proof {
            reveal_strlit("3");
        }
        out.append("3");
    } else if d == 4 {
        proof {
            reveal_strlit("4");
        }
        out.append("4");
    } else if d == 5 {
        proof {
            reveal_strlit("5");
        }
        out.append("5");
    } else if d == 6 {
        proof {
            reveal_strlit("6");
        }
        out.append("6");
    } else if d == 7 {
        proof {
            reveal_strlit("7");
        }
        out.append("7");
    } else if d == 8 {
        proof {
            reveal_strlit("8");
        }
        out.append("8");
    } else {
        proof {
            reveal_strlit("9");
        }
        out.append("9");
    }
    proof {
        assert(out@ =~= old(out)@.push(char_of_digit(d as nat)));
    }
}

/// Appends the decimal digits of `n`.
pub(crate) fn push_u128(out: &mut String, n: u128)
    ensures
        final(out)@ == old(out)@ + dec_digits(n as nat),
    decreases n,
{
    if n >= 10 {
        push_u128(out, n / 10);
        push_digit(out, n % 10);
        proof {
            assert(final(out)@ =~= old(out)@ + dec_digits(n as nat));
        }
    } else {
        push_digit(out, n);
        proof {
            assert(final(out)@ =~= old(out)@ + dec_digits(n as nat));
        }
    }
}

/// Appends a balance as fixed-point decimal text.
pub(crate) fn push_amount(out: &mut String, v: i128)
    ensures
        final(out)@ == old(out)@ + amount_chars(v as int),
{
    let mag: u128 = if v < 0 {
        proof {
            reveal_strlit("-");
        }
        out.append("-");
        proof {
            assert(out@ =~= old(out)@ + seq!['-']);
        }
        ((-(v + 1)) as u128) + 1
    } else {
        v as u128
    };
    assert(mag == (if (v as int) < 0 {
        -(v as int)
    } else {
        v as int
    }));
    push_u128(out, mag / 10000);
    proof {
        reveal_strlit(".");
    }
    out.append(".");
    let frac = mag % 10000;
    assert(frac < 10000);
    push_digit(out, frac / 1000 % 10);
    push_digit(out, frac / 100 % 10);
    push_digit(out, frac / 10 % 10);
    push_digit(out, frac % 10);
    proof {
        assert(final(out)@ =~= old(out)@ + amount_chars(v as int));
    }
}

impl Account {
    /// This account as one snapshot row.
    pub fn to_csv_line(&self) -> (r: String)
        ensures
            r@ == account_line_chars(*self),
    {
        let mut out = String::new();
        push_u128(&mut out, self.client as u128);
        proof {
            reveal_strlit(",");
        }
        out.append(",");
        push_amount(&mut out, self.available);
        out.append(",");
        push_amount(&mut out, self.held);
        out.append(",");
        push_amount(&mut out, self.total);
        out.append(",");
        if self.locked {
            out.append("true");
        } else {
            out.append("false");
        }
        proof {
            assert(out@ =~= account_line_chars(*self));
        }
        out
    }
}

} // verus!
