//! An account-balance ledger reconstructed by replaying an ordered
//! transaction log over an initial genesis snapshot.
//!
//! [`Account`] and [`Tx`] are the vocabulary of the log; the replay state
//! machine itself lives in [`state`].

use vstd::prelude::*;
use vstd::string::StringExecFns;

pub mod balance_map;
pub mod state;

verus! {

/// The decimal digit character for `d`, which must be below ten.
pub open spec fn digit_char(d: nat) -> char {
    if d == 0 {
        '0'
    } else if d == 1 {
        '1'
    } else if d == 2 {
        '2'
    } else if d == 3 {
        '3'
    } else if d == 4 {
        '4'
    } else if d == 5 {
        '5'
    } else if d == 6 {
        '6'
    } else if d == 7 {
        '7'
    } else if d == 8 {
        '8'
    } else {
        '9'
    }
}

/// The decimal rendering of `n`, most significant digit first, with no
/// leading zero except for zero itself.
pub open spec fn spec_dec(n: nat) -> Seq<char>
    decreases n,
{
    if n < 10 {
        seq![digit_char(n)]
    } else {
        spec_dec(n / 10).push(digit_char(n % 10))
    }
}

/// The single-character string for the decimal digit `d`.
fn digit_str(d: u64) -> (r: &'static str)
    requires
        d < 10,
    ensures
        r@ == seq![digit_char(d as nat)],
{
    let r: &'static str = if d == 0 {
        "0"
    } else if d == 1 {
        "1"
    } else if d == 2 {
        "2"
    } else if d == 3 {
        "3"
    } else if d == 4 {
        "4"
    } else if d == 5 {
        "5"
    } else if d == 6 {
        "6"
    } else if d == 7 {
        "7"
    } else if d == 8 {
        "8"
    } else {
        "9"
    };
    proof {
        reveal_strlit("0");
        reveal_strlit("1");
        reveal_strlit("2");
        reveal_strlit("3");
        reveal_strlit("4");
        reveal_strlit("5");
        reveal_strlit("6");
        reveal_strlit("7");
        reveal_strlit("8");
        reveal_strlit("9");
        assert(r@ =~= seq![digit_char(d as nat)]);
    }
    r
}

/// Renders `n` in decimal.
pub fn u64_to_decimal(n: u64) -> (r: String)
    ensures
        r@ == spec_dec(n as nat),
    decreases n,
{
    if n < 10 {
        digit_str(n).to_owned()
    } else {
        let mut r = u64_to_decimal(n / 10);
        r.append(digit_str(n % 10));
        proof {
            assert(r@ =~= spec_dec(n as nat));
        }
        r
    }
}

/// An account identifier: an opaque string, compared by exact equality.
#[derive(Debug, PartialEq, Eq, Hash)]
pub struct Account(String);

impl View for Account {
    type V = Seq<char>;

    closed spec fn view(&self) -> Seq<char> {
        self.0@
    }
}

impl Account {
    /// Wraps an identifier string as an account.
    pub fn new(s: &str) -> (a: Account)
        ensures
            a@ == s@,
    {
        Account(s.to_owned())
    }

    /// The identifier string of this account.
    pub fn as_str(&self) -> (r: &str)
        ensures
            r@ == self@,
    {
        self.0.as_str()
    }

    /// Whether two accounts carry the same identifier.
    pub fn same_as(&self, other: &Account) -> (r: bool)
        ensures
            r == (self@ == other@),
    {
        self.0 == other.0
    }
}

impl Clone for Account {
    fn clone(&self) -> (r: Self)
        ensures
            r == *self,
    {
        Account(self.0.clone())
    }
}

/// A ledger transaction: either a transfer between two existing accounts or
/// a generation (minting) of new value onto an existing account.
#[derive(Debug, PartialEq, Eq, Hash)]
pub enum Tx {
    Transfer { from: Account, to: Account, value: u64 },
    Generate { to: Account, value: u64 },
}

/// The mathematical shape of a [`Tx`]: accounts reduced to their
/// identifier strings.
pub ghost enum TxModel {
    Transfer { from: Seq<char>, to: Seq<char>, value: u64 },
    Generate { to: Seq<char>, value: u64 },
}

impl View for Tx {
    type V = TxModel;

    closed spec fn view(&self) -> TxModel {
        match self {
            Tx::Transfer { from, to, value } => TxModel::Transfer {
                from: from@,
                to: to@,
                value: *value,
            },
            Tx::Generate { to, value } => TxModel::Generate { to: to@, value: *value },
        }
    }
}

/// The human-readable line describing a transaction: a transfer names the
/// source, the amount and the destination; a generation names the amount and
/// the credited account.
pub open spec fn spec_describe(tx: TxModel) -> Seq<char> {
    match tx {
        TxModel::Transfer { from, to, value } => "[TXN] \""@ + from + "\" transferred \""@
            + spec_dec(value as nat) + "\" coins to \""@ + to + "\" account"@,
        TxModel::Generate { to, value } => "[GEN] generated \""@ + spec_dec(value as nat)
            + "\" coins on \""@ + to + "\" account"@,
    }
}

impl Tx {
    /// Renders this transaction as its human-readable log line.
    pub fn describe(&self) -> (r: String)
        ensures
            r@ == spec_describe(self@),
    {
        match self {
            Tx::Transfer { from, to, value } => {
                let mut r = "[TXN] \"".to_owned();
                r.append(from.as_str());
                r.append("\" transferred \"");
                let v = u64_to_decimal(*value);
                r.append(v.as_str());
                r.append("\" coins to \"");
                r.append(to.as_str());
                r.append("\" account");
                proof {
                    assert(r@ =~= spec_describe(self@));
                }
                r
            },
            Tx::Generate { to, value } => {
                let mut r = "[GEN] generated \"".to_owned();
                let v = u64_to_decimal(*value);
                r.append(v.as_str());
                r.append("\" coins on \"");
                r.append(to.as_str());
                r.append("\" account");
                proof {
                    assert(r@ =~= spec_describe(self@));
                }
                r
            },
        }
    }
}

impl Clone for Tx {
    fn clone(&self) -> (r: Self)
        ensures
            r == *self,
    {
        match self {
            Tx::Transfer { from, to, value } => Tx::Transfer {
                from: from.clone(),
                to: to.clone(),
                value: *value,
            },
            Tx::Generate { to, value } => Tx::Generate { to: to.clone(), value: *value },
        }
    }
}

} // verus!
