//! The ledger state machine: genesis snapshot, transaction application,
//! and the bootstrap replay that reconstructs current balances.

use vstd::prelude::*;
use vstd::string::StringExecFns;

use crate::balance_map::{distinct_keys, BalanceMap};
use crate::{Account, Tx, TxModel};

verus! {

/// Why a transaction could not be applied.
#[derive(Debug, PartialEq, Eq)]
pub enum LedgerError {
    /// The named account is absent from the balance mapping.
    AccountNotFound { account: Account },
    /// A transfer's value exceeds the source account's balance.
    InsufficientBalance,
    /// A balance update would exceed the representable integer range.
    ArithmeticOverflow,
}

/// The mathematical shape of a [`LedgerError`].
pub ghost enum ErrorModel {
    AccountNotFound { account: Seq<char> },
    InsufficientBalance,
    ArithmeticOverflow,
}

impl View for LedgerError {
    type V = ErrorModel;

    closed spec fn view(&self) -> ErrorModel {
        match self {
            LedgerError::AccountNotFound { account } => ErrorModel::AccountNotFound {
                account: account@,
            },
            LedgerError::InsufficientBalance => ErrorModel::InsufficientBalance,
            LedgerError::ArithmeticOverflow => ErrorModel::ArithmeticOverflow,
        }
    }
}

/// The human-readable description of an error; a missing account is named.
pub open spec fn spec_error_message(e: ErrorModel) -> Seq<char> {
    match e {
        ErrorModel::AccountNotFound { account } => "Account not found: \""@ + account + "\"."@,
        ErrorModel::InsufficientBalance => "Insufficient balance."@,
        ErrorModel::ArithmeticOverflow => "Arithmetic overflow."@,
    }
}

impl LedgerError {
    /// Renders this error as its human-readable description.
    pub fn message(&self) -> (r: String)
        ensures
            r@ == spec_error_message(self@),
    {
        match self {
            LedgerError::AccountNotFound { account } => {
                let mut r = "Account not found: \"".to_owned();
                r.append(account.as_str());
                r.append("\".");
                proof {
                    assert(r@ =~= spec_error_message(self@));
                }
                r
            },
            LedgerError::InsufficientBalance => "Insufficient balance.".to_owned(),
            LedgerError::ArithmeticOverflow => "Arithmetic overflow.".to_owned(),
        }
    }
}

/// Whether `tx` can be applied to the balance mapping `m`: every named
/// account must exist, a transfer needs a sufficient source balance, and the
/// credited balance must stay representable (a self-transfer leaves every
/// balance unchanged, so only its existence and sufficiency checks apply).
pub open spec fn tx_ok(m: Map<Seq<char>, u64>, tx: TxModel) -> bool {
    match tx {
        TxModel::Transfer { from, to, value } => m.contains_key(from) && m.contains_key(to)
            && value <= m[from] && (from == to || m[to] + value <= u64::MAX),
        TxModel::Generate { to, value } => m.contains_key(to) && m[to] + value <= u64::MAX,
    }
}

/// The balance mapping after applying `tx` to `m`; meaningful when
/// `tx_ok(m, tx)` holds.
pub open spec fn tx_post(m: Map<Seq<char>, u64>, tx: TxModel) -> Map<Seq<char>, u64> {
    match tx {
        TxModel::Transfer { from, to, value } => if from == to {
            m
        } else {
            m.insert(from, (m[from] - value) as u64).insert(to, (m[to] + value) as u64)
        },
        TxModel::Generate { to, value } => m.insert(to, (m[to] + value) as u64),
    }
}

/// The error reported when `tx` cannot be applied to `m`: a missing account
/// first (for a transfer, the source side before the destination side), then
/// an insufficient source balance, then overflow. Meaningful when
/// `!tx_ok(m, tx)`.
pub open spec fn tx_err(m: Map<Seq<char>, u64>, tx: TxModel) -> ErrorModel {
    match tx {
        TxModel::Transfer { from, to, value } => if !m.contains_key(from) {
            ErrorModel::AccountNotFound { account: from }
        } else if !m.contains_key(to) {
            ErrorModel::AccountNotFound { account: to }
        } else if value > m[from] {
            ErrorModel::InsufficientBalance
        } else {
            ErrorModel::ArithmeticOverflow
        },
        TxModel::Generate { to, value } => if !m.contains_key(to) {
            ErrorModel::AccountNotFound { account: to }
        } else {
            ErrorModel::ArithmeticOverflow
        },
    }
}

/// The value a transaction mints out of nothing: a generation's value; a
/// transfer mints nothing.
pub open spec fn minted(tx: TxModel) -> int {
    match tx {
        TxModel::Transfer { .. } => 0,
        TxModel::Generate { value, .. } => value as int,
    }
}

/// The total value minted by a sequence of transactions: the sum of its
/// generations' values.
pub open spec fn total_minted(txs: Seq<TxModel>) -> int
    decreases txs.len(),
{
    if txs.len() == 0 {
        0
    } else {
        total_minted(txs.drop_last()) + minted(txs.last())
    }
}

/// Whether every transaction of `txs`, applied in order starting from `m`,
/// can be applied.
pub open spec fn replay_ok(m: Map<Seq<char>, u64>, txs: Seq<TxModel>) -> bool
    decreases txs.len(),
{
    txs.len() == 0 || (tx_ok(m, txs[0]) && replay_ok(tx_post(m, txs[0]), txs.skip(1)))
}

/// The balance mapping after applying every transaction of `txs` in order,
/// starting from `m`; meaningful when `replay_ok(m, txs)` holds.
pub open spec fn replay_post(m: Map<Seq<char>, u64>, txs: Seq<TxModel>) -> Map<Seq<char>, u64>
    decreases txs.len(),
{
    if txs.len() == 0 {
        m
    } else {
        replay_post(tx_post(m, txs[0]), txs.skip(1))
    }
}

/// The error of the first transaction of `txs` that cannot be applied;
/// meaningful when `!replay_ok(m, txs)`.
pub open spec fn replay_err(m: Map<Seq<char>, u64>, txs: Seq<TxModel>) -> ErrorModel
    decreases txs.len(),
{
    if txs.len() == 0 {
        arbitrary()
    } else if !tx_ok(m, txs[0]) {
        tx_err(m, txs[0])
    } else {
        replay_err(tx_post(m, txs[0]), txs.skip(1))
    }
}

/// The models of a list of transactions, in order.
pub open spec fn tx_models(txs: Seq<Tx>) -> Seq<TxModel> {
    txs.map_values(|t: Tx| t@)
}

/// The initial snapshot: opaque metadata plus the starting balance mapping.
#[derive(Debug)]
pub struct Genesis {
    genesis_time: String,
    chain_id: String,
    balances: BalanceMap,
}

impl Genesis {
    /// The creation timestamp, carried opaquely.
    pub closed spec fn spec_genesis_time(&self) -> Seq<char> {
        self.genesis_time@
    }

    /// The chain identifier, carried opaquely.
    pub closed spec fn spec_chain_id(&self) -> Seq<char> {
        self.chain_id@
    }

    /// The initial balance mapping.
    pub closed spec fn balances_map(&self) -> Map<Seq<char>, u64> {
        self.balances@
    }

    /// The sum of the initial balances.
    pub closed spec fn balances_total(&self) -> int {
        self.balances.total()
    }

    /// Well-formed: the balance table carries no duplicate account.
    pub closed spec fn wf(&self) -> bool {
        self.balances.wf()
    }

    /// Assembles a genesis snapshot from its parts.
    pub fn new(genesis_time: String, chain_id: String, balances: BalanceMap) -> (g: Genesis)
        ensures
            g.spec_genesis_time() == genesis_time@,
            g.spec_chain_id() == chain_id@,
            g.balances_map() == balances@,
            g.balances_total() == balances.total(),
            g.wf() == balances.wf(),
    {
        Genesis { genesis_time, chain_id, balances }
    }

    /// The creation timestamp, as stored.
    pub fn genesis_time(&self) -> (r: &String)
        ensures
            r@ == self.spec_genesis_time(),
    {
        &self.genesis_time
    }

    /// The chain identifier, as stored.
    pub fn chain_id(&self) -> (r: &String)
        ensures
            r@ == self.spec_chain_id(),
    {
        &self.chain_id
    }

    /// A working copy of the initial balance mapping.
    fn clone_balances(&self) -> (b: BalanceMap)
        ensures
            b@ == self.balances_map(),
            b.total() == self.balances_total(),
            b.wf() == self.wf(),
    {
        self.balances.clone()
    }
}

/// Applies one transaction to the balance table, atomically: on any failure
/// the table is left exactly as it was.
fn apply_to(balances: &mut BalanceMap, tx: &Tx) -> (r: Result<(), LedgerError>)
    requires
        old(balances).wf(),
    ensures
        final(balances).wf(),
        r is Ok <==> tx_ok(old(balances)@, tx@),
        r is Ok ==> final(balances)@ == tx_post(old(balances)@, tx@),
        r is Ok ==> final(balances).total() == old(balances).total() + minted(tx@),
        r is Err ==> final(balances)@ == old(balances)@ && final(balances).total() == old(balances).total(),
        r matches Err(e) ==> e@ == tx_err(old(balances)@, tx@),
{
    match tx {
        Tx::Transfer { from, to, value } => {
            let from_balance = match balances.get(from) {
                Some(b) => b,
                None => {
                    return Err(LedgerError::AccountNotFound { account: from.clone() });
                },
            };
            let to_balance = match balances.get(to) {
                Some(b) => b,
                None => {
                    return Err(LedgerError::AccountNotFound { account: to.clone() });
                },
            };
            if *value > from_balance {
                return Err(LedgerError::InsufficientBalance);
            }
            if from.same_as(to) {
                return Ok(());
            }
            if *value > u64::MAX - to_balance {
                return Err(LedgerError::ArithmeticOverflow);
            }
            balances.insert(from.clone(), from_balance - *value);
            balances.insert(to.clone(), to_balance + *value);
            Ok(())
        },
        Tx::Generate { to, value } => {
            let to_balance = match balances.get(to) {
                Some(b) => b,
                None => {
                    return Err(LedgerError::AccountNotFound { account: to.clone() });
                },
            };
            if *value > u64::MAX - to_balance {
                return Err(LedgerError::ArithmeticOverflow);
            }
            balances.insert(to.clone(), to_balance + *value);
            Ok(())
        },
    }
}

/// The ledger: the genesis snapshot, the transaction history that was
/// replayed, and the current balance mapping.
#[derive(Debug)]
pub struct State {
    balances: BalanceMap,
    /// The transactions replayed to produce the current balances, in order.
    pub txs: Vec<Tx>,
    genesis: Genesis,
}

impl State {
    /// The current balance mapping.
    pub closed spec fn balances_map(&self) -> Map<Seq<char>, u64> {
        self.balances@
    }

    /// The sum of all current balances.
    pub closed spec fn total(&self) -> int {
        self.balances.total()
    }

    /// The transaction history, in replay order.
    pub closed spec fn spec_txs(&self) -> Seq<Tx> {
        self.txs@
    }

    /// The genesis snapshot this ledger started from.
    pub closed spec fn spec_genesis(&self) -> Genesis {
        self.genesis
    }

    /// Well-formed: the balance table carries no duplicate account.
    pub closed spec fn wf(&self) -> bool {
        self.balances.wf()
    }

    /// The current balance of `acct`, or `None` when the account has no entry.
    pub fn get_balance(&self, acct: &Account) -> (r: Option<u64>)
        requires
            self.wf(),
        ensures
            r == (if self.balances_map().contains_key(acct@) {
                Some(self.balances_map()[acct@])
            } else {
                None::<u64>
            }),
    {
        self.balances.get(acct)
    }

    /// Applies one transaction to the current balances, atomically: on any
    /// failure the balances are left exactly as they were. The transaction
    /// history and the genesis snapshot are never touched.
    pub fn apply(&mut self, tx: &Tx) -> (r: Result<(), LedgerError>)
        requires
            old(self).wf(),
        ensures
            final(self).wf(),
            final(self).spec_txs() == old(self).spec_txs(),
            final(self).spec_genesis() == old(self).spec_genesis(),
            r is Ok <==> tx_ok(old(self).balances_map(), tx@),
            r is Ok ==> final(self).balances_map() == tx_post(old(self).balances_map(), tx@),
            r is Ok ==> final(self).total() == old(self).total() + minted(tx@),
            r is Err ==> final(self).balances_map() == old(self).balances_map() && final(self).total() == old(self).total(),
            r matches Err(e) ==> e@ == tx_err(old(self).balances_map(), tx@),
    {
        apply_to(&mut self.balances, tx)
    }

    /// Builds the ledger: copies the genesis balances into a working mapping,
    /// then applies every transaction in order. Fails on the first
    /// transaction that cannot be applied, with that transaction's error.
    pub fn from_parts(genesis: Genesis, txs: Vec<Tx>) -> (r: Result<State, LedgerError>)
        requires
            genesis.wf(),
        ensures
            r is Ok <==> replay_ok(genesis.balances_map(), tx_models(txs@)),
            r matches Ok(st) ==> st.wf() && st.spec_txs() == txs@ && st.spec_genesis() == genesis
                && st.balances_map() == replay_post(genesis.balances_map(), tx_models(txs@)),
            r matches Ok(st) ==> st.total() == genesis.balances_total() + total_minted(
                tx_models(txs@),
            ),
            r matches Err(e) ==> e@ == replay_err(genesis.balances_map(), tx_models(txs@)),
    {
        let ghost m0 = genesis.balances_map();
        let ghost models = tx_models(txs@);
        let mut balances = genesis.clone_balances();
        let mut i: usize = 0;
        proof {
            assert(models.take(0) =~= Seq::<TxModel>::empty());
        }
        while i < txs.len()
            invariant
                i <= txs@.len(),
                balances.wf(),
                models == tx_models(txs@),
                m0 == genesis.balances_map(),
                genesis.wf(),
                replay_ok(m0, models.take(i as int)),
                balances@ == replay_post(m0, models.take(i as int)),
                balances.total() == genesis.balances_total() + total_minted(
                    models.take(i as int),
                ),
            decreases txs@.len() - i,
        {
            match apply_to(&mut balances, &txs[i]) {
                Ok(()) => {},
                Err(e) => {
                    proof {
                        lemma_replay_fail_prefix(m0, models, i as int);
                    }
                    return Err(e);
                },
            }
            proof {
                assert(models.take(i as int + 1) =~= models.take(i as int).push(
                    models[i as int],
                ));
                lemma_replay_snoc(m0, models.take(i as int), models[i as int]);
                assert(models.take(i as int + 1).drop_last() =~= models.take(i as int));
                assert(models.take(i as int + 1).last() == models[i as int]);
            }
            i = i + 1;
        }
        proof {
            assert(models.take(txs@.len() as int) =~= models);
        }
        Ok(State { balances, txs, genesis })
    }

    /// The current `(account, balance)` pairs, as copies: each returned pair
    /// is in the balance mapping, and every mapped account appears exactly
    /// once.
    pub fn balances_list(&self) -> (r: Vec<(Account, u64)>)
        requires
            self.wf(),
        ensures
            distinct_keys(r@),
            forall|i: int|
                0 <= i < r@.len() ==> self.balances_map().contains_key(#[trigger] r@[i].0@)
                    && r@[i].1 == self.balances_map()[r@[i].0@],
            forall|k: Seq<char>|
                self.balances_map().contains_key(k) ==> exists|i: int|
                    0 <= i < r@.len() && #[trigger] r@[i].0@ == k,
    {
        self.balances.pairs()
    }
}

/// Replaying an empty transaction sequence succeeds and leaves the starting
/// balances exactly as they were.
pub proof fn lemma_replay_empty(m: Map<Seq<char>, u64>)
    ensures
        replay_ok(m, Seq::<TxModel>::empty()),
        replay_post(m, Seq::<TxModel>::empty()) == m,
{
}

/// A valid transfer between two distinct accounts debits the source by
/// exactly `value`, credits the destination by exactly `value`, and leaves
/// every other account's balance, and the set of accounts, unchanged.
pub proof fn lemma_transfer_moves_value(
    m: Map<Seq<char>, u64>,
    from: Seq<char>,
    to: Seq<char>,
    value: u64,
)
    requires
        from != to,
        tx_ok(m, TxModel::Transfer { from, to, value }),
    ensures
        tx_post(m, TxModel::Transfer { from, to, value }).dom() == m.dom(),
        tx_post(m, TxModel::Transfer { from, to, value })[from] == m[from] - value,
        tx_post(m, TxModel::Transfer { from, to, value })[to] == m[to] + value,
        forall|k: Seq<char>|
            m.contains_key(k) && k != from && k != to ==> tx_post(
                m,
                TxModel::Transfer { from, to, value },
            )[k] == m[k],
{
    assert(tx_post(m, TxModel::Transfer { from, to, value }).dom() =~= m.dom());
}

/// A valid generation credits the target by exactly `value` and leaves every
/// other account's balance, and the set of accounts, unchanged.
pub proof fn lemma_generate_credits(m: Map<Seq<char>, u64>, to: Seq<char>, value: u64)
    requires
        tx_ok(m, TxModel::Generate { to, value }),
    ensures
        tx_post(m, TxModel::Generate { to, value }).dom() == m.dom(),
        tx_post(m, TxModel::Generate { to, value })[to] == m[to] + value,
        forall|k: Seq<char>|
            m.contains_key(k) && k != to ==> tx_post(m, TxModel::Generate { to, value })[k] == m[k],
{
    assert(tx_post(m, TxModel::Generate { to, value }).dom() =~= m.dom());
}

/// Every prefix of a sequence that replays successfully replays successfully
/// itself, and after it no account's balance is negative.
pub proof fn lemma_prefix_balances_nonnegative(
    m: Map<Seq<char>, u64>,
    txs: Seq<TxModel>,
    i: int,
)
    requires
        0 <= i <= txs.len(),
        replay_ok(m, txs),
    ensures
        replay_ok(m, txs.take(i)),
        forall|k: Seq<char>|
            replay_post(m, txs.take(i)).contains_key(k) ==> replay_post(m, txs.take(i))[k] >= 0,
    decreases i,
{
    if i == 0 {
        assert(txs.take(0) =~= Seq::<TxModel>::empty());
    } else {
        assert(txs.take(i)[0] == txs[0]);
        assert(txs.take(i).skip(1) =~= txs.skip(1).take(i - 1));
        lemma_prefix_balances_nonnegative(tx_post(m, txs[0]), txs.skip(1), i - 1);
    }
}

/// A transfer of exactly the source balance, between two distinct existing
/// accounts whose credited side stays representable, succeeds and leaves the
/// source balance at zero.
pub proof fn lemma_transfer_full_balance(m: Map<Seq<char>, u64>, from: Seq<char>, to: Seq<char>)
    requires
        m.contains_key(from),
        m.contains_key(to),
        from != to,
        m[to] + m[from] <= u64::MAX,
    ensures
        tx_ok(m, TxModel::Transfer { from, to, value: m[from] }),
        tx_post(m, TxModel::Transfer { from, to, value: m[from] })[from] == 0,
{
}

/// A transfer of one more than the source balance, between existing
/// accounts, fails with `InsufficientBalance`. (By `apply`'s contract, a
/// failed application leaves every balance unchanged.)
pub proof fn lemma_transfer_insufficient(
    m: Map<Seq<char>, u64>,
    from: Seq<char>,
    to: Seq<char>,
    value: u64,
)
    requires
        m.contains_key(from),
        m.contains_key(to),
        value == m[from] + 1,
    ensures
        !tx_ok(m, TxModel::Transfer { from, to, value }),
        tx_err(m, TxModel::Transfer { from, to, value }) == ErrorModel::InsufficientBalance,
{
}

/// A transaction that names an absent account fails with `AccountNotFound`
/// carrying the first missing side: for a transfer the source is reported
/// before the destination. (By `apply`'s contract, a failed application
/// leaves every balance unchanged.)
pub proof fn lemma_missing_account(m: Map<Seq<char>, u64>, tx: TxModel)
    requires
        (match tx {
            TxModel::Transfer { from, to, value } => !m.contains_key(from) || !m.contains_key(to),
            TxModel::Generate { to, value } => !m.contains_key(to),
        }),
    ensures
        !tx_ok(m, tx),
        tx_err(m, tx) == (match tx {
            TxModel::Transfer { from, to, value } => if !m.contains_key(from) {
                ErrorModel::AccountNotFound { account: from }
            } else {
                ErrorModel::AccountNotFound { account: to }
            },
            TxModel::Generate { to, value } => ErrorModel::AccountNotFound { account: to },
        }),
{
}

/// Extending a replayed sequence by one transaction succeeds exactly when
/// the sequence replays and the new transaction applies to its outcome.
pub proof fn lemma_replay_snoc(m: Map<Seq<char>, u64>, s: Seq<TxModel>, t: TxModel)
    ensures
        replay_ok(m, s.push(t)) == (replay_ok(m, s) && tx_ok(replay_post(m, s), t)),
        replay_ok(m, s) && tx_ok(replay_post(m, s), t) ==> replay_post(m, s.push(t)) == tx_post(
            replay_post(m, s),
            t,
        ),
        replay_ok(m, s) && !tx_ok(replay_post(m, s), t) ==> replay_err(m, s.push(t)) == tx_err(
            replay_post(m, s),
            t,
        ),
    decreases s.len(),
{
    let u = s.push(t);
    if s.len() == 0 {
        assert(u[0] == t);
        assert(u.skip(1) =~= Seq::<TxModel>::empty());
        assert(replay_ok(m, s));
        assert(replay_post(m, s) == m);
        assert(replay_ok(tx_post(m, u[0]), u.skip(1)));
        assert(replay_ok(m, u) == tx_ok(m, t));
        if tx_ok(m, t) {
            assert(replay_post(m, u) == replay_post(tx_post(m, u[0]), u.skip(1)));
            assert(replay_post(tx_post(m, u[0]), u.skip(1)) == tx_post(m, t));
        } else {
            assert(replay_err(m, u) == tx_err(m, t));
        }
    } else {
        assert(u[0] == s[0]);
        assert(u.skip(1) =~= s.skip(1).push(t));
        if tx_ok(m, s[0]) {
            lemma_replay_snoc(tx_post(m, s[0]), s.skip(1), t);
            let m1 = tx_post(m, s[0]);
            assert(replay_ok(m, u) == (tx_ok(m, u[0]) && replay_ok(m1, u.skip(1))));
            assert(replay_ok(m, s) == (tx_ok(m, s[0]) && replay_ok(m1, s.skip(1))));
            assert(replay_post(m, s) == replay_post(m1, s.skip(1)));
            if replay_ok(m, s) && tx_ok(replay_post(m, s), t) {
                assert(replay_post(m, u) == replay_post(m1, u.skip(1)));
            }
            if replay_ok(m, s) && !tx_ok(replay_post(m, s), t) {
                assert(replay_err(m, u) == replay_err(m1, u.skip(1)));
            }
        } else {
            assert(!replay_ok(m, u));
            assert(!replay_ok(m, s));
        }
    }
}

/// When the first `i` transactions replay but the next one cannot be
/// applied, the whole sequence fails to replay, with that transaction's
/// error.
pub proof fn lemma_replay_fail_prefix(m: Map<Seq<char>, u64>, s: Seq<TxModel>, i: int)
    requires
        0 <= i < s.len(),
        replay_ok(m, s.take(i)),
        !tx_ok(replay_post(m, s.take(i)), s[i]),
    ensures
        !replay_ok(m, s),
        replay_err(m, s) == tx_err(replay_post(m, s.take(i)), s[i]),
    decreases i,
{
    if i == 0 {
        assert(s.take(0) =~= Seq::<TxModel>::empty());
    } else {
        assert(s.take(i)[0] == s[0]);
        assert(s.take(i).skip(1) =~= s.skip(1).take(i - 1));
        assert(s.skip(1)[i - 1] == s[i]);
        lemma_replay_fail_prefix(tx_post(m, s[0]), s.skip(1), i - 1);
    }
}

} // verus!
