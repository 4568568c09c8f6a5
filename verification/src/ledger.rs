use vstd::prelude::*;

verus! {

/// The two kinds of ledger transaction: a credit raises the balance, a debit
/// lowers it.
#[derive(Clone, Copy, PartialEq, Eq, Structural, Debug)]
pub enum TxKind {
    Credit,
    Debit,
}

/// One account row: identity, overdraft limit and current balance.
#[derive(Clone, Copy, PartialEq, Eq, Structural, Debug)]
pub struct AccountRecord {
    pub id: i32,
    pub limit_amount: i32,
    pub balance: i32,
}

/// One committed transaction row. The amount is always positive; the kind
/// tells whether it was added to or subtracted from the balance.
#[derive(Debug)]
pub struct TxRecord {
    pub account_id: i32,
    pub amount: i32,
    pub kind: TxKind,
    pub descricao: String,
    pub realizada_em: String,
}

/// A consistent read of one account's limit and balance.
#[derive(Clone, Copy, PartialEq, Eq, Structural, Debug)]
pub struct AccountSnapshot {
    pub limit_amount: i32,
    pub balance: i32,
}

/// Failure modes of the ledger store.
#[derive(Clone, Copy, PartialEq, Eq, Structural, Debug)]
pub enum StoreError {
    NotFound,
    ConstraintViolation,
    StoreUnavailable,
}

/// Mathematical model of an account row.
pub struct AccountV {
    pub id: int,
    pub limit_amount: int,
    pub balance: int,
}

/// Mathematical model of a transaction row.
pub struct TxV {
    pub account_id: int,
    pub amount: int,
    pub kind: TxKind,
    pub descricao: Seq<char>,
    pub realizada_em: Seq<char>,
}

/// Mathematical model of the whole store: account rows plus the committed
/// transactions in insertion order.
#[verifier::ext_equal]
pub struct LedgerV {
    pub accounts: Seq<AccountV>,
    pub transactions: Seq<TxV>,
}

impl View for AccountRecord {
    type V = AccountV;

    open spec fn view(&self) -> AccountV {
        AccountV { id: self.id as int, limit_amount: self.limit_amount as int, balance: self.balance as int }
    }
}

impl View for TxRecord {
    type V = TxV;

    open spec fn view(&self) -> TxV {
        TxV {
            account_id: self.account_id as int,
            amount: self.amount as int,
            kind: self.kind,
            descricao: self.descricao@,
            realizada_em: self.realizada_em@,
        }
    }
}

pub open spec fn has_acc(accs: Seq<AccountV>, id: int) -> bool {
    exists|i: int| 0 <= i < accs.len() && #[trigger] accs[i].id == id
}

pub open spec fn acc_index(accs: Seq<AccountV>, id: int) -> int {
    choose|i: int| 0 <= i < accs.len() && #[trigger] accs[i].id == id
}

impl LedgerV {
    /// Well-formedness: account ids are unique, every overdraft limit is
    /// non-negative, every balance stays at or above the negative of its
    /// account's limit, and every committed transaction is shaped as the
    /// business rules demand.
    pub open spec fn wf(self) -> bool {
        &&& forall|i: int, j: int|
            0 <= i < j < self.accounts.len() ==> #[trigger] self.accounts[i].id != #[trigger] self.accounts[j].id
        &&& forall|i: int|
            0 <= i < self.accounts.len() ==> {
                &&& 0 <= #[trigger] self.accounts[i].limit_amount <= i32::MAX
                &&& -self.accounts[i].limit_amount <= self.accounts[i].balance <= i32::MAX
                &&& i32::MIN <= self.accounts[i].id <= i32::MAX
            }
        &&& forall|i: int|
            0 <= i < self.transactions.len() ==> {
                &&& 0 < #[trigger] self.transactions[i].amount <= i32::MAX
                &&& 1 <= self.transactions[i].descricao.len() <= 10
            }
    }
}

/// The outcome of atomically applying one transaction to the store: the new
/// store state, and either the post-transaction (limit, balance) pair or the
/// error that left the store untouched.
pub open spec fn spec_apply(
    l: LedgerV,
    id: int,
    amount: int,
    kind: TxKind,
    desc: Seq<char>,
    ts: Seq<char>,
) -> (LedgerV, Result<(int, int), StoreError>) {
    if !has_acc(l.accounts, id) {
        (l, Err(StoreError::NotFound))
    } else {
        let i = acc_index(l.accounts, id);
        let acc = l.accounts[i];
        if kind is Debit && acc.balance - amount < -acc.limit_amount {
            (l, Err(StoreError::ConstraintViolation))
        } else if kind is Credit && acc.balance + amount > i32::MAX {
            (l, Err(StoreError::StoreUnavailable))
        } else {
            let nb = if kind is Credit {
                acc.balance + amount
            } else {
                acc.balance - amount
            };
            let updated = AccountV { id: acc.id, limit_amount: acc.limit_amount, balance: nb };
            let tx = TxV { account_id: id, amount: amount, kind: kind, descricao: desc, realizada_em: ts };
            (
                LedgerV {
                    accounts: l.accounts.update(i, updated),
                    transactions: l.transactions.push(tx),
                },
                Ok((acc.limit_amount, nb)),
            )
        }
    }
}

/// The at most `n` most recent transactions of one account, most recent
/// first: the suffix of the account's transactions in reverse insertion
/// order.
pub open spec fn recent(txs: Seq<TxV>, id: int, n: nat) -> Seq<TxV>
    decreases txs.len(),
{
    if n == 0 || txs.len() == 0 {
        Seq::empty()
    } else if txs.last().account_id == id {
        seq![txs.last()] + recent(txs.drop_last(), id, (n - 1) as nat)
    } else {
        recent(txs.drop_last(), id, n)
    }
}

/// The in-memory ledger store: the sole owner of account and transaction
/// state.
pub struct Ledger {
    accounts: Vec<AccountRecord>,
    transactions: Vec<TxRecord>,
}

impl View for Ledger {
    type V = LedgerV;

    closed spec fn view(&self) -> LedgerV {
        LedgerV {
            accounts: self.accounts@.map_values(|a: AccountRecord| a@),
            transactions: self.transactions@.map_values(|t: TxRecord| t@),
        }
    }
}

impl Ledger {
    /// An empty store.
    pub fn new() -> (l: Ledger)
        ensures
            l@.accounts.len() == 0,
            l@.transactions.len() == 0,
            l@.wf(),
    {
        let l = Ledger { accounts: Vec::new(), transactions: Vec::new() };
        proof {
            assert(l@.accounts =~= Seq::<AccountV>::empty());
            assert(l@.transactions =~= Seq::<TxV>::empty());
        }
        l
    }

    /// Adds an account with the given overdraft limit and a zero balance.
    /// Refused when the id is already taken or the limit is negative.
    pub fn create_account(&mut self, id: i32, limit_amount: i32) -> (r: bool)
        requires
            old(self)@.wf(),
        ensures
            final(self)@.wf(),
            r == (!has_acc(old(self)@.accounts, id as int) && limit_amount >= 0),
            r ==> final(self)@.accounts == old(self)@.accounts.push(
                AccountV { id: id as int, limit_amount: limit_amount as int, balance: 0 },
            ) && final(self)@.transactions == old(self)@.transactions,
            !r ==> final(self)@ == old(self)@,
    {
        if limit_amount < 0 {
            proof {
                assert(!(limit_amount >= 0));
            }
            return false;
        }
        let n: usize = self.accounts.len();
        let mut i: usize = 0;
        while i < n
            invariant
                i <= n,
                n == self.accounts.len(),
                self@ == old(self)@,
                self@.wf(),
                limit_amount >= 0,
                forall|k: int| 0 <= k < i ==> #[trigger] self@.accounts[k].id != id as int,
            decreases n - i,
        {
            if self.accounts[i].id == id {
                proof {
                    assert(self@.accounts[i as int].id == id as int);
                    assert(has_acc(self@.accounts, id as int));
                }
                return false;
            }
            i = i + 1;
        }
        assert(!has_acc(self@.accounts, id as int));
        let ghost before: LedgerV = self@;
        self.accounts.push(AccountRecord { id: id, limit_amount: limit_amount, balance: 0 });
        proof {
            assert(self@.accounts =~= before.accounts.push(
                AccountV { id: id as int, limit_amount: limit_amount as int, balance: 0 },
            ));
            assert(self@.transactions =~= before.transactions);
        }
        true
    }

    /// A single consistent read of one account's limit and balance.
    pub fn read_account_snapshot(&self, id: i32) -> (r: Option<AccountSnapshot>)
        requires
            self@.wf(),
        ensures
            match r {
                Some(s) => has_acc(self@.accounts, id as int) && {
                    let acc = self@.accounts[acc_index(self@.accounts, id as int)];
                    s.limit_amount as int == acc.limit_amount && s.balance as int == acc.balance
                },
                None => !has_acc(self@.accounts, id as int),
            },
    {
        let n: usize = self.accounts.len();
        let mut i: usize = 0;
        while i < n
            invariant
                i <= n,
                n == self.accounts.len(),
                self@.wf(),
                forall|k: int| 0 <= k < i ==> #[trigger] self@.accounts[k].id != id as int,
            decreases n - i,
        {
            let a: AccountRecord = self.accounts[i];
            if a.id == id {
                proof {
                    assert(self@.accounts[i as int].id == id as int);
                    assert(has_acc(self@.accounts, id as int));
                    let w = acc_index(self@.accounts, id as int);
                    assert(0 <= w < self@.accounts.len() && self@.accounts[w].id == id as int);
                    assert(w == i as int);
                }
                return Some(AccountSnapshot { limit_amount: a.limit_amount, balance: a.balance });
            }
            i = i + 1;
        }
        assert(!has_acc(self@.accounts, id as int));
        None
    }

    /// Atomically validates and commits one transaction: re-reads the
    /// account, rejects a debit that would push the balance below the
    /// negative of the limit, and otherwise records the transaction and the
    /// adjusted balance in one step, returning the post-transaction limit
    /// and balance.
    pub fn apply_transaction(
        &mut self,
        id: i32,
        amount: i32,
        kind: TxKind,
        descricao: &str,
        realizada_em: &str,
    ) -> (r: Result<AccountSnapshot, StoreError>)
        requires
            old(self)@.wf(),
            amount > 0,
            1 <= descricao@.len() <= 10,
        ensures
            final(self)@.wf(),
            ({
                let (l2, res) = spec_apply(
                    old(self)@,
                    id as int,
                    amount as int,
                    kind,
                    descricao@,
                    realizada_em@,
                );
                final(self)@ == l2 && (match r {
                    Ok(s) => res == Ok::<(int, int), StoreError>((s.limit_amount as int, s.balance as int)),
                    Err(e) => res == Err::<(int, int), StoreError>(e),
                })
            }),
    {
        let ghost l0: LedgerV = self@;
        let n: usize = self.accounts.len();
        let mut i: usize = 0;
        while i < n
            invariant
                i <= n,
                n == self.accounts.len(),
                self@.wf(),
                self@ == l0,
                l0 == old(self)@,
                amount > 0,
                1 <= descricao@.len() <= 10,
                forall|k: int| 0 <= k < i ==> #[trigger] self@.accounts[k].id != id as int,
            decreases n - i,
        {
            let a: AccountRecord = self.accounts[i];
            if a.id == id {
                proof {
                    assert(self@.accounts[i as int].id == id as int);
                    assert(has_acc(self@.accounts, id as int));
                    let w = acc_index(self@.accounts, id as int);
                    assert(0 <= w < self@.accounts.len() && self@.accounts[w].id == id as int);
                    assert(w == i as int);
                }
                let bal: i64 = a.balance as i64;
                let lim: i64 = a.limit_amount as i64;
                let amt: i64 = amount as i64;
                if matches!(kind, TxKind::Debit) && bal - amt < -lim {
                    return Err(StoreError::ConstraintViolation);
                }
                if matches!(kind, TxKind::Credit) && bal + amt > (i32::MAX as i64) {
                    return Err(StoreError::StoreUnavailable);
                }
                let nb64: i64 = if matches!(kind, TxKind::Credit) {
                    bal + amt
                } else {
                    bal - amt
                };
                assert(i32::MIN <= nb64 <= i32::MAX);
                let nb: i32 = nb64 as i32;
                let updated = AccountRecord { id: a.id, limit_amount: a.limit_amount, balance: nb };
                self.accounts.remove(i);
                self.accounts.insert(i, updated);
                self.transactions.push(TxRecord {
                    account_id: id,
                    amount: amount,
                    kind: kind,
                    descricao: descricao.to_owned(),
                    realizada_em: realizada_em.to_owned(),
                });
                proof {
                    let (l2, res) = spec_apply(l0, id as int, amount as int, kind, descricao@, realizada_em@);
                    assert(self@.accounts =~= l0.accounts.update(
                        i as int,
                        AccountV { id: id as int, limit_amount: a.limit_amount as int, balance: nb as int },
                    ));
                    assert(self@.transactions =~= l0.transactions.push(
                        TxV {
                            account_id: id as int,
                            amount: amount as int,
                            kind: kind,
                            descricao: descricao@,
                            realizada_em: realizada_em@,
                        },
                    ));
                    assert(self@ =~= l2);
                    lemma_apply_preserves_wf(l0, id as int, amount as int, kind, descricao@,
                        realizada_em@);
                }
                return Ok(AccountSnapshot { limit_amount: a.limit_amount, balance: nb });
            }
            i = i + 1;
        }
        assert(!has_acc(self@.accounts, id as int));
        Err(StoreError::NotFound)
    }

    /// The at most `n` most recent transactions of one account, most recent
    /// first.
    pub fn list_recent_transactions(&self, id: i32, n: usize) -> (r: Vec<TxRecord>)
        ensures
            r@.map_values(|t: TxRecord| t@) == recent(self@.transactions, id as int, n as nat),
    {
        let total: usize = self.transactions.len();
        let mut out: Vec<TxRecord> = Vec::new();
        let mut i: usize = total;
        proof {
            assert(self@.transactions.take(total as int) =~= self@.transactions);
            assert(out@.map_values(|t: TxRecord| t@) =~= Seq::<TxV>::empty());
            assert(Seq::<TxV>::empty() + recent(self@.transactions, id as int, n as nat) =~= recent(
                self@.transactions,
                id as int,
                n as nat,
            ));
        }
        while i > 0
            invariant
                i <= total,
                total == self.transactions.len(),
                out@.len() <= n,
                recent(self@.transactions, id as int, n as nat) =~= out@.map_values(|t: TxRecord| t@)
                    + recent(self@.transactions.take(i as int), id as int, (n - out@.len()) as nat),
            ensures
                out@.len() == n || i == 0,
            decreases i,
        {
            if out.len() == n {
                break;
            }
            let t: &TxRecord = &self.transactions[i - 1];
            let ghost prefix: Seq<TxV> = self@.transactions.take(i as int);
            proof {
                assert(prefix.drop_last() =~= self@.transactions.take(i - 1));
                assert(prefix.last() == self@.transactions[i - 1]);
            }
            if t.account_id == id {
                let ghost before: Seq<TxRecord> = out@;
                out.push(t.duplicate());
                proof {
                    assert(out@.map_values(|t: TxRecord| t@) =~= before.map_values(|t: TxRecord| t@)
                        .push(self@.transactions[i - 1]));
                    assert(recent(prefix, id as int, (n - before.len()) as nat) =~= seq![
                        prefix.last(),
                    ] + recent(prefix.drop_last(), id as int, (n - before.len() - 1) as nat));
                    assert(recent(self@.transactions, id as int, n as nat) =~= out@.map_values(
                        |t: TxRecord| t@,
                    ) + recent(
                        self@.transactions.take(i - 1),
                        id as int,
                        (n - out@.len()) as nat,
                    ));
                }
            } else {
                proof {
                    assert(recent(prefix, id as int, (n - out@.len()) as nat) == recent(
                        prefix.drop_last(),
                        id as int,
                        (n - out@.len()) as nat,
                    ));
                }
            }
            i = i - 1;
        }
        proof {
            if out@.len() == n {
                assert((n - out@.len()) as nat == 0nat);
                assert(recent(self@.transactions.take(i as int), id as int, 0nat) =~= Seq::<
                    TxV,
                >::empty());
            } else {
                assert(i == 0);
                assert(self@.transactions.take(0) =~= Seq::<TxV>::empty());
                assert(recent(Seq::<TxV>::empty(), id as int, (n - out@.len()) as nat) =~= Seq::<
                    TxV,
                >::empty());
            }
            assert(out@.map_values(|t: TxRecord| t@) + Seq::<TxV>::empty() =~= out@.map_values(
                |t: TxRecord| t@,
            ));
            assert(recent(self@.transactions, id as int, n as nat) =~= out@.map_values(
                |t: TxRecord| t@,
            ));
        }
        out
    }
}

impl TxRecord {
    /// A field-for-field copy of the record.
    pub fn duplicate(&self) -> (t: TxRecord)
        ensures
            t@ == self@,
    {
        TxRecord {
            account_id: self.account_id,
            amount: self.amount,
            kind: self.kind,
            descricao: self.descricao.clone(),
            realizada_em: self.realizada_em.clone(),
        }
    }
}

/// Law: in a well-formed ledger no balance is ever more negative than the
/// negative of its account's overdraft limit.
pub proof fn lemma_balance_within_limit(l: LedgerV, i: int)
    requires
        l.wf(),
        0 <= i < l.accounts.len(),
    ensures
        l.accounts[i].balance >= -l.accounts[i].limit_amount,
{
}

/// Law: applying a transaction to a well-formed ledger leaves a well-formed
/// ledger, so no accepted transaction can ever break the overdraft
/// invariant.
pub proof fn lemma_apply_preserves_wf(
    l: LedgerV,
    id: int,
    amount: int,
    kind: TxKind,
    desc: Seq<char>,
    ts: Seq<char>,
)
    requires
        l.wf(),
        0 < amount <= i32::MAX,
        1 <= desc.len() <= 10,
    ensures
        spec_apply(l, id, amount, kind, desc, ts).0.wf(),
{
    let (l2, res) = spec_apply(l, id, amount, kind, desc, ts);
    if has_acc(l.accounts, id) {
        let i = acc_index(l.accounts, id);
        let acc = l.accounts[i];
        if !(kind is Debit && acc.balance - amount < -acc.limit_amount) && !(kind is Credit
            && acc.balance + amount > i32::MAX) {
            assert(forall|k: int|
                0 <= k < l2.accounts.len() && k != i ==> l2.accounts[k] == l.accounts[k]);
            assert(l2.accounts[i].limit_amount == acc.limit_amount);
            assert(l2.accounts[i].balance >= -acc.limit_amount);
            assert(forall|k: int|
                0 <= k < l2.transactions.len() - 1 ==> l2.transactions[k] == l.transactions[k]);
        }
    }
}

/// Law: a successful credit of amount `a` puts that transaction at the head
/// of the account's statement listing and raises the balance by exactly
/// `a`.
pub proof fn lemma_credit_then_statement(
    l: LedgerV,
    id: int,
    amount: int,
    desc: Seq<char>,
    ts: Seq<char>,
)
    requires
        l.wf(),
        has_acc(l.accounts, id),
        amount > 0,
        l.accounts[acc_index(l.accounts, id)].balance + amount <= i32::MAX,
    ensures
        ({
            let before = l.accounts[acc_index(l.accounts, id)].balance;
            let (l2, r) = spec_apply(l, id, amount, TxKind::Credit, desc, ts);
            let listing = recent(l2.transactions, id, 10);
            &&& r == Ok::<(int, int), StoreError>((
                l.accounts[acc_index(l.accounts, id)].limit_amount,
                before + amount,
            ))
            &&& listing.len() >= 1
            &&& listing[0].amount == amount
            &&& listing[0].kind == TxKind::Credit
            &&& listing[0].descricao == desc
            &&& l2.accounts[acc_index(l.accounts, id)].balance == before + amount
        }),
{
    let i = acc_index(l.accounts, id);
    let (l2, r) = spec_apply(l, id, amount, TxKind::Credit, desc, ts);
    let tx = TxV { account_id: id, amount: amount, kind: TxKind::Credit, descricao: desc, realizada_em: ts };
    assert(l2.transactions == l.transactions.push(tx));
    assert(l2.transactions.last() == tx);
    assert(recent(l2.transactions, id, 10)[0] == tx);
}

/// Law: against an account with balance zero, two debits of one amount `a`
/// with `a` within the limit but `2 a` beyond it serialize to exactly one
/// success; the second is refused and the balance ends at `-a`.
pub proof fn lemma_concurrent_debits_serialize(
    l: LedgerV,
    id: int,
    amount: int,
    desc: Seq<char>,
    ts1: Seq<char>,
    ts2: Seq<char>,
)
    requires
        l.wf(),
        has_acc(l.accounts, id),
        amount > 0,
        1 <= desc.len() <= 10,
        l.accounts[acc_index(l.accounts, id)].balance == 0,
        amount <= l.accounts[acc_index(l.accounts, id)].limit_amount,
        2 * amount > l.accounts[acc_index(l.accounts, id)].limit_amount,
    ensures
        ({
            let (l1, r1) = spec_apply(l, id, amount, TxKind::Debit, desc, ts1);
            let (l2, r2) = spec_apply(l1, id, amount, TxKind::Debit, desc, ts2);
            &&& r1 is Ok
            &&& r2 == Err::<(int, int), StoreError>(StoreError::ConstraintViolation)
            &&& l2 == l1
            &&& l1.accounts[acc_index(l1.accounts, id)].balance == -amount
        }),
{
    let i = acc_index(l.accounts, id);
    let (l1, r1) = spec_apply(l, id, amount, TxKind::Debit, desc, ts1);
    assert(r1 is Ok);
    assert(l1.accounts[i].id == id);
    assert(has_acc(l1.accounts, id));
    let j = acc_index(l1.accounts, id);
    assert(0 <= j < l1.accounts.len() && l1.accounts[j].id == id);
    lemma_apply_preserves_wf(l, id, amount, TxKind::Debit, desc, ts1);
    assert(j == i);
    assert(l1.accounts[i].balance == -amount);
    assert(l1.accounts[i].balance - amount < -l1.accounts[i].limit_amount);
}

/// Law: the statement listing holds the at most `n` most recently inserted
/// transactions of the account, in reverse insertion order: it is the
/// reversal of the account's transactions, cut after `n` entries.
pub proof fn lemma_recent_is_reverse_suffix(txs: Seq<TxV>, id: int, n: nat)
    ensures
        ({
            let mine = txs.filter(|t: TxV| t.account_id == id);
            recent(txs, id, n) == mine.reverse().take(
                if n <= mine.len() {
                    n as int
                } else {
                    mine.len() as int
                },
            )
        }),
    decreases txs.len(),
{
    reveal(Seq::filter);
    let pred = |t: TxV| t.account_id == id;
    let mine = txs.filter(pred);
    if txs.len() == 0 {
        assert(recent(txs, id, n) =~= mine.reverse().take(0));
    } else {
        let t = txs.last();
        let rest = txs.drop_last();
        let mine0 = rest.filter(pred);
        lemma_recent_is_reverse_suffix(rest, id, if n == 0 { 0nat } else { (n - 1) as nat });
        lemma_recent_is_reverse_suffix(rest, id, n);
        if pred(t) {
            assert(mine == mine0.push(t));
            assert(mine.reverse() =~= seq![t] + mine0.reverse());
            if n == 0 {
                assert(recent(txs, id, n) =~= mine.reverse().take(0));
            } else {
                let k = if n <= mine.len() { n as int } else { mine.len() as int };
                let k0 = if n - 1 <= mine0.len() { n - 1 } else { mine0.len() as int };
                assert(k == k0 + 1);
                assert(recent(txs, id, n) == seq![t] + recent(rest, id, (n - 1) as nat));
                assert(recent(rest, id, (n - 1) as nat) == mine0.reverse().take(k0));
                assert(mine.reverse().take(k) =~= seq![t] + mine0.reverse().take(k0));
            }
        } else {
            assert(mine == mine0);
            assert(recent(txs, id, n) == recent(rest, id, n));
        }
    }
}

/// One proposed transaction, as the operation hands it to the store.
pub struct TxProposal {
    pub id: int,
    pub amount: int,
    pub kind: TxKind,
    pub descricao: Seq<char>,
    pub realizada_em: Seq<char>,
}

/// The store after a whole sequence of proposals, applied in order;
/// refused proposals leave it unchanged.
pub open spec fn apply_all(l: LedgerV, ps: Seq<TxProposal>) -> LedgerV
    decreases ps.len(),
{
    if ps.len() == 0 {
        l
    } else {
        apply_all(
            spec_apply(l, ps[0].id, ps[0].amount, ps[0].kind, ps[0].descricao, ps[0].realizada_em).0,
            ps.drop_first(),
        )
    }
}

/// Law: no sequence of proposals, however long and whether each is accepted
/// or refused, can carry a well-formed ledger into a state where some
/// balance falls below the negative of its account's overdraft limit.
pub proof fn lemma_no_sequence_breaks_limit(l: LedgerV, ps: Seq<TxProposal>)
    requires
        l.wf(),
        forall|i: int|
            0 <= i < ps.len() ==> 0 < #[trigger] ps[i].amount <= i32::MAX && 1 <= ps[i].descricao.len() <= 10,
    ensures
        apply_all(l, ps).wf(),
        forall|k: int|
            0 <= k < apply_all(l, ps).accounts.len() ==> #[trigger] apply_all(l, ps).accounts[k].balance
                >= -apply_all(l, ps).accounts[k].limit_amount,
    decreases ps.len(),
{
    if ps.len() > 0 {
        lemma_apply_preserves_wf(l, ps[0].id, ps[0].amount, ps[0].kind, ps[0].descricao,
            ps[0].realizada_em);
        let next = spec_apply(l, ps[0].id, ps[0].amount, ps[0].kind, ps[0].descricao,
            ps[0].realizada_em).0;
        assert(forall|i: int|
            0 <= i < ps.drop_first().len() ==> #[trigger] ps.drop_first()[i] == ps[i + 1]);
        lemma_no_sequence_breaks_limit(next, ps.drop_first());
    }
}

} // verus!
