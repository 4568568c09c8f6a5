use vstd::prelude::*;
use crate::ledger::{
    acc_index, has_acc, recent, spec_apply, AccountSnapshot, Ledger, LedgerV, StoreError, TxKind,
};
use crate::request::Request;
use crate::respond::{
    empty_object, spec_statement_body, spec_tx_ok_body, statement_body, tx_ok_body,
};
use crate::text::{spec_parse_i32, parse_i32, str_eq};

verus! {

broadcast use vstd::string::group_string_axioms;

/// The account id named by a request: the numeric value of the id text, or
/// zero when it does not read as an `i32`.
pub open spec fn account_id_val(s: Seq<char>) -> int {
    match spec_parse_i32(s) {
        Some(v) => v,
        None => 0,
    }
}

/// Reads a request's account id, falling back to zero.
pub fn parse_account_id(s: &str) -> (r: i32)
    ensures
        r as int == account_id_val(s@),
{
    match parse_i32(s) {
        Some(v) => v,
        None => 0,
    }
}

/// The transaction kind named by a `tipo` payload field.
pub open spec fn kind_of_tipo(t: Seq<char>) -> Option<TxKind> {
    if t == "c"@ {
        Some(TxKind::Credit)
    } else if t == "d"@ {
        Some(TxKind::Debit)
    } else {
        None
    }
}

/// Business validation of a proposed transaction: the amount reads as a
/// positive `i32`, the kind is credit or debit, and the description has one
/// to ten characters.
pub open spec fn valid_shape(valor: Seq<char>, tipo: Seq<char>, desc: Seq<char>) -> bool {
    &&& spec_parse_i32(valor) matches Some(v) && v > 0
    &&& kind_of_tipo(tipo) is Some
    &&& 1 <= desc.len() <= 10
}

/// The status mapped to each store error.
pub open spec fn status_of_store_error(e: StoreError) -> int {
    match e {
        StoreError::NotFound => 404,
        StoreError::ConstraintViolation => 422,
        StoreError::StoreUnavailable => 500,
    }
}

/// The whole transaction operation as a state transition: validation, then
/// the atomic commit, yielding the new store, the status and the body.
pub open spec fn spec_transaction(
    l: LedgerV,
    account_id: Seq<char>,
    valor: Seq<char>,
    tipo: Seq<char>,
    desc: Seq<char>,
    ts: Seq<char>,
) -> (LedgerV, int, Seq<char>) {
    if !valid_shape(valor, tipo, desc) {
        (l, 422, empty_object())
    } else {
        let amount = spec_parse_i32(valor)->0;
        let kind = kind_of_tipo(tipo)->0;
        let (l2, res) = spec_apply(l, account_id_val(account_id), amount, kind, desc, ts);
        match res {
            Ok(p) => (l2, 200, spec_tx_ok_body(p.0, p.1)),
            Err(e) => (l2, status_of_store_error(e), empty_object()),
        }
    }
}


/// An invalid payload leaves the store untouched and yields 422 with an
/// empty object, whatever the timestamp.
pub proof fn lemma_tx_invalid(
    l: LedgerV,
    aid: Seq<char>,
    valor: Seq<char>,
    tipo: Seq<char>,
    desc: Seq<char>,
    ts: Seq<char>,
)
    requires
        !valid_shape(valor, tipo, desc),
    ensures
        spec_transaction(l, aid, valor, tipo, desc, ts) == (l, 422int, empty_object()),
{
}

/// A valid payload routes through the store's atomic step.
pub proof fn lemma_tx_apply(
    l: LedgerV,
    aid: Seq<char>,
    valor: Seq<char>,
    tipo: Seq<char>,
    desc: Seq<char>,
    ts: Seq<char>,
)
    requires
        valid_shape(valor, tipo, desc),
    ensures
        ({
            let amount = spec_parse_i32(valor)->0;
            let kind = kind_of_tipo(tipo)->0;
            let pair = spec_apply(l, account_id_val(aid), amount, kind, desc, ts);
            spec_transaction(l, aid, valor, tipo, desc, ts) == (match pair.1 {
                Ok(p) => (pair.0, 200int, spec_tx_ok_body(p.0, p.1)),
                Err(e) => (pair.0, status_of_store_error(e), empty_object()),
            })
        }),
{
}

/// The whole statement operation: the status and body returned for a
/// statement request stamped with `now`.
pub open spec fn spec_statement(l: LedgerV, account_id: Seq<char>, now: Seq<char>) -> (
    int,
    Seq<char>,
) {
    let id = account_id_val(account_id);
    if !has_acc(l.accounts, id) {
        (404, empty_object())
    } else {
        let acc = l.accounts[acc_index(l.accounts, id)];
        (
            200,
            spec_statement_body(
                acc.limit_amount,
                acc.balance,
                now,
                recent(l.transactions, id, 10),
            ),
        )
    }
}

/// Relies on chrono's `Local::now`, rendered through its `Display` form:
/// the current local date and time as text. The result depends on the
/// clock, so nothing is promised of it.
#[verifier::external_body]
fn now_timestamp() -> (r: String) {
    chrono::Local::now().to_string()
}

/// The not-found response: status 404 with an empty JSON object body.
pub fn not_found() -> (r: (u16, String))
    ensures
        r.0 == 404,
        r.1@ == empty_object(),
{
    let body: String = new_empty_object();
    (404, body)
}

/// Renders the empty JSON object.
fn new_empty_object() -> (r: String)
    ensures
        r@ == empty_object(),
{
    let mut s: String = String::new();
    crate::text::push_char(&mut s, '{');
    crate::text::push_char(&mut s, '}');
    proof {
        reveal_strlit("{}");
        assert(s@ =~= "{}"@);
    }
    s
}

/// The statement operation: reads the account, lists its ten most recent
/// transactions and renders them with the current time; 404 with an empty
/// object for an unknown account.
pub fn bank_statement(ledger: &Ledger, request: Request) -> (r: (u16, String))
    requires
        ledger@.wf(),
    ensures
        exists|now: Seq<char>|
            {
                let (status, body) = #[trigger] spec_statement(ledger@, request.account_id@, now);
                r.0 as int == status && r.1@ == body
            },
        !has_acc(ledger@.accounts, account_id_val(request.account_id@)) ==> r.0 == 404 && r.1@
            == empty_object(),
        r.0 == 200 || r.0 == 404,
{
    let id: i32 = parse_account_id(request.account_id.as_str());
    let snap: AccountSnapshot = match ledger.read_account_snapshot(id) {
        Some(s) => s,
        None => {
            proof {
                let witness: Seq<char> = Seq::empty();
                assert(spec_statement(ledger@, request.account_id@, witness).0 == 404);
            }
            return not_found();
        },
    };
    let txs = ledger.list_recent_transactions(id, 10);
    let now: String = now_timestamp();
    let body: String = statement_body(snap.limit_amount, snap.balance, now.as_str(), &txs);
    proof {
        assert(spec_statement(ledger@, request.account_id@, now@).0 == 200);
        assert(spec_statement(ledger@, request.account_id@, now@).1 == body@);
    }
    (200, body)
}

/// The transaction operation: validates the payload, looks the account up,
/// pre-checks a debit against the snapshot, and commits through the store's
/// atomic step; every failure leaves the store unchanged and returns an
/// empty object body.
pub fn transaction(ledger: &mut Ledger, request: Request) -> (r: (u16, String))
    requires
        old(ledger)@.wf(),
    ensures
        final(ledger)@.wf(),
        exists|ts: Seq<char>|
            {
                let (l2, status, body) = #[trigger] spec_transaction(
                    old(ledger)@,
                    request.account_id@,
                    request.body.valor@,
                    request.body.tipo@,
                    request.body.descricao@,
                    ts,
                );
                final(ledger)@ == l2 && r.0 as int == status && r.1@ == body
            },
        !valid_shape(request.body.valor@, request.body.tipo@, request.body.descricao@) ==> final(ledger)@ == old(ledger)@ && r.0 == 422 && r.1@ == empty_object(),
        valid_shape(request.body.valor@, request.body.tipo@, request.body.descricao@) && !has_acc(
            old(ledger)@.accounts,
            account_id_val(request.account_id@),
        ) ==> final(ledger)@ == old(ledger)@ && r.0 == 404 && r.1@ == empty_object(),
{
    let amount: i32 = match parse_i32(request.body.valor.as_str()) {
        Some(v) => v,
        None => {
            proof {
                lemma_tx_invalid(old(ledger)@, request.account_id@, request.body.valor@,
                    request.body.tipo@, request.body.descricao@, Seq::empty());
            }
            return (422, new_empty_object());
        },
    };
    if amount <= 0 {
        proof {
            lemma_tx_invalid(old(ledger)@, request.account_id@, request.body.valor@,
                request.body.tipo@, request.body.descricao@, Seq::empty());
        }
        return (422, new_empty_object());
    }
    let kind: TxKind = if str_eq(request.body.tipo.as_str(), "c") {
        TxKind::Credit
    } else if str_eq(request.body.tipo.as_str(), "d") {
        TxKind::Debit
    } else {
        proof {
            lemma_tx_invalid(old(ledger)@, request.account_id@, request.body.valor@,
                request.body.tipo@, request.body.descricao@, Seq::empty());
        }
        return (422, new_empty_object());
    };
    let dlen: usize = request.body.descricao.as_str().unicode_len();
    if dlen < 1 || dlen > 10 {
        proof {
            lemma_tx_invalid(old(ledger)@, request.account_id@, request.body.valor@,
                request.body.tipo@, request.body.descricao@, Seq::empty());
        }
        return (422, new_empty_object());
    }
    assert(valid_shape(request.body.valor@, request.body.tipo@, request.body.descricao@));
    assert(kind_of_tipo(request.body.tipo@) == Some(kind));
    assert(spec_parse_i32(request.body.valor@) == Some(amount as int));
    let id: i32 = parse_account_id(request.account_id.as_str());
    let snap: AccountSnapshot = match ledger.read_account_snapshot(id) {
        Some(s) => s,
        None => {
            proof {
                lemma_tx_apply(old(ledger)@, request.account_id@, request.body.valor@,
                    request.body.tipo@, request.body.descricao@, Seq::empty());
            }
            return (404, new_empty_object());
        },
    };
    // Advisory pre-check against the snapshot; the authoritative check runs
    // again inside the store's atomic step.
    if matches!(kind, TxKind::Debit) && reached_limit(snap.balance, snap.limit_amount, amount) {
        proof {
            lemma_tx_apply(old(ledger)@, request.account_id@, request.body.valor@,
                request.body.tipo@, request.body.descricao@, Seq::empty());
        }
        return (422, new_empty_object());
    }
    let now: String = now_timestamp();
    let res = ledger.apply_transaction(
        id,
        amount,
        kind,
        request.body.descricao.as_str(),
        now.as_str(),
    );
    proof {
        lemma_tx_apply(old(ledger)@, request.account_id@, request.body.valor@,
            request.body.tipo@, request.body.descricao@, now@);
    }
    match res {
        Ok(after) => {
            let body: String = tx_ok_body(after.limit_amount, after.balance);
            (200, body)
        },
        Err(StoreError::ConstraintViolation) => (422, new_empty_object()),
        Err(StoreError::NotFound) => (404, new_empty_object()),
        Err(StoreError::StoreUnavailable) => (500, new_empty_object()),
    }
}

/// Reports whether a debit of `amount` against `balance` would breach the
/// overdraft limit `limit_amount` (the maximum magnitude by which a balance
/// may go negative).
pub fn reached_limit(balance: i32, limit_amount: i32, amount: i32) -> (r: bool)
    ensures
        r == ((balance - amount <= limit_amount) && (if balance - amount >= 0 {
            balance - amount
        } else {
            -(balance - amount)
        }) > limit_amount),
        limit_amount >= 0 ==> r == (balance - amount < -limit_amount),
{
    let b: i64 = balance as i64;
    let l: i64 = limit_amount as i64;
    let a: i64 = amount as i64;
    if b - a > l {
        false
    } else {
        let d: i64 = b - a;
        let m: i64 = if d >= 0 {
            d
        } else {
            -d
        };
        m > l
    }
}

/// The dispatch key of the statement operation.
pub open spec fn statement_route() -> Seq<char> {
    "GET /clientes/:id/extrato"@
}

/// The dispatch key of the transaction operation.
pub open spec fn transaction_route() -> Seq<char> {
    "POST /clientes/:id/transacoes"@
}

/// Routes one decoded request to its operation by exact match on the
/// dispatch key; anything else is not found.
pub fn router(ledger: &mut Ledger, request: Request) -> (r: (u16, String))
    requires
        old(ledger)@.wf(),
    ensures
        final(ledger)@.wf(),
        request.route@ == statement_route() ==> final(ledger)@ == old(ledger)@ && exists|
            now: Seq<char>,
        |
            {
                let (status, body) = #[trigger] spec_statement(
                    old(ledger)@,
                    request.account_id@,
                    now,
                );
                r.0 as int == status && r.1@ == body
            },
        request.route@ == transaction_route() ==> exists|ts: Seq<char>|
            {
                let (l2, status, body) = #[trigger] spec_transaction(
                    old(ledger)@,
                    request.account_id@,
                    request.body.valor@,
                    request.body.tipo@,
                    request.body.descricao@,
                    ts,
                );
                final(ledger)@ == l2 && r.0 as int == status && r.1@ == body
            },
        request.route@ != statement_route() && request.route@ != transaction_route() ==> final(ledger)@ == old(ledger)@ && r.0 == 404 && r.1@ == empty_object(),
{
    proof {
        reveal_strlit("GET /clientes/:id/extrato");
        reveal_strlit("POST /clientes/:id/transacoes");
        assert(statement_route().len() == 25);
        assert(transaction_route().len() == 29);
    }
    if str_eq(request.route.as_str(), "GET /clientes/:id/extrato") {
        bank_statement(ledger, request)
    } else if str_eq(request.route.as_str(), "POST /clientes/:id/transacoes") {
        transaction(ledger, request)
    } else {
        not_found()
    }
}

/// Law: a submission that fails validation never changes the store, and
/// resubmitting it yields 422 again, however often it is repeated.
pub proof fn lemma_invalid_rejected_twice(
    l: LedgerV,
    aid: Seq<char>,
    valor: Seq<char>,
    tipo: Seq<char>,
    desc: Seq<char>,
    ts1: Seq<char>,
    ts2: Seq<char>,
)
    requires
        !valid_shape(valor, tipo, desc),
    ensures
        ({
            let (l1, s1, b1) = spec_transaction(l, aid, valor, tipo, desc, ts1);
            let (l2, s2, b2) = spec_transaction(l1, aid, valor, tipo, desc, ts2);
            l1 == l && s1 == 422 && b1 == empty_object() && l2 == l && s2 == 422 && b2
                == empty_object()
        }),
{
}

/// Law: a statement or transaction request naming an unknown account yields
/// 404 with an empty object body and performs no mutation.
pub proof fn lemma_unknown_account_rejected(
    l: LedgerV,
    aid: Seq<char>,
    valor: Seq<char>,
    tipo: Seq<char>,
    desc: Seq<char>,
    now: Seq<char>,
    ts: Seq<char>,
)
    requires
        !has_acc(l.accounts, account_id_val(aid)),
        valid_shape(valor, tipo, desc),
    ensures
        spec_statement(l, aid, now) == (404int, empty_object()),
        spec_transaction(l, aid, valor, tipo, desc, ts) == (l, 404int, empty_object()),
{
}

} // verus!
