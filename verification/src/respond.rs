use vstd::prelude::*;
use vstd::string::StringExecFns;
use crate::ledger::{TxKind, TxRecord, TxV};
use crate::text::{int_str, json_escape, i32_to_string, json_escape_str};

verus! {

/// The empty JSON object, the body of every error response.
pub open spec fn empty_object() -> Seq<char> {
    "{}"@
}

/// Body of a successful transaction response: the account's limit and its
/// post-transaction balance.
pub open spec fn spec_tx_ok_body(limit: int, balance: int) -> Seq<char> {
    "{\"limite\":"@ + int_str(limit) + ",\"saldo\":"@ + int_str(balance) + "}"@
}

/// The one-character tag of a transaction kind.
pub open spec fn tipo_seq(k: TxKind) -> Seq<char> {
    if k is Credit {
        "c"@
    } else {
        "d"@
    }
}

/// One entry of a statement's transaction list.
pub open spec fn spec_tx_entry(t: TxV) -> Seq<char> {
    "{\"valor\":"@ + int_str(t.amount) + ",\"tipo\":\""@ + tipo_seq(t.kind) + "\",\"descricao\":\""@
        + json_escape(t.descricao) + "\",\"realizada_em\":\""@ + json_escape(t.realizada_em)
        + "\"}"@
}

/// A comma-separated list of statement entries.
pub open spec fn spec_tx_list(ts: Seq<TxV>) -> Seq<char>
    decreases ts.len(),
{
    if ts.len() == 0 {
        Seq::empty()
    } else if ts.len() == 1 {
        spec_tx_entry(ts[0])
    } else {
        spec_tx_list(ts.drop_last()) + ","@ + spec_tx_entry(ts.last())
    }
}

/// Body of a statement response: the balance summary stamped with the
/// statement's own timestamp, then the listed transactions.
pub open spec fn spec_statement_body(limit: int, total: int, now: Seq<char>, ts: Seq<TxV>) -> Seq<
    char,
> {
    "{\"saldo\":{\"limite\":"@ + int_str(limit) + ",\"total\":"@ + int_str(total)
        + ",\"data_extrato\":\""@ + json_escape(now) + "\"},\"ultimas_transacoes\":["@ + spec_tx_list(
        ts,
    ) + "]}"@
}

/// Renders the body of a successful transaction response.
pub fn tx_ok_body(limit: i32, balance: i32) -> (r: String)
    ensures
        r@ == spec_tx_ok_body(limit as int, balance as int),
{
    let mut out: String = String::from_str("{\"limite\":");
    let lim = i32_to_string(limit);
    out.append(lim.as_str());
    out.append(",\"saldo\":");
    let bal = i32_to_string(balance);
    out.append(bal.as_str());
    out.append("}");
    out
}

/// Renders one entry of a statement's transaction list.
pub fn tx_entry_body(t: &TxRecord) -> (r: String)
    ensures
        r@ == spec_tx_entry(t@),
{
    let mut out: String = String::from_str("{\"valor\":");
    let amt = i32_to_string(t.amount);
    out.append(amt.as_str());
    out.append(",\"tipo\":\"");
    match t.kind {
        TxKind::Credit => out.append("c"),
        TxKind::Debit => out.append("d"),
    }
    out.append("\",\"descricao\":\"");
    let desc = json_escape_str(t.descricao.as_str());
    out.append(desc.as_str());
    out.append("\",\"realizada_em\":\"");
    let when = json_escape_str(t.realizada_em.as_str());
    out.append(when.as_str());
    out.append("\"}");
    out
}

/// Renders the body of a statement response from the balance summary and the
/// listed transactions, most recent first.
pub fn statement_body(limit: i32, total: i32, now: &str, txs: &Vec<TxRecord>) -> (r: String)
    ensures
        r@ == spec_statement_body(
            limit as int,
            total as int,
            now@,
            txs@.map_values(|t: TxRecord| t@),
        ),
{
    let mut out: String = String::from_str("{\"saldo\":{\"limite\":");
    let lim = i32_to_string(limit);
    out.append(lim.as_str());
    out.append(",\"total\":");
    let tot = i32_to_string(total);
    out.append(tot.as_str());
    out.append(",\"data_extrato\":\"");
    let when = json_escape_str(now);
    out.append(when.as_str());
    out.append("\"},\"ultimas_transacoes\":[");
    let ghost views: Seq<TxV> = txs@.map_values(|t: TxRecord| t@);
    let count: usize = txs.len();
    let mut items: String = String::new();
    let mut i: usize = 0;
    proof {
        assert(views.take(0) =~= Seq::<TxV>::empty());
    }
    while i < count
        invariant
            i <= count,
            count == txs@.len(),
            views == txs@.map_values(|t: TxRecord| t@),
            items@ =~= spec_tx_list(views.take(i as int)),
        decreases count - i,
    {
        if i > 0 {
            items.append(",");
        }
        let entry = tx_entry_body(&txs[i]);
        items.append(entry.as_str());
        proof {
            assert(views.take(i + 1).drop_last() =~= views.take(i as int));
            assert(views.take(i + 1).last() == views[i as int]);
            assert(views[i as int] == txs@[i as int]@);
            if i == 0 {
                assert(items@ =~= spec_tx_entry(views[0]));
                assert(spec_tx_list(views.take(1)) == spec_tx_entry(views.take(1)[0]));
            }
        }
        i = i + 1;
    }
    proof {
        assert(views.take(count as int) =~= views);
    }
    out.append(items.as_str());
    out.append("]}");
    out
}

} // verus!
