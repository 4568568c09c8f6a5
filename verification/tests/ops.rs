use ledger_core::ledger::{Ledger, StoreError, TxKind};
use ledger_core::request::{Request, TransactionInfo};
use ledger_core::router::{bank_statement, not_found, reached_limit, router, transaction};

fn tx_request(account_id: &str, valor: &str, tipo: &str, descricao: &str) -> Request {
    Request {
        verb: "POST".to_string(),
        account_id: account_id.to_string(),
        suffix: "transacoes".to_string(),
        route: "POST /clientes/:id/transacoes".to_string(),
        content_length: 0,
        body: TransactionInfo {
            valor: valor.to_string(),
            tipo: tipo.to_string(),
            descricao: descricao.to_string(),
        },
    }
}

fn statement_request(account_id: &str) -> Request {
    Request {
        verb: "GET".to_string(),
        account_id: account_id.to_string(),
        suffix: "extrato".to_string(),
        route: "GET /clientes/:id/extrato".to_string(),
        content_length: 0,
        body: TransactionInfo {
            valor: String::new(),
            tipo: String::new(),
            descricao: String::new(),
        },
    }
}

#[test]
fn overdraft_then_allowed_debit() {
    let mut ledger = Ledger::new();
    assert!(ledger.create_account(7, 1000));
    let (status, body) = transaction(&mut ledger, tx_request("7", "1500", "d", "compra"));
    assert_eq!(status, 422);
    assert_eq!(body, "{}");
    let snap = ledger.read_account_snapshot(7).unwrap();
    assert_eq!(snap.balance, 0);
    let (status, body) = transaction(&mut ledger, tx_request("7", "900", "d", "compra"));
    assert_eq!(status, 200);
    assert_eq!(body, "{\"limite\":1000,\"saldo\":-900}");
    let snap = ledger.read_account_snapshot(7).unwrap();
    assert_eq!(snap.balance, -900);
}

#[test]
fn racing_debits_serialize_to_one_success() {
    let mut ledger = Ledger::new();
    assert!(ledger.create_account(1, 100));
    let (s1, _) = transaction(&mut ledger, tx_request("1", "60", "d", "saque"));
    let (s2, b2) = transaction(&mut ledger, tx_request("1", "60", "d", "saque"));
    assert_eq!(s1, 200);
    assert_eq!(s2, 422);
    assert_eq!(b2, "{}");
    assert_eq!(ledger.read_account_snapshot(1).unwrap().balance, -60);
    assert_eq!(ledger.list_recent_transactions(1, 10).len(), 1);
}

#[test]
fn credit_then_statement_round_trip() {
    let mut ledger = Ledger::new();
    assert!(ledger.create_account(3, 0));
    let before = ledger.read_account_snapshot(3).unwrap().balance;
    let (status, _) = transaction(&mut ledger, tx_request("3", "500", "c", "deposito"));
    assert_eq!(status, 200);
    let listed = ledger.list_recent_transactions(3, 10);
    assert_eq!(listed.len(), 1);
    assert_eq!(listed[0].amount, 500);
    assert!(matches!(listed[0].kind, TxKind::Credit));
    let snap = ledger.read_account_snapshot(3).unwrap();
    assert_eq!(snap.balance, before + 500);
    let (status, body) = bank_statement(&ledger, statement_request("3"));
    assert_eq!(status, 200);
    assert!(body.contains("\"valor\":500"));
    assert!(body.contains("\"tipo\":\"c\""));
    assert!(body.contains("\"total\":500"));
}

#[test]
fn twelve_inserts_list_ten_most_recent_in_reverse_order() {
    let mut ledger = Ledger::new();
    assert!(ledger.create_account(9, 0));
    for a in 1..=12 {
        let (status, _) = transaction(&mut ledger, tx_request("9", &a.to_string(), "c", "serie"));
        assert_eq!(status, 200);
    }
    let listed = ledger.list_recent_transactions(9, 10);
    assert_eq!(listed.len(), 10);
    for (pos, t) in listed.iter().enumerate() {
        assert_eq!(t.amount as usize, 12 - pos);
    }
}

#[test]
fn unknown_account_is_404_and_mutates_nothing() {
    let mut ledger = Ledger::new();
    let (status, body) = bank_statement(&ledger, statement_request("55"));
    assert_eq!(status, 404);
    assert_eq!(body, "{}");
    let (status, body) = transaction(&mut ledger, tx_request("55", "10", "c", "x"));
    assert_eq!(status, 404);
    assert_eq!(body, "{}");
    assert_eq!(ledger.list_recent_transactions(55, 10).len(), 0);
}

#[test]
fn invalid_submissions_are_rejected_idempotently() {
    let mut ledger = Ledger::new();
    assert!(ledger.create_account(2, 50));
    let bad = [
        ("0", "c", "ok"),
        ("-5", "c", "ok"),
        ("10", "x", "ok"),
        ("10", "c", ""),
        ("10", "c", "12345678901"),
        ("nonsense", "c", "ok"),
    ];
    for (valor, tipo, descricao) in bad {
        for _ in 0..2 {
            let (status, body) = transaction(&mut ledger, tx_request("2", valor, tipo, descricao));
            assert_eq!(status, 422);
            assert_eq!(body, "{}");
        }
    }
    assert_eq!(ledger.read_account_snapshot(2).unwrap().balance, 0);
    assert_eq!(ledger.list_recent_transactions(2, 10).len(), 0);
}

#[test]
fn debit_exactly_to_the_limit_is_allowed() {
    let mut ledger = Ledger::new();
    assert!(ledger.create_account(4, 1000));
    let (status, body) = transaction(&mut ledger, tx_request("4", "1000", "d", "tudo"));
    assert_eq!(status, 200);
    assert_eq!(body, "{\"limite\":1000,\"saldo\":-1000}");
}

#[test]
fn credit_overflow_reports_store_unavailable() {
    let mut ledger = Ledger::new();
    assert!(ledger.create_account(5, 0));
    let (status, _) = transaction(&mut ledger, tx_request("5", "2147483647", "c", "max"));
    assert_eq!(status, 200);
    let (status, body) = transaction(&mut ledger, tx_request("5", "1", "c", "mais"));
    assert_eq!(status, 500);
    assert_eq!(body, "{}");
    let err = ledger.apply_transaction(5, 1, TxKind::Credit, "mais", "t");
    assert_eq!(err, Err(StoreError::StoreUnavailable));
}

#[test]
fn router_dispatches_by_route_key() {
    let mut ledger = Ledger::new();
    assert!(ledger.create_account(6, 0));
    let (status, _) = router(&mut ledger, tx_request("6", "5", "c", "oi"));
    assert_eq!(status, 200);
    let (status, _) = router(&mut ledger, statement_request("6"));
    assert_eq!(status, 200);
    let mut odd = statement_request("6");
    odd.route = "GET /clientes/:id/outra".to_string();
    let (status, body) = router(&mut ledger, odd);
    assert_eq!(status, 404);
    assert_eq!(body, "{}");
    let (status, body) = not_found();
    assert_eq!(status, 404);
    assert_eq!(body, "{}");
}

#[test]
fn reached_limit_matches_the_overdraft_rule() {
    assert!(reached_limit(0, 1000, 1500));
    assert!(!reached_limit(0, 1000, 900));
    assert!(!reached_limit(0, 1000, 1000));
    assert!(reached_limit(0, 1000, 1001));
    assert!(!reached_limit(500, 0, 500));
    assert!(reached_limit(500, 0, 501));
}

#[test]
fn duplicate_or_negative_accounts_are_refused() {
    let mut ledger = Ledger::new();
    assert!(ledger.create_account(1, 10));
    assert!(!ledger.create_account(1, 20));
    assert!(!ledger.create_account(2, -1));
}
