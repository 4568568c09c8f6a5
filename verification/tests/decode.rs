use ledger_core::config::DatabaseConfig;
use ledger_core::ledger::{TxKind, TxRecord};
use ledger_core::request::{
    content_length_of_headers, decode_error_status, parse_request_line, parser, DecodeError,
    TransactionInfo,
};
use ledger_core::respond::{statement_body, tx_ok_body};
use ledger_core::text::{i32_to_string, i64_to_string, parse_i32};

fn headers(lines: &[&str]) -> Vec<String> {
    lines.iter().map(|s| s.to_string()).collect()
}

#[test]
fn full_post_request_decodes() {
    let body = b"{\"valor\":100,\"tipo\":\"c\",\"descricao\":\"desc\"}";
    let hs = headers(&[
        "Host: localhost",
        &format!("Content-Length: {}", body.len()),
        "",
    ]);
    let req = parser("POST /clientes/42/transacoes HTTP/1.1\r\n", &hs, body).unwrap();
    assert_eq!(req.verb, "POST");
    assert_eq!(req.account_id, "42");
    assert_eq!(req.suffix, "transacoes");
    assert_eq!(req.route, "POST /clientes/:id/transacoes");
    assert_eq!(req.content_length, body.len() as u64);
    assert_eq!(req.body.valor, "100");
    assert_eq!(req.body.tipo, "c");
    assert_eq!(req.body.descricao, "desc");
}

#[test]
fn get_request_without_body_decodes() {
    let hs = headers(&["Host: localhost", ""]);
    let req = parser("GET /clientes/7/extrato HTTP/1.1\r\n", &hs, b"").unwrap();
    assert_eq!(req.verb, "GET");
    assert_eq!(req.account_id, "7");
    assert_eq!(req.route, "GET /clientes/:id/extrato");
    assert_eq!(req.content_length, 0);
    assert_eq!(req.body.valor, "");
    assert_eq!(req.body.tipo, "");
    assert_eq!(req.body.descricao, "");
}

#[test]
fn negative_valor_is_decoded_then_left_to_validation() {
    let body = b"{\"valor\":-8,\"tipo\":\"d\",\"descricao\":\"x\"}";
    let hs = headers(&[&format!("Content-Length: {}", body.len()), ""]);
    let req = parser("POST /clientes/1/transacoes HTTP/1.1\r\n", &hs, body).unwrap();
    assert_eq!(req.body.valor, "-8");
}

#[test]
fn malformed_request_lines_are_refused() {
    let cases = [
        "PUT /clientes/1/extrato HTTP/1.1\r\n",
        "GET /contas/1/extrato HTTP/1.1\r\n",
        "GET /clientes//extrato HTTP/1.1\r\n",
        "GET /clientes/abc/extrato HTTP/1.1\r\n",
        "GET /clientes/1/extrato\r\n",
        "GET /clientes/1/extrato TCP/1.1\r\n",
        "garbage\r\n",
        "",
    ];
    for line in cases {
        assert_eq!(
            parse_request_line(line).unwrap_err(),
            DecodeError::MalformedRequestLine,
            "case: {line:?}"
        );
    }
}

#[test]
fn request_line_accepts_empty_suffix() {
    let (verb, id, suffix) = parse_request_line("GET /clientes/10/ HTTP/1.1\r\n").unwrap();
    assert_eq!(verb, "GET");
    assert_eq!(id, "10");
    assert_eq!(suffix, "");
}

#[test]
fn content_length_defaults_last_one_wins_and_stops_at_blank() {
    assert_eq!(content_length_of_headers(&headers(&["Host: a", ""])).unwrap(), 0);
    assert_eq!(
        content_length_of_headers(&headers(&["Content-Length: 5", "Content-Length: 9", ""]))
            .unwrap(),
        9
    );
    assert_eq!(
        content_length_of_headers(&headers(&["", "Content-Length: 9"])).unwrap(),
        0
    );
    assert_eq!(
        content_length_of_headers(&headers(&["Content-Length:  42  ", ""])).unwrap(),
        42
    );
}

#[test]
fn bad_content_length_is_a_malformed_header() {
    for value in ["abc", "", "1 2", "-4", "99999999999999999999999"] {
        let hs = headers(&[&format!("Content-Length: {value}"), ""]);
        assert_eq!(
            content_length_of_headers(&hs).unwrap_err(),
            DecodeError::MalformedHeader,
            "case: {value:?}"
        );
    }
}

#[test]
fn body_failures_are_malformed_body() {
    let line = "POST /clientes/1/transacoes HTTP/1.1\r\n";
    let ok_body = b"{\"valor\":1,\"tipo\":\"c\",\"descricao\":\"x\"}";
    // fewer bytes than declared
    let hs = headers(&[&format!("Content-Length: {}", ok_body.len() + 3), ""]);
    assert_eq!(parser(line, &hs, ok_body).unwrap_err(), DecodeError::MalformedBody);
    // not JSON at all
    let hs = headers(&["Content-Length: 9", ""]);
    assert_eq!(parser(line, &hs, b"not json!").unwrap_err(), DecodeError::MalformedBody);
    // a field is missing
    let missing = b"{\"valor\":1,\"tipo\":\"c\"}";
    let hs = headers(&[&format!("Content-Length: {}", missing.len()), ""]);
    assert_eq!(parser(line, &hs, missing).unwrap_err(), DecodeError::MalformedBody);
    // valor is a string, not an integer
    let stringy = b"{\"valor\":\"1\",\"tipo\":\"c\",\"descricao\":\"x\"}";
    let hs = headers(&[&format!("Content-Length: {}", stringy.len()), ""]);
    assert_eq!(parser(line, &hs, stringy).unwrap_err(), DecodeError::MalformedBody);
}

#[test]
fn parse_i32_exact_cases() {
    assert_eq!(parse_i32("123"), Some(123));
    assert_eq!(parse_i32("-45"), Some(-45));
    assert_eq!(parse_i32("0012"), Some(12));
    assert_eq!(parse_i32("0"), Some(0));
    assert_eq!(parse_i32("-2147483648"), Some(i32::MIN));
    assert_eq!(parse_i32("2147483647"), Some(i32::MAX));
    assert_eq!(parse_i32("2147483648"), None);
    assert_eq!(parse_i32("-2147483649"), None);
    assert_eq!(parse_i32(""), None);
    assert_eq!(parse_i32("-"), None);
    assert_eq!(parse_i32("12a"), None);
    assert_eq!(parse_i32("+5"), None);
}

#[test]
fn integer_rendering_round_trips() {
    assert_eq!(i32_to_string(0), "0");
    assert_eq!(i32_to_string(-45), "-45");
    assert_eq!(i32_to_string(i32::MAX), "2147483647");
    assert_eq!(i32_to_string(i32::MIN), "-2147483648");
    assert_eq!(i64_to_string(9007199254740993), "9007199254740993");
    for v in [0, 1, -1, 999, -1000, 123456789] {
        assert_eq!(parse_i32(&i32_to_string(v)), Some(v));
    }
}

#[test]
fn statement_body_is_rendered_exactly_with_escaping() {
    let txs = vec![TxRecord {
        account_id: 1,
        amount: 10,
        kind: TxKind::Debit,
        descricao: "a\"b".to_string(),
        realizada_em: "2024-01-01".to_string(),
    }];
    let body = statement_body(1000, -10, "2024-01-02", &txs);
    assert_eq!(
        body,
        "{\"saldo\":{\"limite\":1000,\"total\":-10,\"data_extrato\":\"2024-01-02\"},\
         \"ultimas_transacoes\":[{\"valor\":10,\"tipo\":\"d\",\"descricao\":\"a\\\"b\",\
         \"realizada_em\":\"2024-01-01\"}]}"
    );
    assert_eq!(tx_ok_body(1000, -900), "{\"limite\":1000,\"saldo\":-900}");
    assert_eq!(statement_body(0, 0, "t", &Vec::new()),
        "{\"saldo\":{\"limite\":0,\"total\":0,\"data_extrato\":\"t\"},\"ultimas_transacoes\":[]}");
}

#[test]
fn config_renders_connection_string() {
    let cfg = DatabaseConfig {
        host: "localhost".to_string(),
        user: "u".to_string(),
        password: "SECRET-REDACTED".to_string(),
        dbname: "bank".to_string(),
    };
    assert_eq!(
        cfg.config_to_string(),
        "host=localhost user=u password=SECRET-REDACTED dbname=bank"
    );
}

#[test]
fn decoder_failures_map_to_a_client_error_status() {
    assert_eq!(decode_error_status(&DecodeError::MalformedRequestLine), 400);
    assert_eq!(decode_error_status(&DecodeError::MalformedHeader), 400);
    assert_eq!(decode_error_status(&DecodeError::MalformedBody), 400);
}

#[test]
fn initialize_yields_an_empty_payload() {
    let t = TransactionInfo::initialize();
    assert_eq!(t.valor, "");
    assert_eq!(t.tipo, "");
    assert_eq!(t.descricao, "");
}
