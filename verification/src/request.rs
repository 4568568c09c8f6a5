use vstd::prelude::*;
use vstd::string::StrSliceExecFns;
use vstd::string::StringExecFns;
use crate::text::{
    all_digits, all_digits_str, digits_val, int_str, i64_to_string, parse_u64_digits, str_eq,
};

verus! {

/// Decoder-level failures, each terminal for the current request only.
#[derive(Clone, Copy, PartialEq, Eq, Structural, Debug)]
pub enum DecodeError {
    MalformedRequestLine,
    MalformedHeader,
    MalformedBody,
}

/// The transaction payload carried by a request, still as text.
#[derive(Debug)]
pub struct TransactionInfo {
    pub valor: String,
    pub tipo: String,
    pub descricao: String,
}

impl TransactionInfo {
    /// An empty payload, used when the request carries no body.
    pub fn initialize() -> (t: Self)
        ensures
            t.valor@ == Seq::<char>::empty(),
            t.tipo@ == Seq::<char>::empty(),
            t.descricao@ == Seq::<char>::empty(),
    {
        Self { valor: String::new(), tipo: String::new(), descricao: String::new() }
    }
}

/// One decoded request: verb, account identifier, route suffix, the derived
/// dispatch key, the declared body length and the body payload.
#[derive(Debug)]
pub struct Request {
    pub verb: String,
    pub account_id: String,
    pub suffix: String,
    pub route: String,
    pub content_length: u64,
    pub body: TransactionInfo,
}

// ---------------------------------------------------------------------------
// Scanning helpers
// ---------------------------------------------------------------------------
/// Index of the first occurrence of `c` at or after `from`, or -1.
pub open spec fn find_char(s: Seq<char>, c: char, from: int) -> int
    decreases s.len() - from,
{
    if from < 0 || from >= s.len() {
        -1
    } else if s[from] == c {
        from
    } else {
        find_char(s, c, from + 1)
    }
}

pub open spec fn starts_with(s: Seq<char>, p: Seq<char>) -> bool {
    s.len() >= p.len() && s.take(p.len() as int) == p
}

/// Searching a suffix of `s` finds the same occurrence, shifted.
pub proof fn lemma_find_char_skip(s: Seq<char>, c: char, off: int, from: int)
    requires
        0 <= off <= from <= s.len(),
    ensures
        find_char(s.skip(off), c, from - off) == if find_char(s, c, from) >= 0 {
            find_char(s, c, from) - off
        } else {
            -1
        },
    decreases s.len() - from,
{
    if from < s.len() {
        assert(s.skip(off)[from - off] == s[from]);
        if s[from] != c {
            lemma_find_char_skip(s, c, off, from + 1);
        }
    }
}

fn find_char_at(s: &str, c: char, from: usize) -> (r: Option<usize>)
    requires
        from <= s@.len(),
    ensures
        match r {
            Some(i) => from <= i < s@.len() && find_char(s@, c, from as int) == i as int,
            None => find_char(s@, c, from as int) == -1,
        },
{
    let n: usize = s.unicode_len();
    let mut i: usize = from;
    while i < n
        invariant
            from <= i <= n,
            n == s@.len(),
            find_char(s@, c, from as int) == find_char(s@, c, i as int),
        decreases n - i,
    {
        let ch: char = s.get_char(i);
        if ch == c {
            return Some(i);
        }
        i = i + 1;
    }
    None
}

fn starts_with_at(s: &str, off: usize, pat: &str) -> (r: bool)
    requires
        off <= s@.len(),
    ensures
        r == starts_with(s@.skip(off as int), pat@),
{
    let n: usize = s.unicode_len();
    let m: usize = pat.unicode_len();
    if n - off < m {
        return false;
    }
    let mut k: usize = 0;
    while k < m
        invariant
            k <= m,
            m == pat@.len(),
            off + m <= n,
            n == s@.len(),
            forall|j: int| 0 <= j < k ==> s@[off + j] == pat@[j],
        decreases m - k,
    {
        let a: char = s.get_char(off + k);
        let b: char = pat.get_char(k);
        if a != b {
            proof {
                assert(s@.skip(off as int)[k as int] == s@[off + k]);
                if starts_with(s@.skip(off as int), pat@) {
                    assert(s@.skip(off as int).take(m as int)[k as int] == pat@[k as int]);
                }
            }
            return false;
        }
        k = k + 1;
    }
    proof {
        assert(s@.skip(off as int).take(m as int) =~= pat@);
    }
    true
}

// ---------------------------------------------------------------------------
// The request line
// ---------------------------------------------------------------------------
/// Grammar of the request line: a verb out of GET and POST, a space, the
/// literal `/clientes/`, one or more digits, a slash, a space-free suffix, a
/// space, and a protocol token beginning with `HTTP`. Yields the verb, the
/// digits and the suffix.
pub open spec fn spec_req_line(s: Seq<char>) -> Option<(Seq<char>, Seq<char>, Seq<char>)> {
    let sp1 = find_char(s, ' ', 0);
    if sp1 < 0 {
        None
    } else {
        let verb = s.take(sp1);
        if !(verb == "GET"@ || verb == "POST"@) {
            None
        } else {
            let rest = s.skip(sp1 + 1);
            if !starts_with(rest, "/clientes/"@) {
                None
            } else {
                let after = rest.skip("/clientes/"@.len() as int);
                let slash = find_char(after, '/', 0);
                if slash < 1 {
                    None
                } else {
                    let digits = after.take(slash);
                    if !all_digits(digits) {
                        None
                    } else {
                        let tail = after.skip(slash + 1);
                        let sp2 = find_char(tail, ' ', 0);
                        if sp2 < 0 {
                            None
                        } else {
                            let suffix = tail.take(sp2);
                            if starts_with(tail.skip(sp2 + 1), "HTTP"@) {
                                Some((verb, digits, suffix))
                            } else {
                                None
                            }
                        }
                    }
                }
            }
        }
    }
}

/// Parses the request line into verb, account digits and route suffix.
pub fn parse_request_line(line: &str) -> (r: Result<(String, String, String), DecodeError>)
    ensures
        match r {
            Ok(t) => spec_req_line(line@) matches Some(u) && t.0@ == u.0 && t.1@ == u.1 && t.2@
                == u.2,
            Err(e) => e == DecodeError::MalformedRequestLine && spec_req_line(line@) is None,
        },
{
    proof {
        reveal_strlit("/clientes/");
    }
    let n: usize = line.unicode_len();
    let sp1: usize = match find_char_at(line, ' ', 0) {
        Some(i) => i,
        None => {
            return Err(DecodeError::MalformedRequestLine);
        },
    };
    let verb: String = line.substring_char(0, sp1).to_owned();
    proof {
        assert(verb@ =~= line@.take(sp1 as int));
    }
    if !(str_eq(verb.as_str(), "GET") || str_eq(verb.as_str(), "POST")) {
        return Err(DecodeError::MalformedRequestLine);
    }
    let ghost rest: Seq<char> = line@.skip(sp1 + 1);
    if !starts_with_at(line, sp1 + 1, "/clientes/") {
        return Err(DecodeError::MalformedRequestLine);
    }
    let aoff: usize = sp1 + 1 + 10;
    let ghost after: Seq<char> = rest.skip("/clientes/"@.len() as int);
    proof {
        assert(starts_with(rest, "/clientes/"@));
        assert(rest.len() >= 10);
        assert(after =~= line@.skip(aoff as int));
    }
    let slash_abs: usize = match find_char_at(line, '/', aoff) {
        Some(i) => i,
        None => {
            proof {
                lemma_find_char_skip(line@, '/', aoff as int, aoff as int);
            }
            return Err(DecodeError::MalformedRequestLine);
        },
    };
    proof {
        lemma_find_char_skip(line@, '/', aoff as int, aoff as int);
        assert(find_char(after, '/', 0) == slash_abs - aoff);
    }
    if slash_abs == aoff {
        return Err(DecodeError::MalformedRequestLine);
    }
    let digits: String = line.substring_char(aoff, slash_abs).to_owned();
    proof {
        assert(digits@ =~= after.take(slash_abs - aoff));
    }
    if !all_digits_str(digits.as_str()) {
        return Err(DecodeError::MalformedRequestLine);
    }
    assert(all_digits(digits@));
    let ghost tail: Seq<char> = after.skip(slash_abs - aoff + 1);
    proof {
        assert(tail =~= line@.skip(slash_abs + 1));
    }
    let sp2_abs: usize = match find_char_at(line, ' ', slash_abs + 1) {
        Some(i) => i,
        None => {
            proof {
                lemma_find_char_skip(line@, ' ', slash_abs + 1, slash_abs + 1);
            }
            return Err(DecodeError::MalformedRequestLine);
        },
    };
    proof {
        lemma_find_char_skip(line@, ' ', slash_abs + 1, slash_abs + 1);
        assert(find_char(tail, ' ', 0) == sp2_abs - (slash_abs + 1));
    }
    let suffix: String = line.substring_char(slash_abs + 1, sp2_abs).to_owned();
    proof {
        assert(suffix@ =~= tail.take(sp2_abs - (slash_abs + 1)));
    }
    if !starts_with_at(line, sp2_abs + 1, "HTTP") {
        proof {
            assert(tail.skip(sp2_abs - (slash_abs + 1) + 1) =~= line@.skip(sp2_abs + 1));
        }
        return Err(DecodeError::MalformedRequestLine);
    }
    proof {
        assert(tail.skip(sp2_abs - (slash_abs + 1) + 1) =~= line@.skip(sp2_abs + 1));
    }
    Ok((verb, digits, suffix))
}

// ---------------------------------------------------------------------------
// Headers: the declared content length
// ---------------------------------------------------------------------------
pub open spec fn is_space(c: char) -> bool {
    c == ' ' || c == '\t' || c == '\r'
}

pub open spec fn trim_left(s: Seq<char>) -> Seq<char>
    decreases s.len(),
{
    if s.len() > 0 && is_space(s[0]) {
        trim_left(s.drop_first())
    } else {
        s
    }
}

pub open spec fn trim_right(s: Seq<char>) -> Seq<char>
    decreases s.len(),
{
    if s.len() > 0 && is_space(s.last()) {
        trim_right(s.drop_last())
    } else {
        s
    }
}

pub open spec fn trimmed(s: Seq<char>) -> Seq<char> {
    trim_right(trim_left(s))
}

pub open spec fn cl_prefix() -> Seq<char> {
    "Content-Length:"@
}

pub open spec fn is_cl_line(line: Seq<char>) -> bool {
    starts_with(line, cl_prefix())
}

/// The numeric value carried by a `Content-Length` header line: what stands
/// after the colon, surrounding blanks removed, must be one or more digits
/// whose value fits a `u64`.
pub open spec fn cl_value(line: Seq<char>) -> Option<int> {
    let v = trimmed(line.skip(cl_prefix().len() as int));
    if v.len() >= 1 && all_digits(v) && digits_val(v) <= u64::MAX {
        Some(digits_val(v))
    } else {
        None
    }
}

/// Folds the header lines, stopping at the first empty line: each
/// `Content-Length` line overwrites the value, a malformed one fails the
/// scan, and the value starts at zero.
pub open spec fn scan_cl(lines: Seq<Seq<char>>, i: int, acc: int) -> Option<int>
    decreases lines.len() - i,
{
    if i < 0 || i >= lines.len() {
        Some(acc)
    } else if lines[i].len() == 0 {
        Some(acc)
    } else if is_cl_line(lines[i]) {
        match cl_value(lines[i]) {
            Some(v) => scan_cl(lines, i + 1, v),
            None => None,
        }
    } else {
        scan_cl(lines, i + 1, acc)
    }
}

/// The declared content length of a header block, 0 when no header names
/// one.
pub open spec fn spec_content_length(lines: Seq<Seq<char>>) -> Option<int> {
    scan_cl(lines, 0, 0)
}

/// Reads the value of one `Content-Length` header line.
fn parse_cl_value(line: &str) -> (r: Option<u64>)
    requires
        is_cl_line(line@),
    ensures
        match r {
            Some(v) => cl_value(line@) == Some(v as int),
            None => cl_value(line@) is None,
        },
{
    proof {
        reveal_strlit("Content-Length:");
        assert(cl_prefix().len() == 15);
    }
    let plen: usize = 15;
    let n: usize = line.unicode_len();
    assert(n >= plen);
    let ghost content: Seq<char> = line@.skip(15);
    // Strip leading blanks.
    let mut i: usize = plen;
    proof {
        assert(content.skip(0) =~= content);
    }
    while i < n
        invariant
            15 <= i <= n,
            n == line@.len(),
            content == line@.skip(15),
            trim_left(content) == trim_left(line@.skip(i as int)),
        ensures
            15 <= i <= n,
            trim_left(content) == trim_left(line@.skip(i as int)),
            i == n || !is_space(line@[i as int]),
        decreases n - i,
    {
        let c: char = line.get_char(i);
        if !(c == ' ' || c == '\t' || c == '\r') {
            break;
        }
        proof {
            assert(line@.skip(i as int)[0] == line@[i as int]);
            assert(line@.skip(i as int).drop_first() =~= line@.skip(i + 1));
        }
        i = i + 1;
    }
    let ghost t: Seq<char> = line@.skip(i as int);
    proof {
        if i < n {
            assert(t[0] == line@[i as int]);
        }
        assert(trim_left(content) == t);
    }
    // Strip trailing blanks.
    let mut j: usize = n;
    proof {
        assert(t.take(n - i) =~= t);
    }
    while j > i
        invariant
            15 <= i <= j <= n,
            n == line@.len(),
            t == line@.skip(i as int),
            trim_right(t) == trim_right(t.take(j - i)),
        ensures
            i <= j <= n,
            trim_right(t) == trim_right(t.take(j - i)),
            j == i || !is_space(line@[j - 1]),
        decreases j,
    {
        let c: char = line.get_char(j - 1);
        if !(c == ' ' || c == '\t' || c == '\r') {
            break;
        }
        proof {
            let k: int = j - i;
            assert(t.take(k)[k - 1] == line@[j - 1]);
            assert(t.take(k).drop_last() =~= t.take(k - 1));
        }
        j = j - 1;
    }
    let ghost v: Seq<char> = t.take(j - i);
    proof {
        if j > i {
            assert(v[j - i - 1] == line@[j - 1]);
        }
        assert(trim_right(t) == v);
        assert(trimmed(content) == v);
    }
    let vs: &str = line.substring_char(i, j);
    proof {
        assert(vs@ =~= v);
    }
    parse_u64_digits(vs)
}

/// Scans the header lines for the declared content length, defaulting to
/// zero, and stopping at the first empty line.
pub fn content_length_of_headers(headers: &Vec<String>) -> (r: Result<u64, DecodeError>)
    ensures
        match r {
            Ok(v) => spec_content_length(headers.deep_view()) == Some(v as int),
            Err(e) => e == DecodeError::MalformedHeader && spec_content_length(
                headers.deep_view(),
            ) is None,
        },
{
    let ghost dv: Seq<Seq<char>> = headers.deep_view();
    let n: usize = headers.len();
    let mut acc: u64 = 0;
    let mut i: usize = 0;
    while i < n
        invariant
            i <= n,
            n == headers@.len(),
            dv == headers.deep_view(),
            dv.len() == n,
            scan_cl(dv, 0, 0) == scan_cl(dv, i as int, acc as int),
        decreases n - i,
    {
        let line: &String = &headers[i];
        proof {
            assert(dv[i as int] == headers@[i as int]@);
        }
        if line.as_str().unicode_len() == 0 {
            return Ok(acc);
        }
        if starts_with_at(line.as_str(), 0, "Content-Length:") {
            proof {
                assert(line@.skip(0) =~= line@);
            }
            match parse_cl_value(line.as_str()) {
                Some(val) => {
                    acc = val;
                },
                None => {
                    return Err(DecodeError::MalformedHeader);
                },
            }
        } else {
            proof {
                assert(line@.skip(0) =~= line@);
            }
        }
        i = i + 1;
    }
    Ok(acc)
}

// ---------------------------------------------------------------------------
// The body
// ---------------------------------------------------------------------------
/// The `valor`, `tipo` and `descricao` fields read out of a JSON document,
/// a function of the bytes alone; absent when the bytes are not a JSON
/// object carrying an integer `valor` and string `tipo` and `descricao`.
pub uninterp spec fn body_fields_of(b: Seq<u8>) -> Option<(i64, Seq<char>, Seq<char>)>;

/// Relies on serde_json: `from_slice` parses a JSON document, and
/// `Value::get`, `Value::as_i64` and `Value::as_str` read the fields named
/// `valor`, `tipo` and `descricao`. All of them compute from the bytes
/// alone.
#[verifier::external_body]
fn parse_body_json(b: &[u8]) -> (r: Option<(i64, String, String)>)
    ensures
        r is Some <==> body_fields_of(b@) is Some,
        r matches Some(t) ==> body_fields_of(b@) matches Some(u) && t.0 == u.0 && t.1@ == u.1
            && t.2@ == u.2,
{
    let v: serde_json::Value = serde_json::from_slice(b).ok()?;
    let valor: i64 = v.get("valor").and_then(serde_json::Value::as_i64)?;
    let tipo: &str = v.get("tipo").and_then(serde_json::Value::as_str)?;
    let descricao: &str = v.get("descricao").and_then(serde_json::Value::as_str)?;
    Some((valor, tipo.to_owned(), descricao.to_owned()))
}

// ---------------------------------------------------------------------------
// The whole decoder
// ---------------------------------------------------------------------------
/// Decodes one request from its already-read pieces: the request line, the
/// header lines up to the blank line, and the body bytes. The body must hold
/// exactly the declared number of bytes; when the declared length is zero
/// the body is ignored and the payload is left empty.
pub fn parser(headline: &str, headers: &Vec<String>, body: &[u8]) -> (r: Result<
    Request,
    DecodeError,
>)
    ensures
        match r {
            Ok(req) => {
                &&& spec_req_line(headline@) matches Some(u) && req.verb@ == u.0
                    && req.account_id@ == u.1 && req.suffix@ == u.2 && req.route@ == u.0
                    + " /clientes/:id/"@ + u.2
                &&& spec_content_length(headers.deep_view()) == Some(req.content_length as int)
                &&& req.content_length == 0 ==> req.body.valor@ == Seq::<char>::empty()
                    && req.body.tipo@ == Seq::<char>::empty() && req.body.descricao@ == Seq::<
                    char,
                >::empty()
                &&& req.content_length > 0 ==> (body@.len() == req.content_length
                    && (body_fields_of(body@) matches Some(f) && req.body.valor@ == int_str(
                    f.0 as int,
                ) && req.body.tipo@ == f.1 && req.body.descricao@ == f.2))
            },
            Err(e) => match e {
                DecodeError::MalformedRequestLine => spec_req_line(headline@) is None,
                DecodeError::MalformedHeader => spec_req_line(headline@) is Some
                    && spec_content_length(headers.deep_view()) is None,
                DecodeError::MalformedBody => spec_req_line(headline@) is Some && (
                spec_content_length(headers.deep_view()) matches Some(cl) && cl > 0 && (body@.len()
                    != cl || body_fields_of(body@) is None)),
            },
        },
{
    let (verb, account_id, suffix) = match parse_request_line(headline) {
        Ok(t) => t,
        Err(e) => {
            return Err(e);
        },
    };
    let content_length: u64 = match content_length_of_headers(headers) {
        Ok(v) => v,
        Err(e) => {
            return Err(e);
        },
    };
    let body_tsc: TransactionInfo = if content_length > 0 {
        if (body.len() as u64) != content_length {
            return Err(DecodeError::MalformedBody);
        }
        match parse_body_json(body) {
            Some(f) => TransactionInfo {
                valor: i64_to_string(f.0),
                tipo: f.1,
                descricao: f.2,
            },
            None => {
                return Err(DecodeError::MalformedBody);
            },
        }
    } else {
        TransactionInfo::initialize()
    };
    let mut route: String = String::new();
    route.append(verb.as_str());
    route.append(" /clientes/:id/");
    route.append(suffix.as_str());
    Ok(Request {
        verb: verb,
        account_id: account_id,
        suffix: suffix,
        route: route,
        content_length: content_length,
        body: body_tsc,
    })
}

/// The response status of every decoder-level failure: a client error with
/// an empty object body.
pub fn decode_error_status(e: &DecodeError) -> (s: u16)
    ensures
        s == 400,
{
    match e {
        DecodeError::MalformedRequestLine => 400,
        DecodeError::MalformedHeader => 400,
        DecodeError::MalformedBody => 400,
    }
}

} // verus!
