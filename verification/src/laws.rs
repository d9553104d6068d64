//! The laws the protocol engine obeys, stated over the same spec functions
//! its contracts use and proved for every input: parsing a serialized
//! request gives the request back, a declared body length that the stream
//! cannot honour is reported as truncation, and a header line whose value
//! trims to nothing never reaches the header map.

use vstd::prelude::*;
use crate::bytes::{
    is_ws, spec_trim, trim_cr, is_digits, dec_val, dec_of,
    lemma_line_end_char, lemma_skip_ws_char, lemma_token_end_char, lemma_find_sep_char,
    lemma_trim_fixed, lemma_trim_empty_iff_all_ws, lemma_dec_of_val, push_all,
};
use crate::headers::{HeaderPair, keys_unique, assoc_get, assoc_insert, lemma_assoc_insert_absent};
use crate::request::{
    HttpRequest, RequestModel, ParseError, spec_parse, parse_headers_from, skip_blank_lines,
    spec_content_len,
};
use crate::response::ser_headers;
use crate::router::{Route, spec_route, spec_is_prefix};
use crate::handlers::{
    echo_model, user_agent_model, not_found_model, file_get_model, file_post_model,
};
use crate::text::{
    content_length_name, header_sep, crlf, header_sep_vec, crlf_vec, echo_prefix, files_prefix,
    user_agent_path, root_path, user_agent_name, unknown_body, get_method, post_method,
};

verus! {

/// A request-line token: non-empty and free of whitespace.
pub open spec fn token_wf(t: Seq<u8>) -> bool {
    t.len() > 0 && forall|i: int| 0 <= i < t.len() ==> !is_ws(#[trigger] t[i])
}

/// A header name as a harness may build one: non-empty, already trimmed,
/// free of line feeds, and free of the `": "` separator.
pub open spec fn name_wf(n: Seq<u8>) -> bool {
    &&& n.len() > 0
    &&& !is_ws(n[0])
    &&& !is_ws(n[n.len() - 1])
    &&& forall|i: int| 0 <= i < n.len() ==> #[trigger] n[i] != 10
    &&& forall|i: int| 0 <= i < n.len() - 1 ==> !(#[trigger] n[i] == 58 && n[i + 1] == 32)
}

/// A header value as a harness may build one: non-empty, already trimmed,
/// and free of line feeds.
pub open spec fn value_wf(v: Seq<u8>) -> bool {
    &&& v.len() > 0
    &&& !is_ws(v[0])
    &&& !is_ws(v[v.len() - 1])
    &&& forall|i: int| 0 <= i < v.len() ==> #[trigger] v[i] != 10
}

/// A header map a harness may serialize: unique keys, every entry well formed.
pub open spec fn headers_wf(entries: Seq<HeaderPair>) -> bool {
    &&& keys_unique(entries)
    &&& forall|i: int|
        0 <= i < entries.len() ==> name_wf((#[trigger] entries[i]).0) && value_wf(entries[i].1)
}

/// Everything of a request but the body is serializable and parses back.
pub open spec fn head_wf(m: RequestModel) -> bool {
    &&& token_wf(m.method)
    &&& token_wf(m.path)
    &&& token_wf(m.version)
    &&& headers_wf(m.headers)
}

/// A request a harness may serialize whole: a well-formed head whose
/// `Content-Length`, when present, is exactly the body's length, and whose
/// body, when non-empty, is declared.
pub open spec fn request_wf(m: RequestModel) -> bool {
    &&& head_wf(m)
    &&& m.body.len() <= usize::MAX
    &&& match assoc_get(m.headers, content_length_name()) {
        Some(v) => v == dec_of(m.body.len()),
        None => m.body.len() == 0,
    }
}

/// The wire bytes of a request's head: request line, header lines, blank line.
pub open spec fn spec_serialize_head(m: RequestModel) -> Seq<u8> {
    m.method + seq![32u8] + m.path + seq![32u8] + m.version + crlf() + ser_headers(m.headers)
        + crlf()
}

/// The wire bytes of a whole request.
pub open spec fn spec_serialize_request(m: RequestModel) -> Seq<u8> {
    spec_serialize_head(m) + m.body
}

/// Serializes a request, as a test harness would before handing the bytes
/// back to the parser.
#[verifier::loop_isolation(false)]
pub fn serialize_request(req: &HttpRequest) -> (r: Vec<u8>)
    ensures
        r@ == spec_serialize_request(req@),
{
    let mut out: Vec<u8> = Vec::new();
    push_all(&mut out, req.method.as_slice());
    out.push(32);
    push_all(&mut out, req.path.as_slice());
    out.push(32);
    push_all(&mut out, req.version.as_slice());
    let sep = header_sep_vec();
    let eol = crlf_vec();
    push_all(&mut out, eol.as_slice());
    assert(out@ =~= req.method@ + seq![32u8] + req.path@ + seq![32u8] + req.version@ + crlf());
    let ghost head = out@;

    let ghost entries = req.headers@;
    let m = req.headers.len();
    let mut i: usize = 0;
    assert(entries.skip(0) =~= entries);
    while i < m
        invariant
            0 <= i <= m,
            out@ + ser_headers(entries.skip(i as int)) == head + ser_headers(entries),
        decreases m - i,
    {
        let p = req.headers.pair_at(i);
        proof {
            assert(entries.skip(i as int)[0] == entries[i as int]);
            assert(entries.skip(i as int).drop_first() =~= entries.skip(i as int + 1));
        }
        let ghost before = out@;
        push_all(&mut out, p.0.as_slice());
        push_all(&mut out, sep.as_slice());
        push_all(&mut out, p.1.as_slice());
        push_all(&mut out, eol.as_slice());
        proof {
            assert(out@ =~= before + crate::response::ser_header_line(entries[i as int]));
            assert(before + crate::response::ser_header_line(entries[i as int]) + ser_headers(
                entries.skip(i as int + 1),
            ) =~= before + ser_headers(entries.skip(i as int)));
        }
        i = i + 1;
    }
    assert(entries.skip(m as int).len() == 0);
    push_all(&mut out, eol.as_slice());
    push_all(&mut out, req.body.as_slice());
    assert(out@ =~= spec_serialize_request(req@));
    out
}

/// Reading headers at a blank line closes the section right there.
proof fn lemma_parse_terminator(s: Seq<u8>, i: int, rest: Seq<u8>, acc: Seq<HeaderPair>)
    requires
        0 <= i <= s.len(),
        s.subrange(i, s.len() as int) == crlf() + rest,
    ensures
        parse_headers_from(s, i, acc) == Some((acc, i + 2)),
{
    let n = s.len() as int;
    let full = crlf() + rest;
    assert(n - i == full.len());
    assert(s[i] == 13) by {
        assert(s.subrange(i, n)[0] == s[i]);
        assert(full[0] == 13);
    }
    assert(s[i + 1] == 10) by {
        assert(s.subrange(i, n)[1] == s[i + 1]);
        assert(full[1] == 10);
    }
    lemma_line_end_char(s, i, i + 1);
    assert(trim_cr(s.subrange(i, i + 1)).len() == 0) by {
        assert(s.subrange(i, i + 1) =~= seq![13u8]);
        assert(seq![13u8].drop_last() =~= Seq::<u8>::empty());
    }
}

/// Reading one header line: the line is consumed whole, and it reaches the
/// map exactly when its name and its trimmed value are non-empty. `raw` is
/// the bytes between the separator and the line ending, untrimmed.
proof fn lemma_parse_header_line(
    s: Seq<u8>,
    i: int,
    name: Seq<u8>,
    raw: Seq<u8>,
    rest: Seq<u8>,
    acc: Seq<HeaderPair>,
)
    requires
        0 <= i <= s.len(),
        s.subrange(i, s.len() as int) == name + header_sep() + raw + crlf() + rest,
        name_wf(name),
        forall|k: int| 0 <= k < raw.len() ==> #[trigger] raw[k] != 10,
        raw.len() > 0 ==> raw[raw.len() - 1] != 13,
    ensures
        parse_headers_from(s, i, acc) == parse_headers_from(
            s,
            i + name.len() + raw.len() + 4,
            if spec_trim(raw).len() == 0 {
                acc
            } else {
                assoc_insert(acc, name, spec_trim(raw))
            },
        ),
{
    let n = s.len() as int;
    let full = name + header_sep() + raw + crlf() + rest;
    let nl = name.len() as int;
    let ll = nl + 2 + raw.len() as int;
    assert(n - i == full.len());
    assert forall|t: int| 0 <= t < full.len() implies s[i + t] == #[trigger] full[t] by {
        assert(s.subrange(i, n)[t] == s[i + t]);
    }
    assert(full[nl] == 58);
    assert(full[nl + 1] == 32);
    assert(full[ll] == 13);
    assert(full[ll + 1] == 10);

    // The line runs to the line feed after the carriage return.
    assert forall|k: int| i <= k < i + ll + 1 implies #[trigger] s[k] != 10 by {
        let t = k - i;
        assert(s.subrange(i, n)[t] == s[k]);
        if t < nl {
            assert(full[t] == name[t]);
        } else if t < nl + 2 {
            assert(full[t] == header_sep()[t - nl]);
        } else if t < ll {
            assert(full[t] == raw[t - nl - 2]);
        } else {
            assert(full[t] == 13);
        }
    }
    lemma_line_end_char(s, i, i + ll + 1);
    let j = i + ll + 1;

    let line = trim_cr(s.subrange(i, j));
    assert(s.subrange(i, j) =~= name + header_sep() + raw + seq![13u8]) by {
        assert forall|t: int| 0 <= t < ll + 1 implies s.subrange(i, j)[t] == (name + header_sep()
            + raw + seq![13u8])[t] by {
            assert(s.subrange(i, j)[t] == s[i + t]);
            assert(s.subrange(i, n)[t] == s[i + t]);
        }
    }
    assert(line =~= name + header_sep() + raw);
    assert(line.len() == ll > 0);

    // The separator is found exactly after the name.
    assert forall|k: int| 0 <= k < nl implies !(#[trigger] line[k] == 58 && line[k + 1] == 32) by {
        if k < nl - 1 {
            assert(line[k] == name[k] && line[k + 1] == name[k + 1]);
        } else {
            assert(line[k + 1] == 58);
        }
    }
    assert(line[nl] == 58 && line[nl + 1] == 32);
    lemma_find_sep_char(line, 0, nl);

    assert(line.subrange(0, nl) =~= name);
    lemma_trim_fixed(name);
    assert(spec_trim(line.subrange(0, nl)) == name);
    assert(line.subrange(nl + 2, ll) =~= raw);

    assert(parse_headers_from(s, i, acc) == parse_headers_from(
        s,
        j + 1,
        if spec_trim(raw).len() == 0 {
            acc
        } else {
            assoc_insert(acc, name, spec_trim(raw))
        },
    ));
}

/// What a sequence of inserts leaves behind.
pub open spec fn insert_all(acc: Seq<HeaderPair>, entries: Seq<HeaderPair>) -> Seq<HeaderPair>
    decreases entries.len(),
{
    if entries.len() == 0 {
        acc
    } else {
        insert_all(assoc_insert(acc, entries[0].0, entries[0].1), entries.drop_first())
    }
}

/// Inserting entries whose names are fresh and mutually distinct appends them.
proof fn lemma_insert_all_disjoint(acc: Seq<HeaderPair>, entries: Seq<HeaderPair>)
    requires
        keys_unique(entries),
        forall|k: int|
            0 <= k < entries.len() ==> assoc_get(acc, (#[trigger] entries[k]).0) is None,
    ensures
        insert_all(acc, entries) == acc + entries,
    decreases entries.len(),
{
    if entries.len() == 0 {
        assert(insert_all(acc, entries) =~= acc + entries);
    } else {
        let e0 = entries[0];
        lemma_assoc_insert_absent(acc, e0.0, e0.1);
        let acc1 = acc.push(e0);
        let rest = entries.drop_first();
        assert forall|k: int|
            0 <= k < rest.len() implies assoc_get(acc1, (#[trigger] rest[k]).0) is None by {
            assert(rest[k] == entries[k + 1]);
            assert(entries[k + 1].0 != e0.0);
            lemma_assoc_get_push(acc, e0, rest[k].0);
        }
        lemma_insert_all_disjoint(acc1, rest);
        assert(insert_all(acc, entries) == acc1 + rest);
        assert(acc1 + rest =~= acc + entries);
    }
}

/// Appending an entry changes only what its own name answers.
proof fn lemma_assoc_get_push(acc: Seq<HeaderPair>, p: HeaderPair, q: Seq<u8>)
    requires
        q != p.0,
    ensures
        assoc_get(acc.push(p), q) == assoc_get(acc, q),
    decreases acc.len(),
{
    if acc.len() == 0 {
        assert(acc.push(p)[0] == p);
        assert(acc.push(p).drop_first() =~= Seq::<HeaderPair>::empty());
        assert(assoc_get(Seq::<HeaderPair>::empty(), q) is None);
    } else {
        lemma_assoc_get_push(acc.drop_first(), p, q);
        assert(acc.push(p)[0] == acc[0]);
        assert(acc.push(p).drop_first() =~= acc.drop_first().push(p));
    }
}

/// Reading the serialized form of a well-formed header map inserts exactly
/// its entries and stops right after the blank line.
proof fn lemma_parse_ser_headers(
    s: Seq<u8>,
    i: int,
    entries: Seq<HeaderPair>,
    tail: Seq<u8>,
    acc: Seq<HeaderPair>,
)
    requires
        0 <= i <= s.len(),
        s.subrange(i, s.len() as int) == ser_headers(entries) + crlf() + tail,
        forall|k: int|
            0 <= k < entries.len() ==> name_wf((#[trigger] entries[k]).0) && value_wf(
                entries[k].1,
            ),
    ensures
        parse_headers_from(s, i, acc) == Some(
            (insert_all(acc, entries), i + ser_headers(entries).len() + 2),
        ),
    decreases entries.len(),
{
    let n = s.len() as int;
    if entries.len() == 0 {
        assert(ser_headers(entries) == Seq::<u8>::empty());
        assert(s.subrange(i, n) =~= crlf() + tail);
        lemma_parse_terminator(s, i, tail, acc);
    } else {
        let e0 = entries[0];
        let name = e0.0;
        let value = e0.1;
        let nl = name.len() as int;
        let vl = value.len() as int;
        let rest_entries = entries.drop_first();
        let rest_bytes = ser_headers(rest_entries) + crlf() + tail;
        assert(ser_headers(entries) == crate::response::ser_header_line(e0) + ser_headers(
            rest_entries,
        ));
        assert(s.subrange(i, n) =~= name + header_sep() + value + crlf() + rest_bytes);
        assert(name_wf(name) && value_wf(value));
        lemma_parse_header_line(s, i, name, value, rest_bytes, acc);
        lemma_trim_fixed(value);
        assert(spec_trim(value) == value);
        let i2 = i + nl + vl + 4;
        assert(i2 <= n);
        assert(s.subrange(i2, n) =~= rest_bytes) by {
            assert forall|t: int| 0 <= t < n - i2 implies s.subrange(i2, n)[t] == rest_bytes[t] by {
                assert(s.subrange(i2, n)[t] == s[i2 + t]);
                assert(s.subrange(i, n)[i2 - i + t] == s[i2 + t]);
                assert((name + header_sep() + value + crlf() + rest_bytes)[i2 - i + t]
                    == rest_bytes[t]);
            }
        }
        lemma_parse_ser_headers(s, i2, rest_entries, tail, assoc_insert(acc, name, value));
        assert(insert_all(acc, entries) == insert_all(assoc_insert(acc, name, value), rest_entries));
        assert(ser_headers(entries).len() == nl + 2 + vl + 2 + ser_headers(rest_entries).len());
    }
}

/// Parsing the serialization of a well-formed head followed by any tail
/// gives back its method, path, version and headers, and takes the declared
/// number of body bytes from the tail, or reports truncation when the tail
/// is too short.
pub proof fn lemma_parse_of_head(m: RequestModel, tail: Seq<u8>)
    requires
        head_wf(m),
    ensures
        ({
            let s = spec_serialize_head(m) + tail;
            let clen = spec_content_len(m.headers);
            if clen <= tail.len() {
                spec_parse(s) == Ok::<RequestModel, ParseError>(
                    RequestModel {
                        method: m.method,
                        path: m.path,
                        version: m.version,
                        headers: m.headers,
                        body: tail.subrange(0, clen),
                    },
                )
            } else {
                spec_parse(s) == Err::<RequestModel, ParseError>(ParseError::TruncatedBody)
            }
        }),
{
    let s = spec_serialize_head(m) + tail;
    let n = s.len() as int;
    let ml = m.method.len() as int;
    let pl = m.path.len() as int;
    let vl = m.version.len() as int;
    let rr = ml + 1 + pl + 1 + vl;
    let hb = ser_headers(m.headers);
    let hl = hb.len() as int;
    assert(s =~= m.method + seq![32u8] + m.path + seq![32u8] + m.version + crlf() + hb + crlf()
        + tail);
    assert(n == rr + 2 + hl + 2 + tail.len());

    // The first line feed closes the request line.
    assert forall|k: int| 0 <= k < rr + 1 implies #[trigger] s[k] != 10 by {
        if k < ml {
            assert(s[k] == m.method[k]);
        } else if k == ml {
            assert(s[k] == 32);
        } else if k < ml + 1 + pl {
            assert(s[k] == m.path[k - ml - 1]);
        } else if k == ml + 1 + pl {
            assert(s[k] == 32);
        } else if k < rr {
            assert(s[k] == m.version[k - ml - pl - 2]);
        } else {
            assert(s[k] == 13);
        }
    }
    assert(s[rr + 1] == 10);
    lemma_line_end_char(s, 0, rr + 1);

    // The request line is no blank line, so nothing is skipped ahead of it.
    let line = s.subrange(0, rr + 1);
    assert(line[0] == s[0] && s[0] == m.method[0]);
    lemma_trim_empty_iff_all_ws(line);
    assert(!is_ws(line[0]));
    assert(spec_trim(line).len() != 0);
    assert(skip_blank_lines(s, 0) == 0);

    // The three tokens are the method, the path and the version.
    assert(line =~= m.method + seq![32u8] + m.path + seq![32u8] + m.version + seq![13u8]);
    assert forall|k: int| 0 <= k < ml implies !is_ws(#[trigger] line[k]) by {
        assert(line[k] == m.method[k]);
    }
    assert forall|k: int| ml + 1 <= k < ml + 1 + pl implies !is_ws(#[trigger] line[k]) by {
        assert(line[k] == m.path[k - ml - 1]);
    }
    assert forall|k: int| ml + 2 + pl <= k < rr implies !is_ws(#[trigger] line[k]) by {
        assert(line[k] == m.version[k - ml - pl - 2]);
    }
    assert(line[ml] == 32 && line[ml + 1 + pl] == 32 && line[rr] == 13);
    lemma_skip_ws_char(line, 0, 0);
    lemma_token_end_char(line, 0, ml);
    lemma_skip_ws_char(line, ml, ml + 1);
    lemma_token_end_char(line, ml + 1, ml + 1 + pl);
    lemma_skip_ws_char(line, ml + 1 + pl, ml + 2 + pl);
    lemma_token_end_char(line, ml + 2 + pl, rr);
    assert(ml + 2 + pl < line.len());
    assert(line.subrange(0, ml) =~= m.method);
    assert(line.subrange(ml + 1, ml + 1 + pl) =~= m.path);
    assert(line.subrange(ml + 2 + pl, rr) =~= m.version);

    // The header section begins right after the request line.
    let h0 = rr + 2;
    assert(s.subrange(h0, n) =~= hb + crlf() + tail) by {
        assert forall|t: int| 0 <= t < n - h0 implies s.subrange(h0, n)[t] == (hb + crlf()
            + tail)[t] by {
            assert(s.subrange(h0, n)[t] == s[h0 + t]);
        }
    }
    lemma_parse_ser_headers(s, h0, m.headers, tail, Seq::empty());
    assert forall|k: int|
        0 <= k < m.headers.len() implies assoc_get(
        Seq::<HeaderPair>::empty(),
        (#[trigger] m.headers[k]).0,
    ) is None by {
        assert(assoc_get(Seq::<HeaderPair>::empty(), m.headers[k].0) is None);
    }
    lemma_insert_all_disjoint(Seq::empty(), m.headers);
    assert(insert_all(Seq::empty(), m.headers) =~= m.headers);
    let b = h0 + hl + 2;
    assert(b == spec_serialize_head(m).len());

    let clen = spec_content_len(m.headers);
    assert(clen >= 0) by {
        match assoc_get(m.headers, content_length_name()) {
            Some(v) => {
                if is_digits(v) && dec_val(v) <= usize::MAX {
                    crate::bytes::lemma_dec_val_nonneg(v);
                }
            },
            None => {},
        }
    }
    if clen <= tail.len() {
        assert(b + clen <= n);
        assert(s.subrange(b, b + clen) =~= tail.subrange(0, clen)) by {
            assert forall|t: int| 0 <= t < clen implies s.subrange(b, b + clen)[t]
                == tail.subrange(0, clen)[t] by {
                assert(s.subrange(b, b + clen)[t] == s[b + t]);
                assert(tail.subrange(0, clen)[t] == tail[t]);
            }
        }
        assert(spec_parse(s) == Ok::<RequestModel, ParseError>(
            RequestModel {
                method: m.method,
                path: m.path,
                version: m.version,
                headers: m.headers,
                body: tail.subrange(0, clen),
            },
        ));
    } else {
        assert(spec_parse(s) == Err::<RequestModel, ParseError>(ParseError::TruncatedBody));
    }
}

/// Round trip: parsing the serialization of any well-formed request gives
/// back a request with the same method, path, version, headers and body.
pub proof fn lemma_round_trip(m: RequestModel)
    requires
        request_wf(m),
    ensures
        spec_parse(spec_serialize_request(m)) == Ok::<RequestModel, ParseError>(m),
{
    lemma_parse_of_head(m, m.body);
    match assoc_get(m.headers, content_length_name()) {
        Some(v) => {
            lemma_dec_of_val(m.body.len());
            assert(spec_content_len(m.headers) == m.body.len());
        },
        None => {
            assert(spec_content_len(m.headers) == 0 == m.body.len());
        },
    }
    assert(m.body.subrange(0, m.body.len() as int) =~= m.body);
    assert(spec_parse(spec_serialize_request(m)) == Ok::<RequestModel, ParseError>(
        RequestModel {
            method: m.method,
            path: m.path,
            version: m.version,
            headers: m.headers,
            body: m.body.subrange(0, m.body.len() as int),
        },
    ));
    assert(RequestModel {
        method: m.method,
        path: m.path,
        version: m.version,
        headers: m.headers,
        body: m.body.subrange(0, m.body.len() as int),
    } =~= m);
}

/// Truncated body rejection: a request whose head declares more body bytes
/// than the stream then delivers parses to the truncation error, never to a
/// request with a short body.
pub proof fn lemma_truncated_body(m: RequestModel, tail: Seq<u8>)
    requires
        head_wf(m),
        tail.len() < spec_content_len(m.headers),
    ensures
        spec_parse(spec_serialize_head(m) + tail) == Err::<RequestModel, ParseError>(
            ParseError::TruncatedBody,
        ),
{
    lemma_parse_of_head(m, tail);
}

/// Header leniency: a header line whose value trims to nothing is dropped
/// and the line consumed; one whose value trims to something is kept under
/// its trimmed value. `raw` is the bytes between `": "` and the line
/// ending, exactly as they stand on the wire.
pub proof fn lemma_header_leniency(
    s: Seq<u8>,
    i: int,
    name: Seq<u8>,
    raw: Seq<u8>,
    rest: Seq<u8>,
    acc: Seq<HeaderPair>,
)
    requires
        0 <= i <= s.len(),
        s.subrange(i, s.len() as int) == name + header_sep() + raw + crlf() + rest,
        name_wf(name),
        forall|k: int| 0 <= k < raw.len() ==> #[trigger] raw[k] != 10,
        raw.len() > 0 ==> raw[raw.len() - 1] != 13,
    ensures
        spec_trim(raw).len() == 0 ==> parse_headers_from(s, i, acc) == parse_headers_from(
            s,
            i + name.len() + raw.len() + 4,
            acc,
        ),
        spec_trim(raw).len() > 0 ==> parse_headers_from(s, i, acc) == parse_headers_from(
            s,
            i + name.len() + raw.len() + 4,
            assoc_insert(acc, name, spec_trim(raw)),
        ),
{
    lemma_parse_header_line(s, i, name, raw, rest, acc);
}

/// Echo identity: any path built as `/echo/` and a suffix routes to the
/// echo handler under every method, and its answer carries the suffix as
/// the body, status 200, and a `Content-Length` of the suffix's length.
pub proof fn lemma_echo_identity(method: Seq<u8>, body: Seq<u8>)
    ensures
        ({
            let path = echo_prefix() + body;
            &&& spec_route(method, path) == Route::Echo
            &&& echo_model(path).status_code == 200
            &&& echo_model(path).body == body
            &&& assoc_get(echo_model(path).headers, content_length_name()) == Some(
                dec_of(body.len()),
            )
        }),
{
    let path = echo_prefix() + body;
    assert(path.subrange(0, 6) =~= echo_prefix());
    assert(path.subrange(6, path.len() as int) =~= body);
    let hs = echo_model(path).headers;
    assert(hs[0].0 != content_length_name());
    assert(hs.drop_first() =~= seq![(content_length_name(), dec_of(body.len()))]);
    assert(assoc_get(hs.drop_first(), content_length_name()) == Some(dec_of(body.len())));
}

/// Default user agent: a request without a `User-Agent` header is answered
/// with the literal body `Unknown`, status 200.
pub proof fn lemma_default_user_agent(headers: Seq<HeaderPair>)
    requires
        assoc_get(headers, user_agent_name()) is None,
    ensures
        user_agent_model(headers).status_code == 200,
        user_agent_model(headers).body == unknown_body(),
{
}

/// Unknown route: a path matching no pattern is answered, under every
/// method, with status 404 and an empty body.
pub proof fn lemma_unknown_route(method: Seq<u8>, path: Seq<u8>)
    requires
        !spec_is_prefix(path, echo_prefix()),
        path != user_agent_path(),
        !spec_is_prefix(path, files_prefix()),
        path != root_path(),
    ensures
        spec_route(method, path) == Route::NotFound,
        not_found_model().status_code == 404,
        not_found_model().body.len() == 0,
{
}

/// File round trip: a `/files/` path routes a POST to the file-write
/// handler and a GET to the file-read handler, both naming the same file; a
/// successful write is answered 201 with an empty body, and a read that
/// hands those contents back is answered 200 with exactly them. The step
/// between — that the filesystem returns what was written — is the
/// environment's, not the engine's.
pub proof fn lemma_file_round_trip(path: Seq<u8>, contents: Seq<u8>)
    requires
        spec_is_prefix(path, files_prefix()),
    ensures
        spec_route(post_method(), path) == Route::FilePost,
        spec_route(get_method(), path) == Route::FileGet,
        file_post_model(true).status_code == 201,
        file_post_model(true).body.len() == 0,
        file_get_model(Some(contents)).status_code == 200,
        file_get_model(Some(contents)).body == contents,
{
    assert(path[1] == 102) by {
        assert(path.subrange(0, 7)[1] == path[1]);
        assert(files_prefix()[1] == 102);
    }
    assert(!spec_is_prefix(path, echo_prefix())) by {
        if spec_is_prefix(path, echo_prefix()) {
            assert(path.subrange(0, 6)[1] == path[1]);
            assert(echo_prefix()[1] == 101);
        }
    }
    assert(path != user_agent_path()) by {
        assert(user_agent_path()[1] == 117);
    }
}

} // verus!
