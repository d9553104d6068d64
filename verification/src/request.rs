//! The request parser: reads exactly one HTTP/1.1 request out of the bytes a
//! connection delivered, or says precisely why it cannot.
//!
//! The grammar is line oriented. The first non-blank line must split on
//! whitespace into at least method, path and version. Header lines follow
//! until a blank line; each must contain `": "`, is split on its first
//! occurrence, and is kept only when name and value are non-empty once
//! trimmed. The body is exactly `Content-Length` bytes, where a missing or
//! non-numeric value counts as zero. Line endings may be CR-LF or bare LF.

use vstd::prelude::*;
use vstd::slice::slice_subrange;
use crate::bytes::{
    is_ws, skip_ws, token_end, line_end, find_sep, spec_trim, trim_cr, is_digits, dec_val,
    lemma_trim_empty_iff_all_ws, ws_byte, copy_range, skip_ws_at, token_end_at, line_end_at,
    find_sep_at, trim, parse_dec,
};
use crate::headers::{Headers, HeaderPair, assoc_insert, assoc_get};
use crate::text::{content_length_name, content_length_name_vec};

verus! {

/// Why a byte stream does not hold one well-formed request.
#[derive(Clone, Copy, PartialEq, Eq, Structural, Debug)]
pub enum ParseError {
    /// The first non-blank line splits into fewer than three tokens.
    MalformedRequestLine,
    /// A header line lacks the `": "` separator, or the stream ends before
    /// the blank line that closes the header section.
    MalformedHeader,
    /// Fewer body bytes remain than `Content-Length` declared.
    TruncatedBody,
}

/// A parsed request, as the contracts speak of it.
#[verifier::ext_equal]
pub struct RequestModel {
    pub method: Seq<u8>,
    pub path: Seq<u8>,
    pub version: Seq<u8>,
    pub headers: Seq<HeaderPair>,
    pub body: Seq<u8>,
}

/// A parsed request: method, path and version from the request line, the
/// header map, and the body bytes.
pub struct HttpRequest {
    pub method: Vec<u8>,
    pub path: Vec<u8>,
    pub version: Vec<u8>,
    pub headers: Headers,
    pub body: Vec<u8>,
}

impl View for HttpRequest {
    type V = RequestModel;

    open spec fn view(&self) -> RequestModel {
        RequestModel {
            method: self.method@,
            path: self.path@,
            version: self.version@,
            headers: self.headers@,
            body: self.body@,
        }
    }
}

impl HttpRequest {
    pub open spec fn wf(self) -> bool {
        self.headers.wf()
    }
}

/// The first position at or after `i` that does not start a complete
/// whitespace-only line: where the request line is looked for.
pub open spec fn skip_blank_lines(s: Seq<u8>, i: int) -> int
    decreases s.len() - i,
{
    if i < 0 || i >= s.len() {
        i
    } else {
        let j0 = line_end(s, i);
        let j = if j0 < i {
            i
        } else {
            j0
        };
        if j >= s.len() {
            i
        } else if spec_trim(s.subrange(i, j)).len() == 0 {
            skip_blank_lines(s, j + 1)
        } else {
            i
        }
    }
}

/// Reads header lines from position `i` until the blank terminator line,
/// folding each kept header into `acc`; yields the final map and the
/// position right after the terminator, or nothing when a line lacks the
/// separator or the stream ends first.
pub open spec fn parse_headers_from(s: Seq<u8>, i: int, acc: Seq<HeaderPair>) -> Option<
    (Seq<HeaderPair>, int),
>
    decreases s.len() - i,
{
    if i < 0 || i >= s.len() {
        None
    } else {
        let j0 = line_end(s, i);
        let j = if j0 < i {
            i
        } else {
            j0
        };
        if j >= s.len() {
            None
        } else {
            let line = trim_cr(s.subrange(i, j));
            if line.len() == 0 {
                Some((acc, j + 1))
            } else {
                match find_sep(line, 0) {
                    None => None,
                    Some(k) => {
                        let name = spec_trim(line.subrange(0, k));
                        let value = spec_trim(line.subrange(k + 2, line.len() as int));
                        if name.len() > 0 && value.len() > 0 {
                            parse_headers_from(s, j + 1, assoc_insert(acc, name, value))
                        } else {
                            parse_headers_from(s, j + 1, acc)
                        }
                    },
                }
            }
        }
    }
}

/// The declared body length: the `Content-Length` value when it is a digit
/// string the machine can hold, and zero otherwise.
pub open spec fn spec_content_len(entries: Seq<HeaderPair>) -> int {
    match assoc_get(entries, content_length_name()) {
        Some(v) => if is_digits(v) && dec_val(v) <= usize::MAX {
            dec_val(v)
        } else {
            0
        },
        None => 0,
    }
}

/// What parsing a whole byte stream yields: exactly one request, or the
/// first error the grammar forces.
pub open spec fn spec_parse(s: Seq<u8>) -> Result<RequestModel, ParseError> {
    let r0 = skip_blank_lines(s, 0);
    let re0 = line_end(s, r0);
    let re = if re0 < r0 {
        r0
    } else {
        re0
    };
    let line = s.subrange(r0, re);
    let m0 = skip_ws(line, 0);
    let m1 = token_end(line, m0);
    let p0 = skip_ws(line, m1);
    let p1 = token_end(line, p0);
    let v0 = skip_ws(line, p1);
    let v1 = token_end(line, v0);
    if v0 >= line.len() {
        Err(ParseError::MalformedRequestLine)
    } else {
        match parse_headers_from(s, re + 1, Seq::empty()) {
            None => Err(ParseError::MalformedHeader),
            Some((entries, b)) => {
                let n = spec_content_len(entries);
                if b + n <= s.len() {
                    Ok(
                        RequestModel {
                            method: line.subrange(m0, m1),
                            path: line.subrange(p0, p1),
                            version: line.subrange(v0, v1),
                            headers: entries,
                            body: s.subrange(b, b + n),
                        },
                    )
                } else {
                    Err(ParseError::TruncatedBody)
                }
            },
        }
    }
}

impl HttpRequest {
    /// Reads exactly one request out of `input`, the bytes the transport
    /// delivered, and returns it or the error the stream forces.
    #[verifier::loop_isolation(false)]
    pub fn parse(input: &[u8]) -> (r: Result<HttpRequest, ParseError>)
        ensures
            match r {
                Ok(req) => req.wf() && spec_parse(input@) == Ok::<RequestModel, ParseError>(req@),
                Err(e) => spec_parse(input@) == Err::<RequestModel, ParseError>(e),
            },
    {
        let ghost s = input@;
        let n = input.len();

        // Skip whitespace-only lines ahead of the request line.
        let mut pos: usize = 0;
        let mut scanning = true;
        while scanning
            invariant
                0 <= pos <= n,
                skip_blank_lines(s, 0) == if scanning {
                    skip_blank_lines(s, pos as int)
                } else {
                    pos as int
                },
            decreases n - pos + if scanning {
                1int
            } else {
                0int
            },
        {
            let j = line_end_at(input, pos);
            if j >= n {
                assert(skip_blank_lines(s, pos as int) == pos);
                scanning = false;
            } else {
                let mut k: usize = pos;
                while k < j && ws_byte(input[k])
                    invariant
                        pos <= k <= j,
                        forall|t: int| pos <= t < k ==> is_ws(#[trigger] s[t]),
                    decreases j - k,
                {
                    k = k + 1;
                }
                proof {
                    lemma_trim_empty_iff_all_ws(s.subrange(pos as int, j as int));
                    assert(forall|t: int|
                        0 <= t < j - pos ==> s.subrange(pos as int, j as int)[t] == s[pos + t]);
                }
                if k < j {
                    assert(!is_ws(s[k as int]));
                    assert(s.subrange(pos as int, j as int)[k - pos] == s[k as int]);
                    assert(!is_ws(s.subrange(pos as int, j as int)[k - pos]));
                    assert(spec_trim(s.subrange(pos as int, j as int)).len() > 0);
                    assert(skip_blank_lines(s, pos as int) == pos);
                    scanning = false;
                } else {
                    assert(spec_trim(s.subrange(pos as int, j as int)).len() == 0);
                    assert(skip_blank_lines(s, pos as int) == skip_blank_lines(s, j + 1));
                    pos = j + 1;
                }
            }
        }

        // The request line: split on whitespace into method, path, version.
        let r0 = pos;
        let re = line_end_at(input, r0);
        let rl = copy_range(input, r0, re);
        let ghost line = s.subrange(r0 as int, re as int);
        let m0 = skip_ws_at(rl.as_slice(), 0);
        let m1 = token_end_at(rl.as_slice(), m0);
        let p0 = skip_ws_at(rl.as_slice(), m1);
        let p1 = token_end_at(rl.as_slice(), p0);
        let v0 = skip_ws_at(rl.as_slice(), p1);
        let v1 = token_end_at(rl.as_slice(), v0);
        if v0 >= rl.len() {
            return Err(ParseError::MalformedRequestLine);
        }
        let method = copy_range(rl.as_slice(), m0, m1);
        let path = copy_range(rl.as_slice(), p0, p1);
        let version = copy_range(rl.as_slice(), v0, v1);

        if re >= n {
            // The stream ended inside the request line: no header section,
            // so no terminating blank line either.
            assert(parse_headers_from(s, re as int + 1, Seq::empty()) is None);
            return Err(ParseError::MalformedHeader);
        }

        // Header lines until the blank terminator.
        let mut hdrs = Headers::new();
        let mut pos2: usize = re + 1;
        loop
            invariant
                re + 1 <= pos2 <= n,
                hdrs.wf(),
                parse_headers_from(s, re as int + 1, Seq::empty()) == parse_headers_from(
                    s,
                    pos2 as int,
                    hdrs@,
                ),
            decreases n - pos2,
        {
            let j = line_end_at(input, pos2);
            if j >= n {
                assert(parse_headers_from(s, pos2 as int, hdrs@) is None);
                return Err(ParseError::MalformedHeader);
            }
            let mut lv = copy_range(input, pos2, j);
            if lv.len() > 0 && lv[lv.len() - 1] == 13 {
                let _ = lv.pop();
                assert(lv@ =~= trim_cr(s.subrange(pos2 as int, j as int)));
            } else {
                assert(lv@ == trim_cr(s.subrange(pos2 as int, j as int)));
            }
            if lv.len() == 0 {
                // The terminator: the header section is closed; what follows
                // is the body.
                let body_start = j + 1;
                assert(parse_headers_from(s, re as int + 1, Seq::empty()) == Some(
                    (hdrs@, body_start as int),
                ));

                let clen: usize = match hdrs.get(content_length_name_vec().as_slice()) {
                    Some(v) => match parse_dec(v.as_slice()) {
                        Some(x) => x,
                        None => 0,
                    },
                    None => 0,
                };
                assert(clen == spec_content_len(hdrs@));

                if clen > n - body_start {
                    assert(body_start + spec_content_len(hdrs@) > s.len());
                    return Err(ParseError::TruncatedBody);
                }
                let body = copy_range(input, body_start, body_start + clen);
                let req = HttpRequest { method, path, version, headers: hdrs, body };
                proof {
                    let parsed = spec_parse(s);
                    assert(parsed matches Ok(m) && m =~= req@);
                }
                return Ok(req);
            }
            let sep = find_sep_at(lv.as_slice(), 0);
            match sep {
                None => {
                    assert(parse_headers_from(s, pos2 as int, hdrs@) is None);
                    return Err(ParseError::MalformedHeader);
                },
                Some(k) => {
                    let name = trim(slice_subrange(lv.as_slice(), 0, k));
                    let value = trim(slice_subrange(lv.as_slice(), k + 2, lv.len()));
                    if name.len() > 0 && value.len() > 0 {
                        let ghost hdrs0 = hdrs@;
                        hdrs.insert(name, value);
                        assert(parse_headers_from(s, pos2 as int, hdrs0)
                            == parse_headers_from(s, j as int + 1, hdrs@));
                    } else {
                        assert(parse_headers_from(s, pos2 as int, hdrs@)
                            == parse_headers_from(s, j as int + 1, hdrs@));
                    }
                    pos2 = j + 1;
                },
            }
        }
    }
}

} // verus!
