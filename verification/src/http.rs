//! HTTP request heads: parsing them with `httparse`, finding the User-Agent
//! header, and writing a request back out with a new User-Agent.

use vstd::prelude::*;
use vstd::utf8::{decode_utf8, encode_utf8, valid_utf8};

verus! {

/// How far `httparse` got with a buffer.
#[derive(Clone, Copy, PartialEq, Eq, Debug)]
pub enum ParseStatus {
    /// The head is complete; the body starts at this offset.
    Complete(usize),
    /// The buffer ends before the head does.
    Partial,
    /// The buffer does not hold a valid request head.
    Invalid,
}

/// One header of a request head, as bytes.
pub struct HeaderField {
    pub name: Vec<u8>,
    pub value: Vec<u8>,
}

/// What `httparse::Request::parse` filled in, as plain bytes.
pub struct RequestHead {
    pub status: ParseStatus,
    pub method: Option<Vec<u8>>,
    pub path: Option<Vec<u8>>,
    pub version: Option<u8>,
    pub headers: Vec<HeaderField>,
}

/// The view of a `RequestHead`.
pub struct RequestHeadView {
    pub status: ParseStatus,
    pub method: Option<Seq<u8>>,
    pub path: Option<Seq<u8>>,
    pub version: Option<u8>,
    pub headers: Seq<(Seq<u8>, Seq<u8>)>,
}

/// The view of an optional byte vector.
pub open spec fn opt_bytes(v: Option<Vec<u8>>) -> Option<Seq<u8>> {
    match v {
        Some(b) => Some(b@),
        None => None,
    }
}

impl View for RequestHead {
    type V = RequestHeadView;

    open spec fn view(&self) -> RequestHeadView {
        RequestHeadView {
            status: self.status,
            method: opt_bytes(self.method),
            path: opt_bytes(self.path),
            version: self.version,
            headers: self.headers@.map_values(|h: HeaderField| (h.name@, h.value@)),
        }
    }
}

/// What `httparse::Request::parse` makes of `buf` with room for 64 headers:
/// the status, and the method, path, version and header slots it filled in.
pub uninterp spec fn httparse_request(buf: Seq<u8>) -> RequestHeadView;

/// `httparse::Request::parse` with 64 header slots, its results copied out as
/// bytes: the contract claims the named result for `buf`.
#[verifier::external_body]
pub(crate) fn parse_request_head(buf: &[u8]) -> (h: RequestHead)
    ensures
        h@ == httparse_request(buf@),
{
    let mut slots = [httparse::EMPTY_HEADER; 64];
    let mut req = httparse::Request::new(&mut slots);
    let status = match req.parse(buf) {
        Ok(httparse::Status::Complete(n)) => ParseStatus::Complete(n),
        Ok(httparse::Status::Partial) => ParseStatus::Partial,
        Err(_) => ParseStatus::Invalid,
    };
    let headers = req.headers.iter().map(|h| HeaderField { name: h.name.as_bytes().to_vec(), value: h.value.to_vec() }).collect();
    RequestHead {
        status,
        method: req.method.map(|m| m.as_bytes().to_vec()),
        path: req.path.map(|p| p.as_bytes().to_vec()),
        version: req.version,
        headers,
    }
}

/// `std::str::from_utf8`, turned into an owned `String`: the contract claims
/// success exactly on valid UTF-8, with the decoded characters.
#[verifier::external_body]
pub(crate) fn utf8_to_string(bytes: &[u8]) -> (r: Option<String>)
    ensures
        match r {
            Some(s) => valid_utf8(bytes@) && s@ == decode_utf8(bytes@),
            None => !valid_utf8(bytes@),
        },
{
    std::str::from_utf8(bytes).ok().map(|s| s.to_string())
}

/// `b` in lower case, when it is an ASCII capital letter.
pub open spec fn ascii_lower(b: u8) -> u8 {
    if 65 <= b <= 90 {
        (b + 32) as u8
    } else {
        b
    }
}

/// `a` and `b` are equal up to ASCII case, as `eq_ignore_ascii_case` decides.
pub open spec fn eq_ignore_ascii_case(a: Seq<u8>, b: Seq<u8>) -> bool {
    &&& a.len() == b.len()
    &&& forall|i: int| 0 <= i < a.len() ==> ascii_lower(a[i]) == ascii_lower(b[i])
}

/// The bytes of `User-Agent`.
pub open spec fn user_agent_name() -> Seq<u8> {
    seq![85u8, 115u8, 101u8, 114u8, 45u8, 65u8, 103u8, 101u8, 110u8, 116u8]
}

/// The position of the first header named `User-Agent` (in any case).
pub open spec fn ua_header_position(headers: Seq<(Seq<u8>, Seq<u8>)>) -> Option<int>
    decreases headers.len(),
{
    if headers.len() == 0 {
        None
    } else if eq_ignore_ascii_case(headers[0].0, user_agent_name()) {
        Some(0)
    } else {
        match ua_header_position(headers.drop_first()) {
            Some(i) => Some(i + 1),
            None => None,
        }
    }
}

/// What `ua_header_position` finds.
pub proof fn lemma_ua_header_position(headers: Seq<(Seq<u8>, Seq<u8>)>)
    ensures
        match ua_header_position(headers) {
            Some(i) => 0 <= i < headers.len() && eq_ignore_ascii_case(
                headers[i].0,
                user_agent_name(),
            ) && forall|j: int|
                0 <= j < i ==> !eq_ignore_ascii_case(#[trigger] headers[j].0, user_agent_name()),
            None => forall|j: int|
                0 <= j < headers.len() ==> !eq_ignore_ascii_case(
                    #[trigger] headers[j].0,
                    user_agent_name(),
                ),
        },
    decreases headers.len(),
{
    if headers.len() > 0 {
        lemma_ua_header_position(headers.drop_first());
        assert forall|j: int| 1 <= j < headers.len() implies headers[j] == headers.drop_first()[j
            - 1] by {}
    }
}

/// `b` is the byte `e` or, when `e` is an ASCII letter, `e` in the other case.
pub open spec fn same_letter_any_case(b: u8, e: u8) -> bool {
    ||| b == e
    ||| 65 <= e <= 90 && b == e + 32
    ||| 97 <= e <= 122 && b == e - 32
}

/// `name` spells `User-Agent`, each letter in either case.
pub open spec fn spells_user_agent(name: Seq<u8>) -> bool {
    let expected = seq![85u8, 115u8, 101u8, 114u8, 45u8, 65u8, 103u8, 101u8, 110u8, 116u8];
    &&& name.len() == 10
    &&& forall|j: int| 0 <= j < 10 ==> same_letter_any_case(#[trigger] name[j], expected[j])
}

/// A name is taken for `User-Agent` exactly when it spells `User-Agent` with
/// each letter in either case: same length, the same bytes up to the case of
/// letters (so `Connection`, `User_Agent` or `User-Agents` never are).
pub proof fn lemma_user_agent_name(name: Seq<u8>)
    ensures
        eq_ignore_ascii_case(name, user_agent_name()) <==> spells_user_agent(name),
{
    let expected = seq![85u8, 115u8, 101u8, 114u8, 45u8, 65u8, 103u8, 101u8, 110u8, 116u8];
    assert(user_agent_name() == expected);
    if eq_ignore_ascii_case(name, user_agent_name()) {
        assert forall|j: int| 0 <= j < 10 implies same_letter_any_case(#[trigger] name[j], expected[j]) by {
            assert(ascii_lower(name[j]) == ascii_lower(expected[j]));
        }
    }
    if spells_user_agent(name) {
        assert forall|j: int| 0 <= j < name.len() implies ascii_lower(name[j]) == ascii_lower(
            user_agent_name()[j],
        ) by {
            assert(same_letter_any_case(name[j], expected[j]));
        }
    }
}

/// The User-Agent header is the first header whose name spells `User-Agent`
/// in any case; when no name does, there is none.
pub proof fn lemma_ua_header_by_name(headers: Seq<(Seq<u8>, Seq<u8>)>)
    ensures
        match ua_header_position(headers) {
            Some(i) => 0 <= i < headers.len() && spells_user_agent(headers[i].0) && forall|j: int|
                0 <= j < i ==> !spells_user_agent(#[trigger] headers[j].0),
            None => forall|j: int| 0 <= j < headers.len() ==> !spells_user_agent(#[trigger] headers[j].0),
        },
{
    lemma_ua_header_position(headers);
    assert forall|j: int| 0 <= j < headers.len() implies spells_user_agent(#[trigger] headers[j].0)
        == eq_ignore_ascii_case(headers[j].0, user_agent_name()) by {
        lemma_user_agent_name(headers[j].0);
    }
}

fn ascii_lower_byte(b: u8) -> (r: u8)
    ensures
        r == ascii_lower(b),
{
    if 65 <= b && b <= 90 {
        b + 32
    } else {
        b
    }
}

/// Whether `name` is `User-Agent`, ignoring ASCII case.
pub fn is_user_agent_name(name: &Vec<u8>) -> (b: bool)
    ensures
        b == eq_ignore_ascii_case(name@, user_agent_name()),
{
    let expected: Vec<u8> = vec![85u8, 115u8, 101u8, 114u8, 45u8, 65u8, 103u8, 101u8, 110u8, 116u8];
    assert(expected@ =~= user_agent_name());
    if name.len() != expected.len() {
        return false;
    }
    let mut i: usize = 0;
    while i < name.len()
        invariant
            i <= name@.len(),
            name@.len() == expected@.len(),
            expected@ == user_agent_name(),
            forall|j: int| 0 <= j < i ==> ascii_lower(name@[j]) == ascii_lower(expected@[j]),
        decreases name@.len() - i,
    {
        if ascii_lower_byte(name[i]) != ascii_lower_byte(expected[i]) {
            return false;
        }
        i = i + 1;
    }
    true
}

/// The position of the first `User-Agent` header among `headers`.
pub fn find_user_agent(headers: &Vec<HeaderField>) -> (r: Option<usize>)
    ensures
        match r {
            Some(i) => i < headers@.len() && ua_header_position(headers@.map_values(
                |h: HeaderField| (h.name@, h.value@),
            )) == Some(i as int),
            None => ua_header_position(
                headers@.map_values(|h: HeaderField| (h.name@, h.value@)),
            ) is None,
        },
{
    let ghost hs = headers@.map_values(|h: HeaderField| (h.name@, h.value@));
    proof {
        lemma_ua_header_position(hs);
    }
    let mut i: usize = 0;
    while i < headers.len()
        invariant
            i <= headers@.len(),
            hs == headers@.map_values(|h: HeaderField| (h.name@, h.value@)),
            forall|j: int| 0 <= j < i ==> !eq_ignore_ascii_case(#[trigger] hs[j].0, user_agent_name()),
            match ua_header_position(hs) {
                Some(p) => 0 <= p < hs.len() && eq_ignore_ascii_case(hs[p].0, user_agent_name()) && forall|j: int|
                    0 <= j < p ==> !eq_ignore_ascii_case(#[trigger] hs[j].0, user_agent_name()),
                None => forall|j: int|
                    0 <= j < hs.len() ==> !eq_ignore_ascii_case(#[trigger] hs[j].0, user_agent_name()),
            },
        decreases headers@.len() - i,
    {
        assert(hs[i as int].0 == headers@[i as int].name@);
        if is_user_agent_name(&headers[i].name) {
            return Some(i);
        }
        i = i + 1;
    }
    None
}

} // verus!

verus! {

/// `\r\n`.
pub open spec fn crlf() -> Seq<u8> {
    seq![13u8, 10u8]
}

/// ` HTTP/1.`, written before the minor version.
pub open spec fn http_1_prefix() -> Seq<u8> {
    seq![32u8, 72u8, 84u8, 84u8, 80u8, 47u8, 49u8, 46u8]
}

/// The request line written back: method, space, path, the version when there
/// is one (`1` for minor version 1, `0` for any other), and a line end; nothing
/// when the method or the path is missing.
pub open spec fn request_line(head: RequestHeadView) -> Seq<u8> {
    match (head.method, head.path) {
        (Some(m), Some(p)) => m + seq![32u8] + p + match head.version {
            Some(v) => http_1_prefix() + seq![if v == 1 { 49u8 } else { 48u8 }],
            None => Seq::empty(),
        } + crlf(),
        _ => Seq::empty(),
    }
}

/// One header line: name, `: `, value, line end.
pub open spec fn header_line(name: Seq<u8>, value: Seq<u8>) -> Seq<u8> {
    name + seq![58u8, 32u8] + value + crlf()
}

/// The lines of the first `k` headers, the one at `ua_index` carrying `new_ua`.
pub open spec fn header_lines(
    headers: Seq<(Seq<u8>, Seq<u8>)>,
    k: int,
    ua_index: int,
    new_ua: Seq<u8>,
) -> Seq<u8>
    decreases k,
{
    if k <= 0 {
        Seq::empty()
    } else {
        header_lines(headers, k - 1, ua_index, new_ua) + header_line(
            headers[k - 1].0,
            if k - 1 == ua_index {
                new_ua
            } else {
                headers[k - 1].1
            },
        )
    }
}

/// The number of headers before the first one with an empty name.
pub open spec fn named_count(headers: Seq<(Seq<u8>, Seq<u8>)>) -> int
    decreases headers.len(),
{
    if headers.len() == 0 {
        0
    } else if headers[0].0.len() == 0 {
        0
    } else {
        1 + named_count(headers.drop_first())
    }
}

/// What `named_count` counts.
pub proof fn lemma_named_count(headers: Seq<(Seq<u8>, Seq<u8>)>)
    ensures
        0 <= named_count(headers) <= headers.len(),
        forall|j: int| 0 <= j < named_count(headers) ==> (#[trigger] headers[j]).0.len() > 0,
        named_count(headers) < headers.len() ==> headers[named_count(headers)].0.len() == 0,
    decreases headers.len(),
{
    if headers.len() > 0 && headers[0].0.len() > 0 {
        lemma_named_count(headers.drop_first());
        assert forall|j: int| 1 <= j < headers.len() implies headers[j] == headers.drop_first()[j
            - 1] by {}
    }
}

/// The request written back from `original` and its parsed head `head`: the
/// request line, the named headers with `new_ua` as the value of the one at
/// `ua_index`, a blank line, and the bytes of `original` from `header_len` on.
pub open spec fn rebuilt_from(
    head: RequestHeadView,
    original: Seq<u8>,
    header_len: int,
    ua_index: int,
    new_ua: Seq<u8>,
) -> Seq<u8> {
    request_line(head) + header_lines(head.headers, named_count(head.headers), ua_index, new_ua)
        + crlf() + if header_len < original.len() {
        original.skip(header_len)
    } else {
        Seq::empty()
    }
}

/// The request written back from `original`, parsed again (see
/// `rebuilt_from`).
pub open spec fn rebuilt_request(
    original: Seq<u8>,
    header_len: int,
    ua_index: int,
    new_ua: Seq<u8>,
) -> Seq<u8> {
    rebuilt_from(httparse_request(original), original, header_len, ua_index, new_ua)
}

pub(crate) fn append_bytes(dst: &mut Vec<u8>, src: &[u8], from: usize)
    requires
        from <= src@.len(),
    ensures
        final(dst)@ == old(dst)@ + src@.skip(from as int),
{
    let mut i: usize = from;
    while i < src.len()
        invariant
            from <= i <= src@.len(),
            dst@ == old(dst)@ + src@.subrange(from as int, i as int),
        decreases src@.len() - i,
    {
        dst.push(src[i]);
        i = i + 1;
        assert(src@.subrange(from as int, i as int) =~= src@.subrange(from as int, i - 1).push(
            src@[i - 1],
        ));
    }
    assert(src@.subrange(from as int, src@.len() as int) =~= src@.skip(from as int));
}

fn append_crlf(dst: &mut Vec<u8>)
    ensures
        final(dst)@ == old(dst)@ + crlf(),
{
    dst.push(13u8);
    dst.push(10u8);
    assert(final(dst)@ =~= old(dst)@ + crlf());
}

/// Writes the request in `original` back with `new_ua` as the value of the
/// header at `ua_index`.
pub fn rebuild_request(original: &[u8], header_len: usize, ua_index: usize, new_ua: &str) -> (r:
    Vec<u8>)
    ensures
        r@ == rebuilt_request(original@, header_len as int, ua_index as int, encode_utf8(new_ua@)),
{
    let head = parse_request_head(original);
    rebuild_from_head(original, &head, header_len, ua_index, new_ua)
}

/// Writes the request in `original`, whose parsed head is `head`, back with
/// `new_ua` as the value of the header at `ua_index`.
pub fn rebuild_from_head(
    original: &[u8],
    head: &RequestHead,
    header_len: usize,
    ua_index: usize,
    new_ua: &str,
) -> (r: Vec<u8>)
    ensures
        r@ == rebuilt_from(head@, original@, header_len as int, ua_index as int, encode_utf8(new_ua@)),
{
    let mut result: Vec<u8> = Vec::new();
    let ghost hv = head@;
    let new_bytes = new_ua.as_bytes();
    match (&head.method, &head.path) {
        (Some(method), Some(path)) => {
            append_bytes(&mut result, method.as_slice(), 0);
            result.push(32u8);
            append_bytes(&mut result, path.as_slice(), 0);
            match head.version {
                Some(version) => {
                    let http: Vec<u8> = vec![32u8, 72u8, 84u8, 84u8, 80u8, 47u8, 49u8, 46u8];
                    append_bytes(&mut result, http.as_slice(), 0);
                    result.push(if version == 1 { 49u8 } else { 48u8 });
                },
                None => {},
            }
            append_crlf(&mut result);
            proof {
                assert(method@.skip(0) =~= method@);
                assert(path@.skip(0) =~= path@);
                assert(result@ =~= request_line(hv));
            }
        },
        _ => {
            assert(result@ =~= request_line(hv));
        },
    }
    let ghost hs = hv.headers;
    proof {
        lemma_named_count(hs);
    }
    let mut i: usize = 0;
    while i < head.headers.len()
        invariant_except_break
            i <= hs.len(),
            i <= named_count(hs),
        invariant
            hs == head@.headers,
            hs.len() == head.headers@.len(),
            0 <= named_count(hs) <= hs.len(),
            forall|j: int| 0 <= j < named_count(hs) ==> (#[trigger] hs[j]).0.len() > 0,
            named_count(hs) < hs.len() ==> hs[named_count(hs)].0.len() == 0,
            new_bytes@ == encode_utf8(new_ua@),
            result@ == request_line(hv) + header_lines(hs, i as int, ua_index as int, new_bytes@),
        ensures
            i == named_count(hs),
            result@ == request_line(hv) + header_lines(hs, i as int, ua_index as int, new_bytes@),
        decreases hs.len() - i,
    {
        let header = &head.headers[i];
        assert(hs[i as int] == (header.name@, header.value@));
        if header.name.len() == 0 {
            break;
        }
        let ghost before = result@;
        append_bytes(&mut result, header.name.as_slice(), 0);
        result.push(58u8);
        result.push(32u8);
        if i == ua_index {
            append_bytes(&mut result, new_bytes, 0);
        } else {
            append_bytes(&mut result, header.value.as_slice(), 0);
        }
        append_crlf(&mut result);
        proof {
            assert(header.name@.skip(0) =~= header.name@);
            assert(header.value@.skip(0) =~= header.value@);
            assert(new_bytes@.skip(0) =~= new_bytes@);
            let v = if i == ua_index { new_bytes@ } else { header.value@ };
            assert(result@ =~= before + header_line(header.name@, v));
        }
        i = i + 1;
    }
    append_crlf(&mut result);
    if header_len < original.len() {
        append_bytes(&mut result, original, header_len);
    }
    assert(result@ =~= rebuilt_from(hv, original@, header_len as int, ua_index as int, encode_utf8(new_ua@)));
    result
}

/// `buf` holds the blank line that ends a request head.
pub open spec fn has_head_end(buf: Seq<u8>) -> bool {
    exists|i: int| 0 <= i && i + 4 <= buf.len() && #[trigger] buf.subrange(i, i + 4) == seq![13u8, 10u8, 13u8, 10u8]
}

/// Whether `buf` holds `\r\n\r\n`, the blank line that ends a request head.
pub fn head_complete(buf: &[u8]) -> (b: bool)
    ensures
        b == has_head_end(buf@),
{
    if buf.len() < 4 {
        return false;
    }
    let last: usize = buf.len() - 4;
    let mut i: usize = 0;
    while i <= last
        invariant
            last + 4 == buf@.len(),
            forall|j: int| 0 <= j < i ==> #[trigger] buf@.subrange(j, j + 4) != seq![13u8, 10u8, 13u8, 10u8],
            i <= last + 1,
        decreases last + 1 - i,
    {
        if buf[i] == 13u8 && buf[i + 1] == 10u8 && buf[i + 2] == 13u8 && buf[i + 3] == 10u8 {
            assert(buf@.subrange(i as int, i + 4) =~= seq![13u8, 10u8, 13u8, 10u8]);
            return true;
        }
        proof {
            let w = buf@.subrange(i as int, i + 4);
            if w == seq![13u8, 10u8, 13u8, 10u8] {
                assert(w[0] == buf@[i as int]);
                assert(w[1] == buf@[i + 1]);
                assert(w[2] == buf@[i + 2]);
                assert(w[3] == buf@[i + 3]);
            }
        }
        i = i + 1;
    }
    false
}

} // verus!
