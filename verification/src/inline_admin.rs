//! Administration on the port of the honeypot: telling its requests from other
//! traffic, reading them and answering them.

use vstd::prelude::*;

use crate::addr;
use crate::addr::IpAddr;
use crate::admin;
use crate::admin::{MessageReply, MessageReplyView, UnbanResult};
use crate::config::AdminConfig;
use crate::text;

verus! {

// ---------------------------------------------------------------------------
// Errors

/// Why a request is not answered.
#[derive(Clone, Copy, Debug, PartialEq, Eq, Structural)]
pub enum InlineError {
    InvalidRequest,
    MethodMissing,
    TargetMissing,
    DuplicateContentLength,
    ContentLengthNotText,
    InvalidContentLength,
    TransferEncoding,
    DuplicateAuthorization,
    AuthorizationNotText,
    LengthOverflow,
    TooLarge,
    DeadlineExceeded,
    ClosedEarly,
}

impl InlineError {
    pub open spec fn message(self) -> Seq<char> {
        match self {
            InlineError::InvalidRequest => "invalid inline admin HTTP request"@,
            InlineError::MethodMissing => "inline admin HTTP method missing"@,
            InlineError::TargetMissing => "inline admin HTTP target missing"@,
            InlineError::DuplicateContentLength => "duplicate content-length header"@,
            InlineError::ContentLengthNotText => "content-length header was not valid ASCII"@,
            InlineError::InvalidContentLength => "invalid content-length header"@,
            InlineError::TransferEncoding =>
                "transfer-encoding is not supported by inline admin"@,
            InlineError::DuplicateAuthorization => "duplicate authorization header"@,
            InlineError::AuthorizationNotText => "authorization header was not valid UTF-8"@,
            InlineError::LengthOverflow => "inline admin request length overflow"@,
            InlineError::TooLarge => "inline admin request exceeded configured size limit"@,
            InlineError::DeadlineExceeded => "inline admin request deadline exceeded"@,
            InlineError::ClosedEarly =>
                "inline admin connection closed before the request completed"@,
        }
    }

    /// The message of the error.
    pub fn to_string(&self) -> (r: String)
        ensures
            r@ == self.message(),
    {
        let message = match self {
            InlineError::InvalidRequest => "invalid inline admin HTTP request",
            InlineError::MethodMissing => "inline admin HTTP method missing",
            InlineError::TargetMissing => "inline admin HTTP target missing",
            InlineError::DuplicateContentLength => "duplicate content-length header",
            InlineError::ContentLengthNotText => "content-length header was not valid ASCII",
            InlineError::InvalidContentLength => "invalid content-length header",
            InlineError::TransferEncoding => "transfer-encoding is not supported by inline admin",
            InlineError::DuplicateAuthorization => "duplicate authorization header",
            InlineError::AuthorizationNotText => "authorization header was not valid UTF-8",
            InlineError::LengthOverflow => "inline admin request length overflow",
            InlineError::TooLarge => "inline admin request exceeded configured size limit",
            InlineError::DeadlineExceeded => "inline admin request deadline exceeded",
            InlineError::ClosedEarly =>
                "inline admin connection closed before the request completed",
        };
        message.to_string()
    }
}

// ---------------------------------------------------------------------------
// The head of a request

/// The largest number of header lines.
pub const MAX_INLINE_HEADERS: usize = 32;

pub struct HeaderLine {
    pub name: String,
    pub value: Vec<u8>,
}

impl View for HeaderLine {
    type V = (Seq<char>, Seq<u8>);

    open spec fn view(&self) -> (Seq<char>, Seq<u8>) {
        (self.name@, self.value@)
    }
}

pub open spec fn header_views(headers: Seq<HeaderLine>) -> Seq<(Seq<char>, Seq<u8>)> {
    headers.map_values(|h: HeaderLine| h@)
}

/// What the bytes of a request begin with.
pub enum Head {
    Invalid,
    Partial,
    Complete {
        length: usize,
        method: Option<String>,
        target: Option<String>,
        headers: Vec<HeaderLine>,
    },
}

pub enum HeadView {
    Invalid,
    Partial,
    Complete {
        length: nat,
        method: Option<Seq<char>>,
        target: Option<Seq<char>>,
        headers: Seq<(Seq<char>, Seq<u8>)>,
    },
}

impl View for Head {
    type V = HeadView;

    open spec fn view(&self) -> HeadView {
        match self {
            Head::Invalid => HeadView::Invalid,
            Head::Partial => HeadView::Partial,
            Head::Complete { length, method, target, headers } => HeadView::Complete {
                length: *length as nat,
                method: admin::string_view(*method),
                target: admin::string_view(*target),
                headers: header_views(headers@),
            },
        }
    }
}

/// What `httparse` makes of the beginning of some bytes, with room for a number
/// of header lines.
pub uninterp spec fn head_of(buffer: Seq<u8>, max_headers: nat) -> HeadView;

/// `httparse::Request::parse` reads the head of a request from bytes: it finds
/// them invalid, not yet complete, or complete, and then gives the length of
/// the head, the method, the target and the header lines. It reads the bytes
/// in their order and stops at the end of the head, so what it found complete
/// stays as it is when more bytes follow. What it finds is otherwise left to
/// its name. The room for the header lines is one that can be addressed.
#[verifier::external_body]
fn parse_head(buffer: &[u8], max_headers: usize) -> (head: Head)
    requires
        max_headers * 64 <= isize::MAX,
    ensures
        head@ == head_of(buffer@, max_headers as nat),
        head@ is Complete ==> forall|more: Seq<u8>| #[trigger]
            head_of(buffer@ + more, max_headers as nat) == head@,
{
    let mut lines = vec![httparse::EMPTY_HEADER; max_headers];
    let mut request = httparse::Request::new(&mut lines);
    match request.parse(buffer) {
        Err(_) => Head::Invalid,
        Ok(httparse::Status::Partial) => Head::Partial,
        Ok(httparse::Status::Complete(length)) => Head::Complete {
            length,
            method: request.method.map(|m| m.to_string()),
            target: request.path.map(|p| p.to_string()),
            headers: request.headers.iter().map(
                |h| HeaderLine { name: h.name.to_string(), value: h.value.to_vec() },
            ).collect(),
        },
    }
}

/// `std::str::from_utf8` takes bytes for text exactly when they are valid
/// UTF-8, and then as the characters that they encode.
#[verifier::external_body]
fn utf8_text(bytes: &[u8]) -> (r: Option<String>)
    ensures
        match r {
            Some(s) => vstd::utf8::valid_utf8(bytes@) && s@ == vstd::utf8::decode_utf8(bytes@),
            None => !vstd::utf8::valid_utf8(bytes@),
        },
{
    std::str::from_utf8(bytes).ok().map(|s| s.to_string())
}

pub open spec fn same_name(a: Seq<char>, b: Seq<char>) -> bool {
    text::lower(a) == text::lower(b)
}

/// What the header lines say of the request.
pub struct Framing {
    pub content_length: Option<usize>,
    pub authorization: Option<String>,
}

pub struct FramingView {
    pub content_length: Option<int>,
    pub authorization: Option<Seq<char>>,
}

impl View for Framing {
    type V = FramingView;

    open spec fn view(&self) -> FramingView {
        FramingView {
            content_length: match self.content_length {
                Some(n) => Some(n as int),
                None => None,
            },
            authorization: admin::string_view(self.authorization),
        }
    }
}

/// What is known after one more header line.
pub open spec fn with_header(known: FramingView, header: (Seq<char>, Seq<u8>)) -> Result<
    FramingView,
    InlineError,
> {
    let (name, value) = header;
    let content = text::trimmed(vstd::utf8::decode_utf8(value));
    if same_name(name, "content-length"@) {
        if known.content_length is Some {
            Err(InlineError::DuplicateContentLength)
        } else if !vstd::utf8::valid_utf8(value) {
            Err(InlineError::ContentLengthNotText)
        } else {
            match text::unsigned_number(content, usize::MAX as int) {
                Some(n) => Ok(FramingView { content_length: Some(n), ..known }),
                None => Err(InlineError::InvalidContentLength),
            }
        }
    } else if same_name(name, "transfer-encoding"@) {
        Err(InlineError::TransferEncoding)
    } else if same_name(name, "authorization"@) {
        if known.authorization is Some {
            Err(InlineError::DuplicateAuthorization)
        } else if !vstd::utf8::valid_utf8(value) {
            Err(InlineError::AuthorizationNotText)
        } else {
            Ok(FramingView { authorization: Some(content), ..known })
        }
    } else {
        Ok(known)
    }
}

/// What all header lines say, or what is wrong with the first bad one.
pub open spec fn framing(headers: Seq<(Seq<char>, Seq<u8>)>) -> Result<FramingView, InlineError>
    decreases headers.len(),
{
    if headers.len() == 0 {
        Ok(FramingView { content_length: None, authorization: None })
    } else {
        match framing(headers.drop_last()) {
            Ok(known) => with_header(known, headers.last()),
            Err(e) => Err(e),
        }
    }
}

pub open spec fn framing_result(r: Result<Framing, InlineError>) -> Result<
    FramingView,
    InlineError,
> {
    match r {
        Ok(f) => Ok(f@),
        Err(e) => Err(e),
    }
}

fn add_header(known: Framing, header: &HeaderLine) -> (r: Result<Framing, InlineError>)
    ensures
        framing_result(r) == with_header(known@, header@),
{
    let name = header.name.as_str();
    if text::same_ignoring_case(name, "content-length") {
        if known.content_length.is_some() {
            return Err(InlineError::DuplicateContentLength);
        }
        match utf8_text(header.value.as_slice()) {
            None => Err(InlineError::ContentLengthNotText),
            Some(value) => {
                let value = text::trim(value.as_str());
                match text::parse_unsigned(value.as_str(), usize::MAX as u64) {
                    Some(n) => Ok(
                        Framing {
                            content_length: Some(n as usize),
                            authorization: known.authorization,
                        },
                    ),
                    None => Err(InlineError::InvalidContentLength),
                }
            },
        }
    } else if text::same_ignoring_case(name, "transfer-encoding") {
        Err(InlineError::TransferEncoding)
    } else if text::same_ignoring_case(name, "authorization") {
        if known.authorization.is_some() {
            return Err(InlineError::DuplicateAuthorization);
        }
        match utf8_text(header.value.as_slice()) {
            None => Err(InlineError::AuthorizationNotText),
            Some(value) => Ok(
                Framing {
                    content_length: known.content_length,
                    authorization: Some(text::trim(value.as_str())),
                },
            ),
        }
    } else {
        Ok(known)
    }
}

proof fn lemma_framing_stops(headers: Seq<(Seq<char>, Seq<u8>)>, k: int)
    requires
        0 <= k <= headers.len(),
        framing(headers.take(k)) is Err,
    ensures
        framing(headers) == framing(headers.take(k)),
    decreases headers.len() - k,
{
    if k < headers.len() {
        assert(headers.take(k + 1).drop_last() =~= headers.take(k));
        lemma_framing_stops(headers, k + 1);
    } else {
        assert(headers.take(k) =~= headers);
    }
}

fn read_headers(headers: &Vec<HeaderLine>) -> (r: Result<Framing, InlineError>)
    ensures
        framing_result(r) == framing(header_views(headers@)),
{
    let ghost all = header_views(headers@);
    let mut known = Framing { content_length: None, authorization: None };
    let mut i: usize = 0;
    assert(all.take(0) =~= Seq::empty());
    while i < headers.len()
        invariant
            i <= headers@.len(),
            all == header_views(headers@),
            framing(all.take(i as int)) == Ok::<_, InlineError>(known@),
        decreases headers@.len() - i,
    {
        assert(all.take(i + 1).drop_last() =~= all.take(i as int));
        assert(all.take(i + 1).last() == headers@[i as int]@);
        match add_header(known, &headers[i]) {
            Ok(next) => {
                known = next;
            },
            Err(e) => {
                proof {
                    lemma_framing_stops(all, i + 1);
                }
                return Err(e);
            },
        }
        i += 1;
    }
    assert(all.take(i as int) =~= all);
    Ok(known)
}

/// A complete request.
#[derive(Debug, PartialEq, Eq)]
pub struct InlineHttpRequest {
    pub method: String,
    pub target: String,
    pub body: Vec<u8>,
    pub authorization: Option<String>,
}

pub struct InlineHttpRequestView {
    pub method: Seq<char>,
    pub target: Seq<char>,
    pub body: Seq<u8>,
    pub authorization: Option<Seq<char>>,
}

impl View for InlineHttpRequest {
    type V = InlineHttpRequestView;

    open spec fn view(&self) -> InlineHttpRequestView {
        InlineHttpRequestView {
            method: self.method@,
            target: self.target@,
            body: self.body@,
            authorization: admin::string_view(self.authorization),
        }
    }
}

pub open spec fn content_length_or_zero(f: FramingView) -> int {
    match f.content_length {
        Some(n) => n,
        None => 0,
    }
}

/// The request that `buffer` holds, given what its head was found to be:
/// nothing while more has to come.
pub open spec fn request_of(head: HeadView, buffer: Seq<u8>, max_request_bytes: int) -> Result<
    Option<InlineHttpRequestView>,
    InlineError,
> {
    match head {
        HeadView::Invalid => Err(InlineError::InvalidRequest),
        HeadView::Partial => Ok(None),
        HeadView::Complete { method: None, .. } => Err(InlineError::MethodMissing),
        HeadView::Complete { target: None, .. } => Err(InlineError::TargetMissing),
        HeadView::Complete {
            length,
            method: Some(method),
            target: Some(target),
            headers,
        } => match framing(headers) {
            Err(e) => Err(e),
            Ok(f) => {
                let full = length + content_length_or_zero(f);
                if full > usize::MAX {
                    Err(InlineError::LengthOverflow)
                } else if full > max_request_bytes {
                    Err(InlineError::TooLarge)
                } else if buffer.len() < full {
                    Ok(None)
                } else {
                    Ok(
                        Some(
                            InlineHttpRequestView {
                                method: text::upper(method),
                                target,
                                body: buffer.subrange(length as int, full),
                                authorization: f.authorization,
                            },
                        ),
                    )
                }
            },
        },
    }
}

pub open spec fn request_result(r: Result<Option<InlineHttpRequest>, InlineError>) -> Result<
    Option<InlineHttpRequestView>,
    InlineError,
> {
    match r {
        Ok(Some(request)) => Ok(Some(request@)),
        Ok(None) => Ok(None),
        Err(e) => Err(e),
    }
}

/// Reads a request once its head was looked at.
pub fn complete_request(head: Head, buffer: &[u8], max_request_bytes: usize) -> (r: Result<
    Option<InlineHttpRequest>,
    InlineError,
>)
    ensures
        request_result(r) == request_of(head@, buffer@, max_request_bytes as int),
{
    match head {
        Head::Invalid => Err(InlineError::InvalidRequest),
        Head::Partial => Ok(None),
        Head::Complete { length, method, target, headers } => {
            let method = match method {
                Some(m) => m,
                None => {
                    return Err(InlineError::MethodMissing);
                },
            };
            let target = match target {
                Some(t) => t,
                None => {
                    return Err(InlineError::TargetMissing);
                },
            };
            let framing = match read_headers(&headers) {
                Ok(f) => f,
                Err(e) => {
                    return Err(e);
                },
            };
            let content_length = match framing.content_length {
                Some(n) => n,
                None => 0,
            };
            let full_length = match length.checked_add(content_length) {
                Some(n) => n,
                None => {
                    return Err(InlineError::LengthOverflow);
                },
            };
            if full_length > max_request_bytes {
                return Err(InlineError::TooLarge);
            }
            if buffer.len() < full_length {
                return Ok(None);
            }
            let body = vstd::slice::slice_to_vec(
                vstd::slice::slice_subrange(buffer, length, full_length),
            );
            Ok(
                Some(
                    InlineHttpRequest {
                        method: text::to_upper(method.as_str()),
                        target,
                        body,
                        authorization: framing.authorization,
                    },
                ),
            )
        },
    }
}

/// Reads a request from the bytes that have come so far. Once the head is
/// complete and a request or an error has been found, more bytes change
/// nothing.
pub fn parse_complete_request(buffer: &[u8], max_request_bytes: usize) -> (r: Result<
    Option<InlineHttpRequest>,
    InlineError,
>)
    ensures
        request_result(r) == request_of(
            head_of(buffer@, MAX_INLINE_HEADERS as nat),
            buffer@,
            max_request_bytes as int,
        ),
        head_of(buffer@, MAX_INLINE_HEADERS as nat) is Complete && request_result(r) != Ok::<
            Option<InlineHttpRequestView>,
            InlineError,
        >(None) ==> forall|more: Seq<u8>|
            request_of(
                #[trigger] head_of(buffer@ + more, MAX_INLINE_HEADERS as nat),
                buffer@ + more,
                max_request_bytes as int,
            ) == request_result(r),
{
    let head = parse_head(buffer, MAX_INLINE_HEADERS);
    let ghost found = head@;
    let r = complete_request(head, buffer, max_request_bytes);
    proof {
        if found is Complete && request_result(r) != Ok::<
            Option<InlineHttpRequestView>,
            InlineError,
        >(None) {
            assert forall|more: Seq<u8>|
                request_of(
                    #[trigger] head_of(buffer@ + more, MAX_INLINE_HEADERS as nat),
                    buffer@ + more,
                    max_request_bytes as int,
                ) == request_result(r) by {
                law_later_bytes_change_nothing(found, buffer@, more, max_request_bytes as int);
            }
        }
    }
    r
}

// ---------------------------------------------------------------------------
// Telling requests from other traffic

/// The position of the first line feed, or the length if there is none.
pub open spec fn line_feed(buffer: Seq<u8>) -> nat
    decreases buffer.len(),
{
    if buffer.len() == 0 || buffer[0] == 10u8 {
        0
    } else {
        1 + line_feed(buffer.drop_first())
    }
}

proof fn lemma_line_feed_is(buffer: Seq<u8>, k: int)
    requires
        0 <= k <= buffer.len(),
        forall|i: int| 0 <= i < k ==> buffer[i] != 10u8,
        k < buffer.len() ==> buffer[k] == 10u8,
    ensures
        line_feed(buffer) == k,
    decreases k,
{
    if k > 0 {
        let rest = buffer.drop_first();
        assert(buffer[0] != 10u8);
        assert forall|i: int| 0 <= i < k - 1 implies rest[i] != 10u8 by {
            assert(rest[i] == buffer[i + 1]);
        }
        lemma_line_feed_is(rest, k - 1);
    }
}

fn find_line_feed(buffer: &[u8]) -> (i: usize)
    ensures
        i == line_feed(buffer@),
        i <= buffer@.len(),
{
    let mut i: usize = 0;
    while i < buffer.len() && buffer[i] != 10u8
        invariant
            i <= buffer@.len(),
            forall|k: int| 0 <= k < i ==> buffer@[k] != 10u8,
        decreases buffer@.len() - i,
    {
        i += 1;
    }
    proof {
        lemma_line_feed_is(buffer@, i as int);
    }
    i
}

pub open spec fn known_method(method: Seq<char>) -> bool {
    ||| method == "GET"@
    ||| method == "POST"@
    ||| method == "HEAD"@
    ||| method == "PUT"@
    ||| method == "DELETE"@
}

/// The method and the target of the first line, if it is one of a request.
pub open spec fn request_line(buffer: Seq<u8>) -> Option<(Seq<char>, Seq<char>)> {
    let end = line_feed(buffer) as int;
    let bytes = buffer.take(end);
    let line = text::trimmed(vstd::utf8::decode_utf8(bytes));
    let word = text::first_word(line);
    let method = text::upper(word);
    let target = text::first_word(text::trim_start(line.skip(word.len() as int)));
    if end < buffer.len() && vstd::utf8::valid_utf8(bytes) && target.len() > 0 && known_method(
        method,
    ) {
        Some((method, target))
    } else {
        None
    }
}

fn is_known_method(method: &str) -> (r: bool)
    ensures
        r == known_method(method@),
{
    text::same(method, "GET") || text::same(method, "POST") || text::same(method, "HEAD")
        || text::same(method, "PUT") || text::same(method, "DELETE")
}

pub fn parse_request_line(buffer: &[u8]) -> (r: Option<(String, String)>)
    ensures
        match r {
            Some((method, target)) => request_line(buffer@) == Some((method@, target@)),
            None => request_line(buffer@) is None,
        },
{
    let end = find_line_feed(buffer);
    if end == buffer.len() {
        return None;
    }
    let bytes = vstd::slice::slice_subrange(buffer, 0, end);
    assert(bytes@ =~= buffer@.take(end as int));
    let line = match utf8_text(bytes) {
        Some(s) => text::trim(s.as_str()),
        None => {
            return None;
        },
    };
    let (word, rest) = text::split_word(line.as_str());
    let method = text::to_upper(word.as_str());
    let (target, _) = text::split_word(rest.as_str());
    if target.as_str().is_empty() || !is_known_method(method.as_str()) {
        return None;
    }
    Some((method, target))
}

/// The beginnings of the requests that are looked for.
pub open spec fn method_prefixes() -> Seq<Seq<u8>> {
    seq![
        seq![71u8, 69, 84, 32],
        seq![80u8, 79, 83, 84, 32],
        seq![72u8, 69, 65, 68, 32],
        seq![80u8, 85, 84, 32],
        seq![68u8, 69, 76, 69, 84, 69, 32],
    ]
}

/// One of two byte strings is the beginning of the other.
pub open spec fn compatible(a: Seq<u8>, b: Seq<u8>) -> bool {
    a.is_prefix_of(b) || b.is_prefix_of(a)
}

/// The bytes so far may be the beginning of a request.
pub open spec fn may_be_request(buffer: Seq<u8>) -> bool {
    exists|i: int|
        0 <= i < method_prefixes().len() && compatible(#[trigger] method_prefixes()[i], buffer)
}

fn is_compatible(a: &[u8], b: &[u8]) -> (r: bool)
    ensures
        r == compatible(a@, b@),
{
    let n = if a.len() < b.len() {
        a.len()
    } else {
        b.len()
    };
    let mut i: usize = 0;
    while i < n
        invariant
            i <= n,
            n <= a@.len(),
            n <= b@.len(),
            n == a@.len() || n == b@.len(),
            forall|k: int| 0 <= k < i ==> a@[k] == b@[k],
        decreases n - i,
    {
        if a[i] != b[i] {
            assert(!compatible(a@, b@)) by {
                assert(a@[i as int] != b@[i as int]);
                if a@.is_prefix_of(b@) {
                    assert(a@[i as int] == b@.take(a@.len() as int)[i as int]);
                }
                if b@.is_prefix_of(a@) {
                    assert(b@[i as int] == a@.take(b@.len() as int)[i as int]);
                }
            }
            return false;
        }
        i += 1;
    }
    proof {
        if n == a@.len() {
            assert(a@ =~= b@.take(a@.len() as int));
        } else {
            assert(b@ =~= a@.take(b@.len() as int));
        }
    }
    true
}

pub fn could_be_http_request(buffer: &[u8]) -> (r: bool)
    ensures
        r == may_be_request(buffer@),
{
    let get: [u8; 4] = [71, 69, 84, 32];
    let post: [u8; 5] = [80, 79, 83, 84, 32];
    let head: [u8; 5] = [72, 69, 65, 68, 32];
    let put: [u8; 4] = [80, 85, 84, 32];
    let delete: [u8; 7] = [68, 69, 76, 69, 84, 69, 32];
    let r = is_compatible(get.as_slice(), buffer) || is_compatible(post.as_slice(), buffer)
        || is_compatible(head.as_slice(), buffer) || is_compatible(put.as_slice(), buffer)
        || is_compatible(delete.as_slice(), buffer);
    proof {
        let all = method_prefixes();
        assert(get@ =~= all[0]);
        assert(post@ =~= all[1]);
        assert(head@ =~= all[2]);
        assert(put@ =~= all[3]);
        assert(delete@ =~= all[4]);
        if may_be_request(buffer@) {
            let i = choose|i: int| 0 <= i < all.len() && compatible(#[trigger] all[i], buffer@);
            assert(i == 0 || i == 1 || i == 2 || i == 3 || i == 4);
        }
    }
    r
}

/// The part of a target before its query.
pub open spec fn path_of(target: Seq<char>) -> Seq<char> {
    target.take(text::find(target, '?') as int)
}

/// The part of a target behind the first question mark.
pub open spec fn query_of(target: Seq<char>) -> Seq<char> {
    if target.contains('?') {
        target.skip(text::find(target, '?') as int + 1)
    } else {
        Seq::empty()
    }
}

/// The path below the prefix, if the target lies there.
pub open spec fn subpath(target: Seq<char>, prefix: Seq<char>) -> Option<Seq<char>> {
    let path = path_of(target);
    let base = text::without_trailing(prefix, '/');
    if path == base {
        Some(seq!['/'])
    } else if base.is_prefix_of(path) && path[base.len() as int] == '/' {
        Some(path.skip(base.len() as int))
    } else {
        None
    }
}

pub fn normalize_prefix(prefix: &str) -> (r: String)
    ensures
        r@ == text::without_trailing(prefix@, '/'),
{
    text::trim_end_char(prefix, '/')
}

pub fn admin_subpath(target: &str, prefix: &str) -> (r: Option<String>)
    ensures
        admin::string_view(r) == subpath(target@, prefix@),
{
    let base = normalize_prefix(prefix);
    let chars = text::to_chars(target);
    let end = text::find_char(chars.as_slice(), '?');
    let path = text::from_range(chars.as_slice(), 0, end);
    assert(path@ =~= path_of(target@));
    if text::same(path.as_str(), base.as_str()) {
        let r = "/".to_string();
        proof {
            reveal_strlit("/");
            assert(r@ =~= seq!['/']);
        }
        return Some(r);
    }
    if !text::starts_with(path.as_str(), base.as_str()) {
        return None;
    }
    let path_chars = text::to_chars(path.as_str());
    let base_len = text::to_chars(base.as_str()).len();
    proof {
        assert(base@ == path@.take(base@.len() as int));
        if base@.len() == path@.len() {
            assert(path@ =~= base@);
        }
    }
    if path_chars[base_len] != '/' {
        return None;
    }
    let rest = text::from_range(path_chars.as_slice(), base_len, path_chars.len());
    assert(rest@ =~= path@.skip(base@.len() as int));
    Some(rest)
}

pub fn query_string(target: &str) -> (r: String)
    ensures
        r@ == query_of(target@),
{
    match text::split_once(target, '?') {
        Some((_, query)) => query,
        None => {
            let r = String::new();
            assert(r@ =~= Seq::empty());
            r
        },
    }
}

/// The credentials of a request, by its authorization header.
pub fn bearer_password(authorization: Option<&str>) -> (r: Option<String>)
    ensures
        admin::string_view(r) == match authorization {
            Some(value) => admin::bearer(value@),
            None => None,
        },
{
    match authorization {
        Some(value) => admin::bearer_credentials(value),
        None => None,
    }
}

// ---------------------------------------------------------------------------
// Queries

/// The names and values that `serde_urlencoded` finds in a query.
pub uninterp spec fn pairs_of(query: Seq<char>) -> Option<Seq<(Seq<char>, Seq<char>)>>;

pub open spec fn pair_views(pairs: Seq<(String, String)>) -> Seq<(Seq<char>, Seq<char>)> {
    pairs.map_values(|p: (String, String)| (p.0@, p.1@))
}

pub open spec fn option_pair_views(pairs: Option<Vec<(String, String)>>) -> Option<
    Seq<(Seq<char>, Seq<char>)>,
> {
    match pairs {
        Some(p) => Some(pair_views(p@)),
        None => None,
    }
}

/// `serde_urlencoded::from_str` decodes the names and values of a query, in
/// their order. What it decodes is left to its name.
#[verifier::external_body]
fn query_pairs(query: &str) -> (r: Option<Vec<(String, String)>>)
    ensures
        option_pair_views(r) == pairs_of(query@),
{
    serde_urlencoded::from_str::<Vec<(String, String)>>(query).ok()
}

/// The values under a name.
pub open spec fn values_of(pairs: Seq<(Seq<char>, Seq<char>)>, name: Seq<char>) -> Seq<Seq<char>>
    decreases pairs.len(),
{
    if pairs.len() == 0 {
        Seq::empty()
    } else if pairs.last().0 == name {
        values_of(pairs.drop_last(), name).push(pairs.last().1)
    } else {
        values_of(pairs.drop_last(), name)
    }
}

/// The value under a name that stands once; a name that is missing or repeated
/// has none.
pub open spec fn field(pairs: Seq<(Seq<char>, Seq<char>)>, name: Seq<char>) -> Option<Seq<char>> {
    if values_of(pairs, name).len() == 1 {
        Some(values_of(pairs, name)[0])
    } else {
        None
    }
}

fn find_field(pairs: &Vec<(String, String)>, name: &str) -> (r: Option<String>)
    ensures
        admin::string_view(r) == field(pair_views(pairs@), name@),
{
    let ghost all = pair_views(pairs@);
    let mut found: Option<String> = None;
    let mut repeated = false;
    let mut i: usize = 0;
    assert(all.take(0) =~= Seq::empty());
    while i < pairs.len()
        invariant
            i <= pairs@.len(),
            all == pair_views(pairs@),
            ({
                let values = values_of(all.take(i as int), name@);
                &&& repeated == (values.len() > 1)
                &&& found is None <==> values.len() == 0
                &&& found matches Some(v) ==> v@ == values[0]
            }),
        decreases pairs@.len() - i,
    {
        let ghost values = values_of(all.take(i as int), name@);
        proof {
            let next = all.take(i + 1);
            assert(next.drop_last() =~= all.take(i as int));
            assert(next.last() == (pairs@[i as int].0@, pairs@[i as int].1@));
        }
        if text::same(pairs[i].0.as_str(), name) {
            if found.is_some() {
                repeated = true;
            } else {
                found = Some(pairs[i].1.clone());
            }
        }
        i += 1;
    }
    assert(all.take(i as int) =~= all);
    if repeated {
        None
    } else {
        found
    }
}

pub open spec fn legacy_password(pairs: Option<Seq<(Seq<char>, Seq<char>)>>) -> Option<
    Seq<char>,
> {
    match pairs {
        Some(p) => field(p, "password"@),
        None => None,
    }
}

/// The source and the password of a query that asks for a release.
pub open spec fn legacy_unban(pairs: Option<Seq<(Seq<char>, Seq<char>)>>) -> Option<
    (IpAddr, Seq<char>),
> {
    match pairs {
        Some(p) => match (field(p, "ip"@), field(p, "password"@)) {
            (Some(ip), Some(password)) => match addr::ip_of(ip) {
                Some(ip) => Some((ip, password)),
                None => None,
            },
            _ => None,
        },
        None => None,
    }
}

fn find_password(pairs: &Option<Vec<(String, String)>>) -> (r: Option<String>)
    ensures
        admin::string_view(r) == legacy_password(option_pair_views(*pairs)),
{
    match pairs {
        Some(p) => find_field(p, "password"),
        None => None,
    }
}

fn find_unban(pairs: &Option<Vec<(String, String)>>) -> (r: Option<(IpAddr, String)>)
    ensures
        match r {
            Some((ip, password)) => legacy_unban(option_pair_views(*pairs)) == Some(
                (ip, password@),
            ),
            None => legacy_unban(option_pair_views(*pairs)) is None,
        },
{
    match pairs {
        Some(p) => {
            let ip = find_field(p, "ip");
            let password = find_field(p, "password");
            match (ip, password) {
                (Some(ip), Some(password)) => match addr::parse_ip(ip.as_str()) {
                    Some(ip) => Some((ip, password)),
                    None => None,
                },
                _ => None,
            }
        },
        None => None,
    }
}

// ---------------------------------------------------------------------------
// Answering requests

/// What the body of a request to release a source says.
pub struct UnbanBody {
    pub ip: IpAddr,
    pub password: Option<String>,
}

pub struct UnbanBodyView {
    pub ip: IpAddr,
    pub password: Option<Seq<char>>,
}

impl View for UnbanBody {
    type V = UnbanBodyView;

    open spec fn view(&self) -> UnbanBodyView {
        UnbanBodyView { ip: self.ip, password: admin::string_view(self.password) }
    }
}

pub open spec fn body_view(body: Option<UnbanBody>) -> Option<UnbanBodyView> {
    match body {
        Some(b) => Some(b@),
        None => None,
    }
}

/// What is to be done with a request.
pub enum Decision {
    Answer { reply: MessageReply },
    ListBanned,
    Unban { ip: IpAddr },
}

pub enum DecisionView {
    Answer { reply: MessageReplyView },
    ListBanned,
    Unban { ip: IpAddr },
}

impl View for Decision {
    type V = DecisionView;

    open spec fn view(&self) -> DecisionView {
        match self {
            Decision::Answer { reply } => DecisionView::Answer { reply: reply@ },
            Decision::ListBanned => DecisionView::ListBanned,
            Decision::Unban { ip } => DecisionView::Unban { ip: *ip },
        }
    }
}

pub open spec fn answer(status: u16, ok: bool, message: Seq<char>) -> DecisionView {
    DecisionView::Answer { reply: MessageReplyView { status, ok, message } }
}

pub open spec fn request_credentials(authorization: Option<Seq<char>>) -> Option<Seq<char>> {
    match authorization {
        Some(value) => admin::bearer(value),
        None => None,
    }
}

/// A request that shows the right password goes on, any other does not.
pub open spec fn gated(
    provided: Option<Seq<char>>,
    expected: Seq<char>,
    allowed: DecisionView,
) -> DecisionView {
    if provided == Some(expected) {
        allowed
    } else {
        answer(401, false, "invalid credentials"@)
    }
}

/// What is to be done with a request, given the names and values of its query
/// and what its body was read as.
pub open spec fn decision(
    request: InlineHttpRequestView,
    config: AdminConfig,
    pairs: Option<Seq<(Seq<char>, Seq<char>)>>,
    body: Option<UnbanBodyView>,
) -> DecisionView {
    let credentials = request_credentials(request.authorization);
    match subpath(request.target, config.inline_path_prefix@) {
        None => answer(404, false, "not found"@),
        Some(path) => if request.method == "GET"@ && path == "/health"@ {
            answer(200, true, "ok"@)
        } else if request.method == "GET"@ && path == "/banned"@ {
            gated(
                admin::banned_list_access(
                    credentials,
                    legacy_password(pairs),
                    config.allow_legacy_get_password,
                ),
                config.password@,
                DecisionView::ListBanned,
            )
        } else if request.method == "GET"@ && path == "/unban"@ {
            if config.allow_legacy_get_password {
                match legacy_unban(pairs) {
                    Some((ip, password)) => gated(
                        Some(password),
                        config.password@,
                        DecisionView::Unban { ip },
                    ),
                    None => answer(400, false, "invalid query"@),
                }
            } else {
                answer(405, false, "use POST /unban"@)
            }
        } else if request.method == "POST"@ && path == "/unban"@ {
            match body {
                Some(b) => gated(
                    admin::or_else(credentials, b.password),
                    config.password@,
                    DecisionView::Unban { ip: b.ip },
                ),
                None => answer(400, false, "invalid json"@),
            }
        } else {
            answer(404, false, "not found"@)
        },
    }
}

fn reply(status: u16, ok: bool, message: &str) -> (r: Decision)
    ensures
        r@ == answer(status, ok, message@),
{
    Decision::Answer { reply: admin::message_reply(status, ok, message) }
}

fn gate(provided: &Option<String>, config: &AdminConfig, allowed: Decision) -> (r: Decision)
    ensures
        r@ == gated(admin::string_view(*provided), config.password@, allowed@),
{
    if admin::access_granted(provided, config.password.as_str()) {
        allowed
    } else {
        reply(401, false, "invalid credentials")
    }
}

/// Decides on a request. `body` is what its body was read as, if it could be.
pub fn handle_inline_request(
    request: &InlineHttpRequest,
    config: &AdminConfig,
    body: Option<UnbanBody>,
) -> (r: Decision)
    ensures
        r@ == decision(
            request@,
            *config,
            pairs_of(query_of(request@.target)),
            body_view(body),
        ),
{
    let pairs = query_pairs(query_string(request.target.as_str()).as_str());
    decide(request, config, pairs, body)
}

/// The same, given the names and values of the query.
pub fn decide(
    request: &InlineHttpRequest,
    config: &AdminConfig,
    pairs: Option<Vec<(String, String)>>,
    body: Option<UnbanBody>,
) -> (r: Decision)
    ensures
        r@ == decision(request@, *config, option_pair_views(pairs), body_view(body)),
{
    let path = match admin_subpath(request.target.as_str(), config.inline_path_prefix.as_str()) {
        Some(p) => p,
        None => {
            return reply(404, false, "not found");
        },
    };
    let get = text::same(request.method.as_str(), "GET");
    let post = text::same(request.method.as_str(), "POST");
    let unban = text::same(path.as_str(), "/unban");
    let authorization = match &request.authorization {
        Some(value) => Some(value.as_str()),
        None => None,
    };
    if get && text::same(path.as_str(), "/health") {
        reply(200, true, "ok")
    } else if get && text::same(path.as_str(), "/banned") {
        let provided = admin::banned_list_password(
            bearer_password(authorization),
            find_password(&pairs),
            config.allow_legacy_get_password,
        );
        gate(&provided, config, Decision::ListBanned)
    } else if get && unban {
        if config.allow_legacy_get_password {
            match find_unban(&pairs) {
                Some((ip, password)) => gate(&Some(password), config, Decision::Unban { ip }),
                None => reply(400, false, "invalid query"),
            }
        } else {
            reply(405, false, "use POST /unban")
        }
    } else if post && unban {
        match body {
            Some(b) => {
                let provided = admin::unban_password(bearer_password(authorization), b.password);
                gate(&provided, config, Decision::Unban { ip: b.ip })
            },
            None => reply(400, false, "invalid json"),
        }
    } else {
        reply(404, false, "not found")
    }
}

/// The answer to a release that was let in.
pub fn unban_inline(ip: IpAddr, result: UnbanResult) -> (r: MessageReply)
    ensures
        r@ == admin::unban_answer(ip, result),
{
    admin::unban_reply(ip, result)
}

pub open spec fn reason_of(status: u16) -> Seq<char> {
    if status == 200 {
        "OK"@
    } else if status == 400 {
        "Bad Request"@
    } else if status == 401 {
        "Unauthorized"@
    } else if status == 404 {
        "Not Found"@
    } else if status == 405 {
        "Method Not Allowed"@
    } else {
        "Internal Server Error"@
    }
}

/// The head of an answer with a body of the given length.
pub open spec fn response_head_of(status: u16, body_len: nat) -> Seq<char> {
    "HTTP/1.1 "@ + text::decimal(status as nat) + " "@ + reason_of(status)
        + "\r\ncontent-type: application/json\r\ncache-control: no-store\r\ncontent-length: "@
        + text::decimal(body_len) + "\r\nconnection: close\r\n\r\n"@
}

fn reason(status: u16) -> (r: &'static str)
    ensures
        r@ == reason_of(status),
{
    if status == 200 {
        "OK"
    } else if status == 400 {
        "Bad Request"
    } else if status == 401 {
        "Unauthorized"
    } else if status == 404 {
        "Not Found"
    } else if status == 405 {
        "Method Not Allowed"
    } else {
        "Internal Server Error"
    }
}

pub fn response_head(status: u16, body_len: usize) -> (r: String)
    ensures
        r@ == response_head_of(status, body_len as nat),
{
    "HTTP/1.1 ".to_string().concat(text::decimal_text(status as u64).as_str()).concat(" ").concat(
        reason(status),
    ).concat(
        "\r\ncontent-type: application/json\r\ncache-control: no-store\r\ncontent-length: ",
    ).concat(text::decimal_text(body_len as u64).as_str()).concat("\r\nconnection: close\r\n\r\n")
}

// ---------------------------------------------------------------------------
// Reading requests

/// The largest number of bytes that are read at once.
pub const READ_CHUNK: usize = 1024;

/// Reads what may be a request from a connection, piece by piece.
pub struct CandidateReader {
    buffer: Vec<u8>,
    probing: bool,
}

/// What is to be done next.
pub enum ReadStep {
    /// Read at most so many bytes. While `probing`, the shorter deadline holds.
    Read { limit: usize, probing: bool },
    /// This is no request to the administration.
    NotAdmin,
    Request { request: InlineHttpRequest },
    Fail { error: InlineError },
}

pub enum ReadStepView {
    Read { limit: int, probing: bool },
    NotAdmin,
    Request { request: InlineHttpRequestView },
    Fail { error: InlineError },
}

impl View for ReadStep {
    type V = ReadStepView;

    open spec fn view(&self) -> ReadStepView {
        match self {
            ReadStep::Read { limit, probing } => ReadStepView::Read {
                limit: *limit as int,
                probing: *probing,
            },
            ReadStep::NotAdmin => ReadStepView::NotAdmin,
            ReadStep::Request { request } => ReadStepView::Request { request: request@ },
            ReadStep::Fail { error } => ReadStepView::Fail { error: *error },
        }
    }
}

/// More is read, as far as the limit allows.
pub open spec fn read_more_of(buffered: int, max_request_bytes: int, probing: bool) -> ReadStepView {
    if buffered < max_request_bytes {
        ReadStepView::Read {
            limit: if max_request_bytes - buffered < READ_CHUNK {
                max_request_bytes - buffered
            } else {
                READ_CHUNK as int
            },
            probing,
        }
    } else {
        ReadStepView::Fail { error: InlineError::TooLarge }
    }
}

/// The first line shows whether this is a request to the administration.
pub open spec fn is_admin_line(buffer: Seq<u8>, prefix: Seq<char>) -> bool {
    request_line(buffer) matches Some(line) && subpath(line.1, prefix) is Some
}

/// What comes while the first line is awaited; nothing once it has shown a
/// request to the administration.
pub open spec fn probe_step_of(buffer: Seq<u8>, config: AdminConfig) -> Option<ReadStepView> {
    if line_feed(buffer) < buffer.len() {
        if is_admin_line(buffer, config.inline_path_prefix@) {
            None
        } else {
            Some(ReadStepView::NotAdmin)
        }
    } else if may_be_request(buffer) {
        Some(read_more_of(buffer.len() as int, config.inline_max_request_bytes as int, true))
    } else {
        Some(ReadStepView::NotAdmin)
    }
}

/// What comes once the bytes so far were read as a request.
pub open spec fn request_step_of(
    parsed: Result<Option<InlineHttpRequestView>, InlineError>,
    buffered: int,
    max_request_bytes: int,
) -> ReadStepView {
    match parsed {
        Ok(Some(request)) => ReadStepView::Request { request },
        Ok(None) => read_more_of(buffered, max_request_bytes, false),
        Err(error) => ReadStepView::Fail { error },
    }
}

fn read_more(buffered: usize, max_request_bytes: usize, probing: bool) -> (r: ReadStep)
    ensures
        r@ == read_more_of(buffered as int, max_request_bytes as int, probing),
{
    if buffered < max_request_bytes {
        let remaining = max_request_bytes - buffered;
        let limit = if remaining < READ_CHUNK {
            remaining
        } else {
            READ_CHUNK
        };
        ReadStep::Read { limit, probing }
    } else {
        ReadStep::Fail { error: InlineError::TooLarge }
    }
}

pub fn probe_step(buffer: &[u8], config: &AdminConfig) -> (r: Option<ReadStep>)
    ensures
        match r {
            Some(step) => probe_step_of(buffer@, *config) == Some(step@),
            None => probe_step_of(buffer@, *config) is None,
        },
{
    if find_line_feed(buffer) < buffer.len() {
        match parse_request_line(buffer) {
            Some((_, target)) => {
                if admin_subpath(target.as_str(), config.inline_path_prefix.as_str()).is_some() {
                    None
                } else {
                    Some(ReadStep::NotAdmin)
                }
            },
            None => Some(ReadStep::NotAdmin),
        }
    } else if could_be_http_request(buffer) {
        Some(read_more(buffer.len(), config.inline_max_request_bytes, true))
    } else {
        Some(ReadStep::NotAdmin)
    }
}

pub fn request_step(
    parsed: Result<Option<InlineHttpRequest>, InlineError>,
    buffered: usize,
    max_request_bytes: usize,
) -> (r: ReadStep)
    ensures
        r@ == request_step_of(request_result(parsed), buffered as int, max_request_bytes as int),
{
    match parsed {
        Ok(Some(request)) => ReadStep::Request { request },
        Ok(None) => read_more(buffered, max_request_bytes, false),
        Err(error) => ReadStep::Fail { error },
    }
}

impl CandidateReader {
    pub closed spec fn spec_buffer(self) -> Seq<u8> {
        self.buffer@
    }

    pub closed spec fn spec_probing(self) -> bool {
        self.probing
    }

    pub fn new() -> (r: CandidateReader)
        ensures
            r.spec_buffer() == Seq::<u8>::empty(),
            r.spec_probing(),
    {
        CandidateReader { buffer: Vec::new(), probing: true }
    }

    /// Decides what comes next with the bytes that have come so far.
    pub fn next_step(&mut self, config: &AdminConfig) -> (r: ReadStep)
        ensures
            final(self).spec_buffer() == old(self).spec_buffer(),
            ({
                let buffer = old(self).spec_buffer();
                let probed = probe_step_of(buffer, *config);
                if old(self).spec_probing() && probed is Some {
                    r@ == probed->0 && final(self).spec_probing()
                } else {
                    r@ == request_step_of(
                        request_of(
                            head_of(buffer, MAX_INLINE_HEADERS as nat),
                            buffer,
                            config.inline_max_request_bytes as int,
                        ),
                        buffer.len() as int,
                        config.inline_max_request_bytes as int,
                    ) && !final(self).spec_probing()
                }
            }),
    {
        if self.probing {
            if let Some(step) = probe_step(self.buffer.as_slice(), config) {
                return step;
            }
            self.probing = false;
        }
        let parsed = parse_complete_request(
            self.buffer.as_slice(),
            config.inline_max_request_bytes,
        );
        request_step(parsed, self.buffer.len(), config.inline_max_request_bytes)
    }

    /// Takes note of bytes that were read.
    pub fn received(&mut self, bytes: &[u8])
        ensures
            final(self).spec_buffer() == old(self).spec_buffer() + bytes@,
            final(self).spec_probing() == old(self).spec_probing(),
    {
        let mut i: usize = 0;
        let ghost before = self.buffer@;
        assert(before + bytes@.take(0) =~= before);
        while i < bytes.len()
            invariant
                i <= bytes@.len(),
                self.buffer@ == before + bytes@.take(i as int),
                self.probing == old(self).probing,
            decreases bytes@.len() - i,
        {
            assert(before + bytes@.take(i + 1) =~= (before + bytes@.take(i as int)).push(
                bytes@[i as int],
            ));
            self.buffer.push(bytes[i]);
            i += 1;
        }
        assert(bytes@.take(i as int) =~= bytes@);
    }

    /// What comes of a connection that was closed by the other side.
    pub fn closed(&self) -> (r: ReadStep)
        ensures
            r@ == if self.spec_probing() {
                ReadStepView::NotAdmin
            } else {
                ReadStepView::Fail { error: InlineError::ClosedEarly }
            },
    {
        if self.probing {
            ReadStep::NotAdmin
        } else {
            ReadStep::Fail { error: InlineError::ClosedEarly }
        }
    }

    /// What comes of a connection on which nothing came in time. A client that
    /// has not shown a request waits for the banner like any other visitor.
    pub fn timed_out(&self) -> (r: ReadStep)
        ensures
            r@ == if self.spec_probing() {
                ReadStepView::NotAdmin
            } else {
                ReadStepView::Fail { error: InlineError::DeadlineExceeded }
            },
    {
        if self.probing {
            ReadStep::NotAdmin
        } else {
            ReadStep::Fail { error: InlineError::DeadlineExceeded }
        }
    }
}

// ---------------------------------------------------------------------------
// Laws

/// Only the configured password opens the list or releases a source: it was
/// shown as a bearer credential, in the body, or, where the legacy mode is on,
/// in the query.
pub proof fn law_only_the_password_opens(
    request: InlineHttpRequestView,
    config: AdminConfig,
    pairs: Option<Seq<(Seq<char>, Seq<char>)>>,
    body: Option<UnbanBodyView>,
)
    requires
        !(decision(request, config, pairs, body) is Answer),
    ensures
        ({
            ||| request_credentials(request.authorization) == Some(config.password@)
            ||| body matches Some(b) && b.password == Some(config.password@)
            ||| config.allow_legacy_get_password && legacy_password(pairs) == Some(
                config.password@,
            )
        }),
        subpath(request.target, config.inline_path_prefix@) is Some,
{
}

/// Without the legacy mode the query has no say: the decision is the same
/// whatever it holds, and no source is released by a `GET`.
pub proof fn law_queries_need_legacy_mode(
    request: InlineHttpRequestView,
    config: AdminConfig,
    a: Option<Seq<(Seq<char>, Seq<char>)>>,
    b: Option<Seq<(Seq<char>, Seq<char>)>>,
    body: Option<UnbanBodyView>,
)
    requires
        !config.allow_legacy_get_password,
    ensures
        decision(request, config, a, body) == decision(request, config, b, body),
        request.method == "GET"@ ==> !(decision(request, config, a, body) is Unban),
{
    reveal_strlit("GET");
    reveal_strlit("POST");
    assert("GET"@.len() != "POST"@.len());
}

/// A target below the prefix is found there, and one that merely begins like
/// it is not.
pub proof fn law_subpath_is_below_the_prefix(base: Seq<char>, rest: Seq<char>)
    requires
        !base.contains('?'),
        !rest.contains('?'),
        base.len() > 0,
        base.last() != '/',
        rest.len() > 0,
    ensures
        rest[0] == '/' ==> subpath(base + rest, base) == Some(rest),
        rest[0] != '/' ==> subpath(base + rest, base) is None,
{
    let target = base + rest;
    assert forall|i: int| 0 <= i < target.len() implies target[i] != '?' by {
        if i < base.len() {
            assert(base.contains(base[i]));
        } else {
            assert(rest.contains(rest[i - base.len()]));
        }
    }
    text::lemma_find_is(target, '?', target.len() as int);
    assert(path_of(target) =~= target);
    assert(text::without_trailing(base, '/') == base);
    assert(target.take(base.len() as int) =~= base);
    assert(target.skip(base.len() as int) =~= rest);
}

/// The number of header lines of a name.
pub open spec fn lines_named(headers: Seq<(Seq<char>, Seq<u8>)>, name: Seq<char>) -> nat
    decreases headers.len(),
{
    if headers.len() == 0 {
        0
    } else {
        lines_named(headers.drop_last(), name) + if same_name(headers.last().0, name) {
            1nat
        } else {
            0
        }
    }
}

/// Headers that could be read in two ways are refused: a repeated length or
/// authorization, and any transfer encoding. What is accepted was said once.
pub proof fn law_ambiguous_headers_are_refused(headers: Seq<(Seq<char>, Seq<u8>)>)
    requires
        framing(headers) is Ok,
    ensures
        lines_named(headers, "content-length"@) <= 1,
        lines_named(headers, "authorization"@) <= 1,
        lines_named(headers, "transfer-encoding"@) == 0,
        framing(headers)->Ok_0.content_length is Some <==> lines_named(
            headers,
            "content-length"@,
        ) == 1,
        framing(headers)->Ok_0.authorization is Some <==> lines_named(
            headers,
            "authorization"@,
        ) == 1,
    decreases headers.len(),
{
    if headers.len() > 0 {
        law_ambiguous_headers_are_refused(headers.drop_last());
        lemma_names_differ(headers.last().0);
    }
}

proof fn lemma_names_differ(name: Seq<char>)
    ensures
        !(same_name(name, "content-length"@) && same_name(name, "authorization"@)),
        !(same_name(name, "content-length"@) && same_name(name, "transfer-encoding"@)),
        !(same_name(name, "authorization"@) && same_name(name, "transfer-encoding"@)),
{
    reveal_strlit("content-length");
    reveal_strlit("transfer-encoding");
    reveal_strlit("authorization");
    assert(text::lower("content-length"@).len() == 14);
    assert(text::lower("transfer-encoding"@).len() == 17);
    assert(text::lower("authorization"@).len() == 13);
}

/// A request that is accepted fits the limit, and its body is as long as its
/// headers say: not a byte of what follows is taken for it.
pub proof fn law_request_is_bounded(head: HeadView, buffer: Seq<u8>, max_request_bytes: int)
    requires
        request_of(head, buffer, max_request_bytes) matches Ok(Some(_)),
    ensures
        head is Complete,
        framing(head->headers) is Ok,
        ({
            let request = request_of(head, buffer, max_request_bytes)->Ok_0->0;
            let announced = content_length_or_zero(framing(head->headers)->Ok_0);
            &&& request.body.len() == announced
            &&& head->length + announced <= max_request_bytes
            &&& head->length + announced <= buffer.len()
        }),
{
    lemma_content_length(head->headers);
}

/// Once a request or an error has been found, the bytes that come after it
/// change nothing of it.
pub proof fn law_later_bytes_change_nothing(
    head: HeadView,
    buffer: Seq<u8>,
    more: Seq<u8>,
    max_request_bytes: int,
)
    requires
        request_of(head, buffer, max_request_bytes) != Ok::<
            Option<InlineHttpRequestView>,
            InlineError,
        >(None),
    ensures
        request_of(head, buffer + more, max_request_bytes) == request_of(
            head,
            buffer,
            max_request_bytes,
        ),
{
    if request_of(head, buffer, max_request_bytes) is Ok {
        law_request_is_bounded(head, buffer, max_request_bytes);
        let length = head->length as int;
        let full = length + content_length_or_zero(framing(head->headers)->Ok_0);
        lemma_content_length(head->headers);
        assert((buffer + more).subrange(length, full) =~= buffer.subrange(length, full));
    }
}

proof fn lemma_content_length(headers: Seq<(Seq<char>, Seq<u8>)>)
    ensures
        framing(headers) matches Ok(f) ==> content_length_or_zero(f) >= 0,
    decreases headers.len(),
{
    if headers.len() > 0 {
        lemma_content_length(headers.drop_last());
        let value = text::trimmed(vstd::utf8::decode_utf8(headers.last().1));
        let digits = text::strip_plus(value);
        if text::is_digits(digits) {
            text::lemma_digits_value_bounds(digits);
        }
    }
}

/// What is read never exceeds the limit: a step asks for no more than is left,
/// and asks for nothing when nothing is left.
pub proof fn law_reading_is_bounded(buffered: int, max_request_bytes: int, probing: bool)
    requires
        0 <= buffered <= max_request_bytes,
    ensures
        match read_more_of(buffered, max_request_bytes, probing) {
            ReadStepView::Read { limit, .. } => 0 < limit <= READ_CHUNK && buffered + limit
                <= max_request_bytes,
            ReadStepView::Fail { error } => error == InlineError::TooLarge && buffered
                == max_request_bytes,
            _ => false,
        },
{
}

/// More bytes never turn what cannot be a request into one, so traffic of
/// another kind is let go at once.
pub proof fn law_other_traffic_is_recognised(buffer: Seq<u8>, more: Seq<u8>)
    requires
        !may_be_request(buffer),
    ensures
        !may_be_request(buffer + more),
{
    let all = method_prefixes();
    if may_be_request(buffer + more) {
        let whole = buffer + more;
        let i = choose|i: int| 0 <= i < all.len() && compatible(#[trigger] all[i], whole);
        let p = all[i];
        if p.is_prefix_of(whole) {
            if p.len() <= buffer.len() {
                assert(buffer.take(p.len() as int) =~= whole.take(p.len() as int));
                assert(p.is_prefix_of(buffer));
            } else {
                assert(p.take(buffer.len() as int) =~= buffer) by {
                    assert(p == whole.take(p.len() as int));
                }
                assert(buffer.is_prefix_of(p));
            }
        } else {
            assert(p.take(buffer.len() as int) =~= buffer) by {
                assert(whole == p.take(whole.len() as int));
            }
            assert(buffer.is_prefix_of(p));
        }
        assert(compatible(all[i], buffer));
    }
}

/// What a request below the prefix comes to. The health of the service is told
/// to everyone. The list is shown, and a source released, to whoever shows the
/// password that is configured; anyone else is refused. A release needs a body
/// that can be read or, by a `GET`, the legacy mode and a query that can be
/// read. There is nothing else.
pub proof fn law_requests_are_answered(
    request: InlineHttpRequestView,
    config: AdminConfig,
    pairs: Option<Seq<(Seq<char>, Seq<char>)>>,
    body: Option<UnbanBodyView>,
    path: Seq<char>,
)
    requires
        subpath(request.target, config.inline_path_prefix@) == Some(path),
    ensures
        ({
            let d = decision(request, config, pairs, body);
            let says = |status: u16, ok: bool, message: Seq<char>|
                DecisionView::Answer { reply: MessageReplyView { status, ok, message } };
            let refused = says(401, false, "invalid credentials"@);
            let header = match request.authorization {
                Some(value) => admin::bearer(value),
                None => None,
            };
            let legacy = config.allow_legacy_get_password;
            let password = config.password@;
            let get = request.method == "GET"@;
            let post = request.method == "POST"@;
            &&& get && path == "/health"@ ==> d == says(200, true, "ok"@)
            &&& get && path == "/banned"@ ==> d == if header == Some(password) || header is None
                && legacy && legacy_password(pairs) == Some(password) {
                DecisionView::ListBanned
            } else {
                refused
            }
            &&& post && path == "/unban"@ ==> d == match body {
                None => says(400, false, "invalid json"@),
                Some(b) => if header == Some(password) || header is None && b.password == Some(
                    password,
                ) {
                    DecisionView::Unban { ip: b.ip }
                } else {
                    refused
                },
            }
            &&& get && path == "/unban"@ && !legacy ==> d == says(405, false, "use POST /unban"@)
            &&& get && path == "/unban"@ && legacy ==> d == match legacy_unban(pairs) {
                None => says(400, false, "invalid query"@),
                Some((ip, shown)) => if shown == password {
                    DecisionView::Unban { ip }
                } else {
                    refused
                },
            }
            &&& !(get && (path == "/health"@ || path == "/banned"@ || path == "/unban"@)) && !(post
                && path == "/unban"@) ==> d == says(404, false, "not found"@)
        }),
{
    reveal_strlit("GET");
    reveal_strlit("POST");
    reveal_strlit("/health");
    reveal_strlit("/banned");
    reveal_strlit("/unban");
    assert("GET"@.len() == 3 && "POST"@.len() == 4);
    assert("/health"@[1] == 'h' && "/banned"@[1] == 'b' && "/unban"@[1] == 'u');
}

/// A target outside of the prefix is answered as if nothing were there.
pub proof fn law_nothing_is_outside_of_the_prefix(
    request: InlineHttpRequestView,
    config: AdminConfig,
    pairs: Option<Seq<(Seq<char>, Seq<char>)>>,
    body: Option<UnbanBodyView>,
)
    requires
        subpath(request.target, config.inline_path_prefix@) is None,
    ensures
        decision(request, config, pairs, body) == (DecisionView::Answer {
            reply: MessageReplyView { status: 404, ok: false, message: "not found"@ },
        }),
{
}

/// The path of a target ends at the first question mark, and the query is all
/// that follows it.
pub proof fn law_target_has_a_path_and_a_query(path: Seq<char>, query: Seq<char>)
    requires
        !path.contains('?'),
    ensures
        path_of(path + seq!['?'] + query) == path,
        query_of(path + seq!['?'] + query) == query,
        path_of(path) == path,
        query_of(path) == Seq::<char>::empty(),
{
    let target = path + seq!['?'] + query;
    let n = path.len() as int;
    assert forall|i: int| 0 <= i < n implies target[i] != '?' && path[i] != '?' by {
        assert(path.contains(path[i]));
    }
    assert(target[n] == '?');
    text::lemma_find_is(target, '?', n);
    text::lemma_find_is(path, '?', n);
    assert(target.contains(target[n]));
    assert(target.take(n) =~= path);
    assert(target.skip(n + 1) =~= query);
    assert(path.take(n) =~= path);
}

/// Slashes at the end of the prefix make no difference, nor does a query. The
/// prefix itself is the root below it. What does not begin with the prefix is
/// not below it.
pub proof fn law_prefix_is_a_directory(
    base: Seq<char>,
    slashes: nat,
    path: Seq<char>,
    query: Seq<char>,
)
    requires
        !path.contains('?'),
        base.len() > 0,
        base.last() != '/',
    ensures
        ({
            let prefix = base + Seq::new(slashes, |i: int| '/');
            &&& subpath(path, prefix) == subpath(path, base)
            &&& subpath(path + seq!['?'] + query, prefix) == subpath(path, base)
            &&& path == base ==> subpath(path, prefix) == Some(seq!['/'])
            &&& !base.is_prefix_of(path) ==> subpath(path, prefix) is None
        }),
{
    let prefix = base + Seq::new(slashes, |i: int| '/');
    law_target_has_a_path_and_a_query(path, query);
    let k = text::law_trailing_characters_are_dropped(prefix, '/');
    let n = base.len() as int;
    assert(prefix[n - 1] == base.last());
    assert(k == n) by {
        if k < n {
            assert(prefix[n - 1] == '/');
        }
        if k > n {
            assert(prefix[k - 1] == '/');
        }
    }
    assert(prefix.take(n) =~= base);
    assert(text::without_trailing(base, '/') == base);
}

/// A field of a query is the value of its name where the name stands once.
pub proof fn law_fields_stand_once(pairs: Seq<(Seq<char>, Seq<char>)>, name: Seq<char>)
    ensures
        field(pairs, name) matches Some(v) ==> exists|i: int|
            0 <= i < pairs.len() && #[trigger] pairs[i] == (name, v) && forall|j: int|
                0 <= j < pairs.len() && j != i ==> (#[trigger] pairs[j]).0 != name,
        forall|i: int|
            0 <= i < pairs.len() && (#[trigger] pairs[i]).0 == name && (forall|j: int|
                0 <= j < pairs.len() && j != i ==> (#[trigger] pairs[j]).0 != name) ==> field(
                pairs,
                name,
            ) == Some(pairs[i].1),
{
    lemma_values_of(pairs, name);
    if values_of(pairs, name).len() == 1 {
        lemma_one_value(pairs, name);
    }
    assert forall|i: int|
        0 <= i < pairs.len() && (#[trigger] pairs[i]).0 == name && (forall|j: int|
            0 <= j < pairs.len() && j != i ==> (#[trigger] pairs[j]).0 != name) implies field(
        pairs,
        name,
    ) == Some(pairs[i].1) by {
        lemma_only_value(pairs, name, i);
    }
}

proof fn lemma_values_of(pairs: Seq<(Seq<char>, Seq<char>)>, name: Seq<char>)
    ensures
        values_of(pairs, name).len() == 0 <==> forall|j: int|
            0 <= j < pairs.len() ==> (#[trigger] pairs[j]).0 != name,
    decreases pairs.len(),
{
    if pairs.len() > 0 {
        let rest = pairs.drop_last();
        lemma_values_of(rest, name);
        if pairs.last().0 != name {
            assert forall|j: int|
                0 <= j < pairs.len() && (forall|i: int|
                    0 <= i < rest.len() ==> (#[trigger] rest[i]).0 != name) implies (
            #[trigger] pairs[j]).0 != name by {
                if j < rest.len() {
                    assert(rest[j].0 != name);
                }
            }
            if forall|j: int| 0 <= j < pairs.len() ==> (#[trigger] pairs[j]).0 != name {
                assert forall|j: int| 0 <= j < rest.len() implies (#[trigger] rest[j]).0
                    != name by {
                    assert(pairs[j].0 != name);
                }
            }
        } else {
            assert(pairs[pairs.len() - 1].0 == name);
        }
    }
}

proof fn lemma_one_value(pairs: Seq<(Seq<char>, Seq<char>)>, name: Seq<char>) -> (i: int)
    requires
        values_of(pairs, name).len() == 1,
    ensures
        0 <= i < pairs.len(),
        pairs[i] == (name, values_of(pairs, name)[0]),
        forall|j: int| 0 <= j < pairs.len() && j != i ==> (#[trigger] pairs[j]).0 != name,
    decreases pairs.len(),
{
    let rest = pairs.drop_last();
    let n = pairs.len() - 1;
    if pairs.last().0 == name {
        lemma_values_of(rest, name);
        assert forall|j: int| 0 <= j < pairs.len() && j != n implies (#[trigger] pairs[j]).0
            != name by {
            assert(rest[j].0 != name);
        }
        n
    } else {
        let i = lemma_one_value(rest, name);
        assert forall|j: int| 0 <= j < pairs.len() && j != i implies (#[trigger] pairs[j]).0
            != name by {
            if j < n {
                assert(rest[j].0 != name);
            }
        }
        i
    }
}

proof fn lemma_only_value(pairs: Seq<(Seq<char>, Seq<char>)>, name: Seq<char>, i: int)
    requires
        0 <= i < pairs.len(),
        pairs[i].0 == name,
        forall|j: int| 0 <= j < pairs.len() && j != i ==> (#[trigger] pairs[j]).0 != name,
    ensures
        values_of(pairs, name) == seq![pairs[i].1],
    decreases pairs.len(),
{
    let rest = pairs.drop_last();
    if i == pairs.len() - 1 {
        assert forall|j: int| 0 <= j < rest.len() implies (#[trigger] rest[j]).0 != name by {
            assert(pairs[j].0 != name);
        }
        lemma_values_of(rest, name);
        assert(values_of(pairs, name) =~= seq![pairs[i].1]);
    } else {
        assert(pairs[pairs.len() - 1].0 != name);
        assert forall|j: int| 0 <= j < rest.len() && j != i implies (#[trigger] rest[j]).0
            != name by {
            assert(pairs[j].0 != name);
        }
        lemma_only_value(rest, name, i);
    }
}

/// A query that asks for a release names the source and shows the password,
/// each once; the source is an address.
pub proof fn law_query_for_a_release(pairs: Seq<(Seq<char>, Seq<char>)>)
    ensures
        legacy_unban(None) is None,
        legacy_password(None) is None,
        legacy_password(Some(pairs)) == field(pairs, "password"@),
        match legacy_unban(Some(pairs)) {
            Some((ip, password)) => field(pairs, "password"@) == Some(password) && (field(
                pairs,
                "ip"@,
            ) matches Some(text) && addr::ip_of(text) == Some(ip)),
            None => field(pairs, "password"@) is None || field(pairs, "ip"@) is None || addr::ip_of(
                field(pairs, "ip"@)->0,
            ) is None,
        },
{
}

/// The head of an answer: the status with its reason, that the body is JSON of
/// the length it has, that it is not to be kept, and that the connection ends
/// with it.
pub proof fn law_heads_of_answers(status: u16, body_len: nat)
    ensures
        response_head_of(status, body_len) == "HTTP/1.1 "@ + text::decimal(status as nat) + " "@
            + match status {
            200u16 => "OK"@,
            400u16 => "Bad Request"@,
            401u16 => "Unauthorized"@,
            404u16 => "Not Found"@,
            405u16 => "Method Not Allowed"@,
            _ => "Internal Server Error"@,
        } + "\r\ncontent-type: application/json\r\ncache-control: no-store\r\ncontent-length: "@
            + text::decimal(body_len) + "\r\nconnection: close\r\n\r\n"@,
{
}

/// What a header line adds, under its name in whatever case. A length is a
/// number that was not given before; an authorization is text that was not
/// given before, without the white space around it; a transfer encoding is
/// refused; every other line is passed over.
pub proof fn law_header_lines_are_read(known: FramingView, name: Seq<char>, value: Seq<u8>)
    ensures
        ({
            let r = with_header(known, (name, value));
            let small = text::lower(name);
            let shown = text::trimmed(vstd::utf8::decode_utf8(value));
            let readable = vstd::utf8::valid_utf8(value);
            let number = text::unsigned_number(shown, usize::MAX as int);
            &&& small == "content-length"@ ==> r == if known.content_length is Some {
                Err(InlineError::DuplicateContentLength)
            } else if !readable {
                Err(InlineError::ContentLengthNotText)
            } else if number is None {
                Err(InlineError::InvalidContentLength)
            } else {
                Ok(FramingView { content_length: number, authorization: known.authorization })
            }
            &&& small == "transfer-encoding"@ ==> r == Err::<FramingView, _>(
                InlineError::TransferEncoding,
            )
            &&& small == "authorization"@ ==> r == if known.authorization is Some {
                Err(InlineError::DuplicateAuthorization)
            } else if !readable {
                Err(InlineError::AuthorizationNotText)
            } else {
                Ok(
                    FramingView {
                        content_length: known.content_length,
                        authorization: Some(shown),
                    },
                )
            }
            &&& small != "content-length"@ && small != "transfer-encoding"@ && small
                != "authorization"@ ==> r == Ok::<_, InlineError>(known)
        }),
{
    lemma_small_names();
    lemma_names_differ(name);
}

proof fn lemma_small_names()
    ensures
        text::lower("content-length"@) == "content-length"@,
        text::lower("transfer-encoding"@) == "transfer-encoding"@,
        text::lower("authorization"@) == "authorization"@,
{
    reveal_strlit("content-length");
    reveal_strlit("transfer-encoding");
    reveal_strlit("authorization");
    assert(text::lower("content-length"@) =~= "content-length"@);
    assert(text::lower("transfer-encoding"@) =~= "transfer-encoding"@);
    assert(text::lower("authorization"@) =~= "authorization"@);
}

/// The lines of a head are read one after the other from the first, and the
/// first that is refused decides.
pub proof fn law_headers_are_read_in_order(
    headers: Seq<(Seq<char>, Seq<u8>)>,
    header: (Seq<char>, Seq<u8>),
)
    ensures
        framing(Seq::empty()) == Ok::<_, InlineError>(
            FramingView { content_length: None, authorization: None },
        ),
        framing(headers.push(header)) == match framing(headers) {
            Ok(known) => with_header(known, header),
            Err(e) => Err(e),
        },
{
    assert(headers.push(header).drop_last() =~= headers);
}

/// A head that was found complete makes a request once the body that it
/// announces has come: the method in capitals, the target and the credentials
/// as they were sent, and the bytes behind the head. It waits as long as bytes
/// are missing, and is refused as soon as it is known to be too long.
pub proof fn law_requests_are_read(
    length: nat,
    method: Seq<char>,
    target: Seq<char>,
    headers: Seq<(Seq<char>, Seq<u8>)>,
    buffer: Seq<u8>,
    max_request_bytes: int,
)
    requires
        framing(headers) is Ok,
        max_request_bytes <= usize::MAX,
    ensures
        ({
            let head = HeadView::Complete {
                length,
                method: Some(method),
                target: Some(target),
                headers,
            };
            let said = framing(headers)->Ok_0;
            let announced = match said.content_length {
                Some(n) => n,
                None => 0int,
            };
            let r = request_of(head, buffer, max_request_bytes);
            &&& length + announced > usize::MAX ==> r == Err::<Option<InlineHttpRequestView>, _>(
                InlineError::LengthOverflow,
            )
            &&& max_request_bytes < length + announced <= usize::MAX ==> r == Err::<
                Option<InlineHttpRequestView>,
                _,
            >(InlineError::TooLarge)
            &&& length + announced <= max_request_bytes && buffer.len() < length + announced ==> r
                == Ok::<Option<InlineHttpRequestView>, InlineError>(None)
            &&& length + announced <= max_request_bytes && buffer.len() >= length + announced ==> {
                &&& r matches Ok(Some(request))
                &&& request.method == text::upper(method)
                &&& request.target == target
                &&& request.authorization == said.authorization
                &&& request.body.len() == announced
                &&& forall|i: int|
                    0 <= i < announced ==> #[trigger] request.body[i] == buffer[length + i]
            }
        }),
        request_of(
            HeadView::Complete { length, method: None, target: Some(target), headers },
            buffer,
            max_request_bytes,
        ) == Err::<Option<InlineHttpRequestView>, _>(InlineError::MethodMissing),
        request_of(
            HeadView::Complete { length, method: Some(method), target: None, headers },
            buffer,
            max_request_bytes,
        ) == Err::<Option<InlineHttpRequestView>, _>(InlineError::TargetMissing),
        request_of(HeadView::Invalid, buffer, max_request_bytes) == Err::<
            Option<InlineHttpRequestView>,
            _,
        >(InlineError::InvalidRequest),
        request_of(HeadView::Partial, buffer, max_request_bytes) == Ok::<
            Option<InlineHttpRequestView>,
            InlineError,
        >(None),
{
    lemma_content_length(headers);
}

/// While the first line is not complete, the bytes are read on as long as they
/// are the beginning of `GET `, `POST `, `HEAD `, `PUT ` or `DELETE `, or begin
/// with one of these.
pub proof fn law_beginnings_of_requests(buffer: Seq<u8>)
    ensures
        ({
            let fits = |method: Seq<u8>|
                forall|i: int|
                    0 <= i < method.len() && 0 <= i < buffer.len() ==> #[trigger] buffer[i]
                        == method[i];
            may_be_request(buffer) <==> fits(seq![0x47u8, 0x45, 0x54, 0x20]) || fits(
                seq![0x50u8, 0x4f, 0x53, 0x54, 0x20],
            ) || fits(seq![0x48u8, 0x45, 0x41, 0x44, 0x20]) || fits(
                seq![0x50u8, 0x55, 0x54, 0x20],
            ) || fits(seq![0x44u8, 0x45, 0x4c, 0x45, 0x54, 0x45, 0x20])
        }),
{
    let all = method_prefixes();
    lemma_compatible(all[0], buffer);
    lemma_compatible(all[1], buffer);
    lemma_compatible(all[2], buffer);
    lemma_compatible(all[3], buffer);
    lemma_compatible(all[4], buffer);
    assert(all[0] == seq![0x47u8, 0x45, 0x54, 0x20]);
    assert(all[1] == seq![0x50u8, 0x4f, 0x53, 0x54, 0x20]);
    assert(all[2] == seq![0x48u8, 0x45, 0x41, 0x44, 0x20]);
    assert(all[3] == seq![0x50u8, 0x55, 0x54, 0x20]);
    assert(all[4] == seq![0x44u8, 0x45, 0x4c, 0x45, 0x54, 0x45, 0x20]);
}

proof fn lemma_compatible(method: Seq<u8>, buffer: Seq<u8>)
    ensures
        compatible(method, buffer) <==> forall|i: int|
            0 <= i < method.len() && 0 <= i < buffer.len() ==> #[trigger] buffer[i] == method[i],
{
    if forall|i: int|
        0 <= i < method.len() && 0 <= i < buffer.len() ==> #[trigger] buffer[i] == method[i] {
        if method.len() <= buffer.len() {
            assert(buffer.take(method.len() as int) =~= method);
        } else {
            assert(method.take(buffer.len() as int) =~= buffer);
        }
    }
    if method.is_prefix_of(buffer) {
        assert forall|i: int|
            0 <= i < method.len() && 0 <= i < buffer.len() implies #[trigger] buffer[i]
            == method[i] by {
            assert(buffer.take(method.len() as int)[i] == method[i]);
        }
    }
    if buffer.is_prefix_of(method) {
        assert forall|i: int|
            0 <= i < method.len() && 0 <= i < buffer.len() implies #[trigger] buffer[i]
            == method[i] by {
            assert(method.take(buffer.len() as int)[i] == buffer[i]);
        }
    }
}

/// How reading goes on before the first line is known: a complete line shows
/// whether the administration is asked for; without one, what cannot be a
/// request is let go, and what can be is read on, by at most 1024 bytes at a
/// time and never beyond the limit.
pub proof fn law_first_line_decides(buffer: Seq<u8>, config: AdminConfig)
    ensures
        ({
            let step = probe_step_of(buffer, config);
            let most = config.inline_max_request_bytes as int;
            let n = buffer.len() as int;
            let asked = request_line(buffer) matches Some(line) && subpath(
                line.1,
                config.inline_path_prefix@,
            ) is Some;
            &&& buffer.contains(10u8) ==> step == if asked {
                None
            } else {
                Some(ReadStepView::NotAdmin)
            }
            &&& !buffer.contains(10u8) && !may_be_request(buffer) ==> step == Some(
                ReadStepView::NotAdmin,
            )
            &&& !buffer.contains(10u8) && may_be_request(buffer) ==> step == Some(
                if n >= most {
                    ReadStepView::Fail { error: InlineError::TooLarge }
                } else if most - n < 1024 {
                    ReadStepView::Read { limit: most - n, probing: true }
                } else {
                    ReadStepView::Read { limit: 1024, probing: true }
                },
            )
        }),
{
    lemma_line_feed(buffer);
}

proof fn lemma_line_feed(buffer: Seq<u8>)
    ensures
        line_feed(buffer) <= buffer.len(),
        line_feed(buffer) < buffer.len() <==> buffer.contains(10u8),
        forall|i: int| 0 <= i < line_feed(buffer) ==> buffer[i] != 10u8,
        line_feed(buffer) < buffer.len() ==> buffer[line_feed(buffer) as int] == 10u8,
    decreases buffer.len(),
{
    if buffer.len() > 0 && buffer[0] != 10u8 {
        let rest = buffer.drop_first();
        lemma_line_feed(rest);
        assert forall|i: int| 0 <= i < line_feed(buffer) implies buffer[i] != 10u8 by {
            if i > 0 {
                assert(buffer[i] == rest[i - 1]);
            }
        }
        if buffer.contains(10u8) {
            let i = choose|i: int| 0 <= i < buffer.len() && buffer[i] == 10u8;
            assert(rest[i - 1] == 10u8);
        }
    }
}

/// Once the administration is known to be asked for, a request that was read is
/// handed on, an error ends it, and missing bytes are read, by at most 1024 at
/// a time and never beyond the limit.
pub proof fn law_request_is_awaited(
    request: InlineHttpRequestView,
    error: InlineError,
    buffered: int,
    max_request_bytes: int,
)
    ensures
        request_step_of(Ok(Some(request)), buffered, max_request_bytes) == (ReadStepView::Request {
            request,
        }),
        request_step_of(Err(error), buffered, max_request_bytes) == (ReadStepView::Fail { error }),
        request_step_of(Ok(None), buffered, max_request_bytes) == if buffered
            >= max_request_bytes {
            ReadStepView::Fail { error: InlineError::TooLarge }
        } else if max_request_bytes - buffered < 1024 {
            ReadStepView::Read { limit: max_request_bytes - buffered, probing: false }
        } else {
            ReadStepView::Read { limit: 1024, probing: false }
        },
{
}

proof fn lemma_first_word(word: Seq<char>, rest: Seq<char>)
    requires
        forall|i: int| 0 <= i < word.len() ==> !text::white_space(#[trigger] word[i]),
        rest.len() == 0 || text::white_space(rest[0]),
    ensures
        text::first_word(word + rest) == word,
    decreases word.len(),
{
    let s = word + rest;
    if word.len() == 0 {
        assert(s =~= rest);
        assert(text::first_word(s) =~= word);
    } else {
        assert(s[0] == word[0]);
        let less = word.drop_first();
        assert forall|i: int| 0 <= i < less.len() implies !text::white_space(#[trigger] less[i]) by {
            assert(less[i] == word[i + 1]);
        }
        lemma_first_word(less, rest);
        assert(s.drop_first() =~= less + rest);
        assert(text::first_word(s) =~= word);
    }
}

proof fn lemma_trim_gap(gap: Seq<char>, rest: Seq<char>)
    requires
        forall|i: int| 0 <= i < gap.len() ==> text::white_space(#[trigger] gap[i]),
        rest.len() == 0 || !text::white_space(rest[0]),
    ensures
        text::trim_start(gap + rest) == rest,
    decreases gap.len(),
{
    let s = gap + rest;
    if gap.len() == 0 {
        assert(s =~= rest);
    } else {
        assert(s[0] == gap[0]);
        let less = gap.drop_first();
        assert forall|i: int| 0 <= i < less.len() implies text::white_space(#[trigger] less[i]) by {
            assert(less[i] == gap[i + 1]);
        }
        lemma_trim_gap(less, rest);
        assert(s.drop_first() =~= less + rest);
    }
}

/// The first line of a request is a method and a target with white space
/// between them, and whatever follows behind more white space. The method is
/// one of five, in whatever case.
pub proof fn law_request_lines_are_read(
    buffer: Seq<u8>,
    end: int,
    method: Seq<char>,
    gap: Seq<char>,
    target: Seq<char>,
    rest: Seq<char>,
)
    requires
        0 <= end < buffer.len(),
        buffer[end] == 10u8,
        forall|i: int| 0 <= i < end ==> buffer[i] != 10u8,
        vstd::utf8::valid_utf8(buffer.take(end)),
        text::trimmed(vstd::utf8::decode_utf8(buffer.take(end))) == method + (gap + (target
            + rest)),
        forall|i: int| 0 <= i < method.len() ==> !text::white_space(#[trigger] method[i]),
        forall|i: int| 0 <= i < gap.len() ==> text::white_space(#[trigger] gap[i]),
        forall|i: int| 0 <= i < target.len() ==> !text::white_space(#[trigger] target[i]),
        gap.len() > 0,
        target.len() > 0,
        rest.len() == 0 || text::white_space(rest[0]),
    ensures
        ({
            let m = text::upper(method);
            request_line(buffer) == if m == "GET"@ || m == "POST"@ || m == "HEAD"@ || m == "PUT"@
                || m == "DELETE"@ {
                Some((m, target))
            } else {
                None
            }
        }),
{
    lemma_line_feed_is(buffer, end);
    let line = method + (gap + (target + rest));
    lemma_first_word(method, gap + (target + rest));
    assert((gap + (target + rest))[0] == gap[0]);
    assert(line.skip(method.len() as int) =~= gap + (target + rest));
    assert((target + rest)[0] == target[0]);
    lemma_trim_gap(gap, target + rest);
    lemma_first_word(target, rest);
}

/// What is no complete line of text, or has no target, is no line of a request.
pub proof fn law_other_lines_are_no_requests(buffer: Seq<u8>)
    ensures
        !buffer.contains(10u8) ==> request_line(buffer) is None,
        buffer.contains(10u8) && !vstd::utf8::valid_utf8(buffer.take(line_feed(buffer) as int))
            ==> request_line(buffer) is None,
        request_line(buffer) matches Some(line) ==> line.1.len() > 0 && (line.0 == "GET"@ || line.0
            == "POST"@ || line.0 == "HEAD"@ || line.0 == "PUT"@ || line.0 == "DELETE"@),
{
    lemma_line_feed(buffer);
}

/// Headers that are refused refuse the request, however little of it has come.
pub proof fn law_refused_headers_refuse_the_request(
    length: nat,
    method: Seq<char>,
    target: Seq<char>,
    headers: Seq<(Seq<char>, Seq<u8>)>,
    buffer: Seq<u8>,
    max_request_bytes: int,
    error: InlineError,
)
    requires
        framing(headers) == Err::<FramingView, _>(error),
    ensures
        request_of(
            HeadView::Complete { length, method: Some(method), target: Some(target), headers },
            buffer,
            max_request_bytes,
        ) == Err::<Option<InlineHttpRequestView>, _>(error),
{
}

/// What is told of a request that is not answered.
pub proof fn law_refused_requests_are_told(error: InlineError)
    ensures
        error.message() == match error {
            InlineError::InvalidRequest => "invalid inline admin HTTP request"@,
            InlineError::MethodMissing => "inline admin HTTP method missing"@,
            InlineError::TargetMissing => "inline admin HTTP target missing"@,
            InlineError::DuplicateContentLength => "duplicate content-length header"@,
            InlineError::ContentLengthNotText => "content-length header was not valid ASCII"@,
            InlineError::InvalidContentLength => "invalid content-length header"@,
            InlineError::TransferEncoding => "transfer-encoding is not supported by inline admin"@,
            InlineError::DuplicateAuthorization => "duplicate authorization header"@,
            InlineError::AuthorizationNotText => "authorization header was not valid UTF-8"@,
            InlineError::LengthOverflow => "inline admin request length overflow"@,
            InlineError::TooLarge => "inline admin request exceeded configured size limit"@,
            InlineError::DeadlineExceeded => "inline admin request deadline exceeded"@,
            InlineError::ClosedEarly => "inline admin connection closed before the request completed"@,
        },
{
}

} // verus!
