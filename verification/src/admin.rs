//! Access to the administration and its answers.

use vstd::prelude::*;

use crate::addr::IpAddr;
use crate::ban::UnbanOutcome;
use crate::store;
use crate::store::{BanRecord, BanRecordView};
use crate::text;

verus! {

// ---------------------------------------------------------------------------
// Passwords

/// Compares two passwords byte by byte to the end, wherever they first differ.
pub fn password_matches(provided: &str, expected: &str) -> (r: bool)
    ensures
        r == (provided@ == expected@),
{
    let left = provided.as_bytes();
    let right = expected.as_bytes();
    let max_len = if left.len() > right.len() {
        left.len()
    } else {
        right.len()
    };
    let mut diff: usize = left.len() ^ right.len();
    let a: usize = left.len();
    let b: usize = right.len();
    assert((a ^ b == 0) == (a == b)) by (bit_vector);
    let mut i: usize = 0;
    while i < max_len
        invariant
            i <= max_len,
            left@.len() <= max_len,
            right@.len() <= max_len,
            (diff == 0) == (left@.len() == right@.len() && forall|k: int|
                0 <= k < i ==> byte_at(left@, k) == byte_at(right@, k)),
        decreases max_len - i,
    {
        let x: u8 = if i < left.len() {
            left[i]
        } else {
            0
        };
        let y: u8 = if i < right.len() {
            right[i]
        } else {
            0
        };
        assert(x == byte_at(left@, i as int));
        assert(y == byte_at(right@, i as int));
        let d: usize = (x ^ y) as usize;
        let before: usize = diff;
        assert((x ^ y == 0) == (x == y)) by (bit_vector);
        assert((before | d == 0) == (before == 0 && d == 0)) by (bit_vector);
        diff = diff | d;
        i += 1;
    }
    proof {
        vstd::utf8::encode_utf8_decode_utf8(provided@);
        vstd::utf8::encode_utf8_decode_utf8(expected@);
        if diff == 0 {
            assert forall|k: int| 0 <= k < left@.len() implies left@[k] == right@[k] by {
                assert(byte_at(left@, k) == byte_at(right@, k));
            }
            assert(left@ =~= right@);
        }
    }
    diff == 0
}

/// The byte at a position, or zero behind the end.
spec fn byte_at(s: Seq<u8>, i: int) -> u8 {
    if 0 <= i < s.len() {
        s[i]
    } else {
        0
    }
}

/// The credentials of the value of an authorization header: what stands behind
/// the scheme `Bearer`, in whatever case, and one space.
pub open spec fn bearer(value: Seq<char>) -> Option<Seq<char>> {
    let space = text::find(value, ' ') as int;
    if space < value.len() && text::lower(value.take(space)) == "bearer"@ && space + 1
        < value.len() {
        Some(value.skip(space + 1))
    } else {
        None
    }
}

pub open spec fn string_view(s: Option<String>) -> Option<Seq<char>> {
    match s {
        Some(t) => Some(t@),
        None => None,
    }
}

/// Reads the credentials of the value of an authorization header.
pub fn bearer_credentials(value: &str) -> (r: Option<String>)
    ensures
        string_view(r) == bearer(value@),
{
    proof {
        text::lemma_find(value@, ' ');
        reveal_strlit("bearer");
        assert(text::lower("bearer"@) =~= "bearer"@);
    }
    match text::split_once(value, ' ') {
        Some((scheme, credentials)) => {
            if text::same_ignoring_case(scheme.as_str(), "bearer") && text::to_chars(
                credentials.as_str(),
            ).len() > 0 {
                Some(credentials)
            } else {
                None
            }
        },
        None => None,
    }
}

/// A byte that a header may show as text: a visible character, a space or a
/// tab.
pub open spec fn is_visible(b: u8) -> bool {
    32 <= b < 127 || b == 9
}

pub open spec fn visible(value: Seq<u8>) -> bool {
    forall|i: int| 0 <= i < value.len() ==> is_visible(#[trigger] value[i])
}

pub open spec fn as_text(value: Seq<u8>) -> Seq<char> {
    value.map_values(|b: u8| b as char)
}

/// The credentials of a request, by the values of its authorization headers.
/// Where there are several, none counts.
pub open spec fn request_bearer(values: Seq<Vec<u8>>) -> Option<Seq<char>> {
    if values.len() == 1 && visible(values[0]@) {
        bearer(as_text(values[0]@))
    } else {
        None
    }
}

fn visible_text(value: &Vec<u8>) -> (r: Option<String>)
    ensures
        match r {
            Some(s) => visible(value@) && s@ == as_text(value@),
            None => !visible(value@),
        },
{
    let mut s = String::new();
    let mut i: usize = 0;
    assert(s@ =~= as_text(value@.take(0)));
    while i < value.len()
        invariant
            i <= value@.len(),
            forall|k: int| 0 <= k < i ==> is_visible(#[trigger] value@[k]),
            s@ == as_text(value@.take(i as int)),
        decreases value@.len() - i,
    {
        let b = value[i];
        if !((32 <= b && b < 127) || b == 9) {
            assert(!is_visible(value@[i as int]));
            return None;
        }
        s.push(b as char);
        assert(as_text(value@.take(i + 1)) =~= as_text(value@.take(i as int)).push(b as char));
        i += 1;
    }
    assert(value@.take(i as int) =~= value@);
    Some(s)
}

/// Reads the credentials of a request from the values of its authorization
/// headers.
pub fn bearer_password(values: &Vec<Vec<u8>>) -> (r: Option<String>)
    ensures
        string_view(r) == request_bearer(values@),
{
    if values.len() != 1 {
        return None;
    }
    match visible_text(&values[0]) {
        Some(value) => bearer_credentials(value.as_str()),
        None => None,
    }
}

// ---------------------------------------------------------------------------
// Access

pub open spec fn or_else(a: Option<Seq<char>>, b: Option<Seq<char>>) -> Option<Seq<char>> {
    if a is Some {
        a
    } else {
        b
    }
}

/// The password that a request to release a source shows.
pub fn unban_password(bearer: Option<String>, body_password: Option<String>) -> (r: Option<String>)
    ensures
        string_view(r) == or_else(string_view(bearer), string_view(body_password)),
{
    match bearer {
        Some(p) => Some(p),
        None => body_password,
    }
}

pub open spec fn banned_list_access(
    bearer: Option<Seq<char>>,
    query_password: Option<Seq<char>>,
    allow_legacy_get_password: bool,
) -> Option<Seq<char>> {
    or_else(
        bearer,
        if allow_legacy_get_password {
            query_password
        } else {
            None
        },
    )
}

/// The password that a request for the list of banned sources shows. A
/// password in the query counts only where that was asked for.
pub fn banned_list_password(
    bearer: Option<String>,
    query_password: Option<String>,
    allow_legacy_get_password: bool,
) -> (r: Option<String>)
    ensures
        string_view(r) == banned_list_access(
            string_view(bearer),
            string_view(query_password),
            allow_legacy_get_password,
        ),
{
    match bearer {
        Some(p) => Some(p),
        None => {
            if allow_legacy_get_password {
                query_password
            } else {
                None
            }
        },
    }
}

/// Whether a request is let in: it shows the password that is configured.
pub fn access_granted(provided: &Option<String>, expected: &str) -> (r: bool)
    ensures
        r == (string_view(*provided) == Some(expected@)),
{
    match provided {
        Some(p) => password_matches(p.as_str(), expected),
        None => false,
    }
}

// ---------------------------------------------------------------------------
// Answers

/// An answer that is a message.
#[derive(Debug, PartialEq, Eq)]
pub struct MessageReply {
    pub status: u16,
    pub ok: bool,
    pub message: String,
}

pub struct MessageReplyView {
    pub status: u16,
    pub ok: bool,
    pub message: Seq<char>,
}

impl View for MessageReply {
    type V = MessageReplyView;

    open spec fn view(&self) -> MessageReplyView {
        MessageReplyView { status: self.status, ok: self.ok, message: self.message@ }
    }
}

/// How a release went.
#[derive(Clone, Copy, Debug, PartialEq, Eq, Structural)]
pub enum UnbanResult {
    Done { outcome: UnbanOutcome },
    Failed,
}

/// The answer to a request to release a source that was let in.
pub open spec fn unban_answer(ip: IpAddr, result: UnbanResult) -> MessageReplyView {
    match result {
        UnbanResult::Done { outcome: UnbanOutcome::Unbanned } => MessageReplyView {
            status: 200,
            ok: true,
            message: ip.text() + " unbanned"@,
        },
        UnbanResult::Done { outcome: UnbanOutcome::NotBanned } => MessageReplyView {
            status: 404,
            ok: false,
            message: ip.text() + " is not banned"@,
        },
        UnbanResult::Failed => MessageReplyView {
            status: 500,
            ok: false,
            message: "failed to unban ip"@,
        },
    }
}

pub fn message_reply(status: u16, ok: bool, message: &str) -> (r: MessageReply)
    ensures
        r@ == (MessageReplyView { status, ok, message: message@ }),
{
    MessageReply { status, ok, message: message.to_string() }
}

pub fn unban_reply(ip: IpAddr, result: UnbanResult) -> (r: MessageReply)
    ensures
        r@ == unban_answer(ip, result),
{
    match result {
        UnbanResult::Done { outcome } => match outcome {
            UnbanOutcome::Unbanned => MessageReply {
                status: 200,
                ok: true,
                message: ip.to_string().concat(" unbanned"),
            },
            UnbanOutcome::NotBanned => MessageReply {
                status: 404,
                ok: false,
                message: ip.to_string().concat(" is not banned"),
            },
        },
        UnbanResult::Failed => message_reply(500, false, "failed to unban ip"),
    }
}

/// The answer to a request that is not let in.
pub fn invalid_password_reply() -> (r: MessageReply)
    ensures
        r@ == (MessageReplyView { status: 401, ok: false, message: "invalid password"@ }),
{
    message_reply(401, false, "invalid password")
}

/// Whether a request to release a source goes no further, and the answer that
/// it gets then.
pub fn refuse_unban(provided: &Option<String>, expected: &str) -> (r: Option<MessageReply>)
    ensures
        r is None <==> string_view(*provided) == Some(expected@),
        r matches Some(reply) ==> reply@ == (MessageReplyView {
            status: 401,
            ok: false,
            message: "invalid password"@,
        }),
{
    if access_granted(provided, expected) {
        None
    } else {
        Some(invalid_password_reply())
    }
}

/// The answer to a question after the health of the service.
pub fn health_reply() -> (r: MessageReply)
    ensures
        r@ == (MessageReplyView { status: 200, ok: true, message: "ok"@ }),
{
    message_reply(200, true, "ok")
}

/// An answer that lists banned sources.
#[derive(Debug, PartialEq, Eq)]
pub struct BannedReply {
    pub status: u16,
    pub ok: bool,
    pub banned_count: usize,
    pub ips: Vec<BanRecord>,
}

pub struct BannedReplyView {
    pub status: u16,
    pub ok: bool,
    pub banned_count: nat,
    pub ips: Seq<BanRecordView>,
}

impl View for BannedReply {
    type V = BannedReplyView;

    open spec fn view(&self) -> BannedReplyView {
        BannedReplyView {
            status: self.status,
            ok: self.ok,
            banned_count: self.banned_count as nat,
            ips: store::record_views(self.ips@),
        }
    }
}

/// The answer to a request for the list: all records, or nothing where the
/// request is not let in.
pub open spec fn banned_answer(granted: bool, ips: Seq<BanRecordView>) -> BannedReplyView {
    if granted {
        BannedReplyView { status: 200, ok: true, banned_count: ips.len(), ips }
    } else {
        BannedReplyView { status: 401, ok: false, banned_count: 0, ips: Seq::empty() }
    }
}

pub fn banned_reply(granted: bool, ips: Vec<BanRecord>) -> (r: BannedReply)
    ensures
        r@ == banned_answer(granted, store::record_views(ips@)),
{
    if granted {
        BannedReply { status: 200, ok: true, banned_count: ips.len(), ips }
    } else {
        let none: Vec<BanRecord> = Vec::new();
        assert(store::record_views(none@) =~= Seq::empty());
        BannedReply { status: 401, ok: false, banned_count: 0, ips: none }
    }
}

// ---------------------------------------------------------------------------
// What is served

/// What can be asked of the administration on its own port.
#[derive(Clone, Copy, Debug, PartialEq, Eq, Structural)]
pub enum Endpoint {
    Health,
    Unban,
    Banned,
    /// A release with the address and the password in the query.
    LegacyUnban,
}

impl Endpoint {
    pub open spec fn spec_method(self) -> Seq<char> {
        match self {
            Endpoint::Unban => "POST"@,
            _ => "GET"@,
        }
    }

    pub open spec fn spec_path(self) -> Seq<char> {
        match self {
            Endpoint::Health => "/health"@,
            Endpoint::Banned => "/banned"@,
            Endpoint::Unban | Endpoint::LegacyUnban => "/unban"@,
        }
    }

    pub fn method(&self) -> (r: &'static str)
        ensures
            r@ == self.spec_method(),
    {
        match self {
            Endpoint::Unban => "POST",
            _ => "GET",
        }
    }

    pub fn path(&self) -> (r: &'static str)
        ensures
            r@ == self.spec_path(),
    {
        match self {
            Endpoint::Health => "/health",
            Endpoint::Banned => "/banned",
            Endpoint::Unban | Endpoint::LegacyUnban => "/unban",
        }
    }
}

pub open spec fn endpoints_of(allow_legacy_get_password: bool) -> Seq<Endpoint> {
    seq![Endpoint::Health, Endpoint::Unban, Endpoint::Banned] + if allow_legacy_get_password {
        seq![Endpoint::LegacyUnban]
    } else {
        Seq::empty()
    }
}

/// What is served. A release by a query is served only where that was asked
/// for.
pub fn endpoints(allow_legacy_get_password: bool) -> (r: Vec<Endpoint>)
    ensures
        r@ == endpoints_of(allow_legacy_get_password),
{
    let mut r: Vec<Endpoint> = Vec::new();
    r.push(Endpoint::Health);
    r.push(Endpoint::Unban);
    r.push(Endpoint::Banned);
    if allow_legacy_get_password {
        r.push(Endpoint::LegacyUnban);
    }
    assert(r@ =~= endpoints_of(allow_legacy_get_password));
    r
}

/// The header of every answer: it is not to be kept.
pub fn no_store_header() -> (r: (&'static str, &'static str))
    ensures
        r.0@ == "cache-control"@,
        r.1@ == "no-store"@,
{
    ("cache-control", "no-store")
}

impl MessageReply {
    /// The header that goes with the answer.
    pub fn header(&self) -> (r: (&'static str, &'static str))
        ensures
            r.0@ == "cache-control"@,
            r.1@ == "no-store"@,
    {
        no_store_header()
    }
}

impl BannedReply {
    /// The header that goes with the answer.
    pub fn header(&self) -> (r: (&'static str, &'static str))
        ensures
            r.0@ == "cache-control"@,
            r.1@ == "no-store"@,
    {
        no_store_header()
    }
}

// ---------------------------------------------------------------------------
// Laws

/// Without the legacy mode nothing is released by a `GET`: no such request is
/// served. With it one is.
pub proof fn law_get_release_needs_legacy_mode(allow_legacy_get_password: bool)
    ensures
        (exists|e: Endpoint| #[trigger]
            endpoints_of(allow_legacy_get_password).contains(e) && e.spec_method() == "GET"@
                && e.spec_path() == "/unban"@) <==> allow_legacy_get_password,
{
    let all = endpoints_of(allow_legacy_get_password);
    reveal_strlit("GET");
    reveal_strlit("POST");
    reveal_strlit("/health");
    reveal_strlit("/banned");
    reveal_strlit("/unban");
    assert("/health"@.len() == 7);
    assert("/unban"@.len() == 6);
    assert("/banned"@.len() == 7);
    assert("POST"@.len() == 4);
    assert("GET"@.len() == 3);
    if allow_legacy_get_password {
        assert(all[3] == Endpoint::LegacyUnban);
        assert(all.contains(Endpoint::LegacyUnban));
    }
}

/// A request for the list that does not show the password learns nothing of
/// the records: the answer is the same whatever they are.
pub proof fn law_refused_list_tells_nothing(a: Seq<BanRecordView>, b: Seq<BanRecordView>)
    ensures
        banned_answer(false, a) == banned_answer(false, b),
        banned_answer(false, a).ips.len() == 0,
        banned_answer(false, a).status == 401,
{
}

/// Without the legacy mode a password in the query opens nothing.
pub proof fn law_query_password_needs_legacy_mode(
    bearer: Option<Seq<char>>,
    query_password: Option<Seq<char>>,
)
    ensures
        banned_list_access(bearer, query_password, false) == bearer,
        banned_list_access(None, query_password, true) == query_password,
{
}

/// Two authorization headers are worth as much as none.
pub proof fn law_repeated_authorization_is_void(values: Seq<Vec<u8>>)
    requires
        values.len() > 1,
    ensures
        request_bearer(values) is None,
{
}

/// The scheme may be written in any case, and what stands behind it is taken
/// as it is.
pub proof fn law_scheme_ignores_case(scheme: Seq<char>, password: Seq<char>)
    requires
        text::lower(scheme) == "bearer"@,
        password.len() > 0,
    ensures
        bearer(scheme + seq![' '] + password) == Some(password),
{
    let value = scheme + seq![' '] + password;
    reveal_strlit("bearer");
    assert(scheme.len() == text::lower(scheme).len());
    assert forall|i: int| 0 <= i < scheme.len() implies value[i] != ' ' by {
        assert(text::lower(scheme)[i] == text::lower_char(scheme[i]));
        assert(value[i] == scheme[i]);
        assert("bearer"@[i] != ' ');
    }
    text::lemma_find_is(value, ' ', scheme.len() as int);
    assert(value.take(scheme.len() as int) =~= scheme);
    assert(value.skip(scheme.len() as int + 1) =~= password);
}

/// Credentials are what stands behind the first space, where the word before it
/// is `Bearer` in whatever case and something stands there; nothing else gives
/// any.
pub proof fn law_credentials_follow_the_scheme(value: Seq<char>)
    ensures
        match bearer(value) {
            Some(password) => exists|scheme: Seq<char>|
                {
                    &&& value == #[trigger] (scheme + seq![' ']) + password
                    &&& scheme.len() == 6
                    &&& text::lower(scheme) == "bearer"@
                    &&& password.len() > 0
                },
            None => forall|scheme: Seq<char>, password: Seq<char>|
                value == #[trigger] ((scheme + seq![' ']) + password) ==> text::lower(scheme)
                    != "bearer"@ || password.len() == 0,
        },
{
    reveal_strlit("bearer");
    text::lemma_find(value, ' ');
    let space = text::find(value, ' ') as int;
    match bearer(value) {
        Some(password) => {
            let scheme = value.take(space);
            assert(value =~= (scheme + seq![' ']) + password);
            assert(scheme.len() == text::lower(scheme).len());
        },
        None => {
            assert forall|scheme: Seq<char>, password: Seq<char>|
                value == #[trigger] ((scheme + seq![' ']) + password) implies text::lower(scheme)
                != "bearer"@ || password.len() == 0 by {
                if text::lower(scheme) == "bearer"@ && password.len() > 0 {
                    law_scheme_ignores_case(scheme, password);
                }
            }
        },
    }
}

/// One authorization header of visible characters gives the credentials in it,
/// character by character; none, several, or one of other bytes gives nothing.
pub proof fn law_one_visible_header_counts(values: Seq<Vec<u8>>)
    ensures
        values.len() != 1 ==> request_bearer(values) is None,
        values.len() == 1 && (exists|i: int|
            0 <= i < values[0]@.len() && {
                let b = #[trigger] values[0]@[i];
                !(32 <= b < 127 || b == 9)
            }) ==> request_bearer(values) is None,
        values.len() == 1 && (forall|i: int|
            0 <= i < values[0]@.len() ==> {
                let b = #[trigger] values[0]@[i];
                32 <= b < 127 || b == 9
            }) ==> request_bearer(values) == bearer(
            Seq::new(values[0]@.len(), |i: int| values[0]@[i] as char),
        ),
{
    if values.len() == 1 {
        assert(as_text(values[0]@) =~= Seq::new(values[0]@.len(), |i: int| values[0]@[i] as char));
        assert(visible(values[0]@) <==> forall|i: int|
            0 <= i < values[0]@.len() ==> {
                let b = #[trigger] values[0]@[i];
                32 <= b < 127 || b == 9
            }) by {
            assert forall|i: int| 0 <= i < values[0]@.len() implies is_visible(
                #[trigger] values[0]@[i],
            ) == (32 <= values[0]@[i] < 127 || values[0]@[i] == 9) by {
            }
        }
    }
}

/// What a release is answered with, for any source: that it was released, that
/// it was not banned, or that it could not be released, and nothing of why.
pub proof fn law_release_is_answered(ip: IpAddr)
    ensures
        unban_answer(ip, UnbanResult::Done { outcome: UnbanOutcome::Unbanned }) == (
        MessageReplyView { status: 200, ok: true, message: ip.text() + " unbanned"@ }),
        unban_answer(ip, UnbanResult::Done { outcome: UnbanOutcome::NotBanned }) == (
        MessageReplyView { status: 404, ok: false, message: ip.text() + " is not banned"@ }),
        unban_answer(ip, UnbanResult::Failed) == (MessageReplyView {
            status: 500,
            ok: false,
            message: "failed to unban ip"@,
        }),
{
}

/// Those who are let in see every record, in its order, and how many there are.
pub proof fn law_granted_list_is_complete(ips: Seq<BanRecordView>)
    ensures
        banned_answer(true, ips) == (BannedReplyView {
            status: 200,
            ok: true,
            banned_count: ips.len(),
            ips,
        }),
        !banned_answer(false, ips).ok,
        banned_answer(false, ips).banned_count == 0,
{
}

/// Of the places where a password may be shown, the header comes first: where
/// it gives credentials, the body and the query have no say.
pub proof fn law_header_comes_first(
    shown: Seq<char>,
    elsewhere: Option<Seq<char>>,
    allow_legacy_get_password: bool,
)
    ensures
        or_else(Some(shown), elsewhere) == Some(shown),
        or_else(None, elsewhere) == elsewhere,
        banned_list_access(Some(shown), elsewhere, allow_legacy_get_password) == Some(shown),
        banned_list_access(None, elsewhere, allow_legacy_get_password)
            == if allow_legacy_get_password {
            elsewhere
        } else {
            None
        },
{
}

/// What is served on the port of its own, by method and path.
pub proof fn law_endpoints_are_these(allow_legacy_get_password: bool)
    ensures
        ({
            let all = endpoints_of(allow_legacy_get_password);
            let at = |i: int| (all[i].spec_method(), all[i].spec_path());
            &&& all.len() == if allow_legacy_get_password {
                4int
            } else {
                3
            }
            &&& at(0) == ("GET"@, "/health"@)
            &&& at(1) == ("POST"@, "/unban"@)
            &&& at(2) == ("GET"@, "/banned"@)
            &&& allow_legacy_get_password ==> at(3) == ("GET"@, "/unban"@)
        }),
{
}

} // verus!
