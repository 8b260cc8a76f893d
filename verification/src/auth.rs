//! Authentication of API requests: the bearer token of the `Authorization`
//! header, and the organizations and projects an authenticated user reaches.

use vstd::prelude::*;

verus! {

#[verifier::external_type_specification]
#[verifier::external_body]
pub struct ExHeaderValue(http::HeaderValue);

/// The bytes that an `http::HeaderValue` holds.
pub uninterp spec fn header_value_bytes(value: http::HeaderValue) -> Seq<u8>;

/// A byte that `http` counts as visible ASCII: a printable character or a tab.
pub open spec fn is_visible_ascii(b: u8) -> bool {
    (32 <= b && b < 127) || b == 9
}

pub open spec fn all_visible_ascii(bytes: Seq<u8>) -> bool {
    forall|i: int| 0 <= i < bytes.len() ==> is_visible_ascii(#[trigger] bytes[i])
}

/// ASCII bytes read as the characters they encode.
pub open spec fn ascii_text(bytes: Seq<u8>) -> Seq<char> {
    bytes.map_values(|b: u8| b as char)
}

/// `http::HeaderValue::to_str`: the header's text when every byte of it is
/// visible ASCII (printable or a tab), else `None` (the source scans the bytes
/// with `is_visible_ascii` and then reads them unchanged as UTF-8).
#[verifier::external_body]
fn header_value_to_str(value: &http::HeaderValue) -> (text: Option<&str>)
    ensures
        text is Some <==> all_visible_ascii(header_value_bytes(*value)),
        text matches Some(t) ==> t@ == ascii_text(header_value_bytes(*value)),
{
    value.to_str().ok()
}

/// The ASCII characters that `str::trim` removes at either end of a text.
pub open spec fn is_whitespace(c: char) -> bool {
    c == ' ' || c == '\t' || c == '\n' || c == '\x0B' || c == '\x0C' || c == '\r'
}

pub open spec fn trim_start(s: Seq<char>) -> Seq<char>
    decreases s.len(),
{
    if s.len() > 0 && is_whitespace(s[0]) {
        trim_start(s.drop_first())
    } else {
        s
    }
}

pub open spec fn trim_end(s: Seq<char>) -> Seq<char>
    decreases s.len(),
{
    if s.len() > 0 && is_whitespace(s.last()) {
        trim_end(s.drop_last())
    } else {
        s
    }
}

/// A text without the whitespace at its two ends.
pub open spec fn trim(s: Seq<char>) -> Seq<char> {
    trim_end(trim_start(s))
}

proof fn lemma_ascii_char_byte(c: char, b: u8)
    requires
        c <= '\x7f',
        c as u8 == b,
    ensures
        c == b as char,
{
}

fn is_whitespace_byte(b: u8) -> (r: bool)
    ensures
        r == is_whitespace(b as char),
{
    b == 32 || b == 9 || b == 10 || b == 11 || b == 12 || b == 13
}

/// `s` without its leading and trailing whitespace, for ASCII text.
fn trim_ascii(s: &str) -> (t: &str)
    requires
        s.is_ascii(),
    ensures
        t@ == trim(s@),
        t.is_ascii(),
{
    let n = s.unicode_len();
    assert(s@.subrange(0, n as int) =~= s@);
    let mut i: usize = 0;
    while i < n
        invariant
            s.is_ascii(),
            n == s@.len(),
            i <= n,
            trim_start(s@) == trim_start(s@.subrange(i as int, n as int)),
        ensures
            i < n ==> !is_whitespace(s@[i as int]),
        decreases n - i,
    {
        let b = s.get_ascii(i);
        if !is_whitespace_byte(b) {
            proof {
                lemma_ascii_char_byte(s@[i as int], b);
            }
            break;
        }
        assert(s@.subrange(i as int, n as int).drop_first() =~= s@.subrange(i + 1, n as int));
        i = i + 1;
    }
    assert(trim_start(s@) == s@.subrange(i as int, n as int));
    let mut j: usize = n;
    while j > i
        invariant
            s.is_ascii(),
            n == s@.len(),
            i <= j <= n,
            trim(s@) == trim_end(s@.subrange(i as int, j as int)),
        ensures
            j > i ==> !is_whitespace(s@[j - 1]),
        decreases j - i,
    {
        let b = s.get_ascii(j - 1);
        if !is_whitespace_byte(b) {
            proof {
                lemma_ascii_char_byte(s@[j - 1], b);
            }
            break;
        }
        assert(s@.subrange(i as int, j as int).drop_last() =~= s@.subrange(i as int, j - 1));
        j = j - 1;
    }
    s.substring_ascii(i, j)
}

/// Why a request carries no usable credentials.
#[derive(Debug, Clone, Copy, PartialEq, Eq)]
pub enum AuthError {
    /// The request has no `Authorization` header.
    MissingHeader,
    /// The `Authorization` header is not visible ASCII text.
    InvalidHeader,
    /// The `Authorization` header holds no `Bearer ` credentials.
    MissingBearer,
    /// The token is not a valid JWT of a known user.
    InvalidJwt,
}

/// The message of each authentication error.
pub open spec fn spec_auth_message(e: AuthError) -> Seq<char> {
    match e {
        AuthError::MissingHeader => "Missing \"Authorization\" header"@,
        AuthError::InvalidHeader => "Invalid \"Authorization\" header"@,
        AuthError::MissingBearer => "Missing \"Authorization\" Bearer"@,
        AuthError::InvalidJwt => "Invalid JWT (JSON Web Token)"@,
    }
}

impl AuthError {
    /// The message that the API answers with.
    pub fn message(&self) -> (m: String)
        ensures
            m@ == spec_auth_message(*self),
    {
        match self {
            AuthError::MissingHeader => String::from_str("Missing \"Authorization\" header"),
            AuthError::InvalidHeader => String::from_str("Invalid \"Authorization\" header"),
            AuthError::MissingBearer => String::from_str("Missing \"Authorization\" Bearer"),
            AuthError::InvalidJwt => String::from_str("Invalid JWT (JSON Web Token)"),
        }
    }
}

/// The text that introduces the credentials in an `Authorization` header.
pub open spec fn bearer_marker() -> Seq<char> {
    seq!['B', 'e', 'a', 'r', 'e', 'r', ' ']
}

/// The bearer marker starts at position `i` of `s`.
pub open spec fn marker_at(s: Seq<char>, i: int) -> bool {
    0 <= i && i + 7 <= s.len() && s.subrange(i, i + 7) == bearer_marker()
}

pub open spec fn has_marker(s: Seq<char>) -> bool {
    exists|i: int| marker_at(s, i)
}

/// `i` is the first position where the bearer marker starts.
pub open spec fn is_first_marker(s: Seq<char>, i: int) -> bool {
    marker_at(s, i) && forall|j: int| 0 <= j < i ==> !marker_at(s, j)
}

pub open spec fn first_marker(s: Seq<char>) -> int {
    choose|i: int| is_first_marker(s, i)
}

/// The token of an `Authorization` header holding the given bytes, if any:
/// the text after the first `Bearer `, without surrounding whitespace.
pub open spec fn spec_bearer_token(header: Option<Seq<u8>>) -> Result<Seq<char>, AuthError> {
    match header {
        None => Err(AuthError::MissingHeader),
        Some(bytes) => if !all_visible_ascii(bytes) {
            Err(AuthError::InvalidHeader)
        } else if !has_marker(ascii_text(bytes)) {
            Err(AuthError::MissingBearer)
        } else {
            Ok(trim(ascii_text(bytes).skip(first_marker(ascii_text(bytes)) + 7)))
        },
    }
}

/// The bytes of an optional header value.
pub open spec fn header_bytes(header: Option<&http::HeaderValue>) -> Option<Seq<u8>> {
    match header {
        Some(v) => Some(header_value_bytes(*v)),
        None => None,
    }
}

/// A token result, the token taken by its text.
pub open spec fn token_view(token: Result<String, AuthError>) -> Result<Seq<char>, AuthError> {
    match token {
        Ok(t) => Ok(t@),
        Err(e) => Err(e),
    }
}

/// Whether the bearer marker starts at position `i` of the ASCII text `s`.
fn marker_at_exec(s: &str, i: usize) -> (r: bool)
    requires
        s.is_ascii(),
        i + 7 <= s@.len(),
        s@.len() <= usize::MAX,
    ensures
        r == marker_at(s@, i as int),
{
    let r = s.get_ascii(i) == 66 && s.get_ascii(i + 1) == 101 && s.get_ascii(i + 2) == 97
        && s.get_ascii(i + 3) == 114 && s.get_ascii(i + 4) == 101 && s.get_ascii(i + 5) == 114
        && s.get_ascii(i + 6) == 32;
    proof {
        let sub = s@.subrange(i as int, i + 7);
        assert forall|k: int| 0 <= k < 7 implies (sub[k] as u8) == (bearer_marker()[k] as u8)
            <==> sub[k] == bearer_marker()[k] by {
            assert(sub[k] == s@[i + k]);
        }
        if r {
            assert(sub =~= bearer_marker());
        } else if sub == bearer_marker() {
            assert(sub[0] == 'B' && sub[1] == 'e' && sub[2] == 'a' && sub[3] == 'r');
            assert(sub[4] == 'e' && sub[5] == 'r' && sub[6] == ' ');
        }
    }
    r
}

/// The first position of the bearer marker in the ASCII text `s`, if any.
fn find_marker(s: &str) -> (pos: Option<usize>)
    requires
        s.is_ascii(),
    ensures
        match pos {
            Some(i) => is_first_marker(s@, i as int),
            None => !has_marker(s@),
        },
{
    let n = s.unicode_len();
    let mut i: usize = 0;
    while n >= 7 && i <= n - 7
        invariant
            s.is_ascii(),
            n == s@.len(),
            forall|j: int| 0 <= j < i ==> !marker_at(s@, j),
        decreases n - i,
    {
        if marker_at_exec(s, i) {
            return Some(i);
        }
        i = i + 1;
    }
    None
}

/// The bearer token of a request, from its `Authorization` header
/// (`header`, `None` where the request has none): the text after the first
/// `Bearer `, without surrounding whitespace.
pub fn bearer_token(header: Option<&http::HeaderValue>) -> (token: Result<String, AuthError>)
    ensures
        token_view(token) == spec_bearer_token(header_bytes(header)),
{
    match header {
        None => Err(AuthError::MissingHeader),
        Some(value) => match header_value_to_str(value) {
            None => Err(AuthError::InvalidHeader),
            Some(text) => {
                let ghost bytes = header_value_bytes(*value);
                assert(text.is_ascii()) by {
                    assert forall|k: int| 0 <= k < text@.len() implies '\0' <= #[trigger] text@[k]
                        <= '\x7f' by {
                        assert(text@[k] == bytes[k] as char);
                        assert(is_visible_ascii(bytes[k]));
                    }
                }
                match find_marker(text) {
                    None => Err(AuthError::MissingBearer),
                    Some(i) => {
                        let n = text.unicode_len();
                        let rest = text.substring_ascii(i + 7, n);
                        let trimmed = trim_ascii(rest);
                        assert(rest@ =~= text@.skip(i + 7));
                        assert(first_marker(text@) == i);
                        Ok(trimmed.to_owned())
                    },
                }
            },
        },
    }
}

/// The organization ids, in their order, whose permission check passed:
/// `ids[k]` stays where `allowed[k]` is `true` (a missing check counts as
/// failed).
pub open spec fn allowed_ids(ids: Seq<i32>, allowed: Seq<bool>) -> Seq<i32>
    decreases ids.len(),
{
    if ids.len() == 0 {
        Seq::empty()
    } else {
        let k = ids.len() - 1;
        let kept = allowed_ids(ids.drop_last(), allowed);
        if k < allowed.len() && allowed[k] {
            kept.push(ids[k])
        } else {
            kept
        }
    }
}

/// An authenticated user: its id, the organizations and projects it is a
/// member of, and `rbac`, the roles that the permission policy reads.
pub struct AuthUser<R> {
    pub id: i32,
    pub organizations: Vec<i32>,
    pub projects: Vec<i32>,
    pub rbac: R,
}

impl<R> AuthUser<R> {
    /// The user's organizations on which the action is allowed. `allowed[k]`
    /// is the policy's answer for `self.organizations[k]`.
    pub fn organizations(&self, allowed: &Vec<bool>) -> (ids: Vec<i32>)
        ensures
            ids@ == allowed_ids(self.organizations@, allowed@),
            exists|picked: Seq<int>| is_selection(self.organizations@, allowed@, ids@, picked),
            forall|k: int|
                0 <= k < self.organizations@.len() && k < allowed@.len() && #[trigger] allowed@[k]
                    ==> ids@.contains(self.organizations@[k]),
            forall|x: i32| #[trigger]
                ids@.contains(x) ==> exists|k: int|
                    0 <= k < self.organizations@.len() && k < allowed@.len() && allowed@[k]
                        && self.organizations@[k] == x,
    {
        let mut ids: Vec<i32> = Vec::new();
        let n = self.organizations.len();
        let mut i: usize = 0;
        while i < n
            invariant
                n == self.organizations@.len(),
                i <= n,
                ids@ == allowed_ids(self.organizations@.take(i as int), allowed@),
            decreases n - i,
        {
            let ghost before = self.organizations@.take(i as int);
            assert(self.organizations@.take(i + 1).drop_last() =~= before);
            if i < allowed.len() && allowed[i] {
                ids.push(self.organizations[i]);
            }
            i = i + 1;
        }
        assert(self.organizations@.take(n as int) =~= self.organizations@);
        proof {
            let picked = lemma_allowed_ids_selection(self.organizations@, allowed@);
            lemma_allowed_ids_complete(self.organizations@, allowed@);
            lemma_allowed_ids_are_allowed(self.organizations@, allowed@);
        }
        ids
    }

    /// The user's projects on which an action is allowed: none, whatever the
    /// action.
    pub fn projects(&self) -> (ids: Vec<i32>)
        ensures
            ids@ == Seq::<i32>::empty(),
    {
        Vec::new()
    }
}

/// The bytes of the text `Bearer `.
pub open spec fn bearer_bytes() -> Seq<u8> {
    seq![66u8, 101u8, 97u8, 114u8, 101u8, 114u8, 32u8]
}

proof fn lemma_trim_start(s: Seq<char>)
    ensures
        trim_start(s).len() <= s.len(),
        trim_start(s) == s.subrange(s.len() - trim_start(s).len(), s.len() as int),
        trim_start(s).len() > 0 ==> !is_whitespace(trim_start(s)[0]),
        s.len() > 0 && !is_whitespace(s[0]) ==> trim_start(s) == s,
    decreases s.len(),
{
    if s.len() > 0 && is_whitespace(s[0]) {
        lemma_trim_start(s.drop_first());
        assert(s.drop_first().subrange(
            s.drop_first().len() - trim_start(s).len(),
            s.drop_first().len() as int,
        ) =~= s.subrange(s.len() - trim_start(s).len(), s.len() as int));
    } else {
        assert(s.subrange(0, s.len() as int) =~= s);
    }
}

proof fn lemma_trim_end(s: Seq<char>)
    ensures
        trim_end(s).len() <= s.len(),
        trim_end(s) == s.subrange(0, trim_end(s).len() as int),
        trim_end(s).len() > 0 ==> !is_whitespace(trim_end(s).last()),
        s.len() > 0 && !is_whitespace(s[0]) ==> trim_end(s).len() > 0,
        s.len() > 0 && !is_whitespace(s.last()) ==> trim_end(s) == s,
    decreases s.len(),
{
    if s.len() > 0 && is_whitespace(s.last()) {
        lemma_trim_end(s.drop_last());
        assert(s.drop_last().subrange(0, trim_end(s).len() as int) =~= s.subrange(
            0,
            trim_end(s).len() as int,
        ));
        if s.len() > 0 && !is_whitespace(s[0]) {
            assert(s.drop_last().len() > 0);
            assert(s.drop_last()[0] == s[0]);
        }
    } else {
        assert(s.subrange(0, s.len() as int) =~= s);
    }
}

/// A trimmed text neither starts nor ends with whitespace.
pub proof fn lemma_trim_has_no_outer_whitespace(s: Seq<char>)
    ensures
        trim(s).len() > 0 ==> !is_whitespace(trim(s)[0]) && !is_whitespace(trim(s).last()),
{
    lemma_trim_start(s);
    lemma_trim_end(trim_start(s));
    let t = trim_start(s);
    if trim(s).len() > 0 {
        assert(trim(s)[0] == t[0]);
    }
}

/// A text that neither starts nor ends with whitespace is its own trim.
pub proof fn lemma_trim_keeps_trimmed(s: Seq<char>)
    requires
        s.len() > 0 ==> !is_whitespace(s[0]) && !is_whitespace(s.last()),
    ensures
        trim(s) == s,
{
    lemma_trim_start(s);
    lemma_trim_end(s);
}

/// A token taken from an `Authorization` header never starts or ends with
/// whitespace.
pub proof fn lemma_token_has_no_outer_whitespace(header: Option<Seq<u8>>)
    ensures
        spec_bearer_token(header) matches Ok(t) ==> (t.len() > 0 ==> !is_whitespace(t[0])
            && !is_whitespace(t.last())),
{
    if let Some(bytes) = header {
        let s = ascii_text(bytes);
        if all_visible_ascii(bytes) && has_marker(s) {
            lemma_trim_has_no_outer_whitespace(s.skip(first_marker(s) + 7));
        }
    }
}

/// The header `Bearer <token>` gives back `<token>`, for every visible ASCII
/// token that neither starts nor ends with whitespace.
pub proof fn lemma_bearer_round_trip(token: Seq<u8>)
    requires
        all_visible_ascii(token),
        token.len() > 0 ==> !is_whitespace(token[0] as char) && !is_whitespace(
            token.last() as char,
        ),
    ensures
        spec_bearer_token(Some(bearer_bytes() + token)) == Ok::<Seq<char>, AuthError>(
            ascii_text(token),
        ),
{
    let bytes = bearer_bytes() + token;
    let s = ascii_text(bytes);
    assert forall|i: int| 0 <= i < bytes.len() implies is_visible_ascii(#[trigger] bytes[i]) by {
        if i >= 7 {
            assert(bytes[i] == token[i - 7]);
        }
    }
    assert(s.subrange(0, 7) =~= bearer_marker());
    assert(is_first_marker(s, 0));
    let f = first_marker(s);
    assert(is_first_marker(s, f));
    if f > 0 {
        assert(!marker_at(s, 0));
    }
    assert(f == 0);
    assert(s.skip(7) =~= ascii_text(token));
    lemma_trim_keeps_trimmed(ascii_text(token));
}

/// Every id that `organizations` keeps is one of the user's organizations
/// whose check passed, and no more ids come out than went in.
pub proof fn lemma_allowed_ids_are_allowed(ids: Seq<i32>, allowed: Seq<bool>)
    ensures
        allowed_ids(ids, allowed).len() <= ids.len(),
        forall|x: i32| #[trigger]
            allowed_ids(ids, allowed).contains(x) ==> exists|k: int|
                0 <= k < ids.len() && k < allowed.len() && allowed[k] && ids[k] == x,
    decreases ids.len(),
{
    if ids.len() > 0 {
        let rest = ids.drop_last();
        lemma_allowed_ids_are_allowed(rest, allowed);
        assert forall|x: i32| #[trigger]
            allowed_ids(ids, allowed).contains(x) implies exists|k: int|
                0 <= k < ids.len() && k < allowed.len() && allowed[k] && ids[k] == x by {
            let k = ids.len() - 1;
            if allowed_ids(rest, allowed).contains(x) {
                let j = choose|j: int|
                    0 <= j < rest.len() && j < allowed.len() && allowed[j] && rest[j] == x;
                assert(ids[j] == x);
            } else {
                assert(k < allowed.len() && allowed[k] && ids[k] == x);
            }
        }
    }
}

/// When the check passes on every organization, all of them are kept, in
/// their order.
pub proof fn lemma_all_allowed_keeps_all(ids: Seq<i32>, allowed: Seq<bool>)
    requires
        ids.len() <= allowed.len(),
        forall|k: int| 0 <= k < ids.len() ==> #[trigger] allowed[k],
    ensures
        allowed_ids(ids, allowed) == ids,
    decreases ids.len(),
{
    if ids.len() > 0 {
        lemma_all_allowed_keeps_all(ids.drop_last(), allowed);
        assert(allowed[ids.len() - 1]);
        assert(ids.drop_last().push(ids.last()) =~= ids);
    }
}

/// When the check fails on every organization, none is kept.
pub proof fn lemma_none_allowed_keeps_none(ids: Seq<i32>, allowed: Seq<bool>)
    requires
        forall|k: int| 0 <= k < allowed.len() ==> !#[trigger] allowed[k],
    ensures
        allowed_ids(ids, allowed) == Seq::<i32>::empty(),
    decreases ids.len(),
{
    if ids.len() > 0 {
        lemma_none_allowed_keeps_none(ids.drop_last(), allowed);
    }
}

/// `result` is the ids at the positions `picked`: the positions rise
/// strictly, each one holds an id whose own check passed, and every position
/// whose check passed is among them.
pub open spec fn is_selection(ids: Seq<i32>, allowed: Seq<bool>, result: Seq<i32>, picked: Seq<int>) -> bool {
    &&& picked.len() == result.len()
    &&& forall|j: int|
        0 <= j < picked.len() ==> {
            &&& 0 <= #[trigger] picked[j] < ids.len()
            &&& picked[j] < allowed.len()
            &&& allowed[picked[j]]
            &&& result[j] == ids[picked[j]]
        }
    &&& forall|j1: int, j2: int| 0 <= j1 < j2 < picked.len() ==> #[trigger] picked[j1] < #[trigger] picked[j2]
    &&& forall|k: int|
        0 <= k < ids.len() && k < allowed.len() && #[trigger] allowed[k] ==> exists|j: int|
            0 <= j < picked.len() && picked[j] == k
}

/// The organizations kept are exactly those whose own check passed, in their
/// order: each kept id sits at a position whose check passed, the positions
/// rise, and no position whose check passed is left out, whatever the checks
/// of the other positions say.
pub proof fn lemma_allowed_ids_selection(ids: Seq<i32>, allowed: Seq<bool>) -> (picked: Seq<int>)
    ensures
        is_selection(ids, allowed, allowed_ids(ids, allowed), picked),
    decreases ids.len(),
{
    if ids.len() == 0 {
        Seq::empty()
    } else {
        let rest = ids.drop_last();
        let k = ids.len() - 1;
        let kept = allowed_ids(rest, allowed);
        let p0 = lemma_allowed_ids_selection(rest, allowed);
        if k < allowed.len() && allowed[k] {
            let picked = p0.push(k);
            let result = allowed_ids(ids, allowed);
            assert(result == kept.push(ids[k]));
            assert forall|j: int| 0 <= j < picked.len() implies {
                &&& 0 <= #[trigger] picked[j] < ids.len()
                &&& picked[j] < allowed.len()
                &&& allowed[picked[j]]
                &&& result[j] == ids[picked[j]]
            } by {
                if j < p0.len() {
                    assert(picked[j] == p0[j]);
                    assert(rest[p0[j]] == ids[p0[j]]);
                }
            }
            assert forall|j1: int, j2: int| 0 <= j1 < j2 < picked.len() implies #[trigger] picked[j1]
                < #[trigger] picked[j2] by {
                assert(picked[j1] == p0[j1]);
                if j2 < p0.len() {
                    assert(picked[j2] == p0[j2]);
                }
            }
            assert forall|k2: int|
                0 <= k2 < ids.len() && k2 < allowed.len() && #[trigger] allowed[k2] implies exists|j: int|
                0 <= j < picked.len() && picked[j] == k2 by {
                if k2 == k {
                    assert(picked[p0.len() as int] == k);
                } else {
                    let j = choose|j: int| 0 <= j < p0.len() && p0[j] == k2;
                    assert(picked[j] == k2);
                }
            }
            picked
        } else {
            assert(allowed_ids(ids, allowed) == kept);
            assert forall|j: int| 0 <= j < p0.len() implies {
                &&& 0 <= #[trigger] p0[j] < ids.len()
                &&& p0[j] < allowed.len()
                &&& allowed[p0[j]]
                &&& kept[j] == ids[p0[j]]
            } by {
                assert(rest[p0[j]] == ids[p0[j]]);
            }
            assert forall|k2: int|
                0 <= k2 < ids.len() && k2 < allowed.len() && #[trigger] allowed[k2] implies exists|j: int|
                0 <= j < p0.len() && p0[j] == k2 by {
                assert(k2 != k);
            }
            p0
        }
    }
}

/// Every organization whose own check passed is kept, whatever the checks of
/// the other organizations say.
pub proof fn lemma_allowed_ids_complete(ids: Seq<i32>, allowed: Seq<bool>)
    ensures
        forall|k: int|
            0 <= k < ids.len() && k < allowed.len() && #[trigger] allowed[k]
                ==> allowed_ids(ids, allowed).contains(ids[k]),
{
    let picked = lemma_allowed_ids_selection(ids, allowed);
    let result = allowed_ids(ids, allowed);
    assert forall|k: int|
        0 <= k < ids.len() && k < allowed.len() && #[trigger] allowed[k] implies result.contains(ids[k]) by {
        let j = choose|j: int| 0 <= j < picked.len() && picked[j] == k;
        assert(result[j] == ids[k]);
    }
}

} // verus!
