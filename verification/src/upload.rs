//! Validation and request shaping for the two ticketing services an item can
//! be uploaded to. The network itself is the application's; what is decided
//! here — whether an input names a valid ticket, which URL a request goes
//! to, what the authorization header holds, and what a status code means —
//! is verified.

use vstd::prelude::*;
use vstd::string::StringExecFns;
use crate::text::chars_vec;
use crate::text::is_ascii_digit_char;
use crate::text::is_ascii_lowercase_char;
use crate::text::is_ascii_uppercase_char;
use crate::text::spec_ascii_digit;
use crate::text::spec_ascii_lowercase;
use crate::text::spec_ascii_uppercase;
use crate::text::str_trim;
use crate::text::trim_of;

verus! {

/// An upload request as the surrounding application receives it.
pub struct UploadRequest {
    pub service: String,
    pub ticket_id: String,
    pub file_path: String,
    pub comment: String,
    pub base_url: String,
    pub email: String,
    pub api_token: String,
}

/// Where an upload ended up.
pub struct UploadResult {
    pub ticket_url: String,
    pub attachment_url: String,
}

/// A credential check as the surrounding application receives it.
pub struct ValidationRequest {
    pub service: String,
    pub base_url: String,
    pub email: String,
    pub api_token: String,
}

/// The ticketing services that are understood.
#[derive(Clone, Copy, Debug, PartialEq, Eq, Structural)]
pub enum Service {
    Jira,
    Zendesk,
}

/// Recognise a service name, exactly as the dispatch on upload and
/// validation requests does.
pub fn parse_service(s: &str) -> (r: Option<Service>)
    ensures
        r == Some(Service::Jira) <==> s@ == "jira"@,
        r == Some(Service::Zendesk) <==> s@ == "zendesk"@,
        r is None <==> (s@ != "jira"@ && s@ != "zendesk"@),
{
    let owned = String::from_str(s);
    if owned == String::from_str("jira") {
        proof {
            reveal_strlit("jira");
            reveal_strlit("zendesk");
            assert("jira"@.len() == 4);
            assert("zendesk"@.len() == 7);
            assert(s@ != "zendesk"@);
        }
        Some(Service::Jira)
    } else if owned == String::from_str("zendesk") {
        Some(Service::Zendesk)
    } else {
        None
    }
}

/// How a response status is acted on: unauthorized and forbidden mean the
/// credentials were refused, a missing ticket is its own failure, any other
/// non-success status is a plain failure.
#[derive(Clone, Copy, Debug, PartialEq, Eq, Structural)]
pub enum StatusClass {
    AuthFailed,
    TicketNotFound,
    Success,
    Failure,
}

/// Classify an HTTP status code as the upload paths do.
pub fn classify_status(status: u16) -> (r: StatusClass)
    ensures
        r == StatusClass::AuthFailed <==> (status == 401 || status == 403),
        r == StatusClass::TicketNotFound <==> status == 404,
        r == StatusClass::Success <==> (200 <= status && status < 300),
        r == StatusClass::Failure <==> !(status == 401 || status == 403 || status == 404 || (200
            <= status && status < 300)),
{
    if status == 401 || status == 403 {
        StatusClass::AuthFailed
    } else if status == 404 {
        StatusClass::TicketNotFound
    } else if 200 <= status && status < 300 {
        StatusClass::Success
    } else {
        StatusClass::Failure
    }
}

// ---------------------------------------------------------------------------
// Ticket and subdomain validation
// ---------------------------------------------------------------------------

/// Index of the first occurrence of `c`, or the length when it is absent.
pub open spec fn first_char_at(s: Seq<char>, c: char) -> int
    decreases s.len(),
{
    if s.len() == 0 {
        0
    } else if s[0] == c {
        0
    } else {
        1 + first_char_at(s.drop_first(), c)
    }
}

proof fn lemma_first_char_at(s: Seq<char>, c: char, i: int)
    requires
        0 <= i <= s.len(),
        forall|j: int| 0 <= j < i ==> s[j] != c,
        i < s.len() ==> s[i] == c,
    ensures
        first_char_at(s, c) == i,
    decreases i,
{
    if i > 0 {
        lemma_first_char_at(s.drop_first(), c, i - 1);
    }
}

/// A valid project key: at least two characters, all upper-case letters,
/// digits or underscores.
pub open spec fn spec_jira_project_ok(p: Seq<char>) -> bool {
    &&& p.len() >= 2
    &&& forall|i: int|
        0 <= i < p.len() ==> (spec_ascii_uppercase(#[trigger] p[i]) || spec_ascii_digit(p[i])
            || p[i] == '_')
}

/// A non-empty run of ASCII digits.
pub open spec fn spec_all_digits(p: Seq<char>) -> bool {
    &&& p.len() > 0
    &&& forall|i: int| 0 <= i < p.len() ==> spec_ascii_digit(#[trigger] p[i])
}

/// A valid Jira ticket reference, after trimming: a project key, one dash,
/// and a ticket number.
pub open spec fn spec_jira_ticket_valid(t: Seq<char>) -> bool {
    let s = trim_of(t);
    let d = first_char_at(s, '-');
    &&& d < s.len()
    &&& spec_jira_project_ok(s.take(d))
    &&& spec_all_digits(s.skip(d + 1))
}

/// Validate a Jira ticket reference; a valid one is returned trimmed, in its
/// canonical `PROJECT-NUMBER` form.
pub fn validate_jira_ticket_id(ticket_id: &str) -> (r: Result<String, String>)
    ensures
        r is Ok <==> spec_jira_ticket_valid(ticket_id@),
        r matches Ok(out) ==> out@ == trim_of(ticket_id@),
        r matches Err(e) ==> e@ == "Invalid Jira ticket ID"@,
{
    let trimmed = str_trim(ticket_id);
    let v = chars_vec(trimmed);
    let ghost s = trim_of(ticket_id@);
    let mut d: usize = 0;
    while d < v.len() && !(v[d] == '-')
        invariant
            v@ == s,
            d <= v.len(),
            forall|j: int| 0 <= j < d ==> s[j] != '-',
        decreases v.len() - d,
    {
        d = d + 1;
    }
    proof {
        lemma_first_char_at(s, '-', d as int);
    }
    if d == v.len() || d < 2 {
        return Err(String::from_str("Invalid Jira ticket ID"));
    }
    let mut i: usize = 0;
    let mut project_ok = true;
    while i < d
        invariant
            v@ == s,
            d < v.len(),
            i <= d,
            project_ok <==> (forall|j: int|
                0 <= j < i ==> (spec_ascii_uppercase(#[trigger] s[j]) || spec_ascii_digit(s[j])
                    || s[j] == '_')),
        decreases d - i,
    {
        let c = v[i];
        let good = is_ascii_uppercase_char(c) || is_ascii_digit_char(c) || c == '_';
        project_ok = project_ok && good;
        i = i + 1;
    }
    proof {
        assert(s.take(d as int).len() == d);
        assert(forall|j: int| 0 <= j < d ==> s.take(d as int)[j] == s[j]);
    }
    if !project_ok {
        return Err(String::from_str("Invalid Jira ticket ID"));
    }
    let ghost number = s.skip(d + 1);
    if d + 1 == v.len() {
        proof {
            assert(number.len() == 0);
        }
        return Err(String::from_str("Invalid Jira ticket ID"));
    }
    let mut k: usize = d + 1;
    let mut digits_ok = true;
    while k < v.len()
        invariant
            v@ == s,
            number == s.skip(d + 1),
            d + 1 <= k <= v.len(),
            d + 1 < v.len(),
            digits_ok <==> (forall|j: int|
                d + 1 <= j < k ==> spec_ascii_digit(#[trigger] s[j])),
        decreases v.len() - k,
    {
        let good = is_ascii_digit_char(v[k]);
        digits_ok = digits_ok && good;
        k = k + 1;
    }
    proof {
        assert(number.len() == s.len() - d - 1);
        assert(forall|j: int| 0 <= j < number.len() ==> number[j] == s[j + d + 1]);
        if digits_ok {
            assert forall|j: int| 0 <= j < number.len() implies spec_ascii_digit(
                #[trigger] number[j],
            ) by {
                assert(number[j] == s[j + d + 1]);
            }
        } else {
            let w = choose|w: int| d + 1 <= w < s.len() && !spec_ascii_digit(s[w]);
            assert(number[w - d - 1] == s[w]);
        }
    }
    if !digits_ok {
        return Err(String::from_str("Invalid Jira ticket ID"));
    }
    Ok(String::from_str(trimmed))
}

/// A valid Zendesk ticket reference, after trimming: a non-empty run of
/// digits.
pub open spec fn spec_zendesk_ticket_valid(t: Seq<char>) -> bool {
    spec_all_digits(trim_of(t))
}

/// Validate a Zendesk ticket number; a valid one is returned trimmed.
pub fn validate_zendesk_ticket_id(ticket_id: &str) -> (r: Result<String, String>)
    ensures
        r is Ok <==> spec_zendesk_ticket_valid(ticket_id@),
        r matches Ok(out) ==> out@ == trim_of(ticket_id@),
        r matches Err(e) ==> e@ == "Invalid Zendesk ticket ID"@,
{
    let trimmed = str_trim(ticket_id);
    let v = chars_vec(trimmed);
    let ghost s = trim_of(ticket_id@);
    if v.len() == 0 {
        return Err(String::from_str("Invalid Zendesk ticket ID"));
    }
    let mut i: usize = 0;
    let mut digits_ok = true;
    while i < v.len()
        invariant
            v@ == s,
            i <= v.len(),
            digits_ok <==> (forall|j: int| 0 <= j < i ==> spec_ascii_digit(#[trigger] s[j])),
        decreases v.len() - i,
    {
        let good = is_ascii_digit_char(v[i]);
        digits_ok = digits_ok && good;
        i = i + 1;
    }
    if !digits_ok {
        return Err(String::from_str("Invalid Zendesk ticket ID"));
    }
    Ok(String::from_str(trimmed))
}

/// A valid Zendesk subdomain, after trimming and case folding: one to
/// sixty-three characters, all lower-case letters, digits or dashes, neither
/// starting nor ending with a dash (dots and slashes are thereby refused).
pub open spec fn spec_zendesk_subdomain_ok(n: Seq<char>) -> bool {
    &&& 1 <= n.len() <= 63
    &&& n[0] != '-'
    &&& n[n.len() - 1] != '-'
    &&& forall|i: int|
        0 <= i < n.len() ==> (spec_ascii_lowercase(#[trigger] n[i]) || spec_ascii_digit(n[i])
            || n[i] == '-')
}

/// Validate a Zendesk subdomain; a valid one is returned trimmed and case
/// folded.
pub fn validate_zendesk_subdomain(subdomain: &str) -> (r: Result<String, String>)
    ensures
        r is Ok <==> spec_zendesk_subdomain_ok(
            crate::query::lower_of(trim_of(subdomain@)),
        ),
        r matches Ok(out) ==> out@ == crate::query::lower_of(trim_of(subdomain@)),
        r matches Err(e) ==> e@ == "Invalid Zendesk subdomain"@,
{
    let trimmed = str_trim(subdomain);
    let normalized = crate::query::to_lowercase(trimmed);
    let v = chars_vec(normalized.as_str());
    let ghost n = crate::query::lower_of(trim_of(subdomain@));
    if v.len() == 0 || v.len() > 63 {
        return Err(String::from_str("Invalid Zendesk subdomain"));
    }
    if v[0] == '-' || v[v.len() - 1] == '-' {
        return Err(String::from_str("Invalid Zendesk subdomain"));
    }
    let mut i: usize = 0;
    let mut charset_ok = true;
    while i < v.len()
        invariant
            v@ == n,
            i <= v.len(),
            charset_ok <==> (forall|j: int|
                0 <= j < i ==> (spec_ascii_lowercase(#[trigger] n[j]) || spec_ascii_digit(n[j])
                    || n[j] == '-')),
        decreases v.len() - i,
    {
        let c = v[i];
        let good = is_ascii_lowercase_char(c) || is_ascii_digit_char(c) || c == '-';
        charset_ok = charset_ok && good;
        i = i + 1;
    }
    if !charset_ok {
        return Err(String::from_str("Invalid Zendesk subdomain"));
    }
    Ok(normalized)
}

// ---------------------------------------------------------------------------
// Request shaping
// ---------------------------------------------------------------------------

/// What base64's standard engine makes of the UTF-8 bytes of a string: a
/// function of the characters alone.
pub uninterp spec fn b64_standard_of(s: Seq<char>) -> Seq<char>;

/// Relies on base64's `STANDARD` engine to encode the UTF-8 bytes of the
/// input.
#[verifier::external_body]
fn b64_encode(s: &str) -> (r: String)
    ensures
        r@ == b64_standard_of(s@),
{
    base64::Engine::encode(&base64::engine::general_purpose::STANDARD, s)
}

/// The credential text each service expects before encoding: Jira joins the
/// account email and the token with a colon; Zendesk marks the email as a
/// token login.
pub open spec fn spec_credentials(email: Seq<char>, token: Seq<char>, service: Service) -> Seq<
    char,
> {
    match service {
        Service::Jira => email + ":"@ + token,
        Service::Zendesk => email + "/token:"@ + token,
    }
}

/// The Basic authorization header value for a service's API.
pub fn basic_auth_header(email: &str, api_token: &str, service: Service) -> (r: String)
    ensures
        r@ == "Basic "@ + b64_standard_of(spec_credentials(email@, api_token@, service)),
{
    let credentials = match service {
        Service::Jira => String::from_str(email).concat(":").concat(api_token),
        Service::Zendesk => String::from_str(email).concat("/token:").concat(api_token),
    };
    String::from_str("Basic ").concat(b64_encode(credentials.as_str()).as_str())
}

/// Where an attachment is posted on a Jira instance.
pub fn jira_attachments_url(base_url: &str, ticket_id: &str) -> (r: String)
    ensures
        r@ == base_url@ + "/rest/api/3/issue/"@ + ticket_id@ + "/attachments"@,
{
    String::from_str(base_url).concat("/rest/api/3/issue/").concat(ticket_id).concat(
        "/attachments",
    )
}

/// Where a comment is posted on a Jira issue.
pub fn jira_comment_url(base_url: &str, ticket_id: &str) -> (r: String)
    ensures
        r@ == base_url@ + "/rest/api/3/issue/"@ + ticket_id@ + "/comment"@,
{
    String::from_str(base_url).concat("/rest/api/3/issue/").concat(ticket_id).concat("/comment")
}

/// Where a Jira issue is browsed; also reported as the attachment's address.
pub fn jira_browse_url(base_url: &str, ticket_id: &str) -> (r: String)
    ensures
        r@ == base_url@ + "/browse/"@ + ticket_id@,
{
    String::from_str(base_url).concat("/browse/").concat(ticket_id)
}

/// Where a Jira credential check asks for the calling user.
pub fn jira_myself_url(base_url: &str) -> (r: String)
    ensures
        r@ == base_url@ + "/rest/api/3/myself"@,
{
    String::from_str(base_url).concat("/rest/api/3/myself")
}

/// Where a file is first uploaded on a Zendesk instance.
pub fn zendesk_upload_url(subdomain: &str, filename: &str) -> (r: String)
    ensures
        r@ == "https://"@ + subdomain@ + ".zendesk.com/api/v2/uploads?filename="@ + filename@,
{
    String::from_str("https://").concat(subdomain).concat(
        ".zendesk.com/api/v2/uploads?filename=",
    ).concat(filename)
}

/// Where the upload is attached to a Zendesk ticket as a comment.
pub fn zendesk_comment_url(subdomain: &str, ticket_id: &str) -> (r: String)
    ensures
        r@ == "https://"@ + subdomain@ + ".zendesk.com/api/v2/tickets/"@ + ticket_id@
            + "/comments"@,
{
    String::from_str("https://").concat(subdomain).concat(".zendesk.com/api/v2/tickets/").concat(
        ticket_id,
    ).concat("/comments")
}

/// Where a Zendesk ticket is viewed by an agent.
pub fn zendesk_agent_ticket_url(subdomain: &str, ticket_id: &str) -> (r: String)
    ensures
        r@ == "https://"@ + subdomain@ + ".zendesk.com/agent/tickets/"@ + ticket_id@,
{
    String::from_str("https://").concat(subdomain).concat(".zendesk.com/agent/tickets/").concat(
        ticket_id,
    )
}

/// Where a Zendesk credential check asks for the calling user.
pub fn zendesk_users_me_url(subdomain: &str) -> (r: String)
    ensures
        r@ == "https://"@ + subdomain@ + ".zendesk.com/api/v2/users/me"@,
{
    String::from_str("https://").concat(subdomain).concat(".zendesk.com/api/v2/users/me")
}

} // verus!
