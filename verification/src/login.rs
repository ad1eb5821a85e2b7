//! Decisions of the two sign-in flows: what a status code of the remote
//! service means, how the session cookie is put together, and how the
//! picture of a QR code is taken out of its data URL.
//!
//! Talking to the service, showing the code and storing the session are
//! left to the caller.

use vstd::prelude::*;
use vstd::slice::slice_subrange;
use vstd::string::{StringExecFns, StringSliceAdditionalSpecFns};
use base64::Engine;

verus! {

/// The status code with which the service accepts a request.
pub const STATUS_OK: i32 = 200;

/// The status code of a QR code that is no longer valid.
pub const QR_EXPIRED: i32 = 800;

/// The status code of a QR code that nobody has scanned yet.
pub const QR_WAITING: i32 = 801;

/// The status code of a QR code that was scanned and awaits confirmation.
pub const QR_SCANNED: i32 = 802;

/// The status code of a QR code whose sign-in was confirmed.
pub const QR_CONFIRMED: i32 = 803;

/// The byte of a comma.
pub const COMMA: u8 = 0x2c;

/// Why a sign-in did not go through.
#[derive(Clone, Copy, Debug, PartialEq, Eq)]
pub enum LoginError {
    /// The service answered the password sign-in with this status code.
    Rejected(i32),
    /// The service did not hand out a key for a QR code.
    KeyRefused,
    /// The service did not make a QR code.
    CodeRefused,
    /// The picture of the QR code is not valid base64.
    BadPicture,
    /// The QR code is no longer valid.
    Expired,
}

/// The texts of `parts`, with `separator` between each two.
pub open spec fn joined(parts: Seq<String>, separator: Seq<char>) -> Seq<char>
    decreases parts.len(),
{
    if parts.len() == 0 {
        Seq::empty()
    } else if parts.len() == 1 {
        parts[0]@
    } else {
        joined(parts.drop_last(), separator) + separator + parts.last()@
    }
}

/// The cookie header made of the cookies that a response set: the
/// cookies in order, separated by a semicolon and a space.
pub fn cookie_header(cookies: &Vec<String>) -> (header: String)
    ensures
        header@ == joined(cookies@, "; "@),
{
    let mut header = String::new();
    let mut i: usize = 0;
    while i < cookies.len()
        invariant
            i <= cookies.len(),
            header@ == joined(cookies@.take(i as int), "; "@),
        decreases cookies.len() - i,
    {
        if i > 0 {
            header.append("; ");
        }
        header.append(cookies[i].as_str());
        proof {
            let before = cookies@.take(i as int);
            let now = cookies@.take(i + 1);
            assert(now.drop_last() =~= before);
            assert(now.last() == cookies@[i as int]);
            if i == 0 {
                assert(header@ =~= now[0]@);
            }
        }
        i = i + 1;
    }
    assert(cookies@.take(cookies.len() as int) =~= cookies@);
    header
}

/// The outcome of a password sign-in that the service answered with
/// `code` while setting `cookies`: accepted with the session cookie, or
/// rejected with the code.
pub fn password_login(code: i32, cookies: &Vec<String>) -> (session: Result<String, LoginError>)
    ensures
        code == STATUS_OK ==> session is Ok && session->Ok_0@ == joined(cookies@, "; "@),
        code != STATUS_OK ==> session == Err::<String, LoginError>(LoginError::Rejected(code)),
{
    if code == STATUS_OK {
        Ok(cookie_header(cookies))
    } else {
        Err(LoginError::Rejected(code))
    }
}

/// The key of a new QR code, as the service handed it out with `code`.
pub fn qr_key(code: i32, key: String) -> (accepted: Result<String, LoginError>)
    ensures
        code == STATUS_OK ==> accepted == Ok::<String, LoginError>(key),
        code != STATUS_OK ==> accepted == Err::<String, LoginError>(LoginError::KeyRefused),
{
    if code == STATUS_OK {
        Ok(key)
    } else {
        Err(LoginError::KeyRefused)
    }
}

/// The position of the first comma in `text`, or its length if it holds
/// none.
pub open spec fn comma_at(text: Seq<u8>) -> int
    decreases text.len(),
{
    if text.len() == 0 || text[0] == COMMA {
        0
    } else {
        1 + comma_at(text.drop_first())
    }
}

/// The second of the fields that commas divide `text` into, or nothing
/// if `text` holds no comma.
pub open spec fn second_field(text: Seq<u8>) -> Seq<u8> {
    let first = comma_at(text);
    if first >= text.len() {
        Seq::empty()
    } else {
        let rest = text.subrange(first + 1, text.len() as int);
        rest.subrange(0, comma_at(rest))
    }
}

/// The first comma stands where no comma stands before and a comma, or
/// the end, stands at.
pub proof fn lemma_comma_at(text: Seq<u8>, i: int)
    requires
        0 <= i <= text.len(),
        forall|j: int| 0 <= j < i ==> text[j] != COMMA,
        i == text.len() || text[i] == COMMA,
    ensures
        comma_at(text) == i,
    decreases text.len(),
{
    if i > 0 {
        let rest = text.drop_first();
        assert forall|j: int| 0 <= j < i - 1 implies rest[j] != COMMA by {
            assert(rest[j] == text[j + 1]);
        }
        lemma_comma_at(rest, i - 1);
    }
}

/// The position of the first comma of `text` at or after `from`, or the
/// length of `text` if none follows.
fn find_comma(text: &[u8], from: usize) -> (at: usize)
    requires
        from <= text@.len(),
    ensures
        from <= at <= text@.len(),
        at == from + comma_at(text@.subrange(from as int, text@.len() as int)),
{
    let mut at = from;
    while at < text.len() && text[at] != COMMA
        invariant
            from <= at <= text@.len(),
            forall|j: int| from <= j < at ==> text@[j] != COMMA,
        decreases text@.len() - at,
    {
        at = at + 1;
    }
    proof {
        let tail = text@.subrange(from as int, text@.len() as int);
        assert forall|j: int| 0 <= j < at - from implies tail[j] != COMMA by {
            assert(tail[j] == text@[from + j]);
        }
        lemma_comma_at(tail, at - from);
    }
    at
}

/// The payload of a data URL: what stands between its first comma and
/// its second, or its end.
pub fn data_url_payload<'a>(data_url: &'a [u8]) -> (payload: &'a [u8])
    ensures
        payload@ == second_field(data_url@),
{
    let first = find_comma(data_url, 0);
    assert(data_url@.subrange(0, data_url@.len() as int) =~= data_url@);
    if first >= data_url.len() {
        slice_subrange(data_url, 0, 0)
    } else {
        let second = find_comma(data_url, first + 1);
        proof {
            let rest = data_url@.subrange(first + 1, data_url@.len() as int);
            assert(data_url@.subrange(first + 1, second as int) =~= rest.subrange(
                0,
                comma_at(rest),
            ));
        }
        slice_subrange(data_url, first + 1, second)
    }
}

/// What the standard base64 alphabet with canonical padding decodes
/// `text` to, if `text` is valid in it.
pub uninterp spec fn base64_standard(text: Seq<u8>) -> Option<Seq<u8>>;

/// The error of the base64 decoder.
#[verifier::external_type_specification]
#[verifier::external_body]
pub struct ExDecodeError(base64::DecodeError);

/// Calls `decode` of base64's `STANDARD` engine on `text`. The decoder
/// reads nothing but its input, so its answer is a function of `text`:
/// it succeeds exactly where `base64_standard` has a value, and with
/// that value.
#[verifier::external_body]
fn base64_decode(text: &[u8]) -> (decoded: Result<Vec<u8>, base64::DecodeError>)
    ensures
        decoded is Ok <==> base64_standard(text@) is Some,
        decoded matches Ok(bytes) ==> base64_standard(text@) == Some(bytes@),
{
    base64::engine::general_purpose::STANDARD.decode(text)
}

/// What is made of the decoder's answer for the picture of a QR code.
pub fn picture_from(decoded: Result<Vec<u8>, base64::DecodeError>) -> (picture: Result<
    Vec<u8>,
    LoginError,
>)
    ensures
        decoded matches Ok(bytes) ==> picture == Ok::<Vec<u8>, LoginError>(bytes),
        decoded is Err ==> picture == Err::<Vec<u8>, LoginError>(LoginError::BadPicture),
{
    match decoded {
        Ok(bytes) => Ok(bytes),
        Err(_) => Err(LoginError::BadPicture),
    }
}

/// What `picture` says of a QR code that the service made with `code`
/// and, optionally, the data URL `data_url` of its picture.
pub open spec fn qr_picture_of(
    code: i32,
    data_url: Option<Seq<u8>>,
    picture: Result<Option<Vec<u8>>, LoginError>,
) -> bool {
    if code != STATUS_OK {
        picture == Err::<Option<Vec<u8>>, LoginError>(LoginError::CodeRefused)
    } else {
        match data_url {
            None => picture == Ok::<Option<Vec<u8>>, LoginError>(None),
            Some(text) => match base64_standard(second_field(text)) {
                Some(bytes) => picture matches Ok(Some(decoded)) && decoded@ == bytes,
                None => picture == Err::<Option<Vec<u8>>, LoginError>(LoginError::BadPicture),
            },
        }
    }
}

/// The picture of a QR code that the service made with `code`: refused
/// unless the code is 200; no picture if the service sent none; else the
/// bytes that the payload of its data URL decodes to, or `BadPicture`.
pub fn qr_picture(code: i32, data_url: Option<&str>) -> (picture: Result<
    Option<Vec<u8>>,
    LoginError,
>)
    ensures
        qr_picture_of(
            code,
            match data_url {
                Some(text) => Some(text.spec_bytes()),
                None => None,
            },
            picture,
        ),
{
    if code != STATUS_OK {
        return Err(LoginError::CodeRefused);
    }
    match data_url {
        None => Ok(None),
        Some(text) => {
            let payload = data_url_payload(text.as_bytes());
            match picture_from(base64_decode(payload)) {
                Ok(bytes) => Ok(Some(bytes)),
                Err(error) => Err(error),
            }
        },
    }
}

/// What one look at a QR code found.
#[derive(Clone, Debug, PartialEq, Eq)]
pub enum QrStep {
    /// Nobody has scanned the code yet: look again.
    Waiting,
    /// The code was scanned and awaits confirmation: look again.
    Scanned,
    /// The sign-in was confirmed but no cookie came with it: look again.
    ConfirmedWithoutCookie,
    /// The service answered with a status that is not known: look again.
    Unknown,
    /// The sign-in was confirmed with this session cookie: stop.
    SignedIn(String),
}

/// What the status `code` of a QR code means, given the cookie that came
/// with it.
pub open spec fn qr_step_of(code: i32, cookie: Option<String>) -> Result<QrStep, LoginError> {
    if code == QR_EXPIRED {
        Err(LoginError::Expired)
    } else if code == QR_WAITING {
        Ok(QrStep::Waiting)
    } else if code == QR_SCANNED {
        Ok(QrStep::Scanned)
    } else if code == QR_CONFIRMED {
        match cookie {
            Some(cookie) => Ok(QrStep::SignedIn(cookie)),
            None => Ok(QrStep::ConfirmedWithoutCookie),
        }
    } else {
        Ok(QrStep::Unknown)
    }
}

/// Decides what one look at a QR code means: an expired code ends the
/// sign-in with an error, a confirmed one with a cookie ends it with
/// success, and everything else asks for another look.
pub fn qr_step(code: i32, cookie: Option<String>) -> (step: Result<QrStep, LoginError>)
    ensures
        step == qr_step_of(code, cookie),
{
    if code == QR_EXPIRED {
        Err(LoginError::Expired)
    } else if code == QR_WAITING {
        Ok(QrStep::Waiting)
    } else if code == QR_SCANNED {
        Ok(QrStep::Scanned)
    } else if code == QR_CONFIRMED {
        match cookie {
            Some(cookie) => Ok(QrStep::SignedIn(cookie)),
            None => Ok(QrStep::ConfirmedWithoutCookie),
        }
    } else {
        Ok(QrStep::Unknown)
    }
}

} // verus!
