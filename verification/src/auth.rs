//! Join tokens.
use std::sync::Arc;

use jsonwebtoken::errors::ErrorKind;
use jsonwebtoken::{decode, Algorithm, DecodingKey, Validation};
use serde::de::Error as _;
use serde_json::Value;
use vstd::prelude::*;
use vstd::string::*;

use crate::text::{trim, trimmed};

verus! {

/// `jsonwebtoken::errors::ErrorKind`: why a token was refused.
#[verifier::external_type_specification]
#[verifier::external_body]
pub struct ExErrorKind(ErrorKind);

/// `serde_json::Value`: a JSON document.
#[verifier::external_type_specification]
#[verifier::external_body]
pub struct ExValue(Value);

/// The join token the host application mints. It is deliberately NOT
/// LiveKit-shaped: the SFU trusts exactly these fields and nothing else.
#[derive(Debug)]
pub struct JoinClaims {
    /// The user id. Doubles as the participant identity the host application
    /// expects back in its webhook events.
    pub sub: String,
    pub room: String,
    pub call_id: String,
    pub name: String,
    pub avatar_url: String,
    /// Read by the JWT library, not by us: the field must exist for expiry to
    /// be enforced.
    pub exp: i64,
}

#[verifier::ext_equal]
pub struct JoinClaimsView {
    pub sub: Seq<char>,
    pub room: Seq<char>,
    pub call_id: Seq<char>,
    pub name: Seq<char>,
    pub avatar_url: Seq<char>,
    pub exp: i64,
}

impl View for JoinClaims {
    type V = JoinClaimsView;

    open spec fn view(&self) -> JoinClaimsView {
        JoinClaimsView {
            sub: self.sub@,
            room: self.room@,
            call_id: self.call_id@,
            name: self.name@,
            avatar_url: self.avatar_url@,
            exp: self.exp,
        }
    }
}

impl Clone for JoinClaims {
    fn clone(&self) -> (copy: Self)
        ensures
            copy@ == self@,
    {
        JoinClaims {
            sub: self.sub.clone(),
            room: self.room.clone(),
            call_id: self.call_id.clone(),
            name: self.name.clone(),
            avatar_url: self.avatar_url.clone(),
            exp: self.exp,
        }
    }
}

impl JoinClaimsView {
    /// The claims say who joins what.
    pub open spec fn is_complete(self) -> bool {
        self.sub.len() > 0 && self.room.len() > 0 && self.call_id.len() > 0
    }
}

#[derive(Debug)]
pub enum AuthError {
    /// The library refused it. The kind is carried because a wrong shared
    /// secret, an expired token and a truncated one are three different
    /// operator mistakes, and collapsing them into one message would make a
    /// misconfigured deployment look exactly like a clock skew.
    Invalid(ErrorKind),
    /// It is missing sub, room or call_id.
    IncompleteClaims,
}

/// One claim of a token.
#[derive(Debug)]
pub enum Claim {
    Absent,
    Text(String),
    Integer(i64),
    Other,
}

#[verifier::ext_equal]
pub enum ClaimView {
    Absent,
    Text(Seq<char>),
    Integer(i64),
    Other,
}

impl View for Claim {
    type V = ClaimView;

    open spec fn view(&self) -> ClaimView {
        match *self {
            Claim::Absent => ClaimView::Absent,
            Claim::Text(text) => ClaimView::Text(text@),
            Claim::Integer(number) => ClaimView::Integer(number),
            Claim::Other => ClaimView::Other,
        }
    }
}

/// What a token holds under a secret that signed it with HS256, or why it holds
/// nothing. Claims about time are not looked at.
pub uninterp spec fn payload_of(token: Seq<char>, secret: Seq<char>) -> Result<Value, ErrorKind>;

/// Calls `jsonwebtoken::decode` for HS256 with no claim required and none
/// checked. The outcome depends on the token and the secret alone.
#[verifier::external_body]
fn read_token(token: &str, secret: &str) -> (payload: Result<Value, ErrorKind>)
    ensures
        payload == payload_of(token@, secret@),
{
    let mut validation = Validation::new(Algorithm::HS256);
    validation.validate_aud = false;
    validation.validate_exp = false;
    validation.required_spec_claims.clear();
    let key = DecodingKey::from_secret(secret.as_bytes());
    decode::<Value>(token, &key, &validation).map(|data| data.claims).map_err(|e| e.into_kind())
}

/// Whether the check of a token's expiry can have an outcome, at one time or
/// another.
pub uninterp spec fn can_turn_out(token: Seq<char>, secret: Seq<char>, current: Result<(), ErrorKind>) -> bool;

/// Calls `jsonwebtoken::decode` for HS256 with `exp` required and checked
/// against the clock, and the audience not checked. What the clock says is left
/// open, so the outcome is only one that the check of this token can have; a
/// token that holds nothing is refused at any time.
#[verifier::external_body]
fn check_expiry(token: &str, secret: &str) -> (current: Result<(), ErrorKind>)
    ensures
        can_turn_out(token@, secret@, current),
        payload_of(token@, secret@) is Err ==> current is Err,
{
    let mut validation = Validation::new(Algorithm::HS256);
    validation.validate_aud = false;
    validation.set_required_spec_claims(&["exp"]);
    let key = DecodingKey::from_secret(secret.as_bytes());
    decode::<Value>(token, &key, &validation).map(|_| ()).map_err(|e| e.into_kind())
}

/// The claim of a payload that goes by a name.
pub uninterp spec fn claim_of(payload: Value, name: Seq<char>) -> ClaimView;

/// Calls `serde_json::Value::get` and tells the kinds of JSON values apart. A
/// number counts as an integer where `serde_json::Number::as_i64` gives one.
#[verifier::external_body]
fn read_claim(payload: &Value, name: &str) -> (claim: Claim)
    ensures
        claim@ == claim_of(*payload, name@),
{
    match payload.get(name) {
        None => Claim::Absent,
        Some(Value::String(text)) => Claim::Text(text.clone()),
        Some(Value::Number(number)) => match number.as_i64() {
            Some(number) => Claim::Integer(number),
            None => Claim::Other,
        },
        Some(_) => Claim::Other,
    }
}

/// The refusal of a token over its JSON, in these words.
pub uninterp spec fn json_error_of(message: Seq<char>) -> ErrorKind;

/// Makes the JSON error of `jsonwebtoken` that says a message, with
/// `serde::de::Error::custom` of `serde_json::Error`.
#[verifier::external_body]
fn json_error(message: &str) -> (kind: ErrorKind)
    ensures
        kind == json_error_of(message@),
{
    ErrorKind::Json(Arc::new(serde_json::Error::custom(message)))
}

/// The refusal of a token over one of its claims, which is missing or of the wrong
/// kind.
pub open spec fn shape_error_of(name: Seq<char>) -> ErrorKind {
    json_error_of("missing or malformed claim: "@ + name)
}

fn shape_error(name: &str) -> (kind: ErrorKind)
    ensures
        kind == shape_error_of(name@),
{
    let mut message = "missing or malformed claim: ".to_string();
    message.append(name);
    json_error(message.as_str())
}

/// A claim that has to be a text.
pub open spec fn required_text(claim: ClaimView) -> Option<Seq<char>> {
    match claim {
        ClaimView::Text(text) => Some(text),
        _ => None,
    }
}

/// A claim that is a text if it is there, and empty if not.
pub open spec fn optional_text(claim: ClaimView) -> Option<Seq<char>> {
    match claim {
        ClaimView::Text(text) => Some(text),
        ClaimView::Absent => Some(Seq::empty()),
        _ => None,
    }
}

/// The claims in a payload, or the refusal over the first that is amiss.
pub open spec fn claims_in(payload: Value) -> Result<JoinClaimsView, ErrorKind> {
    let sub = required_text(claim_of(payload, "sub"@));
    let room = required_text(claim_of(payload, "room"@));
    let call_id = required_text(claim_of(payload, "call_id"@));
    let name = optional_text(claim_of(payload, "name"@));
    let avatar_url = optional_text(claim_of(payload, "avatar_url"@));
    let exp = claim_of(payload, "exp"@);
    if sub is None {
        Err(shape_error_of("sub"@))
    } else if room is None {
        Err(shape_error_of("room"@))
    } else if call_id is None {
        Err(shape_error_of("call_id"@))
    } else if name is None {
        Err(shape_error_of("name"@))
    } else if avatar_url is None {
        Err(shape_error_of("avatar_url"@))
    } else if exp !is Integer {
        Err(shape_error_of("exp"@))
    } else {
        Ok(JoinClaimsView {
            sub: sub->0,
            room: room->0,
            call_id: call_id->0,
            name: name->0,
            avatar_url: avatar_url->0,
            exp: exp->Integer_0,
        })
    }
}

/// The view of an outcome of reading claims.
pub open spec fn claims_view(
    claims: Result<JoinClaims, ErrorKind>,
) -> Result<JoinClaimsView, ErrorKind> {
    match claims {
        Ok(claims) => Ok(claims@),
        Err(kind) => Err(kind),
    }
}

fn need_text(payload: &Value, name: &str) -> (text: Result<String, ErrorKind>)
    ensures
        match required_text(claim_of(*payload, name@)) {
            Some(expected) => text matches Ok(text) && text@ == expected,
            None => text == Err::<String, ErrorKind>(shape_error_of(name@)),
        },
{
    match read_claim(payload, name) {
        Claim::Text(text) => Ok(text),
        _ => Err(shape_error(name)),
    }
}

fn take_text(payload: &Value, name: &str) -> (text: Result<String, ErrorKind>)
    ensures
        match optional_text(claim_of(*payload, name@)) {
            Some(expected) => text matches Ok(text) && text@ == expected,
            None => text == Err::<String, ErrorKind>(shape_error_of(name@)),
        },
{
    match read_claim(payload, name) {
        Claim::Text(text) => Ok(text),
        Claim::Absent => {
            proof {
                reveal_strlit("");
            }
            let text = "".to_string();
            assert(text@ =~= Seq::empty());
            Ok(text)
        },
        _ => Err(shape_error(name)),
    }
}

/// Reads the claims out of a token's payload. The last one counts where a claim
/// is written twice.
pub fn read_claims(payload: &Value) -> (claims: Result<JoinClaims, ErrorKind>)
    ensures
        claims_view(claims) == claims_in(*payload),
{
    let sub = match need_text(payload, "sub") {
        Ok(text) => text,
        Err(kind) => {
            return Err(kind);
        },
    };
    let room = match need_text(payload, "room") {
        Ok(text) => text,
        Err(kind) => {
            return Err(kind);
        },
    };
    let call_id = match need_text(payload, "call_id") {
        Ok(text) => text,
        Err(kind) => {
            return Err(kind);
        },
    };
    let name = match take_text(payload, "name") {
        Ok(text) => text,
        Err(kind) => {
            return Err(kind);
        },
    };
    let avatar_url = match take_text(payload, "avatar_url") {
        Ok(text) => text,
        Err(kind) => {
            return Err(kind);
        },
    };
    match read_claim(payload, "exp") {
        Claim::Integer(exp) => Ok(JoinClaims { sub, room, call_id, name, avatar_url, exp }),
        _ => Err(shape_error("exp")),
    }
}

/// What a token with these claims grants, given whether it is current.
pub open spec fn granted(
    claims: JoinClaimsView,
    current: Result<(), ErrorKind>,
    outcome: Result<JoinClaims, AuthError>,
) -> bool {
    match current {
        Err(kind) => outcome == Err::<JoinClaims, AuthError>(AuthError::Invalid(kind)),
        Ok(_) => if claims.is_complete() {
            outcome matches Ok(granted) && granted@ == claims
        } else {
            outcome == Err::<JoinClaims, AuthError>(AuthError::IncompleteClaims)
        },
    }
}

/// What a token that makes these claims grants, depending on the time.
pub open spec fn granted_at_some_time(
    token: Seq<char>,
    secret: Seq<char>,
    claims: JoinClaimsView,
    outcome: Result<JoinClaims, AuthError>,
) -> bool {
    exists|current: Result<(), ErrorKind>|
        #[trigger] can_turn_out(token, secret, current) && granted(claims, current, outcome)
}

/// Decides on a token that is genuine, given whether it is current.
pub fn grant(
    claims: JoinClaims,
    current: Result<(), ErrorKind>,
) -> (outcome: Result<JoinClaims, AuthError>)
    ensures
        granted(claims@, current, outcome),
{
    match current {
        Err(kind) => Err(AuthError::Invalid(kind)),
        Ok(_) => if claims.sub.as_str().is_empty() || claims.room.as_str().is_empty()
            || claims.call_id.as_str().is_empty() {
            Err(AuthError::IncompleteClaims)
        } else {
            Ok(claims)
        },
    }
}

/// What verifying a token can come to. A token that is not genuine, or whose
/// claims are amiss, is refused for that; one that is genuine is subject to the
/// time.
pub open spec fn is_verdict(
    token: Seq<char>,
    secret: Seq<char>,
    outcome: Result<JoinClaims, AuthError>,
) -> bool {
    match payload_of(trimmed(token), secret) {
        Err(kind) => outcome == Err::<JoinClaims, AuthError>(AuthError::Invalid(kind)),
        Ok(payload) => match claims_in(payload) {
            Err(kind) => outcome == Err::<JoinClaims, AuthError>(AuthError::Invalid(kind)),
            Ok(claims) => granted_at_some_time(trimmed(token), secret, claims, outcome),
        },
    }
}

/// A token is accepted only if it is genuine, found to be current and complete,
/// and then for exactly the claims it makes.
pub proof fn only_genuine_tokens_pass(
    token: Seq<char>,
    secret: Seq<char>,
    outcome: Result<JoinClaims, AuthError>,
)
    requires
        is_verdict(token, secret, outcome),
    ensures
        outcome matches Ok(claims) ==> {
            &&& payload_of(trimmed(token), secret) matches Ok(payload)
            &&& claims_in(payload) == Ok::<JoinClaimsView, ErrorKind>(claims@)
            &&& can_turn_out(trimmed(token), secret, Ok(()))
            &&& claims@.is_complete()
        },
{
    if let Ok(claims) = outcome {
        let current = choose|current: Result<(), ErrorKind>|
            #[trigger] can_turn_out(trimmed(token), secret, current) && granted(
                claims@,
                current,
                outcome,
            );
        assert(current->Ok_0 == ());
    }
}

/// A genuine, complete token that is current is accepted.
pub proof fn current_tokens_pass(claims: JoinClaimsView, outcome: Result<JoinClaims, AuthError>)
    requires
        claims.is_complete(),
        granted(claims, Ok(()), outcome),
    ensures
        outcome matches Ok(passed) && passed@ == claims,
{
}

/// Verifies a join token. Expiry is enforced by the library; a 90s TTL is minted
/// by the host application so a leaked token is useless almost immediately.
pub fn verify(token: &str, secret: &str) -> (outcome: Result<JoinClaims, AuthError>)
    ensures
        is_verdict(token@, secret@, outcome),
{
    let token = trim(token);
    let payload = match read_token(token, secret) {
        Ok(payload) => payload,
        Err(kind) => {
            return Err(AuthError::Invalid(kind));
        },
    };
    match read_claims(&payload) {
        Ok(claims) => {
            let ghost found = claims@;
            let current = check_expiry(token, secret);
            let ghost seen = current;
            let outcome = grant(claims, current);
            assert(can_turn_out(token@, secret@, seen) && granted(found, seen, outcome));
            assert(granted_at_some_time(token@, secret@, found, outcome));
            outcome
        },
        Err(kind) => Err(AuthError::Invalid(kind)),
    }
}

/// A claim that may be left out is a text or absent, and then empty.
pub open spec fn is_said(claim: ClaimView, text: Seq<char>) -> bool {
    claim == ClaimView::Text(text) || (claim is Absent && text.len() == 0)
}

/// A payload says all this.
pub open spec fn makes_claims(payload: Value, claims: JoinClaimsView) -> bool {
    &&& claim_of(payload, "sub"@) == ClaimView::Text(claims.sub)
    &&& claim_of(payload, "room"@) == ClaimView::Text(claims.room)
    &&& claim_of(payload, "call_id"@) == ClaimView::Text(claims.call_id)
    &&& is_said(claim_of(payload, "name"@), claims.name)
    &&& is_said(claim_of(payload, "avatar_url"@), claims.avatar_url)
    &&& claim_of(payload, "exp"@) == ClaimView::Integer(claims.exp)
}

/// Whoever is let in with a token is who the token says, in the room and the call it
/// says, none of which may be empty; the token is signed with the secret and can be
/// found current.
pub proof fn a_token_grants_what_it_says(
    token: Seq<char>,
    secret: Seq<char>,
    outcome: Result<JoinClaims, AuthError>,
)
    requires
        is_verdict(token, secret, outcome),
    ensures
        outcome matches Ok(granted) ==> {
            &&& payload_of(trimmed(token), secret) matches Ok(payload)
            &&& makes_claims(payload, granted@)
            &&& granted@.sub.len() > 0
            &&& granted@.room.len() > 0
            &&& granted@.call_id.len() > 0
            &&& can_turn_out(trimmed(token), secret, Ok(()))
        },
        payload_of(trimmed(token), secret) matches Err(kind) ==> outcome == Err::<
            JoinClaims,
            AuthError,
        >(AuthError::Invalid(kind)),
{
    only_genuine_tokens_pass(token, secret, outcome);
}

/// A token that is signed with the secret and says who joins what is turned down over
/// nothing but the time, and lets in whom it names. One that leaves the user, the room
/// or the call empty lets nobody in.
pub proof fn a_proper_token_is_good_for_its_time(
    token: Seq<char>,
    secret: Seq<char>,
    payload: Value,
    claims: JoinClaimsView,
    outcome: Result<JoinClaims, AuthError>,
)
    requires
        is_verdict(token, secret, outcome),
        payload_of(trimmed(token), secret) == Ok::<Value, ErrorKind>(payload),
        makes_claims(payload, claims),
    ensures
        claims.sub.len() > 0 && claims.room.len() > 0 && claims.call_id.len() > 0 ==> match outcome {
            Ok(granted) => granted@ == claims,
            Err(AuthError::Invalid(kind)) => can_turn_out(trimmed(token), secret, Err(kind)),
            Err(AuthError::IncompleteClaims) => false,
        },
        claims.sub.len() == 0 || claims.room.len() == 0 || claims.call_id.len() == 0 ==> outcome is Err
            && (can_turn_out(trimmed(token), secret, Ok(())) || outcome
            != Err::<JoinClaims, AuthError>(AuthError::IncompleteClaims)),
{
    assert(claims_in(payload) matches Ok(found) && found =~= claims);
    let current = choose|current: Result<(), ErrorKind>|
        #[trigger] can_turn_out(trimmed(token), secret, current) && granted(claims, current, outcome);
    if current is Ok {
        assert(current->Ok_0 == ());
    }
}

/// Of a genuine token with proper claims, being current is all that decides.
pub proof fn time_decides_on_proper_tokens(
    claims: JoinClaimsView,
    current: Result<(), ErrorKind>,
    outcome: Result<JoinClaims, AuthError>,
)
    requires
        granted(claims, current, outcome),
    ensures
        outcome is Ok <==> current is Ok && claims.sub.len() > 0 && claims.room.len() > 0
            && claims.call_id.len() > 0,
        outcome matches Ok(given) ==> given@ == claims,
        current matches Err(kind) ==> outcome == Err::<JoinClaims, AuthError>(
            AuthError::Invalid(kind),
        ),
        current is Ok && outcome is Err ==> outcome == Err::<JoinClaims, AuthError>(
            AuthError::IncompleteClaims,
        ),
{
}

} // verus!
