//! The ChatGPT account id that an OAuth id token (a JWT) carries in its payload.
use vstd::prelude::*;
use crate::text::push_char;
use base64::Engine;

verus! {

/// The claim of the payload that holds OpenAI's authorization data.
pub const AUTH_CLAIM: &'static str = "https://api.openai.com/auth";
/// The member of that claim that holds the ChatGPT account id.
pub const ACCOUNT_ID_CLAIM: &'static str = "chatgpt_account_id";

/// The pieces of `s` between its dots.
pub open spec fn segments(s: Seq<char>) -> Seq<Seq<char>>
    decreases s.len(),
{
    if s.len() == 0 {
        seq![Seq::<char>::empty()]
    } else {
        let prev = segments(s.drop_last());
        if s.last() == '.' {
            prev.push(Seq::<char>::empty())
        } else {
            prev.update(prev.len() - 1, prev.last().push(s.last()))
        }
    }
}

/// The payload segment of a token of the form `header.payload.signature`.
pub open spec fn jwt_payload(token: Seq<char>) -> Option<Seq<char>> {
    if segments(token).len() == 3 { Some(segments(token)[1]) } else { None }
}

/// What `base64`'s URL-safe engine without padding decodes `text` to, or `None` where it refuses it.
pub uninterp spec fn base64_url_decoded(text: Seq<char>) -> Option<Seq<u8>>;

/// The string member `inner` of the object member `outer` of the JSON object in `payload`,
/// as `serde_json` reads it; `None` where there is none.
pub uninterp spec fn json_nested_string(payload: Seq<u8>, outer: Seq<char>, inner: Seq<char>) -> Option<Seq<char>>;

/// The ChatGPT account id that an id token names, if it names one.
pub open spec fn claims_account_id(id_token: Seq<char>) -> Option<Seq<char>> {
    match jwt_payload(id_token) {
        Some(segment) => match base64_url_decoded(segment) {
            Some(bytes) => json_nested_string(bytes, AUTH_CLAIM@, ACCOUNT_ID_CLAIM@),
            None => None,
        },
        None => None,
    }
}

/// `base64::engine::general_purpose::URL_SAFE_NO_PAD.decode`.
#[verifier::external_body]
fn base64_url_decode(text: &str) -> (r: Option<Vec<u8>>)
    ensures
        match r {
            Some(bytes) => base64_url_decoded(text@) == Some(bytes@),
            None => base64_url_decoded(text@) is None,
        },
{
    base64::engine::general_purpose::URL_SAFE_NO_PAD.decode(text).ok()
}

/// `serde_json::from_slice::<serde_json::Value>`, then `get(outer)`, `get(inner)` and `as_str`.
#[verifier::external_body]
fn json_nested_str(payload: &[u8], outer: &str, inner: &str) -> (r: Option<String>)
    ensures
        match r {
            Some(s) => json_nested_string(payload@, outer@, inner@) == Some(s@),
            None => json_nested_string(payload@, outer@, inner@) is None,
        },
{
    let value: serde_json::Value = serde_json::from_slice(payload).ok()?;
    value.get(outer)?.get(inner)?.as_str().map(String::from)
}

/// Finds the payload segment of a token of the form `header.payload.signature`.
pub fn jwt_payload_segment(token: &str) -> (r: Option<String>)
    ensures
        match r {
            Some(s) => jwt_payload(token@) == Some(s@),
            None => jwt_payload(token@) is None,
        },
{
    let cs = crate::text::chars_of(token);
    let mut dots: usize = 0;
    let mut payload = String::new();
    assert(cs@.take(0) =~= Seq::<char>::empty());
    for i in 0..cs.len()
        invariant
            cs@ == token@,
            dots <= i,
            segments(cs@.take(i as int)).len() == dots + 1,
            dots >= 1 ==> segments(cs@.take(i as int))[1] == payload@,
            dots == 0 ==> payload@.len() == 0,
    {
        let c = cs[i];
        let ghost prefix = cs@.take(i as int);
        proof {
            assert(cs@.take(i + 1).drop_last() =~= prefix);
            assert(cs@.take(i + 1).last() == c);
        }
        if c == '.' {
            dots = dots + 1;
        } else if dots == 1 {
            push_char(&mut payload, c);
        }
    }
    assert(cs@.take(cs@.len() as int) =~= cs@);
    if dots == 2 { Some(payload) } else { None }
}

/// The claims of an id token that the switcher reads.
#[derive(Debug)]
pub struct IdTokenClaims {
    pub account_id: Option<String>,
}

/// Reads the ChatGPT account id out of an id token; a token that is no JWT, or whose
/// payload does not decode, names none.
pub fn parse_chatgpt_id_token_claims(id_token: &str) -> (claims: IdTokenClaims)
    ensures
        crate::types::opt_view(claims.account_id) == claims_account_id(id_token@),
{
    let account_id = match jwt_payload_segment(id_token) {
        Some(segment) => match base64_url_decode(segment.as_str()) {
            Some(bytes) => json_nested_str(bytes.as_slice(), AUTH_CLAIM, ACCOUNT_ID_CLAIM),
            None => None,
        },
        None => None,
    };
    IdTokenClaims { account_id }
}

} // verus!
