//! Which credential a request carries.
use vstd::prelude::*;

use crate::text::{chars_of, starts_with, starts_with_chars, sub_chars, text_of};

verus! {

broadcast use vstd::string::group_string_axioms;

/// The token of an `Authorization: Bearer <token>` header value.
pub open spec fn bearer_of(authorization: Option<Seq<char>>) -> Option<Seq<char>> {
    match authorization {
        Some(h) => if starts_with(h, "Bearer "@) {
            Some(h.subrange(7, h.len() as int))
        } else {
            None
        },
        None => None,
    }
}

/// The text of an optional string slice.
pub open spec fn opt_str(o: Option<&str>) -> Option<Seq<char>> {
    match o {
        Some(s) => Some(s@),
        None => None,
    }
}

/// The token of a request: the `access_token` cookie when present, else the
/// bearer token of the `Authorization` header.
pub open spec fn request_token(cookie: Option<Seq<char>>, authorization: Option<Seq<char>>) -> Option<
    Seq<char>,
> {
    match cookie {
        Some(c) => Some(c),
        None => bearer_of(authorization),
    }
}

/// Strips the `Bearer ` prefix from an `Authorization` header value.
pub fn bearer_token(authorization: Option<&str>) -> (r: Option<String>)
    ensures
        match r {
            Some(t) => bearer_of(opt_str(authorization)) == Some(t@),
            None => bearer_of(opt_str(authorization)) is None,
        },
{
    match authorization {
        Some(h) => {
            let chars = chars_of(h);
            let prefix = chars_of("Bearer ");
            proof {
                reveal_strlit("Bearer ");
            }
            if starts_with_chars(&chars, &prefix) {
                let token = sub_chars(&chars, 7, chars.len());
                Some(text_of(&token))
            } else {
                None
            }
        },
        None => None,
    }
}

/// The token that authenticates a request (see `request_token`): the
/// `access_token` cookie first, then a bearer token for API key clients.
pub fn select_auth_token(access_cookie: Option<&str>, authorization: Option<&str>) -> (r: Option<String>)
    ensures
        match r {
            Some(t) => request_token(opt_str(access_cookie), opt_str(authorization)) == Some(t@),
            None => request_token(opt_str(access_cookie), opt_str(authorization)) is None,
        },
{
    match access_cookie {
        Some(c) => Some(c.to_owned()),
        None => bearer_token(authorization),
    }
}

/// A cookie, when present, decides the token whatever the header holds.
pub proof fn lemma_cookie_takes_precedence(cookie: Seq<char>, authorization: Option<Seq<char>>)
    ensures
        request_token(Some(cookie), authorization) == Some(cookie),
{
}

} // verus!
