//! What a crawl request answers: a token and its children, each with the URL
//! that follows it.

use vstd::prelude::*;
use vstd::string::StringExecFns;

use crate::token::{children_of, wire_bytes, Token, MAX_CHILDREN};
use crate::wire::hex_chars;

verus! {

/// A token's wire text and the URL that follows it.
pub struct TokenResponseData {
    pub token: String,
    pub url: String,
}

/// The answer to a crawl request: a token and its children, or word that
/// the token was spent already.
pub enum TokenResponse {
    Valid { root: TokenResponseData, children: Vec<TokenResponseData> },
    AlreadyUsed,
}

/// `<base>/crawl/<hex>/`.
pub open spec fn crawl_url_of(base: Seq<char>, hex: Seq<char>) -> Seq<char> {
    base + "/crawl/"@ + hex + "/"@
}

/// The link of `t` under `base`.
pub open spec fn links(link: TokenResponseData, t: Token, base: Seq<char>) -> bool {
    &&& link.token@ == hex_chars(wire_bytes(t))
    &&& link.url@ == crawl_url_of(base, hex_chars(wire_bytes(t)))
}

/// `r` is the page of `t` under `base`: the link of `t`, then the links of
/// its children in index order.
pub open spec fn is_page_of(r: TokenResponse, t: Token, base: Seq<char>) -> bool {
    match r {
        TokenResponse::Valid { root, children } => {
            &&& links(root, t, base)
            &&& children@.len() == children_of(t).len()
            &&& 1 <= children@.len() <= MAX_CHILDREN
            &&& forall|i: int|
                0 <= i < children@.len() ==> links(#[trigger] children@[i], children_of(t)[i], base)
        },
        TokenResponse::AlreadyUsed => false,
    }
}

pub fn crawl_url(public_url: &str, hex: &str) -> (r: String)
    ensures
        r@ == crawl_url_of(public_url@, hex@),
{
    let mut url = public_url.to_owned();
    url.append("/crawl/");
    url.append(hex);
    url.append("/");
    url
}

pub fn token_link(token: &Token, public_url: &str) -> (r: TokenResponseData)
    ensures
        links(r, *token, public_url@),
{
    let hex = token.as_hex();
    let url = crawl_url(public_url, hex.as_str());
    TokenResponseData { token: hex, url }
}

/// The page for `token`: its own link, then the links of its children in
/// index order.
pub fn build_token_response(token: Token, public_url: &str) -> (r: TokenResponse)
    ensures
        is_page_of(r, token, public_url@),
{
    let kids = token.iter_children();
    let mut children: Vec<TokenResponseData> = Vec::new();
    let mut i: usize = 0;
    while i < kids.len()
        invariant
            i <= kids@.len(),
            kids@ == children_of(token),
            children@.len() == i,
            forall|j: int| 0 <= j < i ==> links(#[trigger] children@[j], kids@[j], public_url@),
        decreases kids@.len() - i,
    {
        children.push(token_link(&kids[i], public_url));
        i = i + 1;
    }
    let root = token_link(&token, public_url);
    TokenResponse::Valid { root, children }
}

/// The answer once `token` has been validated and spent: the page of the
/// token, unless it was spent already.
pub fn spend_response(token: Token, already_used: bool, public_url: &str) -> (r: TokenResponse)
    ensures
        already_used ==> r is AlreadyUsed,
        !already_used ==> is_page_of(r, token, public_url@),
{
    if already_used {
        TokenResponse::AlreadyUsed
    } else {
        build_token_response(token, public_url)
    }
}

} // verus!
