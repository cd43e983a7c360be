//! The computational parts of the GitHub OAuth exchange: building the
//! token-request body and reading the token out of the response.  The HTTP
//! transport itself stays outside the library.

use vstd::prelude::*;

use crate::html::error::Error;

verus! {

/// Information about a GitHub user, as the GitHub API reports it.
pub struct UserData {
    /// GitHub username (no `@` symbol).
    pub login: String,
    /// URL for the user's avatar, if set.
    pub avatar_url: Option<String>,
}

impl UserData {
    pub fn username(&self) -> (r: &str)
        ensures
            r@ == self.login@,
    {
        self.login.as_str()
    }
}

/// What `form_urlencoded` parsing decodes a body into: a sequence of
/// key/value pairs, a function of the body alone.
pub uninterp spec fn form_decoded(s: Seq<char>) -> Seq<(Seq<char>, Seq<char>)>;

/// What the `form_urlencoded` serializer produces for a sequence of
/// key/value pairs, a function of the pairs alone.
pub uninterp spec fn form_encoded(pairs: Seq<(Seq<char>, Seq<char>)>) -> Seq<char>;

/// The views of a vector of string pairs.
pub open spec fn pair_views(v: Seq<(String, String)>) -> Seq<(Seq<char>, Seq<char>)> {
    v.map_values(|p: (String, String)| (p.0@, p.1@))
}

/// Relies on `url::form_urlencoded::parse`: decodes a form-encoded body
/// into its key/value pairs; the outcome depends on the body alone.
#[verifier::external_body]
fn parse_form_body(body: &str) -> (r: Vec<(String, String)>)
    ensures
        pair_views(r@) == form_decoded(body@),
{
    url::form_urlencoded::parse(body.as_bytes()).into_owned().collect()
}

/// Relies on `url::form_urlencoded::Serializer`: percent-encodes key/value
/// pairs into a form body; the outcome depends on the pairs alone.
#[verifier::external_body]
fn encode_form_pairs(pairs: &Vec<(String, String)>) -> (r: String)
    ensures
        r@ == form_encoded(pair_views(pairs@)),
{
    let mut ser = url::form_urlencoded::Serializer::new(String::new());
    for (k, v) in pairs.iter() {
        ser.append_pair(k, v);
    }
    ser.finish()
}

/// What scanning a token response yields: the first `access_token` value,
/// the first `error_description` before any token, or nothing.
pub open spec fn token_scan(ps: Seq<(Seq<char>, Seq<char>)>) -> Option<
    Result<Seq<char>, Seq<char>>,
>
    decreases ps.len(),
{
    if ps.len() == 0 {
        Option::None
    } else if ps[0].0 == "access_token"@ {
        Option::Some(Result::Ok(ps[0].1))
    } else if ps[0].0 == "error_description"@ {
        Option::Some(Result::Err(ps[0].1))
    } else {
        token_scan(ps.skip(1))
    }
}

/// Pick the access token (or the provider's error) out of decoded
/// key/value pairs: the first relevant key wins.
pub fn access_token_of_pairs(pairs: &Vec<(String, String)>) -> (r: Result<String, Error>)
    ensures
        match token_scan(pair_views(pairs@)) {
            Option::Some(Result::Ok(v)) => r matches Ok(s) && s@ == v,
            Option::Some(Result::Err(d)) => r matches Err(e) && (e matches Error::InvalidData(m)
                && m@ == d),
            Option::None => r matches Err(e) && e matches Error::InvalidData(_),
        },
{
    let n = pairs.len();
    let mut i: usize = 0;
    proof {
        assert(pair_views(pairs@).skip(0) =~= pair_views(pairs@));
    }
    while i < n
        invariant
            i <= n,
            n == pairs@.len(),
            token_scan(pair_views(pairs@)) == token_scan(pair_views(pairs@).skip(i as int)),
        decreases n - i,
    {
        proof {
            assert(pair_views(pairs@).skip(i as int)[0] == (pairs@[i as int].0@, pairs@[
                i as int].1@));
        }
        let key = &pairs[i].0;
        if crate::util::string_eq_str(key, "access_token") {
            return Ok(pairs[i].1.clone());
        }
        if crate::util::string_eq_str(key, "error_description") {
            return Err(Error::InvalidData(pairs[i].1.clone()));
        }
        proof {
            assert(pair_views(pairs@).skip(i as int).skip(1) =~= pair_views(pairs@).skip(i + 1));
        }
        i = i + 1;
    }
    proof {
        assert(pair_views(pairs@).skip(n as int).len() == 0);
    }
    Err(Error::InvalidData("no access token in GitHub response".to_owned()))
}

/// Pick the access token out of a raw token-exchange response body.
pub fn access_token(form_body: String) -> (r: Result<String, Error>)
    ensures
        match token_scan(form_decoded(form_body@)) {
            Option::Some(Result::Ok(v)) => r matches Ok(s) && s@ == v,
            Option::Some(Result::Err(d)) => r matches Err(e) && (e matches Error::InvalidData(m)
                && m@ == d),
            Option::None => r matches Err(e) && e matches Error::InvalidData(_),
        },
{
    let pairs = parse_form_body(form_body.as_str());
    access_token_of_pairs(&pairs)
}

/// Build the form body for exchanging an OAuth code for an access token.
/// The client secret and the code must both have been configured.
pub fn token_request_body(client_id: &str, secret: Option<&str>, oauth_code: Option<&str>) -> (r:
    Result<String, Error>)
    ensures
        match r {
            Ok(body) => {
                &&& secret matches Some(s) && oauth_code matches Some(oc) && body@ == form_encoded(
                    seq![
                        ("client_id"@, client_id@),
                        ("client_secret"@, s@),
                        ("code"@, oc@),
                    ],
                )
            },
            Err(e) => {
                &&& e matches Error::AuthError(_)
                &&& (secret is None || oauth_code is None)
                &&& (secret is None ==> (e matches Error::AuthError(m) && m@
                    == "no GitHub client secret has been set"@))
                &&& (!(secret is None) ==> (e matches Error::AuthError(m) && m@
                    == "no OAuth code has been set"@))
            },
        },
{
    let s = match secret {
        Option::Some(s) => s,
        Option::None => {
            return Err(Error::AuthError("no GitHub client secret has been set".to_owned()));
        },
    };
    let oc = match oauth_code {
        Option::Some(oc) => oc,
        Option::None => {
            return Err(Error::AuthError("no OAuth code has been set".to_owned()));
        },
    };
    let mut pairs: Vec<(String, String)> = Vec::new();
    pairs.push(("client_id".to_owned(), client_id.to_owned()));
    pairs.push(("client_secret".to_owned(), s.to_owned()));
    pairs.push(("code".to_owned(), oc.to_owned()));
    let body = encode_form_pairs(&pairs);
    proof {
        assert(pair_views(pairs@) =~= seq![
            ("client_id"@, client_id@),
            ("client_secret"@, s@),
            ("code"@, oc@),
        ]);
    }
    Ok(body)
}

} // verus!
