//! Reading an account out of an `otpauth://totp/` URI, the text that
//! authenticator QR codes carry.
use vstd::prelude::*;
use crate::entry::TotpEntry;
use crate::text::{is_prefix, starts_with, text_eq};

verus! {

/// Why a URI gave no account.
#[derive(Debug, Clone, Copy, PartialEq, Eq, Structural)]
pub enum OtpAuthError {
    /// The text does not start with `otpauth://totp/`.
    NotTotpUri,
    /// The text is not a well-formed URL.
    InvalidUri,
    /// The query has no `secret`, or an empty one.
    MissingSecret,
}

/// The label up to its first `:` (of an `Issuer:account` label, the issuer
/// part), or the whole label where it has none.
pub open spec fn before_colon(s: Seq<char>) -> Seq<char>
    decreases s.len(),
{
    if s.len() == 0 {
        s
    } else if s[0] == ':' {
        Seq::empty()
    } else {
        seq![s[0]] + before_colon(s.drop_first())
    }
}

/// The value of the last query pair named `key`.
pub open spec fn query_value(pairs: Seq<(String, String)>, key: Seq<char>) -> Option<Seq<char>>
    decreases pairs.len(),
{
    if pairs.len() == 0 {
        None
    } else if pairs.last().0@ == key {
        Some(pairs.last().1@)
    } else {
        query_value(pairs.drop_last(), key)
    }
}

/// The label that names the account: the last path segment, or `unknown`
/// where the URI has no path segments.
pub open spec fn label_of(last_segment: Option<String>) -> Seq<char> {
    match last_segment {
        Some(s) => s@,
        None => "unknown"@,
    }
}

proof fn lemma_before_colon(s: Seq<char>, k: int)
    requires
        0 <= k <= s.len(),
        forall|j: int| 0 <= j < k ==> s[j] != ':',
        k == s.len() || s[k] == ':',
    ensures
        before_colon(s) == s.take(k),
    decreases s.len(),
{
    if s.len() > 0 && k > 0 {
        lemma_before_colon(s.drop_first(), k - 1);
        assert(seq![s[0]] + s.drop_first().take(k - 1) =~= s.take(k));
    } else if s.len() > 0 {
        assert(s.take(0) =~= Seq::<char>::empty());
    }
}

/// The part of `label` before its first `:`.
fn name_of_label(label: &str) -> (r: String)
    ensures
        r@ == before_colon(label@),
{
    let n = label.unicode_len();
    let mut k: usize = 0;
    while k < n && label.get_char(k) != ':'
        invariant
            n == label@.len(),
            k <= n,
            forall|j: int| 0 <= j < k ==> label@[j] != ':',
        decreases n - k,
    {
        k = k + 1;
    }
    proof {
        lemma_before_colon(label@, k as int);
    }
    String::from_str(label.substring_char(0, k))
}

/// Builds the account from the parts of an `otpauth://totp/` URI: the name is
/// the label up to its first `:`, the secret and the issuer are the last
/// query values of those names, and a missing or empty secret is an error.
pub fn entry_from_uri_parts(
    last_segment: Option<String>,
    pairs: &Vec<(String, String)>,
    created_at: String,
) -> (r: Result<TotpEntry, OtpAuthError>)
    ensures
        match query_value(pairs@, "secret"@) {
            Some(secret) if secret.len() > 0 => r matches Ok(e) && e.id is None && e.name@
                == before_colon(label_of(last_segment)) && e.secret@ == secret && match e.issuer {
                Some(i) => query_value(pairs@, "issuer"@) == Some(i@),
                None => query_value(pairs@, "issuer"@) is None,
            } && e.created_at@ == created_at@,
            _ => r == Err::<TotpEntry, OtpAuthError>(OtpAuthError::MissingSecret),
        },
{
    let name = match &last_segment {
        Some(segment) => name_of_label(segment.as_str()),
        None => name_of_label("unknown"),
    };
    let mut secret: Option<String> = None;
    let mut issuer: Option<String> = None;
    for i in 0..pairs.len()
        invariant
            match secret {
                Some(s) => query_value(pairs@.take(i as int), "secret"@) == Some(s@),
                None => query_value(pairs@.take(i as int), "secret"@) is None,
            },
            match issuer {
                Some(s) => query_value(pairs@.take(i as int), "issuer"@) == Some(s@),
                None => query_value(pairs@.take(i as int), "issuer"@) is None,
            },
    {
        let key = pairs[i].0.as_str();
        proof {
            assert(pairs@.take(i + 1).drop_last() =~= pairs@.take(i as int));
            reveal_strlit("secret");
            reveal_strlit("issuer");
            assert("secret"@[0] != "issuer"@[0]);
        }
        if text_eq(key, "secret") {
            secret = Some(pairs[i].1.clone());
        } else if text_eq(key, "issuer") {
            issuer = Some(pairs[i].1.clone());
        }
    }
    proof {
        assert(pairs@.take(pairs@.len() as int) =~= pairs@);
    }
    match secret {
        Some(s) => {
            if s.unicode_len() == 0 {
                return Err(OtpAuthError::MissingSecret);
            }
            Ok(TotpEntry { id: None, name, secret: s, issuer, created_at })
        },
        None => Err(OtpAuthError::MissingSecret),
    }
}

/// Marks `url::Url` as a value Verus carries without looking inside.
#[verifier::external_type_specification]
#[verifier::external_body]
pub struct ExUrl(url::Url);

/// Marks `url::ParseError` as a value Verus carries without looking inside.
#[verifier::external_type_specification]
#[verifier::external_body]
pub struct ExParseError(url::ParseError);

/// Relies on `url::Url::parse`: the URL that the text spells, or an error
/// where it is not one.
pub assume_specification[ url::Url::parse ](input: &str) -> Result<url::Url, url::ParseError>;

/// Relies on `url::Url::path_segments`: the last `/`-separated segment of the
/// path, still percent-encoded, or `None` where the URL has no such path.
#[verifier::external_body]
fn last_path_segment(url: &url::Url) -> (r: Option<String>) {
    url.path_segments().and_then(|mut segments| segments.next_back()).map(|s| s.to_string())
}

/// Relies on `url::Url::query_pairs`: the decoded name-value pairs of the
/// query, in the order they appear.
#[verifier::external_body]
fn query_pairs(url: &url::Url) -> (r: Vec<(String, String)>) {
    url.query_pairs().map(|(k, v)| (k.into_owned(), v.into_owned())).collect()
}

/// Reads an account out of the text of an authenticator QR code. The text
/// must start with `otpauth://totp/` and parse as a URL; the account is then
/// built from its last path segment and its query as
/// `entry_from_uri_parts` says.
pub fn entry_from_otpauth_uri(content: &str, created_at: String) -> (r: Result<
    TotpEntry,
    OtpAuthError,
>)
    ensures
        !is_prefix("otpauth://totp/"@, content@) <==> r == Err::<TotpEntry, OtpAuthError>(
            OtpAuthError::NotTotpUri,
        ),
        r matches Ok(e) ==> e.id is None && e.secret@.len() > 0 && e.created_at@ == created_at@,
{
    if !starts_with(content, "otpauth://totp/") {
        return Err(OtpAuthError::NotTotpUri);
    }
    let url = match url::Url::parse(content) {
        Ok(url) => url,
        Err(_) => return Err(OtpAuthError::InvalidUri),
    };
    let segment = last_path_segment(&url);
    let pairs = query_pairs(&url);
    entry_from_uri_parts(segment, &pairs, created_at)
}

} // verus!
