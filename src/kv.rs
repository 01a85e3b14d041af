//! Settings of the remote key-value store that entries are synced to.
use vstd::prelude::*;

verus! {

/// Where the entries live in a Cloudflare KV namespace, and the token that
/// opens it.
#[derive(Debug, Clone)]
pub struct CloudflareKV {
    account_id: String,
    namespace_id: String,
    api_token: String,
}

impl CloudflareKV {
    pub closed spec fn account(&self) -> Seq<char> {
        self.account_id@
    }

    pub closed spec fn namespace(&self) -> Seq<char> {
        self.namespace_id@
    }

    pub closed spec fn token(&self) -> Seq<char> {
        self.api_token@
    }

    pub fn new(account_id: String, namespace_id: String, api_token: String) -> (r: Self)
        ensures
            r.account() == account_id@,
            r.namespace() == namespace_id@,
            r.token() == api_token@,
    {
        CloudflareKV { account_id, namespace_id, api_token }
    }

    pub fn account_id(&self) -> (r: &str)
        ensures
            r@ == self.account(),
    {
        self.account_id.as_str()
    }

    pub fn namespace_id(&self) -> (r: &str)
        ensures
            r@ == self.namespace(),
    {
        self.namespace_id.as_str()
    }

    pub fn api_token(&self) -> (r: &str)
        ensures
            r@ == self.token(),
    {
        self.api_token.as_str()
    }

    /// The address of the value that holds all entries.
    pub fn values_url(&self) -> (r: String)
        ensures
            r@ == "https://api.cloudflare.com/client/v4/accounts/"@ + self.account()
                + "/storage/kv/namespaces/"@ + self.namespace() + "/values/totp_entries"@,
    {
        let mut url = String::new();
        url.append("https://api.cloudflare.com/client/v4/accounts/");
        url.append(self.account_id.as_str());
        url.append("/storage/kv/namespaces/");
        url.append(self.namespace_id.as_str());
        url.append("/values/totp_entries");
        url
    }

    /// The value of the `Authorization` header: a bearer token.
    pub fn authorization(&self) -> (r: String)
        ensures
            r@ == "Bearer "@ + self.token(),
    {
        let mut header = String::new();
        header.append("Bearer ");
        header.append(self.api_token.as_str());
        header
    }
}

/// Which settings to use: those read from the settings file where there are
/// any, else those of the three environment variables when all three are set,
/// else none.
pub fn choose_kv_settings(
    from_file: Option<CloudflareKV>,
    account_id: Option<String>,
    namespace_id: Option<String>,
    api_token: Option<String>,
) -> (r: Option<CloudflareKV>)
    ensures
        from_file is Some ==> r == from_file,
        from_file is None ==> match (account_id, namespace_id, api_token) {
            (Some(a), Some(n), Some(t)) => r matches Some(kv) && kv.account() == a@
                && kv.namespace() == n@ && kv.token() == t@,
            _ => r is None,
        },
{
    if from_file.is_some() {
        return from_file;
    }
    match (account_id, namespace_id, api_token) {
        (Some(a), Some(n), Some(t)) => Some(CloudflareKV::new(a, n, t)),
        _ => None,
    }
}

} // verus!
