//! The stored record of one TOTP account.
use vstd::prelude::*;

verus! {

/// One TOTP account: a display name, its base32 secret, the issuer if one
/// was given, and when it was created (RFC 3339 text). `id` is the storage
/// key, absent until the entry has been stored.
#[derive(Debug, Clone)]
pub struct TotpEntry {
    pub id: Option<i64>,
    pub name: String,
    pub secret: String,
    pub issuer: Option<String>,
    pub created_at: String,
}

/// The text of an optional string.
pub open spec fn opt_text(o: Option<String>) -> Option<Seq<char>> {
    match o {
        Some(s) => Some(s@),
        None => None,
    }
}

/// The issuer as stored: an empty text where there is none.
pub fn stored_issuer(issuer: &Option<String>) -> (r: String)
    ensures
        r@ == match issuer {
            Some(i) => i@,
            None => Seq::<char>::empty(),
        },
{
    match issuer {
        Some(i) => i.clone(),
        None => String::new(),
    }
}

/// The issuer read back from storage: an empty text means there is none.
pub fn issuer_from_stored(text: String) -> (r: Option<String>)
    ensures
        text@.len() == 0 ==> r is None,
        text@.len() > 0 ==> (r matches Some(i) && i@ == text@),
{
    if text.unicode_len() == 0 {
        None
    } else {
        Some(text)
    }
}

/// The secret and the stored issuer of `entry` after an update: a given
/// value replaces the old one, an absent one keeps it.
pub fn updated_fields(entry: &TotpEntry, new_secret: Option<&str>, new_issuer: Option<&str>) -> (r: (
    String,
    String,
))
    ensures
        r.0@ == match new_secret {
            Some(s) => s@,
            None => entry.secret@,
        },
        r.1@ == match new_issuer {
            Some(i) => i@,
            None => match entry.issuer {
                Some(i) => i@,
                None => Seq::<char>::empty(),
            },
        },
{
    let secret = match new_secret {
        Some(s) => String::from_str(s),
        None => entry.secret.clone(),
    };
    let issuer = match new_issuer {
        Some(i) => String::from_str(i),
        None => stored_issuer(&entry.issuer),
    };
    (secret, issuer)
}

} // verus!
