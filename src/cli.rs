//! Reading the options of the `update` command, and the display rules of
//! the live mode.
use vstd::prelude::*;
use crate::entry::opt_text;
use crate::text::text_eq;

verus! {

/// The fields that an `update` command replaces.
#[derive(Debug, Clone)]
pub struct UpdateOptions {
    pub secret: Option<String>,
    pub issuer: Option<String>,
}

/// Why the options of an `update` command were refused.
#[derive(Debug, Clone, Copy, PartialEq, Eq, Structural)]
pub enum UpdateArgsError {
    /// `--secret` is the last argument.
    SecretNeedsValue,
    /// `--issuer` is the last argument.
    IssuerNeedsValue,
    /// The argument at this position is neither option.
    UnknownFlag(usize),
    /// Neither option was given.
    NothingToUpdate,
}

/// The options read from position `i` on, given the values already read: each
/// `--secret` or `--issuer` takes the argument after it as its value (a later
/// one replaces an earlier one), and at least one must have been given.
pub open spec fn update_options_from(
    args: Seq<String>,
    i: int,
    secret: Option<Seq<char>>,
    issuer: Option<Seq<char>>,
) -> Result<(Option<Seq<char>>, Option<Seq<char>>), UpdateArgsError>
    decreases args.len() - i,
{
    if i < 0 || i >= args.len() {
        if secret is None && issuer is None {
            Err(UpdateArgsError::NothingToUpdate)
        } else {
            Ok((secret, issuer))
        }
    } else if args[i]@ == "--secret"@ {
        if i + 1 < args.len() {
            update_options_from(args, i + 2, Some(args[i + 1]@), issuer)
        } else {
            Err(UpdateArgsError::SecretNeedsValue)
        }
    } else if args[i]@ == "--issuer"@ {
        if i + 1 < args.len() {
            update_options_from(args, i + 2, secret, Some(args[i + 1]@))
        } else {
            Err(UpdateArgsError::IssuerNeedsValue)
        }
    } else {
        Err(UpdateArgsError::UnknownFlag(i as usize))
    }
}

/// Reads the options of `update` from the arguments at `start` and after.
pub fn parse_update_options(args: &Vec<String>, start: usize) -> (r: Result<
    UpdateOptions,
    UpdateArgsError,
>)
    ensures
        match update_options_from(args@, start as int, None, None) {
            Ok((secret, issuer)) => r matches Ok(o) && opt_text(o.secret) == secret && opt_text(
                o.issuer,
            ) == issuer,
            Err(e) => r == Err::<UpdateOptions, UpdateArgsError>(e),
        },
{
    let mut secret: Option<String> = None;
    let mut issuer: Option<String> = None;
    let mut i = start;
    while i < args.len()
        invariant
            start <= i,
            update_options_from(args@, i as int, opt_text(secret), opt_text(issuer))
                == update_options_from(args@, start as int, None, None),
        decreases args.len() - i,
    {
        let arg = args[i].as_str();
        if text_eq(arg, "--secret") {
            if i + 1 < args.len() {
                secret = Some(args[i + 1].clone());
                i = i + 2;
            } else {
                return Err(UpdateArgsError::SecretNeedsValue);
            }
        } else if text_eq(arg, "--issuer") {
            if i + 1 < args.len() {
                issuer = Some(args[i + 1].clone());
                i = i + 2;
            } else {
                return Err(UpdateArgsError::IssuerNeedsValue);
            }
        } else {
            return Err(UpdateArgsError::UnknownFlag(i));
        }
    }
    if secret.is_none() && issuer.is_none() {
        return Err(UpdateArgsError::NothingToUpdate);
    }
    Ok(UpdateOptions { secret, issuer })
}

/// Whether live mode marks a code as new: it differs from the code last shown
/// for the entry, or none was shown yet.
pub fn is_new_code(previous: Option<&String>, code: &String) -> (r: bool)
    ensures
        r == match previous {
            Some(p) => p@ != code@,
            None => true,
        },
{
    match previous {
        Some(p) => !(*p == *code),
        None => true,
    }
}

/// Whether live mode shows the seconds left in red: five or fewer remain and
/// colour is not switched off.
pub fn highlight_remaining(remaining: u64, no_color: bool) -> (r: bool)
    ensures
        r == (!no_color && remaining <= 5),
{
    !no_color && remaining <= 5
}

} // verus!
