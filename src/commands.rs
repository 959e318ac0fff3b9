use vstd::prelude::*;

use crate::text::string_from_chars;

verus! {

/// The prefix that starts every command.
pub const COMMAND_PREFIX: &'static str = "q!";

/// Why a command was not run.
#[derive(Clone, Copy, Debug, PartialEq, Eq, Structural)]
pub enum DispatchFailure {
    NotEnoughArguments { min: u16, given: usize },
    TooManyArguments { max: u16, given: usize },
    OnlyForDm,
    OnlyForGuilds,
    /// The caller is not an owner, or lacks a role or a permission.
    NotPermitted,
    Ratelimited,
    /// The user, guild or channel is blocked.
    Blocked,
    /// Any other reason.
    Other,
}

/// What to do about a command that was not run.
#[derive(Clone, Debug, PartialEq, Eq)]
pub enum DispatchResponse {
    /// Reply to the caller with this text.
    Reply(String),
    /// Say nothing.
    Ignore,
    /// Record the failure in the log only.
    Log,
}

/// The decimal digits of `n`, without leading zeros ("0" for zero).
pub open spec fn decimal(n: nat) -> Seq<char>
    decreases n,
{
    if n < 10 {
        seq![((n + 48) as u8) as char]
    } else {
        decimal(n / 10).push((((n % 10) + 48) as u8) as char)
    }
}

/// `n` written in decimal.
pub fn decimal_string(n: u64) -> (r: String)
    ensures
        r@ == decimal(n as nat),
{
    let mut digits: Vec<char> = Vec::new();
    let mut rest = n;
    while rest >= 10
        invariant
            decimal(n as nat) == decimal(rest as nat) + digits@,
        decreases rest,
    {
        let ghost before = digits@;
        digits.insert(0, (((rest % 10) as u8) + 48) as char);
        proof {
            assert(decimal(rest as nat) + before =~= decimal((rest / 10) as nat) + digits@);
        }
        rest = rest / 10;
    }
    let ghost before = digits@;
    digits.insert(0, ((rest as u8) + 48) as char);
    proof {
        assert(digits@ =~= decimal(rest as nat) + before);
    }
    string_from_chars(digits)
}

/// The command as a caller types it, between backquotes.
pub open spec fn quoted_command(name: Seq<char>) -> Seq<char> {
    "`"@ + COMMAND_PREFIX@ + name + "`"@
}

/// The reply for each failure, if any.
pub open spec fn reply_text(failure: DispatchFailure, name: Seq<char>) -> Option<Seq<char>> {
    match failure {
        DispatchFailure::NotEnoughArguments { min, given } => Some(
            quoted_command(name) + " requires "@ + decimal(min as nat)
                + " arguments, but only received "@ + decimal(given as nat) + "."@,
        ),
        DispatchFailure::TooManyArguments { max, given } => Some(
            quoted_command(name) + " only accepts "@ + decimal(max as nat) + " arguments, but received "@
                + decimal(given as nat) + "."@,
        ),
        DispatchFailure::OnlyForDm => Some(quoted_command(name) + " can only be used in DMs."@),
        DispatchFailure::OnlyForGuilds => Some(
            quoted_command(name) + " can only be used in servers."@,
        ),
        DispatchFailure::NotPermitted => Some(
            "You don't have permission to use "@ + quoted_command(name) + "."@,
        ),
        DispatchFailure::Ratelimited => Some("Rate limit reached, please try again soon."@),
        _ => None,
    }
}

/// The command as a caller types it, between backquotes.
fn quote_command(name: &str) -> (r: String)
    ensures
        r@ == quoted_command(name@),
{
    let mut s = String::from_str("`");
    s.append(COMMAND_PREFIX);
    s.append(name);
    s.append("`");
    s
}

/// How to answer a command that could not be run: a reply naming the
/// command (`q!{name}`) for wrong argument counts, a channel of the wrong
/// kind, a missing permission or a rate limit; nothing for a blocked caller;
/// a log entry for anything else.
pub fn dispatch_response(failure: DispatchFailure, command_name: &str) -> (r: DispatchResponse)
    ensures
        reply_text(failure, command_name@) matches Some(t) ==> r matches DispatchResponse::Reply(s)
            && s@ == t,
        failure == DispatchFailure::Blocked ==> r == DispatchResponse::Ignore,
        failure == DispatchFailure::Other ==> r == DispatchResponse::Log,
{
    match failure {
        DispatchFailure::NotEnoughArguments { min, given } => {
            let mut s = quote_command(command_name);
            s.append(" requires ");
            s.append(decimal_string(min as u64).as_str());
            s.append(" arguments, but only received ");
            s.append(decimal_string(given as u64).as_str());
            s.append(".");
            DispatchResponse::Reply(s)
        },
        DispatchFailure::TooManyArguments { max, given } => {
            let mut s = quote_command(command_name);
            s.append(" only accepts ");
            s.append(decimal_string(max as u64).as_str());
            s.append(" arguments, but received ");
            s.append(decimal_string(given as u64).as_str());
            s.append(".");
            DispatchResponse::Reply(s)
        },
        DispatchFailure::OnlyForDm => {
            let mut s = quote_command(command_name);
            s.append(" can only be used in DMs.");
            DispatchResponse::Reply(s)
        },
        DispatchFailure::OnlyForGuilds => {
            let mut s = quote_command(command_name);
            s.append(" can only be used in servers.");
            DispatchResponse::Reply(s)
        },
        DispatchFailure::NotPermitted => {
            let mut s = String::from_str("You don't have permission to use ");
            s.append(quote_command(command_name).as_str());
            s.append(".");
            DispatchResponse::Reply(s)
        },
        DispatchFailure::Ratelimited => {
            DispatchResponse::Reply(String::from_str("Rate limit reached, please try again soon."))
        },
        DispatchFailure::Blocked => DispatchResponse::Ignore,
        DispatchFailure::Other => DispatchResponse::Log,
    }
}

} // verus!
