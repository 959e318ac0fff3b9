use quote_bot::commands::{
    decimal_string, dispatch_response, DispatchFailure, DispatchResponse, COMMAND_PREFIX,
};
use quote_bot::owners::parse_owner_ids;

fn reply(text: &str) -> DispatchResponse {
    DispatchResponse::Reply(text.to_string())
}

#[test]
fn prefix_is_q_bang() {
    assert_eq!(COMMAND_PREFIX, "q!");
}

#[test]
fn argument_count_replies() {
    assert_eq!(
        dispatch_response(DispatchFailure::NotEnoughArguments { min: 2, given: 1 }, "quote"),
        reply("`q!quote` requires 2 arguments, but only received 1.")
    );
    assert_eq!(
        dispatch_response(DispatchFailure::TooManyArguments { max: 0, given: 13 }, "ping"),
        reply("`q!ping` only accepts 0 arguments, but received 13.")
    );
}

#[test]
fn channel_and_permission_replies() {
    assert_eq!(
        dispatch_response(DispatchFailure::OnlyForDm, "test"),
        reply("`q!test` can only be used in DMs.")
    );
    assert_eq!(
        dispatch_response(DispatchFailure::OnlyForGuilds, "test"),
        reply("`q!test` can only be used in servers.")
    );
    assert_eq!(
        dispatch_response(DispatchFailure::NotPermitted, "test"),
        reply("You don't have permission to use `q!test`.")
    );
    assert_eq!(
        dispatch_response(DispatchFailure::Ratelimited, "test"),
        reply("Rate limit reached, please try again soon.")
    );
}

#[test]
fn blocked_is_ignored_and_the_rest_logged() {
    assert_eq!(dispatch_response(DispatchFailure::Blocked, "test"), DispatchResponse::Ignore);
    assert_eq!(dispatch_response(DispatchFailure::Other, "test"), DispatchResponse::Log);
}

#[test]
fn decimal_strings() {
    assert_eq!(decimal_string(0), "0");
    assert_eq!(decimal_string(7), "7");
    assert_eq!(decimal_string(10), "10");
    assert_eq!(decimal_string(65535), "65535");
    assert_eq!(decimal_string(u64::MAX), "18446744073709551615");
}

#[test]
fn owner_ids_are_read_in_order() {
    assert_eq!(parse_owner_ids("1"), Some(vec![1]));
    assert_eq!(
        parse_owner_ids("123456789012345678,+42,0"),
        Some(vec![123456789012345678, 42, 0])
    );
    assert_eq!(parse_owner_ids("18446744073709551615"), Some(vec![u64::MAX]));
}

#[test]
fn bad_owner_ids_are_refused() {
    assert_eq!(parse_owner_ids(""), None);
    assert_eq!(parse_owner_ids("1,,2"), None);
    assert_eq!(parse_owner_ids("1, 2"), None);
    assert_eq!(parse_owner_ids("12a"), None);
    assert_eq!(parse_owner_ids("+"), None);
    assert_eq!(parse_owner_ids("-1"), None);
    assert_eq!(parse_owner_ids("18446744073709551616"), None);
    assert_eq!(parse_owner_ids("1,"), None);
}

#[test]
fn owner_ids_agree_with_std() {
    for text in ["5", "0,1,2", "+7,99999999999", "00012", "99999999999999999999", "x", "3,,"] {
        let std: Option<Vec<u64>> = text.split(',').map(|p| p.parse::<u64>().ok()).collect();
        assert_eq!(parse_owner_ids(text), std, "{text}");
    }
}
