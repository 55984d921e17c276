use pask::scrapi::{accept_entry_location, next_poll_action, PollAction, POLL_TIMEOUT_MS};

#[test]
fn submit_requires_an_entry_location() {
    // `/operations/2.3`: not an entry under the submission path.
    assert_eq!(accept_entry_location("/entries", "/operations/2.3", true, false), None);
    // `https://example.invalid/entries/2.3`: another origin.
    assert_eq!(accept_entry_location("/entries", "/entries/2.3", false, false), None);
    // `/entries/2.3/statement`: not one transaction identifier.
    assert_eq!(accept_entry_location("/entries", "/entries/2.3/statement", true, false), None);
}

#[test]
fn polling_accepts_absolute_locations_and_bounds_retry_after() {
    // `{base_url}/entries/2.3` resolves to the same origin.
    assert_eq!(accept_entry_location("/entries", "/entries/2.3", true, false), Some("2.3".to_owned()));
    // A `302` asking for 3600 s does not fit the polling window.
    assert_eq!(next_poll_action(302, Some(3600), POLL_TIMEOUT_MS), PollAction::Timeout);
}

#[test]
fn entry_location_with_a_fragment_is_refused() {
    assert_eq!(accept_entry_location("/entries", "/entries/2.3", true, true), None);
}

#[test]
fn polling_waits_for_the_default_interval_and_returns_the_receipt() {
    assert_eq!(next_poll_action(302, None, POLL_TIMEOUT_MS), PollAction::Wait(1_000));
    assert_eq!(next_poll_action(200, None, POLL_TIMEOUT_MS), PollAction::Receipt);
    assert_eq!(next_poll_action(500, None, POLL_TIMEOUT_MS), PollAction::Unexpected);
}
