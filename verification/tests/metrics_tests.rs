use oxide_gate::AppState;

#[test]
fn fresh_state_is_zeroed() {
    let state = AppState::new();
    assert_eq!(state.request_count, 0);
    assert_eq!(state.total_tokens_processed, 0);
}

#[test]
fn totals_accumulate_over_sessions() {
    let mut state = AppState::new();
    let contributions: [u64; 5] = [20, 0, 30, 45, 5];
    for tokens in contributions {
        state.record_request_start();
        state.record_session_tokens(tokens);
    }
    assert_eq!(state.request_count, 5);
    assert_eq!(state.total_tokens_processed, 100);
}

#[test]
fn order_of_completion_does_not_change_totals() {
    let mut forward = AppState::new();
    let mut backward = AppState::new();
    let contributions: [u64; 4] = [7, 11, 13, 17];
    for tokens in contributions {
        forward.record_request_start();
        forward.record_session_tokens(tokens);
    }
    for tokens in contributions.iter().rev() {
        backward.record_request_start();
        backward.record_session_tokens(*tokens);
    }
    assert_eq!(forward.request_count, backward.request_count);
    assert_eq!(forward.total_tokens_processed, backward.total_tokens_processed);
}
