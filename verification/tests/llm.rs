use nala::llm::{is_retryable, LlmError, LlmResponse, ToolCall, Usage};

#[test]
fn total_tokens_sums_both_known_counts() {
    let usage = Usage { prompt_tokens: Some(10), completion_tokens: Some(5) };
    assert_eq!(usage.total_tokens(), Some(15));
}

#[test]
fn total_tokens_is_none_when_either_count_is_unknown() {
    assert_eq!(Usage { prompt_tokens: None, completion_tokens: Some(5) }.total_tokens(), None);
    assert_eq!(Usage { prompt_tokens: Some(10), completion_tokens: None }.total_tokens(), None);
    assert_eq!(Usage::default().total_tokens(), None);
}

#[test]
fn only_a_failed_request_is_retryable() {
    assert!(is_retryable(&LlmError::RequestFailed("timeout".to_string())));
    assert!(!is_retryable(&LlmError::InvalidResponse("bad json".to_string())));
}

#[test]
fn llm_errors_render_their_detail() {
    assert_eq!(LlmError::RequestFailed("timeout".to_string()).message(), "request failed: timeout");
    assert_eq!(LlmError::InvalidResponse("bad".to_string()).message(), "invalid response: bad");
}

#[test]
fn a_blank_reply_is_not_a_final_answer() {
    assert!(LlmResponse::text("done".to_string()).is_final_answer());
    assert!(!LlmResponse::text("  \n".to_string()).is_final_answer());
    let call = ToolCall { name: "ping".to_string(), arguments: "{}".to_string() };
    assert!(!LlmResponse::tool_call(call).is_final_answer());
}
