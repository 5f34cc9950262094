use mesh_ai_node::message::protocol_id;
use mesh_ai_node::PromptRequest;
use mesh_ai_node::PromptResponse;

#[test]
fn protocol_identifier_is_fixed() {
    assert_eq!(protocol_id(), "/mesh-ai/1.0.0");
}

#[test]
fn payload_carries_its_text() {
    let request = PromptRequest::new("whats 1 + 1");
    assert_eq!(request, PromptRequest { prompt: "whats 1 + 1".to_string() });
    assert_eq!(request.duplicate(), request);
    assert_eq!(request.clone(), request);
    let response = PromptResponse::new("2");
    assert_eq!(response, PromptResponse { response: "2".to_string() });
    assert_eq!(response.duplicate(), response);
    assert_ne!(response, PromptResponse::new("3"));
}
