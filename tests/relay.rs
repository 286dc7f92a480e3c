use translation_relay::decode::{
    decode_event_line, decode_local_line, delta_fragment, local_fragment, Protocol,
};
use translation_relay::relay::{Relay, RelayError, SinkEvent};

fn names_and_payloads(events: &[SinkEvent]) -> Vec<(String, String)> {
    events
        .iter()
        .map(|e| (e.name().to_string(), e.payload().clone()))
        .collect()
}

fn run_stream(protocol: Protocol, chunks: &[&[u8]]) -> (Vec<(String, String)>, Relay) {
    let mut relay = Relay::new(protocol);
    relay.on_response(200);
    let mut events = Vec::new();
    for chunk in chunks {
        events.extend(relay.feed(chunk));
    }
    events.extend(relay.finish());
    (names_and_payloads(&events), relay)
}

fn chunk(text: &str) -> (String, String) {
    ("translation_chunk".to_string(), text.to_string())
}

fn complete(text: &str) -> (String, String) {
    ("translation_complete".to_string(), text.to_string())
}

fn final_text(relay: &Relay) -> String {
    match relay.outcome() {
        Some(Ok(text)) => text,
        other => panic!("relay did not complete: {:?}", other),
    }
}

#[test]
fn local_engine_stream_scenario() {
    let body: &[u8] = b"{\"response\":\"Hel\",\"done\":false}\n{\"response\":\"lo\",\"done\":false}\n{\"response\":\"\",\"done\":true}\n";
    let (events, relay) = run_stream(Protocol::LineJson, &[body]);
    assert_eq!(events, vec![chunk("Hel"), chunk("lo"), complete("Hello")]);
    assert_eq!(final_text(&relay), "Hello");
}

#[test]
fn event_stream_scenario() {
    let body: &[u8] = b"data: {\"choices\":[{\"delta\":{\"content\":\"Bon\"}}]}\n data: {\"choices\":[{\"delta\":{\"content\":\"jour\"}}]}\n data: [DONE]\n";
    let (events, relay) = run_stream(Protocol::EventStream, &[body]);
    assert_eq!(events, vec![chunk("Bon"), chunk("jour"), complete("Bonjour")]);
    assert_eq!(final_text(&relay), "Bonjour");
}

#[test]
fn upstream_error_emits_nothing() {
    let mut relay = Relay::new(Protocol::EventStream);
    relay.on_response(500);
    let events = relay.feed(b"data: {\"choices\":[{\"delta\":{\"content\":\"x\"}}]}\n");
    assert!(events.is_empty());
    assert!(relay.finish().is_empty());
    assert!(matches!(relay.outcome(), Some(Err(RelayError::Upstream(500)))));
}

#[test]
fn network_error_before_response_fails() {
    let mut relay = Relay::new(Protocol::LineJson);
    relay.on_transport_error("connection refused".to_string());
    match relay.outcome() {
        Some(Err(RelayError::Network(m))) => assert_eq!(m, "connection refused"),
        other => panic!("unexpected outcome {:?}", other),
    }
}

#[test]
fn read_error_mid_stream_fails_and_keeps_sent_events() {
    let mut relay = Relay::new(Protocol::LineJson);
    relay.on_response(200);
    let events = relay.feed(b"{\"response\":\"Hi\",\"done\":false}\n");
    assert_eq!(names_and_payloads(&events), vec![chunk("Hi")]);
    relay.on_transport_error("reset".to_string());
    assert!(matches!(relay.outcome(), Some(Err(RelayError::Network(_)))));
    assert!(relay.finish().is_empty());
}

#[test]
fn no_outcome_while_streaming() {
    let mut relay = Relay::new(Protocol::LineJson);
    assert!(relay.outcome().is_none());
    relay.on_response(204);
    assert!(relay.outcome().is_none());
}

#[test]
fn malformed_local_line_is_skipped() {
    let body: &[u8] = b"{\"response\":\"A\",\"done\":false}\nnot json\n{\"response\":\"B\",\"done\":true}\n";
    let (events, relay) = run_stream(Protocol::LineJson, &[body]);
    assert_eq!(events, vec![chunk("A"), chunk("B"), complete("AB")]);
    assert_eq!(final_text(&relay), "AB");
}

#[test]
fn malformed_event_line_is_skipped() {
    let body: &[u8] = b"data: {\"choices\":[{\"delta\":{\"content\":\"A\"}}]}\ndata: {oops\ndata: {\"choices\":[{\"delta\":{\"content\":\"B\"}}]}\ndata: [DONE]\n";
    let (events, _) = run_stream(Protocol::EventStream, &[body]);
    assert_eq!(events, vec![chunk("A"), chunk("B"), complete("AB")]);
}

#[test]
fn line_split_across_chunks_is_joined() {
    let (events, relay) = run_stream(
        Protocol::LineJson,
        &[b"{\"respon", b"se\":\"Hel\",\"done\":false}\n{\"response\":\"lo\",", b"\"done\":true}\n"],
    );
    assert_eq!(events, vec![chunk("Hel"), chunk("lo"), complete("Hello")]);
    assert_eq!(final_text(&relay), "Hello");
}

#[test]
fn chunk_payloads_concatenate_to_result() {
    let (events, relay) = run_stream(
        Protocol::EventStream,
        &[b"data: {\"choices\":[{\"delta\":{\"content\":\"a\"}}]}\r\ndata: {\"choices\":[{\"delta\":{\"content\":\" b\"}}]}\r\n", b"data: [DONE]\r\n"],
    );
    let joined: String = events
        .iter()
        .filter(|(n, _)| n == "translation_chunk")
        .map(|(_, p)| p.as_str())
        .collect();
    assert_eq!(joined, "a b");
    assert_eq!(events.last().unwrap(), &complete("a b"));
    assert_eq!(final_text(&relay), joined);
}

#[test]
fn reasoning_markup_is_stripped_from_local_fragments() {
    let body: &[u8] = b"{\"response\":\"<think>hmm</think> Hola \",\"done\":false}\n{\"response\":\"<think>\\n</think>\",\"done\":true}\n";
    let (events, relay) = run_stream(Protocol::LineJson, &[body]);
    assert_eq!(events, vec![chunk("Hola"), complete("Hola")]);
    assert_eq!(final_text(&relay), "Hola");
}

#[test]
fn remote_fragments_are_not_sanitized() {
    let body: &[u8] = b"data: {\"choices\":[{\"delta\":{\"content\":\" x \"}}]}\ndata: [DONE]\n";
    let (events, _) = run_stream(Protocol::EventStream, &[body]);
    assert_eq!(events, vec![chunk(" x "), complete(" x ")]);
}

#[test]
fn nothing_after_completion() {
    let mut relay = Relay::new(Protocol::LineJson);
    relay.on_response(200);
    let events = relay.feed(b"{\"response\":\"A\",\"done\":true}\n{\"response\":\"B\",\"done\":false}\n");
    assert_eq!(names_and_payloads(&events), vec![chunk("A"), complete("A")]);
    assert!(relay.feed(b"{\"response\":\"C\",\"done\":true}\n").is_empty());
    assert!(relay.finish().is_empty());
    assert_eq!(final_text(&relay), "A");
}

#[test]
fn stream_without_terminal_completes_at_end_of_body() {
    let (events, relay) = run_stream(
        Protocol::LineJson,
        &[b"{\"response\":\"A\",\"done\":false}\n{\"response\":\"B\",\"done\":false}"],
    );
    assert_eq!(events, vec![chunk("A"), chunk("B"), complete("AB")]);
    assert_eq!(final_text(&relay), "AB");
}

#[test]
fn empty_body_completes_with_empty_text() {
    let (events, relay) = run_stream(Protocol::EventStream, &[]);
    assert_eq!(events, vec![complete("")]);
    assert_eq!(final_text(&relay), "");
}

#[test]
fn local_line_decodes_response_and_done() {
    let f = decode_local_line(b"{\"response\":\"x\",\"done\":true}").unwrap();
    assert_eq!(f.text, "x");
    assert!(f.is_final);
    let g = decode_local_line(b"{\"model\":\"m\",\"response\":\"y\",\"done\":false}").unwrap();
    assert_eq!(g.text, "y");
    assert!(!g.is_final);
}

#[test]
fn local_line_without_fields_is_skipped() {
    assert!(decode_local_line(b"{\"response\":\"x\"}").is_none());
    assert!(decode_local_line(b"{\"response\":1,\"done\":true}").is_none());
    assert!(decode_local_line(b"   ").is_none());
    assert!(decode_local_line(b"[1,2]").is_none());
}

#[test]
fn event_line_reads_delta_content() {
    let f = decode_event_line(b"data: {\"choices\":[{\"delta\":{\"content\":\"Bon\"}}]}").unwrap();
    assert_eq!(f.text, "Bon");
    assert!(!f.is_final);
}

#[test]
fn event_line_without_content_is_empty_fragment() {
    let f = decode_event_line(b"data: {\"choices\":[{\"delta\":{\"role\":\"assistant\"}}]}").unwrap();
    assert_eq!(f.text, "");
    assert!(!f.is_final);
    let g = decode_event_line(b"data: {\"choices\":[]}").unwrap();
    assert_eq!(g.text, "");
}

#[test]
fn event_sentinel_is_final_fragment() {
    let f = decode_event_line(b"data: [DONE]").unwrap();
    assert_eq!(f.text, "");
    assert!(f.is_final);
    assert!(decode_event_line(b"data:  [DONE]  ").unwrap().is_final);
}

#[test]
fn event_lines_without_data_prefix_carry_nothing() {
    assert!(decode_event_line(b": keep-alive").is_none());
    assert!(decode_event_line(b"event: message").is_none());
    assert!(decode_event_line(b"").is_none());
    assert!(decode_event_line(b"data: not json").is_none());
}

#[test]
fn parsed_records_become_fragments() {
    let f = local_fragment(Some(("abc".to_string(), true))).unwrap();
    assert_eq!(f.text, "abc");
    assert!(f.is_final);
    assert!(local_fragment(None).is_none());
    let g = delta_fragment(Some(Some("jour".to_string()))).unwrap();
    assert_eq!(g.text, "jour");
    assert!(!g.is_final);
    let h = delta_fragment(Some(None)).unwrap();
    assert_eq!(h.text, "");
    assert!(!h.is_final);
    assert!(delta_fragment(None).is_none());
}

#[test]
fn only_local_fragments_are_sanitized() {
    assert!(Protocol::LineJson.needs_sanitizing());
    assert!(!Protocol::EventStream.needs_sanitizing());
}

#[test]
fn event_names_are_fixed() {
    let c = SinkEvent::Chunk("a".to_string());
    let d = SinkEvent::Complete("ab".to_string());
    assert_eq!(c.name(), "translation_chunk");
    assert_eq!(d.name(), "translation_complete");
    assert_eq!(d.payload(), "ab");
}
