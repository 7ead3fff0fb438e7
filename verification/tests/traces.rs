use auger::traces::{
    session_record_type, session_trace_path, Event, InputContent, ModelInfo, ProviderType, SessionHeader,
    SessionRecord, TraceFileError, TraceReader,
};

fn model() -> ModelInfo {
    ModelInfo::new(ProviderType::AnthropicMessages)
}

#[test]
fn appended_events_are_numbered_and_linked() {
    let mut record = SessionRecord::new(7, "/repo".into(), model());
    let first = record.append_event(Event::InputMessage { content: Vec::new() });
    let second = record.append_event(Event::InputMessage { content: vec![InputContent::UserMessage("hi".into())] });
    let events = record.events();
    assert_eq!(events.len(), 2);
    assert_eq!(events[0].seq, 1);
    assert_eq!(events[0].parent_id, None);
    assert_eq!(events[0].id, first);
    assert_eq!(events[1].seq, 2);
    assert_eq!(events[1].parent_id, Some(first));
    assert_eq!(events[1].id, second);
    assert!(first < second, "ids are ordered by time");
    assert_eq!(record.header().session_id(), 7);
    assert_eq!(record.header().record_type, "session");
    assert_eq!(record.header().version, 1);
}

#[test]
fn add_event_keeps_the_given_parent() {
    let mut record = SessionRecord::new(1, "/".into(), model());
    let a = record.add_event(None, Event::InputMessage { content: Vec::new() });
    record.add_event(Some(a), Event::InputMessage { content: Vec::new() });
    record.add_event(Some(a), Event::InputMessage { content: Vec::new() });
    assert_eq!(record.events()[2].parent_id, Some(a));
    assert_eq!(record.events()[2].seq, 3);
}

#[test]
fn trace_paths_follow_the_config_home() {
    let id = 0x67e5_5044_10b1_426f_9247_bb68_0e5f_e0c8u128;
    let path = session_trace_path(id, Some("/cfg"), Some("/home/u")).unwrap();
    assert_eq!(
        path,
        "/cfg/auger/sessions/67e55044-10b1-426f-9247-bb680e5fe0c8/67e55044-10b1-426f-9247-bb680e5fe0c8.jsonl"
    );
    let path = session_trace_path(id, Some(""), Some("/home/u/")).unwrap();
    assert!(path.starts_with("/home/u/.auger/sessions/67e55044-"));
    assert!(matches!(session_trace_path(id, None, None), Err(TraceFileError::ConfigHomeUnavailable)));
}

#[test]
fn read_back_traces_are_checked() {
    assert_eq!(session_record_type(), "session");
    assert!(matches!(TraceReader::assemble("/t", None, Vec::new()), Err(TraceFileError::EmptyTrace(p)) if p == "/t"));
    let mut header = SessionHeader::new(3, "/".into(), model());
    header.record_type = "other".into();
    assert!(matches!(TraceReader::assemble("/t", Some(header), Vec::new()), Err(TraceFileError::InvalidTrace(p)) if p == "/t"));
    let header = SessionHeader::new(3, "/".into(), model());
    let record = TraceReader::assemble("/t", Some(header), Vec::new()).unwrap();
    assert_eq!(record.header().session_id(), 3);
    assert!(TraceReader::is_record_line("{}"));
    assert!(!TraceReader::is_record_line(""));
}

#[test]
fn trace_paths_print_the_uuid_as_the_uuid_crate_does() {
    for id in [0u128, u128::MAX, 0x0123_4567_89ab_cdef_fedc_ba98_7654_3210, 0xf0e1_d2c3_b4a5_9687_7869_5a4b_3c2d_1e0f] {
        let text = uuid::Uuid::from_u128(id).to_string();
        let path = session_trace_path(id, Some("/c"), None).unwrap();
        assert_eq!(path, format!("/c/auger/sessions/{text}/{text}.jsonl"));
    }
}
