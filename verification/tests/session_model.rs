use jcode_core::session_model::{
    forget_session_model, record_session_model, session_model, SessionModel, SessionModels,
};

#[test]
fn records_and_reads_back_model() {
    let mut models = SessionModels::new();
    let sid = "session-model-roundtrip";
    forget_session_model(&mut models, sid);
    assert_eq!(session_model(&models, sid), None);

    record_session_model(&mut models, sid, Some("openai-compatible:nim"), "model-a");
    assert_eq!(
        session_model(&models, sid),
        Some(SessionModel {
            provider_key: Some("openai-compatible:nim".to_string()),
            model: "model-a".to_string(),
        })
    );

    // Overwrite with a new value.
    record_session_model(&mut models, sid, None, "model-b");
    assert_eq!(
        session_model(&models, sid),
        Some(SessionModel {
            provider_key: None,
            model: "model-b".to_string(),
        })
    );

    forget_session_model(&mut models, sid);
    assert_eq!(session_model(&models, sid), None);
}

#[test]
fn forgetting_one_session_keeps_the_others() {
    let mut models = SessionModels::new();
    record_session_model(&mut models, "a", None, "one");
    record_session_model(&mut models, "b", None, "two");
    forget_session_model(&mut models, "a");
    assert_eq!(session_model(&models, "a"), None);
    assert_eq!(
        session_model(&models, "b").map(|m| m.model),
        Some("two".to_string())
    );
}
