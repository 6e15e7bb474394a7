use promptforge::setup::{
    check_ollama_setup_state, ModelTag, SetupCheckOutcome, SetupStatus, TagsFetch,
};

fn tag(model: Option<&str>, name: Option<&str>) -> ModelTag {
    ModelTag { model: model.map(|s| s.to_string()), name: name.map(|s| s.to_string()) }
}

#[test]
fn validates_responses() {
    for (tags, required_model, expected) in [
        // {"models":[{"model":"llama2"}]}, requiring llama2
        (vec![tag(Some("llama2"), None)], Some("llama2"), SetupStatus::Ready),
        // {"models":[{"model":"phi"}]}, requiring llama2
        (vec![tag(Some("phi"), None)], Some("llama2"), SetupStatus::ModelMissing),
        // {"models":[]}, requiring nothing
        (vec![], None, SetupStatus::ModelMissing),
    ] {
        let outcome = check_ollama_setup_state(
            &TagsFetch::Tags(tags),
            &required_model.map(|s| s.to_string()),
        );
        assert_eq!(outcome.status, expected);
    }
    assert_eq!(
        check_ollama_setup_state(&TagsFetch::Unavailable, &None).status,
        SetupStatus::ServerUnavailable
    );
}

#[test]
fn either_tag_field_can_name_the_required_model() {
    let outcome = check_ollama_setup_state(
        &TagsFetch::Tags(vec![tag(None, Some("llama3"))]),
        &Some("llama3".to_string()),
    );
    assert_eq!(outcome.status, SetupStatus::Ready);
}

#[test]
fn guidance_matches_the_status() {
    assert_eq!(
        SetupCheckOutcome::ready().guidance,
        "Ollama サーバーは利用可能です。"
    );
    assert_eq!(
        SetupCheckOutcome::server_unavailable().guidance,
        "Ollama サーバーに接続できません。サービスを起動してください。"
    );
    assert_eq!(
        SetupCheckOutcome::model_missing().guidance,
        "Ollama でモデルを pull してから再度お試しください。"
    );
    let made = SetupCheckOutcome::new(SetupStatus::Ready, "fine");
    assert_eq!(made.status, SetupStatus::Ready);
    assert_eq!(made.guidance, "fine");
}

#[test]
fn unnamed_tags_do_not_count_as_models() {
    let outcome = check_ollama_setup_state(&TagsFetch::Tags(vec![tag(None, None)]), &None);
    assert_eq!(outcome.status, SetupStatus::ModelMissing);
}
