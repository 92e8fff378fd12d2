use tool_turn::models::ModelInfo;
use tool_turn::models::OvmsStatus;
use tool_turn::models::is_model_file_name;
use tool_turn::models::model_matches_query;
use tool_turn::models::normalize_model_id;
use tool_turn::models::resolve_update_status;
use tool_turn::rag::FileInfoSummary;
use tool_turn::rag::RerankerService;

#[test]
fn test_normalize_model_id() {
    assert_eq!(normalize_model_id("Phi-4".to_string()), "OpenVINO/Phi-4");
    assert_eq!(normalize_model_id("OpenVINO/Phi-4".to_string()), "OpenVINO/Phi-4");
}

#[test]
fn test_resolve_update_status_commits_disagree() {
    let info = resolve_update_status(
        "OpenVINO/m".to_string(),
        Some("aaa".to_string()),
        Some("bbb".to_string()),
    );
    assert!(info.needs_update);
    assert!(!info.is_latest);
    assert_eq!(info.model_id, "OpenVINO/m");
    assert_eq!(info.local_commit.as_deref(), Some("aaa"));
    assert_eq!(info.remote_commit.as_deref(), Some("bbb"));
}

#[test]
fn test_resolve_update_status_commits_agree() {
    let info = resolve_update_status(
        "OpenVINO/m".to_string(),
        Some("aaa".to_string()),
        Some("aaa".to_string()),
    );
    assert!(!info.needs_update);
    assert!(info.is_latest);
}

#[test]
fn test_resolve_update_status_missing_local() {
    let info = resolve_update_status("OpenVINO/m".to_string(), None, Some("aaa".to_string()));
    assert!(info.needs_update);
}

#[test]
fn test_resolve_update_status_missing_remote() {
    let info = resolve_update_status("OpenVINO/m".to_string(), Some("aaa".to_string()), None);
    assert!(!info.needs_update);
    let info = resolve_update_status("OpenVINO/m".to_string(), None, None);
    assert!(!info.needs_update);
}

#[test]
fn test_model_matches_query_case_insensitive() {
    assert!(model_matches_query("OpenVINO/Phi-4", "PHI"));
    assert!(model_matches_query("OpenVINO/Phi-4", "phi-4"));
    assert!(!model_matches_query("OpenVINO/Phi-4", "llama"));
}

#[test]
fn test_model_matches_query_requires_organization() {
    assert!(!model_matches_query("other/Phi-4", "phi"));
    assert!(!model_matches_query("other/Phi-4", "  "));
}

#[test]
fn test_model_matches_blank_query_keeps_organization_models() {
    assert!(model_matches_query("OpenVINO/Phi-4", ""));
    assert!(model_matches_query("OpenVINO/Phi-4", "  "));
}

#[test]
fn test_is_model_file_name() {
    assert!(is_model_file_name("config.json"));
    assert!(is_model_file_name("weights.bin"));
    assert!(is_model_file_name("model.safetensors"));
    assert!(is_model_file_name("tokenizer.model"));
    assert!(is_model_file_name("README.md"));
    assert!(!is_model_file_name("notes.txt"));
    assert!(!is_model_file_name("README.md.bak"));
}

#[test]
fn test_model_info_fields() {
    let info = ModelInfo {
        id: "OpenVINO/m".to_string(),
        author: Some("OpenVINO".to_string()),
        sha: None,
        pipeline_tag: None,
        tags: vec!["llm".to_string()],
        downloads: Some(10),
        likes: None,
        created_at: None,
        last_modified: None,
    };
    assert_eq!(info.id, "OpenVINO/m");
    assert_eq!(info.tags.len(), 1);
}

#[test]
fn test_ovms_status_fields() {
    let status = OvmsStatus {
        status: "running".to_string(),
        loaded_models: vec!["OpenVINO/m".to_string()],
    };
    assert_eq!(status.loaded_models.len(), 1);
}

#[test]
fn test_file_info_summary_fields() {
    let summary = FileInfoSummary {
        file_path: "/tmp/a.pdf".to_string(),
        file_name: "a.pdf".to_string(),
        file_type: "pdf".to_string(),
        chunk_count: 3,
        created_at: 1700000000000,
    };
    assert_eq!(summary.chunk_count, 3);
}

#[test]
fn test_reranker_service_new() {
    let _service = RerankerService::new();
}
