use forge::context_flow::{context_flow_py, context_models_py, requirements_txt};

#[test]
fn embedded_context_flow_nonempty() {
    assert!(!context_flow_py().is_empty());
}

#[test]
fn embedded_context_models_nonempty() {
    assert!(!context_models_py().is_empty());
}

#[test]
fn embedded_requirements_nonempty() {
    assert!(!requirements_txt().is_empty());
}

#[test]
fn embedded_content_valid() {
    assert!(context_flow_py().contains("cocoindex"));
    assert!(context_models_py().contains("FileMapInfo"));
    assert!(requirements_txt().contains("cocoindex"));
}
