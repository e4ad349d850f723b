use thoth::prompts::{
    apply_prompt, check_deletable, get_all_prompts, get_builtin_prompts, get_prompt_by_id,
    remove_prompt, upsert_prompt, validate_custom_prompt, PromptTemplate,
};
use thoth::paths::get_custom_prompts_path;

fn custom(id: &str, name: &str, template: &str) -> PromptTemplate {
    PromptTemplate {
        id: id.to_string(),
        name: name.to_string(),
        template: template.to_string(),
        is_builtin: false,
    }
}

#[test]
fn test_builtin_prompts_exist() {
    let prompts = get_builtin_prompts();
    assert!(!prompts.is_empty());
    assert!(prompts.iter().all(|p| p.is_builtin));
}

#[test]
fn test_builtin_prompts_have_required_fields() {
    let prompts = get_builtin_prompts();
    for prompt in prompts {
        assert!(!prompt.id.is_empty(), "Prompt ID should not be empty");
        assert!(!prompt.name.is_empty(), "Prompt name should not be empty");
        assert!(!prompt.template.is_empty(), "Prompt template should not be empty");
        assert!(prompt.template.contains("{text}"), "Prompt template should contain {{text}} placeholder");
        assert!(prompt.is_builtin, "Built-in prompt should have is_builtin=true");
    }
}

#[test]
fn test_builtin_prompts_have_unique_ids() {
    let prompts = get_builtin_prompts();
    let ids: Vec<&str> = prompts.iter().map(|p| p.id.as_str()).collect();
    for (i, id) in ids.iter().enumerate() {
        assert!(!ids[i + 1..].contains(id), "Duplicate prompt ID found: {}", id);
    }
}

#[test]
fn test_builtin_prompts_include_expected() {
    let prompts = get_builtin_prompts();
    let ids: Vec<&str> = prompts.iter().map(|p| p.id.as_str()).collect();
    assert!(ids.contains(&"fix-grammar"), "Should have fix-grammar prompt");
    assert!(ids.contains(&"make-professional"), "Should have make-professional prompt");
    assert!(ids.contains(&"make-casual"), "Should have make-casual prompt");
    assert!(ids.contains(&"simplify"), "Should have simplify prompt");
    assert!(ids.contains(&"summarise"), "Should have summarise prompt");
    assert!(ids.contains(&"expand"), "Should have expand prompt");
    assert!(ids.contains(&"pirate-speak"), "Should have pirate-speak prompt");
}

#[test]
fn test_apply_prompt() {
    let template = custom("test", "Test", "Process this: {text}");
    let result = apply_prompt(&template, "hello world");
    assert_eq!(result, "Process this: hello world");
}

#[test]
fn test_apply_prompt_empty_text() {
    let template = custom("test", "Test", "Process this: {text}");
    let result = apply_prompt(&template, "");
    assert_eq!(result, "Process this: ");
}

#[test]
fn test_apply_prompt_with_newlines() {
    let template = custom("test", "Test", "Fix this:\n{text}\nEnd.");
    let result = apply_prompt(&template, "line1\nline2");
    assert_eq!(result, "Fix this:\nline1\nline2\nEnd.");
}

#[test]
fn test_apply_prompt_preserves_special_chars() {
    let template = custom("test", "Test", "Input: {text}");
    let result = apply_prompt(&template, "Hello \"world\" <test> & more");
    assert_eq!(result, "Input: Hello \"world\" <test> & more");
}

#[test]
fn test_apply_prompt_only_replaces_placeholder() {
    let template = custom("test", "Test", "{text} is the {text}");
    let result = apply_prompt(&template, "input");
    assert_eq!(result, "input is the input");
}

#[test]
fn apply_prompt_does_not_rescan_inserted_text() {
    let template = custom("test", "Test", "A {text} B");
    let result = apply_prompt(&template, "{text}");
    assert_eq!(result, "A {text} B");
}

#[test]
fn test_prompt_template_clone() {
    let original = PromptTemplate {
        id: "original".to_string(),
        name: "Original".to_string(),
        template: "{text}".to_string(),
        is_builtin: true,
    };
    let cloned = original.clone();
    assert_eq!(cloned.id, original.id);
    assert_eq!(cloned.name, original.name);
    assert_eq!(cloned.template, original.template);
    assert_eq!(cloned.is_builtin, original.is_builtin);
}

#[test]
fn test_custom_prompts_path_format() {
    let path = get_custom_prompts_path();
    assert!(path.contains(".thoth"));
    assert!(path.ends_with("prompts.json"));
}

#[test]
fn test_save_custom_prompt_creates_file() {
    let mut prompts: Vec<PromptTemplate> = Vec::new();
    upsert_prompt(&mut prompts, custom("new", "New Prompt", "Process: {text}"));
    assert_eq!(prompts.len(), 1);
    assert_eq!(prompts[0].id, "new");
}

#[test]
fn test_save_custom_prompt_updates_existing() {
    let mut prompts: Vec<PromptTemplate> = Vec::new();
    upsert_prompt(&mut prompts, custom("test", "Original", "{text}"));
    upsert_prompt(&mut prompts, custom("test", "Updated", "New: {text}"));
    assert_eq!(prompts.len(), 1);
    assert_eq!(prompts[0].name, "Updated");
    assert_eq!(prompts[0].template, "New: {text}");
}

#[test]
fn test_save_custom_prompt_adds_new() {
    let mut prompts: Vec<PromptTemplate> = Vec::new();
    upsert_prompt(&mut prompts, custom("first", "First", "{text}"));
    upsert_prompt(&mut prompts, custom("second", "Second", "{text}"));
    assert_eq!(prompts.len(), 2);
}

#[test]
fn test_delete_custom_prompt_success() {
    let mut prompts: Vec<PromptTemplate> = Vec::new();
    upsert_prompt(&mut prompts, custom("keep", "Keep", "{text}"));
    upsert_prompt(&mut prompts, custom("delete", "Delete", "{text}"));
    remove_prompt(&mut prompts, "delete").expect("Delete should succeed");
    assert_eq!(prompts.len(), 1);
    assert_eq!(prompts[0].id, "keep");
}

#[test]
fn test_delete_custom_prompt_not_found() {
    let mut prompts: Vec<PromptTemplate> = Vec::new();
    upsert_prompt(&mut prompts, custom("existing", "Existing", "{text}"));
    let result = remove_prompt(&mut prompts, "nonexistent");
    assert!(result.is_err());
    let e = result.unwrap_err();
    assert!(e.contains("not found"));
    assert_eq!(e, "Prompt 'nonexistent' not found");
    assert_eq!(prompts.len(), 1);
}

#[test]
fn validation_reports_each_problem_in_order() {
    let mut p = custom("x", "X", "{text}");
    assert!(validate_custom_prompt(&p).is_ok());
    p.is_builtin = true;
    assert_eq!(validate_custom_prompt(&p).unwrap_err(), "Cannot save a built-in prompt as custom");
    let p = custom("", "X", "{text}");
    assert_eq!(validate_custom_prompt(&p).unwrap_err(), "Prompt ID cannot be empty");
    let p = custom("x", "", "{text}");
    assert_eq!(validate_custom_prompt(&p).unwrap_err(), "Prompt name cannot be empty");
    let p = custom("x", "X", "");
    assert_eq!(validate_custom_prompt(&p).unwrap_err(), "Prompt template cannot be empty");
    let p = custom("x", "X", "no placeholder");
    assert_eq!(validate_custom_prompt(&p).unwrap_err(), "Prompt template must contain {text} placeholder");
}

#[test]
fn builtin_prompts_cannot_be_deleted() {
    assert_eq!(check_deletable("fix-grammar").unwrap_err(), "Cannot delete a built-in prompt");
    assert!(check_deletable("my-own").is_ok());
}

#[test]
fn all_prompts_list_builtins_first_and_lookup_prefers_them() {
    let customs = vec![custom("mine", "Mine", "M {text}"), custom("fix-grammar", "Shadow", "S {text}")];
    let all = get_all_prompts(customs.clone());
    assert_eq!(all.len(), get_builtin_prompts().len() + 2);
    assert_eq!(all[all.len() - 2].id, "mine");
    let found = get_prompt_by_id(customs.clone(), "fix-grammar").unwrap();
    assert!(found.is_builtin);
    assert_eq!(get_prompt_by_id(customs.clone(), "mine").unwrap().template, "M {text}");
    assert!(get_prompt_by_id(customs, "absent").is_none());
}
