use thoth::clipboard::{ClipboardFormat, ClipboardManager, ClipboardSettings, MAX_HISTORY_SIZE};

#[test]
fn test_clipboard_manager_creation() {
    let manager = ClipboardManager::new();
    assert!(!manager.settings().auto_copy_enabled);
    assert!(manager.get_history().is_empty());
}

#[test]
fn test_clipboard_settings_default() {
    let settings = ClipboardSettings::default();
    assert!(!settings.auto_copy_enabled);
    assert_eq!(settings.format, ClipboardFormat::PlainText);
    assert!(!settings.show_notification);
    assert!(settings.preserve_clipboard);
    assert_eq!(settings.restore_delay_ms, 1000);
    assert!(settings.history_enabled);
}

#[test]
fn test_add_to_history() {
    let mut manager = ClipboardManager::new();
    manager.add_to_history("Test text".to_string(), "test");
    let history = manager.get_history();
    assert_eq!(history.len(), 1);
    assert_eq!(history[0].text, "Test text");
    assert_eq!(history[0].source, "test");
}

#[test]
fn test_history_max_size() {
    let mut manager = ClipboardManager::new();
    for i in 0..MAX_HISTORY_SIZE + 10 {
        manager.add_to_history(format!("Text {}", i), "test");
    }
    let history = manager.get_history();
    assert_eq!(history.len(), MAX_HISTORY_SIZE);
    assert_eq!(history[0].text, format!("Text {}", MAX_HISTORY_SIZE + 9));
}

#[test]
fn test_history_disabled() {
    let mut manager = ClipboardManager::new();
    let mut settings = *manager.settings();
    settings.history_enabled = false;
    manager.update_settings(settings);
    manager.add_to_history("Test text".to_string(), "test");
    let history = manager.get_history();
    assert!(history.is_empty());
}

#[test]
fn test_remove_from_history() {
    let mut manager = ClipboardManager::new();
    manager.add_to_history("Test 1".to_string(), "test");
    manager.add_to_history("Test 2".to_string(), "test");
    let history = manager.get_history();
    let id = history[0].id.clone();
    assert!(manager.remove_from_history(&id));
    assert_eq!(manager.get_history().len(), 1);
    assert!(!manager.remove_from_history(&id));
}

#[test]
fn test_clear_history() {
    let mut manager = ClipboardManager::new();
    manager.add_to_history("Test 1".to_string(), "test");
    manager.add_to_history("Test 2".to_string(), "test");
    manager.clear_history();
    assert!(manager.get_history().is_empty());
}

#[test]
fn test_preserve_content() {
    let mut manager = ClipboardManager::new();
    manager.preserve_content("Original content".to_string());
    assert!(manager.preserved_content.is_some());
    let content = manager.take_preserved_content();
    assert_eq!(content, Some("Original content".to_string()));
    assert!(manager.preserved_content.is_none());
}

#[test]
fn history_entries_get_distinct_identifiers_and_a_timestamp() {
    let mut manager = ClipboardManager::new();
    manager.add_to_history("a".to_string(), "test");
    manager.add_to_history("b".to_string(), "test");
    let history = manager.get_history();
    assert_ne!(history[0].id, history[1].id);
    assert!(!history[0].timestamp.is_empty());
    assert_eq!(history[1].text, "a");
}
