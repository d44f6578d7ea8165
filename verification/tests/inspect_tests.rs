use unzip::inspect::{InspectState, UiEvent};

#[test]
fn test_inspect_buffers_before_ready() {
    let mut s = InspectState::new("extract-0".to_string());
    let r = s.send(vec!["one.zip".to_string(), "two.zip".to_string()]);
    assert!(r.is_none());
    assert_eq!(s.path, vec!["one.zip".to_string(), "two.zip".to_string()]);
    let r = s.error_string("oops".to_string());
    assert!(r.is_none());
    assert_eq!(s.errors, vec!["oops".to_string()]);
}

#[test]
fn test_inspect_ready_delivers_buffered() {
    let mut s = InspectState::new("extract-1".to_string());
    s.send(vec!["a.zip".to_string()]);
    s.error_string("first".to_string());
    s.error_string("second".to_string());
    let evs = s.ready();
    assert!(s.ready);
    assert_eq!(evs, vec![
        UiEvent::InExtract(vec!["a.zip".to_string()]),
        UiEvent::Error("first".to_string()),
        UiEvent::Error("second".to_string()),
    ]);
    assert!(s.errors.is_empty());
    assert_eq!(s.path, vec!["a.zip".to_string()]);
}

#[test]
fn test_inspect_ready_without_buffered_paths() {
    let mut s = InspectState::new("extract-2".to_string());
    s.error_string("kept".to_string());
    let evs = s.ready();
    assert!(evs.is_empty());
    assert!(s.ready);
    assert_eq!(s.errors, vec!["kept".to_string()]);
}

#[test]
fn test_inspect_emits_after_ready() {
    let mut s = InspectState::new("extract-3".to_string());
    s.ready();
    let r = s.send(vec!["b.zip".to_string()]);
    assert_eq!(r, Some(UiEvent::Inspect(vec!["b.zip".to_string()])));
    let r = s.error_string("late".to_string());
    assert_eq!(r, Some(UiEvent::Error("late".to_string())));
    assert!(s.errors.is_empty());
}
