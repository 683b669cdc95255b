use tag_editor::slideshow::Slideshow;

fn abc() -> Vec<String> {
    vec!["a".to_string(), "b".to_string(), "c".to_string()]
}

#[test]
fn start_on_empty_list_stays_idle() {
    let mut s = Slideshow::default();
    s.start(Vec::new(), 5);
    assert!(!s.is_running);
    assert_eq!(s.update(10_000, 1000, true), None);
}

#[test]
fn single_pass_stops_after_last() {
    let mut s = Slideshow::default();
    s.start(abc(), 0);
    assert_eq!(s.current_image(), Some(&"a".to_string()));
    assert_eq!(s.update(1000, 1000, false), Some("b".to_string()));
    assert_eq!(s.update(2000, 1000, false), Some("c".to_string()));
    assert!(!s.completed_once);
    assert_eq!(s.update(3000, 1000, false), None);
    assert!(!s.is_running);
    assert!(s.completed_once);
    assert_eq!(s.update(9000, 1000, false), None);
}

#[test]
fn looping_cycles_and_marks_each_pass() {
    let mut s = Slideshow::default();
    s.start(abc(), 0);
    assert_eq!(s.update(1000, 1000, true), Some("b".to_string()));
    assert_eq!(s.update(2000, 1000, true), Some("c".to_string()));
    assert!(!s.completed_once);
    assert_eq!(s.update(3000, 1000, true), Some("a".to_string()));
    assert!(s.completed_once);
    s.completed_once = false;
    assert_eq!(s.update(4000, 1000, true), Some("b".to_string()));
    assert_eq!(s.update(5000, 1000, true), Some("c".to_string()));
    assert!(!s.completed_once);
    assert_eq!(s.update(6000, 1000, true), Some("a".to_string()));
    assert!(s.completed_once);
    assert!(s.is_running);
}

#[test]
fn no_advance_before_interval() {
    let mut s = Slideshow::default();
    s.start(abc(), 100);
    assert_eq!(s.update(1099, 1000, true), None);
    assert_eq!(s.current_index, 0);
    assert_eq!(s.update(1100, 1000, true), Some("b".to_string()));
    assert_eq!(s.last_switch, 1100);
}

#[test]
fn stop_halts_updates() {
    let mut s = Slideshow::default();
    s.start(abc(), 0);
    s.stop();
    s.stop();
    assert!(!s.is_running);
    assert_eq!(s.update(5000, 1000, true), None);
    assert_eq!(s.current_index, 0);
}
