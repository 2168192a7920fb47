use habitat_swim::rumor::{RumorKey, RumorLog};

fn key(id: &str) -> RumorKey {
    RumorKey::new("member", id)
}

#[test]
fn rumor_key_new_keeps_parts() {
    let k = RumorKey::new("service", "abc");
    assert_eq!(k.kind, "service");
    assert_eq!(k.id, "abc");
}

#[test]
fn empty_log_gives_nothing() {
    let mut log = RumorLog::new();
    assert_eq!(log.len(), 0);
    assert!(log.next(3).is_none());
}

#[test]
fn keys_come_out_in_arrival_order() {
    let mut log = RumorLog::new();
    log.push(key("a"));
    log.push(key("b"));
    log.push(key("c"));
    assert_eq!(log.next(2).unwrap().id, "a");
    assert_eq!(log.next(2).unwrap().id, "b");
    assert_eq!(log.next(2).unwrap().id, "c");
    assert_eq!(log.len(), 3);
    assert_eq!(log.next(2).unwrap().id, "a");
    assert_eq!(log.next(2).unwrap().id, "b");
    assert_eq!(log.next(2).unwrap().id, "c");
    assert_eq!(log.len(), 0);
    assert!(log.next(2).is_none());
}

#[test]
fn pushing_a_waiting_key_keeps_its_place_and_resets_it() {
    let mut log = RumorLog::new();
    log.push(key("a"));
    log.push(key("b"));
    assert_eq!(log.next(5).unwrap().id, "a");
    assert_eq!(log.next(5).unwrap().id, "b");
    assert_eq!(log.next(5).unwrap().id, "a");
    log.push(key("a"));
    assert_eq!(log.len(), 2);
    assert_eq!(log.next(5).unwrap().id, "a");
    assert_eq!(log.next(5).unwrap().id, "b");
}

#[test]
fn least_sent_key_goes_first() {
    let mut log = RumorLog::new();
    log.push(key("a"));
    assert_eq!(log.next(10).unwrap().id, "a");
    log.push(key("b"));
    assert_eq!(log.next(10).unwrap().id, "b");
    assert_eq!(log.next(10).unwrap().id, "a");
}

#[test]
fn budget_of_one_sends_once() {
    let mut log = RumorLog::new();
    log.push(key("a"));
    assert_eq!(log.next(1).unwrap().id, "a");
    assert_eq!(log.len(), 0);
}

#[test]
fn kinds_tell_keys_apart() {
    let mut log = RumorLog::new();
    log.push(RumorKey::new("member", "x"));
    log.push(RumorKey::new("service", "x"));
    assert_eq!(log.len(), 2);
    assert_eq!(log.next(1).unwrap().kind, "member");
    assert_eq!(log.next(1).unwrap().kind, "service");
}
