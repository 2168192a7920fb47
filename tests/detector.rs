use habitat_swim::detector::{probe_due, suspicion_expired, ProbeReply, PERSISTENT_PROBE_ROUNDS};
use habitat_swim::member::{Health, Member, MemberList};

fn member_at(id: &str, incarnation: u64) -> Member {
    let mut m = Member::new();
    m.set_id(String::from(id));
    m.set_incarnation(incarnation);
    m
}

#[test]
fn probe_due_skips_confirmed_unless_persistent() {
    assert!(probe_due(Health::Alive, false, 3));
    assert!(probe_due(Health::Suspect, false, 3));
    assert!(!probe_due(Health::Confirmed, false, 0));
    assert!(!probe_due(Health::Confirmed, false, 10));
    assert!(probe_due(Health::Confirmed, true, 0));
    assert!(probe_due(Health::Confirmed, true, PERSISTENT_PROBE_ROUNDS * 3));
    assert!(!probe_due(Health::Confirmed, true, 7));
}

#[test]
fn suspicion_runs_out_strictly_after_timeout() {
    assert!(!suspicion_expired(100, 105, 5));
    assert!(suspicion_expired(100, 106, 5));
    assert!(!suspicion_expired(100, 50, 5));
    assert!(suspicion_expired(0, u64::MAX, 5));
}

#[test]
fn silent_target_becomes_suspect_then_alive_on_answer() {
    let mut ml = MemberList::new();
    let t = member_at("t", 0);
    ml.insert(t.clone(), Health::Alive);
    assert!(!ml.record_probe(&t, ProbeReply::Ack));
    assert!(ml.record_probe(&t, ProbeReply::Silence));
    assert_eq!(ml.health_of(&t), Some(&Health::Suspect));
    assert!(!ml.record_probe(&t, ProbeReply::Silence));
    assert!(ml.record_probe(&t, ProbeReply::IndirectAck));
    assert_eq!(ml.health_of(&t), Some(&Health::Alive));
}

#[test]
fn confirm_after_suspicion() {
    let mut ml = MemberList::new();
    let t = member_at("t", 4);
    ml.insert(t.clone(), Health::Alive);
    ml.record_probe(&t, ProbeReply::Silence);
    assert!(ml.confirm("t"));
    assert_eq!(ml.health_of(&t), Some(&Health::Confirmed));
    assert_eq!(ml.get("t").unwrap().get_incarnation(), 4);
    assert!(!ml.confirm("t"));
}
