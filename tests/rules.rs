use habitat_swim::member::{refines, Health, Member, MemberList, PINGREQ_TARGETS};

fn member_at(id: &str, incarnation: u64) -> Member {
    let mut m = Member::new();
    m.set_id(String::from(id));
    m.set_incarnation(incarnation);
    m
}

#[test]
fn refines_follows_the_lattice() {
    let all = [Health::Alive, Health::Suspect, Health::Confirmed];
    for (i, a) in all.iter().enumerate() {
        for (j, b) in all.iter().enumerate() {
            assert_eq!(refines(*a, *b), i < j);
        }
    }
}

#[test]
fn confirmed_absorbs_equal_and_lower_incarnations() {
    let mut ml = MemberList::new();
    assert!(ml.insert(member_at("a", 2), Health::Confirmed));
    assert!(!ml.insert(member_at("a", 2), Health::Alive));
    assert!(!ml.insert(member_at("a", 2), Health::Suspect));
    assert!(!ml.insert(member_at("a", 1), Health::Alive));
    assert_eq!(ml.health_of(&member_at("a", 0)), Some(&Health::Confirmed));
    assert!(ml.insert(member_at("a", 3), Health::Alive));
    assert_eq!(ml.health_of(&member_at("a", 0)), Some(&Health::Alive));
    assert_eq!(ml.get("a").unwrap().get_incarnation(), 3);
}

#[test]
fn insert_reports_change_of_incarnation_or_health() {
    let mut ml = MemberList::new();
    assert!(ml.insert(member_at("a", 1), Health::Suspect));
    let mut other = member_at("a", 1);
    other.set_address(String::from("10.0.0.1:1"));
    assert!(!ml.insert(other, Health::Alive));
    assert_eq!(ml.get("a").unwrap().get_address(), "");
    assert!(ml.insert(member_at("a", 1), Health::Confirmed));
    assert!(ml.insert(member_at("a", 4), Health::Confirmed));
    assert_eq!(ml.get("a").unwrap().get_incarnation(), 4);
}

#[test]
fn incarnations_never_go_down() {
    let mut ml = MemberList::new();
    let mut seen = 0;
    for inc in [3u64, 1, 5, 2, 5, 0, 7] {
        ml.insert(member_at("a", inc), Health::Suspect);
        let now = ml.get("a").unwrap().get_incarnation();
        assert!(now >= seen);
        seen = now;
    }
    assert_eq!(seen, 7);
}

#[test]
fn own_suspicion_is_refuted_at_next_incarnation() {
    let mut ml = MemberList::with_owner("me");
    let mut me = member_at("me", 4);
    me.set_address(String::from("127.0.0.1:9000"));
    assert!(ml.insert(me, Health::Alive));
    assert!(ml.insert(member_at("me", 6), Health::Suspect));
    let stored = ml.get("me").unwrap();
    assert_eq!(stored.get_incarnation(), 7);
    assert_eq!(stored.get_address(), "127.0.0.1:9000");
    assert_eq!(ml.health_of(&member_at("me", 0)), Some(&Health::Alive));
}

#[test]
fn own_suspicion_at_equal_incarnation_is_refuted() {
    let mut ml = MemberList::with_owner("me");
    assert!(ml.insert(member_at("me", 3), Health::Alive));
    assert!(ml.insert(member_at("me", 3), Health::Suspect));
    assert_eq!(ml.get("me").unwrap().get_incarnation(), 4);
    assert_eq!(ml.health_of(&member_at("me", 0)), Some(&Health::Alive));
}

#[test]
fn own_confirmation_at_equal_incarnation_is_refuted() {
    let mut ml = MemberList::with_owner("me");
    assert!(ml.insert(member_at("me", 2), Health::Alive));
    assert!(ml.insert(member_at("me", 2), Health::Confirmed));
    assert_eq!(ml.get("me").unwrap().get_incarnation(), 3);
    assert_eq!(ml.health_of(&member_at("me", 0)), Some(&Health::Alive));
}

#[test]
fn own_stale_suspicion_is_ignored() {
    let mut ml = MemberList::with_owner("me");
    assert!(ml.insert(member_at("me", 5), Health::Alive));
    assert!(!ml.insert(member_at("me", 3), Health::Suspect));
    assert_eq!(ml.get("me").unwrap().get_incarnation(), 5);
    assert_eq!(ml.health_of(&member_at("me", 0)), Some(&Health::Alive));
}

#[test]
fn unknown_owner_refutes_from_the_rumor() {
    let mut ml = MemberList::with_owner("me");
    assert!(ml.insert(member_at("me", 0), Health::Confirmed));
    assert_eq!(ml.get("me").unwrap().get_incarnation(), 1);
    assert_eq!(ml.health_of(&member_at("me", 0)), Some(&Health::Alive));
}

#[test]
fn rumors_about_others_merge_by_the_table() {
    let mut ml = MemberList::with_owner("me");
    assert!(ml.insert(member_at("you", 1), Health::Suspect));
    assert_eq!(ml.health_of(&member_at("you", 0)), Some(&Health::Suspect));
    assert_eq!(ml.get("you").unwrap().get_incarnation(), 1);
    assert!(!ml.insert(member_at("you", 1), Health::Alive));
    assert!(ml.insert(member_at("me", 0), Health::Alive));
    assert!(!ml.insert(member_at("me", 0), Health::Alive));
}

#[test]
fn list_without_owner_stores_rumors_as_given() {
    let mut ml = MemberList::new();
    assert!(ml.insert(member_at("me", 2), Health::Alive));
    assert!(ml.insert(member_at("me", 2), Health::Suspect));
    assert_eq!(ml.get("me").unwrap().get_incarnation(), 2);
    assert_eq!(ml.health_of(&member_at("me", 0)), Some(&Health::Suspect));
}

#[test]
fn insert_health_reports_change() {
    let mut ml = MemberList::new();
    let a = member_at("a", 0);
    assert!(ml.insert(a.clone(), Health::Alive));
    assert!(!ml.insert_health(&a, Health::Alive));
    assert!(ml.insert_health(&a, Health::Suspect));
    assert_eq!(ml.health_of(&a), Some(&Health::Suspect));
    assert!(ml.insert_health(&a, Health::Alive));
    assert_eq!(ml.health_of(&a), Some(&Health::Alive));
}

#[test]
fn insert_health_of_unknown_member_keeps_no_record() {
    let mut ml = MemberList::new();
    let b = member_at("b", 0);
    assert_eq!(ml.health_of(&b), None);
    assert!(ml.insert_health(&b, Health::Confirmed));
    assert_eq!(ml.health_of(&b), Some(&Health::Confirmed));
    assert!(ml.get("b").is_none());
    assert_eq!(ml.len(), 0);
}

#[test]
fn membership_for_snapshots_member_and_health() {
    let mut ml = MemberList::new();
    let mut a = member_at("a", 9);
    a.set_persistent(true);
    assert!(ml.insert(a.clone(), Health::Suspect));
    let m = ml.membership_for("a");
    assert!(m.member == a);
    assert_eq!(m.health, Health::Suspect);
}

#[test]
fn members_lists_each_once() {
    let mut ml = MemberList::new();
    for id in ["a", "b", "c", "b", "a"] {
        ml.insert(member_at(id, 0), Health::Alive);
    }
    let mut ids: Vec<String> = ml.members().iter().map(|m| m.get_id().to_string()).collect();
    ids.sort();
    assert_eq!(ids, vec!["a", "b", "c"]);
    assert_eq!(ml.len(), 3);
}

#[test]
fn check_list_excludes_given_id() {
    let mut ml = MemberList::new();
    for id in ["a", "b", "c", "d"] {
        ml.insert(member_at(id, 0), Health::Alive);
    }
    let mut ids: Vec<String> = ml.check_list("c").iter().map(|m| m.get_id().to_string()).collect();
    ids.sort();
    assert_eq!(ids, vec!["a", "b", "d"]);
    assert_eq!(ml.check_list("zz").len(), 4);
    assert!(MemberList::new().check_list("a").is_empty());
}

#[test]
fn pingreq_targets_counts() {
    let two = {
        let mut ml = MemberList::new();
        ml.insert(member_at("a", 0), Health::Alive);
        ml.insert(member_at("b", 0), Health::Alive);
        ml
    };
    assert!(two.pingreq_targets(&member_at("a", 0), &member_at("b", 0)).is_empty());

    let mut ml = MemberList::new();
    for id in ["a", "b", "c", "d", "e", "f", "g"] {
        ml.insert(member_at(id, 0), Health::Alive);
    }
    let targets = ml.pingreq_targets(&member_at("a", 0), &member_at("b", 0));
    assert_eq!(targets.len(), PINGREQ_TARGETS);
    let mut ids: Vec<&str> = targets.iter().map(|m| m.get_id()).collect();
    ids.sort();
    assert_eq!(ids, vec!["c", "d", "e", "f", "g"]);

    let outsider = ml.pingreq_targets(&member_at("x", 0), &member_at("y", 0));
    assert_eq!(outsider.len(), PINGREQ_TARGETS);
    let same = ml.pingreq_targets(&member_at("a", 0), &member_at("a", 0));
    assert_eq!(same.len(), PINGREQ_TARGETS);
    assert!(same.iter().all(|m| m.get_id() != "a"));
}
