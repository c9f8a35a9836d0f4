use sagacraft_rs::quests::{
    divide, xp_multiplier_tenths, ObjectiveType, Quest, QuestDifficulty, QuestObjective,
    QuestStage, QuestStatus, QuestSystem, QuestTracker,
};
use sagacraft_rs::strmap::StrSet;

fn objective(required: i32, current: i32, optional: bool) -> QuestObjective {
    let mut o = QuestObjective::new(
        "o".to_string(),
        ObjectiveType::Kill,
        "Slay rats".to_string(),
        "rat".to_string(),
        required,
    );
    o.current_count = current;
    o.is_optional = optional;
    o
}

fn quest(id: &str, prerequisites: &[&str]) -> Quest {
    let mut q = Quest::new(
        id.to_string(),
        format!("Title of {}", id),
        "Do things".to_string(),
        "Elder".to_string(),
    );
    q.prerequisites = prerequisites.iter().map(|s| s.to_string()).collect();
    q
}

fn finished_quest(id: &str) -> Quest {
    let mut q = quest(id, &[]);
    let mut stage = QuestStage::new("s".to_string(), 1, "Only".to_string(), "d".to_string());
    stage.add_objective(objective(1, 1, false));
    q.stages.push(stage);
    q
}

#[test]
fn empty_stage_and_zero_requirement_are_complete() {
    let stage = QuestStage::new("s".to_string(), 1, "t".to_string(), "d".to_string());
    assert_eq!(stage.get_progress_percentage(), 100);
    assert!(stage.is_complete());
    assert_eq!(objective(0, 0, false).get_progress_percentage(), 100);
    assert_eq!(objective(0, 7, false).get_progress_percentage(), 100);
}

#[test]
fn objective_percentages_are_exact() {
    assert_eq!(objective(4, 1, false).get_progress_percentage(), 25);
    assert_eq!(objective(3, 1, false).get_progress_percentage(), 33);
    assert_eq!(objective(3, 2, false).get_progress_percentage(), 66);
    assert_eq!(objective(5, 5, false).get_progress_percentage(), 100);
    assert_eq!(objective(2, 5, false).get_progress_percentage(), 250);
    assert_eq!(objective(3, -1, false).get_progress_percentage(), -33);
    assert_eq!(objective(-3, 1, false).get_progress_percentage(), -33);
    assert_eq!(objective(1, i32::MAX, false).get_progress_percentage(), i32::MAX);
    assert_eq!(objective(1, i32::MIN, false).get_progress_percentage(), i32::MIN);
}

#[test]
fn division_rounds_towards_zero_and_saturates() {
    assert_eq!(divide(7, 2), 3);
    assert_eq!(divide(-7, 2), -3);
    assert_eq!(divide(7, -2), -3);
    assert_eq!(divide(-7, -2), 3);
    assert_eq!(divide(1 << 40, 1), i32::MAX);
    assert_eq!(divide(-(1 << 40), 1), i32::MIN);
    assert_eq!(divide(-(1 << 31), 1), i32::MIN);
}

#[test]
fn stage_percentage_is_the_mean() {
    let mut stage = QuestStage::new("s".to_string(), 1, "t".to_string(), "d".to_string());
    stage.add_objective(objective(4, 1, false));
    stage.add_objective(objective(2, 2, false));
    stage.add_objective(objective(3, 1, true));
    // 25 + 100 + 33 = 158, a third of which is 52 and two thirds
    assert_eq!(stage.get_progress_percentage(), 52);
    assert!(!stage.is_complete());
    assert_eq!(stage.get_optional_completed(), 0);
    stage.objectives[0].current_count = 4;
    assert!(stage.is_complete());
    stage.objectives[2].current_count = 3;
    assert_eq!(stage.get_optional_completed(), 1);
    assert_eq!(stage.get_progress_percentage(), 100);
}

#[test]
fn progress_caps_the_count() {
    let mut o = objective(3, 5, false);
    assert_eq!(o.progress(10), -2);
    assert_eq!(o.current_count, 3);
    assert!(o.is_complete());
    let mut o = objective(3, 1, false);
    assert_eq!(o.progress(10), 0);
    assert_eq!(o.current_count, 1);
    assert!(!o.is_complete());
}

#[test]
fn reward_scaling_has_three_branches() {
    assert_eq!(xp_multiplier_tenths(5, 10), 15);
    assert_eq!(xp_multiplier_tenths(20, 10), 5);
    assert_eq!(xp_multiplier_tenths(11, 10), 10);
    assert_eq!(xp_multiplier_tenths(15, 10), 10);
    assert_eq!(xp_multiplier_tenths(16, 10), 5);
    assert_eq!(xp_multiplier_tenths(10, 10), 10);
    assert_eq!(xp_multiplier_tenths(9, 10), 11);

    let mut q = quest("q", &[]);
    q.quest_giver_level = 10;
    q.rewards.experience_points = 100;
    q.rewards.gold = 40;
    q.rewards.items.push("sword".to_string());
    q.rewards.reputation_changes.insert("guild".to_string(), 5);
    q.rewards.special_rewards.insert("title".to_string(), serde_json::Value::from("Hero"));

    let under = q.get_level_adjusted_rewards(5);
    assert_eq!(under.experience_points, 150);
    assert_eq!(under.experience_points, ((100 as f32) * 1.5) as i32);
    assert_eq!(under.gold, 40);
    assert_eq!(under.items, vec!["sword".to_string()]);
    assert_eq!(under.reputation_changes.get("guild"), Some(&5));
    assert_eq!(under.special_rewards.get("title"), Some(&serde_json::Value::from("Hero")));

    let over = q.get_level_adjusted_rewards(20);
    assert_eq!(over.experience_points, 50);
    assert_eq!(over.gold, 40);

    let near = q.get_level_adjusted_rewards(11);
    assert_eq!(near.experience_points, 100);

    q.rewards.experience_points = 15;
    assert_eq!(q.get_level_adjusted_rewards(20).experience_points, 7);
    assert_eq!(q.get_level_adjusted_rewards(7).experience_points, 19);
}

#[test]
fn stages_advance_without_leaving_the_list() {
    let mut q = quest("q", &[]);
    assert!(!q.advance_stage());
    assert!(!q.is_complete());
    assert!(q.get_current_stage().is_none());
    for n in 0..3 {
        q.stages.push(QuestStage::new(format!("s{}", n), n, "t".to_string(), "d".to_string()));
    }
    assert!(!q.is_complete());
    assert!(q.advance_stage());
    assert!(q.advance_stage());
    assert_eq!(q.current_stage_index, 2);
    assert!(!q.advance_stage());
    assert_eq!(q.current_stage_index, 2);
    assert_eq!(q.get_current_stage().unwrap().stage_id, "s2");
    assert!(q.is_complete());
    q.stages[2].add_objective(objective(2, 1, false));
    assert!(!q.is_complete());
}

#[test]
fn new_quest_defaults() {
    let q = quest("q", &[]);
    assert_eq!(q.status, QuestStatus::Available);
    assert_eq!(q.difficulty, QuestDifficulty::Moderate);
    assert_eq!(q.quest_giver_level, 1);
    assert!(q.acceptance_time.is_none());
    assert_eq!(q.rewards.experience_points, 0);
}

#[test]
fn marking_stamps_status_and_time() {
    let mut q = quest("q", &[]);
    q.mark_complete_at("2024-01-02 03:04:05".to_string());
    assert_eq!(q.status, QuestStatus::Completed);
    assert_eq!(q.completion_time.as_deref(), Some("2024-01-02 03:04:05"));
    q.mark_failed();
    assert_eq!(q.status, QuestStatus::Failed);
    let stamp = q.completion_time.clone().unwrap();
    assert_eq!(stamp.len(), 19);
    assert_eq!(&stamp[4..5], "-");
    assert_eq!(&stamp[10..11], " ");
    assert_eq!(&stamp[13..14], ":");
    q.mark_complete();
    assert_eq!(q.status, QuestStatus::Completed);
    q.mark_failed_at("later".to_string());
    assert_eq!(q.completion_time.as_deref(), Some("later"));
}

#[test]
fn can_accept_needs_every_prerequisite() {
    let q = quest("q", &["a", "b"]);
    let mut done = StrSet::new();
    assert!(!q.can_accept(&done));
    done.insert("a".to_string());
    assert!(!q.can_accept(&done));
    done.insert("b".to_string());
    assert!(q.can_accept(&done));
    assert!(quest("free", &[]).can_accept(&StrSet::new()));
}

#[test]
fn tracker_moves_quests_through_their_life() {
    let mut t = QuestTracker::new();
    assert!(t.accept_quest_at(finished_quest("q1"), "t1".to_string()));
    assert_eq!(t.get_active_count(), 1);
    assert_eq!(t.get_quest("q1").unwrap().status, QuestStatus::Active);
    assert_eq!(t.get_quest("q1").unwrap().acceptance_time.as_deref(), Some("t1"));
    // already active
    assert!(!t.accept_quest_at(finished_quest("q1"), "t2".to_string()));
    // not finished: cannot be completed
    assert!(t.accept_quest(quest("q2", &[])));
    assert!(!t.complete_quest("q2"));
    assert!(!t.complete_quest("nope"));
    assert!(t.complete_quest_at("q1", "t3".to_string()));
    assert_eq!(t.get_active_count(), 1);
    assert_eq!(t.get_completed_count(), 1);
    assert!(t.completed_quests.contains("q1"));
    assert!(t.get_quest("q1").is_none());
    // completed quests are not accepted again
    assert!(!t.accept_quest(finished_quest("q1")));
    assert!(t.fail_quest_at("q2", "t4".to_string()));
    assert!(!t.fail_quest("q2"));
    assert!(t.failed_quests.contains("q2"));
    assert_eq!(t.get_active_count(), 0);
    let log: Vec<(String, QuestStatus)> =
        t.quest_history.iter().map(|(id, s, _)| (id.clone(), *s)).collect();
    assert_eq!(
        log,
        vec![
            ("q1".to_string(), QuestStatus::Active),
            ("q2".to_string(), QuestStatus::Active),
            ("q1".to_string(), QuestStatus::Completed),
            ("q2".to_string(), QuestStatus::Failed),
        ]
    );
    assert_eq!(t.quest_history[0].2, "t1");
    assert_eq!(t.quest_history[3].2, "t4");
}

#[test]
fn tracker_guards_acceptance() {
    let mut t = QuestTracker::new();
    let mut active = quest("a", &[]);
    active.status = QuestStatus::Active;
    assert!(!t.would_accept(&active));
    assert!(!t.accept_quest(active));
    assert!(!t.accept_quest(quest("b", &["a"])));
    assert_eq!(t.quest_history.len(), 0);
    assert!(t.accept_quest(finished_quest("a")));
    assert!(t.complete_quest("a"));
    assert!(t.accept_quest(quest("b", &["a"])));
}

#[test]
fn system_accepts_by_identifier() {
    let mut s = QuestSystem::new();
    s.add_available_quest(finished_quest("first"));
    s.add_available_quest(quest("second", &["first"]));
    assert_eq!(s.get_available_quests().len(), 2);

    assert_eq!(s.accept_quest("missing"), Err("Quest not found".to_string()));
    assert_eq!(s.accept_quest("second"), Err("Prerequisites not met".to_string()));
    assert_eq!(s.available_quests.len(), 2);
    assert_eq!(s.tracker.get_active_count(), 0);

    assert_eq!(s.accept_quest("first"), Ok("Accepted quest: Title of first".to_string()));
    assert!(s.tracker.active_quests.contains_key("first"));
    assert!(!s.available_quests.contains_key("first"));
    assert_eq!(s.accept_quest("first"), Err("Quest not found".to_string()));

    s.add_available_quest(finished_quest("first"));
    assert_eq!(s.accept_quest("first"), Err("Failed to accept quest".to_string()));
    assert!(s.available_quests.contains_key("first"));

    assert!(s.tracker.complete_quest("first"));
    assert_eq!(
        s.accept_quest_at("second", "now".to_string()),
        Ok("Accepted quest: Title of second".to_string())
    );
    assert_eq!(s.tracker.get_quest("second").unwrap().acceptance_time.as_deref(), Some("now"));
}

#[test]
fn quests_are_shown_in_words() {
    let mut s = QuestSystem::new();
    let mut q = finished_quest("hunt");
    q.stages[0].objectives[0].required_count = 3;
    s.add_available_quest(q);
    s.add_available_quest(quest("later", &["hunt"]));
    s.add_available_quest(quest("free", &[]));
    assert_eq!(
        s.show_quests(),
        "Active Quests:\n\nAvailable Quests:\n- Title of free: Do things\n- Title of hunt: Do things\n"
    );
    s.accept_quest("hunt").unwrap();
    assert_eq!(
        s.show_quests(),
        "Active Quests:\n- Title of hunt: Do things\n  Current Stage: Only\n    - Slay rats (1/3)\n\nAvailable Quests:\n- Title of free: Do things\n"
    );
}
