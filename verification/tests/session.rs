use hamelin::session::{kill_decide, Hamelin, KillStep, SessionLife, KILL_GRACE_MS};

#[test]
fn plain_plan_carries_template_and_version() {
    let args = vec!["-v".to_string(), "--fast".to_string()];
    let h = Hamelin::new("/usr/bin/cat", Some(&args));
    let p = h.spawn_plan();
    assert_eq!(p.command, "/usr/bin/cat");
    assert_eq!(p.args, vec!["-v".to_string(), "--fast".to_string()]);
    assert_eq!(p.env.len(), 1);
    assert_eq!(p.env[0].0, "H-VERSION");
    assert_eq!(p.env[0].1, "hamelin.rs");
}

#[test]
fn plan_without_args_has_none() {
    let h = Hamelin::new("cat", None);
    let p = h.spawn_plan();
    assert_eq!(p.command, "cat");
    assert!(p.args.is_empty());
}

#[test]
fn env_plan_keeps_pairs_and_appends_version_last() {
    let h = Hamelin::new("cat", None);
    let extra = vec![
        ("H-TYPE".to_string(), "HAMELIN.RS-GENERIC-0.1".to_string()),
        ("H-CLIENT".to_string(), "203.0.113.9:4000".to_string()),
    ];
    let p = h.spawn_plan_with_env(&extra);
    assert_eq!(p.env.len(), 3);
    assert_eq!(p.env[0], ("H-TYPE".to_string(), "HAMELIN.RS-GENERIC-0.1".to_string()));
    assert_eq!(p.env[1], ("H-CLIENT".to_string(), "203.0.113.9:4000".to_string()));
    assert_eq!(p.env[2], ("H-VERSION".to_string(), "hamelin.rs".to_string()));
}

#[test]
fn version_wins_even_when_adapter_sets_it() {
    // Entries apply in order, later keys override earlier ones; the
    // plan puts the version tag last, so it always wins.
    let h = Hamelin::new("cat", None);
    let extra = vec![("H-VERSION".to_string(), "impostor".to_string())];
    let p = h.spawn_plan_with_env(&extra);
    let last = p
        .env
        .iter()
        .rev()
        .find(|(k, _)| k == "H-VERSION")
        .map(|(_, v)| v.clone());
    assert_eq!(last, Some("hamelin.rs".to_string()));
}

#[test]
fn grace_window_is_a_full_second() {
    assert!(KILL_GRACE_MS >= 1000);
    assert_eq!(kill_decide(0, 0, true, false), KillStep::Wait);
    assert_eq!(kill_decide(0, 500, true, false), KillStep::Wait);
    assert_eq!(kill_decide(0, 999, true, false), KillStep::Wait);
    assert_eq!(kill_decide(0, 1000, true, false), KillStep::Escalate);
}

#[test]
fn stubborn_child_is_escalated_then_reaped() {
    // The child ignores the polite signal sent at time zero.  At
    // 500 ms the loop is still in the polite phase; at 1000 ms it
    // escalates; once the unconditional signal lands the child dies
    // and the loop finishes.
    assert_eq!(kill_decide(0, 500, true, false), KillStep::Wait);
    assert_eq!(kill_decide(0, 1000, true, false), KillStep::Escalate);
    assert_eq!(kill_decide(0, 1050, true, true), KillStep::Wait);
    assert_eq!(kill_decide(0, 1100, false, true), KillStep::Finished);
}

#[test]
fn prompt_death_finishes_without_escalation() {
    assert_eq!(kill_decide(200, 400, false, false), KillStep::Finished);
}

#[test]
fn stdin_closes_once_and_never_after_the_end() {
    let mut life = SessionLife::begin();
    assert!(life.close_input());
    assert!(life.close_input());
    life.end();
    assert!(!life.close_input());
}
