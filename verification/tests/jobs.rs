use ydui::store::JobStore;

#[test]
fn unknown_id_is_not_found() {
    let store = JobStore::new();
    let id = String::from("no-such-job");
    assert!(store.get(&id).is_none());
}

#[test]
fn fresh_job_has_default_fields() {
    let mut store = JobStore::new();
    let id = store.create();
    let snap = store.get(&id).unwrap();
    assert_eq!(snap.progress, 0);
    assert_eq!(snap.status, "准备下载");
    assert!(snap.filename.is_none());
    assert_eq!(snap.log_text, "");
}

#[test]
fn successful_lifecycle_reaches_completed_with_progress_100() {
    let mut store = JobStore::new();
    let id = store.create();
    store.mark_running(&id);
    let snap = store.get(&id).unwrap();
    assert_eq!(snap.status, "准备下载");

    let before = vec![String::from("a.mp4")];
    let after = vec![String::from("a.mp4"), String::from("b.mp4")];
    store.settle_exit(&id, true, &before, &after);

    let snap = store.get(&id).unwrap();
    assert_eq!(snap.progress, 100);
    assert_eq!(snap.status, "下载完成");
    assert_eq!(snap.filename.as_deref(), Some("b.mp4"));
}

#[test]
fn failing_exit_reaches_failed_without_artifact_lookup() {
    let mut store = JobStore::new();
    let id = store.create();
    store.mark_running(&id);
    store.settle_exit(&id, false, &vec![], &vec![String::from("x.mp4")]);
    let snap = store.get(&id).unwrap();
    assert_eq!(snap.status, "下载失败");
    assert_eq!(snap.progress, 0);
    assert!(snap.filename.is_none());
}

#[test]
fn terminal_state_admits_no_further_transition() {
    let mut store = JobStore::new();
    let id = store.create();
    store.mark_running(&id);
    store.settle_exit(&id, true, &vec![], &vec![]);
    let done = store.get(&id).unwrap();

    store.mark_running(&id);
    store.append_line(&id, String::from("late line"));
    store.settle_exit(&id, false, &vec![], &vec![]);
    let err = String::from("late error");
    store.settle_spawn_error(&id, &err);

    let still = store.get(&id).unwrap();
    assert_eq!(still.status, done.status);
    assert_eq!(still.progress, done.progress);
    assert_eq!(still.log_text, done.log_text);
    assert_eq!(still.filename, done.filename);
}

#[test]
fn spawn_failure_carries_error_text_and_empty_log() {
    let mut store = JobStore::new();
    let id = store.create();
    let err = String::from("No such file or directory (os error 2)");
    store.settle_spawn_error(&id, &err);
    let snap = store.get(&id).unwrap();
    assert_eq!(snap.status, "启动失败: No such file or directory (os error 2)");
    assert_eq!(snap.log_text, "");
    assert!(snap.filename.is_none());
}

#[test]
fn log_append_is_monotonic_between_polls() {
    let mut store = JobStore::new();
    let id = store.create();
    store.mark_running(&id);
    store.append_line(&id, String::from("one"));
    let first = store.get(&id).unwrap().log_text;
    store.append_line(&id, String::from("two"));
    store.append_line(&id, String::from("three"));
    let second = store.get(&id).unwrap().log_text;
    assert!(second.starts_with(&first));
    assert_eq!(first, "one");
    assert_eq!(second, "one\ntwo\nthree");
}

#[test]
fn stderr_lines_get_the_error_marker() {
    let mut store = JobStore::new();
    let id = store.create();
    store.mark_running(&id);
    let boom = String::from("boom");
    store.append_error_line(&id, &boom);
    let snap = store.get(&id).unwrap();
    assert_eq!(snap.log_text, "Error: boom");
}

#[test]
fn two_jobs_do_not_cross_contaminate_logs() {
    let mut store = JobStore::new();
    let a = store.create();
    let b = store.create();
    assert_ne!(a, b);
    store.mark_running(&a);
    store.mark_running(&b);
    store.append_line(&a, String::from("a1"));
    store.append_line(&b, String::from("b1"));
    store.append_line(&a, String::from("a2"));
    let err = String::from("b-err");
    store.append_error_line(&b, &err);
    assert_eq!(store.get(&a).unwrap().log_text, "a1\na2");
    assert_eq!(store.get(&b).unwrap().log_text, "b1\nError: b-err");
    assert_eq!(store.get(&a).unwrap().status, "准备下载");
}
