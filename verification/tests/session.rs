use review_agent::error::AgentError;
use review_agent::session::{
    file_fingerprint, generate_session_id, load_resume_state, record_line, Session, SessionRecord,
};

fn line(record: &SessionRecord) -> String {
    record_line(record).unwrap_or_else(|_| panic!("records can be written"))
}

#[test]
fn test_generate_session_id() {
    let nanos = std::time::SystemTime::now()
        .duration_since(std::time::UNIX_EPOCH)
        .unwrap_or_default()
        .as_nanos();
    let id = generate_session_id(nanos);
    assert!(id.starts_with("rev-"));
    assert!(id.len() > 5);
    assert_eq!(id, format!("rev-{:x}", nanos));
    assert_eq!(generate_session_id(0), "rev-0");
    assert_eq!(generate_session_id(0xdeadbeef), "rev-deadbeef");
    assert_eq!(generate_session_id(u128::MAX), format!("rev-{:x}", u128::MAX));
}

#[test]
fn test_fingerprint_deterministic() {
    let a = file_fingerprint("diff", "src/main.rs", "abc123");
    let b = file_fingerprint("diff", "src/main.rs", "abc123");
    assert_eq!(a, b);
    assert_eq!(
        a,
        "9a3a4343c365023c1348fe5f940f90a5ea7732bffa911bd32025abf52cd7928e"
    );
}

#[test]
fn test_fingerprint_differs() {
    let a = file_fingerprint("diff", "src/main.rs", "abc");
    let b = file_fingerprint("diff", "src/main.rs", "def");
    assert_ne!(a, b);
    assert_ne!(file_fingerprint("a", "b", "c"), file_fingerprint("ab", "", "c"));
}

#[test]
fn test_session_create_and_finalize() {
    let (mut session, start) = Session::new(
        "rev-1".into(),
        "test-model",
        "code",
        Some("https://github.com/o/r/pull/1"),
        100,
    );
    assert_eq!(session.id(), "rev-1");
    assert_eq!(
        line(&start),
        "{\"domain\":\"code\",\"model\":\"test-model\",\"pr_url\":\"https://github.com/o/r/pull/1\",\"session_id\":\"rev-1\",\"timestamp\":100,\"type\":\"session_start\"}"
    );
    let done = session.record_file_done("src/main.rs", "fp1", 3, 101);
    assert!(line(&done).contains("\"finding_count\":3"));
    let skipped = session.record_file_skipped("Cargo.lock", "skippable", 102);
    assert!(line(&skipped).contains("\"type\":\"file_skipped\""));
    match session.finalize(2, 103) {
        SessionRecord::End {
            session_id,
            total_files,
            reviewed_files,
            total_findings,
            timestamp,
        } => {
            assert_eq!(session_id, "rev-1");
            assert_eq!(
                (total_files, reviewed_files, total_findings, timestamp),
                (2, 1, 3, 103)
            );
        }
        _ => panic!("expected the end of the session"),
    }
}

#[test]
fn test_resume_state_loading() {
    let (mut session, start) = Session::new("rev-2".into(), "test-model", "code", None, 1);
    let mut content = line(&start) + "\n";
    content += &(line(&session.record_file_done("src/main.rs", "fp_main", 2, 2)) + "\n");
    content += &(line(&session.record_file_done("src/lib.rs", "fp_lib", 1, 3)) + "\n");
    content += &(line(&session.finalize(2, 4)) + "\n");

    let state = load_resume_state("rev-2", &content).unwrap_or_else(|_| panic!("a valid id"));
    assert!(state.is_completed("fp_main"));
    assert!(state.is_completed("fp_lib"));
    assert!(!state.is_completed("fp_other"));
    assert_eq!(state.session_id, "rev-2");
    assert_eq!(state.completed_files.len(), 2);
    assert_eq!(state.completed_files[1].path, "src/lib.rs");
}

#[test]
fn session_ids_name_no_path() {
    for id in ["../x", "a b", "a.b", "a/b"] {
        match load_resume_state(id, "") {
            Err(AgentError::Config(m)) => assert_eq!(
                m,
                format!("Invalid session ID '{id}': must be alphanumeric, dash, or underscore only")
            ),
            _ => panic!("{id} was accepted"),
        }
    }
    assert!(load_resume_state("rev-é_1", "").is_ok());
    assert!(load_resume_state("", "").is_ok());
}

#[test]
fn generated_names_can_be_resumed() {
    for nanos in [0, 7, 0x1234_5678_9abc_def0, u128::MAX] {
        assert!(load_resume_state(&generate_session_id(nanos), "").is_ok());
    }
}

#[test]
fn other_lines_are_passed_over() {
    let content = "\n  \nnot json\n{\"type\":\"file_done\"}\n  {\"type\":\"file_done\",\"path\":\"p\",\"fingerprint\":\"f\",\"finding_count\":0,\"timestamp\":9}\r\n{\"type\":\"file_skipped\",\"path\":\"q\",\"fingerprint\":\"g\",\"finding_count\":0,\"timestamp\":9}\n";
    let state = load_resume_state("s", content).unwrap_or_else(|_| panic!("a valid id"));
    assert_eq!(state.completed_files.len(), 1);
    assert!(state.is_completed("f"));
    assert!(!state.is_completed("g"));
    // A record in which a member stands twice is none; one more that is not read
    // does no harm.
    let twice = "{\"type\":\"file_done\",\"path\":\"p\",\"path\":\"q\",\"fingerprint\":\"f\",\"finding_count\":0,\"timestamp\":9}\n";
    let state = load_resume_state("s", twice).unwrap_or_else(|_| panic!("a valid id"));
    assert!(state.completed_files.is_empty());
    let more = "{\"a\":{\"path\":1},\"a\":2,\"type\":\"file_done\",\"path\":\"p\",\"fingerprint\":\"f\",\"finding_count\":0,\"timestamp\":9}\n";
    let state = load_resume_state("s", more).unwrap_or_else(|_| panic!("a valid id"));
    assert_eq!(state.completed_files[0].path, "p");
}

#[test]
fn sessions_count_what_they_reviewed() {
    let (mut session, _) = Session::new("s".into(), "m", "d", None, 0);
    let paths = ["a\"b", "c\nd", "世界"];
    let mut content = String::new();
    for (i, p) in paths.iter().enumerate() {
        content += &(line(&session.record_file_done(p, &format!("fp{i}"), i, 0)) + "\n");
    }
    assert_eq!(content.lines().count(), 3);
    let state = load_resume_state("s", &content).unwrap_or_else(|_| panic!("a valid id"));
    for (i, p) in paths.iter().enumerate() {
        assert_eq!(state.completed_files[i].path, *p);
        assert!(state.is_completed(&format!("fp{i}")));
    }
    assert_eq!((session.reviewed_count, session.total_findings), (3, 3));
}
