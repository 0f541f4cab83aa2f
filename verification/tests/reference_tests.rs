use waterwheel::api_types::Job;
use waterwheel::reference::{
    parse_reference, resolve_reference, Reference, ReferenceError, ReferenceKind, TimeOffset,
};

fn secs(s: i64) -> Option<TimeOffset> {
    Some(TimeOffset { secs: s, nanos: 0 })
}

#[test]
fn test_parse_reference() {
    let r = parse_reference("a/b/task/c@1d").unwrap();
    assert_eq!(
        r,
        Reference {
            proj: Some("a".to_owned()),
            job: Some("b".to_owned()),
            kind: ReferenceKind::Task,
            name: "c".to_string(),
            offset: secs(86400)
        }
    );

    let r = parse_reference("b/task/c@1d").unwrap();
    assert_eq!(
        r,
        Reference {
            proj: None,
            job: Some("b".to_owned()),
            kind: ReferenceKind::Task,
            name: "c".to_string(),
            offset: secs(86400)
        }
    );

    let r = parse_reference("task/c@1d").unwrap();
    assert_eq!(
        r,
        Reference {
            proj: None,
            job: None,
            kind: ReferenceKind::Task,
            name: "c".to_string(),
            offset: secs(86400)
        }
    );

    let r = parse_reference("trigger/c@1d").unwrap();
    assert_eq!(
        r,
        Reference {
            proj: None,
            job: None,
            kind: ReferenceKind::Trigger,
            name: "c".to_string(),
            offset: secs(86400)
        }
    );

    let r = parse_reference("a/b/task/c").unwrap();
    assert_eq!(
        r,
        Reference {
            proj: Some("a".to_owned()),
            job: Some("b".to_owned()),
            kind: ReferenceKind::Task,
            name: "c".to_string(),
            offset: None
        }
    );

    let r = parse_reference("task/c").unwrap();
    assert_eq!(
        r,
        Reference {
            proj: None,
            job: None,
            kind: ReferenceKind::Task,
            name: "c".to_string(),
            offset: None
        }
    );

    let r = parse_reference("a space/b/task/c").unwrap();
    assert_eq!(
        r,
        Reference {
            proj: Some("a space".to_owned()),
            job: Some("b".to_owned()),
            kind: ReferenceKind::Task,
            name: "c".to_string(),
            offset: None
        }
    );
}

#[test]
fn test_parse_reference_errors() {
    // empty project name
    assert!(matches!(parse_reference("/b/task/c"), Err(_)));
    // empty job name
    assert!(matches!(parse_reference("a//task/c"), Err(_)));
    // missing kind
    assert!(matches!(parse_reference("a/b//c"), Err(_)));
    // invalid kind
    assert!(matches!(parse_reference("token/c"), Err(_)));
    // empty  name
    assert!(matches!(parse_reference("task/"), Err(_)));
    // empty string
    assert!(matches!(parse_reference(""), Err(_)));
    // extra parts
    assert!(matches!(parse_reference("a/b/task/c/d"), Err(_)));
    // invalid time
    assert!(matches!(parse_reference("task/c@not_time"), Err(_)));
    // non word char in parts
    assert!(matches!(parse_reference("a!/b/task/c"), Err(_)));
    assert!(matches!(parse_reference("a/b!/task/c"), Err(_)));
    assert!(matches!(parse_reference("a/b/task/c!"), Err(_)));
    assert!(matches!(parse_reference("a/b/task/c@!1d"), Err(_)));
}

#[test]
fn test_parse_offsets() {
    let off = |s: &str| parse_reference(s).unwrap().offset;
    assert_eq!(off("task/c@1m"), secs(60));
    assert_eq!(off("task/c@2m"), secs(120));
    assert_eq!(off("task/c@30m"), secs(30 * 60));

    assert_eq!(off("task/c@30 minutes"), secs(30 * 60));
    assert_eq!(off("task/c@30minutes"), secs(30 * 60));
    assert_eq!(off("task/c@30min"), secs(30 * 60));

    assert_eq!(off("task/c@1h"), secs(3600));
    assert_eq!(off("task/c@2h"), secs(7200));
    assert_eq!(off("task/c@24h"), secs(86400));

    assert_eq!(off("task/c@1 h"), secs(3600));
    assert_eq!(off("task/c@1hour"), secs(3600));
    assert_eq!(off("task/c@1hours"), secs(3600));
    assert_eq!(off("task/c@1 hour"), secs(3600));
    assert_eq!(off("task/c@1 hours"), secs(3600));

    assert_eq!(off("task/c@1d"), secs(86400));
    assert_eq!(off("task/c@2d"), secs(2 * 86400));
    assert_eq!(off("task/c@1day"), secs(86400));
    assert_eq!(off("task/c@1 day"), secs(86400));
    assert_eq!(off("task/c@2days"), secs(2 * 86400));
    assert_eq!(off("task/c@2 days"), secs(2 * 86400));

    assert_eq!(off("task/c@1h30m"), secs(90 * 60));
    assert_eq!(off("task/c@1h 30m"), secs(90 * 60));
    assert_eq!(off("task/c@1 hour 30 minutes"), secs(90 * 60));
}

#[test]
fn reference_error_kinds() {
    assert_eq!(
        parse_reference("a!/b/task/c"),
        Err(ReferenceError::Invalid { reference: "a!/b/task/c".to_owned() })
    );
    assert!(matches!(parse_reference("task/c@not_time"), Err(ReferenceError::Offset { .. })));
    assert_eq!(
        parse_reference("task/c@"),
        Err(ReferenceError::Invalid { reference: "task/c@".to_owned() })
    );
    assert_eq!(
        parse_reference("task/c@99999999999999999s"),
        Err(ReferenceError::OffsetOutOfRange)
    );
    // a name may be a kind word, and a name may contain unicode letters
    let r = parse_reference("task/task/c").unwrap();
    assert_eq!(r.job, Some("task".to_owned()));
    let r = parse_reference("é_1/trigger/ü").unwrap();
    assert_eq!(r.job, Some("é_1".to_owned()));
    assert_eq!(r.kind, ReferenceKind::Trigger);
    assert_eq!(r.name, "ü");
    // the offset may hold any character but a line break
    assert!(matches!(parse_reference("task/c@1h\n"), Err(ReferenceError::Invalid { .. })));
}

#[test]
fn reference_resolves_against_its_job() {
    let job = Job {
        uuid: 7,
        project: "proj".to_owned(),
        name: "job".to_owned(),
        description: String::new(),
        paused: None,
        triggers: vec![],
        tasks: vec![],
    };
    let r = resolve_reference(parse_reference("task/c").unwrap(), &job);
    assert_eq!(r.proj, Some("proj".to_owned()));
    assert_eq!(r.job, Some("job".to_owned()));
    let r = resolve_reference(parse_reference("a/b/task/c").unwrap(), &job);
    assert_eq!(r.proj, Some("a".to_owned()));
    assert_eq!(r.job, Some("b".to_owned()));
}

#[test]
fn reference_writes_back() {
    let r = parse_reference("a/b/task/c@1h30m").unwrap();
    assert_eq!(r.to_string(), "a/b/task/c@1h 30m");
    let r = parse_reference("trigger/t").unwrap();
    assert_eq!(r.to_string(), "trigger/t");
    assert_eq!(ReferenceKind::from_word("task"), Some(ReferenceKind::Task));
    assert_eq!(ReferenceKind::from_word("token"), None);
    assert_eq!(ReferenceKind::Trigger.as_str(), "trigger");
}

#[test]
fn written_reference_reads_back() {
    for text in ["a/b/task/c@1d", "b/trigger/t", "task/c@90s", "x y/z/task/w@1h 2m 3s", "task/c@1s 500ms"] {
        let r = parse_reference(text).unwrap();
        assert_eq!(parse_reference(&r.to_string()).unwrap(), r);
    }
}

#[test]
fn reference_kind_from_str() {
    let k: ReferenceKind = "trigger".parse().unwrap();
    assert_eq!(k, ReferenceKind::Trigger);
    assert_eq!(
        ReferenceKind::parse("token").unwrap_err(),
        "failed to parse reference kind (expected \"task\" or \"trigger\", got \"token\")"
    );
}

#[test]
fn offset_of_many_small_units_parses() {
    let r = parse_reference("task/c@10000000000000000000ns 10000000000000000000ns").unwrap();
    assert_eq!(r.offset, secs(20_000_000_000));
    assert_eq!(r.name, "c");
}
