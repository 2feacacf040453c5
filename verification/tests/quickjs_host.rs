use blit_server::extension::exit::{AttemptOutcome, FailureKind};
use blit_server::extension::quickjs_host::{
    at_step, bootstrap_failed, check_spawn, context_fields, engine_setup, error_message, exit_code, handoff_after,
    hex_hash, prelude_script, random_length, run_outcome, source_text, prepare_failure, prepare_source,
    validate_source, wait_code,
    AttemptSpec, AttemptState, Exported, GuestInfo, Handoff, LifecycleError, PrepareStep, Seen, SpawnError,
    WaitOutcome, WasmiHostConfig,
};

#[test]
fn source_validation_rejects_syntax_and_non_utf8() {
    let config = WasmiHostConfig::default();
    validate_source(b"export default () => 1", &config).unwrap();
    let syntax = validate_source(b"export default (", &config).unwrap_err();
    assert_eq!(syntax.kind, FailureKind::Validation);
    assert!(syntax.detail.contains("compile QuickJS source"));
    let utf8 = validate_source(&[0xff], &config).unwrap_err();
    assert_eq!(utf8.kind, FailureKind::Validation);
    assert!(utf8.detail.contains("not UTF-8"));
}

#[test]
fn validation_keeps_to_its_memory() {
    let config = WasmiHostConfig { memory_bytes: 1024, ..WasmiHostConfig::default() };
    assert!(validate_source(b"export default () => 1", &config).is_err());
}

#[test]
fn a_step_hands_on_what_it_was_given() {
    assert!(matches!(at_step(PrepareStep::Context, Ok(7)), Ok(7)));
    match at_step::<u8>(PrepareStep::Context, Err("out of memory".to_string())) {
        Err(failure) => {
            assert_eq!(failure.kind, FailureKind::Instantiation);
            assert_eq!(failure.detail, "create QuickJS context: out of memory");
        }
        Ok(_) => panic!("handed on"),
    }
}

#[test]
fn the_engine_is_set_up_as_its_host_says() {
    let config = WasmiHostConfig {
        memory_bytes: 1_000,
        value_stack_bytes: 2_000,
        ..WasmiHostConfig::default()
    };
    let setup = engine_setup(&config);
    assert_eq!((setup.memory_bytes, setup.stack_bytes), (1_000, 2_000));
    assert_eq!(setup.name, "extension.js");
}

#[test]
fn limits_that_cannot_be_used_are_refused_before_the_engine_is_asked() {
    let with_stack = |bytes| {
        WasmiHostConfig {
            value_stack_bytes: bytes,
            native_stack_bytes: 16_777_217,
            ..WasmiHostConfig::default()
        }
        .checked()
    };
    assert!(WasmiHostConfig::default().checked().fault.is_none());
    let narrow = WasmiHostConfig {
        value_stack_bytes: 2_097_152,
        native_stack_bytes: 2_097_152,
        ..WasmiHostConfig::default()
    };
    let text = "value stack must be smaller than the native stack";
    let narrow = narrow.checked();
    assert_eq!(narrow.fault.as_deref(), Some(text));
    let failure = validate_source(b"export default () => 1", &narrow).unwrap_err();
    assert_eq!((failure.kind, failure.detail.as_str()), (FailureKind::Validation, text));
    assert!(with_stack(1).fault.is_none());
    assert!(with_stack(16_777_216).fault.is_none());
    for bytes in [0, 16_777_217] {
        let config = with_stack(bytes);
        assert_eq!(config.value_stack_bytes, bytes);
        let text = "value stack must be between 1 byte and 16 MiB";
        assert_eq!(config.fault.as_deref(), Some(text));
        let failure = prepare_source(b"export default () => 1", &config).err().unwrap();
        assert_eq!((failure.kind, failure.detail.as_str()), (FailureKind::Validation, text));
        let failure = validate_source(&[0xff], &config).unwrap_err();
        assert_eq!((failure.kind, failure.detail.as_str()), (FailureKind::Validation, text));
    }
    let given = WasmiHostConfig {
        fault: Some("no stack".to_string()),
        value_stack_bytes: 0,
        ..WasmiHostConfig::default()
    };
    assert_eq!(given.checked().fault.as_deref(), Some("no stack"));
}

#[test]
fn the_step_that_failed_is_told() {
    let (_, _, bytecode) =
        prepare_source(b"export default () => 1", &WasmiHostConfig::default()).ok().unwrap();
    assert!(!bytecode.is_empty());
    for (step, kind, detail) in [
        (PrepareStep::Runtime, FailureKind::Instantiation, "create QuickJS runtime: x"),
        (PrepareStep::Context, FailureKind::Instantiation, "create QuickJS context: x"),
        (PrepareStep::Compile, FailureKind::Validation, "compile QuickJS source: x"),
    ] {
        let failure = prepare_failure(step, "x");
        assert_eq!((failure.kind, failure.detail.as_str()), (kind, detail));
    }
}

#[test]
fn source_is_text() {
    assert_eq!(source_text(b"let a = 1;").unwrap(), "let a = 1;");
    let failure = source_text(&[b'a', 0xc3, 0x28]).unwrap_err();
    assert_eq!(failure.kind, FailureKind::Validation);
}

#[test]
fn only_a_usable_attempt_is_spawned() {
    let spec = |extension_id, fault: Option<&str>| AttemptSpec {
        source: Vec::new(),
        module_hash: [0; 32],
        extension_id,
        label: None,
        config: WasmiHostConfig {
            fault: fault.map(str::to_owned),
            ..WasmiHostConfig::default()
        },
    };
    assert!(check_spawn(&spec(1, None)).is_ok());
    match check_spawn(&spec(0, None)) {
        Err(error) => assert_eq!(error.text(), "extension ID must be non-zero"),
        Ok(()) => panic!("spawned"),
    }
    match check_spawn(&spec(0, Some("no stack"))) {
        Err(error) => {
            assert_eq!(error.text(), "invalid QuickJS host configuration: no stack");
        }
        Ok(()) => panic!("spawned"),
    }
    assert_eq!(
        SpawnError::Thread("full".to_string()).text(),
        "failed to spawn extension thread: full"
    );
}

#[test]
fn attempts_are_prepared_started_and_joined_once() {
    let mut s = AttemptState::new();
    assert_eq!(s.start(), Err(LifecycleError::NotPrepared));
    assert!(s.cancelled_on_drop());
    assert_eq!(s.observe(), Ok(()));
    s.note_prepared(true);
    assert_eq!(s.observe(), Err(LifecycleError::PreparationAlreadyObserved));
    assert_eq!(s.start(), Ok(()));
    assert_eq!(s.start(), Err(LifecycleError::AlreadyStarted));
    assert_eq!(s.join(), Ok(()));
    assert_eq!(s.join(), Err(LifecycleError::JoinAlreadyTaken));
    assert!(!s.cancelled_on_drop());
}

#[test]
fn programs_end_with_what_they_return() {
    assert_eq!(exit_code(Exported::Nothing), Ok(0));
    assert_eq!(exit_code(Exported::Undefined), Ok(0));
    assert_eq!(exit_code(Exported::Int(-7)), Ok(-7));
    assert_eq!(
        exit_code(Exported::Other),
        Err("default export must return an i32 or undefined")
    );
    let returned = run_outcome(Ok(3), false);
    assert!(matches!(returned, AttemptOutcome::Returned(3)));
    assert_eq!(handoff_after(&returned), Handoff::Seal);
    let cancelled = run_outcome(Ok(3), true);
    assert!(matches!(cancelled, AttemptOutcome::Cancelled));
    assert_eq!(handoff_after(&cancelled), Handoff::Abort);
    match run_outcome(Err("boom".to_string()), false) {
        AttemptOutcome::Failed(f) => {
            assert_eq!(f.kind, FailureKind::Trap);
            assert_eq!(f.detail, "QuickJS exception: boom");
        }
        other => panic!("{other:?}"),
    }
    match bootstrap_failed("no greeting") {
        AttemptOutcome::Failed(f) => {
            assert_eq!(f.kind, FailureKind::AbiMisuse);
            assert_eq!(f.detail, "QuickJS bootstrap failed: no greeting");
        }
        other => panic!("{other:?}"),
    }
}

#[test]
fn programs_see_plain_values() {
    assert_eq!(wait_code(WaitOutcome::Deadline), 0);
    assert_eq!(wait_code(WaitOutcome::Packet), 1);
    assert_eq!(wait_code(WaitOutcome::Closed), 2);
    assert_eq!(error_message("send", "closed"), "blit.send: closed");
    assert_eq!(random_length(16 * 1024 * 1024), Ok(16 * 1024 * 1024));
    assert_eq!(random_length(16 * 1024 * 1024 + 1), Err("random length exceeds 16 MiB"));
    let mut hash = [0u8; 32];
    hash[0] = 0xa5;
    hash[31] = 0x0f;
    assert_eq!(hex_hash(&hash), format!("a5{}0f", "00".repeat(30)));
    assert!(prelude_script().ends_with("Object.freeze(blit.context);"));
}

#[test]
fn context_names_every_property_in_order() {
    let info = GuestInfo {
        extension_id: 1,
        definition_revision: 2,
        attempt: 3,
        task_id: 4,
        module_hash: [0xab; 32],
        name: "n".to_string(),
        args: vec!["a".to_string(), "b".to_string()],
        detached: true,
        persistent: false,
        enabled: true,
        desired_running: false,
        protocol_version: 5,
        features: 6,
        boot_generation: Some(7),
        server_version: None,
    };
    let fields = context_fields(info);
    let names: Vec<&str> = fields.iter().map(|f| f.name).collect();
    assert_eq!(
        names,
        vec![
            "extensionId",
            "definitionRevision",
            "attempt",
            "taskId",
            "moduleHash",
            "name",
            "args",
            "detached",
            "persistent",
            "enabled",
            "desiredRunning",
            "protocolVersion",
            "features",
            "bootGeneration",
            "serverVersion"
        ]
    );
    assert!(matches!(&fields[4].value, Seen::Text(t) if *t == "ab".repeat(32)));
    assert!(matches!(&fields[6].value, Seen::Texts(v) if v.len() == 2 && v[1] == "b"));
    assert!(matches!(fields[11].value, Seen::Number(5)));
    assert!(matches!(fields[13].value, Seen::MaybeBig(Some(7))));
    assert!(matches!(&fields[14].value, Seen::MaybeText(None)));
}
