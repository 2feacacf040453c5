use blit_server::catalog::{BlockedState, CatalogError};
use blit_server::channel::fabric::ListenerSnapshot;
use blit_server::extension::announce::Identity;
use blit_server::extension::arguments::{
    creation_arguments, encoded_argument_bytes, loaded_arguments, update_arguments,
};
use blit_server::extension::attempt::{
    is_wasm_module, NextAttempt, PrepareError, Publication,
};
use blit_server::extension::chunks::{put_held, Chunks, PutRequest, PutStage, PutStep};
use blit_server::extension::completion::{Completions, Uploads};
use blit_server::extension::config::{
    definition_from_persistent, host_running_default, set_up, start_up, startup_diagnostic,
    Deployment, StartupObject, Stored, WireLimits,
};
use blit_server::extension::control::{
    catalog_write, CatalogWrite, ControlPlan, Inspection, Mutation,
};
use blit_server::extension::definition::{Control, Definition, FollowerCursor};
use blit_server::extension::dispatch::{
    command_listener, job_validates, lane, packet_hash, packet_u16, packet_u64, registration_reply,
    reply_decode_error, reply_disabled, Addressed, Lane, Opcodes, RegisterOutcome, Reply, Sent,
};
use blit_server::extension::drive::{
    cancels, drive_step, driven_attempt, frame_length, DriveEnd, DriveEvent, DriveStage, Joined,
};
use blit_server::extension::endpoints::Orphan;
use blit_server::extension::errors::{
    catalog_status, object_lost, object_status, transient_admission, ObjectError, ObjectFault, PinOutcome,
    Refusal,
};
use blit_server::extension::exit::{
    backoff_drawn, backoff_duration, backoff_sample, classify_outcome, AttemptFailure, AttemptOutcome,
    ConnectionFailure, DrivenAttempt, FailureKind,
};
use blit_server::extension::flow::{
    block_change, control_step, counters_change, end_change, holds_catalog, preparation_failure,
    prepare_step, prepares_alone, run_held, run_step, switch_change, ControlStage, ControlStep,
    PrepareStage, PrepareStep, RunHeld, RunStage, RunStep,
};
use blit_server::extension::output::{Registry, Retained};
use blit_server::extension::probe::{
    probe_step, writer_step, ProbeAction, ProbeEvent, ProbeStage, WriterStep,
};
use blit_server::extension::protocol::{
    ExitReason, Flags, Interrupt, Phase, Restart, Status,
};
use blit_server::extension::put::{
    begin_upload, needs_validation, put_outcome, upload_step, validation_full,
    PendingPlan, PutChunk, StoreTexts, Upload, UploadEvent,
};
use blit_server::extension::replay::{forced_replay, Offer};
use blit_server::extension::run::{
    update_pins, Admitted, Probe, Replacement, RunDecision, RunRequest, UpdateDecision,
};
use blit_server::extension::service::{Limits, Service};
use blit_server::extension::status::bounded_detail;
use blit_server::extension::supervise::{
    held, leaves, supervise_step, BlockedWait, BlockedWake, Head, Stage, Step, StopWait,
};
use blit_server::extension::terminal::TerminalRecordKind;
use blit_server::id_map::IdMap;
use blit_server::random::Draw;

const MAX: usize = 1024;

fn limits() -> Limits {
    Limits {
        persist_allowed: true,
        max_transient: 2,
        max_persistent: 2,
        follow_max_per_endpoint: 4,
        follow_max: 8,
        pending_timeout_ms: 1000,
        terminal_retain_ms: 500,
        detail_max: MAX,
    }
}

fn service() -> Service {
    let mut s = Service::new(limits(), 4096, 4096);
    s.register_endpoint(7);
    s
}

fn flags(persist: bool) -> Flags {
    Flags { detach: false, persist, enabled: true, desired_running: true }
}

fn output_definition(id: u64, endpoint: u64) -> Definition {
    let mut followers = IdMap::new();
    followers.insert(endpoint, FollowerCursor { next_sequence: 1, replay_through: None });
    Definition {
        extension_id: id,
        definition_revision: 1,
        flags: flags(false),
        restart: Restart::Never,
        hash: [1; 32],
        name: "output".to_string(),
        args: Some(Vec::new()),
        argument_bytes: 0,
        argument_reservation: 0,
        owner_endpoint: None,
        phase: Phase::Running,
        attempt: 1,
        last_running_attempt: 1,
        task_id: 1,
        next_start_unix_ms: 0,
        detail: String::new(),
        next_output_sequence: 1,
        retained: Vec::new(),
        terminal_replay: Vec::new(),
        retained_bytes: 0,
        followers,
        pending_deadline: None,
        release_deadline: None,
        generation: 1,
        failure_count: 0,
        interrupt: None,
        control: None,
        object_pinned: false,
        catalog_committed: false,
    }
}

fn request(persist: bool, name: &str) -> RunRequest {
    RunRequest {
        nonce: 9,
        update: false,
        persist,
        detach: false,
        restart: Restart::Never,
        expected_id: 0,
        expected_revision: 0,
        hash: [5; 32],
        name: name.to_string(),
    }
}

/// Creates a definition with the given id.
fn create(s: &mut Service, r: &RunRequest, id: u64, hit: bool, admitted: Admitted) -> bool {
    let args = vec![b"a".to_vec()];
    let admission = s.admit_run(r, &args).ok().expect("admitted");
    assert!(matches!(
        s.decide_run(7, r, if hit { &Probe::Hit } else { &Probe::Miss }),
        RunDecision::Create
    ));
    assert!(s.accepts_extension_id(id));
    let draft = s.draft_run(7, r, args, admission.charge, id, hit, 100);
    let out = s.finish_create(r, draft, admission.ticket, Ok(admitted));
    assert!(out.created);
    assert_eq!(out.reply.status, Status::Success);
    out.start
}

fn send(r: &mut Registry, endpoint: u64, last: Option<u64>) -> Option<(u64, Vec<u8>, usize)> {
    let offer = r.schedule_one(endpoint, last);
    r.sent(endpoint, offer);
    match offer {
        Offer::Record { extension_id, record, .. } => {
            Some((extension_id, r.packets.bytes(record.packet).clone(), record.packet))
        }
        _ => None,
    }
}

#[test]
fn stalled_network_follower_keeps_global_charge_after_ring_eviction() {
    let mut r = Registry::new(4);
    r.insert_definition(output_definition(1, 71));
    assert!(matches!(r.retain_record(1, vec![1; 4], false, false), Retained::Kept(_)));
    let (id, packet, slot) = send(&mut r, 71, None).unwrap();
    assert_eq!((id, packet), (1, vec![1; 4]));
    assert_eq!(r.packets.used(), 4);

    // The record can be evicted, but the writer still holds its bytes, so the
    // next one takes its number and is dropped.
    assert!(matches!(r.retain_record(1, vec![2; 4], false, false), Retained::Dropped));
    let d = r.definitions.get(1).unwrap();
    assert!(d.retained.is_empty());
    assert_eq!(d.next_output_sequence, 3);
    assert_eq!(r.packets.used(), 4);
    r.drained(slot);
    assert_eq!(r.packets.used(), 0);
}

#[test]
fn terminal_lease_expiry_force_flushes_permanently_soft_gated_network_follower() {
    let mut r = Registry::new(0);
    let mut d = output_definition(1, 711);
    d.flags = Flags::none();
    d.phase = Phase::Stopped;
    r.insert_definition(d);
    let exit = r.retain_terminal(1, vec![0xe1], TerminalRecordKind::Exit).unwrap();
    let through = r.retain_terminal(1, vec![0xe2], TerminalRecordKind::Status).unwrap();
    assert!(exit < through);
    r.fanout_replay_done(1, through);

    let d = r.definitions.get(1).unwrap();
    let forced = forced_replay(d, *d.followers.get(711).unwrap()).unwrap();
    let packets: Vec<Vec<u8>> =
        forced.records.iter().map(|record| r.packets.bytes(record.packet).clone()).collect();
    assert_eq!(packets, vec![vec![0xe1], vec![0xe2]]);
    assert_eq!(forced.through, 2);
    assert!(r.remove_definition(1).is_some());
    assert!(r.definitions.get(1).is_none());
}

#[test]
fn records_that_leave_the_compact_replay_give_up_their_bytes() {
    let mut r = Registry::new(8);
    let mut d = output_definition(1, 711);
    d.flags = Flags::none();
    d.phase = Phase::Stopped;
    r.insert_definition(d);
    r.retain_terminal(1, vec![0xe1; 4], TerminalRecordKind::Exit).unwrap();
    r.retain_terminal(1, vec![0xe2; 2], TerminalRecordKind::Status).unwrap();
    let replay = &r.definitions.get(1).unwrap().terminal_replay;
    let (exit, status) = (replay[0].packet, replay[1].packet);
    r.clear_history(1);
    assert_eq!(r.packets.used(), 6);

    // The exit stays, and the status that is replaced frees its slot.
    r.retain_terminal(1, vec![0xe3], TerminalRecordKind::Status).unwrap();
    assert_eq!(r.packets.used(), 5);
    assert_eq!(r.packets.terminal_place(exit), Some((1, 1)));
    assert_eq!(r.packets.terminal_place(status), None);
    assert!(r.packets.bytes(status).is_empty());

    // The history still holds the newest record, and nobody the exit.
    let newest = r.definitions.get(1).unwrap().terminal_replay[1].packet;
    r.clear_terminal(1);
    assert_eq!(r.packets.used(), 1);
    assert_eq!(r.packets.terminal_place(newest), None);
    assert_eq!(r.packets.bytes(newest), &vec![0xe3]);
    assert!(r.packets.bytes(exit).is_empty());
}

#[test]
fn no_more_is_evicted_than_a_packet_needs() {
    let mut r = Registry::new(100);
    r.insert_definition(output_definition(1, 71));
    r.insert_definition(output_definition(2, 72));
    assert!(matches!(r.retain_record(1, vec![1; 50], false, false), Retained::Kept(_)));
    assert!(matches!(r.retain_record(2, vec![2; 10], false, false), Retained::Kept(_)));
    assert!(matches!(r.retain_record(1, vec![3; 40], false, false), Retained::Kept(_)));
    assert_eq!(r.packets.used(), 100);

    // The oldest goes, and with it gone the packet fits.
    assert!(matches!(r.retain_record(2, vec![4; 20], false, false), Retained::Kept(_)));
    let lens = |r: &Registry, id| {
        let retained = &r.definitions.get(id).unwrap().retained;
        retained.iter().map(|record| record.len).collect::<Vec<usize>>()
    };
    assert_eq!(lens(&r, 1), vec![40]);
    assert_eq!(lens(&r, 2), vec![10, 20]);
    assert_eq!(r.packets.used(), 70);

    // The next two in age go, and the histories stay within the budget.
    assert!(matches!(r.retain_record(1, vec![5; 75], false, false), Retained::Kept(_)));
    assert_eq!(lens(&r, 1), vec![75]);
    assert_eq!(lens(&r, 2), vec![20]);
    assert_eq!(r.packets.used(), 95);
    r.clear_history(1);
    assert_eq!(r.packets.used(), 20);
}

#[test]
fn a_last_state_that_finds_no_room_is_outside_the_budget() {
    let mut r = Registry::new(4);
    let mut d = output_definition(1, 711);
    d.flags = Flags::none();
    d.phase = Phase::Stopped;
    r.insert_definition(d);
    r.retain_terminal(1, vec![0xe1; 4], TerminalRecordKind::Exit).unwrap();
    assert_eq!(r.packets.used(), 4);

    // The compact replay keeps the exit charged, so the status finds no room.
    r.retain_terminal(1, vec![0xe2; 2], TerminalRecordKind::Status).unwrap();
    let d = r.definitions.get(1).unwrap();
    assert!(d.retained.is_empty());
    assert_eq!(d.terminal_replay.len(), 2);
    assert_eq!(r.packets.used(), 4);
    r.clear_terminal(1);
    assert_eq!(r.packets.used(), 0);
}

#[test]
fn the_output_budget_comes_back() {
    let mut r = Registry::new(16);
    r.insert_definition(output_definition(1, 71));
    let mut d = output_definition(2, 72);
    d.flags = Flags::none();
    d.phase = Phase::Stopped;
    r.insert_definition(d);
    assert!(matches!(r.retain_record(1, vec![1; 4], false, false), Retained::Kept(_)));
    r.retain_terminal(2, vec![0xe1; 3], TerminalRecordKind::Exit).unwrap();
    r.retain_terminal(2, vec![0xe2; 2], TerminalRecordKind::Status).unwrap();
    assert_eq!(r.packets.used(), 9);

    // One packet is on its way while both definitions go.
    let (_, _, slot) = send(&mut r, 71, None).unwrap();
    assert!(r.remove_definition(2).is_some());
    assert_eq!(r.packets.used(), 4);
    assert!(r.remove_definition(1).is_some());
    assert_eq!(r.packets.used(), 4);
    r.drained(slot);
    assert_eq!(r.packets.used(), 0);
}

#[test]
fn extension_hard_gate_rejects_before_cloning_retained_record() {
    let mut r = Registry::new(8);
    r.insert_definition(output_definition(1, 72));
    assert!(matches!(r.retain_record(1, vec![1; 4], false, false), Retained::Kept(_)));
    // An offer alone holds nothing: a writer that refuses it leaves no trace.
    let offer = r.schedule_one(72, None);
    assert!(matches!(offer, Offer::Record { extension_id: 1, .. }));
    assert_eq!(r.schedule_one(72, None), offer);
    assert_eq!(r.packets.used(), 4);
    let driven = DrivenAttempt {
        outcome: AttemptOutcome::Cancelled,
        handler_closed_first: true,
        connection_failure: Some(ConnectionFailure::SlowConsumer),
        running_for_ms: 0,
    };
    assert_eq!(classify_outcome(&driven, None).reason, ExitReason::SlowConsumer);
}

#[test]
fn cursor_scheduler_round_robins_without_reordering_each_extension() {
    let mut r = Registry::new(32);
    r.insert_definition(output_definition(10, 73));
    r.insert_definition(output_definition(20, 73));
    for (id, packet) in
        [(10, vec![10, 1]), (10, vec![10, 2]), (20, vec![20, 1]), (20, vec![20, 2])]
    {
        assert!(matches!(r.retain_record(id, packet, false, false), Retained::Kept(_)));
    }
    let mut last = None;
    let mut packets = Vec::new();
    for expected in [10, 20, 10, 20] {
        let (id, packet, _) =
            send(&mut r, 73, last).expect("scheduler stopped with retained records available");
        assert_eq!(id, expected);
        last = Some(id);
        packets.push(packet);
    }
    assert_eq!(packets, vec![vec![10, 1], vec![20, 1], vec![10, 2], vec![20, 2]]);
    assert_eq!(r.schedule_one(73, last), Offer::Idle);
}

#[test]
fn native_job_admission_failure_is_a_resource_limit_exit() {
    let driven = DrivenAttempt {
        outcome: AttemptOutcome::Cancelled,
        handler_closed_first: true,
        connection_failure: Some(ConnectionFailure::ResourceLimit),
        running_for_ms: 0,
    };
    let exit = classify_outcome(&driven, None);
    assert_eq!(exit.reason, ExitReason::ResourceLimit);
    assert_eq!(exit.code, 0);
    assert!(exit.detail.contains("resource limit"));
    assert!(exit.failure);
}

#[test]
fn exits_tell_what_came_first() {
    let driven = |outcome, closed| DrivenAttempt {
        outcome,
        handler_closed_first: closed,
        connection_failure: None,
        running_for_ms: 0,
    };
    let e = classify_outcome(&driven(AttemptOutcome::Returned(0), false), None);
    assert_eq!((e.reason, e.code, e.failure), (ExitReason::Returned, 0, false));
    let e = classify_outcome(&driven(AttemptOutcome::Returned(3), false), None);
    assert_eq!((e.code, e.failure), (3, true));
    let e = classify_outcome(&driven(AttemptOutcome::Returned(3), true), None);
    assert_eq!(e.reason, ExitReason::ProtocolViolation);
    let e = classify_outcome(&driven(AttemptOutcome::Returned(3), true), Some(Interrupt::Updated));
    assert_eq!((e.reason, e.failure), (ExitReason::Updated, false));
    let trap = AttemptFailure { kind: FailureKind::Trap, detail: "boom".to_string() };
    let e = classify_outcome(&driven(AttemptOutcome::Failed(trap), false), None);
    assert_eq!((e.reason, e.detail.as_str()), (ExitReason::Trapped, "boom"));
    let e = classify_outcome(
        &driven(AttemptOutcome::Cancelled, false),
        Some(Interrupt::ServerShutdown),
    );
    assert_eq!(e.reason, ExitReason::ServerShutdown);
}

#[test]
fn startup_catalog_metadata_does_not_reserve_persistent_arguments() {
    let mut s = Service::new(limits(), 64, 1);
    for index in 0..2u64 {
        let stored = Stored {
            extension_id: index + 1,
            definition_revision: 1,
            flags: flags(true),
            restart: Restart::Never,
            hash: [index as u8 + 1; 32],
            name: format!("persistent-{index}"),
            argument_bytes: 8 * 1024,
            attempt: 0,
            last_running_attempt: 0,
            next_start_unix_ms: 0,
            failure_count: 0,
            blocked: false,
            blocked_detail: String::new(),
        };
        let d = definition_from_persistent(stored, 0);
        assert!(d.args.is_none());
        assert_eq!(d.argument_reservation, 0);
        assert!(d.argument_bytes > 0);
        assert!(s.adopt(d));
    }
    assert_eq!(s.arguments.used(), 0);
    assert_eq!(s.count(true), 2);
}

#[test]
fn a_creation_waits_for_its_object_and_then_starts() {
    let mut s = service();
    assert!(!create(&mut s, &request(false, "t"), 11, false, Admitted::Waiting));
    let d = s.registry.definitions.get(11).unwrap();
    assert_eq!(d.phase, Phase::NeedObject);
    assert_eq!(d.detail, "module upload required");
    assert_eq!(d.pending_deadline, Some(1100));
    assert_eq!(s.awaiting(&[5; 32]), vec![11]);
    assert_eq!(s.plan_pending(11, &[5; 32], 200), PendingPlan::Pin);
    assert!(s.finish_pending(11, Ok(Admitted::Pinned), 200));
    let d = s.registry.definitions.get(11).unwrap();
    assert_eq!(d.phase, Phase::Queued);
    assert!(d.object_pinned);
    assert!(s.ensure_supervisor(11));
    assert!(!s.ensure_supervisor(11));
}

#[test]
fn a_creation_that_waits_too_long_ends() {
    let mut s = service();
    create(&mut s, &request(false, "t"), 11, false, Admitted::Waiting);
    assert!(s.overdue_ids(1099).is_empty());
    assert_eq!(s.overdue_ids(1100), vec![11]);
    assert!(s.expire_pending(11, 1100));
    let d = s.registry.definitions.get(11).unwrap();
    assert_eq!(d.phase, Phase::Stopped);
    assert_eq!(d.argument_reservation, 0);
    assert_eq!(s.arguments.used(), 0);
    assert_eq!(d.release_deadline, Some(1600));
    assert_eq!(s.expired_ids(1600), vec![11]);
    assert!(s.release_expired(11, 1600).is_some());
    assert!(s.registry.definitions.get(11).is_none());
}

#[test]
fn runs_are_refused_in_words() {
    let mut s = service();
    let refused = |s: &mut Service, r: &RunRequest, args: Vec<Vec<u8>>| {
        let reply = s.admit_run(r, &args).err().expect("refused");
        (reply.status, reply.detail)
    };
    assert_eq!(
        refused(&mut s, &request(true, "p"), vec![vec![0xff]]),
        (Status::Invalid, "persistent extension arguments must be UTF-8".to_string())
    );
    assert_eq!(
        refused(&mut s, &request(false, "p"), vec![vec![0; 5000]]),
        (Status::Budget, "extension argument store is full".to_string())
    );
    s.limits.persist_allowed = false;
    assert_eq!(
        refused(&mut s, &request(true, "p"), Vec::new()),
        (Status::Permission, "persistent extensions are disabled on this server".to_string())
    );
    s.limits.persist_allowed = true;

    let committed = Admitted::Committed {
        definition_revision: 1,
        flags: flags(true),
        argument_bytes: 7,
    };
    assert!(create(&mut s, &request(true, "p"), 21, true, committed));
    let decided = |s: &Service, r: &RunRequest, probe: Probe| match s.decide_run(7, r, &probe) {
        RunDecision::Reply(reply) => (reply.status, reply.detail),
        _ => panic!("not answered"),
    };
    assert_eq!(
        decided(&s, &request(true, "p"), Probe::Hit),
        (Status::Conflict, "persistent extension name already exists".to_string())
    );
    assert_eq!(
        decided(&s, &request(false, "t"), Probe::Durability("disk".to_string())),
        (Status::Other, "disk".to_string())
    );
    let mut update = request(true, "absent");
    update.update = true;
    assert_eq!(
        decided(&s, &update, Probe::Hit),
        (Status::NotFound, "persistent extension name does not exist".to_string())
    );
    update.name = "p".to_string();
    assert_eq!(
        decided(&s, &update, Probe::Hit),
        (Status::Conflict, "extension definition changed".to_string())
    );
    update.expected_id = 21;
    update.expected_revision = 1;
    assert_eq!(
        decided(&s, &update, Probe::Miss),
        (Status::Success, "module upload required".to_string())
    );
    s.limits.max_transient = 0;
    assert_eq!(
        decided(&s, &request(false, "t"), Probe::Hit),
        (Status::Budget, "extension supervisor capacity exhausted".to_string())
    );
    s.limits.max_transient = 2;
    s.limits.follow_max_per_endpoint = 1;
    assert_eq!(
        decided(&s, &request(false, "t"), Probe::Hit),
        (Status::Budget, "extension follower capacity exhausted".to_string())
    );
    s.begin_shutdown();
    assert_eq!(
        decided(&s, &request(false, "t"), Probe::Hit),
        (Status::Other, "server is shutting down".to_string())
    );
}

#[test]
fn updates_replace_or_change_nothing() {
    let mut s = service();
    let committed = Admitted::Committed {
        definition_revision: 1,
        flags: flags(true),
        argument_bytes: 7,
    };
    create(&mut s, &request(true, "p"), 21, true, committed);
    let mut r = request(true, "p");
    r.update = true;
    r.expected_id = 21;
    r.expected_revision = 1;
    let current = match s.decide_run(7, &r, &Probe::Hit) {
        RunDecision::Update(snapshot) => snapshot,
        _ => panic!("no update"),
    };
    let args = vec![b"a".to_vec()];
    assert!(matches!(
        s.decide_update(&r, &args, &current, &Ok(args.clone())),
        UpdateDecision::Unchanged
    ));
    assert!(matches!(
        s.decide_update(&r, &args, &current, &Err(CatalogError::Unavailable)),
        UpdateDecision::Reply(_)
    ));
    let out = s.finish_unchanged(&r, &current, &Ok(()));
    assert_eq!(out.reply.detail, "extension definition is unchanged");
    assert_eq!((out.start, out.emit), (None, None));

    r.hash = [6; 32];
    assert!(matches!(
        s.decide_update(&r, &args, &current, &Ok(args.clone())),
        UpdateDecision::Replace
    ));
    let up = Replacement { definition_revision: 2, argument_bytes: 9 };
    let out = s.finish_replace(&r, &current, &Ok(up));
    assert_eq!((out.start, out.emit), (Some(21), Some(21)));
    let d = s.registry.definitions.get(21).unwrap();
    assert_eq!(d.definition_revision, 2);
    assert_eq!(d.hash, [6; 32]);
    assert_eq!(d.interrupt, Some(Interrupt::Updated));
    assert_eq!(d.phase, Phase::Queued);
}

/// Runs a definition until its attempt is published.
fn run_attempt(s: &mut Service, id: u64) -> Publication {
    let generation = match s.supervise_head(id) {
        Head::Run { generation } => generation,
        other => panic!("{other:?}"),
    };
    let p = s.begin_prepare(id).ok().expect("prepared");
    assert!(s.commit_prepare(&p));
    let revision = p.snapshot.definition_revision;
    assert!(s.install_preparation(id, generation, revision, p.attempt));
    assert!(s.may_assign(id, generation, revision, p.attempt));
    assert!(s.accepts_task_id(33));
    s.assign_task(id, generation, revision, p.attempt, 33);
    let publication = Publication {
        extension_id: id,
        generation,
        definition_revision: revision,
        attempt: p.attempt,
        task_id: 33,
    };
    assert!(s.check_publish(&publication).is_ok());
    assert!(s.publish_running(&publication, &Ok(())).is_ok());
    publication
}

#[test]
fn an_attempt_runs_ends_and_is_released() {
    let mut s = service();
    assert!(create(&mut s, &request(false, "t"), 11, true, Admitted::Pinned));
    assert!(s.ensure_supervisor(11));
    let publication = run_attempt(&mut s, 11);
    let d = s.registry.definitions.get(11).unwrap();
    assert_eq!(d.phase, Phase::Running);
    assert_eq!((d.attempt, d.last_running_attempt, d.task_id), (1, 1, 33));
    let who = Identity { extension_id: 11, definition_revision: 1, attempt: 1, task_id: 33 };
    assert_eq!(s.accept_event(Some(who)), Some(1));
    assert_eq!(s.accept_event(Some(Identity { attempt: 2, ..who })), None);
    s.put_event(11, vec![1, 2, 3]);
    assert!(s.publish_stopping(&publication));

    let driven = DrivenAttempt {
        outcome: AttemptOutcome::Returned(0),
        handler_closed_first: false,
        connection_failure: None,
        running_for_ms: 10,
    };
    let generation = publication.generation;
    let plan = s.plan_finish(11, generation, 33, &driven, 1000).expect("planned");
    let done = s.finish_attempt(11, 1, 1, 33, plan, &Ok(())).expect("finished");
    assert_eq!(done.event.reason, ExitReason::Returned);
    assert_eq!(done.next, NextAttempt::Stop);
    assert!(!done.owner_lost);
    let d = s.registry.definitions.get(11).unwrap();
    assert_eq!(d.phase, Phase::Stopped);
    assert!(matches!(s.wait_stopped(11), StopWait::Leased { .. }));
    let generation = s.registry.definitions.get(11).unwrap().generation;
    let release = s.release_transient(11, generation, true).expect("released");
    assert_eq!(release.removed.unpin, Some([5; 32]));
}

#[test]
fn a_failed_attempt_backs_off_and_tries_again() {
    let mut s = service();
    let mut r = request(false, "t");
    r.restart = Restart::OnFailure;
    create(&mut s, &r, 11, true, Admitted::Pinned);
    s.ensure_supervisor(11);
    let publication = run_attempt(&mut s, 11);
    let driven = DrivenAttempt {
        outcome: AttemptOutcome::Returned(1),
        handler_closed_first: false,
        connection_failure: None,
        running_for_ms: 10,
    };
    let plan = s.plan_finish(11, publication.generation, 33, &driven, 1000).unwrap();
    let done = s.finish_attempt(11, 1, 1, 33, plan, &Ok(())).unwrap();
    assert!(matches!(done.next, NextAttempt::Backoff(_)));
    let d = s.registry.definitions.get(11).unwrap();
    assert_eq!((d.phase, d.failure_count), (Phase::Backoff, 1));
}

#[test]
fn waits_before_another_try_double_and_end_at_a_bound() {
    const MS: u64 = 1_000_000;
    for (failures, cap) in
        [(0, 250), (1, 250), (2, 500), (3, 1000), (7, 16_000), (8, 30_000), (u32::MAX, 30_000)]
    {
        assert_eq!(backoff_sample(failures, 0), Some(0));
        assert_eq!(backoff_sample(failures, cap * MS), Some(cap * MS));
        assert_eq!(backoff_sample(failures, cap * MS + 1), Some(0));
        assert_eq!(backoff_sample(failures, cap * MS + 8), Some(7));
        assert_eq!(backoff_sample(failures, u64::MAX), None);
        assert_eq!(backoff_drawn(failures, &Ok(cap * MS + 8)), Some(7));
        assert_eq!(backoff_drawn(failures, &Ok(u64::MAX)), None);
        assert_eq!(backoff_drawn(failures, &Err("no source".to_string())), Some(cap * MS));
        assert!(backoff_duration(failures) <= cap * MS);
    }
    // Two draws of a wait of up to half a minute are not the same.
    let waits: Vec<u64> = (0..8).map(|_| backoff_duration(20)).collect();
    assert!(waits.iter().any(|w| *w != waits[0]));
}

#[test]
fn a_cancelled_definition_stops_and_an_unknown_one_is_unknown() {
    let mut s = service();
    create(&mut s, &request(false, "t"), 11, true, Admitted::Pinned);
    s.ensure_supervisor(11);
    run_attempt(&mut s, 11);
    let current = match s.plan_control(4, 11, Mutation::Cancel) {
        ControlPlan::Proceed(snapshot, _) => snapshot,
        ControlPlan::Reply(reply) => panic!("{reply:?}"),
    };
    assert_eq!(catalog_write(Mutation::Cancel, &current), CatalogWrite::Nothing);
    let out = s.finish_control(4, 11, Mutation::Cancel, &current, &Ok(()), 100);
    assert_eq!(out.reply.status, Status::Success);
    assert_eq!(out.cancel.map(|c| c.task_id), Some(33));
    assert!(!out.start);
    let d = s.registry.definitions.get(11).unwrap();
    assert_eq!(d.interrupt, Some(Interrupt::Cancelled));
    assert!(!d.desired());

    match s.plan_control(5, 99, Mutation::Restart) {
        ControlPlan::Reply(reply) => {
            assert_eq!(reply.status, Status::UnknownId);
            assert_eq!(reply.detail, "extension ID does not exist");
        }
        ControlPlan::Proceed(..) => panic!("no such definition"),
    }
}

#[test]
fn inspection_attaches_and_unfollows() {
    let mut s = service();
    create(&mut s, &request(false, "t"), 11, true, Admitted::Pinned);
    s.register_endpoint(8);
    let reply = s.inspect(8, 1, 11, Inspection::Status);
    assert_eq!((reply.status, reply.phase), (Status::Success, Phase::Queued));
    let reply = s.inspect(8, 2, 11, Inspection::Attach);
    assert_eq!(reply.status, Status::Success);
    assert!(s.registry.definitions.get(11).unwrap().followers.contains(8));
    s.inspect(8, 3, 11, Inspection::Unfollow);
    assert!(!s.registry.definitions.get(11).unwrap().followers.contains(8));
    let reply = s.inspect(8, 4, 11, Inspection::Unknown);
    assert_eq!(reply.detail, "unknown extension control action");
    let reply = s.inspect(8, 4, 12, Inspection::Status);
    assert_eq!(reply.status, Status::UnknownId);
}

#[test]
fn definitions_are_listed_by_name() {
    let mut s = service();
    create(&mut s, &request(false, "zeta"), 11, true, Admitted::Pinned);
    create(&mut s, &request(false, "alpha"), 12, true, Admitted::Pinned);
    let names: Vec<String> = s.list().into_iter().map(|r| r.name).collect();
    assert_eq!(names, vec!["alpha", "zeta"]);
}

#[test]
fn a_departing_owner_ends_its_attached_definitions() {
    let mut s = service();
    create(&mut s, &request(false, "t"), 11, true, Admitted::Pinned);
    let mut detached = request(false, "d");
    detached.detach = true;
    create(&mut s, &detached, 12, true, Admitted::Pinned);
    s.ensure_supervisor(11);
    run_attempt(&mut s, 11);
    let orphans = s.unregister_endpoint(7);
    assert_eq!(orphans.len(), 1);
    assert_eq!(orphans[0].extension_id, 11);
    assert_eq!(orphans[0].cancel.map(|c: Control| c.attempt), Some(1));
    assert_eq!(
        s.registry.definitions.get(11).unwrap().interrupt,
        Some(Interrupt::OwnerClosed)
    );
    assert_eq!(s.registry.definitions.get(12).unwrap().interrupt, None);
    assert!(!s.connected(7));
}

#[test]
fn shutdown_stops_everything_once() {
    let mut s = service();
    create(&mut s, &request(false, "t"), 11, true, Admitted::Pinned);
    s.ensure_supervisor(11);
    run_attempt(&mut s, 11);
    let cancelled = s.begin_shutdown();
    assert_eq!(cancelled.len(), 1);
    assert_eq!(cancelled[0].0, 11);
    assert!(!s.drained());
    s.leave(11);
    assert!(s.drained());
}

#[test]
fn arguments_that_do_not_fit_wait_for_room() {
    let mut s = Service::new(limits(), 64, 16);
    let stored = Stored {
        extension_id: 3,
        definition_revision: 1,
        flags: flags(true),
        restart: Restart::Never,
        hash: [3; 32],
        name: "p".to_string(),
        argument_bytes: 10,
        attempt: 0,
        last_running_attempt: 0,
        next_start_unix_ms: 0,
        failure_count: 0,
        blocked: false,
        blocked_detail: String::new(),
    };
    let (d, note) = start_up(definition_from_persistent(stored, 0), StartupObject::Usable, true);
    assert!(note.is_none());
    assert!(s.adopt(d));
    let ticket = s.reserve_arguments(10).unwrap();
    assert!(matches!(s.begin_prepare(3), Err(PrepareError::ArgumentBudget)));
    s.release_ticket(ticket);
    let p = s.begin_prepare(3).ok().expect("prepared");
    assert_eq!(p.attempt, 1);
    assert!(p.ticket.is_some());
    assert!(matches!(s.begin_prepare(3), Err(PrepareError::ArgumentBudget)));
    s.end_preparation(&p);
    assert!(s.begin_prepare(3).is_ok());
}

#[test]
fn blocked_definitions_wait_as_they_are_owned() {
    let mut s = service();
    create(&mut s, &request(false, "t"), 11, true, Admitted::Pinned);
    s.ensure_supervisor(11);
    let (block, _) = s.plan_block(11);
    assert!(block);
    s.finish_block(11, block, "object is gone", &Ok(()));
    let d = s.registry.definitions.get(11).unwrap();
    assert_eq!(d.phase, Phase::Blocked);
    assert_eq!(d.detail, "object is gone");
    assert!(matches!(
        s.wait_blocked(11),
        BlockedWait::Owned | BlockedWait::Leased { .. } | BlockedWait::Ownerless { .. }
    ));
    assert_eq!(s.wake_blocked(99), BlockedWake::Gone);
}

#[test]
fn uploads_store_the_order_of_use_before_they_answer() {
    let texts = StoreTexts { conflict: "upload conflict".into(), not_found: "no store".into() };
    let mut u = begin_upload(true);
    for event in [
        UploadEvent::Completed,
        UploadEvent::MustEvict,
        UploadEvent::Completed,
        UploadEvent::Completed,
        UploadEvent::MustCreate,
        UploadEvent::Started,
        UploadEvent::MustFinish,
        UploadEvent::Result(PutChunk::Committed { size: 9 }),
    ] {
        u = upload_step(u, event, &texts);
    }
    assert!(matches!(u, Upload::PersistBeforeReply(PutChunk::Committed { size: 9 })));
    u = upload_step(u, UploadEvent::Completed, &texts);
    let result = match u {
        Upload::Done(result) => result,
        _ => panic!("not done"),
    };
    let out = put_outcome(3, [1; 32], result, MAX);
    assert_eq!((out.reply.status, out.reply.received), (Status::Success, 9));
    assert!(out.complete);

    let u = upload_step(begin_upload(false), UploadEvent::MustWrite, &texts);
    let u = upload_step(u, UploadEvent::Overtaken, &texts);
    let u = upload_step(u, UploadEvent::Completed, &texts);
    match u {
        Upload::Done(Err(e)) => {
            assert_eq!(e.fault, ObjectFault::Conflict);
            assert_eq!(e.text, "upload conflict");
        }
        _ => panic!("not refused"),
    }
    let u = upload_step(begin_upload(false), UploadEvent::NoStore, &texts);
    assert!(matches!(u, Upload::Done(Err(e)) if e.text == "no store"));
}

#[test]
fn chunks_under_validation_are_charged_once() {
    let mut chunks = Chunks::new(10);
    let first = PutRequest::arrive(&mut chunks, true, false, false, 6);
    assert_eq!((first.stage(), chunks.used()), (PutStage::Waiting, 6));
    for (begin, last, admitted, len, stage) in [
        (false, true, false, 6, PutStage::Refusing),
        (false, true, true, 6, PutStage::Waiting),
        (false, false, false, 600, PutStage::Waiting),
    ] {
        let mut r = PutRequest::arrive(&mut chunks, begin, last, admitted, len);
        assert_eq!((r.stage(), chunks.used()), (stage, 6));
        r.advance(&mut chunks, PutStep::Cancelled);
        assert_eq!((r.stage(), chunks.used()), (PutStage::Done, 6));
    }
    assert_eq!(
        validation_full(1, [0; 32], MAX).detail,
        "extension validation request budget exhausted"
    );
}

#[test]
fn a_put_gives_its_charge_back_however_it_ends() {
    let mut chunks = Chunks::new(10);
    let mut other = PutRequest::arrive(&mut chunks, true, true, false, 3);
    let steps = [PutStep::Placed, PutStep::Looked, PutStep::Uploaded, PutStep::Sent];
    for cancelled_after in 0..=steps.len() {
        let mut r = PutRequest::arrive(&mut chunks, true, true, false, 7);
        assert_eq!(chunks.used(), 10);
        for step in &steps[..cancelled_after] {
            assert_eq!(chunks.used(), 10);
            assert!(put_held(r.stage()).charge);
            r.advance(&mut chunks, *step);
        }
        r.advance(&mut chunks, PutStep::Cancelled);
        assert_eq!((r.stage(), chunks.used()), (PutStage::Done, 3));
        r.advance(&mut chunks, PutStep::Sent);
        assert_eq!((r.stage(), chunks.used()), (PutStage::Done, 3));
    }
    assert!(!put_held(PutStage::Done).place && !put_held(PutStage::Waiting).place);
    other.advance(&mut chunks, PutStep::Cancelled);
    assert_eq!(chunks.used(), 0);
}

#[test]
fn looking_an_object_up_checks_and_records_it() {
    let (stage, action) = probe_step(ProbeStage::Checking, ProbeEvent::Done, true);
    assert!(matches!(action, ProbeAction::MarkAndSync));
    let (stage, action) = probe_step(stage, ProbeEvent::Done, true);
    assert!(matches!(action, ProbeAction::Record));
    let (_, action) = probe_step(stage, ProbeEvent::Done, true);
    assert!(matches!(action, ProbeAction::Answer(Probe::Hit)));
    let fault = |fault| ProbeEvent::Failed(ObjectError { fault, text: "t".to_string() });
    let (stage, action) = probe_step(ProbeStage::Checking, fault(ObjectFault::HashMismatch), false);
    assert!(matches!(action, ProbeAction::RemoveFile));
    let (_, action) = probe_step(stage, ProbeEvent::Done, false);
    assert!(matches!(action, ProbeAction::Forget));
    let (_, action) = probe_step(ProbeStage::Checking, fault(ObjectFault::Missing), false);
    assert!(matches!(action, ProbeAction::Forget));
    let (_, action) = probe_step(ProbeStage::Checking, fault(ObjectFault::Storage), false);
    assert!(matches!(action, ProbeAction::Answer(Probe::Miss)));
    let (_, action) = probe_step(ProbeStage::Recording, fault(ObjectFault::Storage), false);
    assert!(matches!(action, ProbeAction::Answer(Probe::Durability(t)) if t == "t"));
    assert_eq!(writer_step(true, false, true, true, true), WriterStep::Wait);
    assert_eq!(writer_step(true, false, false, false, true), WriterStep::Offer);
    assert_eq!(writer_step(false, false, false, true, false), WriterStep::Leave);
    assert_eq!(writer_step(true, false, true, false, false), WriterStep::Leave);
}

#[test]
fn supervisors_hold_places_only_while_they_use_them() {
    let mut stage = Stage::Head;
    for (step, running, validating) in [
        (Step::Looked(Head::Run { generation: 1 }), false, false),
        (Step::Room, true, false),
        (Step::Room, true, true),
        (Step::Pressure, false, false),
        (Step::Woken, false, false),
        (Step::Looked(Head::Run { generation: 1 }), false, false),
        (Step::Room, true, false),
        (Step::Room, true, true),
    ] {
        stage = supervise_step(stage, step);
        let h = held(stage);
        assert_eq!((h.running, h.validating), (running, validating), "{stage:?}");
    }
    for step in [Step::Prepared, Step::Installed, Step::Ready, Step::Assigned] {
        stage = supervise_step(stage, step);
    }
    assert_eq!(stage, Stage::Driving);
    let next = supervise_step(stage, Step::Finished(NextAttempt::Backoff(5)));
    assert_eq!(next, Stage::BackingOff { wait_ns: 5 });
    assert!(leaves(Stage::Assigning, Step::Gone));
    assert!(!leaves(Stage::Driving, Step::Gone));
    let given_up = Stage::Blocking { resumable: false, prepared: true };
    assert_eq!(supervise_step(given_up, Step::Announced), Stage::Done);
}

#[test]
fn a_preparation_that_does_not_come_about_charges_no_arguments() {
    for step in [Step::Pressure, Step::Superseded, Step::Failed] {
        let next = supervise_step(Stage::Preparing, step);
        assert!(held(Stage::Preparing).arguments && !held(next).arguments, "{next:?}");
    }
    assert!(held(supervise_step(Stage::Preparing, Step::Prepared)).arguments);
    assert!(held(supervise_step(Stage::Readying, Step::Failed)).arguments);
    assert!(!held(supervise_step(Stage::Assigning, Step::Assigned)).arguments);
    assert!(!held(Stage::Done).arguments);
}

#[test]
fn attempts_are_published_before_their_first_message() {
    let s = drive_step(DriveStage::Start, DriveEvent::Went);
    assert_eq!(s, DriveStage::Bootstrap);
    let s = drive_step(s, DriveEvent::Went);
    assert_eq!(s, DriveStage::Publish);
    let s = drive_step(s, DriveEvent::Went);
    assert_eq!(s, DriveStage::Commit);
    let s = drive_step(s, DriveEvent::Went);
    assert_eq!(s, DriveStage::Run);
    assert_eq!(drive_step(s, DriveEvent::ProgramEnded), DriveStage::Over);
    let d = driven_attempt(
        DriveEnd::Ended(Joined::Outcome(AttemptOutcome::Returned(4))),
        None,
        12,
    );
    assert!(matches!(d.outcome, AttemptOutcome::Returned(4)));
    assert_eq!((d.handler_closed_first, d.running_for_ms), (false, 12));
    assert!(!cancels(true, &d));
    assert!(cancels(false, &d));
    assert_eq!(frame_length([3, 0, 0, 0], 10), Some(3));
    assert_eq!(frame_length([11, 0, 0, 0], 10), None);
}

#[test]
fn requests_take_the_lane_that_suits_them() {
    assert_eq!(lane(true, true, Sent::Run { persist: false, text: false }), Lane::Job);
    assert_eq!(lane(true, true, Sent::Run { persist: true, text: false }), Lane::Inline);
    assert_eq!(lane(true, false, Sent::Run { persist: true, text: true }), Lane::Inline);
    assert_eq!(lane(true, true, Sent::Put { begin: false, last: false }), Lane::OrderedJob);
    assert_eq!(lane(false, true, Sent::Put { begin: true, last: true }), Lane::Inline);
    assert_eq!(lane(true, true, Sent::Other), Lane::Inline);
    assert!(job_validates(Sent::Run { persist: true, text: true }));
    assert!(job_validates(Sent::Put { begin: false, last: true }));
    assert!(!job_validates(Sent::Put { begin: false, last: false }));
}

#[test]
fn unreadable_packets_are_answered_by_their_kind() {
    let codes = Opcodes { run: 1, put: 2, control: 3, event: 4, command: 5, command_register: 0 };
    let mut packet = vec![1, 0x34, 0x12];
    packet.resize(64, 7);
    match reply_decode_error(&packet, &codes, "bad", MAX) {
        Some(Reply::Status(reply)) => {
            assert_eq!((reply.nonce, reply.status), (0x1234, Status::Invalid));
            assert_eq!(reply.hash, [7; 32]);
            assert_eq!(reply.detail, "bad");
        }
        _ => panic!("not answered"),
    }
    packet[0] = 2;
    match reply_decode_error(&packet, &codes, "bad", MAX) {
        Some(Reply::Put(reply)) => {
            assert_eq!((reply.nonce, reply.hash, reply.received), (0x1234, [7; 32], 0));
        }
        _ => panic!("not answered"),
    }
    packet[0] = 3;
    match reply_decode_error(&packet, &codes, "bad", MAX) {
        Some(Reply::Status(reply)) => assert_eq!(reply.extension_id, 0x0707_0707_0707_0707),
        _ => panic!("not answered"),
    }
    packet[0] = 4;
    assert!(reply_decode_error(&packet, &codes, "bad", MAX).is_none());
    packet[0] = 9;
    assert!(reply_decode_error(&packet, &codes, "bad", MAX).is_none());
    assert!(reply_decode_error(&[], &codes, "bad", MAX).is_none());
    assert_eq!(packet_u16(&[1, 2, 3], 1), 0x0302);
    assert_eq!(packet_u16(&[1, 2], 1), 0);
    assert_eq!(packet_u64(&[1], 0), 0);
    assert_eq!(packet_hash(&[9; 40], 8), [9; 32]);
    assert_eq!(packet_hash(&[9; 39], 8), [0; 32]);
    assert!(reply_disabled(Addressed::Event, &None, MAX).is_none());
    match reply_disabled(Addressed::Control { nonce: 3, extension_id: 4 }, &None, MAX) {
        Some(Reply::Status(reply)) => assert_eq!(reply.status, Status::Permission),
        _ => panic!("not answered"),
    }
}

#[test]
fn store_faults_are_told_as_what_they_are() {
    assert_eq!(object_status(ObjectFault::TooLarge), Status::TooLarge);
    assert_eq!(object_status(ObjectFault::Budget), Status::Budget);
    assert_eq!(object_status(ObjectFault::Conflict), Status::Conflict);
    assert_eq!(catalog_status(&CatalogError::Conflict), Status::Conflict);
    assert_eq!(catalog_status(&CatalogError::Budget), Status::Budget);
    assert!(object_lost(ObjectFault::Missing, false));
    assert!(object_lost(ObjectFault::HashMismatch, true));
    assert!(!object_lost(ObjectFault::HashMismatch, false));
    assert!(!object_lost(ObjectFault::Storage, true));
    assert!(transient_admission(PinOutcome::Pinned).is_ok());
    let refusal: Refusal = transient_admission(PinOutcome::Unavailable).unwrap_err();
    assert_eq!(refusal.detail, "object store is unavailable");
}

#[test]
fn deployments_are_bounded() {
    assert_eq!(host_running_default(None), 1);
    assert_eq!(host_running_default(Some(1)), 1);
    assert_eq!(host_running_default(Some(3)), 2);
    assert_eq!(host_running_default(Some(64)), 4);
    let d = Deployment {
        persist_allowed: true,
        max_running: 9,
        max_validating: 0,
        module_max: 100,
        max_transient: 65_535,
        max_persistent: 1,
        follow_max_per_endpoint: 1,
        follow_max: 1,
        argument_store_max: 5,
        output_retain_max: 6,
        pending_timeout_s: 2,
        terminal_retain_s: 0,
    };
    let s = set_up(&d, &WireLimits { module_max: 50, detail_max: 8 }, 5);
    assert_eq!((s.running, s.validating, s.validation_request_max), (4, 1, 50));
    assert_eq!(s.limits.max_transient, 65_530);
    assert_eq!((s.limits.pending_timeout_ms, s.limits.terminal_retain_ms), (2000, 1000));
    assert!(s.over_list_ceiling);
    assert!(startup_diagnostic(None, true, None, true, false).is_none());
    assert!(startup_diagnostic(None, true, None, true, true).is_some());
}

#[test]
fn modules_are_told_by_their_first_bytes() {
    assert!(is_wasm_module(b"\0asm\x01\0\0\0"));
    assert!(!is_wasm_module(b"export default 1"));
    assert!(!is_wasm_module(b"\0as"));
}

#[test]
fn details_are_cut_between_characters() {
    assert_eq!(bounded_detail("hello", 3), "hel");
    assert_eq!(bounded_detail("a\u{e9}b", 2), "a");
    assert_eq!(bounded_detail("a\u{e9}b", 3), "a\u{e9}");
    assert_eq!(bounded_detail("abc", 3), "abc");
}

#[test]
fn arguments_are_charged_with_their_framing() {
    assert_eq!(encoded_argument_bytes(&Vec::new()), 2);
    assert_eq!(encoded_argument_bytes(&vec![vec![0; 3], vec![]]), 2 + 4 + 3 + 4);
}

#[test]
fn followers_are_given_what_was_put_out() {
    let mut s = service();
    s.registry.insert_definition(output_definition(1, 7));
    s.put_event(1, vec![1, 2, 3]);
    s.announce(1, vec![4]);
    s.announce_exit(1, vec![5, 6]);
    let mut given = Vec::new();
    while let Some((id, bytes, _)) = send(&mut s.registry, 7, None) {
        assert_eq!(id, 1);
        given.push(bytes);
    }
    assert_eq!(given, vec![vec![1, 2, 3], vec![4], vec![5, 6]]);
    s.announce(2, vec![9]);
    assert!(send(&mut s.registry, 7, None).is_none());
}

#[test]
fn followers_keep_the_replay_of_what_is_let_go() {
    let mut s = service();
    let mut d = output_definition(1, 7);
    d.phase = Phase::Stopped;
    d.release_deadline = Some(10);
    s.registry.insert_definition(d);
    s.announce_exit(1, vec![0xe1]);
    s.announce(1, vec![0xe2, 0xe3]);
    assert!(s.release_expired(1, 9).is_none());
    let release = s.release_expired(1, 10).expect("released");
    assert!(s.registry.definitions.get(1).is_none());
    assert_eq!(release.flush.len(), 1);
    assert_eq!(release.flush[0].endpoint, 7);
    let packets: Vec<Vec<u8>> = release.flush[0]
        .replay
        .records
        .iter()
        .map(|record| s.registry.packets.bytes(record.packet).clone())
        .collect();
    assert_eq!(packets, vec![vec![0xe1], vec![0xe2, 0xe3]]);
    for record in &release.flush[0].replay.records {
        s.registry.packets.unlease(record.packet);
    }
    assert_eq!(s.registry.packets.used(), 0);
}

#[test]
fn stored_arguments_are_text_and_stay_what_they_were() {
    let text = vec![b"one".to_vec(), "\u{e9}".as_bytes().to_vec()];
    let raw = vec![vec![0xff]];
    assert_eq!(update_arguments(&text).ok(), Some(vec!["one".to_string(), "\u{e9}".to_string()]));
    assert!(matches!(
        update_arguments(&raw),
        Err(CatalogError::Invalid("persistent arguments must be UTF-8"))
    ));
    assert_eq!(creation_arguments(&Some(text.clone())).unwrap().len(), 2);
    let refusal = creation_arguments(&Some(raw)).unwrap_err();
    assert_eq!(refusal.status, Status::Invalid);
    assert_eq!(refusal.detail, "persistent arguments must be UTF-8");
    let refusal = creation_arguments(&None).unwrap_err();
    assert_eq!(refusal.status, Status::Other);
    assert_eq!(refusal.detail, "pending extension arguments are unavailable");

    let mut current = output_definition(1, 7).snapshot();
    current.argument_bytes = 2 + 4 + 3 + 4 + 2;
    assert_eq!(loaded_arguments(&current, Ok(text.clone())).ok(), Some(text.clone()));
    assert!(matches!(
        loaded_arguments(&current, Err(CatalogError::NotFound)),
        Err(CatalogError::NotFound)
    ));
    current.argument_bytes = 14;
    match loaded_arguments(&current, Ok(text)) {
        Err(CatalogError::Storage(text)) => {
            assert_eq!(text, "persistent extension argument metadata changed");
        }
        _ => panic!("a change was not noticed"),
    }
}

#[test]
fn uploads_are_validated_when_they_begin_and_when_they_end() {
    assert!(needs_validation(true, false));
    assert!(needs_validation(false, true));
    assert!(!needs_validation(false, false));
}

#[test]
fn a_pending_creation_ends_with_its_reason() {
    let mut s = service();
    create(&mut s, &request(false, "late"), 11, false, Admitted::Waiting);
    s.pending_too_late(11, 300);
    let d = s.registry.definitions.get(11).unwrap();
    assert_eq!(d.phase, Phase::Stopped);
    assert_eq!(d.detail, "pending extension creation expired");
    assert_eq!(d.release_deadline, Some(800));
    assert_eq!(s.arguments.used(), 0);

    let mut s = service();
    create(&mut s, &request(false, "bad"), 12, false, Admitted::Waiting);
    assert!(!s.stop_invalid_pending(12, &[6; 32], "invalid module", 300));
    assert!(!s.stop_invalid_pending(13, &[5; 32], "invalid module", 300));
    let generation = s.registry.definitions.get(12).unwrap().generation;
    assert!(s.stop_invalid_pending(12, &[5; 32], "invalid module", 300));
    let d = s.registry.definitions.get(12).unwrap();
    assert_eq!(d.phase, Phase::Stopped);
    assert_eq!(d.detail, "invalid module");
    assert_eq!(d.generation, generation + 1);
    assert!(!s.stop_invalid_pending(12, &[5; 32], "invalid module", 300));
}

#[test]
fn wanted_definitions_come_back_after_their_delay() {
    let mut s = service();
    for (id, next, pinned) in [(3, 0, true), (1, 900, true), (2, 0, false)] {
        let mut d = output_definition(id, 7);
        d.name = format!("n{id}");
        d.flags = flags(true);
        d.phase = Phase::Queued;
        d.next_start_unix_ms = next;
        d.object_pinned = pinned;
        s.registry.insert_definition(d);
    }
    assert_eq!(s.restore(true, 500), vec![(1, 400), (3, 0)]);
    assert!(s.restore(false, 500).is_empty());
}

#[test]
fn commands_belong_to_the_attempt_that_registers_them() {
    let mut s = service();
    create(&mut s, &request(false, "t"), 11, true, Admitted::Pinned);
    let who = Identity { extension_id: 11, definition_revision: 1, attempt: 1, task_id: 33 };
    assert!(s.command_owner(70, 2, &who).is_none());
    assert_eq!(s.registration_target(Some(who)), (11, 1));
    assert_eq!(s.registration_target(None), (0, 0));
    s.ensure_supervisor(11);
    run_attempt(&mut s, 11);
    let owner = s.command_owner(70, 2, &who).expect("owned");
    assert_eq!((owner.endpoint_id, owner.endpoint_generation), (70, 2));
    assert_eq!((owner.extension_id, owner.definition_revision, owner.attempt), (11, 1, 1));
    assert_eq!(owner.hash, [5; 32]);
    assert_eq!(owner.name, "t");
    assert!(!owner.persistent && owner.enabled && owner.running);
    let stale = Identity { task_id: 34, definition_revision: 9, ..who };
    assert!(!s.command_owner(70, 2, &stale).unwrap().running);
    assert_eq!(s.registration_target(Some(stale)), (11, 1));
}

#[test]
fn registrations_are_answered_for_their_definition() {
    let answer = |outcome| match registration_reply(9, (11, 1), outcome, 5) {
        Reply::Registered(r) => {
            assert_eq!(r.nonce, 9);
            (r.status, r.extension_id, r.definition_revision, r.detail)
        }
        _ => panic!("not a registration"),
    };
    assert_eq!(
        answer(RegisterOutcome::Refused {
            status: Status::Conflict,
            detail: "conflicting".to_string(),
        }),
        (Status::Conflict, 11, 1, "confl".to_string())
    );
    assert_eq!(
        answer(RegisterOutcome::Overtaken {
            extension_id: 12,
            definition_revision: 2,
            status: Status::Permission,
            detail: "no".to_string(),
        }),
        (Status::Permission, 12, 2, "no".to_string())
    );
    assert_eq!(
        answer(RegisterOutcome::Published { extension_id: 13, definition_revision: 3 }),
        (Status::Success, 13, 3, String::new())
    );
}

#[test]
fn a_command_is_served_by_the_listener_that_is_open() {
    let open = || {
        Some(ListenerSnapshot {
            endpoint: 4,
            channel_id: 2,
            generation: 7,
            name: "service".to_string(),
            token: vec![1, 2],
        })
    };
    assert!(command_listener(0, 5, open()).is_none());
    assert!(command_listener(2, 5, None).is_none());
    let l = command_listener(2, 5, open()).expect("open");
    assert_eq!((l.endpoint_id, l.endpoint_generation), (4, 5));
    assert_eq!((l.listener_id, l.listener_generation), (2, 7));
    assert_eq!((l.name.as_str(), l.token), ("service", vec![1, 2]));
}

#[test]
fn an_update_goes_on_once_its_object_is_pinned() {
    assert!(Service::update_pin(PinOutcome::Pinned).is_ok());
    assert!(matches!(
        Service::update_pin(PinOutcome::Unavailable),
        Err(CatalogError::Unavailable)
    ));
    let failed = PinOutcome::Failed(ObjectError {
        fault: ObjectFault::HashMismatch,
        text: "gone".to_string(),
    });
    assert!(matches!(
        Service::update_pin(failed),
        Err(CatalogError::Storage(text)) if text == "gone"
    ));
}

#[test]
fn a_change_is_for_a_definition_that_is_there() {
    let mut s = service();
    create(&mut s, &request(false, "t"), 11, true, Admitted::Pinned);
    assert!(matches!(s.find_control(3, 11), Ok(false)));
    match s.find_control(3, 12) {
        Err(reply) => {
            assert_eq!((reply.nonce, reply.status), (3, Status::UnknownId));
            assert_eq!(reply.extension_id, 12);
            assert_eq!(reply.detail, "extension ID does not exist");
        }
        Ok(_) => panic!("found"),
    }
}

#[test]
fn runs_that_cannot_go_on_are_answered() {
    let s = service();
    let r = request(false, "t");
    let reply = s.run_without_validation(&r);
    assert_eq!((reply.nonce, reply.status), (9, Status::Other));
    assert_eq!(reply.detail, "extension validation service is unavailable");
    let reply = s.run_without_id(&r);
    assert_eq!((reply.nonce, reply.status), (9, Status::Budget));
    assert_eq!(reply.detail, "could not allocate an extension ID");
}

#[test]
fn pins_follow_the_object_of_a_definition() {
    let mut s = service();
    let mut d = output_definition(21, 7);
    d.flags = flags(true);
    s.registry.insert_definition(d);
    let current = s.registry.definitions.get(21).unwrap().snapshot();
    assert!(matches!(
        s.repair_persistent_pin(&current, PinOutcome::Unavailable),
        Err(CatalogError::Unavailable)
    ));
    let failed = ObjectError { fault: ObjectFault::Budget, text: "no room".to_string() };
    match s.repair_persistent_pin(&current, PinOutcome::Failed(failed)) {
        Err(CatalogError::Storage(text)) => assert_eq!(text, "no room"),
        _ => panic!("a failed pin was taken"),
    }
    assert!(s.repair_persistent_pin(&current, PinOutcome::Pinned).is_ok());
    assert!(s.registry.definitions.get(21).unwrap().object_pinned);
    let pinned = s.registry.definitions.get(21).unwrap().snapshot();
    assert!(s.repair_persistent_pin(&pinned, PinOutcome::Unavailable).is_ok());
    let mut gone = output_definition(22, 7).snapshot();
    gone.object_pinned = false;
    assert!(matches!(
        s.repair_persistent_pin(&gone, PinOutcome::Pinned),
        Err(CatalogError::NotFound)
    ));

    let same = update_pins(&pinned, &[1; 32]);
    assert!(!same.acquire && !same.release_on_success && !same.release_on_failure);
    let other = update_pins(&pinned, &[2; 32]);
    assert!(other.acquire && other.release_on_success && other.release_on_failure);
    let unpinned = update_pins(&current, &[1; 32]);
    assert!(unpinned.acquire && !unpinned.release_on_success && unpinned.release_on_failure);

    s.mark_hash_unpinned(&[2; 32]);
    assert!(s.registry.definitions.get(21).unwrap().object_pinned);
    s.mark_hash_unpinned(&[1; 32]);
    assert!(!s.registry.definitions.get(21).unwrap().object_pinned);
}

#[test]
fn drawn_ids_are_free() {
    let mut s = service();
    create(&mut s, &request(false, "t"), 11, true, Admitted::Pinned);
    assert!(!s.accepts_extension_id(11));
    assert!(!s.accepts_extension_id(0));
    let id = s.allocate_extension_id().expect("drawn");
    assert!(s.accepts_extension_id(id));
    let task = s.allocate_task_id().expect("drawn");
    assert!(s.accepts_task_id(task));
}

#[test]
fn a_draw_is_taken_drawn_again_or_given_up() {
    let mut s = service();
    create(&mut s, &request(false, "t"), 11, true, Admitted::Pinned);
    assert_eq!(s.judge_extension_id(&Ok(12), 0), Draw::Found(12));
    assert_eq!(s.judge_extension_id(&Ok(11), 1), Draw::Again);
    assert_eq!(s.judge_extension_id(&Ok(0), 63), Draw::Again);
    assert_eq!(s.judge_extension_id(&Ok(11), 0), Draw::GiveUp);
    assert_eq!(s.judge_extension_id(&Err("no source".to_string()), 63), Draw::GiveUp);
    assert_eq!(s.judge_task_id(&Ok(7), 0), Draw::Found(7));
    assert_eq!(s.judge_task_id(&Ok(0), 1), Draw::Again);
    assert_eq!(s.judge_task_id(&Ok(0), 0), Draw::GiveUp);
    assert_eq!(s.judge_task_id(&Err("no source".to_string()), 1), Draw::GiveUp);
}

#[test]
fn attached_cleanup_waits_recursively_for_descendant_supervisors() {
    let mut s = service();
    let (parent, child_endpoint) = (701, 702);
    let (child, grandchild) = (801, 802);
    for (id, owner) in [(child, parent), (grandchild, child_endpoint)] {
        let mut d = output_definition(id, 7);
        d.owner_endpoint = Some(owner);
        d.control = Some(Control { definition_revision: 1, attempt: 1, task_id: 1 });
        s.registry.insert_definition(d);
    }
    let mut work = Completions::new();
    let child_done = work.begin(child).unwrap();
    let grandchild_done = work.begin(grandchild).unwrap();

    let parent_waits = work.waits_for(&s.unregister_endpoint(parent));
    let child_waits = work.waits_for(&s.unregister_endpoint(child_endpoint));
    assert_eq!(parent_waits, vec![child_done]);
    assert_eq!(child_waits, vec![grandchild_done]);
    assert!(!work.all_complete(&parent_waits));
    assert!(!work.is_complete(child_done));
    work.complete(grandchild_done);
    assert!(work.all_complete(&child_waits));
    assert!(!work.all_complete(&parent_waits));
    work.complete(child_done);
    assert!(work.all_complete(&parent_waits));
    assert!(work.all_complete(&work.waits_for(&vec![Orphan { extension_id: 9, cancel: None }])));
    assert!(!work.is_complete(2));
}

#[test]
fn uploads_of_a_connection_go_one_after_the_other() {
    let mut u = Uploads::new();
    let first = u.line_up(5).unwrap();
    let second = u.line_up(5).unwrap();
    let other = u.line_up(6).unwrap();
    assert_eq!(first.previous, None);
    assert_eq!(second.previous, Some(first.current));
    assert_eq!(other.previous, None);
    assert!(u.may_proceed(&first) && u.may_proceed(&other));
    assert!(!u.may_proceed(&second));
    u.finish(&first);
    assert!(u.may_proceed(&second));
    u.finish(&second);
    u.forget(5);
    assert_eq!(u.line_up(5).unwrap().previous, None);
}

#[test]
fn runs_are_worked_through_in_order_and_answered_once() {
    let steps = [
        (RunStep::Admitted, RunStage::Waiting),
        (RunStep::Room, RunStage::Looking),
        (RunStep::Looked, RunStage::Deciding),
        (RunStep::Update, RunStage::Reading),
        (RunStep::Unchanged, RunStage::Repairing),
        (RunStep::Repaired, RunStage::Clearing),
        (RunStep::Settled, RunStage::Answering),
        (RunStep::Sent, RunStage::Done),
        (RunStep::Sent, RunStage::Done),
    ];
    let mut stage = RunStage::Arrived;
    for (step, next) in steps {
        stage = run_step(stage, step);
        assert_eq!(stage, next);
    }
    let naming = RunStage::Naming;
    for (hit, persist, next) in [
        (true, true, RunStage::Committing),
        (true, false, RunStage::Pinning),
        (false, true, RunStage::Keeping),
    ] {
        assert_eq!(run_step(naming, RunStep::Drafted { hit, persist }), next);
    }
    assert_eq!(run_step(RunStage::Deciding, RunStep::Cancelled), RunStage::Done);
    assert_eq!(run_step(RunStage::Replacing, RunStep::Cancelled), RunStage::Replacing);
    assert_eq!(
        run_held(RunStage::Replacing, true),
        RunHeld { arguments: true, place: true, catalog: true }
    );
    assert!(!run_held(RunStage::Pinning, false).catalog);
    assert!(!run_held(RunStage::Done, true).arguments);
}

#[test]
fn changes_are_allowed_before_they_are_stored() {
    let found = control_step(ControlStage::Arrived, ControlStep::Found { persistent: true });
    assert!(holds_catalog(found));
    assert_eq!(
        control_step(found, ControlStep::Settled),
        ControlStage::Planning { persistent: true }
    );
    let repair = control_step(found, ControlStep::Allowed { repin: true });
    assert_eq!(repair, ControlStage::Repairing);
    let write = control_step(repair, ControlStep::Repaired);
    assert_eq!(write, ControlStage::Writing { persistent: true });
    let answer = control_step(write, ControlStep::Settled);
    assert!(holds_catalog(answer));
    assert_eq!(control_step(answer, ControlStep::Sent), ControlStage::Done);
    assert!(!holds_catalog(ControlStage::Done));
    let unknown = control_step(ControlStage::Arrived, ControlStep::Refused);
    assert_eq!(unknown, ControlStage::Answering { persistent: false });
}

#[test]
fn attempts_are_prepared_step_by_step() {
    let mut stage = PrepareStage::Finding;
    let mut seen = Vec::new();
    while stage != PrepareStage::Ready {
        seen.push((stage, prepares_alone(stage, true, false)));
        stage = prepare_step(stage, PrepareStep::Went, true);
    }
    assert_eq!(
        seen,
        vec![
            (PrepareStage::Finding, false),
            (PrepareStage::Loading, true),
            (PrepareStage::Reading, false),
            (PrepareStage::Recording, false),
            (PrepareStage::Checking, true),
            (PrepareStage::Storing, true),
            (PrepareStage::Committing, true),
            (PrepareStage::Spawning, false),
        ]
    );
    let transient = prepare_step(PrepareStage::Checking, PrepareStep::Went, false);
    assert_eq!(transient, PrepareStage::Committing);
    assert!(!prepares_alone(transient, false, true));
    let late = prepare_step(PrepareStage::Committing, PrepareStep::Superseded, true);
    assert_eq!(late, PrepareStage::Superseded);
    let bad = preparation_failure(PrepareStage::Reading, "hash mismatch".to_string());
    assert_eq!((bad.kind, bad.detail.as_str()), (FailureKind::Validation, "hash mismatch"));
    let full = preparation_failure(PrepareStage::Storing, "disk full".to_string());
    assert_eq!(full.kind, FailureKind::HostFailure);
}

#[test]
fn the_catalog_is_told_what_changes() {
    let counters = counters_change(3, 2);
    assert_eq!((counters.attempt, counters.last_running_attempt), (Some(3), Some(2)));
    assert!(counters.enabled.is_none() && counters.blocked.is_none());
    let block = block_change("no object");
    assert_eq!(block.next_start_unix_ms, Some(0));
    assert!(matches!(block.blocked, Some(BlockedState::Blocked("no object"))));
    let switch = switch_change(Some(false), None);
    assert_eq!((switch.enabled, switch.desired_running), (Some(false), None));
    assert!(matches!(switch.blocked, Some(BlockedState::Clear)));

    let mut s = service();
    let mut r = request(false, "t");
    r.restart = Restart::OnFailure;
    create(&mut s, &r, 11, true, Admitted::Pinned);
    s.ensure_supervisor(11);
    let publication = run_attempt(&mut s, 11);
    let driven = DrivenAttempt {
        outcome: AttemptOutcome::Returned(1),
        handler_closed_first: false,
        connection_failure: None,
        running_for_ms: 10,
    };
    let plan = s.plan_finish(11, publication.generation, 33, &driven, 1000).unwrap();
    let end = end_change(s.registry.definitions.get(11).unwrap(), &plan);
    assert_eq!((end.enabled, end.desired_running), (Some(true), Some(true)));
    assert_eq!((end.attempt, end.last_running_attempt), (Some(1), Some(1)));
    assert_eq!(end.failure_count, Some(1));
    assert_eq!(end.next_start_unix_ms, Some(plan.next_start_unix_ms));
}
