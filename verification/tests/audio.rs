use blit_server::audio::{
    audio_dir, effective_bitrate, find_program, missing_pipewire_binaries, msg_audio_frame,
    pipewire_available, pipewire_remote_path, process_environment, program_candidates,
    pulse_server_path, shutdown_cleanup, AudioBroadcast, AudioCodes, Cleanup, Health, Observed,
    OpusFrame, PcmBuffer, Process, Spawn, SpawnEvent, SpawnStep, FRAME_BYTES, RING_CAPACITY,
};
use blit_server::audio_encoder::{
    encoded_frame, EncodeEvent, EncodeStage, FrameEncoder, SendOutcome,
};
use blit_server::audio_pw::{
    available, build_audio_format_pod, capture_error, capture_releases, captured_range,
    library_names, load_error, stream_properties, symbols, CaptureRelease, CaptureStep, Load,
    LoadStage,
};

const CODES: AudioCodes = AudioCodes { message: 0x40, codec: 1 };

fn frame(timestamp: u32) -> OpusFrame {
    OpusFrame { timestamp, data: vec![timestamp as u8; 3] }
}

#[test]
fn each_process_finds_what_it_needs_in_its_environment() {
    let of = |process| {
        let out: Vec<(String, String)> = process_environment(process, "/run/a", "unix:path=/b")
            .into_iter()
            .map(|setting| (setting.name.to_string(), setting.value))
            .collect();
        out
    };
    let pair = |name: &str, value: &str| (name.to_string(), value.to_string());
    let remote = pair("PIPEWIRE_REMOTE", "/run/a/pipewire-0");
    let config = pair("XDG_CONFIG_HOME", "/run/a");
    let bus = pair("DBUS_SESSION_BUS_ADDRESS", "unix:path=/b");
    let runtime = pair("XDG_RUNTIME_DIR", "/run/a");
    assert_eq!(of(Process::Bus), vec![runtime.clone()]);
    assert_eq!(of(Process::Pipewire), vec![config.clone(), bus.clone(), runtime.clone()]);
    assert_eq!(
        of(Process::Wireplumber),
        vec![remote.clone(), config, bus.clone(), runtime.clone()]
    );
    assert_eq!(of(Process::Pulse), vec![remote, bus, runtime]);
}

#[test]
fn a_shutdown_kills_all_before_it_waits() {
    assert_eq!(
        shutdown_cleanup(true),
        vec![
            Cleanup::Kill(Process::Pulse),
            Cleanup::Kill(Process::Wireplumber),
            Cleanup::Kill(Process::Pipewire),
            Cleanup::Kill(Process::Bus),
            Cleanup::Wait(Process::Pulse),
            Cleanup::Wait(Process::Wireplumber),
            Cleanup::Wait(Process::Pipewire),
            Cleanup::Wait(Process::Bus),
        ]
    );
    assert_eq!(shutdown_cleanup(false).len(), 6);
}

fn started(bitrate: i32) -> FrameEncoder {
    let mut e = FrameEncoder::new(bitrate);
    assert_eq!(e.stage(), EncodeStage::Starting);
    e.advance(EncodeEvent::BitrateSet(true));
    assert_eq!(e.stage(), EncodeStage::Polling);
    e
}

fn captured(e: &mut FrameEncoder, chunk: Vec<u8>) {
    e.advance(EncodeEvent::Wanted(None));
    assert_eq!(e.stage(), EncodeStage::Receiving);
    e.advance(EncodeEvent::Captured(Some(chunk)));
}

#[test]
fn chunks_are_framed_and_encoded_in_order() {
    let mut e = started(0);
    assert_eq!(e.bitrate(), 64_000);
    captured(&mut e, vec![1; 7000]);
    assert_eq!(e.stage(), EncodeStage::Polling);
    captured(&mut e, vec![2; 8400]);
    assert_eq!(e.stage(), EncodeStage::Checking);
    e.advance(EncodeEvent::Listening(true));
    assert_eq!(e.stage(), EncodeStage::Encoding);
    assert_eq!(e.frame().len(), 7680);
    assert_eq!((e.frame()[6999], e.frame()[7000]), (1, 2));
    e.advance(EncodeEvent::Encoded(true));
    assert_eq!(e.stage(), EncodeStage::Sending);
    e.advance(EncodeEvent::Sent(SendOutcome::Taken));

    // The second frame is whole too, and 40 bytes are left over.
    assert_eq!(e.stage(), EncodeStage::Checking);
    e.advance(EncodeEvent::Listening(true));
    assert_eq!(e.frame(), &vec![2; 7680]);
    e.advance(EncodeEvent::Encoded(true));
    e.advance(EncodeEvent::Sent(SendOutcome::Taken));
    captured(&mut e, vec![3; 7639]);
    assert_eq!(e.stage(), EncodeStage::Polling);
    captured(&mut e, vec![3; 1]);
    assert_eq!(e.stage(), EncodeStage::Checking);
}

#[test]
fn lost_frames_do_not_end_the_encoder() {
    let mut e = started(32_000);
    captured(&mut e, vec![0; 3 * 7680]);
    e.advance(EncodeEvent::Listening(false));
    assert_eq!(e.stage(), EncodeStage::Checking);
    assert!(e.frame().is_empty());
    e.advance(EncodeEvent::Listening(true));
    e.advance(EncodeEvent::Encoded(false));
    assert_eq!(e.stage(), EncodeStage::Checking);
    e.advance(EncodeEvent::Listening(true));
    e.advance(EncodeEvent::Encoded(true));
    e.advance(EncodeEvent::Sent(SendOutcome::Full));
    assert_eq!(e.stage(), EncodeStage::Polling);

    // It ends with the capture, or with whoever takes its frames.
    captured(&mut e, vec![0; 7680]);
    e.advance(EncodeEvent::Listening(true));
    e.advance(EncodeEvent::Encoded(true));
    e.advance(EncodeEvent::Sent(SendOutcome::Closed));
    assert_eq!(e.stage(), EncodeStage::Ended);
    let mut e = started(32_000);
    e.advance(EncodeEvent::Wanted(None));
    e.advance(EncodeEvent::Captured(None));
    assert_eq!(e.stage(), EncodeStage::Ended);
    let mut e = FrameEncoder::new(32_000);
    e.advance(EncodeEvent::BitrateSet(false));
    assert_eq!(e.stage(), EncodeStage::Failed);
}

#[test]
fn a_refused_bitrate_leaves_the_one_before() {
    let mut e = started(48_000);
    e.advance(EncodeEvent::Wanted(Some(48_000)));
    assert_eq!(e.stage(), EncodeStage::Receiving);
    e.advance(EncodeEvent::Captured(Some(Vec::new())));
    e.advance(EncodeEvent::Wanted(Some(96_000)));
    assert_eq!(e.stage(), EncodeStage::Updating(96_000));
    e.advance(EncodeEvent::BitrateSet(false));
    assert_eq!(e.bitrate(), 48_000);
    e.advance(EncodeEvent::Captured(Some(Vec::new())));
    e.advance(EncodeEvent::Wanted(Some(96_000)));
    e.advance(EncodeEvent::BitrateSet(true));
    assert_eq!(e.bitrate(), 96_000);
    assert_eq!(e.stage(), EncodeStage::Receiving);
}

#[test]
fn a_frame_carries_the_low_bits_of_its_time() {
    let frame = encoded_frame(7, vec![1]);
    assert_eq!((frame.timestamp, frame.data), (7, vec![1]));
    assert_eq!(encoded_frame(0x1_0000_0002, Vec::new()).timestamp, 2);
}

#[test]
fn frames_are_told_with_their_time() {
    let msg = msg_audio_frame(&OpusFrame { timestamp: 0x0102_0304, data: vec![9, 8] }, CODES);
    assert_eq!(msg, vec![0x40, 4, 3, 2, 1, 1, 9, 8]);
}

#[test]
fn a_new_listener_hears_what_came_last() {
    let mut b = AudioBroadcast::new();
    assert!(!b.has_listener());
    for t in 0..(RING_CAPACITY as u32 + 3) {
        let (_, to) = b.publish(frame(t), CODES);
        assert!(to.is_empty());
    }
    let catch_up = b.subscribe(5, CODES);
    assert_eq!(catch_up.len(), RING_CAPACITY);
    assert_eq!(catch_up[0], msg_audio_frame(&frame(3), CODES));
    assert!(b.has_listener());
    b.subscribe(2, CODES);
    let (msg, to) = b.publish(frame(99), CODES);
    assert_eq!(msg, msg_audio_frame(&frame(99), CODES));
    assert_eq!(to, vec![2, 5]);
    b.unsubscribe(5);
    assert!(b.has_listener());
    b.unsubscribe(2);
    assert!(!b.has_listener());
}

#[test]
fn captured_sound_is_cut_into_frames() {
    let mut b = PcmBuffer::new();
    b.push_chunk(&vec![1; FRAME_BYTES - 1]);
    assert!(b.next_frame().is_none());
    b.push_chunk(&[2, 3]);
    let f = b.next_frame().unwrap();
    assert_eq!((f.len(), f[FRAME_BYTES - 1]), (FRAME_BYTES, 2));
    assert!(b.next_frame().is_none());
    assert_eq!(b.bytes, vec![3]);
    assert_eq!(effective_bitrate(0), 64_000);
    assert_eq!(effective_bitrate(96_000), 96_000);
}

#[test]
fn helpers_are_restarted_within_bounds() {
    const S: u64 = 1_000_000_000;
    let seen = |now, pulse_dead| Observed {
        core_dead: false,
        wireplumber_dead: false,
        pulse_dead,
        encoder_dead: false,
        now,
    };
    let mut h = Health::new();
    assert!(h.is_alive(seen(0, false)).alive);
    for round in 0..5 {
        let v = h.is_alive(seen(round * S, true));
        assert!(v.alive && v.restart_pulse && !v.restart_wireplumber);
        let v = h.is_alive(seen(round * S + 1, true));
        assert!(v.alive && !v.restart_pulse);
    }
    assert!(!h.is_alive(seen(5 * S, true)).alive);
    assert!(!h.is_alive(seen(100 * S, false)).alive);

    let mut h = Health::new();
    for round in 0..20 {
        assert!(h.is_alive(seen(round * 10 * S, true)).alive);
    }
    assert!(!h.is_alive(Observed { core_dead: true, ..seen(0, false) }).alive);
}

#[test]
fn a_dead_encoder_is_restarted_within_bounds() {
    const S: u64 = 1_000_000_000;
    let dead = |now| Observed {
        core_dead: false,
        wireplumber_dead: false,
        pulse_dead: false,
        encoder_dead: true,
        now,
    };
    let mut h = Health::new();
    for round in 0..5 {
        let v = h.is_alive(dead(round * S));
        assert!(v.alive && h.alive && v.restart_encoder);
        assert!(!v.restart_pulse && !v.restart_wireplumber);
        assert!(!h.is_alive(dead(round * S + 1)).restart_encoder);
    }
    let v = h.is_alive(dead(5 * S));
    assert!(!v.alive && !h.alive && !v.restart_encoder);
    let mut h = Health::new();
    let v = h.is_alive(Observed { core_dead: true, ..dead(0) });
    assert!(!v.alive && !v.restart_encoder);
}

#[test]
fn a_failed_start_leaves_nothing_running() {
    let mut s = Spawn::new();
    for event in [
        SpawnEvent::Done,
        SpawnEvent::Done,
        SpawnEvent::Done,
        SpawnEvent::Done,
        SpawnEvent::Done,
        SpawnEvent::Address(" unix:path=/x \n".to_string()),
        SpawnEvent::Done,
        SpawnEvent::Socket { appeared: true, exited: false },
        SpawnEvent::Wireplumber { started: true },
        SpawnEvent::Done,
        SpawnEvent::Socket { appeared: false, exited: true },
    ] {
        s.advance(event);
    }
    assert_eq!(s.step, SpawnStep::Failed);
    assert_eq!(s.bus_address, "unix:path=/x");
    assert_eq!(s.error, "pipewire-pulse exited before creating its socket");
    assert_eq!(
        s.cleanup,
        vec![
            Cleanup::Kill(Process::Wireplumber),
            Cleanup::Kill(Process::Pipewire),
            Cleanup::Kill(Process::Bus),
            Cleanup::Wait(Process::Wireplumber),
            Cleanup::Wait(Process::Pipewire),
            Cleanup::Wait(Process::Bus),
        ]
    );
    let mut s = Spawn::new();
    s.advance(SpawnEvent::Error("full".to_string()));
    assert_eq!(s.error, "failed to create audio runtime dir: full");
    assert!(s.cleanup.is_empty());
}

#[test]
fn paths_lie_below_the_runtime_directory() {
    let dir = audio_dir("/run/user/7", 12);
    assert_eq!(dir, "/run/user/7/blit-audio-12");
    assert_eq!(pulse_server_path(&dir), "unix:/run/user/7/blit-audio-12/pulse/native");
    assert_eq!(pipewire_remote_path(&dir), "/run/user/7/blit-audio-12/pipewire-0");
    assert_eq!(program_candidates("/bin:/usr/bin", "pw"), vec!["/bin/pw", "/usr/bin/pw"]);
    assert_eq!(find_program(&vec![false, true, true]), Some(1));
    assert_eq!(find_program(&vec![false]), None);
    assert_eq!(
        missing_pipewire_binaries(false, true, false),
        vec!["pipewire", "dbus-daemon"]
    );
}

#[test]
fn the_library_is_loaded_whole_or_not_at_all() {
    assert_eq!(library_names(), vec!["libpipewire-0.3.so.0", "libpipewire-0.3.so"]);
    let mut l = Load::new();
    l.step(false, None);
    assert_eq!(l.stage, LoadStage::Open(1));
    l.step(true, None);
    for _ in symbols() {
        assert!(!available(&l));
        l.step(true, None);
    }
    assert!(available(&l));
    assert_eq!(load_error(&l), "");
    assert!(pipewire_available(true, true, true, &l));
    assert!(!pipewire_available(true, false, true, &l));

    let mut l = Load::new();
    l.step(true, None);
    l.step(true, None);
    l.step(false, Some("gone".to_string()));
    assert_eq!(load_error(&l), "dlsym pw_deinit failed: gone");
    let mut l = Load::new();
    l.step(false, None);
    l.step(false, None);
    assert_eq!(l.stage, LoadStage::Missing);
    assert!(load_error(&l).ends_with("(no dlerror)"));
    assert!(!pipewire_available(true, true, true, &l));
}

#[test]
fn the_format_is_laid_out_in_words() {
    let words = build_audio_format_pod();
    assert_eq!(words.len(), 17);
    assert_eq!(words[0], 128 | (15 << 32));
    assert_eq!(words[1], 0x40003 | (3 << 32));
    assert_eq!(words[2], 1);
    assert_eq!(words[3], 4 | (3 << 32));
    assert_eq!(words[4], 1);
    assert_eq!(words[10], 283);
    assert_eq!(words[13], 48000);
    assert_eq!(words[16], 2);
    let p = stream_properties("sink");
    assert_eq!(p[4], ("target.object", "sink".to_string()));
}

#[test]
fn captures_are_unwound_in_reverse() {
    assert!(capture_releases(CaptureStep::NewLoop).is_empty());
    assert_eq!(
        capture_releases(CaptureStep::Connect),
        vec![
            CaptureRelease::DestroyStream,
            CaptureRelease::FreeState,
            CaptureRelease::DestroyLoop
        ]
    );
    assert_eq!(capture_error(CaptureStep::Connect, "-5"), "pw_stream_connect failed: -5");
    assert_eq!(captured_range(true, 8, 10, 4), Some((2, 8)));
    assert_eq!(captured_range(true, 8, 10, 0), Some((0, 8)));
    assert_eq!(captured_range(false, 8, 0, 4), None);
    assert_eq!(captured_range(true, 0, 0, 4), None);
}
