//! What holds of audio: frames, the pipeline that brings them and the encoder.

use vstd::prelude::*;

use crate::audio::{
    cleanup_for, effective_bitrate, failure_cleanup, failure_text, following,
    frame_message, missing_programs, pipewire_available, process_environment_spec, running,
    shutdown_cleanup, succeeds, tail,
};
use crate::audio::{
    AudioCodes, Cleanup, FrameView, Health, OpusFrame, Process, SpawnEvent, SpawnStep,
};
use crate::audio_encoder::{encode_next, encoded_frame, EncodeEvent, EncodeStage, EncoderView, SendOutcome};
use crate::audio_pw::{
    captured_range, load_went, pod_property, spec_library_names, spec_releases, spec_symbols,
};
use crate::audio_pw::{CaptureRelease, CaptureStep, Load, LoadStage};
use crate::bytes::{
    law_le_round_trip, le32, lemma_byte_range_values, lemma_le_bytes_len, u32_at,
};
use crate::text::trimmed;

verus! {

/// A frame's message says what it is, when it is from and how it is encoded, and then
/// holds the frame.
pub proof fn law_frame_messages(frame: FrameView, codes: AudioCodes)
    ensures
        ({
            let m = frame_message(frame, codes);
            &&& m.len() == 6 + frame.data.len()
            &&& m[0] == codes.message
            &&& u32_at(m, 1) == frame.timestamp
            &&& m[5] == codes.codec
            &&& m.skip(6) == frame.data
        }),
{
    let m = frame_message(frame, codes);
    lemma_byte_range_values();
    lemma_le_bytes_len(frame.timestamp as nat, 4);
    law_le_round_trip(frame.timestamp as nat, 4);
    assert(m.subrange(1, 5) =~= le32(frame.timestamp));
    assert(m.skip(6) =~= frame.data);
}

/// The last of a sequence are all of it where there are no more, and else as many as are
/// asked for, up to its end.
pub proof fn law_tails(s: Seq<FrameView>, n: nat)
    ensures
        s.len() <= n ==> tail(s, n) == s,
        s.len() > n ==> tail(s, n).len() == n && tail(s, n) == s.skip(s.len() - n),
{
    if s.len() > n {
        assert(tail(s, n) =~= s.skip(s.len() - n));
    }
}

/// A bitrate that is not above zero stands for sixty-four kilobits a second.
pub proof fn law_bitrates(bitrate: i32, r: i32)
    requires
        call_ensures(effective_bitrate, (bitrate,), r),
    ensures
        bitrate > 0 ==> r == bitrate,
        bitrate <= 0 ==> r == 64_000,
{
}

/// A pipeline is not restarted within a second of the last time, and the times within
/// thirty seconds are counted together; after that counting starts over.
pub proof fn law_restarts_are_spaced(h: Health, now: u64)
    ensures
        h.last_heal is None ==> !h.spec_cooling(now),
        h.last_heal is Some && now >= h.last_heal->0 ==> (h.spec_cooling(now) <==> now
            - h.last_heal->0 < 1_000_000_000),
        h.last_heal is Some && now < h.last_heal->0 ==> h.spec_cooling(now),
        h.first_heal_at is None ==> h.spec_heals_next(now) == 1,
        h.first_heal_at is Some && now > h.first_heal_at->0 + 30_000_000_000 ==> h.spec_heals_next(
            now,
        ) == 1,
        h.first_heal_at is Some && now <= h.first_heal_at->0 + 30_000_000_000 ==> h.spec_heals_next(
            now,
        ) == h.heals + 1,
{
}

/// A pipeline starts step by step: its directories and its configuration, the bus and its
/// address, the sound server and its socket, its manager, its front and that one's socket,
/// and the capture.
pub proof fn law_pipelines_start_step_by_step()
    ensures
        following(SpawnStep::CreateDir) == SpawnStep::CreateConfigDir,
        following(SpawnStep::CreateConfigDir) == SpawnStep::WriteConfig,
        following(SpawnStep::WriteConfig) == SpawnStep::StartBus,
        following(SpawnStep::StartBus) == SpawnStep::TakeBusOutput,
        following(SpawnStep::TakeBusOutput) == SpawnStep::ReadBusAddress,
        following(SpawnStep::ReadBusAddress) == SpawnStep::StartPipewire,
        following(SpawnStep::StartPipewire) == SpawnStep::AwaitPipewireSocket,
        following(SpawnStep::AwaitPipewireSocket) == SpawnStep::StartWireplumber,
        following(SpawnStep::StartWireplumber) == SpawnStep::StartPulse,
        following(SpawnStep::StartPulse) == SpawnStep::AwaitPulseSocket,
        following(SpawnStep::AwaitPulseSocket) == SpawnStep::StartCapture,
        following(SpawnStep::StartCapture) == SpawnStep::Ready,
{
}

/// A step has succeeded where it says so: the bus where it printed an address, a socket
/// where it appeared or its server still runs, the manager whether or not it started, and
/// every other step where it is done.
pub proof fn law_which_steps_succeed(step: SpawnStep, event: SpawnEvent, line: String, appeared: bool, exited: bool, started: bool)
    ensures
        succeeds(SpawnStep::ReadBusAddress, SpawnEvent::Address(line)) <==> trimmed(line@).len() > 0,
        succeeds(SpawnStep::AwaitPipewireSocket, SpawnEvent::Socket { appeared, exited })
            <==> appeared || !exited,
        succeeds(SpawnStep::AwaitPulseSocket, SpawnEvent::Socket { appeared, exited }) <==> appeared
            || !exited,
        succeeds(SpawnStep::StartWireplumber, SpawnEvent::Wireplumber { started }),
        event is Error ==> !succeeds(step, event),
        step is CreateDir || step is CreateConfigDir || step is WriteConfig || step is StartBus
            || step is TakeBusOutput || step is StartPipewire || step is StartPulse || step
            is StartCapture ==> (succeeds(step, event) <==> event is Done),
        step is Ready || step is Failed ==> !succeeds(step, event),
{
}

/// When a start fails what runs by then is killed, the last first, and waited for once all
/// are; where the bus could not be read it is left to itself.
pub proof fn law_failed_starts_are_cleaned_up(step: SpawnStep, event: SpawnEvent, wireplumber: bool)
    ensures
        step is StartPipewire || step is AwaitPipewireSocket ==> cleanup_for(step, wireplumber)
            == seq![Cleanup::Kill(Process::Bus), Cleanup::Wait(Process::Bus)],
        step is StartPulse && !wireplumber ==> cleanup_for(step, wireplumber) == seq![
            Cleanup::Kill(Process::Pipewire),
            Cleanup::Kill(Process::Bus),
            Cleanup::Wait(Process::Pipewire),
            Cleanup::Wait(Process::Bus),
        ],
        step is StartCapture && wireplumber ==> running(step, wireplumber) == seq![
            Process::Pulse,
            Process::Wireplumber,
            Process::Pipewire,
            Process::Bus,
        ],
        step is CreateDir || step is CreateConfigDir || step is WriteConfig || step is StartBus || step
            is TakeBusOutput ==> cleanup_for(step, wireplumber).len() == 0,
        step is ReadBusAddress && event is Address ==> failure_cleanup(step, event, wireplumber)
            == seq![Cleanup::Kill(Process::Bus)],
        step is ReadBusAddress && !(event is Address) ==> failure_cleanup(
            step,
            event,
            wireplumber,
        ).len() == 0,
        !(step is ReadBusAddress) ==> failure_cleanup(step, event, wireplumber) == cleanup_for(
            step,
            wireplumber,
        ),
{
    if step is StartPipewire || step is AwaitPipewireSocket {
        assert(cleanup_for(step, wireplumber) =~= seq![
            Cleanup::Kill(Process::Bus),
            Cleanup::Wait(Process::Bus),
        ]);
    }
    if step is StartPulse && !wireplumber {
        assert(cleanup_for(step, wireplumber) =~= seq![
            Cleanup::Kill(Process::Pipewire),
            Cleanup::Kill(Process::Bus),
            Cleanup::Wait(Process::Pipewire),
            Cleanup::Wait(Process::Bus),
        ]);
    }
    if step is StartCapture && wireplumber {
        assert(running(step, wireplumber) =~= seq![
            Process::Pulse,
            Process::Wireplumber,
            Process::Pipewire,
            Process::Bus,
        ]);
    }
    if !(step is StartPipewire || step is AwaitPipewireSocket || step is StartPulse || step
        is AwaitPulseSocket || step is StartCapture || step is ReadBusAddress || step
        is TakeBusOutput) {
        assert(cleanup_for(step, wireplumber) =~= Seq::<Cleanup>::empty());
    }
}

/// What the system said of a failed step comes last in what is told of it.
pub proof fn law_failures_tell_the_reason(step: SpawnStep, e: String)
    requires
        step is CreateDir || step is CreateConfigDir || step is WriteConfig || step is StartBus
            || step is ReadBusAddress || step is StartPipewire || step is StartPulse || step
            is StartCapture,
    ensures
        ({
            let t = failure_text(step, SpawnEvent::Error(e));
            t.len() >= e@.len() && t.skip(t.len() - e@.len()) == e@
        }),
{
    let t = failure_text(step, SpawnEvent::Error(e));
    assert(t.skip(t.len() - e@.len()) =~= e@);
}

/// Ending a pipeline kills every process, those that depend on others first, and waits for
/// each once all are killed.
pub proof fn law_pipelines_end(wireplumber: bool, v: Vec<Cleanup>, p: Process)
    requires
        call_ensures(shutdown_cleanup, (wireplumber,), v),
    ensures
        v@.contains(Cleanup::Kill(Process::Pulse)) && v@.contains(Cleanup::Wait(Process::Pulse)),
        v@.contains(Cleanup::Kill(Process::Pipewire)) && v@.contains(
            Cleanup::Wait(Process::Pipewire),
        ),
        v@.contains(Cleanup::Kill(Process::Bus)) && v@.contains(Cleanup::Wait(Process::Bus)),
        v@.contains(Cleanup::Kill(Process::Wireplumber)) <==> wireplumber,
        v@.contains(Cleanup::Wait(Process::Wireplumber)) <==> wireplumber,
        v@[0] == Cleanup::Kill(Process::Pulse),
        v@.last() == Cleanup::Wait(Process::Bus),
{
    if wireplumber {
        assert(v@[0] == Cleanup::Kill(Process::Pulse));
        assert(v@[1] == Cleanup::Kill(Process::Wireplumber));
        assert(v@[2] == Cleanup::Kill(Process::Pipewire));
        assert(v@[3] == Cleanup::Kill(Process::Bus));
        assert(v@[4] == Cleanup::Wait(Process::Pulse));
        assert(v@[5] == Cleanup::Wait(Process::Wireplumber));
        assert(v@[6] == Cleanup::Wait(Process::Pipewire));
        assert(v@[7] == Cleanup::Wait(Process::Bus));
    } else {
        assert(v@[0] == Cleanup::Kill(Process::Pulse));
        assert(v@[1] == Cleanup::Kill(Process::Pipewire));
        assert(v@[2] == Cleanup::Kill(Process::Bus));
        assert(v@[3] == Cleanup::Wait(Process::Pulse));
        assert(v@[4] == Cleanup::Wait(Process::Pipewire));
        assert(v@[5] == Cleanup::Wait(Process::Bus));
    }
}

/// Every process runs in the pipeline's directory; all but the bus are told its address;
/// and those that talk to the sound server are told where that is.
pub proof fn law_process_environments(process: Process, dir: Seq<char>, bus: Seq<char>)
    ensures
        ({
            let e = process_environment_spec(process, dir, bus);
            &&& e.contains(("XDG_RUNTIME_DIR"@, dir))
            &&& process != Process::Bus ==> e.contains(("DBUS_SESSION_BUS_ADDRESS"@, bus))
            &&& process == Process::Bus ==> e.len() == 1
            &&& process == Process::Wireplumber || process == Process::Pulse ==> e[0].0
                == "PIPEWIRE_REMOTE"@
            &&& process == Process::Pipewire || process == Process::Wireplumber ==> e.contains(
                ("XDG_CONFIG_HOME"@, dir),
            )
        }),
{
    let e = process_environment_spec(process, dir, bus);
    let n = e.len() as int;
    assert(e[n - 1] == ("XDG_RUNTIME_DIR"@, dir));
    if process != Process::Bus {
        assert(e[n - 2] == ("DBUS_SESSION_BUS_ADDRESS"@, bus));
    }
    if process == Process::Pipewire || process == Process::Wireplumber {
        assert(e[n - 3] == ("XDG_CONFIG_HOME"@, dir));
    }
}

/// Audio can run where every program and the library are there; a program is missing
/// exactly where it was not found.
pub proof fn law_when_audio_can_run(pipewire: bool, pulse: bool, bus: bool, load: Load, r: bool)
    requires
        call_ensures(pipewire_available, (pipewire, pulse, bus, &load), r),
    ensures
        r <==> pipewire && pulse && bus && load.stage == LoadStage::Loaded,
        missing_programs(pipewire, pulse, bus).len() == (if pipewire {
            0int
        } else {
            1
        }) + (if pulse {
            0int
        } else {
            1
        }) + (if bus {
            0int
        } else {
            1
        }),
        !pipewire ==> missing_programs(pipewire, pulse, bus)[0] == "pipewire"@,
        !bus ==> missing_programs(pipewire, pulse, bus).last() == "dbus-daemon"@,
{
}

/// The library is looked for under each of its names; once it is there each function is
/// looked for; and it is loaded when the last one is found.
pub proof fn law_libraries_are_loaded(
    before: Load,
    after: Load,
    found: bool,
    loader_error: Option<Seq<char>>,
)
    requires
        load_went(before, after, found, loader_error),
    ensures
        before.stage matches LoadStage::Open(i) ==> {
            &&& found ==> after.stage == LoadStage::Resolve(0)
            &&& !found && i + 1 < spec_library_names().len() ==> after.stage == LoadStage::Open(
                (i + 1) as usize,
            )
            &&& !found && i + 1 >= spec_library_names().len() ==> after.stage == LoadStage::Missing
        },
        before.stage matches LoadStage::Resolve(i) ==> {
            &&& !found ==> after.stage == LoadStage::Missing
            &&& found && i + 1 < spec_symbols().len() ==> after.stage == LoadStage::Resolve(
                (i + 1) as usize,
            )
            &&& found && i + 1 >= spec_symbols().len() ==> after.stage == LoadStage::Loaded
        },
        spec_library_names().len() == 2,
        spec_symbols().len() == 15,
{
}

/// A captured buffer is forwarded while someone listens and it is not empty, from its
/// offset within the buffer.
pub proof fn law_captured_ranges(
    active: bool,
    size: u32,
    offset: u32,
    maxsize: u32,
    r: Option<(u32, u32)>,
)
    requires
        call_ensures(captured_range, (active, size, offset, maxsize), r),
    ensures
        r is Some <==> active && size > 0,
        r is Some && offset < maxsize ==> r->0 == (offset, size),
        r is Some && maxsize == 0 ==> r->0 == (0u32, size),
        r matches Some((at, n)) ==> n == size && (maxsize > 0 ==> at < maxsize),
{
    if offset < maxsize {
        vstd::arithmetic::div_mod::lemma_small_mod(offset as nat, maxsize as nat);
    }
}

/// What was made is let go of in the reverse order: each step that failed leaves what the
/// steps before it made.
pub proof fn law_captures_are_let_go()
    ensures
        spec_releases(CaptureStep::NewLoop).len() == 0,
        spec_releases(CaptureStep::NewProperties) == seq![CaptureRelease::DestroyLoop],
        spec_releases(CaptureStep::NewStream) == seq![CaptureRelease::FreeState]
            + spec_releases(CaptureStep::NewProperties),
        spec_releases(CaptureStep::Connect) == seq![CaptureRelease::DestroyStream] + spec_releases(
            CaptureStep::NewStream,
        ),
        spec_releases(CaptureStep::StartLoop) == seq![CaptureRelease::DisconnectStream]
            + spec_releases(CaptureStep::Connect),
{
    assert(spec_releases(CaptureStep::NewStream) =~= seq![CaptureRelease::FreeState]
        + spec_releases(CaptureStep::NewProperties));
    assert(spec_releases(CaptureStep::Connect) =~= seq![CaptureRelease::DestroyStream]
        + spec_releases(CaptureStep::NewStream));
    assert(spec_releases(CaptureStep::StartLoop) =~= seq![CaptureRelease::DisconnectStream]
        + spec_releases(CaptureStep::Connect));
}

/// A property of a format says its key, the length and the type of its value, and the
/// value.
pub proof fn law_format_properties(key: u32, pod_type: u32, value: u32)
    ensures
        ({
            let p = pod_property(key, pod_type, value);
            &&& p.len() == 24
            &&& u32_at(p, 0) == key
            &&& u32_at(p, 8) == 4
            &&& u32_at(p, 12) == pod_type
            &&& u32_at(p, 16) == value
        }),
{
    let p = pod_property(key, pod_type, value);
    lemma_byte_range_values();
    lemma_le_bytes_len(key as nat, 4);
    lemma_le_bytes_len(0, 4);
    lemma_le_bytes_len(4, 4);
    lemma_le_bytes_len(pod_type as nat, 4);
    lemma_le_bytes_len(value as nat, 4);
    law_le_round_trip(key as nat, 4);
    law_le_round_trip(4, 4);
    law_le_round_trip(pod_type as nat, 4);
    law_le_round_trip(value as nat, 4);
    assert(p.subrange(0, 4) =~= le32(key));
    assert(p.subrange(8, 12) =~= le32(4));
    assert(p.subrange(12, 16) =~= le32(pod_type));
    assert(p.subrange(16, 20) =~= le32(value));
}

/// The encoder starts where its bitrate was taken and fails where it was not. A bitrate
/// that is wanted and not the one it has is set before more is captured, and kept only
/// where it was taken.
pub proof fn law_encoder_bitrates(v: EncoderView, taken: bool, wanted: Option<i32>)
    ensures
        v.stage is Starting ==> {
            let n = encode_next(v, EncodeEvent::BitrateSet(taken));
            (taken ==> n.stage is Polling) && (!taken ==> n.stage is Failed)
        },
        v.stage is Polling ==> {
            let n = encode_next(v, EncodeEvent::Wanted(wanted));
            &&& wanted is Some && wanted->0 != v.bitrate ==> n.stage == EncodeStage::Updating(
                wanted->0,
            )
            &&& wanted is None || wanted->0 == v.bitrate ==> n.stage is Receiving
            &&& n.bitrate == v.bitrate && n.bytes == v.bytes
        },
        v.stage matches EncodeStage::Updating(b) ==> {
            let n = encode_next(v, EncodeEvent::BitrateSet(taken));
            &&& n.stage is Receiving
            &&& taken ==> n.bitrate == b
            &&& !taken ==> n.bitrate == v.bitrate
        },
{
}

/// What is captured is added behind what is there, and encoded a whole frame at a time, of
/// seven thousand six hundred and eighty bytes, where someone listens. An encoded frame is
/// sent, and after that, or where it could not be encoded, the next one comes.
pub proof fn law_encoder_frames(v: EncoderView, chunk: Vec<u8>, anyone: bool, done: bool)
    ensures
        v.stage is Receiving ==> {
            let n = encode_next(v, EncodeEvent::Captured(Some(chunk)));
            &&& n.bytes == v.bytes + chunk@
            &&& v.bytes.len() + chunk@.len() >= 7680 ==> n.stage is Checking
            &&& v.bytes.len() + chunk@.len() < 7680 ==> n.stage is Polling
            &&& encode_next(v, EncodeEvent::Captured(None)).stage is Ended
        },
        v.stage is Checking && v.bytes.len() >= 7680 ==> {
            let n = encode_next(v, EncodeEvent::Listening(anyone));
            &&& n.bytes == v.bytes.skip(7680)
            &&& anyone ==> n.stage is Encoding && n.frame == v.bytes.take(7680)
            &&& !anyone ==> n.frame.len() == 0 && (n.stage is Checking || n.stage is Polling)
        },
        v.stage is Encoding ==> {
            let n = encode_next(v, EncodeEvent::Encoded(done));
            &&& done ==> n.stage is Sending && n.frame == v.frame
            &&& !done ==> n.frame.len() == 0 && (n.stage is Checking || n.stage is Polling)
        },
        v.stage is Sending ==> {
            let closed = encode_next(v, EncodeEvent::Sent(SendOutcome::Closed));
            closed.stage is Ended
        },
        v.stage is Sending ==> forall|o: SendOutcome|
            !(o is Closed) ==> {
                let n = #[trigger] encode_next(v, EncodeEvent::Sent(o));
                n.frame.len() == 0 && (n.stage is Checking || n.stage is Polling)
            },
{
}

/// A packet has the time that it was made at, in the bits that there are for it.
pub proof fn law_packet_times(elapsed_ms: u64, packet: Vec<u8>, f: OpusFrame)
    requires
        call_ensures(encoded_frame, (elapsed_ms, packet), f),
    ensures
        elapsed_ms < 0x1_0000_0000 ==> f.timestamp == elapsed_ms,
        f.data@ == packet@,
{
}

} // verus!
