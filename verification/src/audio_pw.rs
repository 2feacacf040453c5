//! The in-process PipeWire capture stream: finding the library, describing the
//! format, and unwinding a start that failed.

use vstd::prelude::*;

use crate::bytes::{
    le32, le64, lemma_le_bytes_len, law_le_value_round_trip, push_bytes, push_u32, read_u64,
};
use crate::text::{concat, concat3};

verus! {

/// The names under which the library is looked for, in order.
pub open spec fn spec_library_names() -> Seq<Seq<char>> {
    seq!["libpipewire-0.3.so.0"@, "libpipewire-0.3.so"@]
}

pub fn library_names() -> (v: Vec<&'static str>)
    ensures
        v@.map_values(|s: &'static str| s@) == spec_library_names(),
{
    let mut v: Vec<&'static str> = Vec::new();
    v.push("libpipewire-0.3.so.0");
    v.push("libpipewire-0.3.so");
    proof {
        assert(v@.map_values(|s: &'static str| s@) =~= spec_library_names());
    }
    v
}

/// The symbols that the library must have, in the order in which they are
/// resolved.
pub open spec fn spec_symbols() -> Seq<Seq<char>> {
    seq![
        "pw_init"@,
        "pw_deinit"@,
        "pw_thread_loop_new"@,
        "pw_thread_loop_destroy"@,
        "pw_thread_loop_start"@,
        "pw_thread_loop_stop"@,
        "pw_thread_loop_get_loop"@,
        "pw_stream_new_simple"@,
        "pw_stream_destroy"@,
        "pw_stream_connect"@,
        "pw_stream_disconnect"@,
        "pw_stream_dequeue_buffer"@,
        "pw_stream_queue_buffer"@,
        "pw_properties_new"@,
        "pw_properties_set"@,
    ]
}

pub fn symbols() -> (v: Vec<&'static str>)
    ensures
        v@.map_values(|s: &'static str| s@) == spec_symbols(),
{
    let mut v: Vec<&'static str> = Vec::new();
    v.push("pw_init");
    v.push("pw_deinit");
    v.push("pw_thread_loop_new");
    v.push("pw_thread_loop_destroy");
    v.push("pw_thread_loop_start");
    v.push("pw_thread_loop_stop");
    v.push("pw_thread_loop_get_loop");
    v.push("pw_stream_new_simple");
    v.push("pw_stream_destroy");
    v.push("pw_stream_connect");
    v.push("pw_stream_disconnect");
    v.push("pw_stream_dequeue_buffer");
    v.push("pw_stream_queue_buffer");
    v.push("pw_properties_new");
    v.push("pw_properties_set");
    proof {
        assert(v@.map_values(|s: &'static str| s@) =~= spec_symbols());
    }
    v
}

/// How far loading the library has come.
#[derive(Clone, Copy, Debug, PartialEq, Eq, Structural)]
pub enum LoadStage {
    /// The library name to try next, by position.
    Open(usize),
    /// The symbol to resolve next, by position.
    Resolve(usize),
    /// Every symbol is there; the library is initialised once.
    Loaded,
    Missing,
}

/// The one attempt to load the library that a process makes, with the first
/// error that it met.
pub struct Load {
    pub stage: LoadStage,
    pub error: Option<String>,
}

/// An error with its context; the loader may have none to give.
pub open spec fn load_failure(context: Seq<char>, loader_error: Option<Seq<char>>) -> Seq<char> {
    context + ": "@ + match loader_error {
        Some(e) => e,
        None => "(no dlerror)"@,
    }
}

pub open spec fn opt_text(v: Option<String>) -> Option<Seq<char>> {
    match v {
        Some(s) => Some(s@),
        None => None,
    }
}

/// Whether loading went on from `before` to `after`, given what came of the step
/// that was asked for.
pub open spec fn load_went(
    before: Load,
    after: Load,
    found: bool,
    loader_error: Option<Seq<char>>,
) -> bool {
    match before.stage {
        LoadStage::Open(i) => if found {
            after.stage == LoadStage::Resolve(0)
        } else if i + 1 < spec_library_names().len() {
            after.stage == LoadStage::Open((i + 1) as usize)
        } else {
            after.stage == LoadStage::Missing && opt_text(after.error) == Some(
                load_failure(
                    "dlopen libpipewire-0.3.so.0 failed (check LD_LIBRARY_PATH)"@,
                    loader_error,
                ),
            )
        },
        LoadStage::Resolve(i) => if !found {
            after.stage == LoadStage::Missing && opt_text(after.error) == Some(
                load_failure(
                    "dlsym "@ + spec_symbols()[i as int] + " failed"@,
                    loader_error,
                ),
            )
        } else if i + 1 < spec_symbols().len() {
            after.stage == LoadStage::Resolve((i + 1) as usize)
        } else {
            after.stage == LoadStage::Loaded
        },
        _ => after == before,
    }
}

impl Load {
    /// Positions stay within the two lists, and an error is on record exactly
    /// where the library is missing; it says something.
    pub open spec fn wf(self) -> bool {
        &&& self.stage matches LoadStage::Open(i) ==> i < spec_library_names().len()
        &&& self.stage matches LoadStage::Resolve(i) ==> i < spec_symbols().len()
        &&& self.error is Some <==> self.stage is Missing
        &&& self.error matches Some(e) ==> e@.len() > 0
    }

    /// What went wrong; empty where nothing did.
    pub open spec fn spec_error(self) -> Seq<char> {
        match self.error {
            Some(e) => e@,
            None => ""@,
        }
    }

    /// Whether loading the library has come to its end.
    pub open spec fn spec_tried(self) -> bool {
        self.stage is Loaded || self.stage is Missing
    }

    pub fn new() -> (l: Load)
        ensures
            l.wf(),
            l.stage == LoadStage::Open(0),
            l.error is None,
    {
        Load { stage: LoadStage::Open(0), error: None }
    }

    /// Takes the outcome of the step that the stage asks for, with what the
    /// loader said where it failed. The first error is the one that is kept.
    pub fn step(&mut self, found: bool, loader_error: Option<String>)
        requires
            old(self).wf(),
        ensures
            final(self).wf(),
            load_went(*old(self), *final(self), found, opt_text(loader_error)),
    {
        match self.stage {
            LoadStage::Open(i) => {
                if found {
                    self.stage = LoadStage::Resolve(0);
                } else if i < 1 {
                    self.stage = LoadStage::Open(i + 1);
                } else {
                    self.error = Some(
                        failure_text(
                            "dlopen libpipewire-0.3.so.0 failed (check LD_LIBRARY_PATH)",
                            loader_error,
                        ),
                    );
                    self.stage = LoadStage::Missing;
                }
            },
            LoadStage::Resolve(i) => {
                if !found {
                    let names = symbols();
                    proof {
                        assert(names@.map_values(|s: &'static str| s@)[i as int] == names@[i as int]@);
                    }
                    let context = concat3("dlsym ", names[i], " failed");
                    self.error = Some(failure_text(context.as_str(), loader_error));
                    self.stage = LoadStage::Missing;
                } else if i < 14 {
                    self.stage = LoadStage::Resolve(i + 1);
                } else {
                    self.stage = LoadStage::Loaded;
                }
            },
            LoadStage::Loaded => {},
            LoadStage::Missing => {},
        }
    }
}

fn failure_text(context: &str, loader_error: Option<String>) -> (r: String)
    ensures
        r@ == load_failure(context@, opt_text(loader_error)),
        r@.len() > 0,
{
    proof {
        reveal_strlit(": ");
    }
    match loader_error {
        Some(e) => concat3(context, ": ", e.as_str()),
        None => concat3(context, ": ", "(no dlerror)"),
    }
}

/// What went wrong with loading the library; empty where nothing did.
pub fn load_error(load: &Load) -> (r: &str)
    ensures
        r@ == load.spec_error(),
{
    match &load.error {
        Some(e) => e.as_str(),
        None => "",
    }
}

/// Whether the library and all its symbols are there.
pub fn available(load: &Load) -> (r: bool)
    ensures
        r == (load.stage == LoadStage::Loaded),
{
    load.stage == LoadStage::Loaded
}

/// The error is empty as long as loading has not come to its end, and after that
/// exactly where the library is available.
pub proof fn law_error_tells_availability(load: Load)
    requires
        load.wf(),
    ensures
        !load.spec_tried() ==> load.spec_error().len() == 0,
        load.spec_tried() ==> (load.spec_error().len() == 0 <==> load.stage == LoadStage::Loaded),
{
    reveal_strlit("");
}

/// Loading is tried once: when it has come to its end, neither the outcome nor
/// the error changes any more.
pub proof fn law_error_never_changes(
    before: Load,
    after: Load,
    found: bool,
    loader_error: Option<Seq<char>>,
)
    requires
        before.wf(),
        load_went(before, after, found, loader_error),
        before.spec_tried(),
    ensures
        after == before,
{
}

pub const SPA_TYPE_ID: u32 = 3;

pub const SPA_TYPE_INT: u32 = 4;

pub const SPA_TYPE_OBJECT: u32 = 15;

pub const SPA_TYPE_OBJECT_FORMAT: u32 = 0x40003;

pub const SPA_PARAM_ENUM_FORMAT: u32 = 3;

pub const SPA_FORMAT_MEDIA_TYPE: u32 = 1;

pub const SPA_FORMAT_MEDIA_SUBTYPE: u32 = 2;

pub const SPA_FORMAT_AUDIO_FORMAT: u32 = 0x10001;

pub const SPA_FORMAT_AUDIO_RATE: u32 = 0x10003;

pub const SPA_FORMAT_AUDIO_CHANNELS: u32 = 0x10004;

pub const SPA_MEDIA_TYPE_AUDIO: u32 = 1;

pub const SPA_MEDIA_SUBTYPE_RAW: u32 = 1;

pub const SPA_AUDIO_FORMAT_F32_LE: u32 = 283;

pub const SAMPLE_RATE: u32 = 48000;

pub const CHANNEL_COUNT: u32 = 2;

/// One property of a format object: key, no flags, and a four-byte value,
/// padded to a multiple of eight bytes.
pub open spec fn pod_property(key: u32, pod_type: u32, value: u32) -> Seq<u8> {
    le32(key) + le32(0) + le32(4) + le32(pod_type) + le32(value) + le32(0)
}

/// The body of the format object: what it is, then its properties.
pub open spec fn pod_body() -> Seq<u8> {
    le32(SPA_TYPE_OBJECT_FORMAT) + le32(SPA_PARAM_ENUM_FORMAT) + pod_property(
        SPA_FORMAT_MEDIA_TYPE,
        SPA_TYPE_ID,
        SPA_MEDIA_TYPE_AUDIO,
    ) + pod_property(SPA_FORMAT_MEDIA_SUBTYPE, SPA_TYPE_ID, SPA_MEDIA_SUBTYPE_RAW) + pod_property(
        SPA_FORMAT_AUDIO_FORMAT,
        SPA_TYPE_ID,
        SPA_AUDIO_FORMAT_F32_LE,
    ) + pod_property(SPA_FORMAT_AUDIO_RATE, SPA_TYPE_INT, SAMPLE_RATE) + pod_property(
        SPA_FORMAT_AUDIO_CHANNELS,
        SPA_TYPE_INT,
        CHANNEL_COUNT,
    )
}

/// The format object for a 48 kHz stereo stream of little-endian floats:
/// body size, object type, body.
pub open spec fn pod_bytes() -> Seq<u8> {
    le32(pod_body().len() as u32) + le32(SPA_TYPE_OBJECT) + pod_body()
}

/// The bytes of little-endian words, one after another.
pub open spec fn word_bytes(words: Seq<u64>) -> Seq<u8>
    decreases words.len(),
{
    if words.len() == 0 {
        Seq::empty()
    } else {
        word_bytes(words.drop_last()) + le64(words.last())
    }
}

fn push_property(out: &mut Vec<u8>, key: u32, pod_type: u32, value: u32)
    ensures
        final(out)@ == old(out)@ + pod_property(key, pod_type, value),
{
    push_u32(out, key);
    push_u32(out, 0);
    push_u32(out, 4);
    push_u32(out, pod_type);
    push_u32(out, value);
    push_u32(out, 0);
    proof {
        assert(out@ =~= old(out)@ + pod_property(key, pod_type, value));
    }
}

proof fn lemma_property_len(key: u32, pod_type: u32, value: u32)
    ensures
        pod_property(key, pod_type, value).len() == 24,
{
    lemma_le_bytes_len(key as nat, 4);
    lemma_le_bytes_len(0, 4);
    lemma_le_bytes_len(4, 4);
    lemma_le_bytes_len(pod_type as nat, 4);
    lemma_le_bytes_len(value as nat, 4);
}

/// The format object takes 136 bytes, a multiple of eight.
pub proof fn law_pod_is_word_aligned()
    ensures
        pod_body().len() == 128,
        pod_bytes().len() == 136,
        pod_bytes().len() % 8 == 0,
{
    lemma_le_bytes_len(SPA_TYPE_OBJECT_FORMAT as nat, 4);
    lemma_le_bytes_len(SPA_PARAM_ENUM_FORMAT as nat, 4);
    lemma_le_bytes_len(SPA_TYPE_OBJECT as nat, 4);
    lemma_le_bytes_len(pod_body().len() as u32 as nat, 4);
    lemma_property_len(SPA_FORMAT_MEDIA_TYPE, SPA_TYPE_ID, SPA_MEDIA_TYPE_AUDIO);
    lemma_property_len(SPA_FORMAT_MEDIA_SUBTYPE, SPA_TYPE_ID, SPA_MEDIA_SUBTYPE_RAW);
    lemma_property_len(SPA_FORMAT_AUDIO_FORMAT, SPA_TYPE_ID, SPA_AUDIO_FORMAT_F32_LE);
    lemma_property_len(SPA_FORMAT_AUDIO_RATE, SPA_TYPE_INT, SAMPLE_RATE);
    lemma_property_len(SPA_FORMAT_AUDIO_CHANNELS, SPA_TYPE_INT, CHANNEL_COUNT);
}

/// Reads bytes as little-endian words.
fn pack_words(bytes: &Vec<u8>) -> (words: Vec<u64>)
    requires
        bytes@.len() % 8 == 0,
    ensures
        word_bytes(words@) == bytes@,
{
    let total: usize = bytes.len();
    let mut words: Vec<u64> = Vec::new();
    let mut at: usize = 0;
    while at < total
        invariant
            at <= total,
            at % 8 == 0,
            total % 8 == 0,
            bytes@.len() == total,
            word_bytes(words@) == bytes@.subrange(0, at as int),
        decreases total - at,
    {
        let w: u64 = read_u64(bytes.as_slice(), at);
        proof {
            let piece = bytes@.subrange(at as int, at + 8);
            law_le_value_round_trip(piece);
            assert(le64(w) == piece);
            assert(words@.push(w).drop_last() =~= words@);
            assert(bytes@.subrange(0, at + 8) =~= bytes@.subrange(0, at as int) + piece);
        }
        words.push(w);
        at = at + 8;
    }
    proof {
        assert(bytes@.subrange(0, total as int) =~= bytes@);
    }
    words
}

/// Builds the format object as words, so that its memory is aligned for
/// word-sized loads; each word is little-endian.
pub fn build_audio_format_pod() -> (words: Vec<u64>)
    ensures
        word_bytes(words@) == pod_bytes(),
{
    let mut body: Vec<u8> = Vec::new();
    push_u32(&mut body, SPA_TYPE_OBJECT_FORMAT);
    push_u32(&mut body, SPA_PARAM_ENUM_FORMAT);
    push_property(&mut body, SPA_FORMAT_MEDIA_TYPE, SPA_TYPE_ID, SPA_MEDIA_TYPE_AUDIO);
    push_property(&mut body, SPA_FORMAT_MEDIA_SUBTYPE, SPA_TYPE_ID, SPA_MEDIA_SUBTYPE_RAW);
    push_property(&mut body, SPA_FORMAT_AUDIO_FORMAT, SPA_TYPE_ID, SPA_AUDIO_FORMAT_F32_LE);
    push_property(&mut body, SPA_FORMAT_AUDIO_RATE, SPA_TYPE_INT, SAMPLE_RATE);
    push_property(&mut body, SPA_FORMAT_AUDIO_CHANNELS, SPA_TYPE_INT, CHANNEL_COUNT);
    proof {
        assert(body@ =~= pod_body());
        law_pod_is_word_aligned();
    }
    let mut bytes: Vec<u8> = Vec::new();
    push_u32(&mut bytes, body.len() as u32);
    push_u32(&mut bytes, SPA_TYPE_OBJECT);
    push_bytes(&mut bytes, body.as_slice());
    proof {
        assert(bytes@ =~= pod_bytes());
    }
    pack_words(&bytes)
}

/// What the stream is told of itself before it connects.
pub open spec fn spec_stream_properties(target: Seq<char>) -> Seq<(Seq<char>, Seq<char>)> {
    seq![
        ("media.type"@, "Audio"@),
        ("media.category"@, "Capture"@),
        ("media.role"@, "DSP"@),
        ("stream.capture.sink"@, "true"@),
        ("target.object"@, target),
        ("node.name"@, "blit-capture"@),
        ("node.latency"@, "256/48000"@),
    ]
}

pub fn stream_properties(target: &str) -> (v: Vec<(&'static str, String)>)
    ensures
        crate::app_env::env_view(v@) == spec_stream_properties(target@),
{
    let mut v: Vec<(&'static str, String)> = Vec::new();
    v.push(("media.type", "Audio".to_owned()));
    v.push(("media.category", "Capture".to_owned()));
    v.push(("media.role", "DSP".to_owned()));
    v.push(("stream.capture.sink", "true".to_owned()));
    v.push(("target.object", target.to_owned()));
    v.push(("node.name", "blit-capture".to_owned()));
    v.push(("node.latency", "256/48000".to_owned()));
    proof {
        assert(crate::app_env::env_view(v@) =~= spec_stream_properties(target@));
    }
    v
}

/// The steps of starting a capture, in order.
#[derive(Clone, Copy, Debug, PartialEq, Eq, Structural)]
pub enum CaptureStep {
    NewLoop,
    NewProperties,
    NewStream,
    Connect,
    StartLoop,
}

/// What a failed start gives back, in order.
#[derive(Clone, Copy, Debug, PartialEq, Eq, Structural)]
pub enum CaptureRelease {
    DisconnectStream,
    DestroyStream,
    FreeState,
    DestroyLoop,
}

/// What stands when a step fails: everything that earlier steps acquired, in
/// the reverse of the order in which it was acquired. The properties belong
/// to the stream, and a stream is disconnected only once it was connected.
pub open spec fn spec_releases(failed: CaptureStep) -> Seq<CaptureRelease> {
    match failed {
        CaptureStep::NewLoop => seq![],
        CaptureStep::NewProperties => seq![CaptureRelease::DestroyLoop],
        CaptureStep::NewStream => seq![CaptureRelease::FreeState, CaptureRelease::DestroyLoop],
        CaptureStep::Connect => seq![
            CaptureRelease::DestroyStream,
            CaptureRelease::FreeState,
            CaptureRelease::DestroyLoop,
        ],
        CaptureStep::StartLoop => seq![
            CaptureRelease::DisconnectStream,
            CaptureRelease::DestroyStream,
            CaptureRelease::FreeState,
            CaptureRelease::DestroyLoop,
        ],
    }
}

pub fn capture_releases(failed: CaptureStep) -> (v: Vec<CaptureRelease>)
    ensures
        v@ == spec_releases(failed),
{
    let mut v: Vec<CaptureRelease> = Vec::new();
    if failed == CaptureStep::StartLoop {
        v.push(CaptureRelease::DisconnectStream);
    }
    if failed == CaptureStep::StartLoop || failed == CaptureStep::Connect {
        v.push(CaptureRelease::DestroyStream);
    }
    if failed != CaptureStep::NewLoop && failed != CaptureStep::NewProperties {
        v.push(CaptureRelease::FreeState);
    }
    if failed != CaptureStep::NewLoop {
        v.push(CaptureRelease::DestroyLoop);
    }
    proof {
        assert(v@ =~= spec_releases(failed));
    }
    v
}

/// The text of a failed start; only a refused connection has a code to show.
pub open spec fn spec_capture_error(failed: CaptureStep, code: Seq<char>) -> Seq<char> {
    match failed {
        CaptureStep::NewLoop => "pw_thread_loop_new failed"@,
        CaptureStep::NewProperties => "pw_properties_new failed"@,
        CaptureStep::NewStream => "pw_stream_new_simple failed"@,
        CaptureStep::Connect => "pw_stream_connect failed: "@ + code,
        CaptureStep::StartLoop => "pw_thread_loop_start failed"@,
    }
}

pub fn capture_error(failed: CaptureStep, code: &str) -> (r: String)
    ensures
        r@ == spec_capture_error(failed, code@),
{
    match failed {
        CaptureStep::NewLoop => "pw_thread_loop_new failed".to_owned(),
        CaptureStep::NewProperties => "pw_properties_new failed".to_owned(),
        CaptureStep::NewStream => "pw_stream_new_simple failed".to_owned(),
        CaptureStep::Connect => concat("pw_stream_connect failed: ", code),
        CaptureStep::StartLoop => "pw_thread_loop_start failed".to_owned(),
    }
}

/// The part of a captured buffer to forward: nothing while inactive or empty,
/// else `size` bytes from the offset taken modulo the buffer.
pub fn captured_range(active: bool, size: u32, offset: u32, maxsize: u32) -> (r: Option<(u32, u32)>)
    ensures
        r == if active && size > 0 {
            Some(
                (
                    if maxsize == 0 {
                        0
                    } else {
                        (offset as int % maxsize as int) as u32
                    },
                    size,
                ),
            )
        } else {
            None
        },
{
    if !active || size == 0 {
        return None;
    }
    let modulus: u32 = if maxsize == 0 {
        1
    } else {
        maxsize
    };
    Some((offset % modulus, size))
}

} // verus!
