//! Which drivers of graphics cards are looked for, and what is looked for in
//! them.

use vstd::prelude::*;

use crate::text::concat3;

verus! {

pub const VA_STATUS_SUCCESS: i32 = 0;

/// A driver's library.
#[derive(Clone, Copy, Debug, PartialEq, Eq, Structural)]
pub enum GpuLibrary {
    Cuda,
    NvEnc,
    Va,
    VaDrm,
}

pub open spec fn words(v: Seq<&'static str>) -> Seq<Seq<char>> {
    Seq::new(v.len(), |i: int| v[i]@)
}

/// The names under which a library is looked for, in order.
pub open spec fn names_of(lib: GpuLibrary) -> Seq<Seq<char>> {
    match lib {
        GpuLibrary::Cuda => seq!["libcuda.so.1"@, "libcuda.so"@],
        GpuLibrary::NvEnc => seq!["libnvidia-encode.so.1"@, "libnvidia-encode.so"@],
        GpuLibrary::Va => seq!["libva.so.2"@, "libva.so"@],
        GpuLibrary::VaDrm => seq!["libva-drm.so.2"@, "libva-drm.so"@],
    }
}

pub fn library_names(lib: GpuLibrary) -> (out: Vec<&'static str>)
    ensures
        words(out@) == names_of(lib),
{
    let (first, second): (&'static str, &'static str) = match lib {
        GpuLibrary::Cuda => ("libcuda.so.1", "libcuda.so"),
        GpuLibrary::NvEnc => ("libnvidia-encode.so.1", "libnvidia-encode.so"),
        GpuLibrary::Va => ("libva.so.2", "libva.so"),
        GpuLibrary::VaDrm => ("libva-drm.so.2", "libva-drm.so"),
    };
    let mut out: Vec<&'static str> = Vec::new();
    out.push(first);
    out.push(second);
    proof {
        assert(words(out@) =~= names_of(lib));
    }
    out
}

/// The functions that a library must have.
pub open spec fn required_of(lib: GpuLibrary) -> Seq<Seq<char>> {
    match lib {
        GpuLibrary::Cuda => seq![
            "cuInit"@,
            "cuDeviceGet"@,
            "cuCtxCreate_v2"@,
            "cuCtxDestroy_v2"@,
            "cuCtxPushCurrent_v2"@,
            "cuCtxPopCurrent_v2"@,
            "cuMemAlloc_v2"@,
            "cuMemFree_v2"@,
            "cuMemcpyHtoD_v2"@,
            "cuMemAllocHost_v2"@,
            "cuMemFreeHost"@,
            "cuMemAllocPitch_v2"@,
            "cuStreamSynchronize"@,
        ],
        GpuLibrary::NvEnc => seq!["NvEncodeAPICreateInstance"@],
        GpuLibrary::Va => seq![
            "vaInitialize"@,
            "vaTerminate"@,
            "vaQueryConfigEntrypoints"@,
            "vaCreateConfig"@,
            "vaDestroyConfig"@,
            "vaCreateContext"@,
            "vaDestroyContext"@,
            "vaCreateSurfaces"@,
            "vaDestroySurfaces"@,
            "vaCreateBuffer"@,
            "vaDestroyBuffer"@,
            "vaMapBuffer"@,
            "vaUnmapBuffer"@,
            "vaDeriveImage"@,
            "vaDestroyImage"@,
            "vaBeginPicture"@,
            "vaRenderPicture"@,
            "vaEndPicture"@,
            "vaSyncSurface"@,
            "vaExportSurfaceHandle"@,
        ],
        GpuLibrary::VaDrm => seq!["vaGetDisplayDRM"@],
    }
}

pub fn required_symbols(lib: GpuLibrary) -> (out: Vec<&'static str>)
    ensures
        words(out@) == required_of(lib),
{
    let mut out: Vec<&'static str> = Vec::new();
    match lib {
        GpuLibrary::Cuda => {
            out.push("cuInit");
            out.push("cuDeviceGet");
            out.push("cuCtxCreate_v2");
            out.push("cuCtxDestroy_v2");
            out.push("cuCtxPushCurrent_v2");
            out.push("cuCtxPopCurrent_v2");
            out.push("cuMemAlloc_v2");
            out.push("cuMemFree_v2");
            out.push("cuMemcpyHtoD_v2");
            out.push("cuMemAllocHost_v2");
            out.push("cuMemFreeHost");
            out.push("cuMemAllocPitch_v2");
            out.push("cuStreamSynchronize");
        },
        GpuLibrary::NvEnc => {
            out.push("NvEncodeAPICreateInstance");
        },
        GpuLibrary::Va => {
            out.push("vaInitialize");
            out.push("vaTerminate");
            out.push("vaQueryConfigEntrypoints");
            out.push("vaCreateConfig");
            out.push("vaDestroyConfig");
            out.push("vaCreateContext");
            out.push("vaDestroyContext");
            out.push("vaCreateSurfaces");
            out.push("vaDestroySurfaces");
            out.push("vaCreateBuffer");
            out.push("vaDestroyBuffer");
            out.push("vaMapBuffer");
            out.push("vaUnmapBuffer");
            out.push("vaDeriveImage");
            out.push("vaDestroyImage");
            out.push("vaBeginPicture");
            out.push("vaRenderPicture");
            out.push("vaEndPicture");
            out.push("vaSyncSurface");
            out.push("vaExportSurfaceHandle");
        },
        GpuLibrary::VaDrm => {
            out.push("vaGetDisplayDRM");
        },
    }
    proof {
        assert(words(out@) =~= required_of(lib));
    }
    out
}

/// The functions that a library may lack; they came with later drivers.
pub open spec fn optional_of(lib: GpuLibrary) -> Seq<Seq<char>> {
    match lib {
        GpuLibrary::Cuda => seq![
            "cuImportExternalMemory"@,
            "cuExternalMemoryGetMappedBuffer"@,
            "cuDestroyExternalMemory"@,
        ],
        _ => Seq::empty(),
    }
}

pub fn optional_symbols(lib: GpuLibrary) -> (out: Vec<&'static str>)
    ensures
        words(out@) == optional_of(lib),
{
    let mut out: Vec<&'static str> = Vec::new();
    match lib {
        GpuLibrary::Cuda => {
            out.push("cuImportExternalMemory");
            out.push("cuExternalMemoryGetMappedBuffer");
            out.push("cuDestroyExternalMemory");
        },
        _ => {},
    }
    proof {
        assert(words(out@) =~= optional_of(lib));
    }
    out
}

/// What came of looking for a library under one name.
pub enum Attempt {
    /// The name could not be looked for.
    Skipped,
    Loaded,
    /// It was not there; the system may say why.
    Missing(Option<String>),
}

/// What the system said last of the names that were not there.
pub open spec fn last_reason(attempts: Seq<Attempt>) -> Seq<char>
    decreases attempts.len(),
{
    if attempts.len() == 0 {
        Seq::empty()
    } else {
        match attempts.last() {
            Attempt::Missing(Some(reason)) => reason@,
            _ => last_reason(attempts.drop_last()),
        }
    }
}

/// The first name under which a library was there, or what the system said last.
pub fn open_result(attempts: &Vec<Attempt>) -> (r: Result<usize, String>)
    ensures
        match r {
            Ok(i) => i < attempts@.len() && attempts@[i as int] is Loaded && forall|j: int|
                0 <= j < i ==> !((#[trigger] attempts@[j]) is Loaded),
            Err(reason) => reason@ == last_reason(attempts@) && forall|j: int|
                0 <= j < attempts@.len() ==> !((#[trigger] attempts@[j]) is Loaded),
        },
{
    let mut reason: String = "".to_owned();
    let mut i: usize = 0;
    let ghost all = attempts@;
    proof {
        reveal_strlit("");
        assert(all.take(0) =~= Seq::empty());
        assert(reason@ =~= Seq::<char>::empty());
    }
    while i < attempts.len()
        invariant
            i <= all.len(),
            all == attempts@,
            reason@ == last_reason(all.take(i as int)),
            forall|j: int| 0 <= j < i ==> !((#[trigger] attempts@[j]) is Loaded),
        decreases all.len() - i,
    {
        proof {
            assert(all.take(i + 1).drop_last() =~= all.take(i as int));
            assert(all.take(i + 1).last() == all[i as int]);
        }
        match &attempts[i] {
            Attempt::Loaded => {
                return Ok(i);
            },
            Attempt::Missing(Some(text)) => {
                reason = text.as_str().to_owned();
            },
            _ => {},
        }
        i = i + 1;
    }
    proof {
        assert(all.take(all.len() as int) =~= all);
    }
    Err(reason)
}

/// Why a function could not be found.
pub open spec fn symbol_reason(name: Seq<char>, detail: Option<Seq<char>>) -> Seq<char> {
    name + ": "@ + (match detail {
        Some(d) => d,
        None => "symbol not found"@,
    })
}

pub fn symbol_error(name: &str, detail: &Option<String>) -> (t: String)
    ensures
        t@ == symbol_reason(
            name@,
            match *detail {
                Some(d) => Some(d@),
                None => None,
            },
        ),
{
    match detail {
        Some(d) => concat3(name, ": ", d.as_str()),
        None => concat3(name, ": ", "symbol not found"),
    }
}

/// Whether a library can be used: it can if no function that it must have is
/// missing; otherwise the first that is tells why.
pub fn load_result(missing: Vec<Option<String>>) -> (r: Result<(), String>)
    ensures
        match r {
            Ok(_) => forall|j: int| 0 <= j < missing@.len() ==> (#[trigger] missing@[j]) is None,
            Err(reason) => exists|i: int|
                0 <= i < missing@.len() && (#[trigger] missing@[i]) is Some && missing@[i]->0@
                    == reason@ && forall|j: int|
                    0 <= j < i ==> (#[trigger] missing@[j]) is None,
        },
{
    let mut i: usize = 0;
    while i < missing.len()
        invariant
            i <= missing@.len(),
            forall|j: int| 0 <= j < i ==> (#[trigger] missing@[j]) is None,
        decreases missing@.len() - i,
    {
        match &missing[i] {
            Some(reason) => {
                let r = reason.as_str().to_owned();
                proof {
                    assert(missing@[i as int] is Some);
                }
                return Err(r);
            },
            None => {},
        }
        i = i + 1;
    }
    Ok(())
}

} // verus!
