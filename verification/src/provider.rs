//! What the providers tell of their devices and of what these can do.

use vstd::prelude::*;
use crate::convert::{unsigned32, unsigned32_of};
use crate::cuda::{device_name, version_string, version_text, DeviceProps, CUDA_PROVIDER_ID, NVIDIA_VENDOR_ID};
use crate::error::{plain, Class, Error, ErrorView};
use crate::ggml::{deterministic, llama_cpp_2_version, GGML_PROVIDER_ID};
use crate::static_table::{tokenizers_version, STATIC_PROVIDER_ID};
use crate::text::{cat2, cat3, cat4, decimal, decimal_of, signed_decimal};
use crate::types::{DType, DeviceKind, Task};

verus! {

/// The providers' version.
pub const VERSION: &'static str = "2.0.0-alpha.0";

/// A device that a provider offers.
#[derive(Debug)]
pub struct DeviceInfo {
    pub kind: DeviceKind,
    pub ordinal: u32,
    pub vendor_id: u32,
    /// The capability bits of the interface.
    pub caps: u64,
    pub memory_total: u64,
    pub memory_free: u64,
    pub name: String,
    pub vendor: String,
    pub provider_id: String,
    pub provider_version: String,
    pub runtime_version: String,
    pub driver_version: String,
}

/// A CUDA device.
pub fn cuda_device(p: &DeviceProps, free: u64, caps: u64, onnxruntime: &str) -> (r: DeviceInfo)
    ensures
        r.kind == DeviceKind::Gpu,
        r.ordinal == unsigned32(p.index),
        r.vendor_id == NVIDIA_VENDOR_ID,
        r.caps == caps,
        r.memory_total == p.total_mem,
        r.memory_free == free,
        r.name@ == p.name@ + " (sm_"@ + signed_decimal(p.major as int) + signed_decimal(
            p.minor as int,
        ) + ")"@,
        r.vendor@ == "NVIDIA"@,
        r.provider_id@ == CUDA_PROVIDER_ID@,
        r.provider_version@ == VERSION@,
        r.runtime_version@ == "onnxruntime "@ + onnxruntime@ + " / cudart "@ + version_text(
            p.runtime_version as int,
        ),
        r.driver_version@ == version_text(p.driver_version as int),
{
    DeviceInfo {
        kind: DeviceKind::Gpu,
        ordinal: unsigned32_of(p.index),
        vendor_id: NVIDIA_VENDOR_ID,
        caps,
        memory_total: p.total_mem,
        memory_free: free,
        name: device_name(p),
        vendor: "NVIDIA".to_owned(),
        provider_id: CUDA_PROVIDER_ID.to_owned(),
        provider_version: VERSION.to_owned(),
        runtime_version: cat4(
            "onnxruntime ",
            onnxruntime,
            " / cudart ",
            version_string(p.runtime_version).as_str(),
        ),
        driver_version: version_string(p.driver_version),
    }
}

/// A device in ggml's list.
#[derive(Debug)]
pub struct GgmlDevice {
    pub kind: DeviceKind,
    pub name: String,
    pub description: String,
    pub memory_total: u64,
    pub memory_free: u64,
}

/// A device of ggml's registry: its type, or the number of one that is not known.
#[derive(Debug)]
pub struct RegisteredDevice {
    pub kind: Result<DeviceKind, u32>,
    pub name: String,
    pub description: String,
    pub memory_total: u64,
    pub memory_free: u64,
}

/// The refusal of the first device of the registry, from place `i` on, that is not
/// there or of no known type.
pub open spec fn registry_fault(v: Seq<Option<RegisteredDevice>>, i: int) -> Option<ErrorView>
    decreases v.len() - i,
{
    if i < 0 || i >= v.len() {
        None
    } else {
        match v[i] {
            None => Some(plain(Class::Internal, "ggml device "@ + decimal(i as nat) + " is NULL"@)),
            Some(d) => match d.kind {
                Err(other) => Some(
                    plain(
                        Class::Internal,
                        "ggml device "@ + decimal(i as nat) + " has unknown type "@ + decimal(
                            other as nat,
                        ),
                    ),
                ),
                Ok(_) => registry_fault(v, i + 1),
            },
        }
    }
}

/// Whether a device is the one of the registry.
pub open spec fn is_registered(d: GgmlDevice, r: RegisteredDevice) -> bool {
    &&& r.kind == Ok::<DeviceKind, u32>(d.kind)
    &&& d.name@ == r.name@
    &&& d.description@ == r.description@
    &&& d.memory_total == r.memory_total
    &&& d.memory_free == r.memory_free
}

/// The devices of ggml's registry, in its order.
pub fn enumerate(registry: &Vec<Option<RegisteredDevice>>) -> (r: Result<Vec<GgmlDevice>, Error>)
    ensures
        match registry_fault(registry@, 0) {
            Some(e) => r is Err && r->Err_0@ == e,
            None => if registry.len() == 0 {
                r is Err && r->Err_0@ == plain(
                    Class::DeviceNotFound,
                    "ggml registered no backend devices"@,
                )
            } else {
                &&& r is Ok
                &&& r->Ok_0.len() == registry.len()
                &&& forall|i: int|
                    0 <= i < registry.len() ==> is_registered(
                        #[trigger] r->Ok_0@[i],
                        registry@[i]->Some_0,
                    )
            },
        },
{
    let mut out: Vec<GgmlDevice> = Vec::new();
    let mut i: usize = 0;
    while i < registry.len()
        invariant
            i <= registry.len(),
            out.len() == i,
            registry_fault(registry@, i as int) == registry_fault(registry@, 0),
            forall|k: int| 0 <= k < i ==> is_registered(#[trigger] out@[k], registry@[k]->Some_0),
        decreases registry.len() - i,
    {
        let d = match &registry[i] {
            None => return Err(
                Error::plain(
                    Class::Internal,
                    cat3("ggml device ", decimal_of(i as u128).as_str(), " is NULL"),
                ),
            ),
            Some(d) => d,
        };
        let kind = match d.kind {
            Err(other) => return Err(
                Error::plain(
                    Class::Internal,
                    cat4(
                        "ggml device ",
                        decimal_of(i as u128).as_str(),
                        " has unknown type ",
                        decimal_of(other as u128).as_str(),
                    ),
                ),
            ),
            Ok(k) => k,
        };
        out.push(
            GgmlDevice {
                kind,
                name: d.name.clone(),
                description: d.description.clone(),
                memory_total: d.memory_total,
                memory_free: d.memory_free,
            },
        );
        i = i + 1;
    }
    if out.len() == 0 {
        return Err(Error::say(Class::DeviceNotFound, "ggml registered no backend devices"));
    }
    Ok(out)
}

/// A ggml device at place `ordinal` of the list.
pub fn ggml_device(d: &GgmlDevice, ordinal: u32, caps: u64) -> (r: DeviceInfo)
    ensures
        r.kind == d.kind,
        r.ordinal == ordinal,
        r.vendor_id == 0,
        r.caps == caps,
        r.memory_total == d.memory_total,
        r.memory_free == d.memory_free,
        r.name@ == d.description@ + " ("@ + d.name@ + ")"@,
        r.vendor@ == ""@,
        r.provider_id@ == GGML_PROVIDER_ID@,
        r.provider_version@ == VERSION@,
        r.runtime_version@ == "llama.cpp (llama-cpp-2 "@ + "0.1.156"@ + ")"@,
        r.driver_version@ == ""@,
{
    DeviceInfo {
        kind: d.kind,
        ordinal,
        vendor_id: 0,
        caps,
        memory_total: d.memory_total,
        memory_free: d.memory_free,
        name: cat4(d.description.as_str(), " (", d.name.as_str(), ")"),
        vendor: "".to_owned(),
        provider_id: GGML_PROVIDER_ID.to_owned(),
        provider_version: VERSION.to_owned(),
        runtime_version: cat3("llama.cpp (llama-cpp-2 ", llama_cpp_2_version(), ")"),
        driver_version: "".to_owned(),
    }
}

/// The one device of the static provider.
pub fn static_device(caps: u64) -> (r: DeviceInfo)
    ensures
        r.kind == DeviceKind::Cpu,
        r.ordinal == 0,
        r.vendor_id == 0,
        r.caps == caps,
        r.memory_total == 0,
        r.memory_free == 0,
        r.name@ == "Static embedding table (host CPU)"@,
        r.vendor@ == "Pipestream"@,
        r.provider_id@ == STATIC_PROVIDER_ID@,
        r.provider_version@ == VERSION@,
        r.runtime_version@ == "tokenizers "@ + "0.23"@,
        r.driver_version@ == ""@,
{
    DeviceInfo {
        kind: DeviceKind::Cpu,
        ordinal: 0,
        vendor_id: 0,
        caps,
        memory_total: 0,
        memory_free: 0,
        name: "Static embedding table (host CPU)".to_owned(),
        vendor: "Pipestream".to_owned(),
        provider_id: STATIC_PROVIDER_ID.to_owned(),
        provider_version: VERSION.to_owned(),
        runtime_version: cat2("tokenizers ", tokenizers_version()),
        driver_version: "".to_owned(),
    }
}

/// How well a device does a task.
#[derive(Clone, Copy, Debug, PartialEq, Eq, Structural)]
pub enum CapStatus {
    /// It runs, without a benchmark to stand on.
    Experimental,
    /// It runs, and benchmarks say how well.
    Supported,
}

/// 0.999 as the bits of a single-precision number.
pub const COSINE_FLOOR: u32 = 0x3f7f_be77;

/// What a device can do for a task.
#[derive(Debug)]
pub struct Capability {
    pub status: CapStatus,
    /// The bits of the cosine that vectors keep with their reference; 0 where no
    /// benchmark says so.
    pub cosine_floor: u32,
    /// The bits of the largest absolute error that is allowed; 0 where none is stated.
    pub max_abs_error: u32,
    pub dtype: Option<DType>,
    pub reference_dtype: Option<DType>,
    /// Whether repeated runs give the same bits.
    pub deterministic: bool,
    pub notes: String,
}

/// What is said of a CUDA device and a task: which receipts a benchmarked task
/// stands on, or why another does not.
pub open spec fn cuda_notes(name: Seq<char>, integrated: bool, task: Task) -> Seq<char> {
    "onnxruntime CUDA EP on "@ + name + " with device-side pooling and activation kernels; "@ + (
    if task != Task::Embed {
        "no matched-native benchmark"@
    } else if integrated {
        "integrated GPU: its matched-native benchmark is under the line"@
    } else {
        "precision receipt cuda-2026-09-21, benchmark receipt compare-cuda-rtx4080-embed"@
    })
}

/// Whether `r` is what is told of a CUDA device and a task.
pub open spec fn cuda_tells(
    device: Option<DeviceProps>,
    task: Task,
    text: bool,
    r: Option<Capability>,
) -> bool {
    match device {
        Some(p) => if crate::cuda::offers(task, text) {
            &&& r is Some
            &&& r->0.status == (if task == Task::Embed && !p.integrated {
                CapStatus::Supported
            } else {
                CapStatus::Experimental
            })
            &&& r->0.cosine_floor == (if task == Task::Embed && !p.integrated {
                COSINE_FLOOR
            } else {
                0
            })
            &&& r->0.max_abs_error == 0
            &&& r->0.dtype == Some(DType::F32)
            &&& r->0.reference_dtype == Some(DType::F32)
            &&& !r->0.deterministic
            &&& r->0.notes@ == cuda_notes(p.name@, p.integrated, task)
        } else {
            r is None
        },
        None => r is None,
    }
}

/// What a CUDA device can do for a task; nothing where there is no such device or
/// the provider does not offer the task. Embedding is benchmarked on discrete
/// devices alone.
pub fn cuda_capability(device: &Option<DeviceProps>, task: Task, text: bool) -> (r: Option<Capability>)
    ensures
        cuda_tells(*device, task, text, r),
{
    let p = match device {
        Some(p) => p,
        None => return None,
    };
    if !crate::cuda::offers_of(task, text) {
        return None;
    }
    let supported = task == Task::Embed && !p.integrated;
    let why: &str = if task != Task::Embed {
        "no matched-native benchmark"
    } else if p.integrated {
        "integrated GPU: its matched-native benchmark is under the line"
    } else {
        "precision receipt cuda-2026-09-21, benchmark receipt compare-cuda-rtx4080-embed"
    };
    let cosine_floor: u32 = if supported {
        COSINE_FLOOR
    } else {
        0
    };
    Some(
        Capability {
            status: if supported {
                CapStatus::Supported
            } else {
                CapStatus::Experimental
            },
            cosine_floor,
            max_abs_error: 0,
            dtype: Some(DType::F32),
            reference_dtype: Some(DType::F32),
            deterministic: false,
            notes: cat4(
                "onnxruntime CUDA EP on ",
                p.name.as_str(),
                " with device-side pooling and activation kernels; ",
                why,
            ),
        },
    )
}

/// Whether `r` is what is told of a ggml device and a task.
pub open spec fn ggml_tells(
    device: Option<GgmlDevice>,
    task: Task,
    text: bool,
    r: Option<Capability>,
) -> bool {
    match device {
        Some(d) => if crate::ggml::offers(task, text) {
            &&& r is Some
            &&& r->0.status == CapStatus::Experimental
            &&& r->0.cosine_floor == 0
            &&& r->0.max_abs_error == 0
            &&& r->0.dtype is None
            &&& r->0.reference_dtype is None
            &&& r->0.deterministic == (d.kind == DeviceKind::Cpu && task == Task::Embed)
            &&& r->0.notes@ == "llama.cpp on "@ + d.name@ + (if task == Task::Embed {
                "; pooling in the graph, L2 on the host, result in host memory; receipts pending"@
            } else {
                "; GGUF quantization decides the compute dtype; receipts pending"@
            })
        } else {
            r is None
        },
        None => r is None,
    }
}

/// What a ggml device can do for a task. Embeddings are reproducible on the CPU;
/// a generation draws a seed where none is given, so it never claims to be.
pub fn ggml_capability(device: &Option<GgmlDevice>, task: Task, text: bool) -> (r: Option<Capability>)
    ensures
        ggml_tells(*device, task, text, r),
{
    let d = match device {
        Some(d) => d,
        None => return None,
    };
    if !(text && (task == Task::Generate || task == Task::Embed)) {
        return None;
    }
    Some(
        Capability {
            status: CapStatus::Experimental,
            cosine_floor: 0,
            max_abs_error: 0,
            dtype: None,
            reference_dtype: None,
            deterministic: deterministic(d.kind, task),
            notes: cat3(
                "llama.cpp on ",
                d.name.as_str(),
                if task == Task::Embed {
                    "; pooling in the graph, L2 on the host, result in host memory; receipts pending"
                } else {
                    "; GGUF quantization decides the compute dtype; receipts pending"
                },
            ),
        },
    )
}

/// Whether `r` is what is told of the static provider's device and a task.
pub open spec fn static_tells(ordinal: u32, task: Task, text: bool, r: Option<Capability>) -> bool {
    if crate::static_table::offers(ordinal, task, text) {
        &&& r is Some
        &&& r->0.status == CapStatus::Experimental
        &&& r->0.cosine_floor == 0
        &&& r->0.max_abs_error == 0
        &&& r->0.dtype == Some(DType::F32)
        &&& r->0.reference_dtype == Some(DType::F32)
        &&& r->0.deterministic
        &&& r->0.notes@
            == "static table: mean of token vectors, no context; precision receipt vs model2vec pending"@
    } else {
        r is None
    }
}

/// What the static provider's device can do for a task.
pub fn static_capability(ordinal: u32, task: Task, text: bool) -> (r: Option<Capability>)
    ensures
        static_tells(ordinal, task, text, r),
{
    if ordinal != 0 || task != Task::Embed || !text {
        return None;
    }
    Some(
        Capability {
            status: CapStatus::Experimental,
            cosine_floor: 0,
            max_abs_error: 0,
            dtype: Some(DType::F32),
            reference_dtype: Some(DType::F32),
            deterministic: true,
            notes:
                "static table: mean of token vectors, no context; precision receipt vs model2vec pending".to_owned(),
        },
    )
}

/// A registry is refused for its first device that is not there or of no known type:
/// where place `i` is the first such, its number and its fault are told. A registry
/// without one is not refused.
pub proof fn the_first_faulty_device_is_told(v: Seq<Option<RegisteredDevice>>, i: int)
    requires
        0 <= i <= v.len(),
        forall|k: int| 0 <= k < i ==> (#[trigger] v[k]) is Some && v[k]->0.kind is Ok,
    ensures
        i == v.len() ==> registry_fault(v, 0) is None,
        i < v.len() && v[i] is None ==> registry_fault(v, 0) == Some(
            plain(Class::Internal, "ggml device "@ + decimal(i as nat) + " is NULL"@),
        ),
        i < v.len() ==> (v[i] matches Some(d) ==> d.kind matches Err(t) ==> registry_fault(v, 0)
            == Some(
            plain(
                Class::Internal,
                "ggml device "@ + decimal(i as nat) + " has unknown type "@ + decimal(t as nat),
            ),
        )),
{
    sound_beginning(v, 0, i);
}

/// Devices that are there and of a known type are passed over.
proof fn sound_beginning(v: Seq<Option<RegisteredDevice>>, from: int, i: int)
    requires
        0 <= from <= i <= v.len(),
        forall|k: int| from <= k < i ==> (#[trigger] v[k]) is Some && v[k]->0.kind is Ok,
    ensures
        registry_fault(v, from) == registry_fault(v, i),
    decreases i - from,
{
    if from < i {
        assert(v[from] is Some && v[from]->0.kind is Ok);
        sound_beginning(v, from + 1, i);
    }
}

/// A CUDA device claims a cosine, 0.999, for embeddings on a discrete device alone,
/// and is supported for just that; it tells of a device that is there and of the
/// four tasks on text, in single precision, and never claims to repeat its bits.
pub proof fn only_benchmarked_tasks_are_supported(
    device: Option<DeviceProps>,
    task: Task,
    text: bool,
    r: Option<Capability>,
)
    requires
        cuda_tells(device, task, text, r),
    ensures
        r is Some <==> device is Some && text && task != Task::Generate && task != Task::Run,
        r matches Some(c) ==> {
            &&& c.status == CapStatus::Supported <==> task == Task::Embed && !device->0.integrated
            &&& c.cosine_floor != 0 <==> c.status == CapStatus::Supported
            &&& c.cosine_floor == 0 || c.cosine_floor == 0x3f7f_be77
            &&& c.max_abs_error == 0 && !c.deterministic
            &&& c.dtype == Some(DType::F32) && c.reference_dtype == Some(DType::F32)
        },
{
}

/// llama.cpp tells of texts that are embedded or generated, claims no cosine and no
/// type, and claims to repeat its bits for embeddings on the CPU alone.
pub proof fn only_cpu_embeddings_repeat(
    device: Option<GgmlDevice>,
    task: Task,
    text: bool,
    r: Option<Capability>,
)
    requires
        ggml_tells(device, task, text, r),
    ensures
        r is Some <==> device is Some && text && (task == Task::Embed || task == Task::Generate),
        r matches Some(c) ==> {
            &&& c.deterministic <==> task == Task::Embed && device->0.kind == DeviceKind::Cpu
            &&& c.status == CapStatus::Experimental
            &&& c.cosine_floor == 0 && c.max_abs_error == 0
            &&& c.dtype is None && c.reference_dtype is None
        },
{
}

/// The static provider tells of embedding texts on its one device, in single
/// precision, and claims to repeat its bits and no cosine.
pub proof fn a_table_embeds_texts(ordinal: u32, task: Task, text: bool, r: Option<Capability>)
    requires
        static_tells(ordinal, task, text, r),
    ensures
        r is Some <==> ordinal == 0 && text && task == Task::Embed,
        r matches Some(c) ==> {
            &&& c.deterministic && c.status == CapStatus::Experimental
            &&& c.cosine_floor == 0 && c.max_abs_error == 0
            &&& c.dtype == Some(DType::F32) && c.reference_dtype == Some(DType::F32)
        },
{
}

/// What is said of a CUDA device begins with its name, and ends in a receipt where
/// the task is benchmarked and in the reason where it is not.
pub proof fn notes_tell_what_a_task_stands_on(name: Seq<char>, integrated: bool, task: Task)
    ensures
        ({
            let head = "onnxruntime CUDA EP on "@ + name
                + " with device-side pooling and activation kernels; "@;
            &&& task == Task::Embed && !integrated ==> cuda_notes(name, integrated, task) == head
                + "precision receipt cuda-2026-09-21, benchmark receipt compare-cuda-rtx4080-embed"@
            &&& task == Task::Embed && integrated ==> cuda_notes(name, integrated, task) == head
                + "integrated GPU: its matched-native benchmark is under the line"@
            &&& task != Task::Embed ==> cuda_notes(name, integrated, task) == head
                + "no matched-native benchmark"@
        }),
{
}

} // verus!
