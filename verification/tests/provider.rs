use turbo_serving::cuda::{
    alloc_place, can_run, check_copy, check_destination, device_index, device_name, export, import, is_library, offers_of, version_string, DeviceProps,
    CudaStatus, DeviceMem, HandleKind, Imported, PinnedMem, CUDA_PROVIDER_ID,
};
use turbo_serving::error::Class;
use turbo_serving::preload::{unknown_option, DirEntry, Preload};
use turbo_serving::provider::{
    cuda_capability, cuda_device, enumerate, ggml_capability, ggml_device, static_capability, static_device, CapStatus, GgmlDevice,
    RegisteredDevice, COSINE_FLOOR,
};
use turbo_serving::types::{DType, DeviceKind, ModelKind, Placement, Task};

fn props(integrated: bool) -> DeviceProps {
    DeviceProps {
        index: 0,
        name: "NVIDIA GeForce RTX 4080 SUPER".into(),
        total_mem: 16,
        free_mem: 8,
        major: 8,
        minor: 9,
        runtime_version: 13020,
        driver_version: 13030,
        integrated,
    }
}

#[test]
fn cuda_devices_are_nvidia_gpus_with_memory_and_the_declared_capability_bits() {
    let d = cuda_device(&props(false), 8, 0x3f, "1.23");
    assert_eq!((d.kind, d.vendor.as_str(), d.vendor_id), (DeviceKind::Gpu, "NVIDIA", 0x10DE));
    assert_eq!(d.provider_id, CUDA_PROVIDER_ID);
    assert_eq!((d.memory_total, d.memory_free, d.caps), (16, 8, 0x3f));
    assert!(d.memory_total > 0 && d.memory_free > 0 && d.memory_free <= d.memory_total);
    assert!(!d.runtime_version.is_empty() && !d.driver_version.is_empty());
    assert_eq!(d.name, "NVIDIA GeForce RTX 4080 SUPER (sm_89)");
    assert_eq!(d.runtime_version, "onnxruntime 1.23 / cudart 13.2");
    assert_eq!(d.driver_version, "13.3");
    assert_eq!(version_string(12060), "12.6");
    assert_eq!(device_name(&props(true)), "NVIDIA GeForce RTX 4080 SUPER (sm_89)");
}

#[test]
fn cuda_capability_cells_follow_the_receipts() {
    let tasks = [
        Task::Embed,
        Task::Rerank,
        Task::Classify,
        Task::TokenClassify,
        Task::Generate,
        Task::Run,
    ];
    let offered = [Task::Embed, Task::Rerank, Task::Classify, Task::TokenClassify];
    for integrated in [false, true] {
        for task in tasks {
            for text in [false, true] {
                let cap = cuda_capability(&Some(props(integrated)), task, text);
                assert_eq!(cap.is_some(), text && offered.contains(&task), "{task:?} {text}");
                assert_eq!(offers_of(task, text), cap.is_some());
                let Some(cap) = cap else { continue };
                assert_eq!(cap.dtype, Some(DType::F32));
                assert_eq!(f32::from_bits(cap.max_abs_error), 0.0);
                if task == Task::Embed && !integrated {
                    assert_eq!(cap.status, CapStatus::Supported);
                    assert!(f32::from_bits(cap.cosine_floor) >= 0.999);
                    assert!(
                        cap.notes.contains("cuda-2026-09-21") && cap.notes.contains("compare-cuda-rtx4080-embed"),
                        "{}",
                        cap.notes
                    );
                } else {
                    assert_eq!(cap.status, CapStatus::Experimental);
                    assert_eq!(cap.cosine_floor, 0);
                    assert!(
                        cap.notes.contains("no matched-native benchmark") || cap.notes.contains("integrated GPU"),
                        "{}",
                        cap.notes
                    );
                }
            }
        }
    }
    assert!(cuda_capability(&None, Task::Embed, true).is_none());
    assert_eq!(f32::from_bits(COSINE_FLOOR), 0.999);
}

#[test]
fn other_providers_tell_their_devices() {
    let d = GgmlDevice {
        kind: DeviceKind::Cpu,
        name: "CPU".into(),
        description: "AMD".into(),
        memory_total: 4,
        memory_free: 2,
    };
    let i = ggml_device(&d, 3, 1);
    assert_eq!((i.name.as_str(), i.ordinal, i.vendor.as_str()), ("AMD (CPU)", 3, ""));
    assert_eq!(i.runtime_version, "llama.cpp (llama-cpp-2 0.1.156)");
    let c = ggml_capability(&Some(d), Task::Embed, true).unwrap();
    assert!(c.deterministic && c.max_abs_error == 0);
    assert_eq!(
        c.notes,
        "llama.cpp on CPU; pooling in the graph, L2 on the host, result in host memory; receipts pending"
    );
    assert!(ggml_capability(&None, Task::Embed, true).is_none());
    let s = static_device(7);
    assert_eq!((s.name.as_str(), s.vendor.as_str()), ("Static embedding table (host CPU)", "Pipestream"));
    assert!(static_capability(0, Task::Embed, true).unwrap().deterministic);
    assert!(static_capability(1, Task::Embed, true).is_none());
    assert!(static_capability(0, Task::Rerank, true).is_none());
}

#[test]
fn cuda_allocates_device_pinned_and_host_buffers_and_rejects_shared() {
    for p in [Placement::Device, Placement::Pinned, Placement::Host] {
        assert_eq!(alloc_place(p).unwrap(), p, "the buffer keeps the requested placement");
    }
    assert_eq!(alloc_place(Placement::Shared).unwrap_err().class, Class::UnsupportedPlacement);
    let fine = CudaStatus { code: 0, text: String::new() };
    let full = CudaStatus { code: 2, text: "out of memory".into() };
    let m = PinnedMem::new(64, &fine, 0x2000).unwrap();
    assert_eq!((m.ptr(), m.bytes()), (0x2000, 64));
    assert_eq!(PinnedMem::new(0, &full, 0x2000).unwrap_err().message, "zero-byte pinned allocation");
    assert_eq!(PinnedMem::new(64, &fine, 0).unwrap_err().class, Class::OutOfMemory);
    assert_eq!(
        PinnedMem::new(64, &full, 0).unwrap_err().message,
        "CUDA cudaHostAlloc(64 bytes): out of memory (code 2)"
    );
    let m = DeviceMem::new(64, &fine, &fine, 0x3000).unwrap();
    assert_eq!((m.ptr(), m.bytes()), (0x3000, 64));
    assert_eq!(DeviceMem::new(0, &fine, &fine, 1).unwrap_err().class, Class::InvalidShape);
    assert_eq!(
        DeviceMem::new(64, &full, &fine, 1).unwrap_err().message,
        "CUDA cudaSetDevice: out of memory (code 2)"
    );
    assert_eq!(
        DeviceMem::new(64, &fine, &full, 0).unwrap_err().message,
        "CUDA cudaMalloc(64 bytes): out of memory (code 2)"
    );
    assert_eq!(DeviceMem::new(64, &fine, &fine, 0).unwrap_err().message, "cudaMalloc returned NULL");
}

#[test]
fn cuda_device_buffers_export_a_cuda_pointer_and_pinned_buffers_a_host_pointer() {
    assert!(export(true, HandleKind::CudaPtr, "CudaPtr").is_ok());
    assert!(export(false, HandleKind::HostPtr, "HostPtr").is_ok());
    assert_eq!(export(true, HandleKind::HostPtr, "HostPtr").unwrap_err().class, Class::Unsupported);
    assert_eq!(export(true, HandleKind::Other, "Fd").unwrap_err().class, Class::Unsupported);
    assert_eq!(export(false, HandleKind::CudaPtr, "CudaPtr").unwrap_err().class, Class::Unsupported);
    assert_eq!(export(false, HandleKind::Other, "Fd").unwrap_err().class, Class::Unsupported);
}

#[test]
fn cuda_reads_back_an_imported_device_pointer_it_did_not_allocate() {
    let r = import(HandleKind::CudaPtr, "CudaPtr", Placement::Device, 0x1000, 0, 0, 0).unwrap();
    assert!(matches!(r, Imported::Device));
    let e = import(HandleKind::CudaPtr, "CudaPtr", Placement::Device, 0x1000, 7, 0, 0).map(|_| ()).unwrap_err();
    assert_eq!(e.class, Class::InvalidArgument);
    let e = import(HandleKind::CudaPtr, "CudaPtr", Placement::Device, 0, 0, 0, 0).map(|_| ()).unwrap_err();
    assert_eq!(e.class, Class::InvalidArgument);
    assert!(check_destination(384, 384).is_ok());
    assert_eq!(
        check_destination(383, 384).unwrap_err().message,
        "destination is 383 bytes but the buffer holds 384"
    );
    assert!(check_copy(384, 384).is_ok());
    assert!(check_copy(385, 384).is_err());
}

#[test]
fn cuda_context_rejects_an_unknown_option_naming_its_one_based_field_index() {
    let names = |v: &[&str]| v.iter().map(|s| s.to_string()).collect::<Vec<_>>();
    let known = names(&["cuda_lib_dir"]);
    assert_eq!(unknown_option(&names(&["not_a_cuda_option"]), &known), Some(1));
    assert_eq!(unknown_option(&names(&["cuda_lib_dir", "still_not_an_option"]), &known), Some(2));
    assert_eq!(unknown_option(&known, &known), None);
}

fn entry(name: &str, is_file: bool) -> DirEntry {
    DirEntry { name: name.into(), is_file }
}

#[test]
fn cuda_lib_dir_without_libraries_is_device_unavailable_not_a_cpu_fallback() {
    let e = Preload::start("/tmp/empty", &vec![entry("readme.txt", true)]).unwrap_err();
    assert_eq!(e.class, Class::DeviceUnavailable);
    assert_eq!(e.message, "cuda_lib_dir `/tmp/empty` holds no shared libraries");
}

#[test]
fn libraries_load_in_passes_until_every_one_is_in() {
    let files = vec![
        entry("libcudnn.so.9", true),
        entry("libcublas.so", true),
        entry("libdir.so", false),
        entry("notes.so", true),
    ];
    let mut p = Preload::start("/opt/cuda", &files).unwrap();
    assert_eq!(p.pending, ["libcublas.so", "libcudnn.so.9"]);
    // The first needs the second: it loads in the next pass.
    assert!(!p.pass(&vec![Some("needs libcudnn".into()), None]).unwrap());
    assert_eq!(p.pending, ["libcublas.so"]);
    assert!(p.pass(&vec![None]).unwrap());
    assert!(p.pending.is_empty());
    let mut p = Preload::start("/opt/cuda/", &files).unwrap();
    let e = p.pass(&vec![Some("a".into()), Some("b".into())]).unwrap_err();
    assert_eq!(
        e.message,
        "could not preload CUDA libraries from `/opt/cuda/`: /opt/cuda/libcublas.so: a; /opt/cuda/libcudnn.so.9: b"
    );
}

#[test]
fn what_cuda_runs() {
    assert_eq!(device_index(1, 1).unwrap_err().message, "cuda provider has 1 device(s); ordinal 1 does not exist");
    assert!(can_run(Task::Embed, true, "Text", true, "m", "wordpiece", ModelKind::Embedding).is_ok());
    assert!(can_run(Task::Generate, true, "Text", true, "m", "wordpiece", ModelKind::Embedding).is_err());
    assert!(can_run(Task::Embed, true, "Text", false, "m", "wordpiece", ModelKind::Embedding).is_err());
    assert!(is_library("libcudart.so.13"));
    assert!(!is_library("readme.txt"));
}

#[test]
fn ggml_lists_the_devices_of_its_registry() {
    let dev = |kind| {
        Some(RegisteredDevice {
            kind,
            name: "CPU".into(),
            description: "AMD".into(),
            memory_total: 4,
            memory_free: 2,
        })
    };
    let v = enumerate(&vec![dev(Ok(DeviceKind::Cpu)), dev(Ok(DeviceKind::IGpu))]).unwrap();
    assert_eq!((v.len(), v[1].kind, v[1].description.as_str()), (2, DeviceKind::IGpu, "AMD"));
    assert_eq!(enumerate(&vec![]).unwrap_err().message, "ggml registered no backend devices");
    assert_eq!(enumerate(&vec![dev(Ok(DeviceKind::Cpu)), None]).unwrap_err().message, "ggml device 1 is NULL");
    assert_eq!(enumerate(&vec![dev(Err(9))]).unwrap_err().message, "ggml device 0 has unknown type 9");
}
