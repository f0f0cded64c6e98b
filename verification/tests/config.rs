use turbo_serving::config::{names, Args, Device, ModelConfig, DEFAULT_MAX_MESSAGE_BYTES, USAGE};

fn args(s: &str) -> Result<Args, String> {
    let addresses = vec!["127.0.0.1:0".to_string(), "[::1]:8001".to_string()];
    Args::parse(&s.split_whitespace().map(String::from).collect(), &addresses)
}

#[test]
fn a_model() {
    let a = args("--listen 127.0.0.1:0 --model bundle=/b/tiny,device=0,sessions=2").unwrap();
    assert_eq!(a.max_message_bytes, 64 * 1024 * 1024);
    let b = args("--listen 127.0.0.1:0 --max-message-bytes 1024 --model bundle=/b/tiny,device=0,sessions=2");
    assert_eq!(b.unwrap().max_message_bytes, 1024);
    assert_eq!(
        a.models,
        [ModelConfig {
            bundle: "/b/tiny".into(),
            device: Device::Index(0),
            precision: 0,
            max_batch: 0,
            max_seq: 0,
            sessions: 2
        }]
    );
    let a = args(
        "--listen=[::1]:8001 --model=bundle=x,device=select,sessions=1,precision=PRECISION_EXACT,max_batch=8,max_seq=128",
    )
    .unwrap();
    let m = &a.models[0];
    assert_eq!((m.device, m.precision, m.max_batch, m.max_seq), (Device::Select, 2, 8, 128));
    assert_eq!(m.name(), Some("x"));
    assert_eq!(a.listen, "[::1]:8001");
}

#[test]
fn config_refusals() {
    for bad in [
        "--model bundle=x,device=0,sessions=1",
        "--listen 127.0.0.1:0",
        "--listen 127.0.0.1:0 --model bundle=x,device=0",
        "--listen 127.0.0.1:0 --model bundle=x,sessions=1",
        "--listen 127.0.0.1:0 --model device=0,sessions=1",
        "--listen 127.0.0.1:0 --model bundle=x,device=0,sessions=0",
        "--listen 127.0.0.1:0 --model bundle=x,device=cpu,sessions=1",
        "--listen 127.0.0.1:0 --model bundle=x,device=0,sessions=1,precision=TURBO_PRECISION_EXACT",
        "--listen 127.0.0.1:0 --model bundle=x,device=0,sessions=1,precision=precision_exact",
        "--listen 127.0.0.1:0 --model bundle=x,device=0,sessions=1,max_batch=-1",
        "--listen 127.0.0.1:0 --model bundle=x,device=0,sessions=1,sessions=2",
        "--listen 127.0.0.1:0 --model bundle=x,device=0,sessions=1,colour=red",
        "--listen 127.0.0.1:0 --model bundle=a/x,device=0,sessions=1 --model bundle=b/x,device=0,sessions=1",
        "--listen 127.0.0.1:0 --model bundle=a/x/,device=0,sessions=1",
        "--listen 127.0.0.1:0 --model bundle=a/.,device=0,sessions=1",
        "--listen 127.0.0.1:0 --model bundle=..,device=0,sessions=1",
        "--listen nowhere --model bundle=x,device=0,sessions=1",
        "--listen 127.0.0.1:0 --model bundle=x,device=0,sessions=1 --max-message-bytes -1",
        "--listen 127.0.0.1:0 --model bundle=x,device=0,sessions=1 --max-message-bytes 64MiB",
        "--listen 127.0.0.1:0 --model bundle=x,device=0,sessions=1 --max-message-bytes 1 --max-message-bytes 2",
    ] {
        assert!(args(bad).is_err(), "{bad}");
    }
}

#[test]
fn the_name_is_the_last_component_as_spelled() {
    let m = |b: &str| ModelConfig { bundle: b.into(), ..ModelConfig::parse("bundle=x,device=0,sessions=1").unwrap() };
    assert_eq!(m("testdata/Tiny-Bert").name(), Some("Tiny-Bert"));
    assert_eq!(m("tiny").name(), Some("tiny"));
    assert_eq!(m("/a/b/").name(), None);
    assert_eq!(m("").name(), None);
    assert_eq!(m("a/..").name(), None);
}

#[test]
fn each_refusal_says_what_is_wrong() {
    let model = |s: &str| ModelConfig::parse(s).unwrap_err();
    assert_eq!(model("bundle"), "--model bundle: `bundle` is not key=value");
    assert_eq!(model("device=x"), "device x: not a number from 0 to 4294967295");
    assert_eq!(model("precision=p"), "precision p: not PRECISION_MODEL, PRECISION_FASTEST or PRECISION_EXACT");
    assert_eq!(model("bundle=a,bundle=b"), "--model bundle=a,bundle=b: `bundle` given twice");
    assert_eq!(model("device=1"), "--model device=1: sessions is required");
    assert_eq!(model("sessions=0"), "--model sessions=0: sessions must be at least 1");
    assert_eq!(model("sessions=1"), "--model sessions=1: bundle is required");
    assert_eq!(model("sessions=1,bundle=b"), "--model sessions=1,bundle=b: device is required");
    assert_eq!(args("--listen").unwrap_err(), "--listen needs a value");
    assert_eq!(args("-x").unwrap_err(), "unknown argument -x");
    assert_eq!(args("--listen nowhere").unwrap_err(), "--listen nowhere: not ADDR:PORT");
    assert_eq!(args("").unwrap_err(), "--listen is required");
    assert_eq!(args("--max-message-bytes x").unwrap_err(), "--max-message-bytes x: not a byte count");
    assert!(USAGE.starts_with("usage: turbo-kserve --listen ADDR:PORT"));
    assert_eq!(DEFAULT_MAX_MESSAGE_BYTES, 64 << 20);
}

#[test]
fn served_names_are_kept_in_order_and_apart() {
    let m = |b: &str| ModelConfig::parse(&format!("bundle={b},device=0,sessions=1")).unwrap();
    assert_eq!(names(&vec![m("a/x"), m("b/y")]).unwrap(), ["x", "y"]);
    assert_eq!(names(&vec![m("a/x"), m("b/x")]).unwrap_err(), "bundle b/x: a model named x is already served");
    assert_eq!(names(&vec![m("a/")]).unwrap_err(), "bundle a/: the path names no bundle");
}

#[test]
fn settings_stand_in_any_order() {
    let a = ModelConfig::parse("bundle=b,device=select,sessions=2,max_seq=9").unwrap();
    assert_eq!(ModelConfig::parse("max_seq=9,sessions=2,bundle=b,device=select").unwrap(), a);
    assert!(ModelConfig::parse("sessions=2,bundle=b,max_seq=9,bundle=b,device=select").is_err());
}
