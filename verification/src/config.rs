//! The per-model configuration, from the command line: one `--model` per model,
//! `bundle=PATH,device=INDEX|select,sessions=N[,precision=P][,max_batch=N][,max_seq=N]`.

use vstd::prelude::*;
use vstd::string::StrSliceExecFns;
use crate::names::{precision_names, precision_table, value_in, value_of};
use crate::text::{
    cat2, cat3, cat4, cat5, chars_of, first_at, first_at_is_first, holds, last_at, parse_unsigned, same,
    split_of, split_on, split_once_of, starts, starts_with_of, unsigned_value, views,
};

verus! {

/// Where the model runs.
#[derive(Clone, Copy, Debug, PartialEq, Eq, Structural)]
pub enum Device {
    /// A runtime device index.
    Index(u32),
    /// The index that the runtime selects for embedding.
    Select,
}

/// One model's configuration.
#[derive(Clone, Debug, PartialEq, Eq)]
pub struct ModelConfig {
    pub bundle: String,
    pub device: Device,
    /// The sessions' precision, by its header value.
    pub precision: u32,
    /// The sessions' largest batch; 0 is the model's.
    pub max_batch: u32,
    /// The sessions' longest row; 0 is the model's.
    pub max_seq: u32,
    /// How many sessions are made; at least 1.
    pub sessions: u32,
}

/// A configuration with its texts as characters.
pub struct ConfigView {
    pub bundle: Seq<char>,
    pub device: Device,
    pub precision: u32,
    pub max_batch: u32,
    pub max_seq: u32,
    pub sessions: u32,
}

impl View for ModelConfig {
    type V = ConfigView;

    open spec fn view(&self) -> ConfigView {
        ConfigView {
            bundle: self.bundle@,
            device: self.device,
            precision: self.precision,
            max_batch: self.max_batch,
            max_seq: self.max_seq,
            sessions: self.sessions,
        }
    }
}

/// The last component of a path.
pub open spec fn last_component(path: Seq<char>) -> Seq<char> {
    path.skip(last_at(path, '/') + 1)
}

/// The name of the model at a path: its last component, if that names a bundle.
pub open spec fn model_name(path: Seq<char>) -> Option<Seq<char>> {
    let last = last_component(path);
    if last == ""@ || last == "."@ || last == ".."@ {
        None
    } else {
        Some(last)
    }
}

/// The settings read so far.
pub struct Settings {
    pub bundle: Option<Seq<char>>,
    pub device: Option<Device>,
    pub precision: Option<u32>,
    pub max_batch: Option<u32>,
    pub max_seq: Option<u32>,
    pub sessions: Option<u32>,
}

/// A setting's number, or its refusal.
pub open spec fn number_value(k: Seq<char>, v: Seq<char>) -> Result<u32, Seq<char>> {
    match unsigned_value(v, u32::MAX as nat) {
        Some(n) => Ok(n as u32),
        None => Err(k + " "@ + v + ": not a number from 0 to 4294967295"@),
    }
}

/// A setting's device, or its refusal.
pub open spec fn device_value(v: Seq<char>) -> Result<Device, Seq<char>> {
    if v == "select"@ {
        Ok(Device::Select)
    } else {
        match number_value("device"@, v) {
            Ok(n) => Ok(Device::Index(n)),
            Err(e) => Err(e),
        }
    }
}

/// A setting's precision, or its refusal.
pub open spec fn precision_value(v: Seq<char>) -> Result<u32, Seq<char>> {
    match value_in(precision_names(), v, 0) {
        Some(p) => Ok(p),
        None => Err(
            "precision "@ + v + ": not PRECISION_MODEL, PRECISION_FASTEST or PRECISION_EXACT"@,
        ),
    }
}

/// The refusal of a setting that is given twice.
pub open spec fn twice(s: Seq<char>, k: Seq<char>) -> Seq<char> {
    "--model "@ + s + ": `"@ + k + "` given twice"@
}

/// The settings with one more, or its refusal: a value that cannot be read is
/// refused before a second one is.
pub open spec fn with_setting(s: Seq<char>, part: Seq<char>, had: Settings) -> Result<
    Settings,
    Seq<char>,
> {
    let at = first_at(part, '=') as int;
    if at >= part.len() {
        Err("--model "@ + s + ": `"@ + part + "` is not key=value"@)
    } else {
        let k = part.take(at);
        let v = part.skip(at + 1);
        if k == "bundle"@ {
            if had.bundle is Some {
                Err(twice(s, k))
            } else {
                Ok(Settings { bundle: Some(v), ..had })
            }
        } else if k == "device"@ {
            match device_value(v) {
                Err(e) => Err(e),
                Ok(d) => if had.device is Some {
                    Err(twice(s, k))
                } else {
                    Ok(Settings { device: Some(d), ..had })
                },
            }
        } else if k == "precision"@ {
            match precision_value(v) {
                Err(e) => Err(e),
                Ok(p) => if had.precision is Some {
                    Err(twice(s, k))
                } else {
                    Ok(Settings { precision: Some(p), ..had })
                },
            }
        } else if k == "max_batch"@ {
            match number_value(k, v) {
                Err(e) => Err(e),
                Ok(n) => if had.max_batch is Some {
                    Err(twice(s, k))
                } else {
                    Ok(Settings { max_batch: Some(n), ..had })
                },
            }
        } else if k == "max_seq"@ {
            match number_value(k, v) {
                Err(e) => Err(e),
                Ok(n) => if had.max_seq is Some {
                    Err(twice(s, k))
                } else {
                    Ok(Settings { max_seq: Some(n), ..had })
                },
            }
        } else if k == "sessions"@ {
            match number_value(k, v) {
                Err(e) => Err(e),
                Ok(n) => if had.sessions is Some {
                    Err(twice(s, k))
                } else {
                    Ok(Settings { sessions: Some(n), ..had })
                },
            }
        } else {
            Err("--model "@ + s + ": unknown setting `"@ + k + "`"@)
        }
    }
}

/// The settings of the first `n` parts, or the first refusal.
pub open spec fn settings_of(s: Seq<char>, parts: Seq<Seq<char>>, n: int) -> Result<
    Settings,
    Seq<char>,
>
    decreases n,
{
    if n <= 0 {
        Ok(unset())
    } else {
        match settings_of(s, parts, n - 1) {
            Err(e) => Err(e),
            Ok(had) => with_setting(s, parts[n - 1], had),
        }
    }
}

/// The value, or 0.
pub open spec fn or_zero(v: Option<u32>) -> u32 {
    match v {
        Some(n) => n,
        None => 0,
    }
}

/// The configuration that settings give, or the refusal of what they lack.
pub open spec fn complete(s: Seq<char>, v: Settings) -> Result<ConfigView, Seq<char>> {
    match (v.sessions, v.bundle, v.device) {
        (None, _, _) => Err("--model "@ + s + ": sessions is required"@),
        (Some(sessions), bundle, device) => if sessions == 0 {
            Err("--model "@ + s + ": sessions must be at least 1"@)
        } else if bundle is None {
            Err("--model "@ + s + ": bundle is required"@)
        } else if device is None {
            Err("--model "@ + s + ": device is required"@)
        } else {
            Ok(
                ConfigView {
                    bundle: bundle->0,
                    device: device->0,
                    precision: or_zero(v.precision),
                    max_batch: or_zero(v.max_batch),
                    max_seq: or_zero(v.max_seq),
                    sessions,
                },
            )
        },
    }
}

/// The configuration of one `--model` value, or its refusal.
pub open spec fn config_of(s: Seq<char>) -> Result<ConfigView, Seq<char>> {
    let parts = split_on(s, ',');
    match settings_of(s, parts, parts.len() as int) {
        Err(e) => Err(e),
        Ok(v) => complete(s, v),
    }
}

/// No settings.
pub open spec fn unset() -> Settings {
    Settings {
        bundle: None,
        device: None,
        precision: None,
        max_batch: None,
        max_seq: None,
        sessions: None,
    }
}

/// Whether two parts set one setting.
spec fn clash(a: Settings, b: Settings) -> bool {
    ||| a.bundle is Some && b.bundle is Some
    ||| a.device is Some && b.device is Some
    ||| a.precision is Some && b.precision is Some
    ||| a.max_batch is Some && b.max_batch is Some
    ||| a.max_seq is Some && b.max_seq is Some
    ||| a.sessions is Some && b.sessions is Some
}

/// Whether everything that is set in `a` is set so in `v`.
spec fn holds_all(v: Settings, a: Settings) -> bool {
    &&& a.bundle is Some ==> v.bundle == a.bundle
    &&& a.device is Some ==> v.device == a.device
    &&& a.precision is Some ==> v.precision == a.precision
    &&& a.max_batch is Some ==> v.max_batch == a.max_batch
    &&& a.max_seq is Some ==> v.max_seq == a.max_seq
    &&& a.sessions is Some ==> v.sessions == a.sessions
}

/// Whether everything that is set in `v` is set by one of the first `n` parts.
spec fn all_set_by(v: Settings, p: Seq<Seq<char>>, n: int) -> bool {
    &&& v.bundle is Some ==> exists|i: int| 0 <= i < n && alone(#[trigger] p[i]).bundle is Some
    &&& v.device is Some ==> exists|i: int| 0 <= i < n && alone(#[trigger] p[i]).device is Some
    &&& v.precision is Some ==> exists|i: int| 0 <= i < n && alone(#[trigger] p[i]).precision is Some
    &&& v.max_batch is Some ==> exists|i: int| 0 <= i < n && alone(#[trigger] p[i]).max_batch is Some
    &&& v.max_seq is Some ==> exists|i: int| 0 <= i < n && alone(#[trigger] p[i]).max_seq is Some
    &&& v.sessions is Some ==> exists|i: int| 0 <= i < n && alone(#[trigger] p[i]).sessions is Some
}

/// Whether a part can be read.
spec fn readable(part: Seq<char>) -> bool {
    with_setting(Seq::empty(), part, unset()) is Ok
}

/// What a part sets by itself.
spec fn alone(part: Seq<char>) -> Settings {
    match with_setting(Seq::empty(), part, unset()) {
        Ok(v) => v,
        Err(_) => unset(),
    }
}

/// Whether the first `n` parts can be read and no two of them set one setting.
spec fn compatible(p: Seq<Seq<char>>, n: int) -> bool {
    &&& forall|i: int| 0 <= i < n ==> readable(#[trigger] p[i])
    &&& forall|i: int, j: int|
        0 <= i < j < n ==> !clash(alone(#[trigger] p[i]), alone(#[trigger] p[j]))
}

/// A part is taken where it can be read and sets nothing that is set.
proof fn one_more_setting(s: Seq<char>, part: Seq<char>, had: Settings)
    ensures
        with_setting(s, part, had) is Ok <==> readable(part) && !clash(alone(part), had),
        with_setting(s, part, had) matches Ok(v) ==> holds_all(v, alone(part)) && holds_all(v, had)
            && (v.bundle is Some ==> had.bundle is Some || alone(part).bundle is Some) && (
        v.device is Some ==> had.device is Some || alone(part).device is Some) && (
        v.precision is Some ==> had.precision is Some || alone(part).precision is Some) && (
        v.max_batch is Some ==> had.max_batch is Some || alone(part).max_batch is Some) && (
        v.max_seq is Some ==> had.max_seq is Some || alone(part).max_seq is Some) && (
        v.sessions is Some ==> had.sessions is Some || alone(part).sessions is Some),
{
}

/// The settings of parts are what each part sets by itself.
proof fn settings_are_the_parts(s: Seq<char>, p: Seq<Seq<char>>, n: int)
    requires
        0 <= n <= p.len(),
    ensures
        settings_of(s, p, n) is Ok <==> compatible(p, n),
        settings_of(s, p, n) matches Ok(v) ==> all_set_by(v, p, n) && forall|i: int|
            0 <= i < n ==> holds_all(v, alone(#[trigger] p[i])),
    decreases n,
{
    if n > 0 {
        settings_are_the_parts(s, p, n - 1);
        if let Ok(had) = settings_of(s, p, n - 1) {
            let part = p[n - 1];
            one_more_setting(s, part, had);
            if compatible(p, n) {
                assert(readable(p[n - 1]));
                assert(!clash(alone(part), had));
            }
            if let Ok(v) = with_setting(s, part, had) {
                assert forall|i: int, j: int| 0 <= i < j < n implies !clash(
                    alone(#[trigger] p[i]),
                    alone(#[trigger] p[j]),
                ) by {
                    if j == n - 1 {
                        assert(holds_all(had, alone(p[i])));
                    }
                }
                assert(alone(p[n - 1]) == alone(part));
                assert(compatible(p, n));
            }
        }
    }
}

/// Everything that parts set is set by the same parts in another order.
proof fn same_parts_set_the_same(p: Seq<Seq<char>>, q: Seq<Seq<char>>, v: Settings, w: Settings)
    requires
        forall|i: int| 0 <= i < p.len() ==> q.contains(#[trigger] p[i]),
        all_set_by(v, p, p.len() as int),
        forall|i: int| 0 <= i < p.len() ==> holds_all(v, alone(#[trigger] p[i])),
        forall|i: int| 0 <= i < q.len() ==> holds_all(w, alone(#[trigger] q[i])),
    ensures
        holds_all(w, v),
{
    assert forall|i: int| 0 <= i < p.len() implies holds_all(w, alone(#[trigger] p[i])) by {
        assert(q.contains(p[i]));
        let k = choose|k: int| 0 <= k < q.len() && q[k] == p[i];
        assert(holds_all(w, alone(q[k])));
    }
}

/// Parts that are compatible stay so in another order.
proof fn compatible_in_any_order(p: Seq<Seq<char>>, q: Seq<Seq<char>>)
    requires
        p.to_multiset() == q.to_multiset(),
        compatible(p, p.len() as int),
    ensures
        compatible(q, q.len() as int),
{
    broadcast use vstd::seq_lib::group_to_multiset_ensures;

    assert(p.no_duplicates()) by {
        assert forall|i: int, j: int| 0 <= i < p.len() && 0 <= j < p.len() && i != j implies p[i] != p[j] by {
            let a = if i < j { i } else { j };
            let b = if i < j { j } else { i };
            assert(!clash(alone(p[a]), alone(p[b])));
            assert(readable(p[a]));
            sets_something(p[a]);
        }
    }
    p.lemma_multiset_has_no_duplicates();
    q.lemma_multiset_has_no_duplicates_conv();
    same_items(q, p);
    assert forall|i: int| 0 <= i < q.len() implies readable(#[trigger] q[i]) by {
        assert(p.contains(q[i]));
        let k = choose|k: int| 0 <= k < p.len() && p[k] == q[i];
        assert(readable(p[k]));
    }
    assert forall|i: int, j: int| 0 <= i < j < q.len() implies !clash(
        alone(#[trigger] q[i]),
        alone(#[trigger] q[j]),
    ) by {
        assert(p.contains(q[i]) && p.contains(q[j]));
        let a = choose|k: int| 0 <= k < p.len() && p[k] == q[i];
        let b = choose|k: int| 0 <= k < p.len() && p[k] == q[j];
        assert(q[i] != q[j]);
        if a < b {
            assert(!clash(alone(p[a]), alone(p[b])));
        } else {
            assert(!clash(alone(p[b]), alone(p[a])));
        }
    }
}

/// A part that can be read sets something.
proof fn sets_something(part: Seq<char>)
    requires
        readable(part),
    ensures
        clash(alone(part), alone(part)),
{
}

/// Every item of one order is in the other.
proof fn same_items(p: Seq<Seq<char>>, q: Seq<Seq<char>>)
    requires
        p.to_multiset() == q.to_multiset(),
    ensures
        forall|i: int| 0 <= i < p.len() ==> q.contains(#[trigger] p[i]),
{
    broadcast use vstd::seq_lib::group_to_multiset_ensures;

    assert forall|i: int| 0 <= i < p.len() implies q.contains(#[trigger] p[i]) by {
        assert(p.contains(p[i]));
        assert(p.to_multiset().count(p[i]) > 0);
        assert(q.to_multiset().count(p[i]) > 0);
    }
}

/// The settings of a model may stand in any order: the same comma-separated parts
/// give the same configuration, or none.
pub proof fn settings_stand_in_any_order(s: Seq<char>, t: Seq<char>)
    requires
        split_on(s, ',').to_multiset() == split_on(t, ',').to_multiset(),
    ensures
        config_of(s) is Ok <==> config_of(t) is Ok,
        config_of(s) is Ok ==> config_of(t) == config_of(s),
{
    let p = split_on(s, ',');
    let q = split_on(t, ',');
    let m = p.len() as int;
    let n = q.len() as int;
    settings_are_the_parts(s, p, m);
    settings_are_the_parts(t, q, n);
    if compatible(p, m) {
        compatible_in_any_order(p, q);
    }
    if compatible(q, n) {
        compatible_in_any_order(q, p);
    }
    if compatible(p, m) {
        let v = settings_of(s, p, m)->Ok_0;
        let w = settings_of(t, q, n)->Ok_0;
        same_items(p, q);
        same_items(q, p);
        same_parts_set_the_same(p, q, v, w);
        same_parts_set_the_same(q, p, w, v);
        assert(v == w);
    }
}

/// A refused part decides the whole.
proof fn setting_refusal_stays(s: Seq<char>, parts: Seq<Seq<char>>, i: int, n: int)
    requires
        0 <= i <= n,
    ensures
        settings_of(s, parts, i) is Err ==> settings_of(s, parts, n) == settings_of(s, parts, i),
    decreases n,
{
    if i < n {
        setting_refusal_stays(s, parts, i, n - 1);
    }
}

/// The settings read so far.
struct Given {
    bundle: Option<String>,
    device: Option<Device>,
    precision: Option<u32>,
    max_batch: Option<u32>,
    max_seq: Option<u32>,
    sessions: Option<u32>,
}

impl View for Given {
    type V = Settings;

    closed spec fn view(&self) -> Settings {
        Settings {
            bundle: crate::text::opt_view(self.bundle),
            device: self.device,
            precision: self.precision,
            max_batch: self.max_batch,
            max_seq: self.max_seq,
            sessions: self.sessions,
        }
    }
}

/// A setting's number.
fn number(k: &str, v: &str) -> (r: Result<u32, String>)
    ensures
        match number_value(k@, v@) {
            Ok(n) => r == Ok::<u32, String>(n),
            Err(e) => r is Err && r->Err_0@ == e,
        },
{
    match parse_unsigned(v, 0xffff_ffff) {
        Some(n) => Ok(n as u32),
        None => Err(cat4(k, " ", v, ": not a number from 0 to 4294967295")),
    }
}

/// Take one setting.
fn put_setting(s: &str, part: &str, g: &mut Given) -> (r: Result<(), String>)
    ensures
        match with_setting(s@, part@, old(g)@) {
            Ok(v) => r is Ok && final(g)@ == v,
            Err(e) => r is Err && r->Err_0@ == e,
        },
{
    let (k, v) = match split_once_of(part, '=') {
        None => return Err(cat5("--model ", s, ": `", part, "` is not key=value")),
        Some(p) => p,
    };
    let k = k.as_str();
    let v = v.as_str();
    proof {
        first_at_is_first(part@, '=');
    }
    let seen = if same(k, "bundle") {
        let seen = g.bundle.is_some();
        g.bundle = Some(v.to_owned());
        seen
    } else if same(k, "device") {
        let d = if same(v, "select") {
            Device::Select
        } else {
            match number(k, v) {
                Ok(n) => Device::Index(n),
                Err(e) => return Err(e),
            }
        };
        let seen = g.device.is_some();
        g.device = Some(d);
        seen
    } else if same(k, "precision") {
        let p = match value_of(&precision_table(), v) {
            Some(p) => p,
            None => return Err(
                cat3(
                    "precision ",
                    v,
                    ": not PRECISION_MODEL, PRECISION_FASTEST or PRECISION_EXACT",
                ),
            ),
        };
        let seen = g.precision.is_some();
        g.precision = Some(p);
        seen
    } else if same(k, "max_batch") {
        let n = match number(k, v) {
            Ok(n) => n,
            Err(e) => return Err(e),
        };
        let seen = g.max_batch.is_some();
        g.max_batch = Some(n);
        seen
    } else if same(k, "max_seq") {
        let n = match number(k, v) {
            Ok(n) => n,
            Err(e) => return Err(e),
        };
        let seen = g.max_seq.is_some();
        g.max_seq = Some(n);
        seen
    } else if same(k, "sessions") {
        let n = match number(k, v) {
            Ok(n) => n,
            Err(e) => return Err(e),
        };
        let seen = g.sessions.is_some();
        g.sessions = Some(n);
        seen
    } else {
        return Err(cat5("--model ", s, ": unknown setting `", k, "`"));
    };
    if seen {
        return Err(cat5("--model ", s, ": `", k, "` given twice"));
    }
    Ok(())
}

/// The value, or 0.
fn zero_if_unset(v: Option<u32>) -> (r: u32)
    ensures
        r == or_zero(v),
{
    match v {
        Some(n) => n,
        None => 0,
    }
}

impl ModelConfig {
    /// The model name: the last component of the bundle path, exactly as it is
    /// spelled. None for a path whose last component is empty, `.` or `..`,
    /// which names no bundle.
    pub fn name(&self) -> (r: Option<&str>)
        ensures
            match model_name(self.bundle@) {
                Some(n) => r is Some && r->0@ == n,
                None => r is None,
            },
    {
        let c = chars_of(self.bundle.as_str());
        let mut n: usize = c.len();
        proof {
            assert(c@.take(n as int) =~= c@);
        }
        while n > 0 && c[n - 1] != '/'
            invariant
                n <= c.len(),
                last_at(c@.take(n as int), '/') == last_at(c@, '/'),
            decreases n,
        {
            proof {
                assert(c@.take(n as int).drop_last() =~= c@.take(n - 1));
            }
            n = n - 1;
        }
        proof {
            if n > 0 {
                assert(c@.take(n as int).last() == '/');
            }
        }
        let last = self.bundle.as_str().substring_char(n, c.len());
        proof {
            assert(last@ =~= last_component(self.bundle@));
        }
        if same(last, "") || same(last, ".") || same(last, "..") {
            None
        } else {
            Some(last)
        }
    }

    /// One `--model` value.
    pub fn parse(s: &str) -> (r: Result<ModelConfig, String>)
        ensures
            match config_of(s@) {
                Ok(v) => r is Ok && r->Ok_0@ == v,
                Err(e) => r is Err && r->Err_0@ == e,
            },
    {
        let parts = split_of(s, ',');
        let ghost p = split_on(s@, ',');
        let mut g = Given {
            bundle: None,
            device: None,
            precision: None,
            max_batch: None,
            max_seq: None,
            sessions: None,
        };
        let mut i: usize = 0;
        while i < parts.len()
            invariant
                i <= parts.len(),
                p == views(parts@),
                p == split_on(s@, ','),
                settings_of(s@, p, i as int) == Ok::<Settings, Seq<char>>(g@),
            decreases parts.len() - i,
        {
            proof {
                setting_refusal_stays(s@, p, i + 1, p.len() as int);
                assert(p[i as int] == parts@[i as int]@);
            }
            match put_setting(s, parts[i].as_str(), &mut g) {
                Err(e) => return Err(e),
                Ok(()) => {},
            }
            i = i + 1;
        }
        let sessions = match g.sessions {
            Some(n) => n,
            None => return Err(cat3("--model ", s, ": sessions is required")),
        };
        if sessions == 0 {
            return Err(cat3("--model ", s, ": sessions must be at least 1"));
        }
        let bundle = match g.bundle {
            Some(b) => b,
            None => return Err(cat3("--model ", s, ": bundle is required")),
        };
        let device = match g.device {
            Some(d) => d,
            None => return Err(cat3("--model ", s, ": device is required")),
        };
        Ok(
            ModelConfig {
                bundle,
                device,
                precision: zero_if_unset(g.precision),
                max_batch: zero_if_unset(g.max_batch),
                max_seq: zero_if_unset(g.max_seq),
                sessions,
            },
        )
    }
}

/// Configurations with their texts as characters.
pub open spec fn config_views(m: Seq<ModelConfig>) -> Seq<ConfigView> {
    Seq::new(m.len(), |i: int| m[i]@)
}

/// The names of the first `n` models, or the first refusal: of a path that names
/// no bundle, or of a name that is served already.
pub open spec fn served_names(m: Seq<ConfigView>, n: int) -> Result<Seq<Seq<char>>, Seq<char>>
    decreases n,
{
    if n <= 0 {
        Ok(Seq::empty())
    } else {
        match served_names(m, n - 1) {
            Err(e) => Err(e),
            Ok(out) => match model_name(m[n - 1].bundle) {
                None => Err("bundle "@ + m[n - 1].bundle + ": the path names no bundle"@),
                Some(name) => if out.contains(name) {
                    Err(
                        "bundle "@ + m[n - 1].bundle + ": a model named "@ + name
                            + " is already served"@,
                    )
                } else {
                    Ok(out.push(name))
                },
            },
        }
    }
}

/// A refused model decides the whole.
proof fn name_refusal_stays(m: Seq<ConfigView>, i: int, n: int)
    requires
        0 <= i <= n,
    ensures
        served_names(m, i) is Err ==> served_names(m, n) == served_names(m, i),
    decreases n,
{
    if i < n {
        name_refusal_stays(m, i, n - 1);
    }
}

/// Every model's name, refusing a path that names no bundle and two models of
/// one name.
pub fn names(models: &Vec<ModelConfig>) -> (r: Result<Vec<String>, String>)
    ensures
        match served_names(config_views(models@), models.len() as int) {
            Ok(v) => r is Ok && views(r->Ok_0@) == v,
            Err(e) => r is Err && r->Err_0@ == e,
        },
{
    let ghost m = config_views(models@);
    let mut out: Vec<String> = Vec::new();
    let mut i: usize = 0;
    proof {
        assert(views(out@) =~= Seq::empty());
    }
    while i < models.len()
        invariant
            i <= models.len(),
            m == config_views(models@),
            served_names(m, i as int) == Ok::<Seq<Seq<char>>, Seq<char>>(views(out@)),
        decreases models.len() - i,
    {
        proof {
            name_refusal_stays(m, i + 1, m.len() as int);
            assert(m[i as int] == models@[i as int]@);
        }
        let bundle = models[i].bundle.as_str();
        let name = match models[i].name() {
            None => return Err(cat3("bundle ", bundle, ": the path names no bundle")),
            Some(n) => n,
        };
        if holds(&out, name) {
            return Err(
                cat5("bundle ", bundle, ": a model named ", name, " is already served"),
            );
        }
        let ghost before = views(out@);
        out.push(name.to_owned());
        proof {
            assert(views(out@) =~= before.push(name@));
        }
        i = i + 1;
    }
    Ok(out)
}

/// Accepted models have one name each and no two the same, and no name is empty,
/// `.` or `..`.
pub proof fn served_names_differ(m: Seq<ConfigView>, n: int)
    requires
        0 <= n <= m.len(),
        served_names(m, n) is Ok,
    ensures
        served_names(m, n)->Ok_0.len() == n,
        served_names(m, n)->Ok_0.no_duplicates(),
        forall|i: int|
            0 <= i < n ==> model_name(#[trigger] m[i].bundle) == Some(served_names(m, n)->Ok_0[i]),
    decreases n,
{
    if n > 0 {
        served_names_differ(m, n - 1);
        let before = served_names(m, n - 1)->Ok_0;
        let after = served_names(m, n)->Ok_0;
        assert forall|i: int, j: int| 0 <= i < n && 0 <= j < n && i != j implies after[i] != after[j] by {
            if i == n - 1 {
                assert(before.contains(before[j]));
            } else if j == n - 1 {
                assert(before.contains(before[i]));
            } else {
                assert(before[i] != before[j]);
            }
        }
        assert forall|i: int| 0 <= i < n implies model_name(#[trigger] m[i].bundle) == Some(after[i]) by {
            if i < n - 1 {
                assert(model_name(m[i].bundle) == Some(before[i]));
            }
        }
    }
}

/// The command line.
#[derive(Clone, Debug, PartialEq, Eq)]
pub struct Args {
    /// The address to listen on, as it was given.
    pub listen: String,
    pub models: Vec<ModelConfig>,
    /// The largest request message that is read.
    pub max_message_bytes: usize,
}

/// `--max-message-bytes` when absent: 64 MiB.
pub const DEFAULT_MAX_MESSAGE_BYTES: usize = 67_108_864;

/// How the command line is written.
pub const USAGE: &'static str = "usage: turbo-kserve --listen ADDR:PORT --model bundle=PATH,device=INDEX|select,sessions=N[,precision=PRECISION_MODEL|PRECISION_FASTEST|PRECISION_EXACT][,max_batch=N][,max_seq=N] [--model ...] [--max-message-bytes N]";

/// The arguments read so far.
pub struct Parsed {
    pub listen: Option<Seq<char>>,
    pub models: Seq<ConfigView>,
    pub max_message_bytes: Option<usize>,
}

/// An argument's flag, and the value that stands in the same argument.
pub open spec fn flag_of(a: Seq<char>) -> (Seq<char>, Option<Seq<char>>) {
    let at = first_at(a, '=') as int;
    if at < a.len() && starts(a.take(at), "--"@) {
        (a.take(at), Some(a.skip(at + 1)))
    } else {
        (a, None)
    }
}

/// The value of the flag at `i`, or the refusal of one that needs it: what stands
/// in the same argument, else the next argument.
pub open spec fn value_at(args: Seq<Seq<char>>, i: int) -> Result<Seq<char>, Seq<char>> {
    match flag_of(args[i]).1 {
        Some(v) => Ok(v),
        None => if i + 1 < args.len() {
            Ok(args[i + 1])
        } else {
            Err(flag_of(args[i]).0 + " needs a value"@)
        },
    }
}

/// Where the arguments go on after the flag at `i` and its value.
pub open spec fn after_value(args: Seq<Seq<char>>, i: int) -> int {
    if flag_of(args[i]).1 is Some {
        i + 1
    } else {
        i + 2
    }
}

/// The arguments with the flag of value `v`, or its refusal; `addresses` are the
/// values that are addresses.
pub open spec fn with_flag(
    flag: Seq<char>,
    v: Seq<char>,
    addresses: Seq<Seq<char>>,
    had: Parsed,
) -> Result<Parsed, Seq<char>> {
    if flag == "--listen"@ {
        if addresses.contains(v) {
            Ok(Parsed { listen: Some(v), ..had })
        } else {
            Err("--listen "@ + v + ": not ADDR:PORT"@)
        }
    } else if flag == "--model"@ {
        match config_of(v) {
            Err(e) => Err(e),
            Ok(m) => Ok(Parsed { models: had.models.push(m), ..had }),
        }
    } else {
        match unsigned_value(v, usize::MAX as nat) {
            None => Err("--max-message-bytes "@ + v + ": not a byte count"@),
            Some(n) => if had.max_message_bytes is Some {
                Err("--max-message-bytes given twice"@)
            } else {
                Ok(Parsed { max_message_bytes: Some(n as usize), ..had })
            },
        }
    }
}

/// Whether a flag is known.
pub open spec fn is_flag(flag: Seq<char>) -> bool {
    flag == "--listen"@ || flag == "--model"@ || flag == "--max-message-bytes"@
}

/// The arguments from `i` on, after those read so far, or the first refusal.
pub open spec fn args_from(
    args: Seq<Seq<char>>,
    addresses: Seq<Seq<char>>,
    i: int,
    had: Parsed,
) -> Result<Parsed, Seq<char>>
    decreases args.len() - i,
{
    if i < 0 || i >= args.len() {
        Ok(had)
    } else {
        let flag = flag_of(args[i]).0;
        if !is_flag(flag) {
            Err("unknown argument "@ + args[i])
        } else {
            match value_at(args, i) {
                Err(e) => Err(e),
                Ok(v) => match with_flag(flag, v, addresses, had) {
                    Err(e) => Err(e),
                    Ok(now) => args_from(args, addresses, after_value(args, i), now),
                },
            }
        }
    }
}

/// The command line's meaning, or its refusal.
pub open spec fn args_of(args: Seq<Seq<char>>, addresses: Seq<Seq<char>>) -> Result<
    (Seq<char>, Seq<ConfigView>, usize),
    Seq<char>,
> {
    match args_from(
        args,
        addresses,
        0,
        Parsed { listen: None, models: Seq::empty(), max_message_bytes: None },
    ) {
        Err(e) => Err(e),
        Ok(p) => match p.listen {
            None => Err("--listen is required"@),
            Some(listen) => if p.models.len() == 0 {
                Err("at least one --model is required"@)
            } else {
                match served_names(p.models, p.models.len() as int) {
                    Err(e) => Err(e),
                    Ok(_) => Ok(
                        (
                            listen,
                            p.models,
                            match p.max_message_bytes {
                                Some(n) => n,
                                None => DEFAULT_MAX_MESSAGE_BYTES,
                            },
                        ),
                    ),
                }
            },
        },
    }
}

/// The arguments read so far.
struct Reading {
    listen: Option<String>,
    models: Vec<ModelConfig>,
    max_message_bytes: Option<usize>,
}

impl View for Reading {
    type V = Parsed;

    closed spec fn view(&self) -> Parsed {
        Parsed {
            listen: crate::text::opt_view(self.listen),
            models: config_views(self.models@),
            max_message_bytes: self.max_message_bytes,
        }
    }
}

/// An argument's flag, and the value that stands in the same argument.
fn split_flag(a: &str) -> (r: (String, Option<String>))
    ensures
        r.0@ == flag_of(a@).0,
        crate::text::opt_view(r.1) == flag_of(a@).1,
{
    proof {
        first_at_is_first(a@, '=');
    }
    if let Some((f, v)) = split_once_of(a, '=') {
        if starts_with_of(f.as_str(), "--") {
            return (f, Some(v));
        }
    }
    (a.to_owned(), None)
}

/// Take one flag with its value.
fn put_flag(flag: &str, v: &str, addresses: &Vec<String>, had: &mut Reading) -> (r: Result<(), String>)
    requires
        is_flag(flag@),
    ensures
        match with_flag(flag@, v@, views(addresses@), old(had)@) {
            Ok(p) => r is Ok && final(had)@ == p,
            Err(e) => r is Err && r->Err_0@ == e,
        },
{
    if same(flag, "--listen") {
        if !holds(addresses, v) {
            return Err(cat3("--listen ", v, ": not ADDR:PORT"));
        }
        had.listen = Some(v.to_owned());
        return Ok(());
    }
    if same(flag, "--model") {
        let m = match ModelConfig::parse(v) {
            Err(e) => return Err(e),
            Ok(m) => m,
        };
        let ghost before = config_views(had.models@);
        let ghost seen = m@;
        had.models.push(m);
        proof {
            assert(config_views(had.models@) =~= before.push(seen));
        }
        return Ok(());
    }
    let n = match parse_unsigned(v, usize::MAX as u64) {
        None => return Err(cat3("--max-message-bytes ", v, ": not a byte count")),
        Some(n) => n,
    };
    if had.max_message_bytes.is_some() {
        return Err("--max-message-bytes given twice".to_owned());
    }
    had.max_message_bytes = Some(n as usize);
    Ok(())
}

impl Args {
    /// The command line without the program's name; `addresses` are the values in
    /// it that read as an address and a port.
    pub fn parse(args: &Vec<String>, addresses: &Vec<String>) -> (r: Result<Args, String>)
        ensures
            match args_of(views(args@), views(addresses@)) {
                Ok(v) => {
                    &&& r is Ok
                    &&& r->Ok_0.listen@ == v.0
                    &&& config_views(r->Ok_0.models@) == v.1
                    &&& r->Ok_0.max_message_bytes == v.2
                },
                Err(e) => r is Err && r->Err_0@ == e,
            },
    {
        let ghost a = views(args@);
        let ghost addrs = views(addresses@);
        let ghost start = Parsed { listen: None, models: Seq::empty(), max_message_bytes: None };
        let mut had = Reading { listen: None, models: Vec::new(), max_message_bytes: None };
        proof {
            assert(config_views(had.models@) =~= Seq::empty());
        }
        let mut i: usize = 0;
        while i < args.len()
            invariant
                i <= args.len(),
                a == views(args@),
                addrs == views(addresses@),
                start == (Parsed { listen: None, models: Seq::empty(), max_message_bytes: None }),
                args_from(a, addrs, i as int, had@) == args_from(a, addrs, 0, start),
            decreases args.len() - i,
        {
            proof {
                assert(a[i as int] == args@[i as int]@);
            }
            let (flag, inline) = split_flag(args[i].as_str());
            let f = flag.as_str();
            if !(same(f, "--listen") || same(f, "--model") || same(f, "--max-message-bytes")) {
                return Err(cat2("unknown argument ", args[i].as_str()));
            }
            let next = match &inline {
                Some(_) => i + 1,
                None => if args.len() - i > 1 {
                    i + 2
                } else {
                    return Err(cat2(f, " needs a value"));
                },
            };
            proof {
                if i + 1 < a.len() {
                    assert(a[i + 1] == args@[i + 1]@);
                }
            }
            let v: &str = match &inline {
                Some(v) => v.as_str(),
                None => args[i + 1].as_str(),
            };
            match put_flag(f, v, addresses, &mut had) {
                Err(e) => return Err(e),
                Ok(()) => {},
            }
            i = next;
        }
        let listen = match had.listen {
            Some(l) => l,
            None => return Err("--listen is required".to_owned()),
        };
        if had.models.len() == 0 {
            return Err("at least one --model is required".to_owned());
        }
        match names(&had.models) {
            Err(e) => return Err(e),
            Ok(_) => {},
        }
        let max_message_bytes: usize = match had.max_message_bytes {
            Some(n) => n,
            None => DEFAULT_MAX_MESSAGE_BYTES,
        };
        Ok(Args { listen, models: had.models, max_message_bytes })
    }
}

/// A setting sets the key that it names and no other: `key=value`, where the value may
/// hold more `=`.
pub proof fn a_setting_sets_its_own_key(s: Seq<char>, v: Seq<char>, n: u32)
    ensures
        with_setting(s, "bundle"@ + seq!['='] + v, unset()) == Ok::<Settings, Seq<char>>(
            Settings { bundle: Some(v), ..unset() },
        ),
        with_setting(s, "device"@ + seq!['='] + crate::text::decimal(n as nat), unset()) == Ok::<Settings, Seq<char>>(
            Settings { device: Some(Device::Index(n)), ..unset() },
        ),
        with_setting(s, "device"@ + seq!['='] + "select"@, unset()) == Ok::<Settings, Seq<char>>(
            Settings { device: Some(Device::Select), ..unset() },
        ),
        with_setting(s, "max_batch"@ + seq!['='] + crate::text::decimal(n as nat), unset()) == Ok::<Settings, Seq<char>>(
            Settings { max_batch: Some(n), ..unset() },
        ),
        with_setting(s, "max_seq"@ + seq!['='] + crate::text::decimal(n as nat), unset()) == Ok::<Settings, Seq<char>>(
            Settings { max_seq: Some(n), ..unset() },
        ),
        with_setting(s, "sessions"@ + seq!['='] + crate::text::decimal(n as nat), unset()) == Ok::<Settings, Seq<char>>(
            Settings { sessions: Some(n), ..unset() },
        ),
        with_setting(s, "precision"@ + seq!['='] + "PRECISION_MODEL"@, unset()) == Ok::<Settings, Seq<char>>(
            Settings { precision: Some(0u32), ..unset() },
        ),
        with_setting(s, "precision"@ + seq!['='] + "PRECISION_FASTEST"@, unset()) == Ok::<
            Settings,
            Seq<char>,
        >(Settings { precision: Some(1u32), ..unset() }),
        with_setting(s, "precision"@ + seq!['='] + "PRECISION_EXACT"@, unset()) == Ok::<Settings, Seq<char>>(
            Settings { precision: Some(2u32), ..unset() },
        ),
{
    setting_words_differ();
    crate::text::a_decimal_reads_back(n as nat, u32::MAX as nat);
    crate::names::option_names_have_their_values();
    split_at_equals("bundle"@, v);
    split_at_equals("device"@, crate::text::decimal(n as nat));
    split_at_equals("device"@, "select"@);
    split_at_equals("max_batch"@, crate::text::decimal(n as nat));
    split_at_equals("max_seq"@, crate::text::decimal(n as nat));
    split_at_equals("sessions"@, crate::text::decimal(n as nat));
    split_at_equals("precision"@, "PRECISION_MODEL"@);
    split_at_equals("precision"@, "PRECISION_FASTEST"@);
    split_at_equals("precision"@, "PRECISION_EXACT"@);
    reveal_strlit("select");
    assert("select"@[0] == 's');
    assert(crate::text::decimal(n as nat)[0] != 's') by {
        crate::text::numbers_are_digits_only(crate::text::decimal(n as nat), u32::MAX as nat);
    }
}

/// The keys of the settings hold no `=` and are told apart by their letters.
proof fn setting_words_differ()
    ensures
        "bundle"@[0] == 'b',
        "device"@[0] == 'd',
        "precision"@[0] == 'p',
        "max_batch"@[0] == 'm' && "max_batch"@[4] == 'b',
        "max_seq"@[0] == 'm' && "max_seq"@[4] == 's',
        "sessions"@[0] == 's',
        !"bundle"@.contains('='),
        !"device"@.contains('='),
        !"precision"@.contains('='),
        !"max_batch"@.contains('='),
        !"max_seq"@.contains('='),
        !"sessions"@.contains('='),
{
    reveal_strlit("bundle");
    reveal_strlit("device");
    reveal_strlit("precision");
    reveal_strlit("max_batch");
    reveal_strlit("max_seq");
    reveal_strlit("sessions");
}

/// A key without `=` ends at the first.
proof fn split_at_equals(k: Seq<char>, v: Seq<char>)
    requires
        !k.contains('='),
    ensures
        ({
            let p = k + seq!['='] + v;
            &&& first_at(p, '=') == k.len()
            &&& first_at(p, '=') < p.len()
            &&& p.take(k.len() as int) == k
            &&& p.skip(k.len() as int + 1) == v
        }),
{
    let p = k + seq!['='] + v;
    assert forall|j: int| 0 <= j < k.len() implies p[j] != '=' by {
        assert(p[j] == k[j]);
        assert(k.contains(k[j]));
    }
    crate::text::first_at_unique(p, '=', k.len() as int);
    assert(p.take(k.len() as int) =~= k);
    assert(p.skip(k.len() as int + 1) =~= v);
}

/// A configuration has what its settings set: each of its parts as it sets it alone, the
/// sizes 0 and the model's own precision where nothing is set, and at least one session.
pub proof fn a_configuration_has_what_its_settings_set(s: Seq<char>, i: int, v: Seq<char>, n: u32)
    requires
        config_of(s) is Ok,
        0 <= i < split_on(s, ',').len(),
    ensures
        ({
            let c = config_of(s)->Ok_0;
            let part = split_on(s, ',')[i];
            &&& part == "bundle"@ + seq!['='] + v ==> c.bundle == v
            &&& part == "device"@ + seq!['='] + crate::text::decimal(n as nat) ==> c.device == Device::Index(n)
            &&& part == "device"@ + seq!['='] + "select"@ ==> c.device == Device::Select
            &&& part == "max_batch"@ + seq!['='] + crate::text::decimal(n as nat) ==> c.max_batch == n
            &&& part == "max_seq"@ + seq!['='] + crate::text::decimal(n as nat) ==> c.max_seq == n
            &&& part == "sessions"@ + seq!['='] + crate::text::decimal(n as nat) ==> c.sessions == n
            &&& part == "precision"@ + seq!['='] + "PRECISION_FASTEST"@ ==> c.precision == 1
            &&& part == "precision"@ + seq!['='] + "PRECISION_EXACT"@ ==> c.precision == 2
            &&& c.sessions >= 1
        }),
{
    let p = split_on(s, ',');
    settings_are_the_parts(s, p, p.len() as int);
    a_setting_sets_its_own_key(Seq::empty(), v, n);
    assert(holds_all(settings_of(s, p, p.len() as int)->Ok_0, alone(p[i])));
}

/// A configuration needs its sessions, its bundle and its device; what else is not set is
/// 0.
pub proof fn a_configuration_needs_sessions_bundle_and_device(s: Seq<char>, v: Settings)
    ensures
        complete(s, v) is Ok <==> v.sessions is Some && v.sessions->0 > 0 && v.bundle is Some && v.device is Some,
        complete(s, v) matches Ok(c) ==> {
            &&& c.bundle == v.bundle->0
            &&& c.device == v.device->0
            &&& c.sessions == v.sessions->0
            &&& v.max_batch matches Some(n) ==> c.max_batch == n
            &&& v.max_batch is None ==> c.max_batch == 0
            &&& v.max_seq matches Some(n) ==> c.max_seq == n
            &&& v.max_seq is None ==> c.max_seq == 0
            &&& v.precision matches Some(n) ==> c.precision == n
            &&& v.precision is None ==> c.precision == 0
        },
{
}

/// A model is named after the last part of its bundle's path.
pub proof fn a_model_is_named_after_its_bundle(dir: Seq<char>, name: Seq<char>)
    requires
        !name.contains('/'),
        name != ""@,
        name != "."@,
        name != ".."@,
    ensures
        model_name(dir + seq!['/'] + name) == Some(name),
        model_name(name) == Some(name),
        model_name(dir + seq!['/']) is None,
{
    reveal_strlit("");
    last_slash(dir + seq!['/'], name);
    assert((dir + seq!['/']).last() == '/');
    let p = dir + seq!['/'] + name;
    assert(p.skip(dir.len() as int + 1) =~= name);
    last_slash(Seq::empty(), name);
    assert(Seq::<char>::empty() + name =~= name);
    assert(name.skip(0) =~= name);
    assert((dir + seq!['/']).skip(dir.len() as int + 1) =~= ""@);
}

/// The last slash stands before what has none.
proof fn last_slash(a: Seq<char>, t: Seq<char>)
    requires
        !t.contains('/'),
    ensures
        last_at(a + t, '/') == last_at(a, '/'),
    decreases t.len(),
{
    if t.len() == 0 {
        assert(a + t =~= a);
    } else {
        assert(t.contains(t[t.len() - 1]));
        assert((a + t).drop_last() =~= a + t.drop_last());
        assert forall|c: char| t.drop_last().contains(c) implies t.contains(c) by {
            let i = choose|i: int| 0 <= i < t.drop_last().len() && t.drop_last()[i] == c;
            assert(t[i] == c);
        }
        last_slash(a, t.drop_last());
    }
}

/// The value of a flag stands behind `=` in the same argument, or is the next argument.
pub proof fn a_flag_has_its_value_in_or_behind_it(name: Seq<char>, v: Seq<char>, args: Seq<Seq<char>>, i: int)
    requires
        !name.contains('='),
        0 <= i < args.len(),
    ensures
        args[i] == "--"@ + name + seq!['='] + v ==> flag_of(args[i]).0 == "--"@ + name && value_at(args, i)
            == Ok::<Seq<char>, Seq<char>>(v) && after_value(args, i) == i + 1,
        args[i] == "--"@ + name && i + 1 < args.len() ==> flag_of(args[i]).0 == "--"@ + name && value_at(
            args,
            i,
        ) == Ok::<Seq<char>, Seq<char>>(args[i + 1]) && after_value(args, i) == i + 2,
        args[i] == "--"@ + name && i + 1 == args.len() ==> value_at(args, i) is Err,
{
    reveal_strlit("--");
    let f = "--"@ + name;
    assert(!f.contains('=')) by {
        if f.contains('=') {
            let k = choose|k: int| 0 <= k < f.len() && f[k] == '=';
            assert(k >= 2);
            assert(name[k - 2] == '=');
            assert(name.contains('='));
        }
    }
    split_at_equals(f, v);
    assert(f.take(2) =~= "--"@);
    assert forall|j: int| 0 <= j < f.len() implies f[j] != '=' by {
        assert(f.contains(f[j]));
    }
    crate::text::first_at_unique(f, '=', f.len() as int);
}

/// What a flag does: one sets the address, which has to be one, one adds a model, and one
/// sets the largest message.
pub proof fn a_flag_does_its_own_work(v: Seq<char>, addresses: Seq<Seq<char>>, had: Parsed)
    ensures
        addresses.contains(v) ==> with_flag("--listen"@, v, addresses, had) == Ok::<Parsed, Seq<char>>(
            Parsed { listen: Some(v), ..had },
        ),
        !addresses.contains(v) ==> with_flag("--listen"@, v, addresses, had) is Err,
        config_of(v) matches Ok(m) ==> with_flag("--model"@, v, addresses, had) == Ok::<Parsed, Seq<char>>(
            Parsed { models: had.models.push(m), ..had },
        ),
        config_of(v) is Err ==> with_flag("--model"@, v, addresses, had) is Err,
        unsigned_value(v, usize::MAX as nat) matches Some(n) ==> (had.max_message_bytes is None ==> with_flag(
            "--max-message-bytes"@,
            v,
            addresses,
            had,
        ) == Ok::<Parsed, Seq<char>>(Parsed { max_message_bytes: Some(n as usize), ..had })),
        had.max_message_bytes is Some ==> with_flag("--max-message-bytes"@, v, addresses, had) is Err,
{
    reveal_strlit("--listen");
    reveal_strlit("--model");
    reveal_strlit("--max-message-bytes");
    assert("--listen"@[2] == 'l' && "--model"@[2] == 'm' && "--model"@[3] == 'o' && "--max-message-bytes"@[2]
        == 'm' && "--max-message-bytes"@[3] == 'a');
}

/// A server is started where its address is given, at least one model is, and no two
/// models have one name; messages are as large as said, and else at most 64 MiB.
pub proof fn a_server_needs_an_address_and_models(args: Seq<Seq<char>>, addresses: Seq<Seq<char>>)
    requires
        args_of(args, addresses) is Ok,
    ensures
        ({
            let a = args_of(args, addresses)->Ok_0;
            let p = args_from(
                args,
                addresses,
                0,
                Parsed { listen: None, models: Seq::empty(), max_message_bytes: None },
            )->Ok_0;
            &&& p.listen == Some(a.0)
            &&& p.models == a.1 && a.1.len() > 0
            &&& p.max_message_bytes matches Some(n) ==> a.2 == n
            &&& p.max_message_bytes is None ==> a.2 == 64 * 1024 * 1024
            &&& served_names(a.1, a.1.len() as int) is Ok
        }),
{
}

/// The command line knows three flags; an argument with any other is refused as it
/// stands, wherever the reading has come to.
pub proof fn only_three_flags_are_known(
    args: Seq<Seq<char>>,
    addresses: Seq<Seq<char>>,
    i: int,
    had: Parsed,
)
    requires
        0 <= i < args.len(),
    ensures
        ({
            let flag = flag_of(args[i]).0;
            let known = flag == "--listen"@ || flag == "--model"@ || flag == "--max-message-bytes"@;
            &&& is_flag(flag) <==> known
            &&& !known ==> args_from(args, addresses, i, had) == Err::<Parsed, Seq<char>>(
                "unknown argument "@ + args[i],
            )
        }),
{
}

} // verus!
