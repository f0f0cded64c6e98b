//! The state of the gRPC server: which models it serves, which of their sessions
//! are idle, how they are loaded, and what a result says of itself.

use vstd::prelude::*;
use crate::api::{
    before_nul, failure, field, lossy_text, Failure, FailureView, TURBO_E_BUNDLE_NOT_FOUND, TURBO_E_BUSY, TURBO_E_CAPACITY,
    TURBO_E_INTERNAL, TURBO_E_INVALID_STATE,
};
use crate::bytes::{as_u32, le_values, le_values_bound, pow256, read_all};
use crate::convert::{signed32, signed32_of};
use crate::config::{Device, ModelConfig};
use crate::infer::{
    plan, plan_of, InferParameter, ModelInferRequest, Options, ParameterChoice, Parameters, Plan, Rows,
    RealView, RowsView,
};
use crate::names::{
    cap, cap_names, embed_stage_names, embed_stages, normalize, normalize_names, pooling, pooling_names,
    precision, precision_names, shown, Constants,
};
use crate::oip::{meta_of, meta_views, TensorMeta};
use crate::status::{describe, described, session_desc, session_fields};
use crate::text::{cat2, cat3, cat6, cat8, decimal, decimal_of, join_of, joined, same, views};

verus! {

/// The sessions of a model that are idle, the next to be taken last.
#[derive(Debug)]
pub struct Pool {
    slots: usize,
    idle: Vec<usize>,
}

impl Pool {
    /// How many sessions the model has.
    pub closed spec fn slots(&self) -> nat {
        self.slots as nat
    }

    /// The idle sessions.
    pub closed spec fn idle(&self) -> Seq<usize> {
        self.idle@
    }

    /// Every idle session is one of the model's, and none is idle twice.
    pub open spec fn wf(&self) -> bool {
        &&& self.idle().no_duplicates()
        &&& forall|i: int| 0 <= i < self.idle().len() ==> (#[trigger] self.idle()[i]) < self.slots()
    }

    /// Whether a session is taken.
    pub open spec fn held(&self, i: usize) -> bool {
        i < self.slots() && !self.idle().contains(i)
    }

    /// The pool of a model with `slots` sessions, all idle.
    pub fn new(slots: usize) -> (r: Pool)
        ensures
            r.wf(),
            r.slots() == slots,
            r.idle() == Seq::new(slots as nat, |i: int| (slots - 1 - i) as usize),
    {
        let mut idle: Vec<usize> = Vec::new();
        let mut n: usize = slots;
        while n > 0
            invariant
                n <= slots,
                idle@ == Seq::new((slots - n) as nat, |i: int| (slots - 1 - i) as usize),
            decreases n,
        {
            let ghost before = idle@;
            n = n - 1;
            idle.push(n);
            proof {
                assert(idle@ =~= Seq::new((slots - n) as nat, |i: int| (slots - 1 - i) as usize));
            }
        }
        Pool { slots, idle }
    }

    /// An idle session, or a refusal at once when every one is held.
    pub fn take(&mut self) -> (r: Result<usize, Failure>)
        requires
            old(self).wf(),
        ensures
            final(self).wf(),
            final(self).slots() == old(self).slots(),
            if old(self).idle().len() == 0 {
                &&& r is Err
                &&& r->Err_0@ == failure(
                    TURBO_E_BUSY,
                    0,
                    "all "@ + decimal(old(self).slots()) + " sessions of the model are held"@,
                )
                &&& final(self).idle() == old(self).idle()
            } else {
                &&& r == Ok::<usize, Failure>(old(self).idle().last())
                &&& final(self).idle() == old(self).idle().drop_last()
                &&& final(self).held(r->Ok_0)
            },
    {
        let ghost before = self.idle@;
        match self.idle.pop() {
            None => Err(
                Failure::new(
                    TURBO_E_BUSY,
                    0,
                    cat3(
                        "all ",
                        decimal_of(self.slots as u128).as_str(),
                        " sessions of the model are held",
                    ),
                ),
            ),
            Some(i) => {
                proof {
                    assert(self.idle@ =~= before.drop_last());
                    assert(before[before.len() - 1] == i);
                    assert forall|a: int, b: int|
                        0 <= a < self.idle@.len() && 0 <= b < self.idle@.len() && a != b implies self.idle@[a]
                        != self.idle@[b] by {
                        assert(before[a] != before[b]);
                    }
                    assert forall|a: int| 0 <= a < self.idle@.len() implies #[trigger] self.idle@[a]
                        < self.slots by {
                        assert(before[a] < self.slots);
                    }
                    assert(!self.idle@.contains(i)) by {
                        if self.idle@.contains(i) {
                            let k = choose|k: int| 0 <= k < self.idle@.len() && self.idle@[k] == i;
                            assert(before[k] != before[before.len() - 1]);
                        }
                    }
                }
                Ok(i)
            },
        }
    }

    /// A session that was taken comes back.
    pub fn give_back(&mut self, i: usize)
        requires
            old(self).wf(),
            old(self).held(i),
        ensures
            final(self).wf(),
            final(self).slots() == old(self).slots(),
            final(self).idle() == old(self).idle().push(i),
    {
        let ghost before = self.idle@;
        self.idle.push(i);
        proof {
            assert forall|a: int, b: int|
                0 <= a < self.idle@.len() && 0 <= b < self.idle@.len() && a != b implies self.idle@[a]
                != self.idle@[b] by {
                if a == before.len() {
                    assert(before.contains(before[b]));
                } else if b == before.len() {
                    assert(before.contains(before[a]));
                } else {
                    assert(before[a] != before[b]);
                }
            }
            assert forall|a: int| 0 <= a < self.idle@.len() implies #[trigger] self.idle@[a]
                < self.slots by {
                if a < before.len() {
                    assert(before[a] < self.slots);
                }
            }
        }
    }
}

/// A session is either idle or held; so a refusal means that every one is held,
/// and a session that is taken was held by nobody.
pub proof fn busy_means_all_held(p: Pool, i: usize)
    requires
        p.wf(),
        i < p.slots(),
        p.idle().len() == 0,
    ensures
        p.held(i),
{
}

/// Giving back the session that was taken leaves the pool as it was.
pub proof fn give_back_undoes_take(p: Pool)
    requires
        p.wf(),
        p.idle().len() > 0,
    ensures
        p.idle().drop_last().push(p.idle().last()) == p.idle(),
{
    assert(p.idle().drop_last().push(p.idle().last()) =~= p.idle());
}

/// The idle sessions are at most as many as the model has.
pub proof fn idle_fits(p: Pool)
    requires
        p.wf(),
    ensures
        p.idle().len() <= p.slots(),
{
    bounded_distinct(p.idle(), p.slots());
}

/// Distinct numbers below `n` are at most `n`.
proof fn bounded_distinct(s: Seq<usize>, n: nat)
    requires
        s.no_duplicates(),
        forall|i: int| 0 <= i < s.len() ==> (#[trigger] s[i]) < n,
    ensures
        s.len() <= n,
    decreases n,
{
    if s.len() > 0 {
        assert(s[0] < n);
        let m = (n - 1) as nat;
        if exists|k: int| 0 <= k < s.len() && s[k] == m {
            let k = choose|k: int| 0 <= k < s.len() && s[k] == m;
            let t = s.remove(k);
            assert forall|i: int| 0 <= i < t.len() implies (#[trigger] t[i]) < m by {
                let j = if i < k { i } else { i + 1 };
                assert(t[i] == s[j]);
                assert(s[j] != s[k]);
            }
            assert(t.no_duplicates()) by {
                assert forall|a: int, b: int|
                    0 <= a < t.len() && 0 <= b < t.len() && a != b implies t[a] != t[b] by {
                    let x = if a < k { a } else { a + 1 };
                    let y = if b < k { b } else { b + 1 };
                    assert(t[a] == s[x] && t[b] == s[y]);
                    assert(s[x] != s[y]);
                }
            }
            bounded_distinct(t, m);
        } else {
            assert forall|i: int| 0 <= i < s.len() implies (#[trigger] s[i]) < m by {
                assert(s[i] != m);
            }
            bounded_distinct(s, m);
        }
    }
}

/// What is known of a model once it is loaded.
#[derive(Debug)]
pub struct Loaded {
    pub revision: String,
    pub device: u32,
    /// The limits of its sessions, which are all made alike.
    pub max_batch: u32,
    pub max_seq: u32,
}

/// A model that is served.
#[derive(Debug)]
pub struct Served {
    pub name: String,
    pub config: ModelConfig,
    pub loaded: Option<Loaded>,
}

/// The models that are served.
#[derive(Debug)]
pub struct State {
    pub models: Vec<Served>,
}

/// Where a model of this name first stands, from place `i` on; the number of
/// models if nowhere.
pub open spec fn model_at(models: Seq<Served>, name: Seq<char>, i: int) -> int
    decreases models.len() - i,
{
    if 0 <= i < models.len() && models[i].name@ != name {
        model_at(models, name, i + 1)
    } else {
        i
    }
}

/// The place of the model of this name, or the refusal of one that is not served.
pub open spec fn served_at(models: Seq<Served>, name: Seq<char>) -> Result<int, FailureView> {
    let at = model_at(models, name, 0);
    if at < models.len() {
        Ok(at)
    } else {
        Err(failure(TURBO_E_BUNDLE_NOT_FOUND, 0, "no model "@ + name + " is served here"@))
    }
}

/// The place of a ready model, the version empty or its revision, or the refusal.
pub open spec fn ready_at(models: Seq<Served>, name: Seq<char>, version: Seq<char>) -> Result<
    int,
    FailureView,
> {
    match served_at(models, name) {
        Err(e) => Err(e),
        Ok(at) => match models[at].loaded {
            None => Err(
                failure(TURBO_E_INVALID_STATE, 0, "model "@ + name + " is not loaded yet"@),
            ),
            Some(l) => if version.len() > 0 && version != l.revision@ {
                Err(
                    failure(
                        TURBO_E_BUNDLE_NOT_FOUND,
                        0,
                        "model "@ + name + " has version "@ + l.revision@ + ", not "@ + version,
                    ),
                )
            } else {
                Ok(at)
            },
        },
    }
}

/// Whether every model from place `i` on is loaded.
pub open spec fn all_loaded(models: Seq<Served>, i: int) -> bool
    decreases models.len() - i,
{
    if i < 0 || i >= models.len() {
        true
    } else {
        models[i].loaded is Some && all_loaded(models, i + 1)
    }
}

/// The refusal of raw token rows that are over the limits of a session.
pub open spec fn fits_fault(max_batch: u32, max_seq: u32, batch: u32, seq: u32) -> Option<FailureView> {
    if batch > max_batch || seq > max_seq {
        Some(
            failure(
                TURBO_E_CAPACITY,
                0,
                "token rows ["@ + decimal(batch as nat) + ", "@ + decimal(seq as nat)
                    + "] are over the session's max_batch "@ + decimal(max_batch as nat)
                    + " or max_seq "@ + decimal(max_seq as nat),
            ),
        )
    } else {
        None
    }
}

/// Check that raw token rows fit a session's buffers, before the copy.
pub fn fits(max_batch: u32, max_seq: u32, batch: u32, seq: u32) -> (r: Result<(), Failure>)
    ensures
        match fits_fault(max_batch, max_seq, batch, seq) {
            Some(e) => r is Err && r->Err_0@ == e,
            None => r is Ok,
        },
{
    if batch > max_batch || seq > max_seq {
        return Err(
            Failure::new(
                TURBO_E_CAPACITY,
                0,
                cat8(
                    "token rows [",
                    decimal_of(batch as u128).as_str(),
                    ", ",
                    decimal_of(seq as u128).as_str(),
                    "] are over the session's max_batch ",
                    decimal_of(max_batch as u128).as_str(),
                    " or max_seq ",
                    decimal_of(max_seq as u128).as_str(),
                ),
            ),
        );
    }
    Ok(())
}

/// The refusal of rows that a model's sessions have no room for.
pub open spec fn room_fault(rows: RowsView, l: Loaded) -> Option<FailureView> {
    match rows {
        RowsView::Raw { batch, seq, .. } => fits_fault(l.max_batch, l.max_seq, batch, seq),
        _ => None,
    }
}

/// What a request asks of which model, or the refusal, before a session is taken:
/// an oversized raw request is refused even where every session is held.
pub open spec fn accepted(models: Seq<Served>, req: ModelInferRequest) -> Result<
    (int, RowsView, Options),
    FailureView,
> {
    match ready_at(models, req.model_name@, req.model_version@) {
        Err(e) => Err(e),
        Ok(at) => match plan_of(req) {
            Err(e) => Err(e),
            Ok(p) => match room_fault(p.0, models[at].loaded->0) {
                Some(e) => Err(e),
                None => Ok((at, p.0, p.1)),
            },
        },
    }
}

impl State {
    /// The place of the model of this name.
    pub fn served(&self, name: &str) -> (r: Result<usize, Failure>)
        ensures
            match served_at(self.models@, name@) {
                Ok(at) => r is Ok && r->Ok_0 == at && 0 <= at < self.models.len(),
                Err(e) => r is Err && r->Err_0@ == e,
            },
    {
        let mut i: usize = 0;
        while i < self.models.len() && !same(self.models[i].name.as_str(), name)
            invariant
                i <= self.models.len(),
                model_at(self.models@, name@, i as int) == model_at(self.models@, name@, 0),
            decreases self.models.len() - i,
        {
            i = i + 1;
        }
        if i < self.models.len() {
            return Ok(i);
        }
        Err(
            Failure::new(
                TURBO_E_BUNDLE_NOT_FOUND,
                0,
                cat3("no model ", name, " is served here"),
            ),
        )
    }

    /// The place of a ready model, the version empty or its revision.
    pub fn ready(&self, name: &str, version: &str) -> (r: Result<usize, Failure>)
        ensures
            match ready_at(self.models@, name@, version@) {
                Ok(at) => {
                    &&& r is Ok
                    &&& r->Ok_0 == at
                    &&& 0 <= at < self.models.len()
                    &&& self.models@[at].loaded is Some
                },
                Err(e) => r is Err && r->Err_0@ == e,
            },
    {
        let at = match self.served(name) {
            Err(e) => return Err(e),
            Ok(at) => at,
        };
        match &self.models[at].loaded {
            None => Err(
                Failure::new(TURBO_E_INVALID_STATE, 0, cat3("model ", name, " is not loaded yet")),
            ),
            Some(l) => {
                if !version.is_empty() && !same(version, l.revision.as_str()) {
                    return Err(
                        Failure::new(
                            TURBO_E_BUNDLE_NOT_FOUND,
                            0,
                            cat6(
                                "model ",
                                name,
                                " has version ",
                                l.revision.as_str(),
                                ", not ",
                                version,
                            ),
                        ),
                    );
                }
                Ok(at)
            },
        }
    }

    /// Whether every model is loaded.
    pub fn server_ready(&self) -> (r: bool)
        ensures
            r == all_loaded(self.models@, 0),
    {
        let mut i: usize = 0;
        while i < self.models.len()
            invariant
                i <= self.models.len(),
                all_loaded(self.models@, i as int) == all_loaded(self.models@, 0),
            decreases self.models.len() - i,
        {
            if self.models[i].loaded.is_none() {
                return false;
            }
            i = i + 1;
        }
        true
    }

    /// Whether a model is ready: one that is not loaded is not, whatever version
    /// is asked for; one that is must have that version.
    pub fn model_ready(&self, name: &str, version: &str) -> (r: Result<bool, Failure>)
        ensures
            match served_at(self.models@, name@) {
                Err(e) => r is Err && r->Err_0@ == e,
                Ok(at) => if self.models@[at].loaded is None {
                    r == Ok::<bool, Failure>(false)
                } else {
                    match ready_at(self.models@, name@, version@) {
                        Err(e) => r is Err && r->Err_0@ == e,
                        Ok(_) => r == Ok::<bool, Failure>(true),
                    }
                },
            },
    {
        let at = match self.served(name) {
            Err(e) => return Err(e),
            Ok(at) => at,
        };
        if self.models[at].loaded.is_none() {
            return Ok(false);
        }
        match self.ready(name, version) {
            Err(e) => Err(e),
            Ok(_) => Ok(true),
        }
    }

    /// What a request asks of which model, before a session is taken.
    pub fn accept<'a>(&self, req: &'a ModelInferRequest) -> (r: Result<(usize, Plan<'a>), Failure>)
        ensures
            match accepted(self.models@, *req) {
                Ok(v) => {
                    &&& r is Ok
                    &&& r->Ok_0.0 == v.0
                    &&& r->Ok_0.1.rows@ == v.1
                    &&& r->Ok_0.1.opts == v.2
                    &&& 0 <= v.0 < self.models.len()
                    &&& self.models@[v.0].loaded is Some
                },
                Err(e) => r is Err && r->Err_0@ == e,
            },
    {
        let at = match self.ready(req.model_name.as_str(), req.model_version.as_str()) {
            Err(e) => return Err(e),
            Ok(at) => at,
        };
        let p = match plan(req) {
            Err(e) => return Err(e),
            Ok(p) => p,
        };
        if let Rows::Raw { batch, seq, .. } = &p.rows {
            if let Some(l) = &self.models[at].loaded {
                match fits(l.max_batch, l.max_seq, *batch, *seq) {
                    Err(e) => return Err(e),
                    Ok(()) => {},
                }
            }
        }
        Ok((at, p))
    }
}

/// Whether every model has its pool of sessions.
pub open spec fn pools_wf(models: Seq<Served>, pools: Seq<Pool>) -> bool {
    &&& pools.len() == models.len()
    &&& forall|i: int| 0 <= i < pools.len() ==> (#[trigger] pools[i]).wf()
}

impl State {
    /// Begin a request: what it asks of which model, and the session that is taken for
    /// it. A request that is not accepted is refused before the sessions are looked
    /// at, so that one that can never be served is never answered as busy.
    pub fn begin_infer<'a>(&self, pools: &mut Vec<Pool>, req: &'a ModelInferRequest) -> (r: Result<
        (usize, Plan<'a>, usize),
        Failure,
    >)
        requires
            pools_wf(self.models@, old(pools)@),
        ensures
            pools_wf(self.models@, final(pools)@),
            match accepted(self.models@, *req) {
                Err(e) => r is Err && r->Err_0@ == e && final(pools)@ == old(pools)@,
                Ok(v) => {
                    let before = old(pools)@[v.0];
                    let after = final(pools)@[v.0];
                    &&& 0 <= v.0 < old(pools).len()
                    &&& self.models@[v.0].loaded is Some
                    &&& forall|i: int|
                        0 <= i < old(pools).len() && i != v.0 ==> #[trigger] final(pools)@[i] == old(
                            pools,
                        )@[i]
                    &&& after.slots() == before.slots()
                    &&& if before.idle().len() == 0 {
                        &&& r is Err
                        &&& r->Err_0@ == failure(
                            TURBO_E_BUSY,
                            0,
                            "all "@ + decimal(before.slots()) + " sessions of the model are held"@,
                        )
                        &&& after.idle() == before.idle()
                    } else {
                        &&& r is Ok
                        &&& r->Ok_0.0 == v.0
                        &&& r->Ok_0.1.rows@ == v.1
                        &&& r->Ok_0.1.opts == v.2
                        &&& r->Ok_0.2 == before.idle().last()
                        &&& after.idle() == before.idle().drop_last()
                        &&& after.held(r->Ok_0.2)
                    }
                },
            },
    {
        let (at, p) = match self.accept(req) {
            Err(e) => return Err(e),
            Ok(v) => v,
        };
        match pools[at].take() {
            Err(e) => Err(e),
            Ok(session) => Ok((at, p, session)),
        }
    }
}

/// A request that is accepted is of a model that is served, by that name, loaded,
/// and in the version asked for where one is.
pub proof fn accepted_is_ready(models: Seq<Served>, req: ModelInferRequest)
    requires
        accepted(models, req) is Ok,
    ensures
        ({
            let at = accepted(models, req)->Ok_0.0;
            &&& 0 <= at < models.len()
            &&& models[at].name@ == req.model_name@
            &&& models[at].loaded is Some
            &&& req.model_version@.len() == 0 || req.model_version@ == models[at].loaded->0.revision@
        }),
{
    found_by_name(models, req.model_name@, 0);
}

/// A model that is found has the name.
proof fn found_by_name(models: Seq<Served>, name: Seq<char>, i: int)
    requires
        0 <= i <= models.len(),
    ensures
        i <= model_at(models, name, i) <= models.len(),
        model_at(models, name, i) < models.len() ==> models[model_at(models, name, i)].name@ == name,
    decreases models.len() - i,
{
    if i < models.len() && models[i].name@ != name {
        found_by_name(models, name, i + 1);
    }
}

/// A step of loading the models.
#[derive(Clone, Copy, Debug, PartialEq, Eq, Structural)]
pub enum Step {
    /// Make the runtime.
    CreateRuntime,
    /// Ask the runtime for the device of a model.
    Select { model: usize },
    /// Make a context on the device of a model.
    CreateContext { model: usize, device: u32 },
    /// Load the model on the device.
    LoadModel { model: usize, device: u32 },
    /// Read what the model says of itself.
    ModelInfo { model: usize, device: u32 },
    /// Make the next session; `made` are there.
    CreateSession { model: usize, device: u32, made: u32 },
    /// Read the limits of the session that was made last.
    SessionInfo { model: usize, device: u32, made: u32 },
    /// Make a pinned buffer of that session: its ids, mask or types.
    Alloc { model: usize, device: u32, made: u32, buffer: u8 },
    /// Map that buffer.
    HostPtr { model: usize, device: u32, made: u32, buffer: u8 },
    /// Serve the model.
    Publish { model: usize, device: u32 },
    /// Every model is loaded.
    Finished,
}

/// The first model from `i` on that is not loaded, or the number of models.
pub open spec fn unloaded_from(models: Seq<Served>, i: int) -> int
    decreases models.len() - i,
{
    if 0 <= i < models.len() && models[i].loaded is Some {
        unloaded_from(models, i + 1)
    } else {
        i
    }
}

/// The step after a device is known: its context is made once.
pub open spec fn with_device(contexts: Seq<u32>, model: usize, device: u32) -> Step {
    if contexts.contains(device) {
        Step::LoadModel { model, device }
    } else {
        Step::CreateContext { model, device }
    }
}

/// The first step of the models from `i` on.
pub open spec fn start_model(models: Seq<Served>, contexts: Seq<u32>, i: int) -> Step {
    let at = unloaded_from(models, i);
    if at >= models.len() {
        Step::Finished
    } else {
        match models[at].config.device {
            Device::Index(d) => with_device(contexts, at as usize, d),
            Device::Select => Step::Select { model: at as usize },
        }
    }
}

/// The step after one that succeeded; `selected` is the device that `Select` gave,
/// and `contexts` are the devices with a context.
pub open spec fn following(models: Seq<Served>, contexts: Seq<u32>, selected: u32, step: Step) -> Step {
    match step {
        Step::CreateRuntime => start_model(models, contexts, 0),
        Step::Select { model } => with_device(contexts, model, selected),
        Step::CreateContext { model, device } => Step::LoadModel { model, device },
        Step::LoadModel { model, device } => Step::ModelInfo { model, device },
        Step::ModelInfo { model, device } => next_session(models, model, device, 0),
        Step::CreateSession { model, device, made } => Step::SessionInfo { model, device, made },
        Step::SessionInfo { model, device, made } => Step::Alloc { model, device, made, buffer: 0 },
        Step::Alloc { model, device, made, buffer } => Step::HostPtr { model, device, made, buffer },
        Step::HostPtr { model, device, made, buffer } => if buffer < 2 {
            Step::Alloc { model, device, made, buffer: (buffer + 1) as u8 }
        } else {
            next_session(models, model, device, made + 1)
        },
        Step::Publish { model, .. } => start_model(models, contexts, model + 1),
        Step::Finished => Step::Finished,
    }
}

/// The step once `made` sessions of a model are made.
pub open spec fn next_session(models: Seq<Served>, model: usize, device: u32, made: int) -> Step {
    if made < models[model as int].config.sessions {
        Step::CreateSession { model, device, made: made as u32 }
    } else {
        Step::Publish { model, device }
    }
}

/// The model that a step is about is one of these, and so are its counts.
pub open spec fn step_wf(models: Seq<Served>, step: Step) -> bool {
    match step {
        Step::CreateRuntime => true,
        Step::Select { model } => model < models.len(),
        Step::CreateContext { model, .. } => model < models.len(),
        Step::LoadModel { model, .. } => model < models.len(),
        Step::ModelInfo { model, .. } => model < models.len(),
        Step::CreateSession { model, made, .. } => model < models.len() && made
            < models[model as int].config.sessions,
        Step::SessionInfo { model, made, .. } => model < models.len() && made
            < models[model as int].config.sessions,
        Step::Alloc { model, made, buffer, .. } => model < models.len() && made
            < models[model as int].config.sessions && buffer < 3,
        Step::HostPtr { model, made, buffer, .. } => model < models.len() && made
            < models[model as int].config.sessions && buffer < 3,
        Step::Publish { model, .. } => model < models.len(),
        Step::Finished => true,
    }
}

/// Whether a device has a context.
fn has_context(contexts: &Vec<u32>, device: u32) -> (r: bool)
    ensures
        r == contexts@.contains(device),
{
    let mut i: usize = 0;
    while i < contexts.len()
        invariant
            i <= contexts.len(),
            forall|j: int| 0 <= j < i ==> contexts@[j] != device,
        decreases contexts.len() - i,
    {
        if contexts[i] == device {
            return true;
        }
        i = i + 1;
    }
    false
}

impl State {
    /// The step after a device is known.
    fn on_device(contexts: &Vec<u32>, model: usize, device: u32) -> (r: Step)
        ensures
            r == with_device(contexts@, model, device),
    {
        if has_context(contexts, device) {
            Step::LoadModel { model, device }
        } else {
            Step::CreateContext { model, device }
        }
    }

    /// The first step of the models from `i` on.
    fn start(&self, contexts: &Vec<u32>, i: usize) -> (r: Step)
        requires
            i <= self.models.len(),
        ensures
            r == start_model(self.models@, contexts@, i as int),
            step_wf(self.models@, r),
    {
        let mut at: usize = i;
        while at < self.models.len() && self.models[at].loaded.is_some()
            invariant
                at <= self.models.len(),
                unloaded_from(self.models@, at as int) == unloaded_from(self.models@, i as int),
            decreases self.models.len() - at,
        {
            at = at + 1;
        }
        if at >= self.models.len() {
            return Step::Finished;
        }
        match self.models[at].config.device {
            Device::Index(d) => State::on_device(contexts, at, d),
            Device::Select => Step::Select { model: at },
        }
    }

    /// The step once `made` sessions of a model are made.
    fn session_step(&self, model: usize, device: u32, made: u32) -> (r: Step)
        requires
            model < self.models.len(),
        ensures
            r == next_session(self.models@, model, device, made as int),
            step_wf(self.models@, r),
    {
        if made < self.models[model].config.sessions {
            Step::CreateSession { model, device, made }
        } else {
            Step::Publish { model, device }
        }
    }

    /// The step with which loading begins.
    pub fn begin_load(&self, has_runtime: bool, contexts: &Vec<u32>) -> (r: Step)
        ensures
            step_wf(self.models@, r),
            r == (if has_runtime {
                start_model(self.models@, contexts@, 0)
            } else {
                Step::CreateRuntime
            }),
    {
        if has_runtime {
            self.start(contexts, 0)
        } else {
            Step::CreateRuntime
        }
    }

    /// The step after one that succeeded.
    pub fn next_load(&self, contexts: &Vec<u32>, selected: u32, step: Step) -> (r: Step)
        requires
            step_wf(self.models@, step),
        ensures
            r == following(self.models@, contexts@, selected, step),
            step_wf(self.models@, r),
    {
        match step {
            Step::CreateRuntime => self.start(contexts, 0),
            Step::Select { model } => State::on_device(contexts, model, selected),
            Step::CreateContext { model, device } => Step::LoadModel { model, device },
            Step::LoadModel { model, device } => Step::ModelInfo { model, device },
            Step::ModelInfo { model, device } => self.session_step(model, device, 0),
            Step::CreateSession { model, device, made } => Step::SessionInfo { model, device, made },
            Step::SessionInfo { model, device, made } => Step::Alloc { model, device, made, buffer: 0 },
            Step::Alloc { model, device, made, buffer } => Step::HostPtr { model, device, made, buffer },
            Step::HostPtr { model, device, made, buffer } => if buffer < 2 {
                Step::Alloc { model, device, made, buffer: buffer + 1 }
            } else {
                self.session_step(model, device, made + 1)
            },
            Step::Publish { model, .. } => if model < self.models.len() {
                self.start(contexts, model + 1)
            } else {
                Step::Finished
            },
            Step::Finished => Step::Finished,
        }
    }
}

/// How many steps are left at most: of the models behind, and of the sessions of
/// the one at hand.
pub open spec fn steps_left(models: Seq<Served>, step: Step) -> (int, int, int) {
    match step {
        Step::CreateRuntime => (models.len() + 1 as int, 0, 0),
        Step::Select { model } => (models.len() - model, u32::MAX + 1, 9),
        Step::CreateContext { model, .. } => (models.len() - model, u32::MAX + 1, 8),
        Step::LoadModel { model, .. } => (models.len() - model, u32::MAX + 1, 7),
        Step::ModelInfo { model, .. } => (models.len() - model, u32::MAX + 1, 6),
        Step::CreateSession { model, made, .. } => (models.len() - model, u32::MAX - made, 8),
        Step::SessionInfo { model, made, .. } => (models.len() - model, u32::MAX - made, 7),
        Step::Alloc { model, made, buffer, .. } => (
            models.len() - model,
            u32::MAX - made,
            6 - 2 * buffer,
        ),
        Step::HostPtr { model, made, buffer, .. } => (
            models.len() - model,
            u32::MAX - made,
            5 - 2 * buffer,
        ),
        Step::Publish { model, .. } => (models.len() - model, 0, 0),
        Step::Finished => (-1, 0, 0),
    }
}

/// Loading ends: every step leaves fewer.
pub proof fn loading_ends(models: Seq<Served>, contexts: Seq<u32>, selected: u32, step: Step)
    requires
        step_wf(models, step),
        models.len() <= usize::MAX,
        step != Step::Finished,
    ensures
        ({
            let a = steps_left(models, step);
            let b = steps_left(models, following(models, contexts, selected, step));
            b.0 < a.0 || (b.0 == a.0 && (b.1 < a.1 || (b.1 == a.1 && b.2 < a.2)))
        }),
{
    match step {
        Step::CreateRuntime => {
            unloaded_bounds(models, 0);
        },
        Step::Publish { model, .. } => {
            unloaded_bounds(models, model + 1);
        },
        _ => {},
    }
}

/// The next model is not before `i`.
proof fn unloaded_bounds(models: Seq<Served>, i: int)
    requires
        0 <= i <= models.len(),
    ensures
        i <= unloaded_from(models, i) <= models.len(),
        unloaded_from(models, i) < models.len() ==> models[unloaded_from(models, i)].loaded is None,
    decreases models.len() - i,
{
    if i < models.len() && models[i].loaded is Some {
        unloaded_bounds(models, i + 1);
    }
}

/// The call that a step makes.
pub open spec fn call_name(step: Step) -> Seq<char> {
    match step {
        Step::CreateRuntime => "turbo_runtime_create"@,
        Step::Select { .. } => "turbo_runtime_select"@,
        Step::CreateContext { .. } => "turbo_context_create"@,
        Step::LoadModel { .. } => "turbo_model_load"@,
        Step::ModelInfo { .. } => "turbo_model_get_info"@,
        Step::CreateSession { .. } => "turbo_session_create"@,
        Step::SessionInfo { .. } => "turbo_session_get_info"@,
        Step::Alloc { .. } => "turbo_buffer_alloc"@,
        Step::HostPtr { .. } => "turbo_buffer_host_ptr"@,
        Step::Publish { .. } => ""@,
        Step::Finished => ""@,
    }
}

/// The model that a step names in its failure.
pub open spec fn step_model(models: Seq<Served>, step: Step) -> Seq<char> {
    match step {
        Step::CreateRuntime => "-"@,
        Step::Select { model } => models[model as int].name@,
        Step::CreateContext { model, .. } => models[model as int].name@,
        Step::LoadModel { model, .. } => models[model as int].name@,
        Step::ModelInfo { model, .. } => models[model as int].name@,
        Step::CreateSession { model, .. } => models[model as int].name@,
        Step::SessionInfo { model, .. } => models[model as int].name@,
        Step::Alloc { model, .. } => models[model as int].name@,
        Step::HostPtr { model, .. } => models[model as int].name@,
        Step::Publish { model, .. } => models[model as int].name@,
        Step::Finished => "-"@,
    }
}

/// The fields of the struct that a step's call takes.
pub open spec fn step_fields(step: Step) -> Seq<Seq<char>> {
    match step {
        Step::CreateSession { .. } => session_fields(),
        _ => Seq::empty(),
    }
}

/// What to say of a step that failed: the model, the call, its status, the field
/// it names and the library's message.
pub fn load_failure(state: &State, step: Step, f: &Failure) -> (r: String)
    requires
        step_wf(state.models@, step),
    ensures
        r@ == "model "@ + step_model(state.models@, step) + ": "@ + call_name(step) + ": "@ + described(
            f@,
            step_fields(step),
        ),
{
    let call: &str = match step {
        Step::CreateRuntime => "turbo_runtime_create",
        Step::Select { .. } => "turbo_runtime_select",
        Step::CreateContext { .. } => "turbo_context_create",
        Step::LoadModel { .. } => "turbo_model_load",
        Step::ModelInfo { .. } => "turbo_model_get_info",
        Step::CreateSession { .. } => "turbo_session_create",
        Step::SessionInfo { .. } => "turbo_session_get_info",
        Step::Alloc { .. } => "turbo_buffer_alloc",
        Step::HostPtr { .. } => "turbo_buffer_host_ptr",
        Step::Publish { .. } => "",
        Step::Finished => "",
    };
    let name: &str = match step {
        Step::CreateRuntime => "-",
        Step::Select { model } => state.models[model].name.as_str(),
        Step::CreateContext { model, .. } => state.models[model].name.as_str(),
        Step::LoadModel { model, .. } => state.models[model].name.as_str(),
        Step::ModelInfo { model, .. } => state.models[model].name.as_str(),
        Step::CreateSession { model, .. } => state.models[model].name.as_str(),
        Step::SessionInfo { model, .. } => state.models[model].name.as_str(),
        Step::Alloc { model, .. } => state.models[model].name.as_str(),
        Step::HostPtr { model, .. } => state.models[model].name.as_str(),
        Step::Publish { model, .. } => state.models[model].name.as_str(),
        Step::Finished => "-",
    };
    let fields: Vec<String> = match step {
        Step::CreateSession { .. } => session_desc(),
        _ => Vec::new(),
    };
    proof {
        assert(views(fields@) =~= step_fields(step));
    }
    cat6("model ", name, ": ", call, ": ", describe(f, &fields).as_str())
}

/// The words of little-endian token rows, as they are copied to a session's
/// buffer; bytes behind the last whole word are left.
pub open spec fn row_words(src: Seq<u8>) -> Seq<i32> {
    let v = as_u32(le_values(src, 4));
    Seq::new(v.len(), |i: int| signed32(v[i]))
}

/// The words of little-endian token rows, as they are copied to a session's buffer.
pub fn copy_rows(src: &Vec<u8>) -> (r: Vec<i32>)
    ensures
        r@ == row_words(src@),
{
    let words = read_all(src, 4);
    proof {
        reveal_with_fuel(pow256, 5);
    }
    let mut out: Vec<i32> = Vec::new();
    let mut i: usize = 0;
    while i < words.len()
        invariant
            i <= words.len(),
            out.len() == i,
            forall|j: int| 0 <= j < words.len() ==> (#[trigger] words@[j]) <= u32::MAX,
            forall|j: int| 0 <= j < i ==> (#[trigger] out@[j]) == signed32(words@[j] as u32),
        decreases words.len() - i,
    {
        out.push(signed32_of(words[i] as u32));
        i = i + 1;
    }
    proof {
        let v = le_values(src@, 4);
        assert forall|j: int| 0 <= j < v.len() implies out@[j] == signed32(#[trigger] as_u32(v)[j]) by {
            le_values_bound(src@, 4, j);
        }
        assert(out@ =~= row_words(src@));
    }
    out
}

/// The protocol's name for an element type.
pub open spec fn datatype_name(c: Constants, dtype: u32) -> Option<Seq<char>> {
    if dtype == c.dtype_f32 {
        Some("FP32"@)
    } else if dtype == c.dtype_f16 {
        Some("FP16"@)
    } else if dtype == c.dtype_bf16 {
        Some("BF16"@)
    } else if dtype == c.dtype_i32 {
        Some("INT32"@)
    } else {
        None
    }
}

/// The protocol's name for a result's element type, or the refusal of one that has none.
pub fn datatype(c: &Constants, dtype: u32) -> (r: Result<String, Failure>)
    ensures
        match datatype_name(*c, dtype) {
            Some(n) => r is Ok && r->Ok_0@ == n,
            None => r is Err && r->Err_0@ == failure(
                TURBO_E_INTERNAL,
                0,
                "the result's dtype "@ + decimal(dtype as nat)
                    + " has no datatype in the protocol"@,
            ),
        },
{
    if dtype == c.dtype_f32 {
        Ok("FP32".to_owned())
    } else if dtype == c.dtype_f16 {
        Ok("FP16".to_owned())
    } else if dtype == c.dtype_bf16 {
        Ok("BF16".to_owned())
    } else if dtype == c.dtype_i32 {
        Ok("INT32".to_owned())
    } else {
        Err(
            Failure::new(
                TURBO_E_INTERNAL,
                0,
                cat3(
                    "the result's dtype ",
                    decimal_of(dtype as u128).as_str(),
                    " has no datatype in the protocol",
                ),
            ),
        )
    }
}

/// Whether a result at this placement is read where it lies, not downloaded.
pub fn is_mapped(c: &Constants, placement: u32) -> (r: bool)
    ensures
        r == (placement == c.place_host || placement == c.place_pinned || placement == c.place_shared),
{
    placement == c.place_host || placement == c.place_pinned || placement == c.place_shared
}

/// What a result says of itself. Fixed text buffers are held by their bytes.
#[derive(Debug)]
pub struct ResultInfo {
    pub task: u32,
    pub batch: u32,
    pub dim: u32,
    pub dtype: u32,
    pub compute_dtype: u32,
    pub placement: u32,
    pub device: u32,
    pub bytes: u64,
    pub h2d_bytes: u64,
    pub d2h_bytes: u64,
    pub host_allocs: u64,
    pub device_allocs: u64,
    pub backend: Vec<u8>,
    pub arch: Vec<u8>,
    pub runtime_version: Vec<u8>,
    pub manifest_sha256: Vec<u8>,
    pub artifact_sha256: Vec<u8>,
    pub tokenizer_sha256: Vec<u8>,
    pub stage_count: u32,
    /// Where each stage ran.
    pub stage: Vec<u32>,
}

/// A parameter of a response.
pub enum ParamView {
    Flag(bool),
    Int(i64),
    Text(Seq<char>),
    Double(RealView),
    Uint(u64),
    Absent,
}

/// A parameter of a response.
pub open spec fn param_view(p: InferParameter) -> ParamView {
    match p.parameter_choice {
        Some(ParameterChoice::BoolParam(b)) => ParamView::Flag(b),
        Some(ParameterChoice::Int64Param(n)) => ParamView::Int(n),
        Some(ParameterChoice::StringParam(s)) => ParamView::Text(s@),
        Some(ParameterChoice::DoubleParam(d)) => ParamView::Double(d@),
        Some(ParameterChoice::Uint64Param(u)) => ParamView::Uint(u),
        None => ParamView::Absent,
    }
}

/// Parameters with their names and texts as characters.
pub open spec fn param_views(p: Seq<(String, InferParameter)>) -> Seq<(Seq<char>, ParamView)> {
    Seq::new(p.len(), |i: int| (p[i].0@, param_view(p[i].1)))
}

/// A number as a parameter: the nearest that an `int64` holds.
pub open spec fn int_param(v: int) -> ParamView {
    ParamView::Int(
        if v < i64::MIN {
            i64::MIN
        } else if v > i64::MAX {
            i64::MAX
        } else {
            v as i64
        },
    )
}

/// A number as a parameter: the nearest that an `int64` holds.
pub fn int64(v: i128) -> (r: InferParameter)
    ensures
        param_view(r) == int_param(v as int),
{
    let n: i64 = if v < i64::MIN as i128 {
        i64::MIN
    } else if v > i64::MAX as i128 {
        i64::MAX
    } else {
        v as i64
    };
    InferParameter { parameter_choice: Some(ParameterChoice::Int64Param(n)) }
}

/// A text as a parameter.
pub fn string(v: String) -> (r: InferParameter)
    ensures
        param_view(r) == ParamView::Text(v@),
{
    InferParameter { parameter_choice: Some(ParameterChoice::StringParam(v)) }
}

/// Add a number.
fn put_int(p: &mut Parameters, name: &str, v: i128)
    ensures
        param_views(final(p)@) == param_views(old(p)@).push((name@, int_param(v as int))),
{
    let ghost before = param_views(p@);
    p.push((name.to_owned(), int64(v)));
    proof {
        assert(param_views(p@) =~= before.push((name@, int_param(v as int))));
    }
}

/// Add a text.
fn put_text(p: &mut Parameters, name: &str, v: String)
    ensures
        param_views(final(p)@) == param_views(old(p)@).push((name@, ParamView::Text(v@))),
{
    let ghost before = param_views(p@);
    let ghost text = v@;
    p.push((name.to_owned(), string(v)));
    proof {
        assert(param_views(p@) =~= before.push((name@, ParamView::Text(text))));
    }
}

/// A fixed buffer as text.
pub open spec fn field_text(b: Vec<u8>) -> Seq<char> {
    lossy_text(before_nul(b@))
}

/// The smaller of two.
pub open spec fn smaller(a: int, b: int) -> int {
    if a < b {
        a
    } else {
        b
    }
}

/// The fields of a result without its stages.
pub open spec fn scalar_parameters(c: Constants, i: ResultInfo) -> Seq<(Seq<char>, ParamView)> {
    seq![
        ("task"@, ParamView::Text(shown(c.task_names(), i.task))),
            ("batch"@, int_param(i.batch as int)),
            ("dim"@, int_param(i.dim as int)),
            ("dtype"@, ParamView::Text(shown(c.dtype_names(), i.dtype))),
            ("compute_dtype"@, ParamView::Text(shown(c.dtype_names(), i.compute_dtype))),
            ("placement"@, ParamView::Text(shown(c.place_names(), i.placement))),
            ("device"@, int_param(i.device as int)),
            ("bytes"@, int_param(i.bytes as int)),
            ("h2d_bytes"@, int_param(i.h2d_bytes as int)),
            ("d2h_bytes"@, int_param(i.d2h_bytes as int)),
            ("host_allocs"@, int_param(i.host_allocs as int)),
            ("device_allocs"@, int_param(i.device_allocs as int)),
            ("backend"@, ParamView::Text(field_text(i.backend))),
            ("arch"@, ParamView::Text(field_text(i.arch))),
            ("runtime_version"@, ParamView::Text(field_text(i.runtime_version))),
            ("manifest_sha256"@, ParamView::Text(field_text(i.manifest_sha256))),
            ("artifact_sha256"@, ParamView::Text(field_text(i.artifact_sha256))),
            ("tokenizer_sha256"@, ParamView::Text(field_text(i.tokenizer_sha256))),
            ("stage_count"@, int_param(i.stage_count as int)),
    ]
}

/// Where the first `n` stages ran.
pub open spec fn stage_parameters(c: Constants, stage: Seq<u32>, n: int) -> Seq<
    (Seq<char>, ParamView),
>
    decreases n,
{
    if n <= 0 {
        Seq::empty()
    } else {
        stage_parameters(c, stage, n - 1).push(
            (
                "stage."@ + embed_stage_names()[n - 1],
                ParamView::Text(shown(c.stage_names(), stage[n - 1])),
            ),
        )
    }
}

/// What a response says of its result: the fields, and for embedding where each
/// of its stages ran.
pub open spec fn parameters_of(c: Constants, i: ResultInfo) -> Seq<(Seq<char>, ParamView)> {
    if i.task == c.task_embed {
        scalar_parameters(c, i) + stage_parameters(c, i.stage@, smaller(i.stage_count as int, 7))
    } else {
        scalar_parameters(c, i)
    }
}

/// The fields of a result without its stages.
fn scalars(c: &Constants, i: &ResultInfo) -> (r: Parameters)
    ensures
        param_views(r@) == scalar_parameters(*c, *i),
{
    let mut p: Parameters = Vec::new();
    proof {
        assert(param_views(p@) =~= Seq::empty());
    }
    put_text(&mut p, "task", c.task(i.task));
    put_int(&mut p, "batch", i.batch as i128);
    put_int(&mut p, "dim", i.dim as i128);
    put_text(&mut p, "dtype", c.dtype(i.dtype));
    put_text(&mut p, "compute_dtype", c.dtype(i.compute_dtype));
    put_text(&mut p, "placement", c.place(i.placement));
    put_int(&mut p, "device", i.device as i128);
    put_int(&mut p, "bytes", i.bytes as i128);
    put_int(&mut p, "h2d_bytes", i.h2d_bytes as i128);
    put_int(&mut p, "d2h_bytes", i.d2h_bytes as i128);
    put_int(&mut p, "host_allocs", i.host_allocs as i128);
    put_int(&mut p, "device_allocs", i.device_allocs as i128);
    put_text(&mut p, "backend", field(&i.backend));
    put_text(&mut p, "arch", field(&i.arch));
    put_text(&mut p, "runtime_version", field(&i.runtime_version));
    put_text(&mut p, "manifest_sha256", field(&i.manifest_sha256));
    put_text(&mut p, "artifact_sha256", field(&i.artifact_sha256));
    put_text(&mut p, "tokenizer_sha256", field(&i.tokenizer_sha256));
    put_int(&mut p, "stage_count", i.stage_count as i128);
    proof {
        assert(param_views(p@) =~= scalar_parameters(*c, *i));
    }
    p
}

/// The fields of a result as response parameters.
pub fn result_parameters(c: &Constants, i: &ResultInfo) -> (r: Parameters)
    requires
        i.stage.len() == 7,
    ensures
        param_views(r@) == parameters_of(*c, *i),
{
    let mut p = scalars(c, i);
    if i.task != c.task_embed {
        return p;
    }
    let names = embed_stages();
    let n: usize = if i.stage_count < 7 {
        i.stage_count as usize
    } else {
        7
    };
    let mut s: usize = 0;
    proof {
        assert(param_views(p@) =~= scalar_parameters(*c, *i) + stage_parameters(*c, i.stage@, 0));
    }
    while s < n
        invariant
            s <= n <= 7,
            i.stage.len() == 7,
            names.len() == 7,
            views(names@) == embed_stage_names(),
            param_views(p@) == scalar_parameters(*c, *i) + stage_parameters(*c, i.stage@, s as int),
        decreases n - s,
    {
        proof {
            assert(views(names@)[s as int] == names@[s as int]@);
        }
        put_text(&mut p, cat2("stage.", names[s].as_str()).as_str(), c.stage(i.stage[s]));
        s = s + 1;
        proof {
            assert(param_views(p@) =~= scalar_parameters(*c, *i) + stage_parameters(
                *c,
                i.stage@,
                s as int,
            ));
        }
    }
    p
}

/// What a model says of itself. Fixed text buffers are held by their bytes.
#[derive(Debug)]
pub struct LibraryModelInfo {
    pub task: u32,
    pub dim: u32,
    pub pooling: u32,
    pub normalize: u32,
    pub max_seq: u32,
    pub max_batch: u32,
    pub dtype: u32,
    pub model_id: Vec<u8>,
    pub revision: Vec<u8>,
    pub manifest_sha256: Vec<u8>,
    pub artifact_sha256: Vec<u8>,
    pub tokenizer_sha256: Vec<u8>,
    pub prefix_query: Vec<u8>,
    pub prefix_document: Vec<u8>,
    pub output_dims_count: u32,
    pub output_dims: Vec<u32>,
}

/// What a session says of itself.
#[derive(Clone, Copy, Debug, PartialEq, Eq, Structural)]
pub struct LibrarySessionInfo {
    pub max_batch: u32,
    pub max_seq: u32,
    pub precision: u32,
    pub compute_dtype: u32,
}

/// What a device says of itself. Fixed text buffers are held by their bytes.
#[derive(Debug)]
pub struct LibraryDeviceInfo {
    pub kind: u32,
    pub ordinal: u32,
    pub unified_memory: u32,
    pub memory_total: u64,
    pub arch: Vec<u8>,
    pub name: Vec<u8>,
    pub vendor: Vec<u8>,
    pub backend: Vec<u8>,
    pub runtime_version: Vec<u8>,
    pub driver_version: Vec<u8>,
}

/// What a device can do for a task. Fixed text buffers are held by their bytes;
/// floating-point numbers are held as they are shown.
#[derive(Debug)]
pub struct LibraryCapability {
    pub status: u32,
    pub dtype: u32,
    pub options_honored: u64,
    pub cosine_floor: String,
    pub speed_ratio: String,
    pub benchmark: Vec<u8>,
    pub reason: Vec<u8>,
}

/// Names and texts as characters.
pub open spec fn pair_views(p: Seq<(String, String)>) -> Seq<(Seq<char>, Seq<char>)> {
    Seq::new(p.len(), |i: int| (p[i].0@, p[i].1@))
}

/// Add a property.
fn put(p: &mut Vec<(String, String)>, name: &str, v: String)
    ensures
        pair_views(final(p)@) == pair_views(old(p)@).push((name@, v@)),
{
    let ghost before = pair_views(p@);
    let ghost text = v@;
    p.push((name.to_owned(), v));
    proof {
        assert(pair_views(p@) =~= before.push((name@, text)));
    }
}

/// Numbers as texts.
pub open spec fn dims_text(v: Seq<u32>) -> Seq<Seq<char>> {
    Seq::new(v.len(), |i: int| decimal(v[i] as nat))
}

/// The widths that a model offers.
fn dims_of(mi: &LibraryModelInfo) -> (r: Vec<String>)
    ensures
        views(r@) == dims_text(
            mi.output_dims@.take(
                smaller(mi.output_dims_count as int, mi.output_dims.len() as int),
            ),
        ),
{
    let n: usize = if (mi.output_dims_count as u64) < mi.output_dims.len() as u64 {
        mi.output_dims_count as usize
    } else {
        mi.output_dims.len()
    };
    let mut out: Vec<String> = Vec::new();
    let mut i: usize = 0;
    while i < n
        invariant
            i <= n <= mi.output_dims.len(),
            out.len() == i,
            forall|j: int| 0 <= j < i ==> (#[trigger] out@[j])@ == decimal(mi.output_dims@[j] as nat),
        decreases n - i,
    {
        out.push(decimal_of(mi.output_dims[i] as u128));
        i = i + 1;
    }
    proof {
        assert(views(out@) =~= dims_text(mi.output_dims@.take(n as int)));
    }
    out
}

/// The properties of a model: what it, its sessions, its device and the device's
/// capability say of themselves.
pub open spec fn properties_of(
    c: Constants,
    mi: LibraryModelInfo,
    si: LibrarySessionInfo,
    di: LibraryDeviceInfo,
    ca: LibraryCapability,
) -> Seq<(Seq<char>, Seq<char>)> {
    seq![
        ("model_info.task"@, shown(c.task_names(), mi.task)),
        ("model_info.dim"@, decimal(mi.dim as nat)),
        ("model_info.pooling"@, shown(pooling_names(), mi.pooling)),
        ("model_info.normalize"@, shown(normalize_names(), mi.normalize)),
        ("model_info.max_seq"@, decimal(mi.max_seq as nat)),
        ("model_info.max_batch"@, decimal(mi.max_batch as nat)),
        ("model_info.dtype"@, shown(c.dtype_names(), mi.dtype)),
        ("model_info.model_id"@, field_text(mi.model_id)),
        ("model_info.revision"@, field_text(mi.revision)),
        ("model_info.manifest_sha256"@, field_text(mi.manifest_sha256)),
        ("model_info.artifact_sha256"@, field_text(mi.artifact_sha256)),
        ("model_info.tokenizer_sha256"@, field_text(mi.tokenizer_sha256)),
        ("model_info.prefix_query"@, field_text(mi.prefix_query)),
        ("model_info.prefix_document"@, field_text(mi.prefix_document)),
        ("model_info.output_dims_count"@, decimal(mi.output_dims_count as nat)),
        ("model_info.output_dims"@, joined(dims_text(mi.output_dims@.take(smaller(mi.output_dims_count as int, mi.output_dims.len() as int))), ","@)),
        ("session_info.max_batch"@, decimal(si.max_batch as nat)),
        ("session_info.max_seq"@, decimal(si.max_seq as nat)),
        ("session_info.precision"@, shown(precision_names(), si.precision)),
        ("session_info.compute_dtype"@, shown(c.dtype_names(), si.compute_dtype)),
        ("device_info.kind"@, shown(c.device_names(), di.kind)),
        ("device_info.ordinal"@, decimal(di.ordinal as nat)),
        ("device_info.unified_memory"@, decimal(di.unified_memory as nat)),
        ("device_info.memory_total"@, decimal(di.memory_total as nat)),
        ("device_info.arch"@, field_text(di.arch)),
        ("device_info.name"@, field_text(di.name)),
        ("device_info.vendor"@, field_text(di.vendor)),
        ("device_info.backend"@, field_text(di.backend)),
        ("device_info.runtime_version"@, field_text(di.runtime_version)),
        ("device_info.driver_version"@, field_text(di.driver_version)),
        ("capability.status"@, shown(cap_names(), ca.status)),
        ("capability.dtype"@, shown(c.dtype_names(), ca.dtype)),
        ("capability.options_honored"@, decimal(ca.options_honored as nat)),
        ("capability.cosine_floor"@, ca.cosine_floor@),
        ("capability.speed_ratio"@, ca.speed_ratio@),
        ("capability.benchmark"@, field_text(ca.benchmark)),
        ("capability.reason"@, field_text(ca.reason)),
    ]
}

/// The properties of a model.
pub fn properties(
    c: &Constants,
    mi: &LibraryModelInfo,
    si: &LibrarySessionInfo,
    di: &LibraryDeviceInfo,
    ca: &LibraryCapability,
) -> (r: Vec<(String, String)>)
    ensures
        pair_views(r@) == properties_of(*c, *mi, *si, *di, *ca),
{
    let mut p: Vec<(String, String)> = Vec::new();
    proof {
        assert(pair_views(p@) =~= Seq::empty());
    }
    put(&mut p, "model_info.task", c.task(mi.task));
    put(&mut p, "model_info.dim", decimal_of(mi.dim as u128));
    put(&mut p, "model_info.pooling", pooling(mi.pooling));
    put(&mut p, "model_info.normalize", normalize(mi.normalize));
    put(&mut p, "model_info.max_seq", decimal_of(mi.max_seq as u128));
    put(&mut p, "model_info.max_batch", decimal_of(mi.max_batch as u128));
    put(&mut p, "model_info.dtype", c.dtype(mi.dtype));
    put(&mut p, "model_info.model_id", field(&mi.model_id));
    put(&mut p, "model_info.revision", field(&mi.revision));
    put(&mut p, "model_info.manifest_sha256", field(&mi.manifest_sha256));
    put(&mut p, "model_info.artifact_sha256", field(&mi.artifact_sha256));
    put(&mut p, "model_info.tokenizer_sha256", field(&mi.tokenizer_sha256));
    put(&mut p, "model_info.prefix_query", field(&mi.prefix_query));
    put(&mut p, "model_info.prefix_document", field(&mi.prefix_document));
    put(&mut p, "model_info.output_dims_count", decimal_of(mi.output_dims_count as u128));
    put(&mut p, "model_info.output_dims", join_of(&dims_of(mi), ","));
    put(&mut p, "session_info.max_batch", decimal_of(si.max_batch as u128));
    put(&mut p, "session_info.max_seq", decimal_of(si.max_seq as u128));
    put(&mut p, "session_info.precision", precision(si.precision));
    put(&mut p, "session_info.compute_dtype", c.dtype(si.compute_dtype));
    put(&mut p, "device_info.kind", c.device_kind(di.kind));
    put(&mut p, "device_info.ordinal", decimal_of(di.ordinal as u128));
    put(&mut p, "device_info.unified_memory", decimal_of(di.unified_memory as u128));
    put(&mut p, "device_info.memory_total", decimal_of(di.memory_total as u128));
    put(&mut p, "device_info.arch", field(&di.arch));
    put(&mut p, "device_info.name", field(&di.name));
    put(&mut p, "device_info.vendor", field(&di.vendor));
    put(&mut p, "device_info.backend", field(&di.backend));
    put(&mut p, "device_info.runtime_version", field(&di.runtime_version));
    put(&mut p, "device_info.driver_version", field(&di.driver_version));
    put(&mut p, "capability.status", cap(ca.status));
    put(&mut p, "capability.dtype", c.dtype(ca.dtype));
    put(&mut p, "capability.options_honored", decimal_of(ca.options_honored as u128));
    put(&mut p, "capability.cosine_floor", ca.cosine_floor.clone());
    put(&mut p, "capability.speed_ratio", ca.speed_ratio.clone());
    put(&mut p, "capability.benchmark", field(&ca.benchmark));
    put(&mut p, "capability.reason", field(&ca.reason));
    proof {
        assert(pair_views(p@) =~= properties_of(*c, *mi, *si, *di, *ca));
    }
    p
}

/// The shape of a result's one output: a row for each text, a column for each
/// component.
pub fn output_extents(i: &ResultInfo) -> (r: Vec<i64>)
    ensures
        r@ == seq![i.batch as i64, i.dim as i64],
{
    let mut v: Vec<i64> = Vec::new();
    v.push(i.batch as i64);
    v.push(i.dim as i64);
    proof {
        assert(v@ =~= seq![i.batch as i64, i.dim as i64]);
    }
    v
}

/// The server's name.
pub const SERVER_NAME: &'static str = "turboembed";

/// A tensor of the protocol's metadata.
fn tensor(name: &str, datatype: &str, rank: usize) -> (r: TensorMeta)
    ensures
        r@ == meta_of(name@, datatype@, Seq::new(rank as nat, |i: int| -1i64)),
{
    let mut shape: Vec<i64> = Vec::new();
    let mut i: usize = 0;
    while i < rank
        invariant
            i <= rank,
            shape@ == Seq::new(i as nat, |i: int| -1i64),
        decreases rank - i,
    {
        shape.push(-1);
        i = i + 1;
        proof {
            assert(shape@ =~= Seq::new(i as nat, |i: int| -1i64));
        }
    }
    TensorMeta { name: name.to_owned(), datatype: datatype.to_owned(), shape }
}

/// The tensors that every model takes: texts, or token rows.
pub fn input_tensors() -> (r: Vec<TensorMeta>)
    ensures
        meta_views(r@) == seq![
            meta_of("texts"@, "BYTES"@, seq![-1i64]),
            meta_of("ids"@, "INT32"@, seq![-1i64, -1i64]),
            meta_of("mask"@, "INT32"@, seq![-1i64, -1i64]),
            meta_of("types"@, "INT32"@, seq![-1i64, -1i64]),
        ],
{
    let mut v: Vec<TensorMeta> = Vec::new();
    v.push(tensor("texts", "BYTES", 1));
    v.push(tensor("ids", "INT32", 2));
    v.push(tensor("mask", "INT32", 2));
    v.push(tensor("types", "INT32", 2));
    proof {
        assert(Seq::new(1, |i: int| -1i64) =~= seq![-1i64]);
        assert(Seq::new(2, |i: int| -1i64) =~= seq![-1i64, -1i64]);
        assert(meta_views(v@) =~= seq![
            meta_of("texts"@, "BYTES"@, seq![-1i64]),
            meta_of("ids"@, "INT32"@, seq![-1i64, -1i64]),
            meta_of("mask"@, "INT32"@, seq![-1i64, -1i64]),
            meta_of("types"@, "INT32"@, seq![-1i64, -1i64]),
        ]);
    }
    v
}

/// The tensor that every model gives.
pub fn output_tensors() -> (r: Vec<TensorMeta>)
    ensures
        meta_views(r@) == seq![meta_of("vectors"@, "FP32"@, seq![-1i64, -1i64])],
{
    let mut v: Vec<TensorMeta> = Vec::new();
    v.push(tensor("vectors", "FP32", 2));
    proof {
        assert(Seq::new(2, |i: int| -1i64) =~= seq![-1i64, -1i64]);
        assert(meta_views(v@) =~= seq![meta_of("vectors"@, "FP32"@, seq![-1i64, -1i64])]);
    }
    v
}

/// The response to an inference, beside the bytes of its vectors.
#[derive(Debug)]
pub struct InferAnswer {
    pub model_name: String,
    pub model_version: String,
    pub id: String,
    pub parameters: Parameters,
    pub output: TensorMeta,
}

/// What a model says of itself to a client.
#[derive(Debug)]
pub struct ModelMetadata {
    pub name: String,
    pub versions: Vec<String>,
    pub platform: String,
    pub inputs: Vec<TensorMeta>,
    pub outputs: Vec<TensorMeta>,
    pub properties: Vec<(String, String)>,
}

impl State {
    /// The response of the model at `at` to a request, from what the result says of
    /// itself; a result whose element type the protocol does not name is refused.
    pub fn respond(&self, at: usize, req: &ModelInferRequest, c: &Constants, i: &ResultInfo) -> (r: Result<
        InferAnswer,
        Failure,
    >)
        requires
            at < self.models.len(),
            self.models@[at as int].loaded is Some,
            i.stage.len() == 7,
        ensures
            match datatype_name(*c, i.dtype) {
                None => r is Err && r->Err_0@ == failure(
                    TURBO_E_INTERNAL,
                    0,
                    "the result's dtype "@ + decimal(i.dtype as nat)
                        + " has no datatype in the protocol"@,
                ),
                Some(d) => {
                    &&& r is Ok
                    &&& r->Ok_0.model_name@ == self.models@[at as int].name@
                    &&& r->Ok_0.model_version@ == self.models@[at as int].loaded->Some_0.revision@
                    &&& r->Ok_0.id@ == req.id@
                    &&& param_views(r->Ok_0.parameters@) == parameters_of(*c, *i)
                    &&& r->Ok_0.output@ == meta_of("vectors"@, d, seq![i.batch as i64, i.dim as i64])
                },
            },
    {
        let datatype = match datatype(c, i.dtype) {
            Err(e) => return Err(e),
            Ok(d) => d,
        };
        let m = &self.models[at];
        let version = match &m.loaded {
            Some(l) => l.revision.clone(),
            None => String::new(),
        };
        Ok(
            InferAnswer {
                model_name: m.name.clone(),
                model_version: version,
                id: req.id.clone(),
                parameters: result_parameters(c, i),
                output: TensorMeta { name: "vectors".to_owned(), datatype, shape: output_extents(i) },
            },
        )
    }

    /// What a ready model says of itself; `properties` are those read from the library.
    pub fn model_metadata(
        &self,
        name: &str,
        version: &str,
        properties: Result<Vec<(String, String)>, Failure>,
    ) -> (r: Result<ModelMetadata, Failure>)
        ensures
            match ready_at(self.models@, name@, version@) {
                Err(e) => r is Err && r->Err_0@ == e,
                Ok(at) => match properties {
                    Err(e) => r is Err && r->Err_0@ == e@,
                    Ok(p) => {
                        &&& r is Ok
                        &&& r->Ok_0.name@ == self.models@[at].name@
                        &&& views(r->Ok_0.versions@) == seq![
                            self.models@[at].loaded->Some_0.revision@,
                        ]
                        &&& r->Ok_0.platform@ == Seq::<char>::empty()
                        &&& meta_views(r->Ok_0.inputs@) == seq![
                            meta_of("texts"@, "BYTES"@, seq![-1i64]),
                            meta_of("ids"@, "INT32"@, seq![-1i64, -1i64]),
                            meta_of("mask"@, "INT32"@, seq![-1i64, -1i64]),
                            meta_of("types"@, "INT32"@, seq![-1i64, -1i64]),
                        ]
                        &&& meta_views(r->Ok_0.outputs@) == seq![
                            meta_of("vectors"@, "FP32"@, seq![-1i64, -1i64]),
                        ]
                        &&& r->Ok_0.properties == p
                    },
                },
            },
    {
        let at = match self.ready(name, version) {
            Err(e) => return Err(e),
            Ok(at) => at,
        };
        let p = match properties {
            Err(e) => return Err(e),
            Ok(p) => p,
        };
        let m = &self.models[at];
        let revision = match &m.loaded {
            Some(l) => l.revision.clone(),
            None => String::new(),
        };
        let ghost said = revision@;
        let mut versions: Vec<String> = Vec::new();
        versions.push(revision);
        proof {
            assert(views(versions@) =~= seq![said]);
        }
        Ok(
            ModelMetadata {
                name: m.name.clone(),
                versions,
                platform: String::new(),
                inputs: input_tensors(),
                outputs: output_tensors(),
                properties: p,
            },
        )
    }
}

/// The first model of a name is the one that is served under it.
pub proof fn a_model_is_served_under_its_name(models: Seq<Served>, name: Seq<char>, i: int)
    requires
        0 <= i < models.len(),
    ensures
        models[i].name@ == name && (forall|k: int| 0 <= k < i ==> (#[trigger] models[k]).name@ != name)
            ==> served_at(models, name) == Ok::<int, FailureView>(i),
        (forall|k: int| 0 <= k < models.len() ==> (#[trigger] models[k]).name@ != name) ==> served_at(
            models,
            name,
        ) is Err,
{
    found_first(models, name, 0);
}

/// The model that is found is the first of its name.
proof fn found_first(models: Seq<Served>, name: Seq<char>, i: int)
    requires
        0 <= i <= models.len(),
    ensures
        i <= model_at(models, name, i) <= models.len(),
        model_at(models, name, i) < models.len() ==> models[model_at(models, name, i)].name@ == name,
        forall|k: int| i <= k < model_at(models, name, i) ==> (#[trigger] models[k]).name@ != name,
    decreases models.len() - i,
{
    if i < models.len() && models[i].name@ != name {
        found_first(models, name, i + 1);
    }
}

/// A served model answers where it is loaded and has the version asked for; an empty
/// version asks for any. What is refused is told apart by its code.
pub proof fn a_model_answers_where_it_is_loaded(models: Seq<Served>, name: Seq<char>, version: Seq<char>)
    ensures
        ({
            let r = ready_at(models, name, version);
            let s = served_at(models, name);
            &&& r is Ok <==> s is Ok && models[s->Ok_0].loaded is Some && (version.len() == 0 || version
                == models[s->Ok_0].loaded->0.revision@)
            &&& r is Ok ==> r->Ok_0 == s->Ok_0
            &&& s is Err ==> r is Err && r->Err_0.code == 1280
            &&& s is Ok && models[s->Ok_0].loaded is None ==> r is Err && r->Err_0.code == 261
            &&& s is Ok && models[s->Ok_0].loaded is Some && r is Err ==> r->Err_0.code == 1280
        }),
{
}

/// The server is ready where every model is loaded.
pub proof fn a_server_is_ready_with_all_its_models(models: Seq<Served>, i: int)
    requires
        0 <= i <= models.len(),
    ensures
        all_loaded(models, i) <==> forall|k: int| i <= k < models.len() ==> (#[trigger] models[k]).loaded is Some,
    decreases models.len() - i,
{
    if i < models.len() {
        a_server_is_ready_with_all_its_models(models, i + 1);
        assert(models[i].loaded is Some || models[i].loaded is None);
    }
}

/// Raw rows that are accepted fit the session that they are copied into, and rows that do
/// not are refused as too large before anything is taken.
pub proof fn raw_rows_fit_their_session(models: Seq<Served>, req: ModelInferRequest, max_batch: u32, max_seq: u32, batch: u32, seq: u32)
    ensures
        fits_fault(max_batch, max_seq, batch, seq) is None <==> batch <= max_batch && seq <= max_seq,
        fits_fault(max_batch, max_seq, batch, seq) matches Some(e) ==> e.code == 771,
        accepted(models, req) matches Ok(a) ==> {
            &&& plan_of(req) == Ok::<(RowsView, Options), FailureView>((a.1, a.2))
            &&& a.1 matches RowsView::Raw { batch: b, seq: s, .. } ==> b <= models[a.0].loaded->0.max_batch
                && s <= models[a.0].loaded->0.max_seq
        },
        ready_at(models, req.model_name@, req.model_version@) is Ok && plan_of(req) is Ok && !(
        plan_of(req)->Ok_0.0 is Raw) ==> accepted(models, req) is Ok,
{
}

/// A context is made for a device that has none, and no device gets a second one. A model
/// goes to the device that it is configured for, or that was selected for it.
pub proof fn a_device_gets_one_context(models: Seq<Served>, contexts: Seq<u32>, selected: u32, model: usize, device: u32)
    requires
        model < models.len(),
        models[model as int].loaded is None,
    ensures
        contexts.contains(device) ==> with_device(contexts, model, device) == (Step::LoadModel { model, device }),
        !contexts.contains(device) ==> with_device(contexts, model, device) == (Step::CreateContext {
            model,
            device,
        }),
        following(models, contexts, selected, Step::Select { model }) == with_device(contexts, model, selected),
        models[model as int].config.device == Device::Index(device) ==> start_model(models, contexts, model as int)
            == with_device(contexts, model, device),
        models[model as int].config.device == Device::Select ==> start_model(models, contexts, model as int)
            == (Step::Select { model }),
{
}

/// A model is loaded before its sessions are made, each session gets its three buffers,
/// and the model is published when the last of its sessions has them, not before.
pub proof fn a_model_is_published_with_all_its_sessions(
    models: Seq<Served>,
    contexts: Seq<u32>,
    selected: u32,
    step: Step,
)
    requires
        step_wf(models, step),
    ensures
        ({
            let next = following(models, contexts, selected, step);
            &&& next matches Step::Publish { model, device } ==> {
                ||| step == (Step::ModelInfo { model, device }) && models[model as int].config.sessions == 0
                ||| step matches Step::HostPtr { model: m, device: d, made, buffer } && m == model && d == device
                    && buffer == 2 && made + 1 == models[model as int].config.sessions
            }
            &&& next matches Step::CreateSession { model, device, made } ==> {
                ||| made == 0 && step == (Step::ModelInfo { model, device })
                ||| step matches Step::HostPtr { model: m, device: d, made: k, buffer } && m == model && d == device
                    && buffer == 2 && k + 1 == made
            }
            &&& next matches Step::Alloc { model, device, made, buffer } ==> {
                ||| buffer == 0 && step == (Step::SessionInfo { model, device, made })
                ||| step matches Step::HostPtr { model: m, device: d, made: k, buffer: b } && m == model && d
                    == device && k == made && b + 1 == buffer && buffer <= 2
            }
            &&& next matches Step::HostPtr { model, device, made, buffer } ==> step == (Step::Alloc {
                model,
                device,
                made,
                buffer,
            })
            &&& next matches Step::SessionInfo { model, device, made } ==> step == (Step::CreateSession {
                model,
                device,
                made,
            })
            &&& next matches Step::ModelInfo { model, device } ==> step == (Step::LoadModel { model, device })
            &&& step matches Step::Publish { model, .. } ==> next == start_model(models, contexts, model + 1)
        }),
{
    if let Step::Publish { model, .. } = step {
        next_unloaded(models, model + 1);
    }
    next_unloaded(models, 0);
}

/// The next model to load is the first that is not.
proof fn next_unloaded(models: Seq<Served>, i: int)
    requires
        0 <= i <= models.len(),
    ensures
        i <= unloaded_from(models, i) <= models.len(),
        unloaded_from(models, i) < models.len() ==> models[unloaded_from(models, i)].loaded is None,
        forall|k: int| i <= k < unloaded_from(models, i) ==> (#[trigger] models[k]).loaded is Some,
    decreases models.len() - i,
{
    if i < models.len() && models[i].loaded is Some {
        next_unloaded(models, i + 1);
    }
}

/// Loading goes over the models in their order and leaves out none that is not loaded.
pub proof fn loading_leaves_out_no_model(models: Seq<Served>, contexts: Seq<u32>, i: int, k: int)
    requires
        0 <= i <= k < models.len() <= usize::MAX,
        models[k].loaded is None,
    ensures
        start_model(models, contexts, i) != Step::Finished,
        start_model(models, contexts, i) matches Step::Select { model } ==> model <= k,
        start_model(models, contexts, i) matches Step::LoadModel { model, .. } ==> model <= k,
        start_model(models, contexts, i) matches Step::CreateContext { model, .. } ==> model <= k,
{
    next_unloaded(models, i);
}

/// A failed step names the call of the library that it made and the model it was for.
pub proof fn a_step_names_its_call(models: Seq<Served>, model: usize, device: u32, made: u32, buffer: u8)
    requires
        model < models.len(),
    ensures
        call_name(Step::CreateRuntime) == "turbo_runtime_create"@,
        call_name(Step::Select { model }) == "turbo_runtime_select"@,
        call_name(Step::CreateContext { model, device }) == "turbo_context_create"@,
        call_name(Step::LoadModel { model, device }) == "turbo_model_load"@,
        call_name(Step::ModelInfo { model, device }) == "turbo_model_get_info"@,
        call_name(Step::CreateSession { model, device, made }) == "turbo_session_create"@,
        call_name(Step::SessionInfo { model, device, made }) == "turbo_session_get_info"@,
        call_name(Step::Alloc { model, device, made, buffer }) == "turbo_buffer_alloc"@,
        call_name(Step::HostPtr { model, device, made, buffer }) == "turbo_buffer_host_ptr"@,
        step_model(models, Step::LoadModel { model, device }) == models[model as int].name@,
        step_model(models, Step::CreateSession { model, device, made }) == models[model as int].name@,
        step_model(models, Step::Alloc { model, device, made, buffer }) == models[model as int].name@,
        step_model(models, Step::CreateRuntime) == "-"@,
{
}

/// Number `k` of raw rows is that of its own four bytes.
pub proof fn raw_rows_are_read_four_bytes_each(src: Seq<u8>, k: int)
    requires
        0 <= k,
        (k + 1) * 4 <= src.len(),
    ensures
        k < row_words(src).len(),
        row_words(src)[k] == signed32(crate::bytes::le_value(src.subrange(k * 4, k * 4 + 4)) as u32),
{
    crate::bytes::numbers_are_read_from_their_own_bytes(src, 4, k);
}

/// A result's datatype is told by the protocol's name of it, where it has one.
pub proof fn datatypes_are_told_by_the_protocols_names(c: Constants)
    requires
        c.dtype_f32 != c.dtype_f16,
        c.dtype_f32 != c.dtype_bf16,
        c.dtype_f32 != c.dtype_i32,
        c.dtype_f16 != c.dtype_bf16,
        c.dtype_f16 != c.dtype_i32,
        c.dtype_bf16 != c.dtype_i32,
    ensures
        datatype_name(c, c.dtype_f32) == Some("FP32"@),
        datatype_name(c, c.dtype_f16) == Some("FP16"@),
        datatype_name(c, c.dtype_bf16) == Some("BF16"@),
        datatype_name(c, c.dtype_i32) == Some("INT32"@),
        forall|d: u32|
            d != c.dtype_f32 && d != c.dtype_f16 && d != c.dtype_bf16 && d != c.dtype_i32 ==> (
            #[trigger] datatype_name(c, d)) is None,
{
}

/// A number of a result is told as it is, and as the largest where it is too large.
pub proof fn numbers_are_told_as_they_are(v: int)
    ensures
        -0x8000_0000_0000_0000 <= v <= 0x7fff_ffff_ffff_ffff ==> int_param(v) == ParamView::Int(v as i64),
        v > 0x7fff_ffff_ffff_ffff ==> int_param(v) == ParamView::Int(0x7fff_ffff_ffff_ffff),
{
}

/// What is told of a result, each under its own name; of an embedding also where each of
/// its stages was done.
pub proof fn a_result_is_told_under_its_names(c: Constants, i: ResultInfo)
    ensures
        ({
            let p = parameters_of(c, i);
            &&& p[0] == ("task"@, ParamView::Text(shown(c.task_names(), i.task)))
            &&& p[1] == ("batch"@, int_param(i.batch as int))
            &&& p[2] == ("dim"@, int_param(i.dim as int))
            &&& p[3] == ("dtype"@, ParamView::Text(shown(c.dtype_names(), i.dtype)))
            &&& p[4] == ("compute_dtype"@, ParamView::Text(shown(c.dtype_names(), i.compute_dtype)))
            &&& p[5] == ("placement"@, ParamView::Text(shown(c.place_names(), i.placement)))
            &&& p[6] == ("device"@, int_param(i.device as int))
            &&& p[7] == ("bytes"@, int_param(i.bytes as int))
            &&& p[8] == ("h2d_bytes"@, int_param(i.h2d_bytes as int))
            &&& p[9] == ("d2h_bytes"@, int_param(i.d2h_bytes as int))
            &&& p[10] == ("host_allocs"@, int_param(i.host_allocs as int))
            &&& p[11] == ("device_allocs"@, int_param(i.device_allocs as int))
            &&& p[12] == ("backend"@, ParamView::Text(field_text(i.backend)))
            &&& p[13] == ("arch"@, ParamView::Text(field_text(i.arch)))
            &&& p[14] == ("runtime_version"@, ParamView::Text(field_text(i.runtime_version)))
            &&& p[15] == ("manifest_sha256"@, ParamView::Text(field_text(i.manifest_sha256)))
            &&& p[16] == ("artifact_sha256"@, ParamView::Text(field_text(i.artifact_sha256)))
            &&& p[17] == ("tokenizer_sha256"@, ParamView::Text(field_text(i.tokenizer_sha256)))
            &&& p[18] == ("stage_count"@, int_param(i.stage_count as int))
            &&& i.task != c.task_embed ==> p.len() == 19
            &&& i.task == c.task_embed ==> p.len() == 19 + (if i.stage_count < 7 {
                i.stage_count as int
            } else {
                7
            })
        }),
{
    stages_are_told(c, i.stage@, smaller(i.stage_count as int, 7));
}

/// Each stage is told in its place.
proof fn stages_are_told(c: Constants, stage: Seq<u32>, n: int)
    requires
        0 <= n,
    ensures
        stage_parameters(c, stage, n).len() == n,
        forall|k: int|
            0 <= k < n ==> #[trigger] stage_parameters(c, stage, n)[k] == (
                "stage."@ + embed_stage_names()[k],
                ParamView::Text(shown(c.stage_names(), stage[k])),
            ),
    decreases n,
{
    if n > 0 {
        stages_are_told(c, stage, n - 1);
    }
}

/// Where stage `k` of an embedding was done is told under the stage's name.
pub proof fn a_stage_is_told_under_its_name(c: Constants, i: ResultInfo, k: int)
    requires
        i.task == c.task_embed,
        0 <= k < i.stage_count,
        k < 7,
    ensures
        parameters_of(c, i)[19 + k] == (
            "stage."@ + embed_stage_names()[k],
            ParamView::Text(shown(c.stage_names(), i.stage@[k])),
        ),
{
    stages_are_told(c, i.stage@, smaller(i.stage_count as int, 7));
}

/// What is told of a model, its session, its device and what it is known to do, each
/// under its own name.
pub proof fn a_model_is_told_under_its_names(
    c: Constants,
    mi: LibraryModelInfo,
    si: LibrarySessionInfo,
    di: LibraryDeviceInfo,
    ca: LibraryCapability,
)
    ensures
        ({
            let p = properties_of(c, mi, si, di, ca);
            &&& p.len() == 37
            &&& p[0] == ("model_info.task"@, shown(c.task_names(), mi.task))
            &&& p[1] == ("model_info.dim"@, decimal(mi.dim as nat))
            &&& p[2] == ("model_info.pooling"@, shown(pooling_names(), mi.pooling))
            &&& p[3] == ("model_info.normalize"@, shown(normalize_names(), mi.normalize))
            &&& p[4] == ("model_info.max_seq"@, decimal(mi.max_seq as nat))
            &&& p[5] == ("model_info.max_batch"@, decimal(mi.max_batch as nat))
            &&& p[6] == ("model_info.dtype"@, shown(c.dtype_names(), mi.dtype))
            &&& p[7] == ("model_info.model_id"@, field_text(mi.model_id))
            &&& p[8] == ("model_info.revision"@, field_text(mi.revision))
            &&& p[9] == ("model_info.manifest_sha256"@, field_text(mi.manifest_sha256))
            &&& p[10] == ("model_info.artifact_sha256"@, field_text(mi.artifact_sha256))
            &&& p[11] == ("model_info.tokenizer_sha256"@, field_text(mi.tokenizer_sha256))
            &&& p[12] == ("model_info.prefix_query"@, field_text(mi.prefix_query))
            &&& p[13] == ("model_info.prefix_document"@, field_text(mi.prefix_document))
            &&& p[14] == ("model_info.output_dims_count"@, decimal(mi.output_dims_count as nat))
            &&& p[15] == ("model_info.output_dims"@, joined(dims_text(mi.output_dims@.take(smaller(mi.output_dims_count as int, mi.output_dims.len() as int))), ","@))
            &&& p[16] == ("session_info.max_batch"@, decimal(si.max_batch as nat))
            &&& p[17] == ("session_info.max_seq"@, decimal(si.max_seq as nat))
            &&& p[18] == ("session_info.precision"@, shown(precision_names(), si.precision))
            &&& p[19] == ("session_info.compute_dtype"@, shown(c.dtype_names(), si.compute_dtype))
            &&& p[20] == ("device_info.kind"@, shown(c.device_names(), di.kind))
            &&& p[21] == ("device_info.ordinal"@, decimal(di.ordinal as nat))
            &&& p[22] == ("device_info.unified_memory"@, decimal(di.unified_memory as nat))
            &&& p[23] == ("device_info.memory_total"@, decimal(di.memory_total as nat))
            &&& p[24] == ("device_info.arch"@, field_text(di.arch))
            &&& p[25] == ("device_info.name"@, field_text(di.name))
            &&& p[26] == ("device_info.vendor"@, field_text(di.vendor))
            &&& p[27] == ("device_info.backend"@, field_text(di.backend))
            &&& p[28] == ("device_info.runtime_version"@, field_text(di.runtime_version))
            &&& p[29] == ("device_info.driver_version"@, field_text(di.driver_version))
            &&& p[30] == ("capability.status"@, shown(cap_names(), ca.status))
            &&& p[31] == ("capability.dtype"@, shown(c.dtype_names(), ca.dtype))
            &&& p[32] == ("capability.options_honored"@, decimal(ca.options_honored as nat))
            &&& p[33] == ("capability.cosine_floor"@, ca.cosine_floor@)
            &&& p[34] == ("capability.speed_ratio"@, ca.speed_ratio@)
            &&& p[35] == ("capability.benchmark"@, field_text(ca.benchmark))
            &&& p[36] == ("capability.reason"@, field_text(ca.reason))
        }),
{
}

/// Only making a session names a field: `max_batch`, `max_seq` or `precision`, counted
/// in this order.
pub proof fn only_a_session_names_fields(step: Step)
    ensures
        step is CreateSession ==> step_fields(step).len() == 3 && step_fields(step)[0] == "max_batch"@
            && step_fields(step)[1] == "max_seq"@ && step_fields(step)[2] == "precision"@,
        !(step is CreateSession) ==> step_fields(step).len() == 0,
{
}

} // verus!
