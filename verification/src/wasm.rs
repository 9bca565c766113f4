//! The WebAssembly model runtime: per-target model stores (browser and WASI)
//! and the checks an inference request goes through.
//!
//! A store holds at most one model per name. Inference answers with the name,
//! shape and element count of each output the model declares.

use vstd::prelude::*;
use vstd::string::StringExecFns;
use crate::text::{decimal, decimal_string, str_eq};

verus! {

/// WebAssembly target platform
#[derive(Debug, Clone, Copy, PartialEq, Eq, Hash, Structural)]
pub enum WasmTarget {
    /// Browser environment with wasm-bindgen
    Browser,
    /// WASI environment for IoT devices
    Wasi,
}

/// How a target is written in messages.
pub open spec fn target_name(t: WasmTarget) -> Seq<char> {
    match t {
        WasmTarget::Browser => "Browser"@,
        WasmTarget::Wasi => "Wasi"@,
    }
}

fn target_label(t: WasmTarget) -> (s: String)
    ensures
        s@ == target_name(t),
{
    match t {
        WasmTarget::Browser => String::from_str("Browser"),
        WasmTarget::Wasi => String::from_str("Wasi"),
    }
}

/// Error types for WASM runtime operations
#[derive(Debug)]
pub enum WasmRuntimeError {
    UnsupportedTarget(String),
    ModelLoadFailed(String),
    InferenceError(String),
    SerializationError(String),
    InvalidInputShape { expected: String, got: String },
    MemoryAllocationFailed,
    IoError(String),
}

/// Represents a loaded WASM-compatible model
pub struct WasmModel {
    name: String,
    model_bytes: Vec<u8>,
    input_shapes: Vec<Vec<usize>>,
    output_shapes: Vec<Vec<usize>>,
    target: WasmTarget,
}

impl WasmModel {
    pub closed spec fn spec_name(&self) -> Seq<char> {
        self.name@
    }

    pub closed spec fn spec_bytes(&self) -> Seq<u8> {
        self.model_bytes@
    }

    pub closed spec fn spec_input_count(&self) -> nat {
        self.input_shapes@.len()
    }

    pub closed spec fn spec_output_shapes(&self) -> Seq<Seq<usize>> {
        self.output_shapes@.map_values(|s: Vec<usize>| s@)
    }

    pub closed spec fn spec_target(&self) -> WasmTarget {
        self.target
    }
}

/// The name, shape and element count of one inference output.
#[derive(Debug, Clone)]
pub struct OutputSpec {
    pub name: String,
    pub shape: Vec<usize>,
    pub len: usize,
}

/// Product of the dimensions.
pub open spec fn shape_size(s: Seq<usize>) -> nat
    decreases s.len(),
{
    if s.len() == 0 {
        1
    } else {
        shape_size(s.drop_last()) * (s.last() as nat)
    }
}

/// A model just loaded from bytes: no declared inputs or outputs.
pub open spec fn fresh_model(m: WasmModel, name: Seq<char>, bytes: Seq<u8>, target: WasmTarget) -> bool {
    &&& m.spec_name() == name
    &&& m.spec_bytes() == bytes
    &&& m.spec_input_count() == 0
    &&& m.spec_output_shapes().len() == 0
    &&& m.spec_target() == target
}

pub open spec fn has_model(ms: Seq<WasmModel>, name: Seq<char>) -> bool {
    exists|i: int| 0 <= i < ms.len() && (#[trigger] ms[i]).spec_name() == name
}

/// No two models share a name.
pub open spec fn distinct_names(ms: Seq<WasmModel>) -> bool {
    forall|i: int, j: int|
        0 <= i < ms.len() && 0 <= j < ms.len() && i != j ==> (#[trigger] ms[i]).spec_name()
            != (#[trigger] ms[j]).spec_name()
}

/// The models named other than `name` are the same in both stores.
pub open spec fn others_kept(old: Seq<WasmModel>, new: Seq<WasmModel>, name: Seq<char>) -> bool {
    &&& forall|i: int|
        0 <= i < new.len() && (#[trigger] new[i]).spec_name() != name ==> old.contains(new[i])
    &&& forall|j: int|
        0 <= j < old.len() && (#[trigger] old[j]).spec_name() != name ==> new.contains(old[j])
}

/// The names of the models, in store order.
pub open spec fn model_names(ms: Seq<WasmModel>) -> Seq<Seq<char>> {
    ms.map_values(|m: WasmModel| m.spec_name())
}

/// The model of the given name.
pub open spec fn model_named(ms: Seq<WasmModel>, name: Seq<char>) -> WasmModel
    recommends
        has_model(ms, name),
{
    ms[choose|i: int| 0 <= i < ms.len() && ms[i].spec_name() == name]
}

/// The outputs inference on `m` answers with: `output_<i>` with the shape of
/// the `i`-th declared output and its element count.
pub open spec fn outputs_of(m: WasmModel, outs: Seq<OutputSpec>) -> bool {
    &&& outs.len() == m.spec_output_shapes().len()
    &&& forall|i: int|
        0 <= i < outs.len() ==> {
            &&& (#[trigger] outs[i]).name@ == "output_"@ + decimal(i as nat)
            &&& outs[i].shape@ == m.spec_output_shapes()[i]
            &&& outs[i].len == shape_size(outs[i].shape@)
        }
}

/// The shapes' sizes fit in a `usize`.
pub open spec fn shapes_fit(ms: Seq<WasmModel>) -> bool {
    forall|i: int, k: int|
        0 <= i < ms.len() && 0 <= k < ms[i].spec_output_shapes().len() ==> shape_fits(
            #[trigger] ms[i].spec_output_shapes()[k],
        )
}

/// What running inference on a store answers: an unknown model or a wrong
/// number of inputs is refused, otherwise the model's outputs.
pub open spec fn inference_outcome(
    ms: Seq<WasmModel>,
    name: Seq<char>,
    num_inputs: usize,
    res: Result<Vec<OutputSpec>, WasmRuntimeError>,
) -> bool {
    if !has_model(ms, name) {
        res matches Err(WasmRuntimeError::ModelLoadFailed(msg)) && msg@ == "Model '"@ + name
            + "' not found"@
    } else {
        let m = model_named(ms, name);
        if m.spec_input_count() != num_inputs {
            res matches Err(WasmRuntimeError::InvalidInputShape { expected, got }) && expected@
                == decimal(m.spec_input_count()) + " inputs"@ && got@ == decimal(num_inputs as nat)
                + " inputs"@
        } else {
            res matches Ok(outs) && outputs_of(m, outs@)
        }
    }
}

fn find_model(models: &Vec<WasmModel>, name: &str) -> (i: Option<usize>)
    ensures
        match i {
            Some(i) => i < models@.len() && models@[i as int].spec_name() == name@,
            None => !has_model(models@, name@),
        },
{
    let n = models.len();
    let mut i: usize = 0;
    while i < n
        invariant
            n == models@.len(),
            i <= n,
            forall|j: int| 0 <= j < i ==> (#[trigger] models@[j]).spec_name() != name@,
        decreases n - i,
    {
        if str_eq(models[i].name.as_str(), name) {
            return Some(i);
        }
        i += 1;
    }
    None
}

fn store_load(models: &mut Vec<WasmModel>, name: &str, bytes: Vec<u8>, target: WasmTarget)
    requires
        distinct_names(old(models)@),
    ensures
        distinct_names(final(models)@),
        has_model(final(models)@, name@),
        forall|i: int|
            0 <= i < final(models)@.len() && (#[trigger] final(models)@[i]).spec_name() == name@
                ==> fresh_model(final(models)@[i], name@, bytes@, target),
        others_kept(old(models)@, final(models)@, name@),
{
    let model = WasmModel {
        name: String::from_str(name),
        model_bytes: bytes,
        input_shapes: Vec::new(),
        output_shapes: Vec::new(),
        target,
    };
    proof {
        assert(model.spec_output_shapes() =~= Seq::<Seq<usize>>::empty());
    }
    let ghost before = models@;
    match find_model(models, name) {
        Some(i) => {
            models.set(i, model);
            proof {
                assert forall|j: int|
                    0 <= j < before.len() && (#[trigger] before[j]).spec_name() != name@ implies models@.contains(
                    before[j],
                ) by {
                    assert(models@[j] == before[j]);
                }
                assert forall|k: int|
                    0 <= k < models@.len() && (#[trigger] models@[k]).spec_name() != name@ implies before.contains(
                    models@[k],
                ) by {
                    assert(models@[k] == before[k]);
                }
                assert(models@[i as int].spec_name() == name@);
            }
        },
        None => {
            models.push(model);
            proof {
                assert forall|j: int|
                    0 <= j < before.len() && (#[trigger] before[j]).spec_name() != name@ implies models@.contains(
                    before[j],
                ) by {
                    assert(models@[j] == before[j]);
                }
                assert forall|k: int|
                    0 <= k < models@.len() && (#[trigger] models@[k]).spec_name() != name@ implies before.contains(
                    models@[k],
                ) by {
                    assert(models@[k] == before[k]);
                }
                assert(models@[before.len() as int].spec_name() == name@);
            }
        },
    }
}

fn store_unload(models: &mut Vec<WasmModel>, name: &str)
    requires
        distinct_names(old(models)@),
    ensures
        distinct_names(final(models)@),
        !has_model(final(models)@, name@),
        others_kept(old(models)@, final(models)@, name@),
{
    let ghost before = models@;
    match find_model(models, name) {
        Some(i) => {
            models.remove(i);
            proof {
                assert forall|j: int|
                    0 <= j < before.len() && (#[trigger] before[j]).spec_name() != name@ implies models@.contains(
                    before[j],
                ) by {
                    if j < i {
                        assert(models@[j] == before[j]);
                    } else {
                        assert(models@[j - 1] == before[j]);
                    }
                }
                assert forall|k: int|
                    0 <= k < models@.len() && (#[trigger] models@[k]).spec_name() != name@ implies before.contains(
                    models@[k],
                ) by {
                    if k < i {
                        assert(models@[k] == before[k]);
                    } else {
                        assert(models@[k] == before[k + 1]);
                    }
                }
                assert forall|k: int| 0 <= k < models@.len() implies (#[trigger] models@[k]).spec_name()
                    != name@ by {
                    if k < i {
                        assert(models@[k] == before[k]);
                    } else {
                        assert(models@[k] == before[k + 1]);
                    }
                }
            }
        },
        None => {},
    }
}

fn store_names(models: &Vec<WasmModel>) -> (names: Vec<String>)
    ensures
        names@.map_values(|s: String| s@) == model_names(models@),
{
    let n = models.len();
    let mut names: Vec<String> = Vec::new();
    let mut i: usize = 0;
    while i < n
        invariant
            n == models@.len(),
            i <= n,
            names@.len() == i,
            forall|j: int| 0 <= j < i ==> (#[trigger] names@[j])@ == models@[j].spec_name(),
        decreases n - i,
    {
        names.push(models[i].name.clone());
        i += 1;
    }
    assert(names@.map_values(|s: String| s@) =~= model_names(models@));
    names
}

/// Every running product of the dimensions fits in a `usize`.
pub open spec fn shape_fits(s: Seq<usize>) -> bool {
    forall|k: int| 0 <= k <= s.len() ==> #[trigger] shape_size(s.take(k)) <= usize::MAX
}

fn shape_product(shape: &Vec<usize>) -> (p: usize)
    requires
        shape_fits(shape@),
    ensures
        p == shape_size(shape@),
{
    let n = shape.len();
    let mut p: usize = 1;
    let mut i: usize = 0;
    assert(shape@.take(0) =~= Seq::<usize>::empty());
    while i < n
        invariant
            n == shape@.len(),
            i <= n,
            p == shape_size(shape@.take(i as int)),
            shape_fits(shape@),
        decreases n - i,
    {
        assert(shape@.take(i + 1).drop_last() =~= shape@.take(i as int));
        assert(shape_size(shape@.take(i + 1)) <= usize::MAX);
        p = p * shape[i];
        i += 1;
    }
    assert(shape@.take(n as int) =~= shape@);
    p
}

fn store_infer(models: &Vec<WasmModel>, model_name: &str, num_inputs: usize) -> (res: Result<
    Vec<OutputSpec>,
    WasmRuntimeError,
>)
    requires
        distinct_names(models@),
        shapes_fit(models@),
    ensures
        inference_outcome(models@, model_name@, num_inputs, res),
{
    let i = match find_model(models, model_name) {
        None => {
            let msg = String::from_str("Model '").concat(model_name).concat("' not found");
            return Err(WasmRuntimeError::ModelLoadFailed(msg));
        },
        Some(i) => i,
    };
    let model = &models[i];
    proof {
        let k = choose|k: int| 0 <= k < models@.len() && models@[k].spec_name() == model_name@;
        assert(k == i);
    }
    let expected_inputs = model.input_shapes.len();
    if num_inputs != expected_inputs {
        let expected = decimal_string(expected_inputs).concat(" inputs");
        let got = decimal_string(num_inputs).concat(" inputs");
        return Err(WasmRuntimeError::InvalidInputShape { expected, got });
    }
    let n = model.output_shapes.len();
    let mut outputs: Vec<OutputSpec> = Vec::new();
    let mut k: usize = 0;
    while k < n
        invariant
            n == model.output_shapes@.len(),
            model == &models@[i as int],
            i < models@.len(),
            shapes_fit(models@),
            k <= n,
            outputs@.len() == k,
            forall|j: int|
                0 <= j < k ==> {
                    &&& (#[trigger] outputs@[j]).name@ == "output_"@ + decimal(j as nat)
                    &&& outputs@[j].shape@ == model.spec_output_shapes()[j]
                    &&& outputs@[j].len == shape_size(outputs@[j].shape@)
                },
        decreases n - k,
    {
        let shape = model.output_shapes[k].clone();
        proof {
            assert(model.spec_output_shapes()[k as int] == model.output_shapes@[k as int]@);
            assert(shape_fits(models@[i as int].spec_output_shapes()[k as int]));
        }
        let len = shape_product(&shape);
        let name = String::from_str("output_").concat(decimal_string(k).as_str());
        outputs.push(OutputSpec { name, shape, len });
        k += 1;
    }
    Ok(outputs)
}

/// Browser-specific runtime
pub struct BrowserRuntime {
    models: Vec<WasmModel>,
}

/// WASI-specific runtime for IoT devices
pub struct WasiRuntime {
    models: Vec<WasmModel>,
}

impl BrowserRuntime {
    pub closed spec fn store(&self) -> Seq<WasmModel> {
        self.models@
    }

    pub open spec fn wf(&self) -> bool {
        distinct_names(self.store())
    }

    pub fn new() -> (r: Self)
        ensures
            r.wf(),
            r.store() == Seq::<WasmModel>::empty(),
    {
        BrowserRuntime { models: Vec::new() }
    }

    /// Stores the model under `name`, replacing any model of that name.
    pub fn load_model(&mut self, name: &str, bytes: Vec<u8>) -> (res: Result<(), WasmRuntimeError>)
        requires
            old(self).wf(),
        ensures
            res is Ok,
            final(self).wf(),
            has_model(final(self).store(), name@),
            forall|i: int|
                0 <= i < final(self).store().len() && (#[trigger] final(self).store()[i]).spec_name()
                    == name@ ==> fresh_model(
                    final(self).store()[i],
                    name@,
                    bytes@,
                    WasmTarget::Browser,
                ),
            others_kept(old(self).store(), final(self).store(), name@),
    {
        store_load(&mut self.models, name, bytes, WasmTarget::Browser);
        Ok(())
    }

    pub fn run_inference(&self, model_name: &str, num_inputs: usize) -> (res: Result<
        Vec<OutputSpec>,
        WasmRuntimeError,
    >)
        requires
            self.wf(),
            shapes_fit(self.store()),
        ensures
            inference_outcome(self.store(), model_name@, num_inputs, res),
    {
        store_infer(&self.models, model_name, num_inputs)
    }

    pub fn list_models(&self) -> (names: Vec<String>)
        ensures
            names@.map_values(|s: String| s@) == model_names(self.store()),
    {
        store_names(&self.models)
    }

    /// Removes the model named `name`, if there is one.
    pub fn unload_model(&mut self, name: &str) -> (res: Result<(), WasmRuntimeError>)
        requires
            old(self).wf(),
        ensures
            res is Ok,
            final(self).wf(),
            !has_model(final(self).store(), name@),
            others_kept(old(self).store(), final(self).store(), name@),
    {
        store_unload(&mut self.models, name);
        Ok(())
    }

    pub fn target(&self) -> (t: WasmTarget)
        ensures
            t == WasmTarget::Browser,
    {
        WasmTarget::Browser
    }
}

impl WasiRuntime {
    pub closed spec fn store(&self) -> Seq<WasmModel> {
        self.models@
    }

    pub open spec fn wf(&self) -> bool {
        distinct_names(self.store())
    }

    pub fn new() -> (r: Self)
        ensures
            r.wf(),
            r.store() == Seq::<WasmModel>::empty(),
    {
        WasiRuntime { models: Vec::new() }
    }

    /// Stores the model under `name`, replacing any model of that name.
    pub fn load_model(&mut self, name: &str, bytes: Vec<u8>) -> (res: Result<(), WasmRuntimeError>)
        requires
            old(self).wf(),
        ensures
            res is Ok,
            final(self).wf(),
            has_model(final(self).store(), name@),
            forall|i: int|
                0 <= i < final(self).store().len() && (#[trigger] final(self).store()[i]).spec_name()
                    == name@ ==> fresh_model(
                    final(self).store()[i],
                    name@,
                    bytes@,
                    WasmTarget::Wasi,
                ),
            others_kept(old(self).store(), final(self).store(), name@),
    {
        store_load(&mut self.models, name, bytes, WasmTarget::Wasi);
        Ok(())
    }

    pub fn run_inference(&self, model_name: &str, num_inputs: usize) -> (res: Result<
        Vec<OutputSpec>,
        WasmRuntimeError,
    >)
        requires
            self.wf(),
            shapes_fit(self.store()),
        ensures
            inference_outcome(self.store(), model_name@, num_inputs, res),
    {
        store_infer(&self.models, model_name, num_inputs)
    }

    pub fn list_models(&self) -> (names: Vec<String>)
        ensures
            names@.map_values(|s: String| s@) == model_names(self.store()),
    {
        store_names(&self.models)
    }

    /// Removes the model named `name`, if there is one.
    pub fn unload_model(&mut self, name: &str) -> (res: Result<(), WasmRuntimeError>)
        requires
            old(self).wf(),
        ensures
            res is Ok,
            final(self).wf(),
            !has_model(final(self).store(), name@),
            others_kept(old(self).store(), final(self).store(), name@),
    {
        store_unload(&mut self.models, name);
        Ok(())
    }

    pub fn target(&self) -> (t: WasmTarget)
        ensures
            t == WasmTarget::Wasi,
    {
        WasmTarget::Wasi
    }
}

/// The effect of loading `name` into a store: the model is there, fresh from
/// `bytes`, and the other models are kept.
pub open spec fn loaded_into(
    old: Seq<WasmModel>,
    new: Seq<WasmModel>,
    name: Seq<char>,
    bytes: Seq<u8>,
    target: WasmTarget,
) -> bool {
    &&& distinct_names(new)
    &&& has_model(new, name)
    &&& forall|i: int|
        0 <= i < new.len() && (#[trigger] new[i]).spec_name() == name ==> fresh_model(
            new[i],
            name,
            bytes,
            target,
        )
    &&& others_kept(old, new, name)
}

/// The effect of unloading `name` from a store.
pub open spec fn unloaded_from(old: Seq<WasmModel>, new: Seq<WasmModel>, name: Seq<char>) -> bool {
    &&& distinct_names(new)
    &&& !has_model(new, name)
    &&& others_kept(old, new, name)
}

/// Main WASM runtime with platform-agnostic API
pub struct WasmRuntime {
    browser: Option<BrowserRuntime>,
    wasi: Option<WasiRuntime>,
    default_target: WasmTarget,
}

impl WasmRuntime {
    /// Whether the runtime has a model store for the target.
    pub closed spec fn supports(&self, t: WasmTarget) -> bool {
        match t {
            WasmTarget::Browser => self.browser is Some,
            WasmTarget::Wasi => self.wasi is Some,
        }
    }

    /// The models of the target's store.
    pub closed spec fn models_for(&self, t: WasmTarget) -> Seq<WasmModel> {
        match t {
            WasmTarget::Browser => match self.browser {
                Some(b) => b.store(),
                None => Seq::empty(),
            },
            WasmTarget::Wasi => match self.wasi {
                Some(w) => w.store(),
                None => Seq::empty(),
            },
        }
    }

    pub closed spec fn spec_default_target(&self) -> WasmTarget {
        self.default_target
    }

    /// Every store holds at most one model per name.
    pub open spec fn wf(&self) -> bool {
        &&& distinct_names(self.models_for(WasmTarget::Browser))
        &&& distinct_names(self.models_for(WasmTarget::Wasi))
    }

    /// The target a request names, or the default.
    pub open spec fn resolve(&self, target: Option<WasmTarget>) -> WasmTarget {
        match target {
            Some(t) => t,
            None => self.spec_default_target(),
        }
    }

    /// Create a new WASM runtime with a store for the given target only.
    pub fn new(target: WasmTarget) -> (r: Self)
        ensures
            r.wf(),
            r.spec_default_target() == target,
            forall|t: WasmTarget| #[trigger] r.supports(t) == (t == target),
            forall|t: WasmTarget| #[trigger] r.models_for(t) == Seq::<WasmModel>::empty(),
    {
        let r = match target {
            WasmTarget::Browser => WasmRuntime {
                browser: Some(BrowserRuntime::new()),
                wasi: None,
                default_target: target,
            },
            WasmTarget::Wasi => WasmRuntime {
                browser: None,
                wasi: Some(WasiRuntime::new()),
                default_target: target,
            },
        };
        proof {
            assert forall|t: WasmTarget| #[trigger] r.models_for(t) == Seq::<WasmModel>::empty() by {
                match t {
                    WasmTarget::Browser => {},
                    WasmTarget::Wasi => {},
                }
            }
        }
        r
    }

    /// Load a model from bytes into the store of the target (or the default).
    pub fn load_model(&mut self, name: &str, bytes: Vec<u8>, target: Option<WasmTarget>) -> (res:
        Result<(), WasmRuntimeError>)
        requires
            old(self).wf(),
        ensures
            final(self).wf(),
            final(self).spec_default_target() == old(self).spec_default_target(),
            forall|t: WasmTarget| #[trigger] final(self).supports(t) == old(self).supports(t),
            forall|t: WasmTarget|
                t != old(self).resolve(target) ==> #[trigger] final(self).models_for(t) == old(
                    self,
                ).models_for(t),
            !old(self).supports(old(self).resolve(target)) ==> (res matches Err(
                WasmRuntimeError::UnsupportedTarget(m),
            ) && m@ == target_name(old(self).resolve(target))) && final(self).models_for(
                old(self).resolve(target),
            ) == old(self).models_for(old(self).resolve(target)),
            old(self).supports(old(self).resolve(target)) ==> res is Ok && loaded_into(
                old(self).models_for(old(self).resolve(target)),
                final(self).models_for(old(self).resolve(target)),
                name@,
                bytes@,
                old(self).resolve(target),
            ),
    {
        let t = match target {
            Some(t) => t,
            None => self.default_target,
        };
        match t {
            WasmTarget::Browser => match &mut self.browser {
                Some(b) => b.load_model(name, bytes),
                None => Err(WasmRuntimeError::UnsupportedTarget(target_label(t))),
            },
            WasmTarget::Wasi => match &mut self.wasi {
                Some(w) => w.load_model(name, bytes),
                None => Err(WasmRuntimeError::UnsupportedTarget(target_label(t))),
            },
        }
    }

    /// Run inference on a loaded model of the target (or the default).
    pub fn infer(&self, model_name: &str, num_inputs: usize, target: Option<WasmTarget>) -> (res:
        Result<Vec<OutputSpec>, WasmRuntimeError>)
        requires
            self.wf(),
            shapes_fit(self.models_for(self.resolve(target))),
        ensures
            !self.supports(self.resolve(target)) ==> (res matches Err(
                WasmRuntimeError::UnsupportedTarget(m),
            ) && m@ == target_name(self.resolve(target))),
            self.supports(self.resolve(target)) ==> inference_outcome(
                self.models_for(self.resolve(target)),
                model_name@,
                num_inputs,
                res,
            ),
    {
        let t = match target {
            Some(t) => t,
            None => self.default_target,
        };
        match t {
            WasmTarget::Browser => match &self.browser {
                Some(b) => b.run_inference(model_name, num_inputs),
                None => Err(WasmRuntimeError::UnsupportedTarget(target_label(t))),
            },
            WasmTarget::Wasi => match &self.wasi {
                Some(w) => w.run_inference(model_name, num_inputs),
                None => Err(WasmRuntimeError::UnsupportedTarget(target_label(t))),
            },
        }
    }

    /// List the models of the target (or the default); none for a target
    /// without a store.
    pub fn list_models(&self, target: Option<WasmTarget>) -> (names: Vec<String>)
        ensures
            self.supports(self.resolve(target)) ==> names@.map_values(|s: String| s@)
                == model_names(self.models_for(self.resolve(target))),
            !self.supports(self.resolve(target)) ==> names@.len() == 0,
    {
        let t = match target {
            Some(t) => t,
            None => self.default_target,
        };
        match t {
            WasmTarget::Browser => match &self.browser {
                Some(b) => b.list_models(),
                None => Vec::new(),
            },
            WasmTarget::Wasi => match &self.wasi {
                Some(w) => w.list_models(),
                None => Vec::new(),
            },
        }
    }

    /// Unload a model from the target's store (or the default's).
    pub fn unload_model(&mut self, name: &str, target: Option<WasmTarget>) -> (res: Result<
        (),
        WasmRuntimeError,
    >)
        requires
            old(self).wf(),
        ensures
            final(self).wf(),
            final(self).spec_default_target() == old(self).spec_default_target(),
            forall|t: WasmTarget| #[trigger] final(self).supports(t) == old(self).supports(t),
            forall|t: WasmTarget|
                t != old(self).resolve(target) ==> #[trigger] final(self).models_for(t) == old(
                    self,
                ).models_for(t),
            !old(self).supports(old(self).resolve(target)) ==> (res matches Err(
                WasmRuntimeError::UnsupportedTarget(m),
            ) && m@ == target_name(old(self).resolve(target))) && final(self).models_for(
                old(self).resolve(target),
            ) == old(self).models_for(old(self).resolve(target)),
            old(self).supports(old(self).resolve(target)) ==> res is Ok && unloaded_from(
                old(self).models_for(old(self).resolve(target)),
                final(self).models_for(old(self).resolve(target)),
                name@,
            ),
    {
        let t = match target {
            Some(t) => t,
            None => self.default_target,
        };
        match t {
            WasmTarget::Browser => match &mut self.browser {
                Some(b) => b.unload_model(name),
                None => Err(WasmRuntimeError::UnsupportedTarget(target_label(t))),
            },
            WasmTarget::Wasi => match &mut self.wasi {
                Some(w) => w.unload_model(name),
                None => Err(WasmRuntimeError::UnsupportedTarget(target_label(t))),
            },
        }
    }

    /// Get the default target
    pub fn default_target(&self) -> (t: WasmTarget)
        ensures
            t == self.spec_default_target(),
    {
        self.default_target
    }

    /// Set the default target; only a target with a store can be the default.
    pub fn set_default_target(&mut self, target: WasmTarget) -> (res: Result<(), WasmRuntimeError>)
        ensures
            forall|t: WasmTarget| #[trigger] final(self).supports(t) == old(self).supports(t),
            forall|t: WasmTarget| #[trigger] final(self).models_for(t) == old(self).models_for(t),
            old(self).supports(target) ==> res is Ok && final(self).spec_default_target() == target,
            !old(self).supports(target) ==> (res matches Err(WasmRuntimeError::UnsupportedTarget(m))
                && m@ == target_name(target)) && final(self).spec_default_target() == old(
                self,
            ).spec_default_target(),
    {
        let supported = match target {
            WasmTarget::Browser => self.browser.is_some(),
            WasmTarget::Wasi => self.wasi.is_some(),
        };
        if !supported {
            return Err(WasmRuntimeError::UnsupportedTarget(target_label(target)));
        }
        self.default_target = target;
        Ok(())
    }
}

/// Load a model from bytes in WASM environment
pub fn load_model_from_bytes(
    runtime: &mut WasmRuntime,
    name: &str,
    bytes: Vec<u8>,
    target: WasmTarget,
) -> (res: Result<(), WasmRuntimeError>)
    requires
        old(runtime).wf(),
    ensures
        final(runtime).wf(),
        forall|t: WasmTarget|
            t != target ==> #[trigger] final(runtime).models_for(t) == old(runtime).models_for(t),
        !old(runtime).supports(target) ==> (res matches Err(WasmRuntimeError::UnsupportedTarget(m))
            && m@ == target_name(target)) && final(runtime).models_for(target) == old(
            runtime,
        ).models_for(target),
        old(runtime).supports(target) ==> res is Ok && loaded_into(
            old(runtime).models_for(target),
            final(runtime).models_for(target),
            name@,
            bytes@,
            target,
        ),
{
    runtime.load_model(name, bytes, Some(target))
}

/// Run inference after the runtime's input validation.
pub fn run_inference_validated(
    runtime: &WasmRuntime,
    model_name: &str,
    num_inputs: usize,
    target: Option<WasmTarget>,
) -> (res: Result<Vec<OutputSpec>, WasmRuntimeError>)
    requires
        runtime.wf(),
        shapes_fit(runtime.models_for(runtime.resolve(target))),
    ensures
        !runtime.supports(runtime.resolve(target)) ==> (res matches Err(
            WasmRuntimeError::UnsupportedTarget(m),
        ) && m@ == target_name(runtime.resolve(target))),
        runtime.supports(runtime.resolve(target)) ==> inference_outcome(
            runtime.models_for(runtime.resolve(target)),
            model_name@,
            num_inputs,
            res,
        ),
{
    runtime.infer(model_name, num_inputs, target)
}

/// Loading a model and then unloading it: the model is listed in between,
/// is gone afterwards, and every other name is listed afterwards exactly when
/// it was listed before.
pub proof fn lemma_load_then_unload(
    before: Seq<WasmModel>,
    loaded: Seq<WasmModel>,
    after: Seq<WasmModel>,
    name: Seq<char>,
    bytes: Seq<u8>,
    target: WasmTarget,
)
    requires
        loaded_into(before, loaded, name, bytes, target),
        unloaded_from(loaded, after, name),
    ensures
        model_names(loaded).contains(name),
        !model_names(after).contains(name),
        forall|other: Seq<char>|
            other != name ==> (#[trigger] model_names(after).contains(other) == model_names(
                before,
            ).contains(other)),
{
    lemma_names_listed(loaded, name);
    lemma_names_listed(after, name);
    assert forall|other: Seq<char>| other != name implies (#[trigger] model_names(
        after,
    ).contains(other) == model_names(before).contains(other)) by {
        lemma_names_listed(after, other);
        lemma_names_listed(before, other);
        lemma_names_listed(loaded, other);
        if has_model(after, other) {
            let i = choose|i: int| 0 <= i < after.len() && (#[trigger] after[i]).spec_name() == other;
            assert(loaded.contains(after[i]));
            let j = choose|j: int| 0 <= j < loaded.len() && loaded[j] == after[i];
            assert(loaded[j].spec_name() == other);
            assert(before.contains(loaded[j]));
            let k = choose|k: int| 0 <= k < before.len() && before[k] == loaded[j];
            assert(before[k].spec_name() == other);
        }
        if has_model(before, other) {
            let i = choose|i: int| 0 <= i < before.len() && (#[trigger] before[i]).spec_name() == other;
            assert(loaded.contains(before[i]));
            let j = choose|j: int| 0 <= j < loaded.len() && loaded[j] == before[i];
            assert(loaded[j].spec_name() == other);
            assert(after.contains(loaded[j]));
            let k = choose|k: int| 0 <= k < after.len() && after[k] == loaded[j];
            assert(after[k].spec_name() == other);
        }
    }
}

/// A model just loaded takes no inputs and declares no outputs: inference
/// with no inputs answers with no outputs, and with any inputs is refused.
pub proof fn lemma_fresh_model_inference(
    before: Seq<WasmModel>,
    loaded: Seq<WasmModel>,
    name: Seq<char>,
    bytes: Seq<u8>,
    target: WasmTarget,
    num_inputs: usize,
    res: Result<Vec<OutputSpec>, WasmRuntimeError>,
)
    requires
        loaded_into(before, loaded, name, bytes, target),
        inference_outcome(loaded, name, num_inputs, res),
    ensures
        num_inputs == 0 ==> (res matches Ok(outs) && outs@.len() == 0),
        num_inputs != 0 ==> (res matches Err(WasmRuntimeError::InvalidInputShape { .. })),
{
    let i = choose|i: int| 0 <= i < loaded.len() && loaded[i].spec_name() == name;
    assert(fresh_model(loaded[i], name, bytes, target));
}

/// After a model is unloaded, inference on it is refused as not found.
pub proof fn lemma_unloaded_model_not_found(
    before: Seq<WasmModel>,
    after: Seq<WasmModel>,
    name: Seq<char>,
    num_inputs: usize,
    res: Result<Vec<OutputSpec>, WasmRuntimeError>,
)
    requires
        unloaded_from(before, after, name),
        inference_outcome(after, name, num_inputs, res),
    ensures
        res matches Err(WasmRuntimeError::ModelLoadFailed(m)) && m@ == "Model '"@ + name
            + "' not found"@,
{
}

proof fn lemma_names_listed(ms: Seq<WasmModel>, name: Seq<char>)
    ensures
        model_names(ms).contains(name) == has_model(ms, name),
{
    if has_model(ms, name) {
        let i = choose|i: int| 0 <= i < ms.len() && (#[trigger] ms[i]).spec_name() == name;
        assert(model_names(ms)[i] == name);
    }
    if model_names(ms).contains(name) {
        let i = choose|i: int| 0 <= i < model_names(ms).len() && model_names(ms)[i] == name;
        assert(ms[i].spec_name() == name);
    }
}

} // verus!
