//! The inference client's configuration records, as plain data: what
//! the model is loaded with and what each completion request is made
//! with. The engine itself is native code the verifier cannot see, so
//! the shell around the library performs the load and the calls; these
//! records pin down the values it must use.

use vstd::prelude::*;

verus! {

/// The settings the model is loaded with once per run.
pub struct ModelConfig {
    /// The context window, in tokens.
    pub context_size: i32,
    /// How many layers are offloaded to the accelerator.
    pub n_gpu_layers: i32,
    /// Whether memory is spread across the machine's memory nodes.
    pub numa: bool,
}

/// The one model configuration a run loads with.
pub fn model_config() -> (r: ModelConfig)
    ensures
        r.context_size == 1024,
        r.n_gpu_layers == 43,
        r.numa,
{
    ModelConfig { context_size: 1024, n_gpu_layers: 43, numa: true }
}

/// The settings one completion request is made with.
pub struct PredictConfig {
    /// The bound on generated tokens; zero asks the engine for its own
    /// default bound within the context window.
    pub tokens: i32,
    /// How many threads the engine computes with.
    pub threads: i32,
}

/// The configuration of one completion request: unbounded generation on
/// the given number of threads.
pub fn predict_config(threads: i32) -> (r: PredictConfig)
    ensures
        r.tokens == 0,
        r.threads == threads,
{
    PredictConfig { tokens: 0, threads }
}

} // verus!
