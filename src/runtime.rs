//! The process runtime's configuration and the command line of a worker.

use crate::model::Worker;
use crate::text::{decimal, u64_text};
use vstd::prelude::*;

verus! {

/// Process runtime configuration.
#[derive(Debug, Clone)]
pub struct ProcessRuntimeConfig {
    /// Path to the llama.cpp server binary
    pub llama_server_path: String,
    /// Additional arguments for the server
    pub extra_args: Vec<String>,
}

impl Default for ProcessRuntimeConfig {
    fn default() -> (r: Self)
        ensures
            r.llama_server_path@ == "llama-server"@,
            r.extra_args@.len() == 0,
    {
        ProcessRuntimeConfig { llama_server_path: String::from_str("llama-server"), extra_args: Vec::new() }
    }
}

/// Runs inference workers as operating-system processes.
pub struct ProcessRuntime {
    config: ProcessRuntimeConfig,
}

/// The texts of a list of strings.
pub open spec fn texts(v: Seq<String>) -> Seq<Seq<char>> {
    v.map_values(|s: String| s@)
}

/// GPU indices as text, separated by commas.
pub open spec fn joined(ids: Seq<u32>) -> Seq<char>
    decreases ids.len(),
{
    if ids.len() == 0 {
        Seq::empty()
    } else if ids.len() == 1 {
        decimal(ids[0] as nat)
    } else {
        joined(ids.drop_last()) + ","@ + decimal(ids.last() as nat)
    }
}

/// The arguments of a worker's server: the model, the host and port to bind,
/// all layers on the GPU when it has GPUs, then the extra arguments.
pub open spec fn server_args(w: Worker, model_path: Seq<char>, extra: Seq<Seq<char>>) -> Seq<Seq<char>> {
    seq!["--model"@, model_path, "--host"@, w.endpoint.host@, "--port"@, decimal(w.endpoint.port as nat)]
        + (if w.gpu_ids@.len() > 0 {
        seq!["--n-gpu-layers"@, "999"@]
    } else {
        Seq::empty()
    }) + extra
}

impl ProcessRuntime {
    /// The configuration.
    pub closed spec fn config(&self) -> ProcessRuntimeConfig {
        self.config
    }

    /// A runtime with `config`.
    pub fn new(config: ProcessRuntimeConfig) -> (r: Self)
        ensures
            r.config() == config,
    {
        ProcessRuntime { config }
    }

    /// The name of this runtime.
    pub fn name(&self) -> (r: &'static str)
        ensures
            r@ == "process"@,
    {
        "process"
    }

    /// The server binary to run.
    pub fn server_path(&self) -> (r: &String)
        ensures
            *r == self.config().llama_server_path,
    {
        &self.config.llama_server_path
    }

    /// The arguments of the server of `worker` serving `model_path`.
    pub fn build_args(&self, worker: &Worker, model_path: &str) -> (r: Vec<String>)
        ensures
            texts(r@) == server_args(*worker, model_path@, texts(self.config().extra_args@)),
    {
        let mut r: Vec<String> = Vec::new();
        r.push(String::from_str("--model"));
        r.push(String::from_str(model_path));
        r.push(String::from_str("--host"));
        r.push(worker.endpoint.host.clone());
        r.push(String::from_str("--port"));
        r.push(u64_text(worker.endpoint.port as u64));
        if worker.gpu_ids.len() > 0 {
            r.push(String::from_str("--n-gpu-layers"));
            r.push(String::from_str("999"));
        }
        let ghost base = texts(r@);
        let extra = &self.config.extra_args;
        let mut i: usize = 0;
        while i < extra.len()
            invariant
                i <= extra@.len(),
                texts(r@) == base + texts(extra@.subrange(0, i as int)),
            decreases extra@.len() - i,
        {
            let ghost before = r@;
            r.push(extra[i].clone());
            assert(texts(r@) =~= texts(before).push(extra@[i as int]@));
            assert(texts(extra@.subrange(0, i as int + 1)) =~= texts(extra@.subrange(0, i as int)).push(
                extra@[i as int]@,
            ));
            i = i + 1;
        }
        assert(extra@.subrange(0, i as int) =~= extra@);
        assert(base =~= server_args(*worker, model_path@, Seq::empty()));
        assert(texts(r@) =~= server_args(*worker, model_path@, texts(self.config.extra_args@)));
        r
    }

    /// The devices that the worker's server may see: its GPU indices separated
    /// by commas, or `None` when it has no GPUs.
    pub fn visible_devices(&self, worker: &Worker) -> (r: Option<String>)
        ensures
            worker.gpu_ids@.len() == 0 ==> r is None,
            worker.gpu_ids@.len() > 0 ==> (r matches Some(s) && s@ == joined(worker.gpu_ids@)),
    {
        let ids = &worker.gpu_ids;
        if ids.len() == 0 {
            return None;
        }
        let mut s = u64_text(ids[0] as u64);
        let mut i: usize = 1;
        assert(ids@.subrange(0, 1) =~= seq![ids@[0]]);
        while i < ids.len()
            invariant
                1 <= i <= ids@.len(),
                s@ == joined(ids@.subrange(0, i as int)),
            decreases ids@.len() - i,
        {
            let ghost prefix = ids@.subrange(0, i as int + 1);
            assert(prefix.drop_last() =~= ids@.subrange(0, i as int));
            s = s.concat(",").concat(u64_text(ids[i] as u64).as_str());
            i = i + 1;
        }
        assert(ids@.subrange(0, i as int) =~= ids@);
        Some(s)
    }
}

} // verus!
