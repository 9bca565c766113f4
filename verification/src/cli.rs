//! The command line's arguments as plain values, and the decisions `main`
//! makes on them: which targets to compile, how to deploy, where to simulate.

use vstd::prelude::*;
use vstd::string::StringExecFns;
use crate::compile::{get_target_for_hardware, hardware_from_name, lowercase, platform_named, target_for, HardwarePlatform};
use crate::deploy::{deploy_plan_spec, plan_deploy, DeployError, DeployMethod};
use crate::text::str_eq;

verus! {

/// Arguments of `edgebot compile`.
pub struct CompileArgs {
    /// Target triple, or `all` for every supported ARM target.
    pub target: Option<String>,
    /// Hardware platform name; overrides the target.
    pub hardware: Option<String>,
    /// Output binary path.
    pub output: String,
    pub release: bool,
    pub features: Vec<String>,
    /// Model file shipped alongside the binary.
    pub model: Option<String>,
    pub static_link: bool,
    pub docker_image: Option<String>,
}

/// Arguments of `edgebot deploy`.
pub struct DeployArgs {
    /// Binary file to deploy.
    pub binary: String,
    /// Target device address (IP or serial port).
    pub target: String,
    /// Deployment method (ssh, serial).
    pub method: String,
    /// Remote destination path.
    pub destination: String,
    pub username: Option<String>,
    pub password: Option<String>,
}

/// Arguments of `edgebot simulate`.
pub struct SimulateArgs {
    /// Model file to test.
    pub model: String,
    /// Simulation world file.
    pub world: Option<String>,
    /// Run on the simulation server.
    pub cloud: bool,
    /// Simulation server URL.
    pub server: String,
    /// Number of simulation runs.
    pub runs: u32,
    /// Print results as JSON.
    pub json: bool,
    /// Timestep between simulation steps (ms).
    pub timestep: i32,
}

/// Arguments of `edgebot optimize`.
pub struct OptimizeArgs {
    pub input: String,
    pub output: String,
    /// Quantization: int8, fp16, none.
    pub quantize: String,
    /// Pruning: none, magnitude, structured.
    pub prune: String,
    /// Pruning threshold, as the bit pattern of a single-precision float.
    pub pruning_threshold: Option<u32>,
    pub fuse_layers: bool,
    /// Target device (cpu, cuda).
    pub device: String,
}

/// The subcommands.
pub enum Commands {
    Compile(CompileArgs),
    Deploy(DeployArgs),
    Simulate(SimulateArgs),
    Optimize(OptimizeArgs),
}

/// The whole command line.
pub struct Cli {
    pub command: Commands,
    pub verbose: bool,
}

/// What a compile request builds.
pub enum CompilePlan {
    /// Every supported ARM target.
    AllTargets,
    /// One target triple.
    Single(String),
}

/// The target a compile request names: a named hardware platform's triple
/// first, then the given target, then the detected hardware's triple; the
/// target `all` asks for every supported target.
pub open spec fn compile_plan_spec(
    target: Option<Seq<char>>,
    hardware: Option<Seq<char>>,
    detected: HardwarePlatform,
    plan: CompilePlan,
) -> bool {
    if target == Some("all"@) {
        plan is AllTargets
    } else {
        plan matches CompilePlan::Single(t) && t@ == match hardware {
            Some(h) => target_for(platform_named(lowercase(h))).0,
            None => match target {
                Some(t) => t,
                None => target_for(detected).0,
            },
        }
    }
}

impl CompileArgs {
    /// Decides what to compile; `detected` is the local hardware.
    pub fn plan(&self, detected: HardwarePlatform) -> (plan: CompilePlan)
        ensures
            compile_plan_spec(
                match self.target {
                    Some(t) => Some(t@),
                    None => None,
                },
                match self.hardware {
                    Some(h) => Some(h@),
                    None => None,
                },
                detected,
                plan,
            ),
    {
        if let Some(t) = &self.target {
            if str_eq(t.as_str(), "all") {
                return CompilePlan::AllTargets;
            }
        }
        let target = match &self.hardware {
            Some(h) => get_target_for_hardware(&hardware_from_name(h.as_str())).triple,
            None => match &self.target {
                Some(t) => t.clone(),
                None => get_target_for_hardware(&detected).triple,
            },
        };
        proof {
            reveal_strlit("all");
        }
        CompilePlan::Single(target)
    }
}

impl DeployArgs {
    /// Decides how to deploy, given whether the binary exists.
    pub fn plan(&self, binary_exists: bool) -> (res: Result<DeployMethod, DeployError>)
        ensures
            deploy_plan_spec(
                self.binary@,
                binary_exists,
                self.method@,
                match self.username {
                    Some(u) => Some(u@),
                    None => None,
                },
                match self.password {
                    Some(p) => Some(p@),
                    None => None,
                },
                res,
            ),
    {
        let username = match &self.username {
            Some(u) => Some(u.as_str()),
            None => None,
        };
        let password = match &self.password {
            Some(p) => Some(p.as_str()),
            None => None,
        };
        plan_deploy(self.binary.as_str(), binary_exists, self.method.as_str(), username, password)
    }
}

/// Where a simulation runs.
pub enum SimulationPlan {
    /// On the simulation server at `url`, which needs the cloud feature.
    Cloud { url: String },
    /// Locally in Webots with the given world file.
    Local { world: String },
}

impl SimulateArgs {
    /// Decides where to simulate: on the server when asked, otherwise
    /// locally, which needs a world file.
    pub fn plan(&self) -> (res: Result<SimulationPlan, String>)
        ensures
            self.cloud ==> (res matches Ok(SimulationPlan::Cloud { url }) && url@ == self.server@
                + "/simulate"@),
            !self.cloud && self.world is None ==> (res matches Err(m) && m@
                == "World file is required for local simulation"@),
            !self.cloud && self.world is Some ==> (res matches Ok(SimulationPlan::Local { world })
                && world@ == self.world->0@),
    {
        if self.cloud {
            return Ok(SimulationPlan::Cloud { url: self.server.clone().concat("/simulate") });
        }
        match &self.world {
            Some(w) => Ok(SimulationPlan::Local { world: w.clone() }),
            None => Err(String::from_str("World file is required for local simulation")),
        }
    }
}

} // verus!
