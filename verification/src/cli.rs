//! The run's configuration and the rules it must meet.

use crate::hw::available_cores;
use crate::jwt::{algorithm_named, parse_algorithm};
use crate::text::{decimal, decimal_text, uppercased};
use vstd::prelude::*;

verus! {

/// Everything a run is told.
#[derive(Clone, Debug)]
pub struct Args {
    pub token: String,
    pub output: Option<String>,
    pub min_length: usize,
    pub max_length: usize,
    pub alphabet: String,
    pub log_file: Option<String>,
    pub all_tried_file: Option<String>,
    pub algorithm: String,
    pub base64: bool,
    pub verbose: bool,
    pub gpu: bool,
    pub gpu_limit: Option<usize>,
    pub cpu: Option<usize>,
    pub ram: Option<usize>,
    pub cores: Option<usize>,
    pub limit: Option<usize>,
    pub dictionary: Option<Vec<String>>,
}

/// A resource whose share can be limited.
#[derive(Clone, Copy, Debug, PartialEq, Eq, Structural)]
pub enum Resource {
    Gpu,
    Cpu,
    Ram,
    Global,
}

/// Why a configuration is refused.
#[derive(Clone, Copy, Debug, PartialEq, Eq, Structural)]
pub enum ConfigError {
    /// A percentage is not between 1 and 100.
    LimitOutOfRange(Resource),
    /// A global limit stands beside a CPU or RAM limit.
    GlobalWithCpuOrRam,
    /// A core count stands beside GPU mode.
    CoresWithGpu,
    /// The core count is not between 1 and the number of cores at hand,
    /// which comes with it.
    CoreCountOutOfRange(usize),
    /// A GPU percentage is given without GPU mode.
    GpuLimitWithoutGpu,
    /// The algorithm is none of the supported ones.
    UnsupportedAlgorithm,
    /// Candidates of length zero were asked for.
    ZeroLength,
    /// The candidates of the length range cannot be counted in an index.
    TooManyCombinations,
}

impl Resource {
    /// The resource's name in messages.
    pub open spec fn name(self) -> Seq<char> {
        match self {
            Resource::Gpu => "GPU"@,
            Resource::Cpu => "CPU"@,
            Resource::Ram => "RAM"@,
            Resource::Global => "Global"@,
        }
    }
}

impl ConfigError {
    /// The text of the message that goes with an error.
    pub open spec fn message_text(self) -> Seq<char> {
        match self {
            ConfigError::LimitOutOfRange(resource) => resource.name()
                + " limit must be between 1 and 100"@,
            ConfigError::GlobalWithCpuOrRam => "--limit cannot be used with --cpu or --ram"@,
            ConfigError::CoresWithGpu => "--cores cannot be used with --gpu"@,
            ConfigError::CoreCountOutOfRange(available) => "Core count must be between 1 and "@
                + decimal_text(available as nat),
            ConfigError::GpuLimitWithoutGpu => "--gpu-limit requires --gpu to be enabled"@,
            ConfigError::UnsupportedAlgorithm => "Unsupported algorithm"@,
            ConfigError::ZeroLength => "Minimum length must be at least 1"@,
            ConfigError::TooManyCombinations => "Too many combinations for the length range"@,
        }
    }

    /// The message that goes with the error.
    pub fn message(&self) -> (text: String)
        ensures
            text@ == self.message_text(),
    {
        match self {
            ConfigError::LimitOutOfRange(resource) => {
                let mut text = match resource {
                    Resource::Gpu => "GPU".to_owned(),
                    Resource::Cpu => "CPU".to_owned(),
                    Resource::Ram => "RAM".to_owned(),
                    Resource::Global => "Global".to_owned(),
                };
                text.append(" limit must be between 1 and 100");
                text
            },
            ConfigError::GlobalWithCpuOrRam => "--limit cannot be used with --cpu or --ram".to_owned(),
            ConfigError::CoresWithGpu => "--cores cannot be used with --gpu".to_owned(),
            ConfigError::CoreCountOutOfRange(available) => {
                let mut text = "Core count must be between 1 and ".to_owned();
                text.append(decimal(*available).as_str());
                text
            },
            ConfigError::GpuLimitWithoutGpu => "--gpu-limit requires --gpu to be enabled".to_owned(),
            ConfigError::UnsupportedAlgorithm => "Unsupported algorithm".to_owned(),
            ConfigError::ZeroLength => "Minimum length must be at least 1".to_owned(),
            ConfigError::TooManyCombinations => "Too many combinations for the length range".to_owned(),
        }
    }
}

/// Whether a percentage, if given, lies outside 1 to 100.
pub open spec fn out_of_range(limit: Option<usize>) -> bool {
    limit matches Some(value) && (value == 0 || value > 100)
}

/// The first rule that a configuration breaks on a machine with
/// `available_cores` cores, in the order in which the rules are checked.
pub open spec fn first_violation(args: Args, available_cores: usize) -> Option<ConfigError> {
    if out_of_range(args.gpu_limit) {
        Some(ConfigError::LimitOutOfRange(Resource::Gpu))
    } else if out_of_range(args.cpu) {
        Some(ConfigError::LimitOutOfRange(Resource::Cpu))
    } else if out_of_range(args.ram) {
        Some(ConfigError::LimitOutOfRange(Resource::Ram))
    } else if out_of_range(args.limit) {
        Some(ConfigError::LimitOutOfRange(Resource::Global))
    } else if args.limit is Some && (args.cpu is Some || args.ram is Some) {
        Some(ConfigError::GlobalWithCpuOrRam)
    } else if args.gpu && args.cores is Some {
        Some(ConfigError::CoresWithGpu)
    } else if args.cores matches Some(cores) && (cores == 0 || cores > available_cores) {
        Some(ConfigError::CoreCountOutOfRange(available_cores))
    } else if args.gpu_limit is Some && !args.gpu {
        Some(ConfigError::GpuLimitWithoutGpu)
    } else if algorithm_named(uppercased(args.algorithm@)) is None {
        Some(ConfigError::UnsupportedAlgorithm)
    } else {
        None
    }
}

fn limit_out_of_range(limit: Option<usize>) -> (out: bool)
    ensures
        out == out_of_range(limit),
{
    match limit {
        Some(value) => value == 0 || value > 100,
        None => false,
    }
}

/// Checks a configuration against the rules on resource limits and on the
/// algorithm, on a machine with `available_cores` cores, and reports the
/// first rule that it breaks.
pub fn validate_args(args: &Args, available_cores: usize) -> (checked: Result<(), ConfigError>)
    ensures
        checked is Ok <==> first_violation(*args, available_cores) is None,
        checked matches Err(e) ==> first_violation(*args, available_cores) == Some(e),
{
    if limit_out_of_range(args.gpu_limit) {
        return Err(ConfigError::LimitOutOfRange(Resource::Gpu));
    }
    if limit_out_of_range(args.cpu) {
        return Err(ConfigError::LimitOutOfRange(Resource::Cpu));
    }
    if limit_out_of_range(args.ram) {
        return Err(ConfigError::LimitOutOfRange(Resource::Ram));
    }
    if limit_out_of_range(args.limit) {
        return Err(ConfigError::LimitOutOfRange(Resource::Global));
    }
    if args.limit.is_some() && (args.cpu.is_some() || args.ram.is_some()) {
        return Err(ConfigError::GlobalWithCpuOrRam);
    }
    if args.gpu && args.cores.is_some() {
        return Err(ConfigError::CoresWithGpu);
    }
    if let Some(cores) = args.cores {
        if cores == 0 || cores > available_cores {
            return Err(ConfigError::CoreCountOutOfRange(available_cores));
        }
    }
    if args.gpu_limit.is_some() && !args.gpu {
        return Err(ConfigError::GpuLimitWithoutGpu);
    }
    if parse_algorithm(args.algorithm.as_str()).is_none() {
        return Err(ConfigError::UnsupportedAlgorithm);
    }
    Ok(())
}

/// Accepts a configuration that meets the rules on this machine, and hands
/// it back unchanged; refuses any other with the first rule it breaks. Only
/// the rule on the core count depends on the machine.
pub fn parse_args(args: Args) -> (parsed: Result<Args, ConfigError>)
    ensures
        parsed matches Ok(accepted) ==> accepted == args,
        exists|available: usize|
            available >= 1 && match parsed {
                Ok(_) => first_violation(args, available) is None,
                Err(e) => first_violation(args, available) == Some(e),
            },
        args.cores is None ==> (parsed is Ok <==> first_violation(args, 1) is None),
        args.cores is None ==> (parsed matches Err(e) ==> first_violation(args, 1) == Some(e)),
{
    let available = available_cores();
    match validate_args(&args, available) {
        Ok(()) => Ok(args),
        Err(e) => Err(e),
    }
}

} // verus!
