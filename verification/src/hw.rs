//! The resource budget: how many workers a run may use, and how the
//! process is to be confined when its CPU share is limited.

use crate::errors::Error;
use crate::text::{decimal, decimal_text, has_prefix, starts_with, texts};
use vstd::prelude::*;

verus! {

/// `num_cpus::get`: the number of logical cores that the process may use,
/// which is at least one.
#[verifier::external_body]
pub(crate) fn available_cores() -> (cores: usize)
    ensures
        cores >= 1,
{
    num_cpus::get()
}

/// The limits a run is to keep.
#[derive(Clone, Copy, Debug, PartialEq, Eq, Structural)]
pub struct HardwareConfig {
    pub gpu_enabled: bool,
    pub gpu_limit: u8,
    pub cpu_limit: u8,
    pub ram_limit: u8,
    pub core_limit: usize,
    pub global_limit: u8,
}

impl HardwareConfig {
    /// No limits: every percentage at 100, no GPU, and as many cores as
    /// the machine offers.
    pub fn new() -> (config: Self)
        ensures
            !config.gpu_enabled,
            config.gpu_limit == 100,
            config.cpu_limit == 100,
            config.ram_limit == 100,
            config.global_limit == 100,
            config.core_limit >= 1,
    {
        Self::with_cores(available_cores())
    }

    /// No limits, on a machine of `cores` cores.
    pub fn with_cores(cores: usize) -> (config: Self)
        ensures
            config == (HardwareConfig {
                gpu_enabled: false,
                gpu_limit: 100,
                cpu_limit: 100,
                ram_limit: 100,
                core_limit: cores,
                global_limit: 100,
            }),
    {
        HardwareConfig {
            gpu_enabled: false,
            gpu_limit: 100,
            cpu_limit: 100,
            ram_limit: 100,
            core_limit: cores,
            global_limit: 100,
        }
    }

    pub fn with_gpu(self, enabled: bool) -> (config: Self)
        ensures
            config == (HardwareConfig { gpu_enabled: enabled, ..self }),
    {
        HardwareConfig { gpu_enabled: enabled, ..self }
    }

    pub fn with_gpu_limit(self, limit: u8) -> (config: Self)
        ensures
            config == (HardwareConfig { gpu_limit: limit, ..self }),
    {
        HardwareConfig { gpu_limit: limit, ..self }
    }

    pub fn with_cpu_limit(self, limit: u8) -> (config: Self)
        ensures
            config == (HardwareConfig { cpu_limit: limit, ..self }),
    {
        HardwareConfig { cpu_limit: limit, ..self }
    }

    pub fn with_ram_limit(self, limit: u8) -> (config: Self)
        ensures
            config == (HardwareConfig { ram_limit: limit, ..self }),
    {
        HardwareConfig { ram_limit: limit, ..self }
    }

    pub fn with_core_limit(self, limit: usize) -> (config: Self)
        ensures
            config == (HardwareConfig { core_limit: limit, ..self }),
    {
        HardwareConfig { core_limit: limit, ..self }
    }

    pub fn with_global_limit(self, limit: u8) -> (config: Self)
        ensures
            config == (HardwareConfig { global_limit: limit, ..self }),
    {
        HardwareConfig { global_limit: limit, ..self }
    }
}

/// What is to be done to the process before a search starts.
#[derive(Clone, Copy, Debug, PartialEq, Eq, Structural)]
pub enum ResourceAction {
    /// Nothing: the search runs in this process as it is.
    Proceed,
    /// The process is to be started again, confined to `cores` cores and
    /// to `percentage` percent of CPU time.
    LimitCpu { percentage: u8, cores: usize },
}

/// Holds the budget of a run.
pub struct HardwareManager {
    config: HardwareConfig,
    stop_signal: bool,
}

impl HardwareManager {
    /// The budget that the manager holds.
    pub closed spec fn config(&self) -> HardwareConfig {
        self.config
    }

    /// Whether the manager has been told to stop.
    pub closed spec fn stopped(&self) -> bool {
        self.stop_signal
    }

    pub fn new(config: HardwareConfig) -> (manager: Result<Self, Error>)
        ensures
            manager matches Ok(m) && m.config() == config && !m.stopped(),
    {
        Ok(Self { config, stop_signal: false })
    }

    /// Says what the budget asks for before the search: a CPU share under
    /// 100 percent asks for confinement, anything else for nothing.
    pub fn init_resources(&self) -> (action: Result<ResourceAction, Error>)
        ensures
            action matches Ok(a) && a == if self.config().cpu_limit < 100 {
                ResourceAction::LimitCpu {
                    percentage: self.config().cpu_limit,
                    cores: self.config().core_limit,
                }
            } else {
                ResourceAction::Proceed
            },
    {
        if self.config.cpu_limit < 100 {
            Ok(
                ResourceAction::LimitCpu {
                    percentage: self.config.cpu_limit,
                    cores: self.config.core_limit,
                },
            )
        } else {
            Ok(ResourceAction::Proceed)
        }
    }

    /// Raises the stop signal; the budget stays as it is.
    pub fn stop(&mut self)
        ensures
            final(self).stopped(),
            final(self).config() == old(self).config(),
    {
        self.stop_signal = true;
    }

    /// Whether the stop signal has been raised.
    pub fn is_stopped(&self) -> (stopped: bool)
        ensures
            stopped == self.stopped(),
    {
        self.stop_signal
    }

    /// The number of workers the run may use.
    pub fn get_core_limit(&self) -> (limit: usize)
        ensures
            limit == self.config().core_limit,
    {
        self.config.core_limit
    }
}

/// Whether an argument sets a limit that the confined process must not
/// be given again.
pub open spec fn is_limit_flag(arg: Seq<char>) -> bool {
    starts_with(arg, "--cpu"@) || starts_with(arg, "--ram"@) || starts_with(arg, "--cores"@)
}

/// The arguments that are handed on: each limit flag is dropped together
/// with the argument that follows it.
pub open spec fn forwarded(args: Seq<Seq<char>>) -> Seq<Seq<char>>
    decreases args.len(),
{
    if args.len() == 0 {
        Seq::empty()
    } else if is_limit_flag(args[0]) {
        if args.len() >= 2 {
            forwarded(args.subrange(2, args.len() as int))
        } else {
            Seq::empty()
        }
    } else {
        seq![args[0]] + forwarded(args.drop_first())
    }
}

/// The list of cores `0` to `cores - 1`, as `taskset` reads it.
pub open spec fn cpu_mask_text(cores: nat) -> Seq<char> {
    "0-"@ + decimal_text((cores - 1) as nat)
}

/// The name of the scope that the process with this id is confined in.
pub open spec fn scope_unit_text(pid: nat) -> Seq<char> {
    "jwt-crackng_"@ + decimal_text(pid) + ".scope"@
}

/// The directory of the scope's control group, for a user and a process.
pub open spec fn cgroup_path_text(uid: nat, pid: nat) -> Seq<char> {
    "/sys/fs/cgroup/user.slice/user-"@ + decimal_text(uid) + ".slice/user@"@ + decimal_text(uid)
        + ".service/app.slice/"@ + scope_unit_text(pid)
}

/// The command that starts the program again, pinned to `cores` cores and
/// held to `percentage` percent of CPU time: the program's own arguments
/// follow the path of its executable, the first of them, its name, left
/// out.
pub open spec fn confinement(
    cores: nat,
    percentage: nat,
    pid: nat,
    exe: Seq<char>,
    args: Seq<Seq<char>>,
) -> Seq<Seq<char>> {
    seq![
        "taskset"@,
        "-c"@,
        cpu_mask_text(cores),
        "systemd-run"@,
        "--user"@,
        "--scope"@,
        "--unit"@,
        scope_unit_text(pid),
        "--property"@,
        "CPUQuota="@ + decimal_text(percentage) + "%"@,
        "--property"@,
        "CPUWeight=100"@,
        "--property"@,
        "Delegate=yes"@,
        "--same-dir"@,
        "--"@,
        exe,
    ] + if args.len() == 0 {
        Seq::empty()
    } else {
        forwarded(args.drop_first())
    }
}

fn is_limit(arg: &str) -> (limit: bool)
    ensures
        limit == is_limit_flag(arg@),
{
    has_prefix(arg, "--cpu") || has_prefix(arg, "--ram") || has_prefix(arg, "--cores")
}

/// The list of cores `0` to `cores - 1`.
pub fn cpu_mask(cores: usize) -> (mask: String)
    requires
        cores >= 1,
    ensures
        mask@ == cpu_mask_text(cores as nat),
{
    let mut mask = "0-".to_owned();
    mask.append(decimal(cores - 1).as_str());
    mask
}

/// The name of the scope for a process.
pub fn scope_unit(pid: u32) -> (unit: String)
    ensures
        unit@ == scope_unit_text(pid as nat),
{
    let mut unit = "jwt-crackng_".to_owned();
    unit.append(decimal(pid as usize).as_str());
    unit.append(".scope");
    unit
}

/// The directory of the control group of a process's scope.
pub fn cgroup_path(uid: u32, pid: u32) -> (path: String)
    ensures
        path@ == cgroup_path_text(uid as nat, pid as nat),
{
    let mut path = "/sys/fs/cgroup/user.slice/user-".to_owned();
    path.append(decimal(uid as usize).as_str());
    path.append(".slice/user@");
    path.append(decimal(uid as usize).as_str());
    path.append(".service/app.slice/");
    path.append(scope_unit(pid).as_str());
    path
}

/// Appends to `command` the arguments of `args` from `from` on that are
/// handed on.
fn forward_arguments(command: &mut Vec<String>, args: &Vec<String>, from: usize)
    requires
        from <= args@.len(),
    ensures
        texts(final(command)@) == texts(old(command)@) + forwarded(
            texts(args@).subrange(from as int, args@.len() as int),
        ),
{
    let n = args.len();
    let ghost all = texts(args@);
    let ghost start = texts(command@);
    let mut i: usize = from;
    assert(texts(command@) + forwarded(all.subrange(i as int, n as int)) == start + forwarded(
        all.subrange(from as int, n as int),
    ));
    while i < n
        invariant
            n == args@.len(),
            all == texts(args@),
            from <= i <= n,
            texts(command@) + forwarded(all.subrange(i as int, n as int)) == start + forwarded(
                all.subrange(from as int, n as int),
            ),
        decreases n - i,
    {
        let ghost rest = all.subrange(i as int, n as int);
        let ghost before = texts(command@);
        assert(rest[0] == args@[i as int]@);
        if is_limit(args[i].as_str()) {
            if n - i >= 2 {
                assert(rest.subrange(2, rest.len() as int) == all.subrange(i + 2, n as int));
                i += 2;
            } else {
                i = n;
                assert(forwarded(all.subrange(n as int, n as int)) == Seq::<Seq<char>>::empty());
            }
        } else {
            let arg = args[i].clone();
            command.push(arg);
            assert(rest.drop_first() == all.subrange(i + 1, n as int));
            assert(texts(command@) == before + seq![rest[0]]);
            assert(before + (seq![rest[0]] + forwarded(rest.drop_first())) == (before + seq![
                rest[0],
            ]) + forwarded(rest.drop_first()));
            i += 1;
        }
    }
    assert(forwarded(all.subrange(n as int, n as int)) == Seq::<Seq<char>>::empty());
    assert(texts(command@) + Seq::<Seq<char>>::empty() == texts(command@));
}

fn push_text(command: &mut Vec<String>, text: &str)
    ensures
        texts(final(command)@) == texts(old(command)@).push(text@),
{
    command.push(text.to_owned());
    assert(texts(command@) == texts(old(command)@).push(text@));
}

impl HardwareManager {
    /// The command that starts the program again under the budget's core
    /// limit and a CPU share of `percentage` percent. `args` are the
    /// arguments that the program was started with, its name first; `exe`
    /// is the path of its executable.
    pub fn limit_cpu_usage(&self, percentage: u8, pid: u32, exe: &str, args: &Vec<String>) -> (command:
        Vec<String>)
        requires
            self.config().core_limit >= 1,
        ensures
            texts(command@) == confinement(
                self.config().core_limit as nat,
                percentage as nat,
                pid as nat,
                exe@,
                texts(args@),
            ),
    {
        let mut quota = "CPUQuota=".to_owned();
        quota.append(decimal(percentage as usize).as_str());
        quota.append("%");
        let mut command: Vec<String> = Vec::new();
        assert(texts(command@) == Seq::<Seq<char>>::empty());
        push_text(&mut command, "taskset");
        push_text(&mut command, "-c");
        push_text(&mut command, cpu_mask(self.config.core_limit).as_str());
        push_text(&mut command, "systemd-run");
        push_text(&mut command, "--user");
        push_text(&mut command, "--scope");
        push_text(&mut command, "--unit");
        push_text(&mut command, scope_unit(pid).as_str());
        push_text(&mut command, "--property");
        push_text(&mut command, quota.as_str());
        push_text(&mut command, "--property");
        push_text(&mut command, "CPUWeight=100");
        push_text(&mut command, "--property");
        push_text(&mut command, "Delegate=yes");
        push_text(&mut command, "--same-dir");
        push_text(&mut command, "--");
        push_text(&mut command, exe);
        let ghost fixed = texts(command@);
        if args.len() >= 1 {
            forward_arguments(&mut command, args, 1);
            assert(texts(args@).drop_first() == texts(args@).subrange(1, args@.len() as int));
        } else {
            assert(fixed + Seq::<Seq<char>>::empty() == fixed);
        }
        command
    }
}

} // verus!
