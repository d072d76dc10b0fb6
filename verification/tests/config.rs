use jwt_crackng::cli::{parse_args, validate_args, Args, ConfigError, Resource};
use jwt_crackng::errors::Error;
use jwt_crackng::hw::{cgroup_path, cpu_mask, scope_unit, HardwareConfig, HardwareManager, ResourceAction};

fn base() -> Args {
    Args {
        token: "a.b.c".to_string(),
        output: None,
        min_length: 1,
        max_length: 12,
        alphabet: "abc".to_string(),
        log_file: None,
        all_tried_file: None,
        algorithm: "HS256".to_string(),
        base64: false,
        verbose: false,
        gpu: false,
        gpu_limit: None,
        cpu: None,
        ram: None,
        cores: None,
        limit: None,
        dictionary: None,
    }
}

#[test]
fn defaults_are_accepted() {
    assert_eq!(validate_args(&base(), 8), Ok(()));
    assert_eq!(validate_args(&base(), 1), Ok(()));
}

#[test]
fn percentages_must_lie_between_1_and_100() {
    let mut a = base();
    a.gpu = true;
    a.gpu_limit = Some(0);
    assert_eq!(validate_args(&a, 8), Err(ConfigError::LimitOutOfRange(Resource::Gpu)));
    a.gpu_limit = Some(101);
    assert_eq!(validate_args(&a, 8), Err(ConfigError::LimitOutOfRange(Resource::Gpu)));
    a.gpu_limit = Some(100);
    assert_eq!(validate_args(&a, 8), Ok(()));
    a.gpu_limit = Some(1);
    assert_eq!(validate_args(&a, 8), Ok(()));
    let mut a = base();
    a.cpu = Some(0);
    assert_eq!(validate_args(&a, 8), Err(ConfigError::LimitOutOfRange(Resource::Cpu)));
    a.cpu = Some(50);
    a.ram = Some(1000);
    assert_eq!(validate_args(&a, 8), Err(ConfigError::LimitOutOfRange(Resource::Ram)));
    a.ram = None;
    a.limit = Some(0);
    assert_eq!(validate_args(&a, 8), Err(ConfigError::LimitOutOfRange(Resource::Global)));
}

#[test]
fn first_broken_rule_is_reported() {
    let mut a = base();
    a.gpu_limit = Some(0);
    a.cpu = Some(0);
    a.limit = Some(5);
    assert_eq!(validate_args(&a, 8), Err(ConfigError::LimitOutOfRange(Resource::Gpu)));
    a.gpu_limit = Some(5);
    assert_eq!(validate_args(&a, 8), Err(ConfigError::LimitOutOfRange(Resource::Cpu)));
    a.cpu = Some(5);
    assert_eq!(validate_args(&a, 8), Err(ConfigError::GlobalWithCpuOrRam));
    a.limit = None;
    assert_eq!(validate_args(&a, 8), Err(ConfigError::GpuLimitWithoutGpu));
}

#[test]
fn global_limit_excludes_cpu_and_ram() {
    let mut a = base();
    a.limit = Some(50);
    assert_eq!(validate_args(&a, 8), Ok(()));
    a.cpu = Some(50);
    assert_eq!(validate_args(&a, 8), Err(ConfigError::GlobalWithCpuOrRam));
    a.cpu = None;
    a.ram = Some(50);
    assert_eq!(validate_args(&a, 8), Err(ConfigError::GlobalWithCpuOrRam));
}

#[test]
fn cores_exclude_gpu_and_must_be_at_hand() {
    let mut a = base();
    a.cores = Some(4);
    assert_eq!(validate_args(&a, 8), Ok(()));
    assert_eq!(validate_args(&a, 4), Ok(()));
    assert_eq!(validate_args(&a, 3), Err(ConfigError::CoreCountOutOfRange(3)));
    a.cores = Some(0);
    assert_eq!(validate_args(&a, 8), Err(ConfigError::CoreCountOutOfRange(8)));
    a.cores = Some(2);
    a.gpu = true;
    assert_eq!(validate_args(&a, 8), Err(ConfigError::CoresWithGpu));
}

#[test]
fn gpu_limit_needs_gpu() {
    let mut a = base();
    a.gpu_limit = Some(50);
    assert_eq!(validate_args(&a, 8), Err(ConfigError::GpuLimitWithoutGpu));
    a.gpu = true;
    assert_eq!(validate_args(&a, 8), Ok(()));
}

#[test]
fn algorithm_must_be_supported() {
    let mut a = base();
    for name in ["HS256", "hs384", "HS512", "HMACSHA256", "hmacsha384", "HmacSha512"] {
        a.algorithm = name.to_string();
        assert_eq!(validate_args(&a, 8), Ok(()));
    }
    for name in ["RS256", "none", "", "HS"] {
        a.algorithm = name.to_string();
        assert_eq!(validate_args(&a, 8), Err(ConfigError::UnsupportedAlgorithm));
    }
}

#[test]
fn parse_args_hands_back_what_it_accepts() {
    let mut a = base();
    a.cpu = Some(50);
    let parsed = parse_args(a.clone()).unwrap();
    assert_eq!(parsed.cpu, Some(50));
    assert_eq!(parsed.token, a.token);
    assert_eq!(parsed.alphabet, a.alphabet);
    a.limit = Some(10);
    assert_eq!(parse_args(a).err(), Some(ConfigError::GlobalWithCpuOrRam));
    let mut a = base();
    a.cores = Some(1);
    assert!(parse_args(a).is_ok());
    let mut a = base();
    a.cores = Some(0);
    assert!(matches!(parse_args(a), Err(ConfigError::CoreCountOutOfRange(n)) if n >= 1));
}

#[test]
fn config_messages() {
    assert_eq!(
        ConfigError::LimitOutOfRange(Resource::Gpu).message(),
        "GPU limit must be between 1 and 100"
    );
    assert_eq!(
        ConfigError::LimitOutOfRange(Resource::Global).message(),
        "Global limit must be between 1 and 100"
    );
    assert_eq!(ConfigError::GlobalWithCpuOrRam.message(), "--limit cannot be used with --cpu or --ram");
    assert_eq!(ConfigError::CoresWithGpu.message(), "--cores cannot be used with --gpu");
    assert_eq!(ConfigError::CoreCountOutOfRange(16).message(), "Core count must be between 1 and 16");
    assert_eq!(ConfigError::GpuLimitWithoutGpu.message(), "--gpu-limit requires --gpu to be enabled");
}

#[test]
fn error_messages() {
    assert_eq!(Error::InvalidSignature.message(), "Invalid signature");
    assert_eq!(Error::Io("disk full".to_string()).message(), "IO error: disk full");
}

#[test]
fn builders_change_one_field() {
    let config = HardwareConfig::with_cores(4);
    assert_eq!(
        config,
        HardwareConfig {
            gpu_enabled: false,
            gpu_limit: 100,
            cpu_limit: 100,
            ram_limit: 100,
            core_limit: 4,
            global_limit: 100,
        }
    );
    assert_eq!(config.with_gpu(true), HardwareConfig { gpu_enabled: true, ..config });
    assert_eq!(config.with_gpu_limit(10), HardwareConfig { gpu_limit: 10, ..config });
    assert_eq!(config.with_cpu_limit(20), HardwareConfig { cpu_limit: 20, ..config });
    assert_eq!(config.with_ram_limit(30), HardwareConfig { ram_limit: 30, ..config });
    assert_eq!(config.with_core_limit(2), HardwareConfig { core_limit: 2, ..config });
    assert_eq!(config.with_global_limit(40), HardwareConfig { global_limit: 40, ..config });
    let fresh = HardwareConfig::new();
    assert!(fresh.core_limit >= 1);
    assert_eq!(fresh.with_core_limit(4), config);
}

#[test]
fn manager_reports_the_budget() {
    let mut manager = HardwareManager::new(HardwareConfig::with_cores(6)).unwrap();
    assert_eq!(manager.get_core_limit(), 6);
    assert_eq!(manager.init_resources().unwrap(), ResourceAction::Proceed);
    assert!(!manager.is_stopped());
    manager.stop();
    assert!(manager.is_stopped());
    manager.stop();
    assert!(manager.is_stopped());
    assert_eq!(manager.get_core_limit(), 6);
}

#[test]
fn cpu_share_under_100_asks_for_confinement() {
    let manager = HardwareManager::new(HardwareConfig::with_cores(2).with_cpu_limit(99)).unwrap();
    assert_eq!(
        manager.init_resources().unwrap(),
        ResourceAction::LimitCpu { percentage: 99, cores: 2 }
    );
    let manager = HardwareManager::new(HardwareConfig::with_cores(2).with_ram_limit(5)).unwrap();
    assert_eq!(manager.init_resources().unwrap(), ResourceAction::Proceed);
}

#[test]
fn confinement_names() {
    assert_eq!(cpu_mask(1), "0-0");
    assert_eq!(cpu_mask(8), "0-7");
    assert_eq!(scope_unit(4242), "jwt-crackng_4242.scope");
    assert_eq!(
        cgroup_path(1000, 77),
        "/sys/fs/cgroup/user.slice/user-1000.slice/user@1000.service/app.slice/jwt-crackng_77.scope"
    );
}

#[test]
fn confinement_command() {
    let manager = HardwareManager::new(HardwareConfig::with_cores(4)).unwrap();
    let args: Vec<String> = [
        "jwt-crackng", "--token", "a.b.c", "--cpu", "50", "-v", "--cores", "4", "--ram=10", "-n",
        "2", "--cpu-like", "x", "--cores",
    ]
    .iter()
    .map(|s| s.to_string())
    .collect();
    let command = manager.limit_cpu_usage(50, 123, "/usr/bin/jwt-crackng", &args);
    assert_eq!(
        command,
        vec![
            "taskset",
            "-c",
            "0-3",
            "systemd-run",
            "--user",
            "--scope",
            "--unit",
            "jwt-crackng_123.scope",
            "--property",
            "CPUQuota=50%",
            "--property",
            "CPUWeight=100",
            "--property",
            "Delegate=yes",
            "--same-dir",
            "--",
            "/usr/bin/jwt-crackng",
            "--token",
            "a.b.c",
            "-v",
            "2",
        ]
    );
    let command = manager.limit_cpu_usage(7, 1, "x", &Vec::new());
    assert_eq!(command.len(), 17);
    assert_eq!(command[9], "CPUQuota=7%");
    assert_eq!(command[16], "x");
}
