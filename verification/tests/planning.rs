use edgebot::compile::{
    all_targets, classify_hardware, compiled_binary_path, cross_compile_args, get_target_for_hardware,
    hardware_from_name, output_file_name, static_link_env, HardwarePlatform, TargetTriple,
};
use edgebot::deploy::{
    chmod_command, deploy_serial, mkdir_command, plan_deploy, remote_binary_path, DeployError, DeployMethod,
};
use edgebot::inference::{model_format, InferenceError, ModelFormat};
use edgebot::services::{license_info_from_key, MetricsClient, ServerError, SimServerClient};
use edgebot::text::{decimal_string, join_strings, str_contains, str_eq};
use edgebot::webots::{
    camera_image_len, check_device_type, range_image_len, step_outcome, DeviceType, SimulationMode, WebotsError,
};

#[test]
fn test_get_target_for_hardware() {
    let rpi_target = get_target_for_hardware(&HardwarePlatform::RaspberryPi);
    assert_eq!(rpi_target.triple, "aarch64-unknown-linux-musl");
    assert!(rpi_target.features.contains(&"musl".to_string()));

    let stm32_target = get_target_for_hardware(&HardwarePlatform::Stm32);
    assert_eq!(stm32_target.triple, "thumbv7em-none-eabihf");
    assert!(stm32_target.features.contains(&"no-std".to_string()));
}

#[test]
fn targets_for_generic_and_unknown() {
    let g = get_target_for_hardware(&HardwarePlatform::GenericArm);
    assert_eq!(g.triple, "aarch64-unknown-linux-gnu");
    assert_eq!(g.features, vec!["gnu".to_string()]);
    let u = get_target_for_hardware(&HardwarePlatform::Unknown);
    assert_eq!(u.description, "Default ARM64 (musl, safe fallback)");
    assert_eq!(u.features, vec!["musl".to_string(), "static".to_string()]);
    let t = TargetTriple::new("a", "b", vec!["c", "d"]);
    assert_eq!(t.features, vec!["c".to_string(), "d".to_string()]);
}

#[test]
fn hardware_names_ignore_case() {
    assert_eq!(hardware_from_name("RPI"), HardwarePlatform::RaspberryPi);
    assert_eq!(hardware_from_name("Raspberry-Pi"), HardwarePlatform::RaspberryPi);
    assert_eq!(hardware_from_name("STM32"), HardwarePlatform::Stm32);
    assert_eq!(hardware_from_name("arm"), HardwarePlatform::GenericArm);
    assert_eq!(hardware_from_name("esp32"), HardwarePlatform::Unknown);
}

#[test]
fn classify_hardware_priorities() {
    assert_eq!(
        classify_hardware(Some("Hardware : BCM2711\nModel : x"), Some("st,stm32mp157"), Some("arm")),
        HardwarePlatform::RaspberryPi
    );
    assert_eq!(classify_hardware(Some("Intel(R) Core"), Some("st,stm32mp157"), None), HardwarePlatform::Stm32);
    assert_eq!(classify_hardware(None, None, Some("Generic-ARM")), HardwarePlatform::GenericArm);
    assert_eq!(classify_hardware(Some("AMD"), Some("acme"), None), HardwarePlatform::Unknown);
    assert_eq!(classify_hardware(Some("Raspberry Pi 4 Model B"), None, None), HardwarePlatform::RaspberryPi);
}

#[test]
fn cross_compile_arguments() {
    let features = vec!["musl".to_string(), "static".to_string()];
    let args = cross_compile_args("aarch64-unknown-linux-musl", true, &features, Some("img:1"));
    assert_eq!(
        args,
        vec![
            "build", "--target", "aarch64-unknown-linux-musl", "--release", "--features", "musl,static", "-p",
            "edgebot-cli", "--docker-image", "img:1"
        ]
    );
    let args = cross_compile_args("thumbv7em-none-eabihf", false, &[], None);
    assert_eq!(args, vec!["build", "--target", "thumbv7em-none-eabihf", "-p", "edgebot-cli"]);
}

#[test]
fn static_link_environment() {
    let vars = static_link_env("aarch64-unknown-linux-gnu", true);
    assert_eq!(vars.len(), 2);
    assert_eq!(vars[0].0, "CARGO_TARGET_AARCH64_UNKNOWN_LINUX_GNU_LINKER");
    assert_eq!(vars[1], ("RUSTFLAGS".to_string(), "-C target-feature=+crt-static".to_string()));
    assert!(static_link_env("aarch64-unknown-linux-musl", true).is_empty());
    assert!(static_link_env("aarch64-unknown-linux-gnu", false).is_empty());
}

#[test]
fn binary_paths_and_names() {
    assert_eq!(compiled_binary_path("armv7-unknown-linux-musleabihf", true), "target/armv7-unknown-linux-musleabihf/release/edgebot-cli");
    assert_eq!(compiled_binary_path("x", false), "target/x/debug/edgebot-cli");
    assert_eq!(output_file_name(HardwarePlatform::RaspberryPi), "edgebot-rpi64");
    assert_eq!(output_file_name(HardwarePlatform::GenericArm), "edgebot-armv7");
    let targets = all_targets();
    assert_eq!(targets.len(), 3);
    assert_eq!(targets[1], ("armv7-unknown-linux-musleabihf".to_string(), HardwarePlatform::GenericArm));
    assert_eq!(targets[2].1, HardwarePlatform::Stm32);
}

#[test]
fn deploy_planning() {
    assert!(matches!(
        plan_deploy("bin/x", false, "ssh", Some("pi"), None),
        Err(DeployError::BinaryNotFound(p)) if p == "bin/x"
    ));
    assert!(matches!(plan_deploy("x", true, "ssh", None, None), Err(DeployError::UsernameRequired)));
    match plan_deploy("x", true, "ssh", Some("pi"), Some("secret")) {
        Ok(DeployMethod::Ssh { username, password }) => {
            assert_eq!(username, "pi");
            assert_eq!(password.as_deref(), Some("secret"));
        }
        _ => panic!("expected an SSH plan"),
    }
    assert!(matches!(plan_deploy("x", true, "serial", None, None), Ok(DeployMethod::Serial)));
    assert!(matches!(
        plan_deploy("x", true, "ftp", None, None),
        Err(DeployError::UnsupportedMethod(m)) if m == "ftp"
    ));
    assert!(matches!(deploy_serial("x", "t", "/dev/ttyUSB0"), Err(DeployError::SerialNotImplemented)));
}

#[test]
fn deploy_remote_paths() {
    assert_eq!(remote_binary_path("/home/pi"), "/home/pi/edgebot");
    assert_eq!(remote_binary_path("/opt/"), "/opt/edgebot");
    assert_eq!(remote_binary_path(""), "edgebot");
    assert_eq!(mkdir_command("/home/pi/app"), "mkdir -p /home/pi/app");
    assert_eq!(chmod_command("/home/pi/edgebot"), "chmod +x /home/pi/edgebot");
}

#[test]
fn test_unsupported_format() {
    let result = model_format("model.xyz");
    assert!(matches!(result, Err(InferenceError::UnsupportedFormat(_))));
}

#[test]
fn test_missing_extension() {
    let result = model_format("no_extension");
    assert!(matches!(result, Err(InferenceError::UnsupportedFormat(_))));
}

#[test]
fn model_format_by_extension() {
    assert_eq!(model_format("models/yolo.onnx").unwrap(), ModelFormat::Onnx);
    assert_eq!(model_format("weights.bin").unwrap(), ModelFormat::Bin);
    match model_format("dir.v2/model.pt") {
        Err(InferenceError::UnsupportedFormat(m)) => assert_eq!(m, "pt format not supported"),
        _ => panic!("expected UnsupportedFormat"),
    }
    match model_format("no_extension") {
        Err(InferenceError::UnsupportedFormat(m)) => assert_eq!(m, "missing or invalid extension"),
        _ => panic!("expected UnsupportedFormat"),
    }
}

#[test]
fn test_device_type_conversion() {
    assert!(matches!(DeviceType::from_raw(3), DeviceType::Camera));
    assert!(matches!(DeviceType::from_raw(4), DeviceType::Lidar));
    assert!(matches!(DeviceType::from_raw(1), DeviceType::DistanceSensor));
    assert!(matches!(DeviceType::from_raw(999), DeviceType::Unknown(_)));
}

#[test]
fn webots_decisions() {
    assert_eq!(DeviceType::from_raw(15), DeviceType::Led);
    assert_eq!(DeviceType::from_raw(-2), DeviceType::Unknown(-2));
    assert!(step_outcome(32).is_ok());
    assert!(step_outcome(0).is_ok());
    assert!(matches!(step_outcome(-1), Err(WebotsError::SimulationEnded)));
    assert!(matches!(step_outcome(-7), Err(WebotsError::FfiError(m)) if m == "wb_robot_step failed"));
    assert!(check_device_type(DeviceType::Camera, DeviceType::Camera).is_ok());
    assert!(matches!(
        check_device_type(DeviceType::Lidar, DeviceType::Camera),
        Err(WebotsError::UnsupportedDeviceType)
    ));
    assert_eq!(SimulationMode::Pause.code(), 0);
    assert_eq!(SimulationMode::Step.code(), 2);
    assert_eq!(camera_image_len(64, 48), 64 * 48 * 4);
    assert_eq!(range_image_len(512, 16), 8192);
}

#[test]
fn server_endpoints() {
    let c = SimServerClient::new("http://localhost:8080");
    assert_eq!(c.jobs_url(), "http://localhost:8080/jobs");
    assert_eq!(c.job_results_url("abc"), "http://localhost:8080/results/abc");
    assert_eq!(c.simulate_url(), "http://localhost:8080/simulate");
    assert_eq!(c.health_url(), "http://localhost:8080/health");
    let _m = MetricsClient::new("results.json");
    assert_eq!(ServerError::new("boom").message, "boom");
}

#[test]
fn license_summary_preview() {
    assert!(license_info_from_key(None).is_none());
    assert!(license_info_from_key(Some("")).is_none());
    let info = license_info_from_key(Some("abcdefghijkl")).unwrap();
    assert!(info.has_key);
    assert_eq!(info.key_preview, "...lkjihgfe");
    assert!(info.features.is_empty());
    assert_eq!(info.expiry, None);
    assert_eq!(license_info_from_key(Some("xyz")).unwrap().key_preview, "...zyx");
}

#[test]
fn text_helpers() {
    assert_eq!(decimal_string(0), "0");
    assert_eq!(decimal_string(1234), "1234");
    assert_eq!(decimal_string(usize::MAX), usize::MAX.to_string());
    assert!(str_eq("abc", "abc"));
    assert!(!str_eq("abc", "abd"));
    assert!(str_contains("hello world", "o w"));
    assert!(!str_contains("hello", "world"));
    assert!(str_contains("x", ""));
    assert_eq!(join_strings(&["a".to_string(), "b".to_string(), "c".to_string()], ", "), "a, b, c");
    assert_eq!(join_strings(&[], ","), "");
}

#[test]
fn test_detect_local_hardware() {
    // With nothing readable on the machine and no override, detection gives Unknown.
    let hw = classify_hardware(None, None, None);
    assert!(matches!(
        hw,
        HardwarePlatform::Unknown | HardwarePlatform::RaspberryPi | HardwarePlatform::Stm32 | HardwarePlatform::GenericArm
    ));
    assert_eq!(hw, HardwarePlatform::Unknown);
}
