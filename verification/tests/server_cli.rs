use edgebot::cli::{CompileArgs, CompilePlan, DeployArgs, SimulateArgs, SimulationPlan};
use edgebot::compile::HardwarePlatform;
use edgebot::dashboard::{
    job_status_class, job_status_text_class, license_badge, license_overview, license_status_label,
    recent_job_count, select_job, short_id,
};
use edgebot::deploy::{DeployError, DeployMethod};
use edgebot::jobs::{
    headless_from, metrics_scene_name, parse_port, scene_after_step, uploaded_job, JobResponse, JobStatus, JobStore, ServerConfig,
};
use edgebot::licensing::{DecodedLicense, LicenseError, LicensePayload, LicensingClient};
use edgebot::ros2::Ros2PublisherExt;
use edgebot::services::{license_info_from_key, SimServerClient};

fn compile_args(target: Option<&str>, hardware: Option<&str>) -> CompileArgs {
    CompileArgs {
        target: target.map(String::from),
        hardware: hardware.map(String::from),
        output: "out/edgebot".to_string(),
        release: true,
        features: vec![],
        model: None,
        static_link: false,
        docker_image: None,
    }
}

fn single(plan: CompilePlan) -> String {
    match plan {
        CompilePlan::Single(t) => t,
        CompilePlan::AllTargets => panic!("expected a single target"),
    }
}

#[test]
fn compile_plan_choices() {
    assert!(matches!(compile_args(Some("all"), Some("stm32")).plan(HardwarePlatform::Unknown), CompilePlan::AllTargets));
    assert_eq!(single(compile_args(None, None).plan(HardwarePlatform::Stm32)), "thumbv7em-none-eabihf");
    assert_eq!(single(compile_args(Some("x86_64-unknown-linux-gnu"), None).plan(HardwarePlatform::Stm32)), "x86_64-unknown-linux-gnu");
    assert_eq!(
        single(compile_args(Some("x86_64-unknown-linux-gnu"), Some("Generic-ARM")).plan(HardwarePlatform::Stm32)),
        "aarch64-unknown-linux-gnu"
    );
    assert_eq!(single(compile_args(None, Some("nonsense")).plan(HardwarePlatform::Stm32)), "aarch64-unknown-linux-musl");
}

#[test]
fn deploy_args_plan() {
    let args = DeployArgs {
        binary: "target/edgebot".to_string(),
        target: "10.0.0.2:22".to_string(),
        method: "ssh".to_string(),
        destination: "/opt/edgebot/".to_string(),
        username: Some("pi".to_string()),
        password: None,
    };
    match args.plan(true) {
        Ok(DeployMethod::Ssh { username, password }) => {
            assert_eq!(username, "pi");
            assert!(password.is_none());
        }
        _ => panic!("expected an SSH plan"),
    }
    assert!(matches!(args.plan(false), Err(DeployError::BinaryNotFound(b)) if b == "target/edgebot"));
}

#[test]
fn simulate_args_plan() {
    let mut args = SimulateArgs {
        model: "m.onnx".to_string(),
        world: None,
        cloud: true,
        server: "http://sim:8080".to_string(),
        runs: 1,
        json: false,
        timestep: 32,
    };
    assert!(matches!(args.plan(), Ok(SimulationPlan::Cloud { url }) if url == "http://sim:8080/simulate"));
    args.cloud = false;
    assert!(matches!(args.plan(), Err(m) if m == "World file is required for local simulation"));
    args.world = Some("worlds/a.wbt".to_string());
    assert!(matches!(args.plan(), Ok(SimulationPlan::Local { world }) if world == "worlds/a.wbt"));
}

#[test]
fn dashboard_decisions() {
    assert_eq!(job_status_class("Completed"), "status-completed");
    assert_eq!(job_status_class("Failed"), "status-failed");
    assert_eq!(job_status_class("Queued"), "status-running");
    assert_eq!(job_status_text_class("Completed"), "text-success");
    assert_eq!(job_status_text_class("Running"), "text-running");
    assert_eq!(short_id("0123456789abcdef", 12), "0123456789ab");
    assert_eq!(short_id("abc", 8), "abc");
    let ids = vec!["a".to_string(), "b".to_string(), "b".to_string()];
    assert_eq!(select_job(&ids, "b"), Some(1));
    assert_eq!(select_job(&ids, "z"), None);
    assert_eq!(license_status_label(false, false), "No License Key Set");
    assert_eq!(license_status_label(true, true), "✅ Pro License Active");
    assert_eq!(license_status_label(true, false), "🆓 Free Tier");
    assert_eq!(license_badge(false), "🆓 Free");
    assert_eq!(recent_job_count(3), 3);
    assert_eq!(recent_job_count(9), 5);
}

#[test]
fn license_overview_from_summary() {
    let o = license_overview(true, license_info_from_key(Some("key-12345678")));
    assert!(o.has_license && o.has_pro);
    assert_eq!(o.features, vec!["cloud_sim".to_string(), "optimization".to_string()]);
    assert_eq!(o.key_preview.as_deref(), Some("...87654321"));
    let o = license_overview(false, None);
    assert!(!o.has_license);
    assert!(o.features.is_empty());
    assert!(o.key_preview.is_none());
}

#[test]
fn server_client_from_setting() {
    assert_eq!(SimServerClient::from_setting(None).health_url(), "http://localhost:8080/health");
    assert_eq!(SimServerClient::from_setting(Some("http://sim:9000")).jobs_url(), "http://sim:9000/jobs");
}

#[test]
fn port_parsing() {
    assert_eq!(parse_port("8080"), Some(8080));
    assert_eq!(parse_port("+443"), Some(443));
    assert_eq!(parse_port("0"), Some(0));
    assert_eq!(parse_port("65535"), Some(65535));
    assert_eq!(parse_port("65536"), None);
    assert_eq!(parse_port("99999999999"), None);
    assert_eq!(parse_port(""), None);
    assert_eq!(parse_port("+"), None);
    assert_eq!(parse_port("80a"), None);
    assert_eq!(parse_port("-1"), None);
    for s in ["1", "22", "+7", "00080", "65535", "65536", "x", " 1"] {
        assert_eq!(parse_port(s), s.parse::<u16>().ok(), "{}", s);
    }
}

#[test]
fn server_config_defaults() {
    let c = ServerConfig::from_values(None, None, None);
    assert_eq!((c.host.as_str(), c.port, c.models_dir.as_str()), ("0.0.0.0", 8080, "./models"));
    let c = ServerConfig::from_values(Some("127.0.0.1"), Some("not a port"), Some("/srv/models"));
    assert_eq!((c.host.as_str(), c.port, c.models_dir.as_str()), ("127.0.0.1", 8080, "/srv/models"));
    assert_eq!(ServerConfig::from_values(None, Some("9090"), None).port, 9090);
}

#[test]
fn job_store_lifecycle() {
    let mut store = JobStore::new();
    store.insert(uploaded_job("job-1".to_string()));
    store.insert(uploaded_job("job-2".to_string()));
    assert_eq!(store.list().len(), 2);
    let j = store.get("job-1").unwrap();
    assert_eq!(j.status, JobStatus::Running);
    assert_eq!(j.model_name, "uploaded_model");
    assert_eq!(j.world_file.as_deref(), Some("worlds/default.wbt"));
    assert_eq!(j.scenes, vec!["scene1".to_string()]);

    store.mark_failed("job-1", "Failed to launch Webots: no display".to_string()).unwrap();
    let j = store.results("job-1").unwrap();
    assert_eq!(j.status, JobStatus::Failed);
    assert_eq!(j.error.as_deref(), Some("Failed to launch Webots: no display"));

    let scene = metrics_scene_name(&store.get("job-2").unwrap().scenes);
    store.mark_completed("job-2", 1000, scene).unwrap();
    let j = store.get("job-2").unwrap();
    assert_eq!(j.status, JobStatus::Completed);
    assert_eq!(j.total_frames, Some(1000));
    assert_eq!(j.scene_name.as_deref(), Some("scene1"));

    match store.results("nope") {
        Err(e) => assert_eq!(e.message, "Job not found"),
        Ok(_) => panic!("expected Job not found"),
    }
    assert!(store.mark_failed("nope", String::new()).is_err());

    let mut replacement = uploaded_job("job-1".to_string());
    replacement.model_name = "second".to_string();
    store.insert(replacement);
    assert_eq!(store.list().len(), 2);
    assert_eq!(store.get("job-1").unwrap().model_name, "second");
    assert_eq!(store.get("job-1").unwrap().status, JobStatus::Running);
}

#[test]
fn server_small_decisions() {
    assert!(headless_from(None));
    assert!(headless_from(Some("true")));
    assert!(headless_from(Some("1")));
    assert!(!headless_from(Some("false")));
    assert!(!headless_from(Some("TRUE")));
    assert_eq!(metrics_scene_name(&vec![]), "default");
    let r = JobResponse::started("abc".to_string());
    assert_eq!((r.job_id.as_str(), r.message.as_str()), ("abc", "Simulation started"));
}

#[test]
fn license_messages_and_client() {
    assert_eq!(
        LicenseError::LicenseKeyNotFound.message(),
        "License key not found. Set EDGEBOT_LICENSE_KEY environment variable."
    );
    assert_eq!(
        LicenseError::FeatureNotAvailable("cloud_sim".to_string()).message(),
        "Feature 'cloud_sim' is not available in your license. Contact sales@edgebot.ai to upgrade."
    );
    assert_eq!(LicenseError::InvalidFormat("x".to_string()).message(), "Invalid license key format: x");
    assert_eq!(LicenseError::LicenseExpired("y".to_string()).message(), "License expired: y");

    let decoded = DecodedLicense { signature: vec![0u8; 64], payload: b"{}".to_vec() };
    let expired = LicensePayload {
        customer_id: "c".to_string(),
        timestamp: 0,
        features: vec![],
        expiry: Some(1),
    };
    let err = LicensingClient.check_cloud_sim(&decoded, &expired).unwrap_err();
    assert_eq!(err, "License expired: License expired at %Y-%m-%d %H:%M:%S UTC");
    assert!(LicensingClient.check_pro_access(&decoded, &expired).is_err());
    assert!(LicensingClient.check_optimization(&decoded, &expired).is_err());
}

#[test]
fn unit_publisher_accepts_buffers() {
    ().publish_zero_copy(&[1, 2, 3]);
}

#[test]
fn scene_stepping() {
    assert_eq!(scene_after_step(0, 0, true), (1, true));
    assert_eq!(scene_after_step(998, 5000, true), (5001, true));
    assert_eq!(scene_after_step(999, 5001, true), (5002, false));
    assert_eq!(scene_after_step(10, 7, false), (7, false));
    let (mut frames, mut step) = (0u32, 0u32);
    loop {
        let (f, go) = scene_after_step(step, frames, true);
        frames = f;
        step += 1;
        if !go {
            break;
        }
    }
    assert_eq!((frames, step), (1000, 1000));
}
