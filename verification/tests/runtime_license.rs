use base64::Engine;
use ed25519_dalek::{Signature, SigningKey, Verifier};
use edgebot::licensing::{
    assemble_license_key, check_license, decode_license_key, get_public_key, parse_public_key,
    public_key_base64, DecodedLicense, LicenseError, LicensePayload,
};
use edgebot::wasm::{load_model_from_bytes, run_inference_validated, WasmRuntime, WasmRuntimeError, WasmTarget};

fn b64(bytes: &[u8]) -> String {
    base64::engine::general_purpose::STANDARD.encode(bytes)
}

#[test]
fn test_runtime_creation() {
    let browser_runtime = WasmRuntime::new(WasmTarget::Browser);
    assert_eq!(browser_runtime.default_target(), WasmTarget::Browser);
    assert!(browser_runtime.list_models(None).is_empty());

    let wasi_runtime = WasmRuntime::new(WasmTarget::Wasi);
    assert_eq!(wasi_runtime.default_target(), WasmTarget::Wasi);
}

#[test]
fn test_model_lifecycle() {
    let mut runtime = WasmRuntime::new(WasmTarget::Browser);
    let model_bytes = vec![0, 1, 2, 3, 4, 5];

    runtime.load_model("test_model", model_bytes.clone(), None).expect("Failed to load model");

    let models = runtime.list_models(None);
    assert_eq!(models, vec!["test_model"]);

    runtime.unload_model("test_model", None).expect("Failed to unload model");
    assert!(runtime.list_models(None).is_empty());
}

#[test]
fn test_inference_placeholder() {
    let runtime = WasmRuntime::new(WasmTarget::Browser);
    // One input tensor is handed in.
    let result = runtime.infer("nonexistent", 1, None);
    assert!(result.is_err());
}

#[test]
fn runtime_inference_outcomes() {
    let mut runtime = WasmRuntime::new(WasmTarget::Wasi);
    load_model_from_bytes(&mut runtime, "m", vec![1, 2], WasmTarget::Wasi).unwrap();
    let outs = run_inference_validated(&runtime, "m", 0, None).unwrap();
    assert!(outs.is_empty());
    match runtime.infer("m", 2, Some(WasmTarget::Wasi)) {
        Err(WasmRuntimeError::InvalidInputShape { expected, got }) => {
            assert_eq!(expected, "0 inputs");
            assert_eq!(got, "2 inputs");
        }
        _ => panic!("expected InvalidInputShape"),
    }
    match runtime.infer("other", 0, None) {
        Err(WasmRuntimeError::ModelLoadFailed(m)) => assert_eq!(m, "Model 'other' not found"),
        _ => panic!("expected ModelLoadFailed"),
    }
}

#[test]
fn runtime_targets_without_store() {
    let mut runtime = WasmRuntime::new(WasmTarget::Browser);
    match runtime.load_model("m", vec![], Some(WasmTarget::Wasi)) {
        Err(WasmRuntimeError::UnsupportedTarget(t)) => assert_eq!(t, "Wasi"),
        _ => panic!("expected UnsupportedTarget"),
    }
    assert!(runtime.list_models(Some(WasmTarget::Wasi)).is_empty());
    assert!(matches!(runtime.set_default_target(WasmTarget::Wasi), Err(WasmRuntimeError::UnsupportedTarget(_))));
    assert_eq!(runtime.default_target(), WasmTarget::Browser);
    assert!(runtime.set_default_target(WasmTarget::Browser).is_ok());
    assert!(matches!(runtime.unload_model("m", Some(WasmTarget::Wasi)), Err(WasmRuntimeError::UnsupportedTarget(_))));
}

#[test]
fn runtime_reload_replaces_and_keeps_others() {
    let mut runtime = WasmRuntime::new(WasmTarget::Browser);
    runtime.load_model("a", vec![1], None).unwrap();
    runtime.load_model("b", vec![2], None).unwrap();
    runtime.load_model("a", vec![3], None).unwrap();
    let mut names = runtime.list_models(None);
    names.sort();
    assert_eq!(names, vec!["a", "b"]);
    runtime.unload_model("a", None).unwrap();
    assert_eq!(runtime.list_models(None), vec!["b"]);
    runtime.unload_model("missing", None).unwrap();
    assert_eq!(runtime.list_models(None), vec!["b"]);
}

#[test]
fn test_license_missing() {
    let result = decode_license_key(Some(""));
    assert!(matches!(result, Err(LicenseError::LicenseKeyNotFound)));
    assert!(matches!(decode_license_key(None), Err(LicenseError::LicenseKeyNotFound)));
}

#[test]
fn test_license_invalid_format() {
    let result = decode_license_key(Some("invalid:format:too:many"));
    assert!(matches!(result, Err(LicenseError::InvalidFormat(_))));
}

#[test]
fn license_decode_errors() {
    match decode_license_key(Some("no-colon-here")) {
        Err(LicenseError::InvalidFormat(m)) => assert_eq!(m, "License key must be in format: signature:payload"),
        _ => panic!("expected InvalidFormat"),
    }
    match decode_license_key(Some("!!!:e30=")) {
        Err(LicenseError::InvalidFormat(m)) => assert!(m.starts_with("Invalid base64 signature: ")),
        _ => panic!("expected InvalidFormat"),
    }
    let sig = b64(&[0u8; 64]);
    match decode_license_key(Some(&format!("{}:%%%", sig))) {
        Err(LicenseError::InvalidFormat(m)) => assert!(m.starts_with("Invalid base64 payload: ")),
        _ => panic!("expected InvalidFormat"),
    }
    match decode_license_key(Some(&format!("{}:e30=", b64(&[0u8; 10])))) {
        Err(LicenseError::InvalidFormat(m)) => assert_eq!(m, "Invalid signature length"),
        _ => panic!("expected InvalidFormat"),
    }
    let d = decode_license_key(Some(&format!("{}:e30=", sig))).unwrap();
    assert_eq!(d.signature, vec![0u8; 64]);
    assert_eq!(d.payload, b"{}".to_vec());
}

#[test]
fn test_dev_license_generation() {
    let secret = [7u8; 32];
    let payload = br#"{"customer_id":"test_customer","timestamp":1,"features":["cloud_sim","optimization"],"expiry":2}"#;
    let license = assemble_license_key(&b64(&secret), payload).expect("Failed to generate dev license");
    assert!(license.contains(':'));
    assert!(license.split(':').count() == 2);
}

#[test]
fn assembled_license_decodes_and_verifies() {
    let secret = [42u8; 32];
    let payload = b"{\"customer_id\":\"c\"}".to_vec();
    let key = assemble_license_key(&b64(&secret), &payload).unwrap();
    let decoded = decode_license_key(Some(&key)).unwrap();
    assert_eq!(decoded.payload, payload);
    let signing = SigningKey::from_bytes(&secret);
    let sig = Signature::from_bytes(&decoded.signature.clone().try_into().unwrap());
    assert!(signing.verifying_key().verify(&payload, &sig).is_ok());
    assert!(key.starts_with(&b64(&decoded.signature)));
}

#[test]
fn assemble_rejects_bad_secret() {
    match assemble_license_key("not base64!", b"{}") {
        Err(LicenseError::InvalidFormat(m)) => assert!(m.starts_with("Invalid secret key base64: ")),
        _ => panic!("expected InvalidFormat"),
    }
    match assemble_license_key(&b64(&[1u8; 16]), b"{}") {
        Err(LicenseError::InvalidFormat(m)) => assert_eq!(m, "Invalid secret key length"),
        _ => panic!("expected InvalidFormat"),
    }
}

#[test]
fn public_key_parsing() {
    assert_eq!(public_key_base64(), "YOUR_PUBLIC_KEY_HERE");
    assert!(matches!(get_public_key(), Err(LicenseError::InvalidFormat(m)) if m.starts_with("Base64 decode failed: ")));
    let signing = SigningKey::from_bytes(&[3u8; 32]);
    let public = signing.verifying_key().to_bytes();
    assert_eq!(parse_public_key(&b64(&public)).unwrap(), public.to_vec());
    assert!(matches!(parse_public_key(&b64(&[1u8; 31])), Err(LicenseError::InvalidPublicKey)));
}

#[test]
fn check_license_expiry_and_key() {
    let decoded = DecodedLicense { signature: vec![0u8; 64], payload: b"{}".to_vec() };
    let expired = LicensePayload {
        customer_id: "c".to_string(),
        timestamp: 0,
        features: vec!["cloud_sim".to_string()],
        expiry: Some(100),
    };
    match check_license(&decoded, &expired, 200, None) {
        Err(LicenseError::LicenseExpired(m)) => assert_eq!(m, "License expired at %Y-%m-%d %H:%M:%S UTC"),
        other => panic!("expected LicenseExpired, got {:?}", other),
    }
    let current = LicensePayload { expiry: Some(300), ..expired.clone() };
    assert!(matches!(
        check_license(&decoded, &current, 200, Some("cloud_sim")),
        Err(LicenseError::InvalidFormat(_))
    ));
}

#[test]
fn license_error_texts_come_from_base64() {
    let base64_error = |text: &str| {
        base64::engine::general_purpose::STANDARD.decode(text).unwrap_err().to_string()
    };
    match decode_license_key(Some("!!!:e30=")) {
        Err(LicenseError::InvalidFormat(m)) => {
            assert_eq!(m, format!("Invalid base64 signature: {}", base64_error("!!!")))
        }
        _ => panic!("expected InvalidFormat"),
    }
    match get_public_key() {
        Err(LicenseError::InvalidFormat(m)) => {
            assert_eq!(m, format!("Base64 decode failed: {}", base64_error("YOUR_PUBLIC_KEY_HERE")))
        }
        _ => panic!("expected InvalidFormat"),
    }
}

#[test]
fn check_license_refuses_short_signatures() {
    let decoded = DecodedLicense { signature: vec![0u8; 10], payload: b"{}".to_vec() };
    let payload = LicensePayload { customer_id: "c".to_string(), timestamp: 0, features: vec![], expiry: Some(1) };
    match check_license(&decoded, &payload, 500, None) {
        Err(LicenseError::InvalidFormat(m)) => assert_eq!(m, "Invalid signature length"),
        other => panic!("expected InvalidFormat, got {:?}", other),
    }
}

#[test]
fn expiry_far_out_of_range_shows_the_number() {
    let decoded = DecodedLicense { signature: vec![0u8; 64], payload: b"{}".to_vec() };
    let payload = LicensePayload {
        customer_id: "c".to_string(),
        timestamp: 0,
        features: vec![],
        expiry: Some(-999_999_999_999_999),
    };
    match check_license(&decoded, &payload, 0, None) {
        Err(LicenseError::LicenseExpired(m)) => assert_eq!(m, "License expired at -999999999999999"),
        other => panic!("expected LicenseExpired, got {:?}", other),
    }
}
