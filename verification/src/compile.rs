//! Cross-compilation planning: target triples per hardware platform, hardware
//! detection from system information, and the arguments of the cross build.

use vstd::prelude::*;
use vstd::string::StringExecFns;
use crate::text::{contains_seq, joined, join_strings, str_contains, str_eq};

verus! {

/// Hardware platform types supported by EdgeBot CLI
#[derive(Debug, Clone, Copy, PartialEq, Eq, Structural)]
pub enum HardwarePlatform {
    RaspberryPi,
    Stm32,
    GenericArm,
    Unknown,
}

/// ARM target triples for cross-compilation
#[derive(Debug, Clone)]
pub struct TargetTriple {
    pub triple: String,
    pub description: String,
    pub features: Vec<String>,
}

/// The characters of each string.
pub open spec fn string_views(v: Seq<String>) -> Seq<Seq<char>> {
    v.map_values(|s: String| s@)
}

impl TargetTriple {
    pub fn new(triple: &str, description: &str, features: Vec<&str>) -> (t: Self)
        ensures
            t.triple@ == triple@,
            t.description@ == description@,
            string_views(t.features@) == features@.map_values(|s: &str| s@),
    {
        let mut owned: Vec<String> = Vec::new();
        let n = features.len();
        let mut i: usize = 0;
        while i < n
            invariant
                n == features@.len(),
                i <= n,
                owned@.len() == i,
                forall|k: int| 0 <= k < i ==> (#[trigger] owned@[k])@ == features@[k]@,
            decreases n - i,
        {
            owned.push(String::from_str(features[i]));
            i += 1;
        }
        assert(string_views(owned@) =~= features@.map_values(|s: &str| s@));
        TargetTriple {
            triple: String::from_str(triple),
            description: String::from_str(description),
            features: owned,
        }
    }
}

/// The target triple, description and features chosen for each platform.
pub open spec fn target_for(hw: HardwarePlatform) -> (Seq<char>, Seq<char>, Seq<Seq<char>>) {
    match hw {
        HardwarePlatform::RaspberryPi => (
            "aarch64-unknown-linux-musl"@,
            "Raspberry Pi (64-bit, musl libc, static linking)"@,
            seq!["musl"@, "static"@],
        ),
        HardwarePlatform::Stm32 => (
            "thumbv7em-none-eabihf"@,
            "STM32 (Cortex-M4/M7, no-std, hardware FPU)"@,
            seq!["no-std"@, "hard-float"@],
        ),
        HardwarePlatform::GenericArm => (
            "aarch64-unknown-linux-gnu"@,
            "Generic ARM64 (GNU libc, dynamic linking)"@,
            seq!["gnu"@],
        ),
        HardwarePlatform::Unknown => (
            "aarch64-unknown-linux-musl"@,
            "Default ARM64 (musl, safe fallback)"@,
            seq!["musl"@, "static"@],
        ),
    }
}

/// Returns the appropriate target triple for detected hardware
pub fn get_target_for_hardware(hardware: &HardwarePlatform) -> (t: TargetTriple)
    ensures
        (t.triple@, t.description@, string_views(t.features@)) == target_for(*hardware),
{
    let t = match hardware {
        HardwarePlatform::RaspberryPi => TargetTriple::new(
            "aarch64-unknown-linux-musl",
            "Raspberry Pi (64-bit, musl libc, static linking)",
            vec!["musl", "static"],
        ),
        HardwarePlatform::Stm32 => TargetTriple::new(
            "thumbv7em-none-eabihf",
            "STM32 (Cortex-M4/M7, no-std, hardware FPU)",
            vec!["no-std", "hard-float"],
        ),
        HardwarePlatform::GenericArm => TargetTriple::new(
            "aarch64-unknown-linux-gnu",
            "Generic ARM64 (GNU libc, dynamic linking)",
            vec!["gnu"],
        ),
        HardwarePlatform::Unknown => TargetTriple::new(
            "aarch64-unknown-linux-musl",
            "Default ARM64 (musl, safe fallback)",
            vec!["musl", "static"],
        ),
    };
    proof {
        assert(string_views(t.features@) =~= target_for(*hardware).2);
    }
    t
}

/// The lower-case form of a string, as std's `str::to_lowercase` computes it.
pub uninterp spec fn lowercase(s: Seq<char>) -> Seq<char>;

/// Lower-cases a string.
///
/// Calls std's `str::to_lowercase`; the result is named `lowercase`, which
/// depends on the string alone.
#[verifier::external_body]
fn to_lowercase(s: &str) -> (r: String)
    ensures
        r@ == lowercase(s@),
{
    s.to_lowercase()
}

/// The platform a lower-case hardware name selects.
pub open spec fn platform_named(n: Seq<char>) -> HardwarePlatform {
    if n == "raspberry-pi"@ || n == "rpi"@ || n == "raspberrypi"@ {
        HardwarePlatform::RaspberryPi
    } else if n == "stm32"@ {
        HardwarePlatform::Stm32
    } else if n == "generic-arm"@ || n == "arm"@ {
        HardwarePlatform::GenericArm
    } else {
        HardwarePlatform::Unknown
    }
}

/// The platform a hardware name selects, ignoring case; unknown names give
/// `Unknown`.
pub fn hardware_from_name(name: &str) -> (hw: HardwarePlatform)
    ensures
        hw == platform_named(lowercase(name@)),
{
    let lower = to_lowercase(name);
    let n = lower.as_str();
    if str_eq(n, "raspberry-pi") || str_eq(n, "rpi") || str_eq(n, "raspberrypi") {
        HardwarePlatform::RaspberryPi
    } else if str_eq(n, "stm32") {
        HardwarePlatform::Stm32
    } else if str_eq(n, "generic-arm") || str_eq(n, "arm") {
        HardwarePlatform::GenericArm
    } else {
        HardwarePlatform::Unknown
    }
}

/// `/proc/cpuinfo` names a Raspberry Pi board.
pub open spec fn cpuinfo_is_raspberry_pi(c: Seq<char>) -> bool {
    contains_seq(c, "BCM2708"@) || contains_seq(c, "BCM2711"@) || contains_seq(c, "BCM2835"@)
        || contains_seq(c, "BCM2712"@) || contains_seq(c, "Raspberry Pi"@)
}

/// The device tree names an STM32 part.
pub open spec fn compatible_is_stm32(c: Seq<char>) -> bool {
    contains_seq(c, "stm32"@) || contains_seq(c, "STM32"@)
}

/// The platform the system information points to: a Raspberry Pi CPU, then an
/// STM32 device tree, then the `EDGEBOT_HARDWARE` override, else `Unknown`.
pub open spec fn detected_platform(
    cpuinfo: Option<Seq<char>>,
    compatible: Option<Seq<char>>,
    hardware_override: Option<Seq<char>>,
) -> HardwarePlatform {
    if cpuinfo matches Some(c) && cpuinfo_is_raspberry_pi(c) {
        HardwarePlatform::RaspberryPi
    } else if compatible matches Some(c) && compatible_is_stm32(c) {
        HardwarePlatform::Stm32
    } else {
        match hardware_override {
            Some(h) => platform_named(lowercase(h)),
            None => HardwarePlatform::Unknown,
        }
    }
}

/// Decides the hardware platform from the contents of `/proc/cpuinfo` and
/// `/proc/device-tree/compatible` and the `EDGEBOT_HARDWARE` variable, each
/// when it could be read.
pub fn classify_hardware(
    cpuinfo: Option<&str>,
    compatible: Option<&str>,
    hardware_override: Option<&str>,
) -> (hw: HardwarePlatform)
    ensures
        hw == detected_platform(
            match cpuinfo {
                Some(c) => Some(c@),
                None => None,
            },
            match compatible {
                Some(c) => Some(c@),
                None => None,
            },
            match hardware_override {
                Some(h) => Some(h@),
                None => None,
            },
        ),
{
    if let Some(c) = cpuinfo {
        if str_contains(c, "BCM2708") || str_contains(c, "BCM2711") || str_contains(c, "BCM2835")
            || str_contains(c, "BCM2712") || str_contains(c, "Raspberry Pi") {
            return HardwarePlatform::RaspberryPi;
        }
    }
    if let Some(c) = compatible {
        if str_contains(c, "stm32") || str_contains(c, "STM32") {
            return HardwarePlatform::Stm32;
        }
    }
    match hardware_override {
        Some(h) => hardware_from_name(h),
        None => HardwarePlatform::Unknown,
    }
}

/// The arguments of the `cross` invocation: build for `target`, in release
/// mode when asked, with the features joined by commas when there are any,
/// for the CLI package, with a Docker image when one is given.
pub open spec fn cross_args(
    target: Seq<char>,
    release: bool,
    features: Seq<Seq<char>>,
    docker_image: Option<Seq<char>>,
) -> Seq<Seq<char>> {
    let a = seq!["build"@, "--target"@, target];
    let b = if release {
        a.push("--release"@)
    } else {
        a
    };
    let c = if features.len() > 0 {
        b.push("--features"@).push(joined(features, ","@))
    } else {
        b
    };
    let d = c.push("-p"@).push("edgebot-cli"@);
    match docker_image {
        Some(img) => d.push("--docker-image"@).push(img),
        None => d,
    }
}

/// Builds the arguments of the cross-compilation command.
pub fn cross_compile_args(
    target: &str,
    release: bool,
    features: &[String],
    docker_image: Option<&str>,
) -> (args: Vec<String>)
    ensures
        string_views(args@) == cross_args(
            target@,
            release,
            string_views(features@),
            match docker_image {
                Some(i) => Some(i@),
                None => None,
            },
        ),
{
    let mut args: Vec<String> = Vec::new();
    args.push(String::from_str("build"));
    args.push(String::from_str("--target"));
    args.push(String::from_str(target));
    if release {
        args.push(String::from_str("--release"));
    }
    if features.len() > 0 {
        args.push(String::from_str("--features"));
        args.push(join_strings(features, ","));
    }
    args.push(String::from_str("-p"));
    args.push(String::from_str("edgebot-cli"));
    if let Some(image) = docker_image {
        args.push(String::from_str("--docker-image"));
        args.push(String::from_str(image));
    }
    proof {
        assert(features@.map_values(|s: String| s@) == string_views(features@));
        assert(string_views(args@) =~= cross_args(
            target@,
            release,
            string_views(features@),
            match docker_image {
                Some(i) => Some(i@),
                None => None,
            },
        ));
    }
    args
}

/// The environment variables a static build for `target` needs: a glibc
/// target gets the cross linker and static C runtime flags.
pub open spec fn static_link_vars(target: Seq<char>, static_link: bool) -> Seq<(Seq<char>, Seq<char>)> {
    if static_link && contains_seq(target, "linux-gnu"@) {
        seq![
            ("CARGO_TARGET_AARCH64_UNKNOWN_LINUX_GNU_LINKER"@, "aarch64-linux-gnu-gcc"@),
            ("RUSTFLAGS"@, "-C target-feature=+crt-static"@),
        ]
    } else {
        seq![]
    }
}

/// The environment variables to set for the cross build.
pub fn static_link_env(target: &str, static_link: bool) -> (vars: Vec<(String, String)>)
    ensures
        vars@.map_values(|p: (String, String)| (p.0@, p.1@)) == static_link_vars(
            target@,
            static_link,
        ),
{
    let mut vars: Vec<(String, String)> = Vec::new();
    if static_link && str_contains(target, "linux-gnu") {
        vars.push(
            (
                String::from_str("CARGO_TARGET_AARCH64_UNKNOWN_LINUX_GNU_LINKER"),
                String::from_str("aarch64-linux-gnu-gcc"),
            ),
        );
        vars.push((String::from_str("RUSTFLAGS"), String::from_str("-C target-feature=+crt-static")));
    }
    proof {
        assert(vars@.map_values(|p: (String, String)| (p.0@, p.1@)) =~= static_link_vars(
            target@,
            static_link,
        ));
    }
    vars
}

/// Where `cross` leaves the compiled CLI binary.
pub fn compiled_binary_path(target: &str, release: bool) -> (p: String)
    ensures
        p@ == "target/"@ + target@ + "/"@ + (if release {
            "release"@
        } else {
            "debug"@
        }) + "/edgebot-cli"@,
{
    let mut p = String::from_str("target/");
    p.append(target);
    p.append("/");
    if release {
        p.append("release");
    } else {
        p.append("debug");
    }
    p.append("/edgebot-cli");
    p
}

/// The name of the binary built for a platform when compiling all targets.
pub open spec fn output_name(hw: HardwarePlatform) -> Seq<char> {
    match hw {
        HardwarePlatform::RaspberryPi => "edgebot-rpi64"@,
        HardwarePlatform::Stm32 => "edgebot-stm32"@,
        HardwarePlatform::GenericArm => "edgebot-armv7"@,
        HardwarePlatform::Unknown => "edgebot-generic"@,
    }
}

/// Output file name for a platform in batch compilation.
pub fn output_file_name(hw: HardwarePlatform) -> (n: String)
    ensures
        n@ == output_name(hw),
{
    match hw {
        HardwarePlatform::RaspberryPi => String::from_str("edgebot-rpi64"),
        HardwarePlatform::Stm32 => String::from_str("edgebot-stm32"),
        HardwarePlatform::GenericArm => String::from_str("edgebot-armv7"),
        HardwarePlatform::Unknown => String::from_str("edgebot-generic"),
    }
}

/// The targets compiled in batch mode, in order, with the platform each is for.
pub open spec fn batch_targets() -> Seq<(Seq<char>, HardwarePlatform)> {
    seq![
        ("aarch64-unknown-linux-musl"@, HardwarePlatform::RaspberryPi),
        ("armv7-unknown-linux-musleabihf"@, HardwarePlatform::GenericArm),
        ("thumbv7em-none-eabihf"@, HardwarePlatform::Stm32),
    ]
}

/// Supported ARM targets for batch compilation.
pub fn all_targets() -> (t: Vec<(String, HardwarePlatform)>)
    ensures
        t@.map_values(|p: (String, HardwarePlatform)| (p.0@, p.1)) == batch_targets(),
{
    let mut t: Vec<(String, HardwarePlatform)> = Vec::new();
    t.push((String::from_str("aarch64-unknown-linux-musl"), HardwarePlatform::RaspberryPi));
    t.push((String::from_str("armv7-unknown-linux-musleabihf"), HardwarePlatform::GenericArm));
    t.push((String::from_str("thumbv7em-none-eabihf"), HardwarePlatform::Stm32));
    proof {
        assert(t@.map_values(|p: (String, HardwarePlatform)| (p.0@, p.1)) =~= batch_targets());
    }
    t
}

/// A CPU description naming a Raspberry Pi SoC (BCM2708, BCM2711, BCM2835,
/// BCM2712) or "Raspberry Pi" is detected as a Raspberry Pi, whatever the
/// device tree and the override say.
pub proof fn lemma_raspberry_pi_socs_detected(
    cpuinfo: Seq<char>,
    compatible: Option<Seq<char>>,
    hardware_override: Option<Seq<char>>,
)
    requires
        contains_seq(cpuinfo, "BCM2708"@) || contains_seq(cpuinfo, "BCM2711"@) || contains_seq(
            cpuinfo,
            "BCM2835"@,
        ) || contains_seq(cpuinfo, "BCM2712"@) || contains_seq(cpuinfo, "Raspberry Pi"@),
    ensures
        detected_platform(Some(cpuinfo), compatible, hardware_override) == HardwarePlatform::RaspberryPi,
{
}

/// Without a Raspberry Pi CPU, a device tree naming an STM32 part (in lower
/// or upper case) is detected as an STM32.
pub proof fn lemma_stm32_device_tree_detected(
    cpuinfo: Option<Seq<char>>,
    compatible: Seq<char>,
    hardware_override: Option<Seq<char>>,
)
    requires
        !(cpuinfo matches Some(c) && (contains_seq(c, "BCM2708"@) || contains_seq(c, "BCM2711"@)
            || contains_seq(c, "BCM2835"@) || contains_seq(c, "BCM2712"@) || contains_seq(
            c,
            "Raspberry Pi"@,
        ))),
        contains_seq(compatible, "stm32"@) || contains_seq(compatible, "STM32"@),
    ensures
        detected_platform(cpuinfo, Some(compatible), hardware_override) == HardwarePlatform::Stm32,
{
}

/// The batch build makes a binary for the platform.
pub open spec fn batch_builds(hw: HardwarePlatform) -> bool {
    exists|i: int| 0 <= i < batch_targets().len() && batch_targets()[i].1 == hw
}

/// Each target of the batch build is the target chosen for its platform,
/// except the 32-bit ARMv7 build made for generic ARM boards; every platform
/// but `Unknown` is built exactly once.
pub proof fn lemma_batch_targets_follow_platforms()
    ensures
        batch_targets().len() == 3,
        forall|i: int|
            0 <= i < 3 && batch_targets()[i].1 != HardwarePlatform::GenericArm ==> batch_targets()[i].0
                == target_for(batch_targets()[i].1).0,
        forall|hw: HardwarePlatform|
            hw != HardwarePlatform::Unknown ==> #[trigger] batch_builds(hw),
        forall|i: int, j: int|
            0 <= i < j < 3 ==> batch_targets()[i].1 != batch_targets()[j].1,
{
    assert forall|hw: HardwarePlatform| hw != HardwarePlatform::Unknown implies #[trigger] batch_builds(
        hw,
    ) by {
        match hw {
            HardwarePlatform::RaspberryPi => assert(batch_targets()[0].1 == hw),
            HardwarePlatform::GenericArm => assert(batch_targets()[1].1 == hw),
            HardwarePlatform::Stm32 => assert(batch_targets()[2].1 == hw),
            HardwarePlatform::Unknown => {},
        }
    }
}

} // verus!
