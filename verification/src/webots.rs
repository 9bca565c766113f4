//! Decisions of the Webots simulator bindings: device type codes, step
//! results, device casts and the sizes of sensor images.

use vstd::prelude::*;
use vstd::string::StringExecFns;

verus! {

/// Webots-specific error type.
#[derive(Debug)]
pub enum WebotsError {
    FfiError(String),
    DeviceNotFound(String),
    RobotNotFound(String),
    NodeNotFound,
    InvalidHandle,
    NotSupervisor,
    SpawnFailed,
    LoadWorldFailed,
    ConnectionFailed,
    SimulationEnded,
    /// An I/O error, with its message.
    IoError(String),
    /// Text that is not valid UTF-8, with the error's message.
    Utf8Error(String),
    /// Text with an interior NUL byte, with the error's message.
    CStringError(String),
    UnsupportedDeviceType,
}

/// Device types as reported by Webots.
#[derive(Debug, Clone, Copy, PartialEq, Eq, Structural)]
pub enum DeviceType {
    DistanceSensor,
    PositionSensor,
    Camera,
    Lidar,
    Imu,
    Gps,
    Compass,
    Display,
    Emitter,
    Receiver,
    Keyboard,
    Motor,
    RotationalMotor,
    Servo,
    Led,
    Unknown(i32),
}

/// The device type a Webots type code stands for.
pub open spec fn device_type_of(value: i32) -> DeviceType {
    if value == 1 {
        DeviceType::DistanceSensor
    } else if value == 2 {
        DeviceType::PositionSensor
    } else if value == 3 {
        DeviceType::Camera
    } else if value == 4 {
        DeviceType::Lidar
    } else if value == 5 {
        DeviceType::Imu
    } else if value == 6 {
        DeviceType::Gps
    } else if value == 7 {
        DeviceType::Compass
    } else if value == 8 {
        DeviceType::Display
    } else if value == 9 {
        DeviceType::Emitter
    } else if value == 10 {
        DeviceType::Receiver
    } else if value == 11 {
        DeviceType::Keyboard
    } else if value == 12 {
        DeviceType::Motor
    } else if value == 13 {
        DeviceType::RotationalMotor
    } else if value == 14 {
        DeviceType::Servo
    } else if value == 15 {
        DeviceType::Led
    } else {
        DeviceType::Unknown(value)
    }
}

/// The type code Webots reports for each device type (`WB_NODE_*` order
/// used by the bindings); an unknown type keeps its code.
pub open spec fn device_code(d: DeviceType) -> i32 {
    match d {
        DeviceType::DistanceSensor => 1,
        DeviceType::PositionSensor => 2,
        DeviceType::Camera => 3,
        DeviceType::Lidar => 4,
        DeviceType::Imu => 5,
        DeviceType::Gps => 6,
        DeviceType::Compass => 7,
        DeviceType::Display => 8,
        DeviceType::Emitter => 9,
        DeviceType::Receiver => 10,
        DeviceType::Keyboard => 11,
        DeviceType::Motor => 12,
        DeviceType::RotationalMotor => 13,
        DeviceType::Servo => 14,
        DeviceType::Led => 15,
        DeviceType::Unknown(v) => v,
    }
}

impl DeviceType {
    /// The type code Webots reports for this device type.
    pub fn code(&self) -> (c: i32)
        ensures
            c == device_code(*self),
    {
        match self {
            DeviceType::DistanceSensor => 1,
            DeviceType::PositionSensor => 2,
            DeviceType::Camera => 3,
            DeviceType::Lidar => 4,
            DeviceType::Imu => 5,
            DeviceType::Gps => 6,
            DeviceType::Compass => 7,
            DeviceType::Display => 8,
            DeviceType::Emitter => 9,
            DeviceType::Receiver => 10,
            DeviceType::Keyboard => 11,
            DeviceType::Motor => 12,
            DeviceType::RotationalMotor => 13,
            DeviceType::Servo => 14,
            DeviceType::Led => 15,
            DeviceType::Unknown(v) => *v,
        }
    }

    pub fn from_raw(value: i32) -> (d: Self)
        ensures
            d == device_type_of(value),
    {
        match value {
            1 => DeviceType::DistanceSensor,
            2 => DeviceType::PositionSensor,
            3 => DeviceType::Camera,
            4 => DeviceType::Lidar,
            5 => DeviceType::Imu,
            6 => DeviceType::Gps,
            7 => DeviceType::Compass,
            8 => DeviceType::Display,
            9 => DeviceType::Emitter,
            10 => DeviceType::Receiver,
            11 => DeviceType::Keyboard,
            12 => DeviceType::Motor,
            13 => DeviceType::RotationalMotor,
            14 => DeviceType::Servo,
            15 => DeviceType::Led,
            _ => DeviceType::Unknown(value),
        }
    }
}

/// What the return code of `wb_robot_step` means: a completed step returns
/// 0 or more, and -1 means the simulation has terminated. Webots returns no
/// other code; one would be a failed call.
pub fn step_outcome(code: i32) -> (res: Result<(), WebotsError>)
    ensures
        code >= 0 ==> res is Ok,
        code == -1 ==> res matches Err(WebotsError::SimulationEnded),
        code < -1 ==> (res matches Err(WebotsError::FfiError(m)) && m@ == "wb_robot_step failed"@),
{
    if code >= 0 {
        Ok(())
    } else if code == -1 {
        Err(WebotsError::SimulationEnded)
    } else {
        Err(WebotsError::FfiError(String::from_str("wb_robot_step failed")))
    }
}

/// A device can be used as a given kind only when it has that type.
pub fn check_device_type(actual: DeviceType, wanted: DeviceType) -> (res: Result<(), WebotsError>)
    ensures
        actual == wanted ==> res is Ok,
        actual != wanted ==> res matches Err(WebotsError::UnsupportedDeviceType),
{
    if actual == wanted {
        Ok(())
    } else {
        Err(WebotsError::UnsupportedDeviceType)
    }
}

/// Simulation mode constants.
#[derive(Debug, Clone, Copy, PartialEq, Eq, Structural)]
pub enum SimulationMode {
    Pause,
    Run,
    Step,
}

impl SimulationMode {
    /// The code Webots uses for the mode.
    pub fn code(self) -> (c: i32)
        ensures
            c == match self {
                SimulationMode::Pause => 0i32,
                SimulationMode::Run => 1i32,
                SimulationMode::Step => 2i32,
            },
    {
        match self {
            SimulationMode::Pause => 0,
            SimulationMode::Run => 1,
            SimulationMode::Step => 2,
        }
    }
}

/// Bytes of a camera image: four (RGBA) per pixel.
pub fn camera_image_len(width: i32, height: i32) -> (n: usize)
    requires
        0 <= width,
        0 <= height,
        width * height * 4 <= i32::MAX,
    ensures
        n == width * height * 4,
{
    proof {
        assert(0 <= width * height * 4) by (nonlinear_arith)
            requires
                0 <= width,
                0 <= height,
        ;
    }
    (width * height * 4) as usize
}

/// Samples in a lidar range image: one per point of each layer.
pub fn range_image_len(horizontal_resolution: i32, layers: i32) -> (n: usize)
    requires
        0 <= horizontal_resolution,
        0 <= layers,
        horizontal_resolution * layers <= i32::MAX,
    ensures
        n == horizontal_resolution * layers,
{
    proof {
        assert(0 <= horizontal_resolution * layers) by (nonlinear_arith)
            requires
                0 <= horizontal_resolution,
                0 <= layers,
        ;
    }
    (horizontal_resolution * layers) as usize
}

/// Reading a type code and writing it back gives the code: every code names
/// the device type whose code it is, and codes outside 1 to 15 are unknown.
pub proof fn lemma_device_codes_round_trip(value: i32)
    ensures
        device_code(device_type_of(value)) == value,
        (1 <= value <= 15) <==> !(device_type_of(value) is Unknown),
{
}

/// Every known device type is read back from its code.
pub proof fn lemma_known_devices_round_trip(d: DeviceType)
    requires
        !(d is Unknown),
    ensures
        device_type_of(device_code(d)) == d,
{
}

} // verus!
