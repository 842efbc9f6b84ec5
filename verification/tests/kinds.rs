use lhm_cache::{ComputerOptions, HardwareType, SensorType};

#[test]
fn hardware_type_codes() {
    assert_eq!(HardwareType::from_code(0), HardwareType::Motherboard);
    assert_eq!(HardwareType::from_code(2), HardwareType::Cpu);
    assert_eq!(HardwareType::from_code(4), HardwareType::GpuNvidia);
    assert_eq!(HardwareType::from_code(12), HardwareType::Battery);
    assert_eq!(HardwareType::from_code(13), HardwareType::Unknown);
    assert_eq!(HardwareType::from_code(-1), HardwareType::Unknown);
}

#[test]
fn sensor_type_codes() {
    assert_eq!(SensorType::from_code(0), SensorType::Voltage);
    assert_eq!(SensorType::from_code(4), SensorType::Temperature);
    assert_eq!(SensorType::from_code(7), SensorType::Fan);
    assert_eq!(SensorType::from_code(19), SensorType::Humidity);
    assert_eq!(SensorType::from_code(20), SensorType::Unknown);
    assert_eq!(SensorType::from_code(i32::MIN), SensorType::Unknown);
}

#[test]
fn computer_options_hold_their_flags() {
    let options = ComputerOptions {
        battery_enabled: false,
        controller_enabled: true,
        cpu_enabled: true,
        gpu_enabled: true,
        memory_enabled: false,
        motherboard_enabled: true,
        network_enabled: false,
        psu_enabled: false,
        storage_enabled: true,
    };
    let copy = options;
    assert_eq!(copy, options);
    assert!(copy.cpu_enabled && !copy.battery_enabled);
}
