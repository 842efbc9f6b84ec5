use vstd::prelude::*;

verus! {

/// Category of a hardware item
#[derive(Clone, Copy, Debug, PartialEq, Eq, Structural)]
pub enum HardwareType {
    Motherboard,
    SuperIO,
    Cpu,
    Memory,
    GpuNvidia,
    GpuAmd,
    GpuIntel,
    Storage,
    Network,
    Cooler,
    EmbeddedController,
    Psu,
    Battery,
    Unknown,
}

/// Category of a sensor
#[derive(Clone, Copy, Debug, PartialEq, Eq, Structural)]
pub enum SensorType {
    Voltage,
    Current,
    Power,
    Clock,
    Temperature,
    Load,
    Frequency,
    Fan,
    Flow,
    Control,
    Level,
    Factor,
    Data,
    SmallData,
    Throughput,
    TimeSpan,
    Energy,
    Noise,
    Conductivity,
    Humidity,
    Unknown,
}

impl HardwareType {
    /// The number by which the monitoring bridge reports this hardware type,
    /// or -1 for a hardware type that it does not know
    pub open spec fn code(self) -> int {
        match self {
            HardwareType::Motherboard => 0,
            HardwareType::SuperIO => 1,
            HardwareType::Cpu => 2,
            HardwareType::Memory => 3,
            HardwareType::GpuNvidia => 4,
            HardwareType::GpuAmd => 5,
            HardwareType::GpuIntel => 6,
            HardwareType::Storage => 7,
            HardwareType::Network => 8,
            HardwareType::Cooler => 9,
            HardwareType::EmbeddedController => 10,
            HardwareType::Psu => 11,
            HardwareType::Battery => 12,
            HardwareType::Unknown => -1,
        }
    }

    /// The hardware type that the monitoring bridge reports by `code`; a number
    /// outside its numbering gives `Unknown`
    pub fn from_code(code: i32) -> (ty: HardwareType)
        ensures
            0 <= code < 13 ==> ty.code() == code,
            0 <= code < 13 ==> ty == hardware_type_numbering()[code as int],
            !(0 <= code < 13) ==> ty == HardwareType::Unknown,
    {
        match code {
            0 => HardwareType::Motherboard,
            1 => HardwareType::SuperIO,
            2 => HardwareType::Cpu,
            3 => HardwareType::Memory,
            4 => HardwareType::GpuNvidia,
            5 => HardwareType::GpuAmd,
            6 => HardwareType::GpuIntel,
            7 => HardwareType::Storage,
            8 => HardwareType::Network,
            9 => HardwareType::Cooler,
            10 => HardwareType::EmbeddedController,
            11 => HardwareType::Psu,
            12 => HardwareType::Battery,
            _ => HardwareType::Unknown,
        }
    }
}

/// Distinct hardware types have distinct numbers, so a number names at most one hardware type
pub proof fn lemma_hardware_type_codes_distinct(a: HardwareType, b: HardwareType)
    ensures
        a.code() == b.code() ==> a == b,
{
}

impl SensorType {
    /// The number by which the monitoring bridge reports this sensor type,
    /// or -1 for a sensor type that it does not know
    pub open spec fn code(self) -> int {
        match self {
            SensorType::Voltage => 0,
            SensorType::Current => 1,
            SensorType::Power => 2,
            SensorType::Clock => 3,
            SensorType::Temperature => 4,
            SensorType::Load => 5,
            SensorType::Frequency => 6,
            SensorType::Fan => 7,
            SensorType::Flow => 8,
            SensorType::Control => 9,
            SensorType::Level => 10,
            SensorType::Factor => 11,
            SensorType::Data => 12,
            SensorType::SmallData => 13,
            SensorType::Throughput => 14,
            SensorType::TimeSpan => 15,
            SensorType::Energy => 16,
            SensorType::Noise => 17,
            SensorType::Conductivity => 18,
            SensorType::Humidity => 19,
            SensorType::Unknown => -1,
        }
    }

    /// The sensor type that the monitoring bridge reports by `code`; a number
    /// outside its numbering gives `Unknown`
    pub fn from_code(code: i32) -> (ty: SensorType)
        ensures
            0 <= code < 20 ==> ty.code() == code,
            0 <= code < 20 ==> ty == sensor_type_numbering()[code as int],
            !(0 <= code < 20) ==> ty == SensorType::Unknown,
    {
        match code {
            0 => SensorType::Voltage,
            1 => SensorType::Current,
            2 => SensorType::Power,
            3 => SensorType::Clock,
            4 => SensorType::Temperature,
            5 => SensorType::Load,
            6 => SensorType::Frequency,
            7 => SensorType::Fan,
            8 => SensorType::Flow,
            9 => SensorType::Control,
            10 => SensorType::Level,
            11 => SensorType::Factor,
            12 => SensorType::Data,
            13 => SensorType::SmallData,
            14 => SensorType::Throughput,
            15 => SensorType::TimeSpan,
            16 => SensorType::Energy,
            17 => SensorType::Noise,
            18 => SensorType::Conductivity,
            19 => SensorType::Humidity,
            _ => SensorType::Unknown,
        }
    }
}

/// Distinct sensor types have distinct numbers, so a number names at most one sensor type
pub proof fn lemma_sensor_type_codes_distinct(a: SensorType, b: SensorType)
    ensures
        a.code() == b.code() ==> a == b,
{
}

/// Libre Hardware Monitor's hardware types in the order of its numbering: the
/// hardware type that the monitoring bridge reports by number `i` is the `i`-th
pub open spec fn hardware_type_numbering() -> Seq<HardwareType> {
    seq![
        HardwareType::Motherboard,
        HardwareType::SuperIO,
        HardwareType::Cpu,
        HardwareType::Memory,
        HardwareType::GpuNvidia,
        HardwareType::GpuAmd,
        HardwareType::GpuIntel,
        HardwareType::Storage,
        HardwareType::Network,
        HardwareType::Cooler,
        HardwareType::EmbeddedController,
        HardwareType::Psu,
        HardwareType::Battery,
    ]
}

/// The numbers of the hardware types follow Libre Hardware Monitor's numbering:
/// a hardware type has the number `c` exactly when it is the `c`-th of that order,
/// and `Unknown` has none of them
pub proof fn lemma_hardware_type_numbering(ty: HardwareType, c: int)
    ensures
        hardware_type_numbering().len() == 13,
        (0 <= c < 13 && hardware_type_numbering()[c] == ty) <==> ty.code() == c && c >= 0,
        ty == HardwareType::Unknown <==> !hardware_type_numbering().contains(ty),
{
    let order = hardware_type_numbering();
    if ty != HardwareType::Unknown {
        assert(order[ty.code()] == ty);
    }
}

/// Libre Hardware Monitor's sensor types in the order of its numbering: the
/// sensor type that the monitoring bridge reports by number `i` is the `i`-th
pub open spec fn sensor_type_numbering() -> Seq<SensorType> {
    seq![
        SensorType::Voltage,
        SensorType::Current,
        SensorType::Power,
        SensorType::Clock,
        SensorType::Temperature,
        SensorType::Load,
        SensorType::Frequency,
        SensorType::Fan,
        SensorType::Flow,
        SensorType::Control,
        SensorType::Level,
        SensorType::Factor,
        SensorType::Data,
        SensorType::SmallData,
        SensorType::Throughput,
        SensorType::TimeSpan,
        SensorType::Energy,
        SensorType::Noise,
        SensorType::Conductivity,
        SensorType::Humidity,
    ]
}

/// The numbers of the sensor types follow Libre Hardware Monitor's numbering:
/// a sensor type has the number `c` exactly when it is the `c`-th of that order,
/// and `Unknown` has none of them
pub proof fn lemma_sensor_type_numbering(ty: SensorType, c: int)
    ensures
        sensor_type_numbering().len() == 20,
        (0 <= c < 20 && sensor_type_numbering()[c] == ty) <==> ty.code() == c && c >= 0,
        ty == SensorType::Unknown <==> !sensor_type_numbering().contains(ty),
{
    let order = sensor_type_numbering();
    if ty != SensorType::Unknown {
        assert(order[ty.code()] == ty);
    }
}

} // verus!
