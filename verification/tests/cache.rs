use lhm_cache::{HardwareCache, HardwareNode, HardwareType, SensorNode, SensorType};

fn sensor(id: &str, kind: SensorType, item: &str) -> SensorNode<String> {
    SensorNode { sensor: item.to_string(), identifier: id.to_string(), kind }
}

fn hardware(
    id: &str,
    kind: HardwareType,
    item: &str,
    sensors: Vec<SensorNode<String>>,
    children: Vec<HardwareNode<String, String>>,
) -> HardwareNode<String, String> {
    HardwareNode { hardware: item.to_string(), identifier: id.to_string(), kind, sensors, children }
}

/// A motherboard with a super I/O chip below it, and a CPU
fn sample_tree() -> Vec<HardwareNode<String, String>> {
    vec![
        hardware(
            "/mb",
            HardwareType::Motherboard,
            "board",
            vec![],
            vec![hardware(
                "/mb/sio",
                HardwareType::SuperIO,
                "superio",
                vec![
                    sensor("/mb/sio/fan/0", SensorType::Fan, "fan0"),
                    sensor("/mb/sio/temp/0", SensorType::Temperature, "sio-temp"),
                ],
                vec![],
            )],
        ),
        hardware(
            "/cpu/0",
            HardwareType::Cpu,
            "cpu",
            vec![
                sensor("/cpu/0/load/0", SensorType::Load, "load0"),
                sensor("/cpu/0/temperature/0", SensorType::Temperature, "cpu-temp"),
            ],
            vec![],
        ),
    ]
}

fn filled() -> HardwareCache<String, String> {
    let mut cache = HardwareCache::default();
    cache.init(sample_tree());
    cache
}

fn positions<T>(items: Vec<(usize, &T)>) -> Vec<usize> {
    items.into_iter().map(|(index, _)| index).collect()
}

#[test]
fn empty_cache_finds_nothing() {
    let cache: HardwareCache<String, String> = HardwareCache::default();
    assert_eq!(cache.get_hardware_by_id("/cpu/0"), None);
    assert_eq!(cache.get_sensor_by_id("/cpu/0/load/0"), None);
    assert!(cache.query_hardware_iter(None, None).is_empty());
    assert!(cache.query_sensors(None, None).is_empty());
}

#[test]
fn init_stores_hardware_depth_first() {
    let cache = filled();
    let all: Vec<(usize, String)> = cache
        .query_hardware_iter(None, None)
        .into_iter()
        .map(|(index, item)| (index, item.clone()))
        .collect();
    assert_eq!(
        all,
        vec![
            (0, "board".to_string()),
            (1, "superio".to_string()),
            (2, "cpu".to_string())
        ]
    );
}

#[test]
fn init_stores_sensors_in_hardware_order() {
    let cache = filled();
    let all: Vec<(usize, String)> = cache
        .query_sensors(None, None)
        .into_iter()
        .map(|(index, item)| (index, item.clone()))
        .collect();
    assert_eq!(
        all,
        vec![
            (0, "fan0".to_string()),
            (1, "sio-temp".to_string()),
            (2, "load0".to_string()),
            (3, "cpu-temp".to_string())
        ]
    );
}

#[test]
fn lookup_finds_sub_hardware() {
    let cache = filled();
    assert_eq!(cache.get_hardware_by_id("/mb"), Some((0, &"board".to_string())));
    assert_eq!(cache.get_hardware_by_id("/mb/sio"), Some((1, &"superio".to_string())));
    assert_eq!(cache.get_hardware_by_id("/cpu/0"), Some((2, &"cpu".to_string())));
    assert_eq!(cache.get_hardware_by_id("/gpu/0"), None);
}

#[test]
fn lookup_finds_sensors_of_sub_hardware() {
    let cache = filled();
    assert_eq!(cache.get_sensor_by_id("/mb/sio/fan/0"), Some((0, &"fan0".to_string())));
    assert_eq!(
        cache.get_sensor_by_id("/cpu/0/temperature/0"),
        Some((3, &"cpu-temp".to_string()))
    );
    assert_eq!(cache.get_sensor_by_id("/cpu/0/fan/0"), None);
}

#[test]
fn lookup_of_repeated_identifier_finds_last() {
    let tree = vec![
        hardware("/dup", HardwareType::Storage, "first", vec![sensor("/s", SensorType::Data, "a")], vec![]),
        hardware("/dup", HardwareType::Storage, "second", vec![sensor("/s", SensorType::Data, "b")], vec![]),
    ];
    let mut cache = HardwareCache::default();
    cache.init(tree);
    assert_eq!(cache.get_hardware_by_id("/dup"), Some((1, &"second".to_string())));
    assert_eq!(cache.get_sensor_by_id("/s"), Some((1, &"b".to_string())));
    assert_eq!(cache.query_hardware_iter(None, None).len(), 2);
}

#[test]
fn init_replaces_previous_contents() {
    let mut cache = filled();
    cache.init(vec![hardware("/gpu/0", HardwareType::GpuNvidia, "gpu", vec![], vec![])]);
    assert_eq!(cache.get_hardware_by_id("/cpu/0"), None);
    assert_eq!(cache.get_sensor_by_id("/cpu/0/load/0"), None);
    assert_eq!(cache.get_hardware_by_id("/gpu/0"), Some((0, &"gpu".to_string())));
    assert!(cache.query_sensors(None, None).is_empty());
}

#[test]
fn clear_empties_the_cache() {
    let mut cache = filled();
    cache.clear();
    assert_eq!(cache.get_hardware_by_id("/mb"), None);
    assert_eq!(cache.get_sensor_by_id("/mb/sio/fan/0"), None);
    assert!(cache.get_hardware_by_idx_mut(0).is_none());
    assert!(cache.get_sensor_by_idx_mut(0).is_none());
    assert!(cache.query_hardware_iter(None, None).is_empty());
}

#[test]
fn hardware_by_id_mut_changes_only_that_item() {
    let mut cache = filled();
    *cache.get_hardware_by_id_mut("/mb/sio").unwrap() = "replaced".to_string();
    assert_eq!(cache.get_hardware_by_id("/mb/sio"), Some((1, &"replaced".to_string())));
    assert_eq!(cache.get_hardware_by_id("/mb"), Some((0, &"board".to_string())));
    assert!(cache.get_hardware_by_id_mut("/missing").is_none());
}

#[test]
fn sensor_by_id_mut_changes_only_that_item() {
    let mut cache = filled();
    *cache.get_sensor_by_id_mut("/cpu/0/load/0").unwrap() = "load-new".to_string();
    assert_eq!(cache.get_sensor_by_id("/cpu/0/load/0"), Some((2, &"load-new".to_string())));
    assert_eq!(cache.get_sensor_by_id("/mb/sio/fan/0"), Some((0, &"fan0".to_string())));
    assert!(cache.get_sensor_by_id_mut("/missing").is_none());
}

#[test]
fn by_index_mut_reaches_items_in_range_only() {
    let mut cache = filled();
    assert_eq!(cache.get_hardware_by_idx_mut(2).map(|item| item.clone()), Some("cpu".to_string()));
    assert!(cache.get_hardware_by_idx_mut(3).is_none());
    *cache.get_sensor_by_idx_mut(3).unwrap() = "hot".to_string();
    assert_eq!(cache.get_sensor_by_id("/cpu/0/temperature/0"), Some((3, &"hot".to_string())));
    assert!(cache.get_sensor_by_idx_mut(4).is_none());
}

#[test]
fn query_hardware_by_type() {
    let cache = filled();
    assert_eq!(positions(cache.query_hardware_iter(None, Some(HardwareType::Cpu))), vec![2]);
    assert_eq!(positions(cache.query_hardware_iter(None, Some(HardwareType::Battery))), Vec::<usize>::new());
}

#[test]
fn query_hardware_by_parent() {
    let cache = filled();
    // top-level items only
    assert_eq!(positions(cache.query_hardware_iter(Some(None), None)), vec![0, 2]);
    // sub-hardware of the motherboard
    assert_eq!(positions(cache.query_hardware_iter(Some(Some(0)), None)), vec![1]);
    assert_eq!(positions(cache.query_hardware_iter(Some(Some(2)), None)), Vec::<usize>::new());
}

#[test]
fn query_hardware_by_parent_and_type() {
    let cache = filled();
    assert_eq!(
        positions(cache.query_hardware_iter(Some(Some(0)), Some(HardwareType::SuperIO))),
        vec![1]
    );
    assert_eq!(
        positions(cache.query_hardware_iter(Some(None), Some(HardwareType::SuperIO))),
        Vec::<usize>::new()
    );
}

#[test]
fn query_sensors_by_parent_and_type() {
    let cache = filled();
    assert_eq!(positions(cache.query_sensors(Some(1), None)), vec![0, 1]);
    assert_eq!(positions(cache.query_sensors(Some(2), None)), vec![2, 3]);
    assert_eq!(positions(cache.query_sensors(Some(0), None)), Vec::<usize>::new());
    assert_eq!(positions(cache.query_sensors(None, Some(SensorType::Temperature))), vec![1, 3]);
    assert_eq!(positions(cache.query_sensors(Some(2), Some(SensorType::Temperature))), vec![3]);
}

#[test]
fn per_owner_sensor_queries_concatenate_to_all() {
    let cache = filled();
    let owners = cache.query_hardware_iter(None, None).len();
    let mut joined: Vec<usize> = Vec::new();
    for owner in 0..owners {
        joined.extend(positions(cache.query_sensors(Some(owner), None)));
    }
    assert_eq!(joined, positions(cache.query_sensors(None, None)));
    assert!(cache.query_sensors(Some(owners), None).is_empty());
}

#[test]
fn sub_hardware_points_to_its_container() {
    let tree = vec![hardware(
        "/gpu/0",
        HardwareType::GpuAmd,
        "gpu",
        vec![sensor("/gpu/0/clock/0", SensorType::Clock, "clock")],
        vec![
            hardware("/gpu/0/a", HardwareType::Cooler, "fan-a", vec![], vec![]),
            hardware(
                "/gpu/0/b",
                HardwareType::Cooler,
                "fan-b",
                vec![sensor("/gpu/0/b/fan/0", SensorType::Fan, "rpm")],
                vec![hardware("/gpu/0/b/c", HardwareType::EmbeddedController, "ec", vec![], vec![])],
            ),
        ],
    )];
    let mut cache = HardwareCache::default();
    cache.init(tree);
    assert_eq!(positions(cache.query_hardware_iter(Some(None), None)), vec![0]);
    assert_eq!(positions(cache.query_hardware_iter(Some(Some(0)), None)), vec![1, 2]);
    assert_eq!(positions(cache.query_hardware_iter(Some(Some(2)), None)), vec![3]);
    assert_eq!(cache.get_sensor_by_id("/gpu/0/b/fan/0"), Some((1, &"rpm".to_string())));
    assert_eq!(positions(cache.query_sensors(Some(2), None)), vec![1]);
    assert_eq!(positions(cache.query_sensors(Some(0), None)), vec![0]);
}
