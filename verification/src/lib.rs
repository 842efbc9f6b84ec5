//! A queryable cache of hardware and sensors, flattened from a tree of
//! hardware items with their sub-hardware and sensors.

mod cache;
mod kinds;
mod lookup;
mod options;
mod query;
mod structure;
mod tree;

pub use cache::{
    lemma_filled_cache_resolves_forest, lemma_filled_cache_sensor_owner,
    lemma_filled_cache_structure, lemma_hardware_lookup, lemma_sensor_lookup, HardwareCache,
    HardwareEntry, SensorEntry,
};
pub use kinds::{
    hardware_type_numbering, lemma_hardware_type_codes_distinct, lemma_hardware_type_numbering,
    lemma_sensor_type_codes_distinct, lemma_sensor_type_numbering, sensor_type_numbering,
    HardwareType, SensorType,
};
pub use lookup::{index_map, lemma_index_map_finds_last};
pub use options::ComputerOptions;
pub use query::{
    hardware_matches, lemma_hardware_query_selects_exactly, lemma_matching_hardware,
    lemma_sensor_query_selects_exactly, lemma_matching_sensors, matching_hardware,
    lemma_sensors_by_owner, matching_sensors, sensor_matches, sensors_by_owner,
};
pub use structure::{grouped_sensors, lemma_flatten_structure, lemma_grouped_sensors_append, lemma_grouped_sensors_owners, preorder};
pub use tree::{
    flatten_forest, forest_has_hardware, forest_has_sensor, hardware_ids,
    lemma_flatten_keeps_identifiers, opt_index, sensor_ids, sensor_records, with_hardware,
    with_sensor, HardwareNode, HardwareRecord, SensorNode, SensorRecord,
};
