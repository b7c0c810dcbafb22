use quickwit::maintenance::{
    IndexingTask, InMemoryPersistence, MaintenanceError, MaintenanceModeMetadata,
    MaintenancePersistedState, MaintenancePersistence, MaintenanceState, MetastoreKvPersistence,
    PhysicalIndexingPlan,
};
use time::format_description::well_known::Rfc3339;
use time::OffsetDateTime;

fn task(index_uid: &str) -> IndexingTask {
    IndexingTask {
        index_uid: index_uid.to_string(),
        source_id: "source".to_string(),
        pipeline_uid: "pipeline".to_string(),
        shard_ids: vec!["shard-1".to_string(), "shard-2".to_string()],
        params_fingerprint: 42,
    }
}

#[test]
fn test_maintenance_state_default_is_inactive() {
    let state = MaintenanceState::default();
    assert!(!state.is_active());
    assert!(state.metadata().is_none());
}

#[test]
fn test_maintenance_state_enable_disable() {
    let mut state = MaintenanceState::default();

    // Enable
    let metadata = state.enable();
    assert!(state.is_active());
    assert!(!metadata.enabled_at.is_empty());
    // Should be a valid RFC 3339 datetime
    assert!(
        OffsetDateTime::parse(&metadata.enabled_at, &Rfc3339).is_ok(),
        "enabled_at should be valid RFC 3339: {}",
        metadata.enabled_at
    );

    // Disable
    let was_active = state.disable();
    assert!(was_active);
    assert!(!state.is_active());

    // Disable again is a no-op
    let was_active = state.disable();
    assert!(!was_active);
}

#[test]
fn test_maintenance_state_is_loaded() {
    let metadata = MaintenanceModeMetadata {
        enabled_at: "2024-06-15T14:30:00Z".to_string(),
    };
    let mut state = MaintenanceState::default();
    state.load_from_metadata(metadata.clone());
    assert_eq!(state.metadata(), Some(&metadata));
    assert_eq!(state.clone().metadata(), Some(&metadata));
    assert_eq!(state.enable_at("2024-01-01T00:00:00Z".to_string()).enabled_at, "2024-01-01T00:00:00Z");
    assert_eq!(state.metadata().unwrap().enabled_at, "2024-01-01T00:00:00Z");
    assert!(OffsetDateTime::parse(&MaintenanceModeMetadata::new_now().enabled_at, &Rfc3339).is_ok());
}

#[test]
fn test_serialize_deserialize_maintenance_persisted_state() {
    let metadata = MaintenanceModeMetadata {
        enabled_at: "2024-06-15T14:30:00Z".to_string(),
    };
    let plan = PhysicalIndexingPlan::with_indexer_ids(&[
        "indexer-1".to_string(),
        "indexer-2".to_string(),
    ]);
    let state = MaintenancePersistedState {
        metadata: metadata.clone(),
        frozen_plan: plan.clone(),
    };
    let bytes = MaintenancePersistedState::to_bytes(&state.metadata, &state.frozen_plan).unwrap();
    let deserialized = MaintenancePersistedState::from_bytes(&bytes).unwrap();
    assert_eq!(deserialized, state);
}

#[test]
fn test_deserialize_maintenance_persisted_state_invalid_bytes() {
    let result = MaintenancePersistedState::from_bytes(b"not valid postcard");
    assert!(result.is_err());
    assert_eq!(result.unwrap_err(), MaintenanceError::Deserialize);
}

#[test]
fn test_postcard_deserialization_stability() {
    // Layout (postcard wire format):
    //   varint(20) + b"2024-06-15T14:30:00Z"   -- metadata.enabled_at
    //   varint(1)                               -- map length (1 entry)
    //   varint(9)  + b"indexer-1"              -- map key
    //   varint(0)                               -- map value (empty Vec<IndexingTask>)
    const HARDCODED_BYTES: &[u8] = &[
        0x14, b'2', b'0', b'2', b'4', b'-', b'0', b'6', b'-', b'1', b'5', b'T', b'1', b'4',
        b':', b'3', b'0', b':', b'0', b'0',
        b'Z', // metadata.enabled_at: "2024-06-15T14:30:00Z"
        0x01, // 1 entry in the map
        0x09, b'i', b'n', b'd', b'e', b'x', b'e', b'r', b'-', b'1', // key: "indexer-1"
        0x00, // empty Vec<IndexingTask>
    ];

    let state = MaintenancePersistedState::from_bytes(HARDCODED_BYTES)
        .expect("hardcoded bytes must deserialize without errors");

    assert_eq!(state.metadata.enabled_at, "2024-06-15T14:30:00Z");
    assert_eq!(state.frozen_plan.num_indexers(), 1);
    assert!(
        state.frozen_plan.indexer("indexer-1").is_some(),
        "expected 'indexer-1' in the frozen plan"
    );
    assert_eq!(
        MaintenancePersistedState::to_bytes(&state.metadata, &state.frozen_plan).unwrap(),
        HARDCODED_BYTES
    );
}

#[test]
fn test_in_memory_persistence_save_and_load() {
    let mut persistence = InMemoryPersistence::new();

    // Initially empty
    assert!(persistence.load().is_none());

    // Save
    let metadata = MaintenanceModeMetadata {
        enabled_at: "2024-01-15T10:00:00Z".to_string(),
    };
    let plan = PhysicalIndexingPlan::with_indexer_ids(&["indexer-1".to_string()]);
    persistence.save(&metadata, &plan).unwrap();

    // Load
    let loaded = persistence.load().unwrap();
    assert_eq!(loaded.metadata, metadata);
    assert_eq!(loaded.frozen_plan, plan);

    // Clear
    persistence.clear().unwrap();
    assert!(persistence.load().is_none());
}

#[test]
fn test_in_memory_persistence_overwrite() {
    let mut persistence = InMemoryPersistence::new();

    let metadata1 = MaintenanceModeMetadata {
        enabled_at: "2024-01-01T00:00:00Z".to_string(),
    };
    let plan1 = PhysicalIndexingPlan::with_indexer_ids(&["a".to_string()]);
    persistence.save(&metadata1, &plan1).unwrap();

    let metadata2 = MaintenanceModeMetadata {
        enabled_at: "2024-06-01T12:00:00Z".to_string(),
    };
    let plan2 = PhysicalIndexingPlan::with_indexer_ids(&["b".to_string()]);
    persistence.save(&metadata2, &plan2).unwrap();

    let loaded = persistence.load().unwrap();
    assert_eq!(loaded.metadata, metadata2);
    assert_eq!(loaded.frozen_plan, plan2);
}

#[test]
fn test_plan_with_tasks_survives_serialization() {
    let metadata = MaintenanceModeMetadata {
        enabled_at: "2024-06-15T14:30:00Z".to_string(),
    };
    let mut plan = PhysicalIndexingPlan::new();
    plan.set_tasks("indexer-1".to_string(), vec![task("first")]);
    plan.set_tasks("indexer-2".to_string(), Vec::new());
    plan.set_tasks("indexer-1".to_string(), vec![task("second"), task("third")]);
    assert_eq!(plan.num_indexers(), 2);
    let bytes = MaintenancePersistedState::to_bytes(&metadata, &plan).unwrap();
    let state = MaintenancePersistedState::from_bytes(&bytes).unwrap();
    assert_eq!(state.frozen_plan, plan);
    assert_eq!(state.clone(), state);
    assert_eq!(
        state.frozen_plan.indexer("indexer-1").unwrap(),
        &vec![task("second"), task("third")]
    );
    assert!(state.frozen_plan.indexer("indexer-3").is_none());
}

#[test]
fn test_metastore_value_is_base64() {
    let persistence = MetastoreKvPersistence;
    assert_eq!(persistence.key(), "maintenance_state");
    let metadata = MaintenanceModeMetadata { enabled_at: "a".to_string() };
    let plan = PhysicalIndexingPlan::new();
    // The bytes are [1, b'a', 0].
    let value = persistence.save_value(&metadata, &plan).unwrap();
    assert_eq!(value, "AWEA");
    let state = persistence.load_value(Some(value.as_str())).unwrap().unwrap();
    assert_eq!(state.metadata, metadata);
    assert_eq!(state.frozen_plan, plan);
    assert!(persistence.load_value(None).unwrap().is_none());
    assert_eq!(
        persistence.load_value(Some("not base64!")).unwrap_err(),
        MaintenanceError::InvalidBase64
    );
    assert_eq!(
        persistence.load_value(Some("/w==")).unwrap_err(),
        MaintenanceError::Deserialize
    );
}
