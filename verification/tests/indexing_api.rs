use quickwit::serve::indexing_api::{IndexingApi, PipelineObservation};

fn observation(index_id: &str, source: Result<&str, &str>) -> PipelineObservation<u64> {
    PipelineObservation {
        index_id: index_id.to_string(),
        source_id: "kafka".to_string(),
        pipeline_uid: 7,
        source_observation: match source {
            Ok(json) => Ok(json.to_string()),
            Err(error) => Err(error.to_string()),
        },
        indexing_statistics: 42,
    }
}

#[test]
fn test_observed_and_unobserved_sources() {
    let response = IndexingApi::pipelines_response(vec![
        observation("first", Ok("{\"assigned_partitions\":[0]}")),
        observation("second", Err("mailbox closed")),
    ]);
    let pipelines = response.indexing_pipelines;
    assert_eq!(pipelines.len(), 2);
    assert_eq!(pipelines[0].index_id, "first");
    assert_eq!(pipelines[0].source_observation, "{\"assigned_partitions\":[0]}");
    assert_eq!(pipelines[0].error, None);
    assert_eq!(pipelines[0].indexing_statistics, 42);
    assert_eq!(pipelines[1].index_id, "second");
    assert_eq!(pipelines[1].source_id, "kafka");
    assert_eq!(pipelines[1].pipeline_uid, 7);
    assert_eq!(pipelines[1].source_observation, "{}");
    assert_eq!(pipelines[1].error.as_deref(), Some("mailbox closed"));
}
