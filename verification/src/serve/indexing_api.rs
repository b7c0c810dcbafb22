//! The indexing pipelines of a node, as its REST API shows them.
use vstd::prelude::*;

verus! {

/// The REST API on indexing.
pub struct IndexingApi;

/// What an indexing service says of one of its pipelines, once the source has been observed. The
/// observation of the source is a JSON document. `S` holds the statistics of the pipeline.
pub struct PipelineObservation<S> {
    pub index_id: String,
    pub source_id: String,
    pub pipeline_uid: u128,
    pub source_observation: Result<String, String>,
    pub indexing_statistics: S,
}

/// An indexing pipeline, as the REST API shows it.
#[derive(Debug, PartialEq, Eq)]
pub struct IndexingPipelineResponse<S> {
    pub index_id: String,
    pub source_id: String,
    pub pipeline_uid: u128,
    pub indexing_statistics: S,
    /// A JSON document. An empty object, if the source could not be observed.
    pub source_observation: String,
    /// Why the source could not be observed.
    pub error: Option<String>,
}

/// The indexing pipelines, as the REST API shows them.
#[derive(Debug, PartialEq, Eq)]
pub struct IndexingPipelinesResponse<S> {
    pub indexing_pipelines: Vec<IndexingPipelineResponse<S>>,
}

impl<S> IndexingPipelineResponse<S> {
    /// Whether this shows that pipeline.
    pub open spec fn shows(self, observation: PipelineObservation<S>) -> bool {
        &&& self.index_id == observation.index_id
        &&& self.source_id == observation.source_id
        &&& self.pipeline_uid == observation.pipeline_uid
        &&& self.indexing_statistics == observation.indexing_statistics
        &&& match observation.source_observation {
            Ok(source_observation) => {
                &&& self.source_observation == source_observation
                &&& self.error is None
            },
            Err(error) => {
                &&& self.source_observation@ == "{}"@
                &&& self.error == Some(error)
            },
        }
    }
}

impl IndexingApi {
    /// Returns the response on one pipeline.
    pub fn pipeline_response<S>(
        observation: PipelineObservation<S>,
    ) -> (response: IndexingPipelineResponse<S>)
        ensures
            response.shows(observation),
    {
        let (source_observation, error) = match observation.source_observation {
            Ok(source_observation) => (source_observation, None),
            Err(error) => ("{}".to_owned(), Some(error)),
        };
        IndexingPipelineResponse {
            index_id: observation.index_id,
            source_id: observation.source_id,
            pipeline_uid: observation.pipeline_uid,
            indexing_statistics: observation.indexing_statistics,
            source_observation,
            error,
        }
    }

    /// Returns the response on all pipelines, in the order in which they were observed.
    pub fn pipelines_response<S>(
        observations: Vec<PipelineObservation<S>>,
    ) -> (response: IndexingPipelinesResponse<S>)
        ensures
            response.indexing_pipelines@.len() == observations@.len(),
            forall|i: int|
                0 <= i < observations@.len() ==> (#[trigger] response.indexing_pipelines@[i]).shows(
                    observations@[i],
                ),
    {
        let mut indexing_pipelines: Vec<IndexingPipelineResponse<S>> = Vec::new();
        let ghost all = observations@;
        for observation in iter: observations
            invariant
                iter.seq() == all,
                indexing_pipelines@.len() == iter.index(),
                forall|i: int|
                    0 <= i < iter.index() ==> (#[trigger] indexing_pipelines@[i]).shows(all[i]),
        {
            indexing_pipelines.push(IndexingApi::pipeline_response(observation));
        }
        IndexingPipelinesResponse { indexing_pipelines }
    }
}

/// The response on a pipeline has what identifies it, its statistics, and what was observed of its
/// source, or else an empty object and the error.
pub proof fn law_response_tells_the_observation<S>(
    response: IndexingPipelineResponse<S>,
    observation: PipelineObservation<S>,
)
    requires
        response.shows(observation),
    ensures
        response.index_id@ == observation.index_id@,
        response.source_id@ == observation.source_id@,
        response.pipeline_uid == observation.pipeline_uid,
        response.indexing_statistics == observation.indexing_statistics,
        observation.source_observation is Ok ==> response.source_observation@ == (
        observation.source_observation->Ok_0)@ && response.error is None,
        observation.source_observation is Err ==> response.source_observation@ == seq!['{', '}']
            && response.error is Some && (response.error->0)@ == (
        observation.source_observation->Err_0)@,
{
    reveal_strlit("{}");
    if observation.source_observation is Err {
        assert(response.source_observation@ =~= seq!['{', '}']);
    }
}

} // verus!
