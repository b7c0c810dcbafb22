use bytes::Bytes;
use quickwit::metrics_wrappers::{
    coalesce_segments, io_error_as_label, record_download, record_request,
    record_request_with_timer, record_upload, ActionLabel, AzureError, AzureMarker, BodyCollector,
    CopyAction, CopyEvent, DownloadKind, DownloadMetricsGuard, DownloadMetricsWrapper,
    DownloadStatus, IoErrorKind, MetricUpdate, RequestMetricsWrapperExt, S3Error, S3Marker,
};

#[test]
fn test_coalesce_segments_does_not_copy_a_single_segment() {
    let segment = Bytes::from_static(b"warmup payload");
    let segment_ptr = segment.as_ptr();
    let coalesced = coalesce_segments(vec![segment], 14);
    assert_eq!(&coalesced[..], b"warmup payload");
    // This is the whole point of `coalesce_segments`: a body that arrived as a
    // single segment is handed over as is, rather than copied into a buffer that
    // was just allocated.
    assert_eq!(coalesced.as_ptr(), segment_ptr);
}

#[test]
fn test_coalesce_segments_concatenates_several_segments() {
    let segments = vec![
        Bytes::from_static(b"war"),
        Bytes::from_static(b"mup "),
        Bytes::from_static(b"payload"),
    ];
    assert_eq!(&coalesce_segments(segments, 14)[..], b"warmup payload");
}

#[test]
fn test_coalesce_segments_empty_body() {
    assert!(coalesce_segments(Vec::new(), 0).is_empty());
}

fn requests_total(action: &'static str, status: &str) -> MetricUpdate {
    MetricUpdate::RequestsTotal { action, status: status.to_string() }
}

#[test]
fn test_request_that_is_dropped_is_cancelled() {
    let wrapper = ().with_count_metric(ActionLabel::GetObject);
    assert_eq!(wrapper.finish(0), [requests_total("get_object", "cancelled")]);
}

#[test]
fn test_request_with_a_duration() {
    let mut wrapper = ().with_count_and_duration_metrics(ActionLabel::PutObject, 100);
    let response: Result<(), S3Error> = Ok(());
    wrapper.on_ready::<S3Marker, Result<(), S3Error>>(&response);
    assert_eq!(
        wrapper.finish(350),
        [
            requests_total("put_object", "success"),
            MetricUpdate::RequestDuration {
                action: "put_object",
                status: "success".to_string(),
                elapsed_nanos: 250,
            },
        ]
    );
}

#[test]
fn test_request_with_an_upload() {
    let mut wrapper = ().with_count_and_upload_metrics(ActionLabel::UploadPart, 42);
    let response: Result<(), S3Error> = Err(S3Error::ServiceError {
        code: Some("SlowDown".to_string()),
    });
    wrapper.on_ready::<S3Marker, Result<(), S3Error>>(&response);
    assert_eq!(
        wrapper.finish(0),
        [
            requests_total("upload_part", "SlowDown"),
            MetricUpdate::UploadNumBytes { status: "SlowDown".to_string(), num_bytes: 42 },
        ]
    );
}

#[test]
fn test_s3_errors() {
    for (error, status) in [
        (S3Error::ConstructionFailure, "construction_failure"),
        (S3Error::TimeoutError, "timeout_error"),
        (S3Error::DispatchFailure, "dispatch_failure"),
        (S3Error::ResponseError, "response_error"),
        (S3Error::ServiceError { code: None }, "unknown_service_error"),
        (S3Error::Other, "unknown"),
    ] {
        let mut wrapper = ().with_count_metric(ActionLabel::HeadObject);
        let response: Result<(), S3Error> = Err(error);
        wrapper.on_ready::<S3Marker, Result<(), S3Error>>(&response);
        assert_eq!(wrapper.finish(0), [requests_total("head_object", status)]);
    }
}

#[test]
fn test_azure_errors() {
    for (error, status) in [
        (AzureError::HttpResponse { status: "404".to_string() }, "404"),
        (AzureError::Credential, "credential"),
        (AzureError::Io, "io"),
        (AzureError::DataConversion, "data_conversion"),
        (AzureError::Other, "unknown"),
    ] {
        let mut wrapper = ().with_count_metric(ActionLabel::DeleteObject);
        let response: Result<(), AzureError> = Err(error);
        wrapper.on_ready::<AzureMarker, Result<(), AzureError>>(&response);
        assert_eq!(wrapper.finish(0), [requests_total("delete_object", status)]);
    }
}

#[test]
fn test_end_of_a_stream_of_responses_is_no_request() {
    let mut wrapper = ().with_count_metric(ActionLabel::ListObjects);
    let response: Option<Result<(), AzureError>> = None;
    wrapper.on_ready::<AzureMarker, Option<Result<(), AzureError>>>(&response);
    assert!(wrapper.finish(0).is_empty());
}

fn downloaded(outcome: &'static str, num_bytes: u64) -> MetricUpdate {
    MetricUpdate::DownloadNumBytes { outcome, kind: "slice", num_bytes }
}

fn download_error(error: &'static str) -> MetricUpdate {
    MetricUpdate::DownloadErrors { error, kind: "slice" }
}

#[test]
fn test_download_is_reported_once() {
    let mut guard = DownloadMetricsGuard::new(DownloadKind::Slice);
    guard.record_bytes(3);
    guard.record_bytes(4);
    guard.set_status(DownloadStatus::Done);
    assert_eq!(guard.finish(), [downloaded("success", 7)]);

    let mut guard = DownloadMetricsGuard::new(DownloadKind::Slice);
    guard.record_bytes(3);
    assert_eq!(guard.finish(), [downloaded("cancelled", 3), download_error("cancelled")]);

    let mut guard = DownloadMetricsGuard::new(DownloadKind::Slice);
    guard.set_status(DownloadStatus::Failed("timed_out"));
    assert_eq!(guard.finish(), [downloaded("timed_out", 0), download_error("timed_out")]);
}

#[test]
fn test_copy_tracks_the_bytes_written() {
    let mut wrapper = DownloadMetricsWrapper::new(DownloadKind::Slice);
    assert_eq!(wrapper.on_event(CopyEvent::BufferFilled(10)), CopyAction::Write);
    assert_eq!(wrapper.on_event(CopyEvent::Written(6)), CopyAction::Consume(6));
    assert_eq!(wrapper.on_event(CopyEvent::BufferFilled(4)), CopyAction::Write);
    assert_eq!(wrapper.on_event(CopyEvent::Written(4)), CopyAction::Consume(4));
    assert_eq!(wrapper.on_event(CopyEvent::BufferFilled(0)), CopyAction::Flush);
    assert_eq!(wrapper.on_event(CopyEvent::Flushed), CopyAction::Done(10));
    assert_eq!(wrapper.finish(), [downloaded("success", 10)]);
}

#[test]
fn test_copy_to_a_writer_that_takes_nothing_fails() {
    let mut wrapper = DownloadMetricsWrapper::new(DownloadKind::Slice);
    assert_eq!(wrapper.on_event(CopyEvent::BufferFilled(10)), CopyAction::Write);
    assert_eq!(
        wrapper.on_event(CopyEvent::Written(0)),
        CopyAction::Fail(IoErrorKind::WriteZero)
    );
    assert_eq!(wrapper.finish(), [downloaded("write_zero", 0), download_error("write_zero")]);
}

#[test]
fn test_copy_that_fails_midway() {
    let mut wrapper = DownloadMetricsWrapper::new(DownloadKind::Slice);
    wrapper.on_event(CopyEvent::BufferFilled(10));
    wrapper.on_event(CopyEvent::Written(6));
    assert_eq!(
        wrapper.on_event(CopyEvent::Failed(IoErrorKind::ConnectionReset)),
        CopyAction::Fail(IoErrorKind::ConnectionReset)
    );
    assert_eq!(
        wrapper.finish(),
        [downloaded("connection_reset", 6), download_error("connection_reset")]
    );
}

#[test]
fn test_body_is_collected() {
    let mut collector = BodyCollector::new(DownloadKind::Slice);
    collector.on_segment(Bytes::from_static(b"war"));
    collector.on_segment(Bytes::from_static(b"mup"));
    let (body, updates) = collector.complete();
    assert_eq!(&body[..], b"warmup");
    assert_eq!(updates, [downloaded("success", 6)]);

    let mut collector = BodyCollector::new(DownloadKind::Slice);
    collector.on_segment(Bytes::from_static(b"war"));
    assert_eq!(collector.fail(), [downloaded("other", 3), download_error("other")]);

    let collector = BodyCollector::new(DownloadKind::Slice);
    assert_eq!(collector.cancel(), [downloaded("cancelled", 0), download_error("cancelled")]);
}

#[test]
fn test_io_error_labels() {
    assert_eq!(io_error_as_label(IoErrorKind::NotFound), "not_found");
    assert_eq!(io_error_as_label(IoErrorKind::UnexpectedEof), "unexpected_eof");
    assert_eq!(io_error_as_label(IoErrorKind::Uncategorized), "uncategorized");
}

#[test]
fn test_records_with_unknown_status() {
    assert_eq!(
        record_request(ActionLabel::GetObject),
        requests_total("get_object", "unknown")
    );
    assert_eq!(
        record_upload(5),
        MetricUpdate::UploadNumBytes { status: "unknown".to_string(), num_bytes: 5 }
    );
    assert_eq!(
        record_download(5, DownloadKind::Object),
        MetricUpdate::DownloadNumBytes { outcome: "unknown", kind: "object", num_bytes: 5 }
    );
    assert_eq!(
        record_request_with_timer(ActionLabel::CreateMultipartUpload),
        [
            requests_total("create_multipart_upload", "unknown"),
            MetricUpdate::RequestTimerStarted {
                action: "create_multipart_upload",
                status: "unknown".to_string(),
            },
        ]
    );
}
