//! Accounting of object storage requests, uploads, and downloads.
//!
//! Trackers follow a request or a download until it ends, and then tell which metrics to update.
//! Times are nanoseconds of a monotonic clock.
use crate::stable_deref_bytes;
use crate::stable_deref_bytes::bytes_as_slice;
use vstd::prelude::*;

verus! {

/// What a request does.
#[derive(Clone, Copy, Debug, PartialEq, Eq, Structural)]
pub enum ActionLabel {
    AbortMultipartUpload,
    CompleteMultipartUpload,
    CreateMultipartUpload,
    DeleteObject,
    DeleteObjects,
    GetObject,
    HeadObject,
    ListObjects,
    PutObject,
    UploadPart,
}

impl ActionLabel {
    /// The label of the action.
    pub open spec fn label(self) -> Seq<char> {
        match self {
            ActionLabel::AbortMultipartUpload => "abort_multipart_upload"@,
            ActionLabel::CompleteMultipartUpload => "complete_multipart_upload"@,
            ActionLabel::CreateMultipartUpload => "create_multipart_upload"@,
            ActionLabel::DeleteObject => "delete_object"@,
            ActionLabel::DeleteObjects => "delete_objects"@,
            ActionLabel::GetObject => "get_object"@,
            ActionLabel::HeadObject => "head_object"@,
            ActionLabel::ListObjects => "list_objects"@,
            ActionLabel::PutObject => "put_object"@,
            ActionLabel::UploadPart => "upload_part"@,
        }
    }

    /// Returns the label of the action.
    pub fn as_str(&self) -> (label: &'static str)
        ensures
            label@ == self.label(),
    {
        match self {
            ActionLabel::AbortMultipartUpload => "abort_multipart_upload",
            ActionLabel::CompleteMultipartUpload => "complete_multipart_upload",
            ActionLabel::CreateMultipartUpload => "create_multipart_upload",
            ActionLabel::DeleteObject => "delete_object",
            ActionLabel::DeleteObjects => "delete_objects",
            ActionLabel::GetObject => "get_object",
            ActionLabel::HeadObject => "head_object",
            ActionLabel::ListObjects => "list_objects",
            ActionLabel::PutObject => "put_object",
            ActionLabel::UploadPart => "upload_part",
        }
    }
}

/// How far a request is.
pub enum RequestStatus {
    /// It has not been answered.
    Pending,
    /// There is nothing to record.
    Done,
    /// It has been answered. This is the status to record.
    Ready(String),
}

/// Mathematical content of a [`RequestStatus`].
pub enum StatusModel {
    Pending,
    Done,
    Ready(Seq<char>),
}

impl View for RequestStatus {
    type V = StatusModel;

    open spec fn view(&self) -> StatusModel {
        match self {
            RequestStatus::Pending => StatusModel::Pending,
            RequestStatus::Done => StatusModel::Done,
            RequestStatus::Ready(status) => StatusModel::Ready(status@),
        }
    }
}

/// Converts the result of an object store client to the status that should be recorded in the
/// metrics.
///
/// The `Marker` type tells the clients apart.
pub trait AsRequestStatus<Marker> {
    /// The status of the result.
    spec fn status_model(&self) -> StatusModel;

    /// Returns the status of the result.
    fn as_status(&self) -> (status: RequestStatus)
        ensures
            status@ == self.status_model(),
    ;
}

/// One change of a metric.
#[derive(Debug, PartialEq)]
pub enum MetricUpdate {
    /// Counts one request.
    RequestsTotal { action: &'static str, status: String },
    /// Observes the duration of a request.
    RequestDuration { action: &'static str, status: String, elapsed_nanos: u64 },
    /// Starts a timer for the duration of a request.
    RequestTimerStarted { action: &'static str, status: String },
    /// Counts uploaded bytes.
    UploadNumBytes { status: String, num_bytes: u64 },
    /// Counts downloaded bytes.
    DownloadNumBytes { outcome: &'static str, kind: &'static str, num_bytes: u64 },
    /// Counts one failed download.
    DownloadErrors { error: &'static str, kind: &'static str },
}

/// Mathematical content of a [`MetricUpdate`].
pub enum UpdateModel {
    RequestsTotal { action: Seq<char>, status: Seq<char> },
    RequestDuration { action: Seq<char>, status: Seq<char>, elapsed_nanos: u64 },
    RequestTimerStarted { action: Seq<char>, status: Seq<char> },
    UploadNumBytes { status: Seq<char>, num_bytes: u64 },
    DownloadNumBytes { outcome: Seq<char>, kind: Seq<char>, num_bytes: u64 },
    DownloadErrors { error: Seq<char>, kind: Seq<char> },
}

impl View for MetricUpdate {
    type V = UpdateModel;

    open spec fn view(&self) -> UpdateModel {
        match self {
            MetricUpdate::RequestsTotal { action, status } => UpdateModel::RequestsTotal {
                action: action@,
                status: status@,
            },
            MetricUpdate::RequestDuration { action, status, elapsed_nanos } => {
                UpdateModel::RequestDuration {
                    action: action@,
                    status: status@,
                    elapsed_nanos: *elapsed_nanos,
                }
            },
            MetricUpdate::RequestTimerStarted { action, status } => {
                UpdateModel::RequestTimerStarted { action: action@, status: status@ }
            },
            MetricUpdate::UploadNumBytes { status, num_bytes } => UpdateModel::UploadNumBytes {
                status: status@,
                num_bytes: *num_bytes,
            },
            MetricUpdate::DownloadNumBytes { outcome, kind, num_bytes } => {
                UpdateModel::DownloadNumBytes { outcome: outcome@, kind: kind@, num_bytes: *num_bytes }
            },
            MetricUpdate::DownloadErrors { error, kind } => UpdateModel::DownloadErrors {
                error: error@,
                kind: kind@,
            },
        }
    }
}

/// The contents of some updates.
pub open spec fn update_models(updates: Seq<MetricUpdate>) -> Seq<UpdateModel> {
    updates.map_values(|update: MetricUpdate| update@)
}

/// Wrapper around object store requests to record metrics.
///
/// For download requests with large response bodies, this tracks the time to first byte, since it
/// follows the initial request, not the copy of the response body.
///
/// A request that is given up before it was answered, as when a timeout is applied to it, is
/// recorded as cancelled.
pub struct RequestMetricsWrapper<F> {
    pub inner: F,
    pub action: ActionLabel,
    pub start: Option<u64>,
    pub uploaded_bytes: Option<u64>,
    pub status: RequestStatus,
}

impl<F> RequestMetricsWrapper<F> {
    /// Takes note of the answer to the request.
    pub fn on_ready<Marker, R: AsRequestStatus<Marker>>(&mut self, response: &R)
        ensures
            *final(self) == (RequestMetricsWrapper { status: final(self).status, ..*old(self) }),
            final(self).status@ == response.status_model(),
    {
        self.status = response.as_status();
    }

    /// The updates to make for a request that ends with the given status.
    pub open spec fn updates(
        action: ActionLabel,
        start: Option<u64>,
        uploaded_bytes: Option<u64>,
        status: StatusModel,
        now: u64,
    ) -> Seq<UpdateModel> {
        let recorded = match status {
            StatusModel::Pending => Some("cancelled"@),
            StatusModel::Done => None,
            StatusModel::Ready(status) => Some(status),
        };
        match recorded {
            None => Seq::empty(),
            Some(status) => seq![UpdateModel::RequestsTotal { action: action.label(), status }]
                + match start {
                Some(start) => seq![
                    UpdateModel::RequestDuration {
                        action: action.label(),
                        status,
                        elapsed_nanos: if now >= start {
                            (now - start) as u64
                        } else {
                            0
                        },
                    },
                ],
                None => Seq::empty(),
            } + match uploaded_bytes {
                Some(num_bytes) => seq![UpdateModel::UploadNumBytes { status, num_bytes }],
                None => Seq::empty(),
            },
        }
    }

    /// Ends the request, answered or not, at time `now`. Returns the updates to make.
    pub fn finish(self, now: u64) -> (updates: Vec<MetricUpdate>)
        ensures
            update_models(updates@) == Self::updates(
                self.action,
                self.start,
                self.uploaded_bytes,
                self.status@,
                now,
            ),
    {
        let mut updates: Vec<MetricUpdate> = Vec::new();
        let status = match self.status {
            RequestStatus::Pending => "cancelled".to_owned(),
            RequestStatus::Done => {
                proof {
                    assert(update_models(updates@) =~= Seq::empty());
                }
                return updates;
            },
            RequestStatus::Ready(status) => status,
        };
        let action = self.action.as_str();
        updates.push(MetricUpdate::RequestsTotal { action, status: status.clone() });
        if let Some(start) = self.start {
            updates.push(
                MetricUpdate::RequestDuration {
                    action,
                    status: status.clone(),
                    elapsed_nanos: now.saturating_sub(start),
                },
            );
        }
        if let Some(num_bytes) = self.uploaded_bytes {
            updates.push(MetricUpdate::UploadNumBytes { status, num_bytes });
        }
        proof {
            assert(update_models(updates@) =~= Self::updates(
                self.action,
                self.start,
                self.uploaded_bytes,
                self.status@,
                now,
            ));
        }
        updates
    }
}

/// Ways to track a request.
pub trait RequestMetricsWrapperExt: Sized {
    /// Counts the request.
    fn with_count_metric(self, action: ActionLabel) -> (wrapper: RequestMetricsWrapper<Self>)
        ensures
            wrapper.inner == self,
            wrapper.action == action,
            wrapper.start is None,
            wrapper.uploaded_bytes is None,
            wrapper.status is Pending,
    ;

    /// Counts the request, and measures how long it takes from `now` on. For download requests,
    /// this should wrap the initial request to track the time to first byte.
    fn with_count_and_duration_metrics(self, action: ActionLabel, now: u64) -> (wrapper:
        RequestMetricsWrapper<Self>)
        ensures
            wrapper.inner == self,
            wrapper.action == action,
            wrapper.start == Some(now),
            wrapper.uploaded_bytes is None,
            wrapper.status is Pending,
    ;

    /// Counts the request, and the bytes that it uploads.
    fn with_count_and_upload_metrics(self, action: ActionLabel, bytes: u64) -> (wrapper:
        RequestMetricsWrapper<Self>)
        ensures
            wrapper.inner == self,
            wrapper.action == action,
            wrapper.start is None,
            wrapper.uploaded_bytes == Some(bytes),
            wrapper.status is Pending,
    ;
}

impl<F> RequestMetricsWrapperExt for F {
    fn with_count_metric(self, action: ActionLabel) -> (wrapper: RequestMetricsWrapper<F>) {
        RequestMetricsWrapper {
            inner: self,
            action,
            start: None,
            uploaded_bytes: None,
            status: RequestStatus::Pending,
        }
    }

    fn with_count_and_duration_metrics(self, action: ActionLabel, now: u64) -> (wrapper:
        RequestMetricsWrapper<F>) {
        RequestMetricsWrapper {
            inner: self,
            action,
            start: Some(now),
            uploaded_bytes: None,
            status: RequestStatus::Pending,
        }
    }

    fn with_count_and_upload_metrics(self, action: ActionLabel, bytes: u64) -> (wrapper:
        RequestMetricsWrapper<F>) {
        RequestMetricsWrapper {
            inner: self,
            action,
            start: None,
            uploaded_bytes: Some(bytes),
            status: RequestStatus::Pending,
        }
    }
}

/// Marks results of the S3 client.
pub struct S3Marker;

/// Why a request of the S3 client failed.
pub enum S3Error {
    ConstructionFailure,
    TimeoutError,
    DispatchFailure,
    ResponseError,
    /// The service answered with an error, which may have a code.
    ServiceError { code: Option<String> },
    /// Any other failure.
    Other,
}

impl<R> AsRequestStatus<S3Marker> for Result<R, S3Error> {
    open spec fn status_model(&self) -> StatusModel {
        StatusModel::Ready(
            match self {
                Ok(_) => "success"@,
                Err(S3Error::ConstructionFailure) => "construction_failure"@,
                Err(S3Error::TimeoutError) => "timeout_error"@,
                Err(S3Error::DispatchFailure) => "dispatch_failure"@,
                Err(S3Error::ResponseError) => "response_error"@,
                Err(S3Error::ServiceError { code: Some(code) }) => code@,
                Err(S3Error::ServiceError { code: None }) => "unknown_service_error"@,
                Err(S3Error::Other) => "unknown"@,
            },
        )
    }

    fn as_status(&self) -> (status: RequestStatus) {
        RequestStatus::Ready(
            match self {
                Ok(_) => "success".to_owned(),
                Err(S3Error::ConstructionFailure) => "construction_failure".to_owned(),
                Err(S3Error::TimeoutError) => "timeout_error".to_owned(),
                Err(S3Error::DispatchFailure) => "dispatch_failure".to_owned(),
                Err(S3Error::ResponseError) => "response_error".to_owned(),
                Err(S3Error::ServiceError { code: Some(code) }) => code.clone(),
                Err(S3Error::ServiceError { code: None }) => "unknown_service_error".to_owned(),
                Err(S3Error::Other) => "unknown".to_owned(),
            },
        )
    }
}

/// Marks results of the Azure client.
pub struct AzureMarker;

/// Why a request of the Azure client failed.
pub enum AzureError {
    /// The service answered with an error status, which is displayed like this.
    HttpResponse { status: String },
    Credential,
    Io,
    DataConversion,
    /// Any other failure.
    Other,
}

/// The status to record for a result of the Azure client.
pub open spec fn azure_status<R>(result: Result<R, AzureError>) -> StatusModel {
    StatusModel::Ready(
        match result {
            Ok(_) => "success"@,
            Err(AzureError::HttpResponse { status }) => status@,
            Err(AzureError::Credential) => "credential"@,
            Err(AzureError::Io) => "io"@,
            Err(AzureError::DataConversion) => "data_conversion"@,
            Err(AzureError::Other) => "unknown"@,
        },
    )
}

impl<R> AsRequestStatus<AzureMarker> for Result<R, AzureError> {
    open spec fn status_model(&self) -> StatusModel {
        azure_status(*self)
    }

    fn as_status(&self) -> (status: RequestStatus) {
        RequestStatus::Ready(
            match self {
                Ok(_) => "success".to_owned(),
                Err(AzureError::HttpResponse { status }) => status.clone(),
                Err(AzureError::Credential) => "credential".to_owned(),
                Err(AzureError::Io) => "io".to_owned(),
                Err(AzureError::DataConversion) => "data_conversion".to_owned(),
                Err(AzureError::Other) => "unknown".to_owned(),
            },
        )
    }
}

/// The client chunks downloads into a stream of requests, which ends without a result.
impl<R> AsRequestStatus<AzureMarker> for Option<Result<R, AzureError>> {
    open spec fn status_model(&self) -> StatusModel {
        match self {
            None => StatusModel::Done,
            Some(result) => azure_status(*result),
        }
    }

    fn as_status(&self) -> (status: RequestStatus) {
        match self {
            None => RequestStatus::Done,
            Some(result) => result.as_status(),
        }
    }
}

/// How far a download is.
#[derive(Clone, Copy, Debug)]
pub enum DownloadStatus {
    InProgress,
    Done,
    Failed(&'static str),
}

/// Whether a download covers a whole object or just a byte range of it.
///
/// The two have size distributions that differ by orders of magnitude, so they are recorded under
/// distinct label values.
#[derive(Clone, Copy, Debug, PartialEq, Eq, Structural)]
pub enum DownloadKind {
    /// The whole object.
    Object,
    /// A byte range of the object.
    Slice,
}

impl DownloadKind {
    /// The label of the kind.
    pub open spec fn label(self) -> Seq<char> {
        match self {
            DownloadKind::Object => "object"@,
            DownloadKind::Slice => "slice"@,
        }
    }

    /// Returns the label of the kind.
    pub fn as_str(&self) -> (label: &'static str)
        ensures
            label@ == self.label(),
    {
        match self {
            DownloadKind::Object => "object",
            DownloadKind::Slice => "slice",
        }
    }
}

impl DownloadStatus {
    /// The error to record, unless the download completed.
    pub open spec fn error(self) -> Option<Seq<char>> {
        match self {
            DownloadStatus::InProgress => Some("cancelled"@),
            DownloadStatus::Failed(error) => Some(error@),
            DownloadStatus::Done => None,
        }
    }
}

/// The updates to make for a download that ends, with an error or without.
pub open spec fn download_updates(
    num_bytes: u64,
    kind: DownloadKind,
    error: Option<Seq<char>>,
) -> Seq<UpdateModel> {
    match error {
        None => seq![
            UpdateModel::DownloadNumBytes { outcome: "success"@, kind: kind.label(), num_bytes },
        ],
        Some(error) => seq![
            UpdateModel::DownloadNumBytes { outcome: error, kind: kind.label(), num_bytes },
            UpdateModel::DownloadErrors { error, kind: kind.label() },
        ],
    }
}

/// Records the volume and the outcome of a single download when it ends.
///
/// A download that fails or is cancelled midway still reports the bytes that did transit: unlike
/// other requests, downloads can fail long after a successful response header.
pub struct DownloadMetricsGuard {
    pub downloaded_bytes: u64,
    pub kind: DownloadKind,
    pub status: DownloadStatus,
}

impl DownloadMetricsGuard {
    /// A download that starts.
    pub fn new(kind: DownloadKind) -> (guard: DownloadMetricsGuard)
        ensures
            guard == (DownloadMetricsGuard {
                downloaded_bytes: 0,
                kind,
                status: DownloadStatus::InProgress,
            }),
    {
        DownloadMetricsGuard { downloaded_bytes: 0, kind, status: DownloadStatus::InProgress }
    }

    /// Takes note of bytes that did transit.
    pub fn record_bytes(&mut self, num_bytes: u64)
        requires
            old(self).downloaded_bytes + num_bytes <= u64::MAX,
        ensures
            *final(self) == (DownloadMetricsGuard {
                downloaded_bytes: (old(self).downloaded_bytes + num_bytes) as u64,
                ..*old(self)
            }),
    {
        self.downloaded_bytes = self.downloaded_bytes + num_bytes;
    }

    /// Takes note of how the download went.
    pub fn set_status(&mut self, status: DownloadStatus)
        ensures
            *final(self) == (DownloadMetricsGuard { status, ..*old(self) }),
    {
        self.status = status;
    }

    /// Ends the download, complete or not. Returns the updates to make.
    pub fn finish(self) -> (updates: Vec<MetricUpdate>)
        ensures
            update_models(updates@) == download_updates(
                self.downloaded_bytes,
                self.kind,
                self.status.error(),
            ),
    {
        let error_opt: Option<&'static str> = match self.status {
            DownloadStatus::InProgress => Some("cancelled"),
            DownloadStatus::Failed(error) => Some(error),
            DownloadStatus::Done => None,
        };
        let kind = self.kind.as_str();
        let mut updates: Vec<MetricUpdate> = Vec::new();
        let outcome = match error_opt {
            Some(error) => error,
            None => "success",
        };
        updates.push(
            MetricUpdate::DownloadNumBytes { outcome, kind, num_bytes: self.downloaded_bytes },
        );
        if let Some(error) = error_opt {
            updates.push(MetricUpdate::DownloadErrors { error, kind });
        }
        proof {
            assert(update_models(updates@) =~= download_updates(
                self.downloaded_bytes,
                self.kind,
                self.status.error(),
            ));
        }
        updates
    }
}

/// Kinds of input/output errors.
#[derive(Clone, Copy, Debug, PartialEq, Eq, Structural)]
pub enum IoErrorKind {
    AddrInUse,
    AddrNotAvailable,
    AlreadyExists,
    ArgumentListTooLong,
    BrokenPipe,
    ConnectionAborted,
    ConnectionRefused,
    ConnectionReset,
    CrossesDevices,
    Deadlock,
    DirectoryNotEmpty,
    ExecutableFileBusy,
    FileTooLarge,
    HostUnreachable,
    Interrupted,
    InvalidData,
    InvalidFilename,
    InvalidInput,
    IsADirectory,
    NetworkDown,
    NetworkUnreachable,
    NotADirectory,
    NotConnected,
    NotFound,
    NotSeekable,
    Other,
    OutOfMemory,
    PermissionDenied,
    QuotaExceeded,
    ReadOnlyFilesystem,
    ResourceBusy,
    StaleNetworkFileHandle,
    StorageFull,
    TimedOut,
    TooManyLinks,
    UnexpectedEof,
    Unsupported,
    WouldBlock,
    WriteZero,
    Uncategorized,
}

impl IoErrorKind {
    /// The label of the kind.
    pub open spec fn label(self) -> Seq<char> {
        match self {
            IoErrorKind::AddrInUse => "addr_in_use"@,
            IoErrorKind::AddrNotAvailable => "addr_not_available"@,
            IoErrorKind::AlreadyExists => "already_exists"@,
            IoErrorKind::ArgumentListTooLong => "argument_list_too_long"@,
            IoErrorKind::BrokenPipe => "broken_pipe"@,
            IoErrorKind::ConnectionAborted => "connection_aborted"@,
            IoErrorKind::ConnectionRefused => "connection_refused"@,
            IoErrorKind::ConnectionReset => "connection_reset"@,
            IoErrorKind::CrossesDevices => "crosses_devices"@,
            IoErrorKind::Deadlock => "deadlock"@,
            IoErrorKind::DirectoryNotEmpty => "directory_not_empty"@,
            IoErrorKind::ExecutableFileBusy => "executable_file_busy"@,
            IoErrorKind::FileTooLarge => "file_too_large"@,
            IoErrorKind::HostUnreachable => "host_unreachable"@,
            IoErrorKind::Interrupted => "interrupted"@,
            IoErrorKind::InvalidData => "invalid_data"@,
            IoErrorKind::InvalidFilename => "invalid_filename"@,
            IoErrorKind::InvalidInput => "invalid_input"@,
            IoErrorKind::IsADirectory => "is_a_directory"@,
            IoErrorKind::NetworkDown => "network_down"@,
            IoErrorKind::NetworkUnreachable => "network_unreachable"@,
            IoErrorKind::NotADirectory => "not_a_directory"@,
            IoErrorKind::NotConnected => "not_connected"@,
            IoErrorKind::NotFound => "not_found"@,
            IoErrorKind::NotSeekable => "not_seekable"@,
            IoErrorKind::Other => "other"@,
            IoErrorKind::OutOfMemory => "out_of_memory"@,
            IoErrorKind::PermissionDenied => "permission_denied"@,
            IoErrorKind::QuotaExceeded => "quota_exceeded"@,
            IoErrorKind::ReadOnlyFilesystem => "read_only_filesystem"@,
            IoErrorKind::ResourceBusy => "resource_busy"@,
            IoErrorKind::StaleNetworkFileHandle => "stale_network_file_handle"@,
            IoErrorKind::StorageFull => "storage_full"@,
            IoErrorKind::TimedOut => "timed_out"@,
            IoErrorKind::TooManyLinks => "too_many_links"@,
            IoErrorKind::UnexpectedEof => "unexpected_eof"@,
            IoErrorKind::Unsupported => "unsupported"@,
            IoErrorKind::WouldBlock => "would_block"@,
            IoErrorKind::WriteZero => "write_zero"@,
            IoErrorKind::Uncategorized => "uncategorized"@,
        }
    }
}

/// Returns the label of a kind of errors. Most of these are not expected to happen.
pub fn io_error_as_label(error: IoErrorKind) -> (label: &'static str)
    ensures
        label@ == error.label(),
{
    match error {
        IoErrorKind::AddrInUse => "addr_in_use",
        IoErrorKind::AddrNotAvailable => "addr_not_available",
        IoErrorKind::AlreadyExists => "already_exists",
        IoErrorKind::ArgumentListTooLong => "argument_list_too_long",
        IoErrorKind::BrokenPipe => "broken_pipe",
        IoErrorKind::ConnectionAborted => "connection_aborted",
        IoErrorKind::ConnectionRefused => "connection_refused",
        IoErrorKind::ConnectionReset => "connection_reset",
        IoErrorKind::CrossesDevices => "crosses_devices",
        IoErrorKind::Deadlock => "deadlock",
        IoErrorKind::DirectoryNotEmpty => "directory_not_empty",
        IoErrorKind::ExecutableFileBusy => "executable_file_busy",
        IoErrorKind::FileTooLarge => "file_too_large",
        IoErrorKind::HostUnreachable => "host_unreachable",
        IoErrorKind::Interrupted => "interrupted",
        IoErrorKind::InvalidData => "invalid_data",
        IoErrorKind::InvalidFilename => "invalid_filename",
        IoErrorKind::InvalidInput => "invalid_input",
        IoErrorKind::IsADirectory => "is_a_directory",
        IoErrorKind::NetworkDown => "network_down",
        IoErrorKind::NetworkUnreachable => "network_unreachable",
        IoErrorKind::NotADirectory => "not_a_directory",
        IoErrorKind::NotConnected => "not_connected",
        IoErrorKind::NotFound => "not_found",
        IoErrorKind::NotSeekable => "not_seekable",
        IoErrorKind::Other => "other",
        IoErrorKind::OutOfMemory => "out_of_memory",
        IoErrorKind::PermissionDenied => "permission_denied",
        IoErrorKind::QuotaExceeded => "quota_exceeded",
        IoErrorKind::ReadOnlyFilesystem => "read_only_filesystem",
        IoErrorKind::ResourceBusy => "resource_busy",
        IoErrorKind::StaleNetworkFileHandle => "stale_network_file_handle",
        IoErrorKind::StorageFull => "storage_full",
        IoErrorKind::TimedOut => "timed_out",
        IoErrorKind::TooManyLinks => "too_many_links",
        IoErrorKind::UnexpectedEof => "unexpected_eof",
        IoErrorKind::Unsupported => "unsupported",
        IoErrorKind::WouldBlock => "would_block",
        IoErrorKind::WriteZero => "write_zero",
        IoErrorKind::Uncategorized => "uncategorized",
    }
}

/// What happened to a copy.
#[derive(Clone, Copy, Debug)]
pub enum CopyEvent {
    /// The reader has this many bytes available, or none at the end.
    BufferFilled(usize),
    /// The writer took this many bytes of the buffer.
    Written(usize),
    /// The writer was flushed.
    Flushed,
    /// The reader or the writer failed.
    Failed(IoErrorKind),
}

/// What to do next about a copy.
#[derive(Clone, Copy, Debug, PartialEq, Eq, Structural)]
pub enum CopyAction {
    /// Ask the reader for a buffer.
    FillBuffer,
    /// Offer the buffer to the writer.
    Write,
    /// Consume this many bytes of the reader, then ask it for a buffer.
    Consume(usize),
    /// Flush the writer.
    Flush,
    /// The copy is complete: this many bytes were copied.
    Done(u64),
    /// The copy failed.
    Fail(IoErrorKind),
}

/// A copy from a reader to a writer that tracks the number of bytes transferred.
#[derive(Clone, Copy, Debug, PartialEq, Eq, Structural)]
pub struct CopyBuf {
    /// Bytes copied so far.
    pub amt: u64,
}

impl CopyBuf {
    /// A copy that starts by filling a buffer.
    pub fn new() -> (copy: CopyBuf)
        ensures
            copy.amt == 0,
    {
        CopyBuf { amt: 0 }
    }

    /// The bytes copied once `event` has happened.
    pub open spec fn amt_after(self, event: CopyEvent) -> int {
        match event {
            CopyEvent::Written(n) => self.amt + n,
            _ => self.amt as int,
        }
    }

    /// Decides what to do after an event: write what is available, flush at the end, and go on
    /// with the next buffer. A writer that takes nothing has failed.
    pub fn on_event(&mut self, event: CopyEvent) -> (action: CopyAction)
        requires
            old(self).amt_after(event) <= u64::MAX,
        ensures
            final(self).amt == old(self).amt_after(event),
            action == match event {
                CopyEvent::BufferFilled(available) => if available == 0 {
                    CopyAction::Flush
                } else {
                    CopyAction::Write
                },
                CopyEvent::Written(n) => if n == 0 {
                    CopyAction::Fail(IoErrorKind::WriteZero)
                } else {
                    CopyAction::Consume(n)
                },
                CopyEvent::Flushed => CopyAction::Done(old(self).amt),
                CopyEvent::Failed(error) => CopyAction::Fail(error),
            },
    {
        match event {
            CopyEvent::BufferFilled(available) => {
                if available == 0 {
                    CopyAction::Flush
                } else {
                    CopyAction::Write
                }
            },
            CopyEvent::Written(n) => {
                if n == 0 {
                    CopyAction::Fail(IoErrorKind::WriteZero)
                } else {
                    self.amt = self.amt + n as u64;
                    CopyAction::Consume(n)
                }
            },
            CopyEvent::Flushed => CopyAction::Done(self.amt),
            CopyEvent::Failed(error) => CopyAction::Fail(error),
        }
    }
}

/// The bytes that some events copied.
pub open spec fn total_written(events: Seq<CopyEvent>) -> nat
    decreases events.len(),
{
    if events.len() == 0 {
        0
    } else {
        total_written(events.drop_last()) + match events.last() {
            CopyEvent::Written(n) => n as nat,
            _ => 0,
        }
    }
}

/// A copy after some events.
pub open spec fn copy_after(copy: CopyBuf, events: Seq<CopyEvent>) -> CopyBuf
    decreases events.len(),
{
    if events.len() == 0 {
        copy
    } else {
        CopyBuf { amt: copy_after(copy, events.drop_last()).amt_after(events.last()) as u64 }
    }
}

/// Whatever happens, a copy knows how many bytes the writer took.
pub proof fn law_copy_tracks_written_bytes(events: Seq<CopyEvent>)
    requires
        total_written(events) <= u64::MAX,
    ensures
        copy_after(CopyBuf { amt: 0 }, events).amt == total_written(events),
    decreases events.len(),
{
    if events.len() > 0 {
        law_copy_tracks_written_bytes(events.drop_last());
    }
}

/// Tracks a download that is copied to a writer.
pub struct DownloadMetricsWrapper {
    pub inner: CopyBuf,
    pub metrics_guard: DownloadMetricsGuard,
}

impl DownloadMetricsWrapper {
    /// A copy that starts.
    pub fn new(kind: DownloadKind) -> (wrapper: DownloadMetricsWrapper)
        ensures
            wrapper.inner.amt == 0,
            wrapper.metrics_guard == (DownloadMetricsGuard {
                downloaded_bytes: 0,
                kind,
                status: DownloadStatus::InProgress,
            }),
    {
        DownloadMetricsWrapper {
            inner: CopyBuf::new(),
            metrics_guard: DownloadMetricsGuard::new(kind),
        }
    }

    /// Decides what to do after an event, and takes note of how the download went once the copy
    /// has ended.
    pub fn on_event(&mut self, event: CopyEvent) -> (action: CopyAction)
        requires
            old(self).inner.amt_after(event) <= u64::MAX,
        ensures
            final(self).inner.amt == old(self).inner.amt_after(event),
            final(self).metrics_guard.kind == old(self).metrics_guard.kind,
            final(self).metrics_guard.downloaded_bytes == old(self).metrics_guard.downloaded_bytes,
            action == match event {
                CopyEvent::BufferFilled(available) => if available == 0 {
                    CopyAction::Flush
                } else {
                    CopyAction::Write
                },
                CopyEvent::Written(n) => if n == 0 {
                    CopyAction::Fail(IoErrorKind::WriteZero)
                } else {
                    CopyAction::Consume(n)
                },
                CopyEvent::Flushed => CopyAction::Done(old(self).inner.amt),
                CopyEvent::Failed(error) => CopyAction::Fail(error),
            },
            match action {
                CopyAction::Done(_) => final(self).metrics_guard.status is Done,
                CopyAction::Fail(error) => {
                    &&& final(self).metrics_guard.status matches DownloadStatus::Failed(label)
                    &&& label@ == error.label()
                },
                _ => final(self).metrics_guard.status == old(self).metrics_guard.status,
            },
    {
        let action = self.inner.on_event(event);
        match action {
            CopyAction::Done(_) => {
                self.metrics_guard.set_status(DownloadStatus::Done);
            },
            CopyAction::Fail(error) => {
                self.metrics_guard.set_status(DownloadStatus::Failed(io_error_as_label(error)));
            },
            _ => {},
        }
        action
    }

    /// Ends the download, complete or not. Returns the updates to make.
    pub fn finish(self) -> (updates: Vec<MetricUpdate>)
        ensures
            update_models(updates@) == download_updates(
                self.inner.amt,
                self.metrics_guard.kind,
                self.metrics_guard.status.error(),
            ),
    {
        let mut guard = self.metrics_guard;
        guard.downloaded_bytes = self.inner.amt;
        guard.finish()
    }
}

/// The growable buffer of the `bytes` crate.
#[verifier::external_type_specification]
#[verifier::external_body]
pub struct ExBytesMut(bytes::BytesMut);

/// The bytes that a [`bytes::BytesMut`] holds.
pub uninterp spec fn buffer_content(buffer: bytes::BytesMut) -> Seq<u8>;

/// [`bytes::Bytes::new`]: no bytes.
#[verifier::external_body]
fn bytes_empty() -> (bytes: bytes::Bytes)
    ensures
        stable_deref_bytes::bytes_content(bytes).len() == 0,
{
    bytes::Bytes::new()
}

/// [`bytes::BytesMut::with_capacity`]: an empty buffer.
#[verifier::external_body]
fn buffer_with_capacity(capacity: usize) -> (buffer: bytes::BytesMut)
    requires
        capacity <= isize::MAX,
    ensures
        buffer_content(buffer).len() == 0,
{
    bytes::BytesMut::with_capacity(capacity)
}

/// [`bytes::BytesMut::extend_from_slice`]: appends bytes.
#[verifier::external_body]
fn buffer_extend(buffer: &mut bytes::BytesMut, slice: &[u8])
    requires
        buffer_content(*old(buffer)).len() + slice@.len() <= isize::MAX,
    ensures
        buffer_content(*final(buffer)) == buffer_content(*old(buffer)) + slice@,
{
    buffer.extend_from_slice(slice)
}

/// [`bytes::BytesMut::freeze`]: the bytes of the buffer.
#[verifier::external_body]
fn buffer_freeze(buffer: bytes::BytesMut) -> (bytes: bytes::Bytes)
    ensures
        stable_deref_bytes::bytes_content(bytes) == buffer_content(buffer),
{
    buffer.freeze()
}

/// The bytes of several segments, one after the other.
pub open spec fn concatenated(segments: Seq<bytes::Bytes>) -> Seq<u8>
    decreases segments.len(),
{
    if segments.len() == 0 {
        Seq::empty()
    } else {
        concatenated(segments.drop_last()) + stable_deref_bytes::bytes_content(segments.last())
    }
}

proof fn lemma_concatenated_take(segments: Seq<bytes::Bytes>, n: int)
    requires
        0 <= n <= segments.len(),
    ensures
        concatenated(segments.take(n)).len() <= concatenated(segments).len(),
    decreases segments.len(),
{
    if n < segments.len() {
        lemma_concatenated_take(segments.drop_last(), n);
        assert(segments.drop_last().take(n) =~= segments.take(n));
    } else {
        assert(segments.take(n) =~= segments);
    }
}

/// Returns a single [`bytes::Bytes`] covering `segments`. Zero-copy when there is at most one
/// segment; otherwise a single allocation, of `total_num_bytes` bytes, concatenates them.
pub fn coalesce_segments(segments: Vec<bytes::Bytes>, total_num_bytes: usize) -> (coalesced:
    bytes::Bytes)
    requires
        total_num_bytes <= isize::MAX,
        concatenated(segments@).len() <= isize::MAX,
    ensures
        stable_deref_bytes::bytes_content(coalesced) == concatenated(segments@),
        segments@.len() == 1 ==> coalesced == segments@[0],
{
    let mut segments = segments;
    if segments.len() == 0 {
        let coalesced = bytes_empty();
        proof {
            assert(stable_deref_bytes::bytes_content(coalesced) =~= concatenated(segments@));
        }
        return coalesced;
    }
    if segments.len() == 1 {
        proof {
            assert(concatenated(segments@.drop_last()) =~= Seq::empty());
            assert(segments@.last() == segments@[0]);
            assert(concatenated(segments@) =~= stable_deref_bytes::bytes_content(segments@[0]));
        }
        return segments.remove(0);
    }
    let mut out = buffer_with_capacity(total_num_bytes);
    proof {
        assert(buffer_content(out) =~= concatenated(segments@.take(0)));
    }
    for i in 0..segments.len()
        invariant
            concatenated(segments@).len() <= isize::MAX,
            buffer_content(out) == concatenated(segments@.take(i as int)),
    {
        proof {
            assert(segments@.take(i + 1).drop_last() =~= segments@.take(i as int));
            lemma_concatenated_take(segments@, i + 1);
        }
        buffer_extend(&mut out, bytes_as_slice(&segments[i]));
    }
    proof {
        assert(segments@.take(segments@.len() as int) =~= segments@);
    }
    buffer_freeze(out)
}

/// Collects a response body into memory, recording the same metrics as a copy.
///
/// The body segments are kept as they arrive and only coalesced at the very end. When the whole
/// body arrived as a single segment, the payload is handed over without ever being copied.
pub struct BodyCollector {
    metrics_guard: DownloadMetricsGuard,
    segments: Vec<bytes::Bytes>,
    total_num_bytes: usize,
}

impl BodyCollector {
    /// The segments received so far.
    pub closed spec fn received(self) -> Seq<bytes::Bytes> {
        self.segments@
    }

    /// What is to be downloaded.
    pub closed spec fn kind(self) -> DownloadKind {
        self.metrics_guard.kind
    }

    /// How far the download is.
    pub closed spec fn status(self) -> DownloadStatus {
        self.metrics_guard.status
    }

    /// The counts are those of the segments received, which fit in memory.
    pub closed spec fn wf(self) -> bool {
        &&& self.total_num_bytes == concatenated(self.segments@).len()
        &&& self.metrics_guard.downloaded_bytes == self.total_num_bytes
        &&& self.total_num_bytes <= isize::MAX
    }

    /// A download that starts.
    pub fn new(kind: DownloadKind) -> (collector: BodyCollector)
        ensures
            collector.wf(),
            collector.received() == Seq::<bytes::Bytes>::empty(),
            collector.kind() == kind,
            collector.status() is InProgress,
    {
        BodyCollector {
            metrics_guard: DownloadMetricsGuard::new(kind),
            segments: Vec::new(),
            total_num_bytes: 0,
        }
    }

    /// Takes one more segment.
    pub fn on_segment(&mut self, segment: bytes::Bytes)
        requires
            old(self).wf(),
            concatenated(old(self).received()).len() + stable_deref_bytes::bytes_content(
                segment,
            ).len() <= isize::MAX,
        ensures
            final(self).wf(),
            final(self).received() == old(self).received().push(segment),
            final(self).kind() == old(self).kind(),
            final(self).status() == old(self).status(),
    {
        let len: usize = bytes_as_slice(&segment).len();
        let ghost before = self.segments@;
        self.metrics_guard.record_bytes(len as u64);
        self.total_num_bytes = self.total_num_bytes + len;
        self.segments.push(segment);
        proof {
            assert(self.segments@.drop_last() =~= before);
        }
    }

    /// Ends a download that failed: the body could not be read to its end. Returns the updates to
    /// make.
    pub fn fail(self) -> (updates: Vec<MetricUpdate>)
        requires
            self.wf(),
        ensures
            update_models(updates@) == download_updates(
                concatenated(self.received()).len() as u64,
                self.kind(),
                Some("other"@),
            ),
    {
        let mut guard = self.metrics_guard;
        guard.set_status(DownloadStatus::Failed(io_error_as_label(IoErrorKind::Other)));
        guard.finish()
    }

    /// Ends a download whose body was read to its end. Returns the body, and the updates to make.
    pub fn complete(self) -> (outcome: (bytes::Bytes, Vec<MetricUpdate>))
        requires
            self.wf(),
        ensures
            stable_deref_bytes::bytes_content(outcome.0) == concatenated(self.received()),
            update_models(outcome.1@) == download_updates(
                concatenated(self.received()).len() as u64,
                self.kind(),
                None,
            ),
    {
        let mut guard = self.metrics_guard;
        guard.set_status(DownloadStatus::Done);
        (coalesce_segments(self.segments, self.total_num_bytes), guard.finish())
    }

    /// Ends a download that was given up. Returns the updates to make.
    pub fn cancel(self) -> (updates: Vec<MetricUpdate>)
        requires
            self.wf(),
            self.status() is InProgress,
        ensures
            update_models(updates@) == download_updates(
                concatenated(self.received()).len() as u64,
                self.kind(),
                Some("cancelled"@),
            ),
    {
        self.metrics_guard.finish()
    }
}

/// Counts a request of this action with unknown status.
pub fn record_request(action: ActionLabel) -> (update: MetricUpdate)
    ensures
        update@ == (UpdateModel::RequestsTotal { action: action.label(), status: "unknown"@ }),
{
    MetricUpdate::RequestsTotal { action: action.as_str(), status: "unknown".to_owned() }
}

/// Counts an upload volume with unknown status.
pub fn record_upload(bytes: u64) -> (update: MetricUpdate)
    ensures
        update@ == (UpdateModel::UploadNumBytes { status: "unknown"@, num_bytes: bytes }),
{
    MetricUpdate::UploadNumBytes { status: "unknown".to_owned(), num_bytes: bytes }
}

/// Counts a download volume with unknown status.
pub fn record_download(bytes: u64, kind: DownloadKind) -> (update: MetricUpdate)
    ensures
        update@ == (UpdateModel::DownloadNumBytes {
            outcome: "unknown"@,
            kind: kind.label(),
            num_bytes: bytes,
        }),
{
    MetricUpdate::DownloadNumBytes { outcome: "unknown", kind: kind.as_str(), num_bytes: bytes }
}

/// Counts a request of this action with unknown status, and starts a timer for its duration.
pub fn record_request_with_timer(action: ActionLabel) -> (updates: Vec<MetricUpdate>)
    ensures
        update_models(updates@) == seq![
            UpdateModel::RequestsTotal { action: action.label(), status: "unknown"@ },
            UpdateModel::RequestTimerStarted { action: action.label(), status: "unknown"@ },
        ],
{
    let mut updates: Vec<MetricUpdate> = Vec::new();
    updates.push(record_request(action));
    updates.push(
        MetricUpdate::RequestTimerStarted {
            action: action.as_str(),
            status: "unknown".to_owned(),
        },
    );
    proof {
        assert(update_models(updates@) =~= seq![
            UpdateModel::RequestsTotal { action: action.label(), status: "unknown"@ },
            UpdateModel::RequestTimerStarted { action: action.label(), status: "unknown"@ },
        ]);
    }
    updates
}

/// Every download reports the bytes that did transit exactly once, and reports an error unless it
/// completed.
pub proof fn law_download_is_reported_once(num_bytes: u64, kind: DownloadKind, status: DownloadStatus)
    ensures
        ({
            let updates = download_updates(num_bytes, kind, status.error());
            &&& updates[0] matches UpdateModel::DownloadNumBytes { outcome: _, kind: k, num_bytes: n }
            &&& k == kind.label()
            &&& n == num_bytes
            &&& updates.len() == if status is Done {
                1int
            } else {
                2
            }
            &&& status !is Done ==> updates[1] is DownloadErrors
        }),
{
}

/// A request that ends is reported once, unless there is nothing to record: counted first, then with
/// the time since it started, if it is timed, then with the bytes it uploaded, if any, all under the
/// same status, which is that of the answer, or "cancelled" without one.
pub proof fn law_request_is_reported_once<F>(
    action: ActionLabel,
    start: Option<u64>,
    uploaded_bytes: Option<u64>,
    status: StatusModel,
    now: u64,
)
    ensures
        ({
            let updates = RequestMetricsWrapper::<F>::updates(
                action,
                start,
                uploaded_bytes,
                status,
                now,
            );
            let label = match status {
                StatusModel::Ready(label) => label,
                _ => "cancelled"@,
            };
            let num_timed: int = if start is Some {
                1
            } else {
                0
            };
            let num_uploaded: int = if uploaded_bytes is Some {
                1
            } else {
                0
            };
            &&& status is Done ==> updates.len() == 0
            &&& status !is Done ==> {
                &&& updates.len() == 1 + num_timed + num_uploaded
                &&& updates[0] == (UpdateModel::RequestsTotal {
                    action: action.label(),
                    status: label,
                })
                &&& start is Some ==> {
                    &&& updates[1] matches UpdateModel::RequestDuration {
                        action: timed,
                        status: timed_status,
                        elapsed_nanos,
                    }
                    &&& timed == action.label()
                    &&& timed_status == label
                    &&& now >= start->0 ==> start->0 + elapsed_nanos == now
                    &&& now < start->0 ==> elapsed_nanos == 0
                }
                &&& uploaded_bytes is Some ==> updates.last() == (UpdateModel::UploadNumBytes {
                    status: label,
                    num_bytes: uploaded_bytes->0,
                })
            }
        }),
{
}

/// A download that ends is reported under the outcome "success" if it completed, "cancelled" if it
/// was given up, and otherwise its error, which is then counted as an error too.
pub proof fn law_download_outcome(
    num_bytes: u64,
    kind: DownloadKind,
    status: DownloadStatus,
)
    ensures
        ({
            let updates = download_updates(num_bytes, kind, status.error());
            let outcome = match status {
                DownloadStatus::Done => "success"@,
                DownloadStatus::InProgress => "cancelled"@,
                DownloadStatus::Failed(error) => error@,
            };
            &&& updates[0] == (UpdateModel::DownloadNumBytes {
                outcome,
                kind: kind.label(),
                num_bytes,
            })
            &&& status is Done ==> updates.len() == 1
            &&& status !is Done ==> updates.len() == 2 && updates[1] == (
            UpdateModel::DownloadErrors { error: outcome, kind: kind.label() })
        }),
{
}

/// A copy grows by what the writer took, and by nothing else.
pub proof fn law_only_writes_are_copied(copy: CopyBuf, event: CopyEvent)
    ensures
        event matches CopyEvent::Written(n) ==> copy.amt_after(event) - copy.amt == n,
        event !is Written ==> copy.amt_after(event) == copy.amt,
{
}

/// The bytes of segments follow each other, each segment in full.
pub proof fn law_segments_follow_each_other(
    a: Seq<bytes::Bytes>,
    b: Seq<bytes::Bytes>,
    segment: bytes::Bytes,
)
    ensures
        concatenated(a + b) == concatenated(a) + concatenated(b),
        concatenated(seq![segment]) == stable_deref_bytes::bytes_content(segment),
        concatenated(Seq::empty()) == Seq::<u8>::empty(),
    decreases b.len(),
{
    reveal_with_fuel(concatenated, 2);
    let single = seq![segment];
    assert(single.drop_last() =~= Seq::empty());
    assert(concatenated(single) =~= stable_deref_bytes::bytes_content(segment));
    if b.len() == 0 {
        assert(a + b =~= a);
        assert(concatenated(a) + concatenated(b) =~= concatenated(a));
    } else {
        law_segments_follow_each_other(a, b.drop_last(), segment);
        assert((a + b).drop_last() =~= a + b.drop_last());
        assert((a + b).last() == b.last());
        assert(concatenated(a + b) =~= concatenated(a) + concatenated(b));
    }
}

/// Each action and each kind of download goes by its name, in lower case with underscores.
pub proof fn law_actions_go_by_their_names()
    ensures
        ActionLabel::AbortMultipartUpload.label() == "abort_multipart_upload"@,
        ActionLabel::CompleteMultipartUpload.label() == "complete_multipart_upload"@,
        ActionLabel::CreateMultipartUpload.label() == "create_multipart_upload"@,
        ActionLabel::DeleteObject.label() == "delete_object"@,
        ActionLabel::DeleteObjects.label() == "delete_objects"@,
        ActionLabel::GetObject.label() == "get_object"@,
        ActionLabel::HeadObject.label() == "head_object"@,
        ActionLabel::ListObjects.label() == "list_objects"@,
        ActionLabel::PutObject.label() == "put_object"@,
        ActionLabel::UploadPart.label() == "upload_part"@,
        DownloadKind::Object.label() == "object"@,
        DownloadKind::Slice.label() == "slice"@,
{
}

/// Each kind of error goes by its name, in lower case with underscores.
pub proof fn law_errors_go_by_their_names()
    ensures
        IoErrorKind::AddrInUse.label() == "addr_in_use"@,
        IoErrorKind::AddrNotAvailable.label() == "addr_not_available"@,
        IoErrorKind::AlreadyExists.label() == "already_exists"@,
        IoErrorKind::ArgumentListTooLong.label() == "argument_list_too_long"@,
        IoErrorKind::BrokenPipe.label() == "broken_pipe"@,
        IoErrorKind::ConnectionAborted.label() == "connection_aborted"@,
        IoErrorKind::ConnectionRefused.label() == "connection_refused"@,
        IoErrorKind::ConnectionReset.label() == "connection_reset"@,
        IoErrorKind::CrossesDevices.label() == "crosses_devices"@,
        IoErrorKind::Deadlock.label() == "deadlock"@,
        IoErrorKind::DirectoryNotEmpty.label() == "directory_not_empty"@,
        IoErrorKind::ExecutableFileBusy.label() == "executable_file_busy"@,
        IoErrorKind::FileTooLarge.label() == "file_too_large"@,
        IoErrorKind::HostUnreachable.label() == "host_unreachable"@,
        IoErrorKind::Interrupted.label() == "interrupted"@,
        IoErrorKind::InvalidData.label() == "invalid_data"@,
        IoErrorKind::InvalidFilename.label() == "invalid_filename"@,
        IoErrorKind::InvalidInput.label() == "invalid_input"@,
        IoErrorKind::IsADirectory.label() == "is_a_directory"@,
        IoErrorKind::NetworkDown.label() == "network_down"@,
        IoErrorKind::NetworkUnreachable.label() == "network_unreachable"@,
        IoErrorKind::NotADirectory.label() == "not_a_directory"@,
        IoErrorKind::NotConnected.label() == "not_connected"@,
        IoErrorKind::NotFound.label() == "not_found"@,
        IoErrorKind::NotSeekable.label() == "not_seekable"@,
        IoErrorKind::Other.label() == "other"@,
        IoErrorKind::OutOfMemory.label() == "out_of_memory"@,
        IoErrorKind::PermissionDenied.label() == "permission_denied"@,
        IoErrorKind::QuotaExceeded.label() == "quota_exceeded"@,
        IoErrorKind::ReadOnlyFilesystem.label() == "read_only_filesystem"@,
        IoErrorKind::ResourceBusy.label() == "resource_busy"@,
        IoErrorKind::StaleNetworkFileHandle.label() == "stale_network_file_handle"@,
        IoErrorKind::StorageFull.label() == "storage_full"@,
        IoErrorKind::TimedOut.label() == "timed_out"@,
        IoErrorKind::TooManyLinks.label() == "too_many_links"@,
        IoErrorKind::UnexpectedEof.label() == "unexpected_eof"@,
        IoErrorKind::Unsupported.label() == "unsupported"@,
        IoErrorKind::WouldBlock.label() == "would_block"@,
        IoErrorKind::WriteZero.label() == "write_zero"@,
        IoErrorKind::Uncategorized.label() == "uncategorized"@,
{
}

/// A result of a client that is a success is recorded as such. An error that comes from the service
/// is recorded by what the service said, where it said anything, and any other error by its kind. The
/// end of a stream of requests is not recorded.
pub proof fn law_status_tells_the_error<R>(
    s3: Result<R, S3Error>,
    azure: Result<R, AzureError>,
)
    ensures
        s3 is Ok ==> s3.status_model() == StatusModel::Ready("success"@),
        s3 matches Err(S3Error::ServiceError { code: Some(code) }) ==> s3.status_model()
            == StatusModel::Ready(code@),
        s3 matches Err(S3Error::ServiceError { code: None }) ==> s3.status_model()
            == StatusModel::Ready("unknown_service_error"@),
        s3 matches Err(S3Error::ConstructionFailure) ==> s3.status_model() == StatusModel::Ready(
            "construction_failure"@,
        ),
        s3 matches Err(S3Error::TimeoutError) ==> s3.status_model() == StatusModel::Ready(
            "timeout_error"@,
        ),
        s3 matches Err(S3Error::DispatchFailure) ==> s3.status_model() == StatusModel::Ready(
            "dispatch_failure"@,
        ),
        s3 matches Err(S3Error::ResponseError) ==> s3.status_model() == StatusModel::Ready(
            "response_error"@,
        ),
        s3 matches Err(S3Error::Other) ==> s3.status_model() == StatusModel::Ready("unknown"@),
        azure is Ok ==> azure.status_model() == StatusModel::Ready("success"@),
        azure matches Err(AzureError::HttpResponse { status }) ==> azure.status_model()
            == StatusModel::Ready(status@),
        azure matches Err(AzureError::Credential) ==> azure.status_model() == StatusModel::Ready(
            "credential"@,
        ),
        azure matches Err(AzureError::Io) ==> azure.status_model() == StatusModel::Ready("io"@),
        azure matches Err(AzureError::DataConversion) ==> azure.status_model()
            == StatusModel::Ready("data_conversion"@),
        azure matches Err(AzureError::Other) ==> azure.status_model() == StatusModel::Ready(
            "unknown"@,
        ),
        Some(azure).status_model() == azure.status_model(),
        None::<Result<R, AzureError>>.status_model() is Done,
{
}

/// The model of updates holds each of them, in order, with all its parts.
pub proof fn law_update_models_hold_everything(updates: Seq<MetricUpdate>, i: int)
    requires
        0 <= i < updates.len(),
    ensures
        update_models(updates).len() == updates.len(),
        match updates[i] {
            MetricUpdate::RequestsTotal { action, status } => update_models(updates)[i] == (
            UpdateModel::RequestsTotal { action: action@, status: status@ }),
            MetricUpdate::RequestDuration { action, status, elapsed_nanos } => update_models(
                updates,
            )[i] == (UpdateModel::RequestDuration {
                action: action@,
                status: status@,
                elapsed_nanos,
            }),
            MetricUpdate::RequestTimerStarted { action, status } => update_models(updates)[i] == (
            UpdateModel::RequestTimerStarted { action: action@, status: status@ }),
            MetricUpdate::UploadNumBytes { status, num_bytes } => update_models(updates)[i] == (
            UpdateModel::UploadNumBytes { status: status@, num_bytes }),
            MetricUpdate::DownloadNumBytes { outcome, kind, num_bytes } => update_models(
                updates,
            )[i] == (UpdateModel::DownloadNumBytes {
                outcome: outcome@,
                kind: kind@,
                num_bytes,
            }),
            MetricUpdate::DownloadErrors { error, kind } => update_models(updates)[i] == (
            UpdateModel::DownloadErrors { error: error@, kind: kind@ }),
        },
{
}

} // verus!
