//! Errors and message bodies of the REST API, and the `/meta` answer.

use vstd::prelude::*;
use crate::jobs::JobSummary;
use crate::project::ProjectSummary;

verus! {

/// The HTTP class of a refused request.
#[derive(Clone, Copy, Debug, PartialEq, Eq, Structural)]
pub enum ApiErrorKind {
    /// 400.
    BadRequest,
    /// 404.
    NotFound,
    /// 500.
    Internal,
}

/// A refused request: its class and the text returned to the client.
pub struct ApiError {
    pub kind: ApiErrorKind,
    pub message: String,
}

impl ApiError {
    pub fn bad_request(message: String) -> (r: ApiError)
        ensures
            r.kind == ApiErrorKind::BadRequest,
            r.message == message,
    {
        ApiError { kind: ApiErrorKind::BadRequest, message }
    }

    pub fn not_found(message: String) -> (r: ApiError)
        ensures
            r.kind == ApiErrorKind::NotFound,
            r.message == message,
    {
        ApiError { kind: ApiErrorKind::NotFound, message }
    }

    pub fn internal(message: String) -> (r: ApiError)
        ensures
            r.kind == ApiErrorKind::Internal,
            r.message == message,
    {
        ApiError { kind: ApiErrorKind::Internal, message }
    }
}

/// The accelerator that inference runs on.
pub enum Backend {
    Cpu,
    Cuda,
    Rocm,
    Vulkan,
    Metal,
    /// Another accelerator, by name.
    Other(String),
}

/// The label `/meta` shows for an accelerator.
pub open spec fn backend_label(backend: Backend) -> Seq<char> {
    match backend {
        Backend::Cpu => "cpu"@,
        Backend::Cuda => "cuda"@,
        Backend::Rocm => "rocm"@,
        Backend::Vulkan => "vulkan"@,
        Backend::Metal => "metal"@,
        Backend::Other(name) => name@,
    }
}

/// The human-readable label of an accelerator.
pub fn ml_device_label(backend: &Backend) -> (r: String)
    ensures
        r@ == backend_label(*backend),
{
    match backend {
        Backend::Cpu => String::from_str("cpu"),
        Backend::Cuda => String::from_str("cuda"),
        Backend::Rocm => String::from_str("rocm"),
        Backend::Vulkan => String::from_str("vulkan"),
        Backend::Metal => String::from_str("metal"),
        Backend::Other(name) => name.clone(),
    }
}

/// The body of `GET /meta`.
pub struct MetaInfo {
    pub version: String,
    pub ml_device: String,
}

/// The server's version and the label of its accelerator.
pub fn meta_info(version: &String, backend: &Backend) -> (r: MetaInfo)
    ensures
        r.version == *version,
        r.ml_device@ == backend_label(*backend),
{
    MetaInfo { version: version.clone(), ml_device: ml_device_label(backend) }
}

/// The body of `GET /projects`.
pub struct ListProjectsResponse {
    pub projects: Vec<ProjectSummary>,
}

/// The body of `POST /projects`.
pub struct CreateProjectRequest {
    pub name: String,
}

/// The body of `PUT /projects/current`.
pub struct OpenProjectRequest {
    pub name: String,
}

/// The body of `PUT /config/providers/{id}/secret`.
pub struct ProviderSecretRequest {
    pub secret: String,
}

/// The body of `GET /operations`.
pub struct ListOperationsResponse<P> {
    pub operations: Vec<JobSummary<P>>,
}

/// The body that answers `POST /pipelines`.
pub struct StartPipelineResponse {
    pub operation_id: String,
}

/// The refusal when a request needs an open project and none is open.
pub fn no_project_open() -> (r: ApiError)
    ensures
        r.kind == ApiErrorKind::BadRequest,
        r.message@ == "no project open"@,
{
    ApiError::bad_request(String::from_str("no project open"))
}

/// The answer to `GET /projects/current` when no project is open.
pub fn no_current_project() -> (r: ApiError)
    ensures
        r.kind == ApiErrorKind::NotFound,
        r.message@ == "no project open"@,
{
    ApiError::not_found(String::from_str("no project open"))
}

} // verus!
