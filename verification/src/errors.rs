//! The errors of the library, and of an application on top of a meta-store.

use vstd::prelude::*;
use vstd::string::StringExecFns;

verus! {

/// `tonic::Status`, the outcome of a remote call. It is opaque here: what is read of it
/// goes through `status_code` and `status_message`.
#[verifier::external_type_specification]
#[verifier::external_body]
pub struct ExStatus(tonic::Status);

/// What `tonic::Status::code` returns, as a number.
pub uninterp spec fn code_of_status(status: tonic::Status) -> i32;

/// What `tonic::Status::message` returns.
pub uninterp spec fn message_of_status(status: tonic::Status) -> String;

/// Calls `tonic::Status::code` and turns the code into its number. The call reads the code
/// that the status holds, so the result depends on the status alone.
#[verifier::external_body]
fn status_code(status: &tonic::Status) -> (code: i32)
    ensures
        code == code_of_status(*status),
{
    i32::from(status.code())
}

/// Calls `tonic::Status::message` and copies the text. The call reads the text that the
/// status holds, so the result depends on the status alone.
#[verifier::external_body]
fn status_message(status: &tonic::Status) -> (message: String)
    ensures
        message == message_of_status(*status),
{
    status.message().to_string()
}

/// An error of the application, where nothing is wrong with the meta-store.
#[derive(Debug, Clone, PartialEq, Eq)]
pub struct AppError {
    pub message: String,
}

/// A reply of the meta-store service that cannot be understood.
#[derive(Debug, Clone, PartialEq, Eq)]
pub struct InvalidReply {
    pub message: String,
}

/// An error raised by an embedded meta-store.
#[derive(Debug, Clone, PartialEq, Eq)]
pub struct MetaStorageError {
    pub message: String,
}

/// An error that comes up when a client of the meta-store service is created.
#[derive(Debug, Clone, PartialEq, Eq)]
pub struct MetaClientError {
    pub message: String,
}

/// An error that the meta-store service returns.
#[derive(Debug, Clone, PartialEq, Eq)]
pub struct MetaAPIError {
    pub message: String,
}

/// An error that comes up when a call is sent to the meta-store service, or its reply received.
#[derive(Debug, Clone, PartialEq, Eq)]
pub enum MetaNetworkError {
    /// No connection.
    Connection(String),
    /// The remote call ended with this status.
    Status { code: i32, message: String },
    /// The reply cannot be understood.
    InvalidReply(InvalidReply),
}

/// An error in the access to the meta-store.
#[derive(Debug, Clone, PartialEq, Eq)]
pub enum MetaError {
    StorageError(MetaStorageError),
    ClientError(MetaClientError),
    NetworkError(MetaNetworkError),
    APIError(MetaAPIError),
}

/// Errors of an application that is based on a meta-store.
///
/// They fall into three kinds:
///
/// - application errors, which either kind of meta-store returns;
/// - errors raised by an embedded meta-store;
/// - errors that come up in the access to a remote meta-store service.
#[derive(Debug, Clone, PartialEq, Eq)]
pub enum KVAppError {
    /// Something is wrong in the application, but nothing with the meta-store.
    AppError(AppError),
    /// The meta-store cannot be accessed.
    MetaError(MetaError),
}

/// The error that the operations of the library report.
#[derive(Debug, Clone, PartialEq, Eq)]
pub enum ErrorCode {
    /// A state that should not come up.
    Internal(String),
    /// The arguments do not fit together.
    BadArguments(String),
    /// The storage failed.
    Storage(String),
    /// An application error.
    App(AppError),
    /// An error in the access to the meta-store.
    Meta(MetaError),
}

impl From<MetaStorageError> for MetaError {
    fn from(e: MetaStorageError) -> (r: Self) {
        Self::StorageError(e)
    }
}

impl vstd::std_specs::convert::FromSpecImpl<MetaStorageError> for MetaError {
    open spec fn obeys_from_spec() -> bool {
        true
    }

    open spec fn from_spec(e: MetaStorageError) -> Self {
        Self::StorageError(e)
    }
}

impl From<MetaClientError> for MetaError {
    fn from(e: MetaClientError) -> (r: Self) {
        Self::ClientError(e)
    }
}

impl vstd::std_specs::convert::FromSpecImpl<MetaClientError> for MetaError {
    open spec fn obeys_from_spec() -> bool {
        true
    }

    open spec fn from_spec(e: MetaClientError) -> Self {
        Self::ClientError(e)
    }
}

impl From<MetaNetworkError> for MetaError {
    fn from(e: MetaNetworkError) -> (r: Self) {
        Self::NetworkError(e)
    }
}

impl vstd::std_specs::convert::FromSpecImpl<MetaNetworkError> for MetaError {
    open spec fn obeys_from_spec() -> bool {
        true
    }

    open spec fn from_spec(e: MetaNetworkError) -> Self {
        Self::NetworkError(e)
    }
}

impl From<MetaAPIError> for MetaError {
    fn from(e: MetaAPIError) -> (r: Self) {
        Self::APIError(e)
    }
}

impl vstd::std_specs::convert::FromSpecImpl<MetaAPIError> for MetaError {
    open spec fn obeys_from_spec() -> bool {
        true
    }

    open spec fn from_spec(e: MetaAPIError) -> Self {
        Self::APIError(e)
    }
}

/// A reply that cannot be understood is an error in receiving it.
impl From<InvalidReply> for MetaError {
    fn from(e: InvalidReply) -> (r: Self) {
        Self::NetworkError(MetaNetworkError::InvalidReply(e))
    }
}

impl vstd::std_specs::convert::FromSpecImpl<InvalidReply> for MetaError {
    open spec fn obeys_from_spec() -> bool {
        true
    }

    open spec fn from_spec(e: InvalidReply) -> Self {
        Self::NetworkError(MetaNetworkError::InvalidReply(e))
    }
}

/// The status of a remote call is an error in sending or receiving it. Its code and its
/// message are kept.
impl From<tonic::Status> for MetaError {
    fn from(s: tonic::Status) -> (r: Self) {
        Self::NetworkError(
            MetaNetworkError::Status { code: status_code(&s), message: status_message(&s) },
        )
    }
}

impl vstd::std_specs::convert::FromSpecImpl<tonic::Status> for MetaError {
    open spec fn obeys_from_spec() -> bool {
        true
    }

    open spec fn from_spec(s: tonic::Status) -> Self {
        Self::NetworkError(
            MetaNetworkError::Status { code: code_of_status(s), message: message_of_status(s) },
        )
    }
}

impl From<AppError> for KVAppError {
    fn from(e: AppError) -> (r: Self) {
        Self::AppError(e)
    }
}

impl vstd::std_specs::convert::FromSpecImpl<AppError> for KVAppError {
    open spec fn obeys_from_spec() -> bool {
        true
    }

    open spec fn from_spec(e: AppError) -> Self {
        Self::AppError(e)
    }
}

impl From<MetaError> for KVAppError {
    fn from(e: MetaError) -> (r: Self) {
        Self::MetaError(e)
    }
}

impl vstd::std_specs::convert::FromSpecImpl<MetaError> for KVAppError {
    open spec fn obeys_from_spec() -> bool {
        true
    }

    open spec fn from_spec(e: MetaError) -> Self {
        Self::MetaError(e)
    }
}

impl From<tonic::Status> for KVAppError {
    fn from(s: tonic::Status) -> (r: Self) {
        let meta_err: MetaError = MetaError::from(s);
        Self::MetaError(meta_err)
    }
}

impl vstd::std_specs::convert::FromSpecImpl<tonic::Status> for KVAppError {
    open spec fn obeys_from_spec() -> bool {
        true
    }

    open spec fn from_spec(s: tonic::Status) -> Self {
        Self::MetaError(<MetaError as vstd::std_specs::convert::FromSpec<tonic::Status>>::from_spec(s))
    }
}

impl From<MetaStorageError> for KVAppError {
    fn from(e: MetaStorageError) -> (r: Self) {
        let meta_err: MetaError = MetaError::from(e);
        Self::MetaError(meta_err)
    }
}

impl vstd::std_specs::convert::FromSpecImpl<MetaStorageError> for KVAppError {
    open spec fn obeys_from_spec() -> bool {
        true
    }

    open spec fn from_spec(e: MetaStorageError) -> Self {
        Self::MetaError(<MetaError as vstd::std_specs::convert::FromSpec<MetaStorageError>>::from_spec(e))
    }
}

impl From<MetaClientError> for KVAppError {
    fn from(e: MetaClientError) -> (r: Self) {
        let meta_err: MetaError = MetaError::from(e);
        Self::MetaError(meta_err)
    }
}

impl vstd::std_specs::convert::FromSpecImpl<MetaClientError> for KVAppError {
    open spec fn obeys_from_spec() -> bool {
        true
    }

    open spec fn from_spec(e: MetaClientError) -> Self {
        Self::MetaError(<MetaError as vstd::std_specs::convert::FromSpec<MetaClientError>>::from_spec(e))
    }
}

impl From<MetaNetworkError> for KVAppError {
    fn from(e: MetaNetworkError) -> (r: Self) {
        let meta_err: MetaError = MetaError::from(e);
        Self::MetaError(meta_err)
    }
}

impl vstd::std_specs::convert::FromSpecImpl<MetaNetworkError> for KVAppError {
    open spec fn obeys_from_spec() -> bool {
        true
    }

    open spec fn from_spec(e: MetaNetworkError) -> Self {
        Self::MetaError(<MetaError as vstd::std_specs::convert::FromSpec<MetaNetworkError>>::from_spec(e))
    }
}

impl From<MetaAPIError> for KVAppError {
    fn from(e: MetaAPIError) -> (r: Self) {
        let meta_err: MetaError = MetaError::from(e);
        Self::MetaError(meta_err)
    }
}

impl vstd::std_specs::convert::FromSpecImpl<MetaAPIError> for KVAppError {
    open spec fn obeys_from_spec() -> bool {
        true
    }

    open spec fn from_spec(e: MetaAPIError) -> Self {
        Self::MetaError(<MetaError as vstd::std_specs::convert::FromSpec<MetaAPIError>>::from_spec(e))
    }
}

impl From<InvalidReply> for KVAppError {
    fn from(e: InvalidReply) -> (r: Self) {
        let meta_err: MetaError = MetaError::from(e);
        Self::MetaError(meta_err)
    }
}

impl vstd::std_specs::convert::FromSpecImpl<InvalidReply> for KVAppError {
    open spec fn obeys_from_spec() -> bool {
        true
    }

    open spec fn from_spec(e: InvalidReply) -> Self {
        Self::MetaError(<MetaError as vstd::std_specs::convert::FromSpec<InvalidReply>>::from_spec(e))
    }
}

impl From<AppError> for ErrorCode {
    fn from(e: AppError) -> (r: Self) {
        Self::App(e)
    }
}

impl vstd::std_specs::convert::FromSpecImpl<AppError> for ErrorCode {
    open spec fn obeys_from_spec() -> bool {
        true
    }

    open spec fn from_spec(e: AppError) -> Self {
        Self::App(e)
    }
}

impl From<MetaError> for ErrorCode {
    fn from(e: MetaError) -> (r: Self) {
        Self::Meta(e)
    }
}

impl vstd::std_specs::convert::FromSpecImpl<MetaError> for ErrorCode {
    open spec fn obeys_from_spec() -> bool {
        true
    }

    open spec fn from_spec(e: MetaError) -> Self {
        Self::Meta(e)
    }
}

impl From<KVAppError> for ErrorCode {
    fn from(e: KVAppError) -> (r: Self) {
        match e {
            KVAppError::AppError(app_err) => ErrorCode::from(app_err),
            KVAppError::MetaError(meta_err) => ErrorCode::from(meta_err),
        }
    }
}

impl vstd::std_specs::convert::FromSpecImpl<KVAppError> for ErrorCode {
    open spec fn obeys_from_spec() -> bool {
        true
    }

    open spec fn from_spec(e: KVAppError) -> Self {
        match e {
            KVAppError::AppError(app_err) => Self::App(app_err),
            KVAppError::MetaError(meta_err) => Self::Meta(meta_err),
        }
    }
}

impl MetaError {
    /// The text of the error.
    pub open spec fn text(self) -> Seq<char> {
        match self {
            MetaError::StorageError(e) => e.message@,
            MetaError::ClientError(e) => e.message@,
            MetaError::NetworkError(MetaNetworkError::Connection(m)) => m@,
            MetaError::NetworkError(MetaNetworkError::Status { code: _, message }) => message@,
            MetaError::NetworkError(MetaNetworkError::InvalidReply(e)) => e.message@,
            MetaError::APIError(e) => e.message@,
        }
    }

    /// The text of the error.
    pub fn message(&self) -> (m: &str)
        ensures
            m@ == self.text(),
    {
        match self {
            MetaError::StorageError(e) => e.message.as_str(),
            MetaError::ClientError(e) => e.message.as_str(),
            MetaError::NetworkError(MetaNetworkError::Connection(m)) => m.as_str(),
            MetaError::NetworkError(MetaNetworkError::Status { code: _, message }) => {
                message.as_str()
            },
            MetaError::NetworkError(MetaNetworkError::InvalidReply(e)) => e.message.as_str(),
            MetaError::APIError(e) => e.message.as_str(),
        }
    }
}

impl KVAppError {
    /// The text of the error: an application error speaks for itself, a meta-store error is
    /// introduced as one.
    pub open spec fn text(self) -> Seq<char> {
        match self {
            KVAppError::AppError(e) => e.message@,
            KVAppError::MetaError(e) => "fail to access meta-store: "@ + e.text(),
        }
    }

    /// The text of the error.
    pub fn message(&self) -> (m: String)
        ensures
            m@ == self.text(),
    {
        match self {
            KVAppError::AppError(e) => e.message.clone(),
            KVAppError::MetaError(e) => {
                let mut m: String = String::from_str("fail to access meta-store: ");
                m.append(e.message());
                m
            },
        }
    }

    /// The error relates to the application.
    pub open spec fn is_application(self) -> bool {
        self is AppError
    }

    /// The error is raised by an embedded meta-store.
    pub open spec fn is_embedded(self) -> bool {
        self matches KVAppError::MetaError(MetaError::StorageError(_))
    }

    /// The error comes up in the access to a remote meta-store service: when the client is
    /// created, when a call is sent or its reply received, or from the service itself.
    pub open spec fn is_remote(self) -> bool {
        ||| self matches KVAppError::MetaError(MetaError::ClientError(_))
        ||| self matches KVAppError::MetaError(MetaError::NetworkError(_))
        ||| self matches KVAppError::MetaError(MetaError::APIError(_))
    }
}

/// Every error is of one kind: application, embedded meta-store or remote meta-store.
pub proof fn law_kinds_partition(e: KVAppError)
    ensures
        e.is_application() || e.is_embedded() || e.is_remote(),
        !(e.is_application() && e.is_embedded()),
        !(e.is_application() && e.is_remote()),
        !(e.is_embedded() && e.is_remote()),
{
}

/// A conversion keeps the kind of its source: an application error is an application error,
/// a storage error belongs to an embedded meta-store, and every other source to a remote one.
pub proof fn law_kind_of_source(
    app: AppError,
    storage: MetaStorageError,
    client: MetaClientError,
    network: MetaNetworkError,
    api: MetaAPIError,
    reply: InvalidReply,
    status: tonic::Status,
)
    ensures
        <KVAppError as vstd::std_specs::convert::FromSpec<_>>::from_spec(app).is_application(),
        <KVAppError as vstd::std_specs::convert::FromSpec<_>>::from_spec(storage).is_embedded(),
        <KVAppError as vstd::std_specs::convert::FromSpec<_>>::from_spec(client).is_remote(),
        <KVAppError as vstd::std_specs::convert::FromSpec<_>>::from_spec(network).is_remote(),
        <KVAppError as vstd::std_specs::convert::FromSpec<_>>::from_spec(api).is_remote(),
        <KVAppError as vstd::std_specs::convert::FromSpec<_>>::from_spec(reply).is_remote(),
        <KVAppError as vstd::std_specs::convert::FromSpec<_>>::from_spec(status).is_remote(),
{
}

/// Wrapping an error before it is turned into an error code changes nothing: the code is that
/// of the wrapped error.
pub proof fn law_error_code_of_wrapped(app: AppError, meta: MetaError)
    ensures
        <ErrorCode as vstd::std_specs::convert::FromSpec<_>>::from_spec(
            <KVAppError as vstd::std_specs::convert::FromSpec<_>>::from_spec(app),
        ) == <ErrorCode as vstd::std_specs::convert::FromSpec<_>>::from_spec(app),
        <ErrorCode as vstd::std_specs::convert::FromSpec<_>>::from_spec(
            <KVAppError as vstd::std_specs::convert::FromSpec<_>>::from_spec(meta),
        ) == <ErrorCode as vstd::std_specs::convert::FromSpec<_>>::from_spec(meta),
{
}

/// Each source of an error is kept as it is, under the name of its kind: what a meta-store error
/// is made from.
pub proof fn law_meta_error_holds_its_source(
    storage: MetaStorageError,
    client: MetaClientError,
    network: MetaNetworkError,
    api: MetaAPIError,
    reply: InvalidReply,
    status: tonic::Status,
)
    ensures
        <MetaError as vstd::std_specs::convert::FromSpec<_>>::from_spec(storage)
            == MetaError::StorageError(storage),
        <MetaError as vstd::std_specs::convert::FromSpec<_>>::from_spec(client)
            == MetaError::ClientError(client),
        <MetaError as vstd::std_specs::convert::FromSpec<_>>::from_spec(network)
            == MetaError::NetworkError(network),
        <MetaError as vstd::std_specs::convert::FromSpec<_>>::from_spec(api)
            == MetaError::APIError(api),
        <MetaError as vstd::std_specs::convert::FromSpec<_>>::from_spec(reply)
            == MetaError::NetworkError(MetaNetworkError::InvalidReply(reply)),
        <MetaError as vstd::std_specs::convert::FromSpec<_>>::from_spec(status)
            == MetaError::NetworkError(
            MetaNetworkError::Status {
                code: code_of_status(status),
                message: message_of_status(status),
            },
        ),
{
}

/// Each source of an error is kept as it is, under the name of its kind: what an error of an
/// application is made from.
pub proof fn law_application_error_holds_its_source(
    app: AppError,
    meta: MetaError,
    storage: MetaStorageError,
    client: MetaClientError,
    network: MetaNetworkError,
    api: MetaAPIError,
    reply: InvalidReply,
    status: tonic::Status,
)
    ensures
        <KVAppError as vstd::std_specs::convert::FromSpec<_>>::from_spec(app)
            == KVAppError::AppError(app),
        <KVAppError as vstd::std_specs::convert::FromSpec<_>>::from_spec(meta)
            == KVAppError::MetaError(meta),
        <KVAppError as vstd::std_specs::convert::FromSpec<_>>::from_spec(storage)
            == KVAppError::MetaError(MetaError::StorageError(storage)),
        <KVAppError as vstd::std_specs::convert::FromSpec<_>>::from_spec(client)
            == KVAppError::MetaError(MetaError::ClientError(client)),
        <KVAppError as vstd::std_specs::convert::FromSpec<_>>::from_spec(network)
            == KVAppError::MetaError(MetaError::NetworkError(network)),
        <KVAppError as vstd::std_specs::convert::FromSpec<_>>::from_spec(api)
            == KVAppError::MetaError(MetaError::APIError(api)),
        <KVAppError as vstd::std_specs::convert::FromSpec<_>>::from_spec(reply)
            == KVAppError::MetaError(
            MetaError::NetworkError(MetaNetworkError::InvalidReply(reply)),
        ),
        <KVAppError as vstd::std_specs::convert::FromSpec<_>>::from_spec(status)
            == KVAppError::MetaError(
            MetaError::NetworkError(
                MetaNetworkError::Status {
                    code: code_of_status(status),
                    message: message_of_status(status),
                },
            ),
        ),
{
}

/// An error code holds the application error or the meta-store error that it is made from.
pub proof fn law_error_code_holds_its_source(app: AppError, meta: MetaError)
    ensures
        <ErrorCode as vstd::std_specs::convert::FromSpec<_>>::from_spec(app) == ErrorCode::App(app),
        <ErrorCode as vstd::std_specs::convert::FromSpec<_>>::from_spec(meta) == ErrorCode::Meta(meta),
        <ErrorCode as vstd::std_specs::convert::FromSpec<_>>::from_spec(KVAppError::AppError(app))
            == ErrorCode::App(app),
        <ErrorCode as vstd::std_specs::convert::FromSpec<_>>::from_spec(KVAppError::MetaError(meta))
            == ErrorCode::Meta(meta),
{
}

/// An error is shown by the message of its source. Only where the meta-store could not be
/// accessed is that said before it.
pub proof fn law_error_shows_its_source(
    app: AppError,
    meta: MetaError,
    storage: MetaStorageError,
    client: MetaClientError,
    api: MetaAPIError,
    reply: InvalidReply,
    connection: String,
    code: i32,
    message: String,
)
    ensures
        KVAppError::AppError(app).text() == app.message@,
        KVAppError::MetaError(meta).text() == "fail to access meta-store: "@ + meta.text(),
        MetaError::StorageError(storage).text() == storage.message@,
        MetaError::ClientError(client).text() == client.message@,
        MetaError::APIError(api).text() == api.message@,
        MetaError::NetworkError(MetaNetworkError::InvalidReply(reply)).text() == reply.message@,
        MetaError::NetworkError(MetaNetworkError::Connection(connection)).text() == connection@,
        MetaError::NetworkError((MetaNetworkError::Status { code, message })).text() == message@,
{
}

} // verus!
