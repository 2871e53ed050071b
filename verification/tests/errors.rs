use block_reader::errors::AppError;
use block_reader::errors::ErrorCode;
use block_reader::errors::InvalidReply;
use block_reader::errors::KVAppError;
use block_reader::errors::MetaAPIError;
use block_reader::errors::MetaClientError;
use block_reader::errors::MetaError;
use block_reader::errors::MetaNetworkError;
use block_reader::errors::MetaStorageError;

fn app_error() -> AppError {
    AppError { message: "unknown database".to_string() }
}

fn storage_error() -> MetaStorageError {
    MetaStorageError { message: "broken tree".to_string() }
}

#[test]
fn application_error_stays_an_application_error() {
    let e = KVAppError::from(app_error());
    assert_eq!(e, KVAppError::AppError(app_error()));
    assert_eq!(e.message(), "unknown database");
    assert_eq!(ErrorCode::from(e), ErrorCode::App(app_error()));
}

#[test]
fn storage_error_is_wrapped() {
    let e = KVAppError::from(storage_error());
    assert_eq!(e, KVAppError::MetaError(MetaError::StorageError(storage_error())));
    assert_eq!(e.message(), "fail to access meta-store: broken tree");
    assert_eq!(ErrorCode::from(e), ErrorCode::Meta(MetaError::StorageError(storage_error())));
}

#[test]
fn client_error_is_wrapped() {
    let cause = MetaClientError { message: "no endpoint".to_string() };
    let e = KVAppError::from(cause.clone());
    assert_eq!(e, KVAppError::MetaError(MetaError::ClientError(cause)));
    assert_eq!(e.message(), "fail to access meta-store: no endpoint");
}

#[test]
fn network_error_is_wrapped() {
    let cause = MetaNetworkError::Connection("refused".to_string());
    let e = KVAppError::from(cause.clone());
    assert_eq!(e, KVAppError::MetaError(MetaError::NetworkError(cause)));
    assert_eq!(e.message(), "fail to access meta-store: refused");
}

#[test]
fn api_error_is_wrapped() {
    let cause = MetaAPIError { message: "forwarded too often".to_string() };
    let e = KVAppError::from(cause.clone());
    assert_eq!(e, KVAppError::MetaError(MetaError::APIError(cause)));
    assert_eq!(e.message(), "fail to access meta-store: forwarded too often");
}

#[test]
fn invalid_reply_is_a_network_error() {
    let cause = InvalidReply { message: "not a reply".to_string() };
    let e = KVAppError::from(cause.clone());
    assert_eq!(
        e,
        KVAppError::MetaError(MetaError::NetworkError(MetaNetworkError::InvalidReply(cause)))
    );
    assert_eq!(e.message(), "fail to access meta-store: not a reply");
}

#[test]
fn status_keeps_its_code_and_message() {
    let e = KVAppError::from(tonic::Status::unavailable("try later"));
    assert_eq!(
        e,
        KVAppError::MetaError(MetaError::NetworkError(MetaNetworkError::Status {
            code: 14,
            message: "try later".to_string(),
        }))
    );
    assert_eq!(e.message(), "fail to access meta-store: try later");

    let other = MetaError::from(tonic::Status::not_found("gone"));
    assert_eq!(
        other,
        MetaError::NetworkError(MetaNetworkError::Status {
            code: 5,
            message: "gone".to_string(),
        })
    );
    assert_eq!(other.message(), "gone");
}

#[test]
fn wrapping_does_not_change_the_error_code() {
    assert_eq!(ErrorCode::from(KVAppError::from(app_error())), ErrorCode::from(app_error()));
    let meta = MetaError::from(storage_error());
    assert_eq!(ErrorCode::from(KVAppError::from(meta.clone())), ErrorCode::from(meta));
}

#[test]
fn every_error_is_of_one_kind() {
    let errors = vec![
        KVAppError::from(app_error()),
        KVAppError::from(storage_error()),
        KVAppError::from(MetaClientError { message: String::new() }),
        KVAppError::from(MetaNetworkError::Connection(String::new())),
        KVAppError::from(MetaAPIError { message: String::new() }),
        KVAppError::from(InvalidReply { message: String::new() }),
        KVAppError::from(tonic::Status::internal("")),
    ];
    let application: Vec<bool> =
        errors.iter().map(|e| matches!(e, KVAppError::AppError(_))).collect();
    let embedded: Vec<bool> = errors
        .iter()
        .map(|e| matches!(e, KVAppError::MetaError(MetaError::StorageError(_))))
        .collect();
    assert_eq!(application, vec![true, false, false, false, false, false, false]);
    assert_eq!(embedded, vec![false, true, false, false, false, false, false]);
}
