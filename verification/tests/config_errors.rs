use validated_forms::DecodeError;
use validated_forms::MultipartLoadConfig;

#[test]
fn default_budgets() {
    let c = MultipartLoadConfig::default();
    assert_eq!(c.get_text_limit(), 1024 * 1024);
    assert_eq!(c.get_file_limit(), 512 * 1024 * 1024);
    assert_eq!(c.get_max_parts(), 1000);
}

#[test]
fn builders_replace_one_budget_each() {
    let c = MultipartLoadConfig::default()
        .text_limit(10)
        .file_limit(20)
        .max_parts(3);
    assert_eq!(c.get_text_limit(), 10);
    assert_eq!(c.get_file_limit(), 20);
    assert_eq!(c.get_max_parts(), 3);

    let d = c.file_limit(99);
    assert_eq!(d.get_text_limit(), 10);
    assert_eq!(d.get_file_limit(), 99);
    assert_eq!(d.get_max_parts(), 3);
}

#[test]
fn error_classification() {
    assert!(DecodeError::HeaderError.is_client_error());
    assert!(DecodeError::PartCountExceeded.is_client_error());
    assert!(DecodeError::TextBudgetExceeded.is_client_error());
    assert!(DecodeError::FileBudgetExceeded.is_client_error());
    assert!(DecodeError::Utf8Error { valid_up_to: 0 }.is_client_error());
    assert!(DecodeError::TransportError.is_client_error());
    assert!(DecodeError::Incomplete.is_client_error());
    assert!(!DecodeError::IoError.is_client_error());
}

#[test]
fn error_messages() {
    assert_eq!(
        DecodeError::PartCountExceeded.message(),
        "A payload reached size limit."
    );
    assert_eq!(
        DecodeError::TextBudgetExceeded.message(),
        "A payload reached size limit."
    );
    assert_eq!(
        DecodeError::HeaderError.message(),
        "A part had an invalid or incomplete header."
    );
    assert_eq!(
        DecodeError::Utf8Error { valid_up_to: 3 }.message(),
        "A text part was not valid UTF-8."
    );
    assert_eq!(
        DecodeError::IoError.message(),
        "A temporary file could not be written."
    );
    assert_eq!(
        DecodeError::Incomplete.message(),
        "The request body ended unexpectedly."
    );
    assert_eq!(
        DecodeError::TransportError.message(),
        "The request stream reported an error."
    );
}
