use opendal_wasm::failure::Failure;

#[test]
fn message_is_lead_then_detail() {
    assert_eq!(Failure::Read.message("NotFound: no such key"), "Failed to read: NotFound: no such key");
    assert_eq!(Failure::Read.message(""), "Failed to read: ");
}

#[test]
fn each_failure_has_its_lead() {
    assert_eq!(Failure::CreateOperator.message("x"), "Failed to create operator: x");
    assert_eq!(Failure::CreateLister.message("x"), "Failed to create lister: x");
    assert_eq!(Failure::CollectEntries.message("x"), "Failed to collect entries: x");
    assert_eq!(Failure::Read.message("x"), "Failed to read: x");
    assert_eq!(Failure::Write.message("x"), "Failed to write: x");
    assert_eq!(Failure::Delete.message("x"), "Failed to delete: x");
    assert_eq!(Failure::Stat.message("x"), "Failed to stat: x");
    assert_eq!(Failure::Rename.message("x"), "Failed to rename: x");
    assert_eq!(Failure::CreateDir.message("x"), "Failed to create directory: x");
    assert_eq!(Failure::Serialization.message("x"), "Serialization error: x");
}

#[test]
fn lead_ends_with_colon_and_space() {
    assert_eq!(Failure::Stat.lead(), "Failed to stat: ");
    assert_eq!(Failure::Serialization.lead(), "Serialization error: ");
}
