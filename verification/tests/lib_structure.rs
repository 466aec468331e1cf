use macmush::error::MushError;

#[test]
fn test_module_structure() {
    let _result: Result<(), MushError> = Ok(());
}
