#[test]
fn test_processor() {}
