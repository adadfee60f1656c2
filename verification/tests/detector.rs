use trace_context::process::{AttributeValue, ProcessResourceDetector};

#[test]
fn test_processor_resource_detector() {
    let args = vec!["application".to_string(), "--verbose".to_string()];
    let resource = ProcessResourceDetector::detect_attributes(args, 4242);
    assert_eq!(resource.len(), 2);
}

#[test]
fn detector_reports_command_args_and_pid() {
    let args = vec!["application".to_string(), "--verbose".to_string()];
    let resource = ProcessResourceDetector::detect_attributes(args.clone(), 4242);
    assert_eq!(resource[0].key, "process.command_args");
    match &resource[0].value {
        AttributeValue::StringArray(a) => assert_eq!(a, &args),
        AttributeValue::Int(_) => panic!("command args must be a string array"),
    }
    assert_eq!(resource[1].key, "process.pid");
    match &resource[1].value {
        AttributeValue::Int(pid) => assert_eq!(*pid, 4242),
        AttributeValue::StringArray(_) => panic!("pid must be an integer"),
    }
}
