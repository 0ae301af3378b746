use minios::console::{DIAGNOSTIC_CAPACITY, DiagnosticBuffer};

#[test]
fn diagnostic_collects_fragments_in_order() {
    let mut buffer = DiagnosticBuffer::new();
    assert_eq!(buffer.write_str("pid="), Ok(()));
    assert_eq!(buffer.write_str("3"), Ok(()));
    assert_eq!(buffer.text(), b"pid=3");
}

#[test]
fn diagnostic_keeps_the_front_and_reports_the_overflow() {
    let mut buffer = DiagnosticBuffer::new();
    let first = "a".repeat(250);
    assert_eq!(buffer.write_str(&first), Ok(()));
    assert_eq!(buffer.write_str("0123456789"), Err(()));
    assert_eq!(buffer.text().len(), DIAGNOSTIC_CAPACITY);
    assert_eq!(&buffer.text()[250..], b"012345");
    assert_eq!(buffer.write_str("x"), Err(()));
    assert_eq!(buffer.write_str(""), Ok(()));
    assert_eq!(&buffer.text()[250..], b"012345");
}

#[test]
fn diagnostic_fills_exactly() {
    let mut buffer = DiagnosticBuffer::new();
    let all = "b".repeat(DIAGNOSTIC_CAPACITY);
    assert_eq!(buffer.write_str(&all), Ok(()));
    assert_eq!(buffer.text(), all.as_bytes());
}
