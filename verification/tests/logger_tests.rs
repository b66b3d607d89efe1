use vcd_coverage::logger::Log;
use vcd_coverage::logger::Priority;

#[test]
fn write_appends_tagged_lines() {
    let mut log = Log::new();
    log.write(Priority::Info, b"starting");
    log.write(Priority::Warn, b"odd input");
    log.write(Priority::Error, b"gave up");
    assert_eq!(
        log.buffer,
        b"[INFO]: starting\n[WARN]: odd input\n[ERROR]: gave up\n".to_vec()
    );
}

#[test]
fn drain_empties_the_buffer() {
    let mut log = Log::new();
    log.write(Priority::Info, b"one");
    let first = log.drain();
    assert_eq!(first, b"[INFO]: one\n".to_vec());
    assert!(log.buffer.is_empty());
    log.write(Priority::Info, b"two");
    assert_eq!(log.drain(), b"[INFO]: two\n".to_vec());
}
