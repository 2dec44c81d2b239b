use native_json::fs::{
    open_mode, seek_target, write_step, SeekTarget, O_APPEND, O_CREATE, O_READ, O_RW, O_TRUNCATE,
    O_WRITE, SEEK_CUR, SEEK_END, SEEK_SET,
};
use native_json::http::gzip_for_body;

#[test]
fn open_mode_defaults_to_read() {
    let m = open_mode(0);
    assert_eq!(m.flags, O_READ);
    assert!(m.read && !m.write && !m.create && !m.append && !m.truncate);
}

#[test]
fn open_mode_from_flags() {
    let m = open_mode(O_CREATE | O_RW | O_TRUNCATE);
    assert!(m.create && m.read && m.write && m.truncate && !m.append);
    let m = open_mode(O_APPEND | O_WRITE);
    assert!(m.append && m.write && !m.read && !m.create);
}

#[test]
fn seek_targets() {
    assert_eq!(seek_target(5, SEEK_SET), Some(SeekTarget::Start(5)));
    assert_eq!(seek_target(-1, SEEK_SET), Some(SeekTarget::Start(u64::MAX)));
    assert_eq!(seek_target(-3, SEEK_CUR), Some(SeekTarget::Current(-3)));
    assert_eq!(seek_target(7, SEEK_END), Some(SeekTarget::End(7)));
    assert_eq!(seek_target(7, 0), None);
}

#[test]
fn write_steps() {
    assert_eq!(write_step(0, 10, Some(4), false), (4, true));
    assert_eq!(write_step(4, 10, Some(6), false), (10, false));
    assert_eq!(write_step(0, 10, Some(4), true), (4, false));
    assert_eq!(write_step(3, 10, None, false), (3, false));
    assert_eq!(write_step(3, 10, Some(0), false), (3, false));
}

#[test]
fn gzip_threshold() {
    assert!(!gzip_for_body(1024));
    assert!(gzip_for_body(1025));
    assert!(!gzip_for_body(0));
}
