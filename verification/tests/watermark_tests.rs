use lbuffer::watermark::{Config, ConfigError};
use lbuffer::coordinator::Coordinator;

#[test]
fn high_watermark_at_capacity_is_rejected() {
    let cfg = Config { buffer_lines: 10, high_wm: 10, low_wm: 5 };
    assert_eq!(cfg.validate(), Err(ConfigError::HighWatermarkTooHigh));
}

#[test]
fn high_watermark_above_capacity_is_rejected() {
    let cfg = Config { buffer_lines: 10, high_wm: 11, low_wm: 5 };
    assert_eq!(cfg.validate(), Err(ConfigError::HighWatermarkTooHigh));
}

#[test]
fn low_watermark_at_capacity_is_rejected() {
    let cfg = Config { buffer_lines: 10, high_wm: 2, low_wm: 10 };
    assert_eq!(cfg.validate(), Err(ConfigError::LowWatermarkTooHigh));
}

#[test]
fn default_geometry_is_accepted() {
    let cfg = Config { buffer_lines: 1024, high_wm: 1, low_wm: 1023 };
    assert_eq!(cfg.validate(), Ok(()));
}

#[test]
fn error_messages_name_the_failed_check() {
    assert_eq!(
        ConfigError::HighWatermarkTooHigh.message(),
        "high-wm must be less than buffer-lines"
    );
    assert_eq!(
        ConfigError::LowWatermarkTooHigh.message(),
        "low-wm must be less than buffer-lines"
    );
}

#[test]
fn writing_turns_on_at_high_watermark_and_stays_until_empty() {
    // buffer_lines=10, high_wm=2, low_wm=8: once writing becomes true at
    // queue length 2, it must remain true until length 0 — no re-toggle at 1
    let cfg = Config { buffer_lines: 10, high_wm: 2, low_wm: 8 };
    assert_eq!(cfg.validate(), Ok(()));
    let mut c = Coordinator::new(cfg);
    assert!(!c.will_write());
    c.enqueue(b"one\n".to_vec()).unwrap();
    assert!(!c.will_write());
    c.enqueue(b"two\n".to_vec()).unwrap();
    assert!(c.will_write());
    c.dequeue().unwrap();
    assert!(c.will_write(), "writing re-toggled at length 1");
    c.dequeue().unwrap();
    assert!(!c.will_write());
}

#[test]
fn reading_turns_off_at_capacity_and_back_on_at_low_watermark() {
    let cfg = Config { buffer_lines: 4, high_wm: 1, low_wm: 2 };
    let mut c = Coordinator::new(cfg);
    assert!(c.will_read());
    for k in 0..4 {
        c.enqueue(vec![k]).unwrap();
    }
    assert!(!c.will_read(), "reading still on at a full queue");
    c.dequeue().unwrap();
    assert!(!c.will_read(), "reading resumed above the low watermark");
    c.dequeue().unwrap();
    assert!(c.will_read(), "reading did not resume at the low watermark");
}

#[test]
fn initial_state_reads_and_does_not_write() {
    let cfg = Config { buffer_lines: 8, high_wm: 3, low_wm: 5 };
    let c = Coordinator::new(cfg);
    assert!(c.will_read());
    assert!(!c.will_write());
    assert_eq!(c.queued(), 0);
}
