use lbuffer::coordinator::Coordinator;
use lbuffer::watermark::Config;

fn labeled(n: usize) -> Vec<u8> {
    format!("record {}\n", n).into_bytes()
}

#[test]
fn records_come_out_in_the_order_they_went_in() {
    let n: usize = 100;
    let cfg = Config { buffer_lines: 128, high_wm: 1, low_wm: 64 };
    let mut c = Coordinator::new(cfg);
    for k in 0..n {
        c.enqueue(labeled(k)).unwrap();
    }
    for k in 0..n {
        assert_eq!(c.dequeue(), Some(labeled(k)));
    }
    assert_eq!(c.dequeue(), None);
}

#[test]
fn fifo_holds_under_interleaved_enqueue_and_dequeue() {
    // a fast reader and a slow writer: two records enter for every one that
    // leaves, and the output order is still exactly the input order
    let cfg = Config { buffer_lines: 256, high_wm: 1, low_wm: 128 };
    let mut c = Coordinator::new(cfg);
    let mut next_in: usize = 0;
    let mut next_out: usize = 0;
    while next_in < 100 {
        c.enqueue(labeled(next_in)).unwrap();
        next_in += 1;
        c.enqueue(labeled(next_in)).unwrap();
        next_in += 1;
        assert_eq!(c.dequeue(), Some(labeled(next_out)));
        next_out += 1;
    }
    while let Some(rec) = c.dequeue() {
        assert_eq!(rec, labeled(next_out));
        next_out += 1;
    }
    assert_eq!(next_out, next_in);
}

#[test]
fn a_full_queue_hands_the_record_back() {
    let cfg = Config { buffer_lines: 2, high_wm: 1, low_wm: 0 };
    let mut c = Coordinator::new(cfg);
    c.enqueue(b"a".to_vec()).unwrap();
    c.enqueue(b"b".to_vec()).unwrap();
    assert_eq!(c.enqueue(b"c".to_vec()), Err(b"c".to_vec()));
    assert_eq!(c.queued(), 2);
}

#[test]
fn dequeue_on_empty_returns_none() {
    let cfg = Config { buffer_lines: 2, high_wm: 1, low_wm: 0 };
    let mut c = Coordinator::new(cfg);
    assert_eq!(c.dequeue(), None);
}

#[test]
fn a_read_error_still_drains_the_queue() {
    let cfg = Config { buffer_lines: 16, high_wm: 8, low_wm: 4 };
    let mut c = Coordinator::new(cfg);
    c.enqueue(b"queued before the failure\n".to_vec()).unwrap();
    c.note_read_error();
    assert!(!c.will_read(), "still reading after a read error");
    assert!(c.will_write(), "queued records were not flushed after a read error");
    assert!(!c.is_finished());
    c.dequeue().unwrap();
    assert!(c.is_finished(), "drain of a failed input did not terminate");
}

#[test]
fn a_write_error_stops_everything_at_once() {
    let cfg = Config { buffer_lines: 16, high_wm: 1, low_wm: 8 };
    let mut c = Coordinator::new(cfg);
    c.enqueue(b"undelivered\n".to_vec()).unwrap();
    c.note_write_error();
    assert!(!c.will_read());
    assert!(!c.will_write());
    assert!(c.is_finished(), "a write error must terminate the run immediately");
}

#[test]
fn finished_only_after_input_end_and_drain() {
    let cfg = Config { buffer_lines: 4, high_wm: 1, low_wm: 2 };
    let mut c = Coordinator::new(cfg);
    assert!(!c.is_finished());
    c.enqueue(b"x\n".to_vec()).unwrap();
    c.note_input_end();
    assert!(!c.is_finished(), "finished while a record was still queued");
    assert!(!c.will_read(), "still reading after the input ended");
    c.dequeue().unwrap();
    assert!(c.is_finished());
}
