use lbuffer::pipeline::pump;
use lbuffer::watermark::Config;
use lbuffer::recycler::Recycler;

fn chunked(input: &[u8], size: usize) -> Vec<Vec<u8>> {
    input.chunks(size).map(|c| c.to_vec()).collect()
}

#[test]
fn pump_reproduces_the_input_bytes() {
    let input: &[u8] = b"alpha\nbeta\ngamma\ndelta";
    let cfg = Config { buffer_lines: 8, high_wm: 2, low_wm: 4 };
    let out = pump(&chunked(input, 5), b"\n", cfg);
    assert_eq!(out, input.to_vec());
}

#[test]
fn pump_with_a_tiny_queue_drains_under_backpressure() {
    // capacity 2 forces the full-queue path: records are written out while
    // reading continues
    let input: &[u8] = b"a\nbb\nccc\ndddd\neeeee\nffffff\n";
    let cfg = Config { buffer_lines: 2, high_wm: 1, low_wm: 0 };
    for size in 1..=input.len() {
        let out = pump(&chunked(input, size), b"\n", cfg);
        assert_eq!(out, input.to_vec());
    }
}

#[test]
fn pump_handles_empty_input() {
    let cfg = Config { buffer_lines: 4, high_wm: 1, low_wm: 2 };
    let out = pump(&Vec::new(), b"\n", cfg);
    assert_eq!(out, Vec::<u8>::new());
}

#[test]
fn pump_with_multi_byte_delimiter_and_no_trailing_delimiter() {
    let input: &[u8] = b"one||two||three";
    let cfg = Config { buffer_lines: 3, high_wm: 1, low_wm: 1 };
    let out = pump(&chunked(input, 2), b"||", cfg);
    assert_eq!(out, input.to_vec());
}

#[test]
fn recycler_hands_out_empty_buffers() {
    let mut pool = Recycler::new(2);
    let buf = pool.acquire();
    assert!(buf.is_empty());
    pool.release(b"leftover bytes".to_vec());
    let reused = pool.acquire();
    assert!(reused.is_empty(), "a recycled buffer kept its contents");
}

#[test]
fn recycler_drops_buffers_beyond_its_limit() {
    let mut pool = Recycler::new(2);
    pool.release(vec![1]);
    pool.release(vec![2]);
    pool.release(vec![3]);
    assert_eq!(pool.pool.len(), 2);
    pool.acquire();
    pool.acquire();
    assert_eq!(pool.pool.len(), 0);
}
