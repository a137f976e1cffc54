use lbuffer::reblock::{Reblocker, split_stream};

fn records_of(input: &[u8], delim: &[u8]) -> Vec<Vec<u8>> {
    split_stream(input, delim)
}

fn concat(recs: &[Vec<u8>]) -> Vec<u8> {
    let mut out: Vec<u8> = Vec::new();
    for r in recs {
        out.extend_from_slice(r);
    }
    out
}

#[test]
fn final_record_without_delimiter() {
    let recs = records_of(b"abc\ndef", b"\n");
    assert_eq!(recs, vec![b"abc\n".to_vec(), b"def".to_vec()]);
}

#[test]
fn empty_input_yields_no_records() {
    let recs = records_of(b"", b"\n");
    assert_eq!(recs.len(), 0);
}

#[test]
fn trailing_delimiter_leaves_no_partial_record() {
    let recs = records_of(b"abc\ndef\n", b"\n");
    assert_eq!(recs, vec![b"abc\n".to_vec(), b"def\n".to_vec()]);
}

#[test]
fn empty_records_between_delimiters_are_kept() {
    let recs = records_of(b"\n\n", b"\n");
    assert_eq!(recs, vec![b"\n".to_vec(), b"\n".to_vec()]);
}

#[test]
fn multi_byte_delimiter_splits() {
    let recs = records_of(b"one||two||three", b"||");
    assert_eq!(recs, vec![b"one||".to_vec(), b"two||".to_vec(), b"three".to_vec()]);
}

#[test]
fn multi_byte_delimiter_spanning_a_read_boundary() {
    // one `|` arrives in one read, the second in the next: still one match
    let mut rb = Reblocker::new(b"||");
    let first = rb.push_chunk(b"a|");
    assert_eq!(first.len(), 0);
    let second = rb.push_chunk(b"|b");
    assert_eq!(second, vec![b"a||".to_vec()]);
    let last = rb.finish();
    assert_eq!(last, Some(b"b".to_vec()));
}

#[test]
fn round_trip_reproduces_input_exactly() {
    let cases: Vec<(&[u8], &[u8])> = vec![
        (b"abc\ndef", b"\n"),
        (b"abc\ndef\n", b"\n"),
        (b"\n\n\n", b"\n"),
        (b"no delimiter at all", b"\n"),
        (b"a||b||", b"||"),
        (b"|||", b"||"),
        (b"", b"||"),
        (b"xyx", b"x"),
    ];
    for (input, delim) in cases {
        let recs = records_of(input, delim);
        assert_eq!(concat(&recs), input.to_vec());
    }
}

#[test]
fn records_do_not_depend_on_read_granularity() {
    let input: &[u8] = b"alpha\nbeta\n\ngamma||de\nlta";
    for delim in [b"\n".to_vec(), b"||".to_vec(), b"a".to_vec()] {
        let whole = records_of(input, &delim);
        for chunk_size in 1..=input.len() {
            let mut rb = Reblocker::new(&delim);
            let mut recs: Vec<Vec<u8>> = Vec::new();
            for chunk in input.chunks(chunk_size) {
                recs.extend(rb.push_chunk(chunk));
            }
            if let Some(last) = rb.finish() {
                recs.push(last);
            }
            assert_eq!(recs, whole, "chunk size {} changed the records", chunk_size);
        }
    }
}

#[test]
fn finish_resets_the_hold_buffer() {
    let mut rb = Reblocker::new(b"\n");
    let recs = rb.push_chunk(b"partial");
    assert_eq!(recs.len(), 0);
    assert_eq!(rb.finish(), Some(b"partial".to_vec()));
    assert_eq!(rb.finish(), None);
}

#[test]
fn each_record_ends_with_the_delimiter_except_the_last() {
    let recs = records_of(b"a\nbb\nccc", b"\n");
    assert_eq!(recs.len(), 3);
    for r in &recs[..2] {
        assert_eq!(r.last(), Some(&b'\n'));
    }
    assert_eq!(recs[2], b"ccc".to_vec());
}
