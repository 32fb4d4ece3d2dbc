use oxide_gate::frame_reader::{trim_bytes, LineBuffer};

fn feed_all(chunks: &[&[u8]]) -> Vec<Vec<u8>> {
    let mut buffer = LineBuffer::new();
    let mut lines = Vec::new();
    for chunk in chunks {
        lines.extend(buffer.feed(chunk));
    }
    lines
}

#[test]
fn lines_are_split_on_line_feeds() {
    let lines = feed_all(&[b"one\ntwo\nthree\n"]);
    assert_eq!(lines, vec![b"one".to_vec(), b"two".to_vec(), b"three".to_vec()]);
}

#[test]
fn chunk_boundaries_are_invisible() {
    let whole: &[u8] = b"data: alpha\r\ndata: beta\n\ndata: gamma\n";
    let at_once = feed_all(&[whole]);
    for size in 1..whole.len() {
        let pieces: Vec<&[u8]> = whole.chunks(size).collect();
        assert_eq!(feed_all(&pieces), at_once, "chunk size {}", size);
    }
}

#[test]
fn partial_line_waits_for_its_terminator() {
    let mut buffer = LineBuffer::new();
    assert_eq!(buffer.feed(b"no terminator yet").len(), 0);
    assert_eq!(buffer.feed(b" still nothing").len(), 0);
    let lines = buffer.feed(b" done\n");
    assert_eq!(lines, vec![b"no terminator yet still nothing done".to_vec()]);
}

#[test]
fn completed_lines_are_trimmed() {
    let lines = feed_all(&[b"  data: x \r\n\t\r\n"]);
    assert_eq!(lines, vec![b"data: x".to_vec(), b"".to_vec()]);
}

#[test]
fn trim_bytes_removes_surrounding_whitespace() {
    assert_eq!(trim_bytes(&b" \t abc \r ".to_vec()), b"abc".to_vec());
    assert_eq!(trim_bytes(&b"".to_vec()), b"".to_vec());
    assert_eq!(trim_bytes(&b" \r\t ".to_vec()), b"".to_vec());
    assert_eq!(trim_bytes(&b"a b".to_vec()), b"a b".to_vec());
}
