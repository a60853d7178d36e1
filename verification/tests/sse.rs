use minuet::inference::OpenAiResponsesBackendError as Error;
use minuet::inference::openai_responses::sse::{Decoder, MAX_FRAME_BYTES};

fn decode(chunks: &[&[u8]]) -> Result<Vec<String>, Error> {
    let mut decoder = Decoder::new();
    let mut result = Vec::new();
    for mut chunk in chunks.iter().copied() {
        while let Some(event) = decoder.next(&mut chunk)? {
            result.push(event);
        }
    }
    decoder.finish()?;
    Ok(result)
}

#[test]
fn arbitrary_transport_splits_preserve_utf8_crlf_and_multiline_data() {
    let bytes = ": comment\r\nevent: test\r\ndata: 你好\r\ndata: world\r\n\r\ndata: end\r\r".as_bytes();
    for split in 0..=bytes.len() {
        assert_eq!(decode(&[&bytes[..split], &bytes[split..]]).unwrap(), ["你好\nworld", "end"]);
    }
    let chunks = bytes.chunks(1).collect::<Vec<_>>();
    assert_eq!(decode(&chunks).unwrap(), ["你好\nworld", "end"]);
}

#[test]
fn comments_fields_and_empty_data_follow_sse_framing() {
    assert_eq!(decode(&[b": hi\n\ndata\n\ndata: x\n\n: trailing\n"]).unwrap(), ["", "x"]);
    assert!(decode(&[b"data: x\n"]).is_err());
    assert!(decode(&[b"data: x"]).is_err());
    assert!(decode(&[b"data: \xff\n\n"]).is_err());
}

#[test]
fn bounds_each_frame_including_ignored_lines_before_copying_large_chunks() {
    let oversized = vec![b'x'; MAX_FRAME_BYTES + 1];
    let mut decoder = Decoder::new();
    assert!(decoder.next(&mut oversized.as_slice()).is_err());
    assert_eq!(decoder.pending_line_len(), MAX_FRAME_BYTES);
    let ignored = b": a\n".repeat(MAX_FRAME_BYTES / 4 + 1);
    assert!(decode(&[&ignored]).is_err());
    let data = b"data: x\n".repeat(MAX_FRAME_BYTES / 8 + 1);
    assert!(decode(&[&data]).is_err());
    let many = b"data: x\n\n".repeat(MAX_FRAME_BYTES / 9 + 1);
    assert_eq!(decode(&[&many]).unwrap().len(), MAX_FRAME_BYTES / 9 + 1);
}

#[test]
fn an_event_is_returned_before_the_rest_of_the_chunk_is_read() {
    let mut decoder = Decoder::new();
    let mut input: &[u8] = b"data: a\n\ndata: b\n\n";
    assert_eq!(decoder.next(&mut input).unwrap(), Some("a".to_owned()));
    assert_eq!(input, b"data: b\n\n");
    assert_eq!(decoder.next(&mut input).unwrap(), Some("b".to_owned()));
    assert_eq!(decoder.next(&mut input).unwrap(), None);
    assert!(decoder.finish().is_ok());
}

#[test]
fn an_oversized_frame_keeps_failing() {
    let oversized = vec![b'x'; MAX_FRAME_BYTES + 1];
    let mut decoder = Decoder::new();
    let mut input: &[u8] = &oversized;
    assert!(decoder.next(&mut input).is_err());
    let mut more: &[u8] = b"data: x\n\n";
    assert!(decoder.next(&mut more).is_err());
    assert_eq!(more.len(), b"data: x\n\n".len() - 1);
}
