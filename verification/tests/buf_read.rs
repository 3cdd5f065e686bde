use async_std::buf_read::{finish_read_line, next_line_item, next_split_item, read_until_step, trim_line_end, SliceReader};
use async_std::error::{ErrorKind, IoError};

#[test]
fn read_until_appends_successive_chunks() {
    let from: &[u8] = b"append\nexample\n";
    let mut reader = SliceReader::new(from.to_vec());
    let mut buf = vec![];

    let mut size = reader.read_until(b'\n', &mut buf);
    assert_eq!(size, 7);
    assert_eq!(buf, b"append\n");

    size += reader.read_until(b'\n', &mut buf);
    assert_eq!(size, from.len());

    assert_eq!(buf, from);
    assert_eq!(reader.read_until(b'\n', &mut buf), 0);
}

#[test]
fn read_until_without_delimiter_reads_to_end() {
    let mut reader = SliceReader::new(b"no newline".to_vec());
    let mut buf = b"x".to_vec();
    assert_eq!(reader.read_until(b'\n', &mut buf), 10);
    assert_eq!(buf, b"xno newline");
    assert_eq!(reader.fill_buf(), b"");
}

#[test]
fn step_stops_at_first_delimiter() {
    let mut buf = vec![1u8];
    let mut read = 5usize;
    assert_eq!(read_until_step(b',', b"ab,cd,", &mut buf, &mut read), (3, Some(8)));
    assert_eq!(buf, [1, b'a', b'b', b',']);
    assert_eq!(read, 0);
    assert_eq!(read_until_step(b',', b"abc", &mut buf, &mut read), (3, None));
    assert_eq!(read, 3);
    assert_eq!(read_until_step(b',', b"", &mut buf, &mut read), (0, Some(3)));
}

#[test]
fn read_line_appends_text() {
    let mut reader = SliceReader::new(b"world\r\nrest".to_vec());
    let mut line = String::from("hello ");
    assert_eq!(reader.read_line(&mut line), Ok(7));
    assert_eq!(line, "hello world\r\n");
    let mut line = String::new();
    assert_eq!(reader.read_line(&mut line), Ok(4));
    assert_eq!(line, "rest");
    assert_eq!(reader.read_line(&mut line), Ok(0));
    assert_eq!(line, "rest");
}

#[test]
fn read_line_rejects_invalid_utf8() {
    let mut reader = SliceReader::new(vec![0xff, b'\n', b'o', b'k']);
    let mut line = String::from("ab");
    assert_eq!(reader.read_line(&mut line), Err(ErrorKind::InvalidData));
    assert_eq!(line, "ab");
    assert_eq!(reader.fill_buf(), b"ok");
}

#[test]
fn lines_strip_line_endings() {
    let mut lines = SliceReader::new(b"one\ntwo\r\n\nthree".to_vec()).lines();
    assert_eq!(lines.next_line(), Some(Ok("one".to_string())));
    assert_eq!(lines.next_line(), Some(Ok("two".to_string())));
    assert_eq!(lines.next_line(), Some(Ok("".to_string())));
    assert_eq!(lines.next_line(), Some(Ok("three".to_string())));
    assert_eq!(lines.next_line(), None);
    assert_eq!(lines.next_line(), None);
}

#[test]
fn lines_skip_a_line_that_is_not_utf8() {
    let mut lines = SliceReader::new(b"\xff\nok\n".to_vec()).lines();
    assert_eq!(lines.next_line(), Some(Err(ErrorKind::InvalidData)));
    assert_eq!(lines.next_line(), Some(Ok("ok".to_string())));
    assert_eq!(lines.next_line(), None);
    let mut lines = SliceReader::new(vec![0xc3, b'\n', b'a', b'\n']).lines();
    assert_eq!(lines.next_line(), Some(Err(ErrorKind::InvalidData)));
    assert_eq!(lines.next_line(), Some(Ok("a".to_string())));
}

#[test]
fn split_drops_delimiters() {
    let mut chunks = SliceReader::new(b"a-bb--c".to_vec()).split(b'-');
    assert_eq!(chunks.next_chunk(), Some(b"a".to_vec()));
    assert_eq!(chunks.next_chunk(), Some(b"bb".to_vec()));
    assert_eq!(chunks.next_chunk(), Some(b"".to_vec()));
    assert_eq!(chunks.next_chunk(), Some(b"c".to_vec()));
    assert_eq!(chunks.next_chunk(), None);
}

#[test]
fn trim_removes_one_line_ending() {
    let mut s = String::from("a\r\n");
    trim_line_end(&mut s);
    assert_eq!(s, "a");
    let mut s = String::from("a\r");
    trim_line_end(&mut s);
    assert_eq!(s, "a\r");
    let mut s = String::from("a\n\n");
    trim_line_end(&mut s);
    assert_eq!(s, "a\n");
    let mut s = String::new();
    trim_line_end(&mut s);
    assert_eq!(s, "");
}

#[test]
fn finish_read_line_passes_reader_errors() {
    let mut buf = String::new();
    let mut bytes = b"abc".to_vec();
    assert_eq!(finish_read_line::<u8>(Err(7), &mut buf, &mut bytes, 1), Err(IoError::Inner(7)));
    assert_eq!(buf, "abc");
    assert_eq!(bytes, b"");
    let mut bytes = vec![b'h', b'i', 0xff];
    let mut buf = String::new();
    assert_eq!(finish_read_line::<u8>(Err(7), &mut buf, &mut bytes, 2), Err(IoError::Inner(7)));
    assert_eq!(buf, "hi");
    assert_eq!(bytes, b"");
    let mut bytes = vec![b'h', b'i', 0xff];
    let mut buf = String::new();
    assert_eq!(
        finish_read_line::<u8>(Ok(1), &mut buf, &mut bytes, 2),
        Err(IoError::Kind(ErrorKind::InvalidData))
    );
    assert_eq!(buf, "hi");
}

#[test]
fn line_and_split_items() {
    let mut buf = String::new();
    let mut bytes = b"x\r\n".to_vec();
    assert_eq!(next_line_item::<u8>(Ok(3), &mut buf, &mut bytes), Some(Ok("x".to_string())));
    let mut bytes = Vec::new();
    assert_eq!(next_line_item::<u8>(Ok(0), &mut buf, &mut bytes), None);
    let mut chunk = b"ab;".to_vec();
    assert_eq!(next_split_item(3, b';', &mut chunk), Some(b"ab".to_vec()));
    assert_eq!(chunk, b"");
    assert_eq!(next_split_item(0, b';', &mut chunk), None);
}

#[test]
fn split_chunks_rejoin_to_the_input() {
    for input in [&b"a-bb--c"[..], b"a-bb--c-", b"", b"-", b"abc"] {
        let mut split = SliceReader::new(input.to_vec()).split(b'-');
        let mut rejoined = Vec::new();
        while let Some(chunk) = split.next_chunk() {
            rejoined.extend_from_slice(&chunk);
            rejoined.push(b'-');
        }
        let mut expected = input.to_vec();
        if !input.is_empty() && input[input.len() - 1] != b'-' {
            expected.push(b'-');
        }
        assert_eq!(rejoined, expected);
    }
}

#[test]
fn lines_lose_only_their_endings() {
    let input = b"ab\r\ncd\n\r\nef\r".to_vec();
    let mut lines = SliceReader::new(input.clone()).lines();
    let mut got = Vec::new();
    while let Some(line) = lines.next_line() {
        got.push(line.unwrap());
    }
    assert_eq!(got, vec!["ab".to_string(), "cd".to_string(), "".to_string(), "ef\r".to_string()]);
    let endings = ["\r\n", "\n", "\r\n", ""];
    let mut rebuilt = Vec::new();
    for (line, ending) in got.iter().zip(endings.iter()) {
        rebuilt.extend_from_slice(line.as_bytes());
        rebuilt.extend_from_slice(ending.as_bytes());
    }
    assert_eq!(rebuilt, input);
}
