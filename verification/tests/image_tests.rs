use silicone::image::{chunk_commands, display_img, encode_char, serialize_gr_command, CHUNK_SIZE};

#[test]
fn serialize_single_entry() {
    let cmd = vec![('a', "T")];
    let bytes = serialize_gr_command(&cmd, b"xy");
    assert_eq!(bytes, b"\x1b_Ga=T;xy\x1b\\".to_vec());
}

#[test]
fn serialize_entries_joined_by_comma() {
    let cmd = vec![('a', "T"), ('f', "100"), ('C', "1")];
    let bytes = serialize_gr_command(&cmd, b"");
    assert_eq!(bytes, b"\x1b_Ga=T,f=100,C=1;\x1b\\".to_vec());
}

#[test]
fn serialize_without_entries() {
    let cmd: Vec<(char, &str)> = Vec::new();
    let bytes = serialize_gr_command(&cmd, b"p");
    assert_eq!(bytes, b"\x1b_G;p\x1b\\".to_vec());
}

#[test]
fn serialize_matches_format() {
    let cmd = vec![('é', "ü€"), ('m', "1")];
    let payload = b"QUJD";
    let text = cmd
        .iter()
        .map(|(k, v)| format!("{}={}", k, v))
        .collect::<Vec<_>>()
        .join(",");
    let mut expected = b"\x1b_G".to_vec();
    expected.extend_from_slice(text.as_bytes());
    expected.push(b';');
    expected.extend_from_slice(payload);
    expected.extend_from_slice(b"\x1b\\");
    assert_eq!(serialize_gr_command(&cmd, payload), expected);
}

#[test]
fn encode_char_all_widths() {
    for c in ['a', '\u{7f}', '\u{80}', 'é', '\u{7ff}', '\u{800}', '€', '\u{ffff}', '\u{10000}', '😀', '\u{10ffff}'] {
        let mut buf = [0u8; 4];
        let expected = c.encode_utf8(&mut buf).as_bytes().to_vec();
        assert_eq!(encode_char(c), expected);
    }
}

#[test]
fn display_small_image_is_one_command() {
    let frames = display_img(b"hello");
    assert_eq!(frames.len(), 1);
    assert_eq!(frames[0], b"\x1b_Ga=T,f=100,C=1,m=0;aGVsbG8=\x1b\\".to_vec());
}

#[test]
fn display_empty_image_writes_nothing() {
    let frames = display_img(b"");
    assert!(frames.is_empty());
}

#[test]
fn display_exactly_one_chunk() {
    // 3072 bytes give 4096 bytes of base64 text: one full chunk.
    let data = vec![0u8; 3072];
    let frames = display_img(&data);
    assert_eq!(frames.len(), 1);
    let prefix = b"\x1b_Ga=T,f=100,C=1,m=0;";
    assert_eq!(frames[0].len(), prefix.len() + CHUNK_SIZE + 2);
    assert!(frames[0].starts_with(prefix));
}

#[test]
fn display_two_chunks() {
    // 3073 bytes give 4100 bytes of base64 text: a full chunk and 4 bytes.
    let data = vec![0u8; 3073];
    let frames = display_img(&data);
    assert_eq!(frames.len(), 2);
    assert!(frames[0].starts_with(b"\x1b_Ga=T,f=100,C=1,m=1;AAAA"));
    assert_eq!(frames[1], b"\x1b_Ga=T,f=100,C=1,m=0;AA==\x1b\\".to_vec());
}

#[test]
fn chunks_reassemble_text() {
    let text: Vec<u8> = (0..10000u32).map(|i| b'A' + (i % 26) as u8).collect();
    let mut cmd = vec![('a', "T")];
    let frames = chunk_commands(&mut cmd, &text);
    assert_eq!(cmd, vec![('a', "T")]);
    assert_eq!(frames.len(), 3);
    let mut joined = Vec::new();
    for (i, f) in frames.iter().enumerate() {
        let head: &[u8] = if i + 1 == frames.len() { b"\x1b_Ga=T,m=0;" } else { b"\x1b_Ga=T,m=1;" };
        assert!(f.starts_with(head));
        assert!(f.ends_with(b"\x1b\\"));
        joined.extend_from_slice(&f[head.len()..f.len() - 2]);
    }
    assert_eq!(joined, text);
}

#[test]
fn chunk_commands_on_empty_text() {
    let mut cmd = vec![('a', "T")];
    let frames = chunk_commands(&mut cmd, b"");
    assert!(frames.is_empty());
    assert_eq!(cmd, vec![('a', "T")]);
}
