use pankh::io::{check_file_size, decode_markdown_bytes, SafeReadError, MAX_FILE_SIZE_BYTES};

#[test]
fn size_cap_is_fifty_megabytes() {
    assert_eq!(MAX_FILE_SIZE_BYTES, 52_428_800);
    assert!(check_file_size("a.md", MAX_FILE_SIZE_BYTES).is_ok());
    assert_eq!(
        check_file_size("a.md", MAX_FILE_SIZE_BYTES + 1),
        Err(SafeReadError::FileTooLarge { path: "a.md".to_string(), size_bytes: MAX_FILE_SIZE_BYTES + 1 })
    );
}

#[test]
fn nul_bytes_mark_binary_files() {
    let err = decode_markdown_bytes("x.bin", &[0x00, 0x01, 0x02, 0xFF, 0x00]).unwrap_err();
    assert!(matches!(err, SafeReadError::BinaryFileDetected(_)));
    let mut late = vec![b'a'; 1024];
    late.push(0);
    assert!(decode_markdown_bytes("late.md", &late).is_ok());
}

#[test]
fn text_is_decoded_lossily() {
    assert_eq!(decode_markdown_bytes("v.md", b"# Valid Markdown\nHello Pankh").unwrap(), "# Valid Markdown\nHello Pankh");
    assert_eq!(decode_markdown_bytes("v.md", &[b'a', 0xFF, b'b']).unwrap(), "a\u{FFFD}b");
}

#[test]
fn error_messages() {
    assert_eq!(SafeReadError::FileNotFound("x.md".to_string()).message(), "File not found: x.md");
    assert_eq!(
        SafeReadError::FileTooLarge { path: "big.md".to_string(), size_bytes: 60000000 }.message(),
        "File 'big.md' exceeds maximum size cap of 50 MB (size: 60000000 bytes)"
    );
    assert_eq!(
        SafeReadError::BinaryFileDetected("b.bin".to_string()).message(),
        "File 'b.bin' appears to be a binary file"
    );
    assert_eq!(SafeReadError::Io("denied".to_string()).message(), "I/O error: denied");
}
