use mozdevice::codec::SyncCommand;
use mozdevice::encode_message;
use mozdevice::host::process_response_payload;
use mozdevice::read_length;
use mozdevice::read_length_little_endian;
use mozdevice::sync::encode_push_payload;
use mozdevice::sync::parse_list_payload;
use mozdevice::sync::parse_pull_payload;
use mozdevice::sync::parse_stat_response;
use mozdevice::sync::push_status;
use mozdevice::sync::send_args;
use mozdevice::sync::sync_request;
use mozdevice::write_length_little_endian;
use mozdevice::DeviceError;
use mozdevice::UnixFileStatus;

#[test]
fn encode_message_with_valid_string() {
    assert_eq!(encode_message("").unwrap(), "0000".to_string());
    assert_eq!(encode_message("a").unwrap(), "0001a".to_string());
    assert_eq!(
        encode_message(&"a".repeat(15)).unwrap(),
        format!("000F{}", "a".repeat(15))
    );
    assert_eq!(
        encode_message(&"a".repeat(255)).unwrap(),
        format!("00FF{}", "a".repeat(255))
    );
    assert_eq!(
        encode_message(&"a".repeat(4095)).unwrap(),
        format!("0FFF{}", "a".repeat(4095))
    );
    assert_eq!(
        encode_message(&"a".repeat(65535)).unwrap(),
        format!("FFFF{}", "a".repeat(65535))
    );
}

#[test]
fn encode_message_with_invalid_string() {
    encode_message(&"a".repeat(65536)).expect_err("string lengths exceeds 4 bytes");
}

#[test]
fn read_length_from_valid_string() {
    fn test(message: &str) -> Result<usize, DeviceError> {
        read_length(message.as_bytes())
    }

    assert_eq!(test("0000").unwrap(), 0);
    assert_eq!(test("0001").unwrap(), 1);
    assert_eq!(test("000F").unwrap(), 15);
    assert_eq!(test("00FF").unwrap(), 255);
    assert_eq!(test("0FFF").unwrap(), 4095);
    assert_eq!(test("FFFF").unwrap(), 65535);

    assert_eq!(test("FFFF0").unwrap(), 65535);
}

#[test]
fn read_length_from_invalid_string() {
    fn test(message: &str) -> Result<usize, DeviceError> {
        read_length(message.as_bytes())
    }

    test("").expect_err("empty string");
    test("G").expect_err("invalid hex character");
    test("-1").expect_err("negative number");
    test("000").expect_err("shorter than 4 bytes");
    test("-111").expect_err("negative sign among four bytes");
    test("GGGG").expect_err("four non-hex bytes");
}

#[test]
fn read_length_accepts_lowercase_hex() {
    assert_eq!(read_length(b"00ff").unwrap(), 255);
    assert_eq!(read_length(b"0fff").unwrap(), 4095);
}

#[test]
fn length_little_endian_round_trip() {
    for n in [0usize, 1, 255, 256, 65535, 65536, 0x0102_0304, 0xFFFF_FFFF] {
        let bytes = write_length_little_endian(n);
        assert_eq!(bytes.len(), 4);
        assert_eq!(read_length_little_endian(&bytes), n);
    }
    assert_eq!(write_length_little_endian(0x0102_0304), vec![0x04, 0x03, 0x02, 0x01]);
}

#[test]
fn sync_command_codes() {
    assert_eq!(SyncCommand::List.code(), b"LIST".to_vec());
    assert_eq!(SyncCommand::Recv.code(), b"RECV".to_vec());
    assert_eq!(SyncCommand::Send.code(), b"SEND".to_vec());
    assert_eq!(SyncCommand::Stat.code(), b"STAT".to_vec());
    assert_eq!(SyncCommand::Dent.code(), b"DENT".to_vec());
    assert_eq!(SyncCommand::Done.code(), b"DONE".to_vec());
    assert_eq!(SyncCommand::Data.code(), b"DATA".to_vec());
    assert_eq!(SyncCommand::Okay.code(), b"OKAY".to_vec());
    assert_eq!(SyncCommand::Fail.code(), b"FAIL".to_vec());
}

#[test]
fn sync_request_frames_path() {
    let frame = sync_request(SyncCommand::Stat, "/sdcard/x");
    let mut expected = b"STAT".to_vec();
    expected.extend_from_slice(&[9, 0, 0, 0]);
    expected.extend_from_slice(b"/sdcard/x");
    assert_eq!(frame, expected);
}

#[test]
fn send_args_renders_mode_in_decimal() {
    assert_eq!(send_args("/sdcard/foo.txt", 0o777), "/sdcard/foo.txt,511".to_string());
    assert_eq!(send_args("/sdcard/foo.txt", 0o421), "/sdcard/foo.txt,273".to_string());
}

fn dent_frame(mode: u32, size: u32, time: u32, name: &str) -> Vec<u8> {
    let mut f = b"DENT".to_vec();
    f.extend_from_slice(&write_length_little_endian(mode as usize));
    f.extend_from_slice(&write_length_little_endian(size as usize));
    f.extend_from_slice(&write_length_little_endian(time as usize));
    f.extend_from_slice(&write_length_little_endian(name.len()));
    f.extend_from_slice(name.as_bytes());
    f
}

fn done_frame() -> Vec<u8> {
    let mut f = b"DONE".to_vec();
    f.extend_from_slice(&[0, 0, 0, 0]);
    f
}

const DIR_MODE: u32 = 0o040_755;
const FILE_MODE: u32 = 0o100_644;
const LINK_MODE: u32 = 0o120_777;

#[test]
fn list_flat_with_prefix() {
    let mut stream = Vec::new();
    stream.extend_from_slice(&dent_frame(FILE_MODE, 4, 100, "foo1.bar"));
    stream.extend_from_slice(&dent_frame(FILE_MODE, 4, 100, "foo2.bar"));
    stream.extend_from_slice(&dent_frame(DIR_MODE, 4096, 100, "bar"));
    stream.extend_from_slice(&done_frame());

    let listings = parse_list_payload(&stream, 7, "prefix").expect("to list_dir_flat");
    assert_eq!(listings.len(), 3);
    assert_eq!(listings[0].path, "prefix/foo1.bar");
    assert_eq!(listings[1].path, "prefix/foo2.bar");
    assert_eq!(listings[2].path, "prefix/bar");
    assert_eq!(listings[0].file_mode, UnixFileStatus::RegularFile);
    assert_eq!(listings[1].file_mode, UnixFileStatus::RegularFile);
    assert_eq!(listings[2].file_mode, UnixFileStatus::Directory);
    assert_eq!(listings[0].size, 4);
    assert_eq!(listings[1].size, 4);
    assert_eq!(listings[2].size, 0);
    assert!(listings[0].modified_time.unwrap() > 0);
    assert_eq!(listings[0].depth, Some(7));
    assert_eq!(listings[1].depth, Some(7));
    assert_eq!(listings[2].depth, Some(7));
}

#[test]
fn list_skips_dot_entries() {
    let mut stream = Vec::new();
    stream.extend_from_slice(&dent_frame(DIR_MODE, 4096, 100, "."));
    stream.extend_from_slice(&dent_frame(DIR_MODE, 4096, 100, ".."));
    stream.extend_from_slice(&dent_frame(FILE_MODE, 8, 100, "keep"));
    stream.extend_from_slice(&done_frame());

    let listings = parse_list_payload(&stream, 0, "").unwrap();
    assert_eq!(listings.len(), 1);
    assert_eq!(listings[0].path, "keep");
}

#[test]
fn list_symlink_has_size_zero() {
    let mut stream = Vec::new();
    stream.extend_from_slice(&dent_frame(LINK_MODE, 11, 100, "link"));
    stream.extend_from_slice(&done_frame());

    let listings = parse_list_payload(&stream, 0, "").unwrap();
    assert_eq!(listings.len(), 1);
    assert_eq!(listings[0].file_mode, UnixFileStatus::SymbolicLink);
    assert_eq!(listings[0].size, 0);
}

#[test]
fn list_rejects_alien_file_type() {
    // A socket (0o140000) is not one of the three accepted entry types.
    let mut stream = Vec::new();
    stream.extend_from_slice(&dent_frame(0o140_000, 0, 100, "sock"));
    stream.extend_from_slice(&done_frame());

    let err = parse_list_payload(&stream, 0, "").unwrap_err();
    match err {
        DeviceError::Adb(m) => assert_eq!(m, "Invalid file mode 6"),
        other => panic!("unexpected error {:?}", other),
    }
}

#[test]
fn list_fail_frame_surfaces_server_message() {
    let mut stream = b"FAIL".to_vec();
    stream.extend_from_slice(&write_length_little_endian(9));
    stream.extend_from_slice(b"no access");

    let err = parse_list_payload(&stream, 0, "").unwrap_err();
    match err {
        DeviceError::Adb(m) => assert_eq!(m, "adb error: no access"),
        other => panic!("unexpected error {:?}", other),
    }
}

#[test]
fn list_unknown_code_fails() {
    let stream = b"WHAT".to_vec();
    let err = parse_list_payload(&stream, 0, "").unwrap_err();
    match err {
        DeviceError::Adb(m) => assert_eq!(m, "FAIL (unknown)"),
        other => panic!("unexpected error {:?}", other),
    }
}

#[test]
fn push_then_pull_restores_text() {
    let content = b"test";
    let frames = encode_push_payload(content, 32 * 1024, 1_700_000_000);
    let pulled = parse_pull_payload(&frames).expect("file has been pulled");
    assert_eq!(pulled, content.to_vec());
}

#[test]
fn push_then_pull_restores_large_binary() {
    let mut content = Vec::new();
    for i in 0..100_000u32 {
        content.push(0x30 + (i % 10) as u8);
    }
    // Chunks smaller than the content force several DATA frames.
    let frames = encode_push_payload(&content, 32 * 1024, 1_700_000_000);
    assert!(frames.len() > content.len());
    let pulled = parse_pull_payload(&frames).expect("large binary file has been pulled");
    assert_eq!(pulled, content);
}

#[test]
fn push_frames_end_with_done_and_mtime() {
    let frames = encode_push_payload(b"x", 8, 0x0102_0304);
    let tail = &frames[frames.len() - 8..];
    assert_eq!(&tail[0..4], b"DONE");
    assert_eq!(&tail[4..8], &[0x04, 0x03, 0x02, 0x01]);
}

#[test]
fn pull_fail_frame_surfaces_server_message() {
    let mut stream = b"FAIL".to_vec();
    stream.extend_from_slice(&write_length_little_endian(20));
    stream.extend_from_slice(b"No such file or dire");

    let err = parse_pull_payload(&stream).unwrap_err();
    match err {
        DeviceError::Adb(m) => assert!(m.contains("No such file or dire")),
        other => panic!("unexpected error {:?}", other),
    }
}

#[test]
fn stat_directory_after_mkdir() {
    // 0o040755: a directory; the time is after the epoch.
    let md = parse_stat_response("/sdcard/stat_test_dir", DIR_MODE, 4096, 1_700_000_000)
        .expect("to get directory stats");
    assert_eq!(md.path, "/sdcard/stat_test_dir");
    assert_eq!(md.file_mode, UnixFileStatus::Directory);
    assert!(md.modified_time.is_some());
    assert!(md.modified_time.unwrap() > 0);
    assert_eq!(md.depth, None);
}

#[test]
fn stat_regular_file() {
    let md = parse_stat_response("/sdcard/stat_test.txt", FILE_MODE, 12, 1_700_000_000)
        .expect("to get file stats");
    assert_eq!(md.file_mode, UnixFileStatus::RegularFile);
    assert_eq!(md.size, 12);
}

#[test]
fn stat_nonexistent_path() {
    let result = parse_stat_response("/sdcard/nonexistent", 0, 0, 0);
    match result {
        Err(DeviceError::Adb(msg)) => {
            assert!(msg.contains("No such file or directory"));
        }
        _ => panic!("Expected Adb error for nonexistent file"),
    }
}

#[test]
fn stat_unknown_mode() {
    let err = parse_stat_response("/x", 0o010_000, 0, 0).unwrap_err();
    match err {
        DeviceError::Adb(m) => assert_eq!(m, "Unknown file mode: 0x1000"),
        other => panic!("unexpected error {:?}", other),
    }
}

#[test]
fn push_status_words() {
    assert_eq!(push_status(b"OKAY").unwrap(), true);
    assert_eq!(push_status(b"FAIL").unwrap(), false);
    let err = push_status(b"WHAT").unwrap_err();
    match err {
        DeviceError::Adb(m) => assert_eq!(m, "FAIL (unknown)"),
        other => panic!("unexpected error {:?}", other),
    }
}

#[test]
fn response_payload_drops_stacked_okay() {
    let r = process_response_payload(b"OKAYpayload".to_vec(), false).unwrap();
    assert_eq!(r, b"payload".to_vec());
}

#[test]
fn response_payload_surfaces_stacked_fail() {
    let mut resp = b"OKAYFAIL".to_vec();
    resp.extend_from_slice(b"0004oops");
    let err = process_response_payload(resp, false).unwrap_err();
    match err {
        DeviceError::Adb(m) => assert_eq!(m, "adb error: oops"),
        other => panic!("unexpected error {:?}", other),
    }
}

#[test]
fn response_payload_splits_framed_length() {
    let r = process_response_payload(b"0005hello".to_vec(), true).unwrap();
    assert_eq!(r, b"hello".to_vec());
}

#[test]
fn response_payload_rejects_bad_length_digits() {
    let err = process_response_payload(b"zzzzhello".to_vec(), true).unwrap_err();
    assert!(matches!(err, DeviceError::ParseInt));
}

#[test]
fn response_payload_plain_without_framing() {
    let r = process_response_payload(b"Linux\n".to_vec(), false).unwrap();
    assert_eq!(r, b"Linux\n".to_vec());
}
