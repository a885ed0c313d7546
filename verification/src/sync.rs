//! The sync sub-protocol: typed frames over 4-byte command words and
//! little-endian lengths, directory-entry interpretation, file metadata,
//! and the encoding and decoding of transfer streams.

use vstd::prelude::*;
use vstd::string::StringSliceAdditionalSpecFns;

use crate::codec::{
    code_matches, read_length_little_endian, spec_udec, u32_to_hex_lower, u64_to_dec,
    write_length_little_endian, SyncCommand,
};
use crate::error::DeviceError;
use crate::strutil::str_eq;
use crate::strutil::str_from_utf8;

verus! {

/// The kind of a file as the device reports it in `stat` and `list`
/// replies.
#[derive(Debug, Clone, Copy, PartialEq, Eq, PartialOrd, Ord, Structural)]
pub enum UnixFileStatus {
    Directory,
    CharacterDevice,
    BlockDevice,
    RegularFile,
    SymbolicLink,
    Socket,
}

/// The mathematical content of a file metadata record.
pub ghost struct FileMetadataModel {
    pub path: Seq<char>,
    pub file_mode: UnixFileStatus,
    pub size: u32,
    pub modified_time: Option<u64>,
    pub depth: Option<usize>,
}

/// What the device reports about one file: its path, kind, size in bytes,
/// modification time in seconds since the epoch, and, for recursive
/// listings, its depth below the listing root.  Directories and symbolic
/// links report size 0.
#[derive(Debug, Clone, Eq, PartialEq, Ord, PartialOrd)]
pub struct FileMetadata {
    pub path: String,
    pub file_mode: UnixFileStatus,
    pub size: u32,
    pub modified_time: Option<u64>,
    pub depth: Option<usize>,
}

impl View for FileMetadata {
    type V = FileMetadataModel;

    open spec fn view(&self) -> FileMetadataModel {
        FileMetadataModel {
            path: self.path@,
            file_mode: self.file_mode,
            size: self.size,
            modified_time: self.modified_time,
            depth: self.depth,
        }
    }
}

/// The models of a sequence of metadata records.
pub open spec fn fm_views(s: Seq<FileMetadata>) -> Seq<FileMetadataModel> {
    s.map_values(|f: FileMetadata| f@)
}

/// The file kind named by the high four bits of a `stat` mode, if any.
pub open spec fn spec_stat_file_mode(mode: u32) -> Option<UnixFileStatus> {
    let m = ((mode as int) / 0x1000) % 0x10;
    if m == 0x4 {
        Some(UnixFileStatus::Directory)
    } else if m == 0x2 {
        Some(UnixFileStatus::CharacterDevice)
    } else if m == 0x6 {
        Some(UnixFileStatus::BlockDevice)
    } else if m == 0x8 {
        Some(UnixFileStatus::RegularFile)
    } else if m == 0xA {
        Some(UnixFileStatus::SymbolicLink)
    } else if m == 0xC {
        Some(UnixFileStatus::Socket)
    } else {
        None
    }
}

/// Interprets the 12-byte body of a `STAT` reply for `path`.  Mode 0 means
/// the path does not exist; a mode with an unrecognised kind is a protocol
/// error; time 0 means no modification time is known.
pub fn parse_stat_response(path: &str, mode: u32, size: u32, time: u32) -> (r: Result<
    FileMetadata,
    DeviceError,
>)
    ensures
        mode == 0 ==> (r matches Err(e) && e matches DeviceError::Adb(m) && m@
            == "adb: stat failed: No such file or directory"@),
        mode != 0 && spec_stat_file_mode(mode) is None ==> (r matches Err(e) && e
            matches DeviceError::Adb(m) && m@ == "Unknown file mode: 0x"@
            + crate::codec::spec_uhex_lower(mode as nat)),
        mode != 0 && spec_stat_file_mode(mode) is Some ==> (r matches Ok(md) && md@
            == (FileMetadataModel {
            path: path@,
            file_mode: spec_stat_file_mode(mode).unwrap(),
            size: size,
            modified_time: if time == 0 {
                None
            } else {
                Some(time as u64)
            },
            depth: None,
        })),
{
    if mode == 0 {
        return Err(
            DeviceError::Adb(String::from_str("adb: stat failed: No such file or directory")),
        );
    }
    let m = (mode / 0x1000) % 0x10;
    let file_mode = if m == 0x4 {
        UnixFileStatus::Directory
    } else if m == 0x2 {
        UnixFileStatus::CharacterDevice
    } else if m == 0x6 {
        UnixFileStatus::BlockDevice
    } else if m == 0x8 {
        UnixFileStatus::RegularFile
    } else if m == 0xA {
        UnixFileStatus::SymbolicLink
    } else if m == 0xC {
        UnixFileStatus::Socket
    } else {
        let msg = String::from_str("Unknown file mode: 0x").concat(
            u32_to_hex_lower(mode).as_str(),
        );
        return Err(DeviceError::Adb(msg));
    };
    Ok(
        FileMetadata {
            path: path.to_owned(),
            file_mode,
            size,
            modified_time: if time == 0 {
                None
            } else {
                Some(time as u64)
            },
            depth: None,
        },
    )
}

/// The three file-type bits of a directory-entry mode.
pub open spec fn spec_dent_file_type(mode: u32) -> int {
    ((mode as int) / 0x2000) % 8
}

/// The listed path of a directory entry: the name, under the listing
/// prefix when one is set.
pub open spec fn spec_dent_path(prefix: Seq<char>, name: Seq<char>) -> Seq<char> {
    if prefix.len() == 0 {
        name
    } else {
        prefix + "/"@ + name
    }
}

/// How one `DENT` frame is interpreted: the entries `.` and `..` are
/// skipped (the outer `Some(None)`); directories, regular files and
/// symbolic links become records (directories and links with size 0); any
/// other file type is a protocol error (the outer `None`).
pub open spec fn spec_dent_entry(
    mode: u32,
    size: u32,
    time: u32,
    name: Seq<char>,
    depth: usize,
    prefix: Seq<char>,
) -> Option<Option<FileMetadataModel>> {
    if name == "."@ || name == ".."@ {
        Some(None)
    } else {
        let ft = spec_dent_file_type(mode);
        let path = spec_dent_path(prefix, name);
        if ft == 2 {
            Some(
                Some(
                    FileMetadataModel {
                        path,
                        file_mode: UnixFileStatus::Directory,
                        size: 0,
                        modified_time: Some(time as u64),
                        depth: Some(depth),
                    },
                ),
            )
        } else if ft == 4 {
            Some(
                Some(
                    FileMetadataModel {
                        path,
                        file_mode: UnixFileStatus::RegularFile,
                        size: size,
                        modified_time: Some(time as u64),
                        depth: Some(depth),
                    },
                ),
            )
        } else if ft == 5 {
            Some(
                Some(
                    FileMetadataModel {
                        path,
                        file_mode: UnixFileStatus::SymbolicLink,
                        size: 0,
                        modified_time: Some(time as u64),
                        depth: Some(depth),
                    },
                ),
            )
        } else {
            None
        }
    }
}

/// Interprets one `DENT` frame of a directory listing.
pub fn dent_entry(mode: u32, size: u32, time: u32, name: &str, depth: usize, prefix: &str) -> (r:
    Result<Option<FileMetadata>, DeviceError>)
    ensures
        spec_dent_entry(mode, size, time, name@, depth, prefix@) matches Some(opt) ==> (r matches Ok(
            o,
        ) && ((o is None) == (opt is None)) && (o matches Some(fm) ==> opt matches Some(m) && fm@
            == m)),
        spec_dent_entry(mode, size, time, name@, depth, prefix@) is None ==> (r matches Err(e) && e
            matches DeviceError::Adb(msg) && msg@ == "Invalid file mode "@ + spec_udec(
            spec_dent_file_type(mode) as nat,
        )),
{
    if str_eq(name, ".") || str_eq(name, "..") {
        return Ok(None);
    }
    let ft = (mode / 0x2000) % 8;
    let path: String = if prefix.is_empty() {
        name.to_owned()
    } else {
        let p = prefix.to_owned().concat("/").concat(name);
        proof {
            assert(p@ =~= prefix@ + "/"@ + name@);
        }
        p
    };
    if ft == 2 {
        Ok(
            Some(
                FileMetadata {
                    path,
                    file_mode: UnixFileStatus::Directory,
                    size: 0,
                    modified_time: Some(time as u64),
                    depth: Some(depth),
                },
            ),
        )
    } else if ft == 4 {
        Ok(
            Some(
                FileMetadata {
                    path,
                    file_mode: UnixFileStatus::RegularFile,
                    size,
                    modified_time: Some(time as u64),
                    depth: Some(depth),
                },
            ),
        )
    } else if ft == 5 {
        Ok(
            Some(
                FileMetadata {
                    path,
                    file_mode: UnixFileStatus::SymbolicLink,
                    size: 0,
                    modified_time: Some(time as u64),
                    depth: Some(depth),
                },
            ),
        )
    } else {
        let msg = String::from_str("Invalid file mode ").concat(u64_to_dec(ft as u64).as_str());
        Err(DeviceError::Adb(msg))
    }
}

/// The protocol error carried by a sync `FAIL` frame: the server's message
/// when it is UTF-8, a placeholder otherwise.
pub fn fail_message_error(bytes: &[u8]) -> (r: DeviceError)
    ensures
        vstd::utf8::valid_utf8(bytes@) ==> (r matches DeviceError::Adb(m) && m@ == "adb error: "@
            + vstd::utf8::decode_utf8(bytes@)),
        !vstd::utf8::valid_utf8(bytes@) ==> (r matches DeviceError::Adb(m) && m@
            == "adb error was not utf-8"@),
{
    match str_from_utf8(bytes) {
        Some(s) => DeviceError::Adb(String::from_str("adb error: ").concat(s)),
        None => DeviceError::Adb(String::from_str("adb error was not utf-8")),
    }
}

/// The four little-endian bytes of the low 32 bits of a length.
pub open spec fn spec_le32_bytes(n: int) -> Seq<u8> {
    seq![
        (n % 0x100) as u8,
        ((n / 0x100) % 0x100) as u8,
        ((n / 0x1_0000) % 0x100) as u8,
        ((n / 0x100_0000) % 0x100) as u8,
    ]
}

/// A sync request frame: the command word, the argument's byte length in
/// little-endian, then the argument.
pub open spec fn spec_sync_request(cmd: SyncCommand, arg_bytes: Seq<u8>) -> Seq<u8> {
    cmd.spec_code() + spec_le32_bytes(arg_bytes.len() as int) + arg_bytes
}

/// Frames a sync request carrying `arg`, as `LIST`, `RECV`, `STAT` and
/// `SEND` send it.
pub fn sync_request(cmd: SyncCommand, arg: &str) -> (r: Vec<u8>)
    ensures
        r@ == spec_sync_request(cmd, arg.spec_bytes()),
{
    let mut r = cmd.code();
    let ab = arg.as_bytes();
    let len = write_length_little_endian(ab.len());
    r.append(&mut len.clone());
    r.extend_from_slice(ab);
    proof {
        assert(r@ =~= spec_sync_request(cmd, arg.spec_bytes()));
    }
    r
}

/// The argument of a `SEND` request: the destination path, a comma, and
/// the requested mode in decimal.
pub open spec fn spec_send_args(path: Seq<char>, mode: u32) -> Seq<char> {
    path + ","@ + spec_udec(mode as nat)
}

/// Builds the `<path>,<mode>` argument of a `SEND` request.
pub fn send_args(path: &str, mode: u32) -> (r: String)
    ensures
        r@ == spec_send_args(path@, mode),
{
    let r = path.to_owned().concat(",").concat(u64_to_dec(mode as u64).as_str());
    proof {
        assert(r@ =~= spec_send_args(path@, mode));
    }
    r
}

/// Interprets the final 4-byte status of a push: `OKAY` succeeds with
/// `true`; `FAIL` yields `false`, after which the server's message frame
/// follows; any other word is the unknown-failure protocol error.
pub fn push_status(status: &[u8]) -> (r: Result<bool, DeviceError>)
    requires
        status@.len() >= 4,
    ensures
        crate::codec::spec_code_at(status@, SyncCommand::Okay) ==> (r matches Ok(b) && b == true),
        !crate::codec::spec_code_at(status@, SyncCommand::Okay) && crate::codec::spec_code_at(
            status@,
            SyncCommand::Fail,
        ) ==> (r matches Ok(b) && b == false),
        !crate::codec::spec_code_at(status@, SyncCommand::Okay) && !crate::codec::spec_code_at(
            status@,
            SyncCommand::Fail,
        ) ==> (r matches Err(e) && e matches DeviceError::Adb(m) && m@ == "FAIL (unknown)"@),
{
    if code_matches(status, SyncCommand::Okay) {
        Ok(true)
    } else if code_matches(status, SyncCommand::Fail) {
        Ok(false)
    } else {
        Err(DeviceError::Adb(String::from_str("FAIL (unknown)")))
    }
}

/// Why decoding a sync reply stream stopped short of a result.
pub ghost enum SyncStreamError {
    /// The stream ended inside a frame.
    Truncated,
    /// A directory-entry name was not valid UTF-8.
    BadName,
    /// A directory entry carried a file type outside the accepted three;
    /// carries the entry's mode.
    InvalidMode(u32),
    /// The server sent `FAIL` with this message.
    ServerFail(Seq<u8>),
    /// An unrecognised command word arrived.
    UnknownCode,
}

/// The value of the four little-endian bytes of `input` at `at`.
pub open spec fn spec_le32_at(input: Seq<u8>, at: int) -> int {
    input[at] + input[at + 1] * 0x100 + input[at + 2] * 0x1_0000 + input[at + 3] * 0x100_0000
}

/// The meaning of a `LIST` reply stream: `DENT` frames in order until a
/// `DONE`, each interpreted under `depth` and `prefix`; a `FAIL` or an
/// unknown word ends the listing with an error.
pub open spec fn spec_parse_list(input: Seq<u8>, depth: usize, prefix: Seq<char>) -> Result<
    Seq<FileMetadataModel>,
    SyncStreamError,
>
    decreases input.len(),
{
    if input.len() < 4 {
        Err(SyncStreamError::Truncated)
    } else if input.subrange(0, 4) == SyncCommand::Dent.spec_code() {
        if input.len() < 20 {
            Err(SyncStreamError::Truncated)
        } else {
            let mode = spec_le32_at(input, 4) as u32;
            let size = spec_le32_at(input, 8) as u32;
            let time = spec_le32_at(input, 12) as u32;
            let nlen = spec_le32_at(input, 16);
            if input.len() < 20 + nlen {
                Err(SyncStreamError::Truncated)
            } else {
                let nb = input.subrange(20, 20 + nlen);
                if !vstd::utf8::valid_utf8(nb) {
                    Err(SyncStreamError::BadName)
                } else {
                    match spec_dent_entry(
                        mode,
                        size,
                        time,
                        vstd::utf8::decode_utf8(nb),
                        depth,
                        prefix,
                    ) {
                        None => Err(SyncStreamError::InvalidMode(mode)),
                        Some(opt) => match spec_parse_list(input.skip(20 + nlen), depth, prefix) {
                            Err(e) => Err(e),
                            Ok(rest) => Ok(
                                match opt {
                                    Some(m) => seq![m] + rest,
                                    None => rest,
                                },
                            ),
                        },
                    }
                }
            }
        }
    } else if input.subrange(0, 4) == SyncCommand::Done.spec_code() {
        Ok(Seq::empty())
    } else if input.subrange(0, 4) == SyncCommand::Fail.spec_code() {
        if input.len() < 8 {
            Err(SyncStreamError::Truncated)
        } else {
            let n = spec_le32_at(input, 4);
            if input.len() < 8 + n {
                Err(SyncStreamError::Truncated)
            } else {
                Err(SyncStreamError::ServerFail(input.subrange(8, 8 + n)))
            }
        }
    } else {
        Err(SyncStreamError::UnknownCode)
    }
}

/// Decodes a complete `LIST` reply stream into its directory entries.
/// Every outcome of the stream is mapped: entries on a well-formed stream
/// ending in `DONE`, and the matching error for a truncated stream, a
/// non-UTF-8 name, an alien file type, a server `FAIL`, or an unknown
/// command word.
#[verifier::rlimit(100)]
pub fn parse_list_payload(input: &[u8], depth: usize, prefix: &str) -> (r: Result<
    Vec<FileMetadata>,
    DeviceError,
>)
    ensures
        spec_parse_list(input@, depth, prefix@) matches Ok(es) ==> (r matches Ok(v) && fm_views(
            v@,
        ) == es),
        spec_parse_list(input@, depth, prefix@) is Err ==> r is Err,
        spec_parse_list(input@, depth, prefix@) matches Err(se) ==> (se
            == SyncStreamError::Truncated ==> (r matches Err(e) && e matches DeviceError::Io(_))),
        spec_parse_list(input@, depth, prefix@) matches Err(se) ==> (se
            == SyncStreamError::BadName ==> (r matches Err(e) && e == DeviceError::Utf8)),
        spec_parse_list(input@, depth, prefix@) matches Err(se) ==> (se matches
            SyncStreamError::InvalidMode(m) ==> (r matches Err(e) && e matches DeviceError::Adb(
            msg,
        ) && msg@ == "Invalid file mode "@ + spec_udec(spec_dent_file_type(m) as nat))),
        spec_parse_list(input@, depth, prefix@) matches Err(se) ==> (se matches
            SyncStreamError::ServerFail(b) ==> (r matches Err(e) && e matches DeviceError::Adb(msg)
            && (vstd::utf8::valid_utf8(b) ==> msg@ == "adb error: "@ + vstd::utf8::decode_utf8(b))
            && (!vstd::utf8::valid_utf8(b) ==> msg@ == "adb error was not utf-8"@))),
        spec_parse_list(input@, depth, prefix@) matches Err(se) ==> (se
            == SyncStreamError::UnknownCode ==> (r matches Err(e) && e matches DeviceError::Adb(
            msg,
        ) && msg@ == "FAIL (unknown)"@)),
{
    let len = input.len();
    let mut out: Vec<FileMetadata> = Vec::new();
    let mut pos: usize = 0;
    proof {
        assert(input@.skip(0) =~= input@);
        assert(fm_views(out@) =~= Seq::<FileMetadataModel>::empty());
        match spec_parse_list(input@, depth, prefix@) {
            Ok(es) => {
                assert(fm_views(out@) + es =~= es);
            },
            Err(_) => {},
        }
    }
    loop
        invariant
            len == input@.len(),
            0 <= pos <= len,
            spec_parse_list(input@.skip(pos as int), depth, prefix@) matches Ok(rest)
                ==> spec_parse_list(input@, depth, prefix@) == Ok::<_, SyncStreamError>(
                fm_views(out@) + rest,
            ),
            spec_parse_list(input@.skip(pos as int), depth, prefix@) is Err ==> spec_parse_list(
                input@,
                depth,
                prefix@,
            ) == spec_parse_list(input@.skip(pos as int), depth, prefix@),
        decreases len - pos,
    {
        let ghost rest = input@.skip(pos as int);
        if len - pos < 4 {
            return Err(DeviceError::Io(String::from_str("unexpected end of stream")));
        }
        let code = &input[pos..pos + 4];
        proof {
            assert(code@ =~= rest.subrange(0, 4));
            assert(code@.subrange(0, 4) =~= code@);
        }
        if code_matches(code, SyncCommand::Dent) {
            proof {
                assert(rest.subrange(0, 4) =~= SyncCommand::Dent.spec_code());
            }
            if len - pos < 20 {
                return Err(DeviceError::Io(String::from_str("unexpected end of stream")));
            }
            let mode_n = read_length_little_endian(&input[pos + 4..pos + 8]);
            let size_n = read_length_little_endian(&input[pos + 8..pos + 12]);
            let time_n = read_length_little_endian(&input[pos + 12..pos + 16]);
            let nlen = read_length_little_endian(&input[pos + 16..pos + 20]);
            proof {
                assert(input@.subrange(pos + 4, pos + 8)[0] == rest[4]);
                assert(input@.subrange(pos + 4, pos + 8)[1] == rest[5]);
                assert(input@.subrange(pos + 4, pos + 8)[2] == rest[6]);
                assert(input@.subrange(pos + 4, pos + 8)[3] == rest[7]);
                assert(input@.subrange(pos + 8, pos + 12)[0] == rest[8]);
                assert(input@.subrange(pos + 8, pos + 12)[1] == rest[9]);
                assert(input@.subrange(pos + 8, pos + 12)[2] == rest[10]);
                assert(input@.subrange(pos + 8, pos + 12)[3] == rest[11]);
                assert(input@.subrange(pos + 12, pos + 16)[0] == rest[12]);
                assert(input@.subrange(pos + 12, pos + 16)[1] == rest[13]);
                assert(input@.subrange(pos + 12, pos + 16)[2] == rest[14]);
                assert(input@.subrange(pos + 12, pos + 16)[3] == rest[15]);
                assert(input@.subrange(pos + 16, pos + 20)[0] == rest[16]);
                assert(input@.subrange(pos + 16, pos + 20)[1] == rest[17]);
                assert(input@.subrange(pos + 16, pos + 20)[2] == rest[18]);
                assert(input@.subrange(pos + 16, pos + 20)[3] == rest[19]);
                assert(mode_n == spec_le32_at(rest, 4));
                assert(size_n == spec_le32_at(rest, 8));
                assert(time_n == spec_le32_at(rest, 12));
                assert(nlen == spec_le32_at(rest, 16));
            }
            if nlen > len - (pos + 20) {
                return Err(DeviceError::Io(String::from_str("unexpected end of stream")));
            }
            let name_bytes = &input[pos + 20..pos + 20 + nlen];
            proof {
                assert(name_bytes@ =~= rest.subrange(20, 20 + nlen as int));
            }
            let name = match str_from_utf8(name_bytes) {
                Some(s) => s,
                None => {
                    return Err(DeviceError::Utf8);
                },
            };
            let entry = dent_entry(mode_n as u32, size_n as u32, time_n as u32, name, depth, prefix);
            match entry {
                Err(e) => {
                    return Err(e);
                },
                Ok(opt) => {
                    let ghost old_views = fm_views(out@);
                    let ghost gopt = spec_dent_entry(
                        mode_n as u32,
                        size_n as u32,
                        time_n as u32,
                        name@,
                        depth,
                        prefix@,
                    );
                    match opt {
                        Some(fm) => {
                            out.push(fm);
                        },
                        None => {
                        },
                    }
                    proof {
                        assert(rest.skip(20 + nlen as int) =~= input@.skip(
                            pos as int + 20 + nlen as int,
                        ));
                        let after = spec_parse_list(
                            input@.skip(pos as int + 20 + nlen as int),
                            depth,
                            prefix@,
                        );
                        match after {
                            Ok(r2) => {
                                match gopt {
                                    Some(Some(m)) => {
                                        assert(fm_views(out@) =~= old_views + seq![m]);
                                        assert(old_views + (seq![m] + r2) =~= fm_views(out@) + r2);
                                    },
                                    Some(None) => {
                                        assert(fm_views(out@) =~= old_views);
                                    },
                                    None => {},
                                }
                            },
                            Err(_) => {},
                        }
                    }
                    pos = pos + 20 + nlen;
                },
            }
        } else if code_matches(code, SyncCommand::Done) {
            proof {
                assert(rest.subrange(0, 4) =~= SyncCommand::Done.spec_code());
                assert(rest.subrange(0, 4) != SyncCommand::Dent.spec_code());
                assert(fm_views(out@) + Seq::<FileMetadataModel>::empty() =~= fm_views(out@));
            }
            return Ok(out);
        } else if code_matches(code, SyncCommand::Fail) {
            proof {
                assert(rest.subrange(0, 4) =~= SyncCommand::Fail.spec_code());
                assert(rest.subrange(0, 4) != SyncCommand::Dent.spec_code());
                assert(rest.subrange(0, 4) != SyncCommand::Done.spec_code());
            }
            if len - pos < 8 {
                return Err(DeviceError::Io(String::from_str("unexpected end of stream")));
            }
            let n = read_length_little_endian(&input[pos + 4..pos + 8]);
            proof {
                assert(input@.subrange(pos + 4, pos + 8)[0] == rest[4]);
                assert(input@.subrange(pos + 4, pos + 8)[1] == rest[5]);
                assert(input@.subrange(pos + 4, pos + 8)[2] == rest[6]);
                assert(input@.subrange(pos + 4, pos + 8)[3] == rest[7]);
                assert(n == spec_le32_at(rest, 4));
            }
            if n > len - (pos + 8) {
                return Err(DeviceError::Io(String::from_str("unexpected end of stream")));
            }
            let msg = &input[pos + 8..pos + 8 + n];
            proof {
                assert(msg@ =~= rest.subrange(8, 8 + n as int));
            }
            return Err(fail_message_error(msg));
        } else {
            proof {
                assert(rest.subrange(0, 4) != SyncCommand::Dent.spec_code());
                assert(rest.subrange(0, 4) != SyncCommand::Done.spec_code());
                assert(rest.subrange(0, 4) != SyncCommand::Fail.spec_code());
            }
            return Err(DeviceError::Adb(String::from_str("FAIL (unknown)")));
        }
    }
}

/// The meaning of a `RECV` reply stream: the concatenation of the `DATA`
/// payloads up to a `DONE`; a `FAIL` or an unknown word ends the transfer
/// with an error.
pub open spec fn spec_parse_pull(input: Seq<u8>) -> Result<Seq<u8>, SyncStreamError>
    decreases input.len(),
{
    if input.len() < 4 {
        Err(SyncStreamError::Truncated)
    } else if input.subrange(0, 4) == SyncCommand::Data.spec_code() {
        if input.len() < 8 {
            Err(SyncStreamError::Truncated)
        } else {
            let n = spec_le32_at(input, 4);
            if input.len() < 8 + n {
                Err(SyncStreamError::Truncated)
            } else {
                match spec_parse_pull(input.skip(8 + n)) {
                    Err(e) => Err(e),
                    Ok(rest) => Ok(input.subrange(8, 8 + n) + rest),
                }
            }
        }
    } else if input.subrange(0, 4) == SyncCommand::Done.spec_code() {
        Ok(Seq::empty())
    } else if input.subrange(0, 4) == SyncCommand::Fail.spec_code() {
        if input.len() < 8 {
            Err(SyncStreamError::Truncated)
        } else {
            let n = spec_le32_at(input, 4);
            if input.len() < 8 + n {
                Err(SyncStreamError::Truncated)
            } else {
                Err(SyncStreamError::ServerFail(input.subrange(8, 8 + n)))
            }
        }
    } else {
        Err(SyncStreamError::UnknownCode)
    }
}

/// Decodes a complete `RECV` reply stream into the pulled bytes.
#[verifier::rlimit(60)]
pub fn parse_pull_payload(input: &[u8]) -> (r: Result<Vec<u8>, DeviceError>)
    ensures
        spec_parse_pull(input@) matches Ok(content) ==> (r matches Ok(v) && v@ == content),
        spec_parse_pull(input@) is Err ==> r is Err,
        spec_parse_pull(input@) matches Err(se) ==> (se == SyncStreamError::Truncated ==> (r
            matches Err(e) && e matches DeviceError::Io(_))),
        spec_parse_pull(input@) matches Err(se) ==> (se matches SyncStreamError::ServerFail(b) ==> (
        r matches Err(e) && e matches DeviceError::Adb(msg) && (vstd::utf8::valid_utf8(b) ==> msg@
            == "adb error: "@ + vstd::utf8::decode_utf8(b)) && (!vstd::utf8::valid_utf8(b) ==> msg@
            == "adb error was not utf-8"@))),
        spec_parse_pull(input@) matches Err(se) ==> (se == SyncStreamError::UnknownCode ==> (r
            matches Err(e) && e matches DeviceError::Adb(msg) && msg@ == "FAIL (unknown)"@)),
{
    let len = input.len();
    let mut out: Vec<u8> = Vec::new();
    let mut pos: usize = 0;
    proof {
        assert(input@.skip(0) =~= input@);
        match spec_parse_pull(input@) {
            Ok(content) => {
                assert(out@ + content =~= content);
            },
            Err(_) => {},
        }
    }
    loop
        invariant
            len == input@.len(),
            0 <= pos <= len,
            spec_parse_pull(input@.skip(pos as int)) matches Ok(rest) ==> spec_parse_pull(input@)
                == Ok::<_, SyncStreamError>(out@ + rest),
            spec_parse_pull(input@.skip(pos as int)) is Err ==> spec_parse_pull(input@)
                == spec_parse_pull(input@.skip(pos as int)),
        decreases len - pos,
    {
        let ghost rest = input@.skip(pos as int);
        if len - pos < 4 {
            return Err(DeviceError::Io(String::from_str("unexpected end of stream")));
        }
        let code = &input[pos..pos + 4];
        proof {
            assert(code@ =~= rest.subrange(0, 4));
            assert(code@.subrange(0, 4) =~= code@);
        }
        if code_matches(code, SyncCommand::Data) {
            proof {
                assert(rest.subrange(0, 4) =~= SyncCommand::Data.spec_code());
            }
            if len - pos < 8 {
                return Err(DeviceError::Io(String::from_str("unexpected end of stream")));
            }
            let n = read_length_little_endian(&input[pos + 4..pos + 8]);
            proof {
                assert(input@.subrange(pos + 4, pos + 8)[0] == rest[4]);
                assert(input@.subrange(pos + 4, pos + 8)[1] == rest[5]);
                assert(input@.subrange(pos + 4, pos + 8)[2] == rest[6]);
                assert(input@.subrange(pos + 4, pos + 8)[3] == rest[7]);
                assert(n == spec_le32_at(rest, 4));
            }
            if n > len - (pos + 8) {
                return Err(DeviceError::Io(String::from_str("unexpected end of stream")));
            }
            let chunk = &input[pos + 8..pos + 8 + n];
            let ghost old_out = out@;
            out.extend_from_slice(chunk);
            proof {
                assert(chunk@ =~= rest.subrange(8, 8 + n as int));
                assert(out@ =~= old_out + rest.subrange(8, 8 + n as int));
                assert(rest.skip(8 + n as int) =~= input@.skip(pos as int + 8 + n as int));
                let after = spec_parse_pull(input@.skip(pos as int + 8 + n as int));
                match after {
                    Ok(r2) => {
                        assert(old_out + (rest.subrange(8, 8 + n as int) + r2) =~= out@ + r2);
                    },
                    Err(_) => {},
                }
            }
            pos = pos + 8 + n;
        } else if code_matches(code, SyncCommand::Done) {
            proof {
                assert(rest.subrange(0, 4) =~= SyncCommand::Done.spec_code());
                assert(rest.subrange(0, 4) != SyncCommand::Data.spec_code());
                assert(out@ + Seq::<u8>::empty() =~= out@);
                assert(spec_parse_pull(input@.skip(pos as int)) == Ok::<Seq<u8>, SyncStreamError>(
                    Seq::empty(),
                ));
                assert(spec_parse_pull(input@) == Ok::<Seq<u8>, SyncStreamError>(out@));
            }
            return Ok(out);
        } else if code_matches(code, SyncCommand::Fail) {
            proof {
                assert(rest.subrange(0, 4) =~= SyncCommand::Fail.spec_code());
                assert(rest.subrange(0, 4) != SyncCommand::Data.spec_code());
                assert(rest.subrange(0, 4) != SyncCommand::Done.spec_code());
            }
            if len - pos < 8 {
                return Err(DeviceError::Io(String::from_str("unexpected end of stream")));
            }
            let n = read_length_little_endian(&input[pos + 4..pos + 8]);
            proof {
                assert(input@.subrange(pos + 4, pos + 8)[0] == rest[4]);
                assert(input@.subrange(pos + 4, pos + 8)[1] == rest[5]);
                assert(input@.subrange(pos + 4, pos + 8)[2] == rest[6]);
                assert(input@.subrange(pos + 4, pos + 8)[3] == rest[7]);
                assert(n == spec_le32_at(rest, 4));
            }
            if n > len - (pos + 8) {
                return Err(DeviceError::Io(String::from_str("unexpected end of stream")));
            }
            let msg = &input[pos + 8..pos + 8 + n];
            proof {
                assert(msg@ =~= rest.subrange(8, 8 + n as int));
            }
            return Err(fail_message_error(msg));
        } else {
            proof {
                assert(rest.subrange(0, 4) != SyncCommand::Data.spec_code());
                assert(rest.subrange(0, 4) != SyncCommand::Done.spec_code());
                assert(rest.subrange(0, 4) != SyncCommand::Fail.spec_code());
            }
            return Err(DeviceError::Adb(String::from_str("FAIL (unknown)")));
        }
    }
}

/// The byte stream a push sends after its `SEND` request: the content in
/// `DATA` frames of at most `chunk` bytes, then `DONE` carrying the
/// modification time.
pub open spec fn spec_push_frames(content: Seq<u8>, chunk: int, mtime: u32) -> Seq<u8>
    decreases content.len(),
{
    if content.len() == 0 || chunk < 1 {
        SyncCommand::Done.spec_code() + spec_le32_bytes(mtime as int)
    } else {
        let n = if content.len() < chunk {
            content.len() as int
        } else {
            chunk
        };
        SyncCommand::Data.spec_code() + spec_le32_bytes(n) + content.take(n) + spec_push_frames(
            content.skip(n),
            chunk,
            mtime,
        )
    }
}

/// Encodes the pushed content as its on-wire `DATA` frames followed by the
/// closing `DONE` frame.
pub fn encode_push_payload(content: &[u8], chunk: usize, mtime: u32) -> (r: Vec<u8>)
    requires
        chunk >= 1,
    ensures
        r@ == spec_push_frames(content@, chunk as int, mtime),
{
    let len = content.len();
    let mut out: Vec<u8> = Vec::new();
    let mut pos: usize = 0;
    proof {
        assert(content@.skip(0) =~= content@);
        assert(out@ + spec_push_frames(content@, chunk as int, mtime) =~= spec_push_frames(
            content@,
            chunk as int,
            mtime,
        ));
    }
    while pos < len
        invariant
            chunk >= 1,
            len == content@.len(),
            0 <= pos <= len,
            spec_push_frames(content@, chunk as int, mtime) == out@ + spec_push_frames(
                content@.skip(pos as int),
                chunk as int,
                mtime,
            ),
        decreases len - pos,
    {
        let ghost rest = content@.skip(pos as int);
        let n = if len - pos < chunk {
            len - pos
        } else {
            chunk
        };
        let ghost old_out = out@;
        let mut header = SyncCommand::Data.code();
        out.append(&mut header);
        let mut lenb = write_length_little_endian(n);
        out.append(&mut lenb);
        out.extend_from_slice(&content[pos..pos + n]);
        proof {
            assert(content@.subrange(pos as int, pos + n as int) =~= rest.take(n as int));
            assert(rest.skip(n as int) =~= content@.skip(pos as int + n as int));
            assert(out@ =~= old_out + SyncCommand::Data.spec_code() + spec_le32_bytes(n as int)
                + rest.take(n as int));
            assert(spec_push_frames(rest, chunk as int, mtime) == SyncCommand::Data.spec_code()
                + spec_le32_bytes(n as int) + rest.take(n as int) + spec_push_frames(
                rest.skip(n as int),
                chunk as int,
                mtime,
            ));
            assert(out@ + spec_push_frames(rest.skip(n as int), chunk as int, mtime) =~= old_out
                + spec_push_frames(rest, chunk as int, mtime));
        }
        pos = pos + n;
    }
    let mut done = SyncCommand::Done.code();
    out.append(&mut done);
    let mut timeb = write_length_little_endian(mtime as usize);
    out.append(&mut timeb);
    proof {
        assert(content@.skip(len as int) =~= Seq::<u8>::empty());
        assert(spec_le32_bytes(mtime as usize as int) =~= spec_le32_bytes(mtime as int));
        assert(out@ =~= spec_push_frames(content@, chunk as int, mtime));
    }
    out
}

/// A listing only ends well on a terminator: however many `DENT` frames a
/// stream carries, the decoder accepts it only if a `DONE` word arrives,
/// and every decoding of a finite stream comes to an answer.
pub proof fn lemma_list_ends_with_done(input: Seq<u8>, depth: usize, prefix: Seq<char>)
    ensures
        spec_parse_list(input, depth, prefix) is Ok ==> exists|k: int|
            0 <= k && k + 4 <= input.len() && #[trigger] input.subrange(k, k + 4)
                == SyncCommand::Done.spec_code(),
    decreases input.len(),
{
    if input.len() < 4 {
    } else if input.subrange(0, 4) == SyncCommand::Dent.spec_code() {
        if input.len() >= 20 {
            let nlen = spec_le32_at(input, 16);
            if input.len() >= 20 + nlen {
                let rest = input.skip(20 + nlen);
                lemma_list_ends_with_done(rest, depth, prefix);
                if spec_parse_list(input, depth, prefix) is Ok {
                    assert(spec_parse_list(rest, depth, prefix) is Ok);
                    let k = choose|k: int|
                        0 <= k && k + 4 <= rest.len() && #[trigger] rest.subrange(k, k + 4)
                            == SyncCommand::Done.spec_code();
                    assert(input.subrange(20 + nlen + k, 20 + nlen + k + 4) =~= rest.subrange(
                        k,
                        k + 4,
                    ));
                }
            }
        }
    } else if input.subrange(0, 4) == SyncCommand::Done.spec_code() {
        assert(input.subrange(0int, 0int + 4) == SyncCommand::Done.spec_code());
    }
}

/// Entry paths under one prefix name distinct entries: the listed path
/// determines the entry's own name.
proof fn lemma_dent_path_injective(prefix: Seq<char>, a: Seq<char>, b: Seq<char>)
    ensures
        spec_dent_path(prefix, a) == spec_dent_path(prefix, b) ==> a == b,
{
    reveal_strlit("/");
    if spec_dent_path(prefix, a) == spec_dent_path(prefix, b) {
        if prefix.len() == 0 {
        } else {
            let pa = prefix + "/"@ + a;
            let pb = prefix + "/"@ + b;
            assert(a =~= pa.skip(prefix.len() as int + 1));
            assert(b =~= pb.skip(prefix.len() as int + 1));
        }
    }
}

/// Shape of every listing a well-formed `LIST` stream yields: each entry
/// carries the listing's own depth, and the self and parent entries `.`
/// and `..` never appear.
pub proof fn lemma_list_entries_shape(input: Seq<u8>, depth: usize, prefix: Seq<char>)
    ensures
        spec_parse_list(input, depth, prefix) matches Ok(es) ==> forall|i: int|
            0 <= i < es.len() ==> (#[trigger] es[i]).depth == Some(depth) && es[i].path
                != spec_dent_path(prefix, "."@) && es[i].path != spec_dent_path(prefix, ".."@),
    decreases input.len(),
{
    if input.len() < 4 {
    } else if input.subrange(0, 4) == SyncCommand::Dent.spec_code() {
        if input.len() >= 20 {
            let mode = spec_le32_at(input, 4) as u32;
            let size = spec_le32_at(input, 8) as u32;
            let time = spec_le32_at(input, 12) as u32;
            let nlen = spec_le32_at(input, 16);
            if input.len() >= 20 + nlen {
                let nb = input.subrange(20, 20 + nlen);
                if vstd::utf8::valid_utf8(nb) {
                    let name = vstd::utf8::decode_utf8(nb);
                    lemma_list_entries_shape(input.skip(20 + nlen), depth, prefix);
                    match spec_dent_entry(mode, size, time, name, depth, prefix) {
                        Some(opt) => {
                            match spec_parse_list(input.skip(20 + nlen), depth, prefix) {
                                Ok(rest) => {
                                    match opt {
                                        Some(m) => {
                                            lemma_dent_path_injective(prefix, name, "."@);
                                            lemma_dent_path_injective(prefix, name, ".."@);
                                            let es = seq![m] + rest;
                                            assert forall|i: int| 0 <= i < es.len() implies (
                                            #[trigger] es[i]).depth == Some(depth) && es[i].path
                                                != spec_dent_path(prefix, "."@) && es[i].path
                                                != spec_dent_path(prefix, ".."@) by {
                                                if i == 0 {
                                                    assert(es[0] == m);
                                                } else {
                                                    assert(es[i] == rest[i - 1]);
                                                }
                                            }
                                        },
                                        None => {},
                                    }
                                },
                                Err(_) => {},
                            }
                        },
                        None => {},
                    }
                }
            }
        }
    }
}

/// Round trip of the transfer framing: decoding the `DATA`/`DONE` stream
/// that a push encodes restores the content, whatever the chunk size.
pub proof fn lemma_push_pull_round_trip(content: Seq<u8>, chunk: int, mtime: u32)
    requires
        1 <= chunk < 0x1_0000_0000,
    ensures
        spec_parse_pull(spec_push_frames(content, chunk, mtime)) == Ok::<_, SyncStreamError>(
            content,
        ),
    decreases content.len(),
{
    let frames = spec_push_frames(content, chunk, mtime);
    if content.len() == 0 {
        assert(frames =~= SyncCommand::Done.spec_code() + spec_le32_bytes(mtime as int));
        assert(frames.subrange(0, 4) =~= SyncCommand::Done.spec_code());
        assert(frames.subrange(0, 4) != SyncCommand::Data.spec_code());
        assert(content =~= Seq::<u8>::empty());
    } else {
        let n = if content.len() < chunk {
            content.len() as int
        } else {
            chunk
        };
        let head = SyncCommand::Data.spec_code() + spec_le32_bytes(n) + content.take(n);
        let tail = spec_push_frames(content.skip(n), chunk, mtime);
        assert(frames =~= head + tail);
        assert(frames.subrange(0, 4) =~= SyncCommand::Data.spec_code());
        crate::codec::lemma_le32_decompose(n);
        assert(frames[4] == (n % 0x100) as u8);
        assert(frames[5] == ((n / 0x100) % 0x100) as u8);
        assert(frames[6] == ((n / 0x1_0000) % 0x100) as u8);
        assert(frames[7] == ((n / 0x100_0000) % 0x100) as u8);
        assert(spec_le32_at(frames, 4) == n);
        assert(frames.len() >= 8 + n);
        assert(frames.subrange(8, 8 + n) =~= content.take(n));
        assert(frames.skip(8 + n) =~= tail);
        lemma_push_pull_round_trip(content.skip(n), chunk, mtime);
        assert(content.take(n) + content.skip(n) =~= content);
    }
}

} // verus!
