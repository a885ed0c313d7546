use mozdevice::device::ancestor_plan;
use mozdevice::device::chmod_command;
use mozdevice::device::copy_staging_command;
use mozdevice::device::create_dir_command;
use mozdevice::device::forward_port_result;
use mozdevice::device::list_packages_command;
use mozdevice::device::parent_chain;
use mozdevice::device::path_exists_output;
use mozdevice::device::remove_command;
use mozdevice::device::reverse_port_result;
use mozdevice::devices::track_event;
use mozdevice::host::check_host_version_value;
use mozdevice::host::parse_devices_output;
use mozdevice::host::parse_host_version;
use mozdevice::host::split_features;
use mozdevice::parse_device_brief;
use mozdevice::parse_device_info;
use mozdevice::shell::escape;
use mozdevice::shell::install_command;
use mozdevice::shell::launch_command;
use mozdevice::shell::package_manager_outcome;
use mozdevice::shell::parse_package_list;
use mozdevice::shell::shell_command_as;
use mozdevice::sync::encode_push_payload;
use mozdevice::sync::parse_list_payload;
use mozdevice::sync::parse_pull_payload;
use mozdevice::transfer::aggregated_progress;
use mozdevice::transfer::initial_directory_progress;
use mozdevice::transfer::listing_totals;
use mozdevice::transfer::pull_entry_step;
use mozdevice::transfer::should_emit_progress;
use mozdevice::transfer::ListWalk;
use mozdevice::transfer::TransferStep;
use mozdevice::unixpath::append_components;
use mozdevice::unixpath::path_join;
use mozdevice::unixpath::path_parent;
use mozdevice::unixpath::path_starts_with;
use mozdevice::write_length_little_endian;
use mozdevice::AndroidStorage;
use mozdevice::AndroidStorageInput;
use mozdevice::Device;
use mozdevice::DeviceError;
use mozdevice::DeviceInfo;
use mozdevice::DeviceState;
use mozdevice::Host;
use mozdevice::UnixFileStatus;

#[test]
fn format_own_device_error_types() {
    assert_eq!(
        DeviceError::InvalidStorage.message(),
        "Invalid storage".to_string()
    );
    assert_eq!(
        DeviceError::MissingPackage.message(),
        "Missing package".to_string()
    );
    assert_eq!(
        DeviceError::MultipleDevices.message(),
        "Multiple Android devices online".to_string()
    );
    assert_eq!(
        DeviceError::PackageManagerError("foo".to_string()).message(),
        "Package manager returned an error: foo".to_string()
    );

    assert_eq!(DeviceError::Adb("foo".to_string()).message(), "foo".to_string());
}

#[test]
fn device_state_from_listing_words() {
    assert_eq!(DeviceState::from("device"), DeviceState::Device);
    assert_eq!(DeviceState::from("offline"), DeviceState::Offline);
    assert_eq!(DeviceState::from("no permissions"), DeviceState::NoPermissions);
    assert_eq!(DeviceState::from("unauthorized"), DeviceState::Unauthorized);
    assert_eq!(DeviceState::from("whatever"), DeviceState::Unknown);
}

#[test]
fn parse_device_info_line() {
    let d = parse_device_info(
        "emulator-5554\tdevice product:sdk_gphone64 model:Pixel transport_id:1",
    )
    .expect("a parseable line");
    assert_eq!(d.serial, "emulator-5554");
    assert_eq!(d.state, DeviceState::Device);
    let mut pairs = d.info.clone();
    pairs.sort();
    assert_eq!(
        pairs,
        vec![
            ("model".to_string(), "Pixel".to_string()),
            ("product".to_string(), "sdk_gphone64".to_string()),
            ("transport_id".to_string(), "1".to_string()),
        ]
    );
}

#[test]
fn parse_device_info_drops_malformed_pairs() {
    let d = parse_device_info("serial\tdevice good:1 bad nested:a:b").unwrap();
    assert_eq!(d.info, vec![("good".to_string(), "1".to_string())]);
}

#[test]
fn parse_device_info_needs_two_fields() {
    assert!(parse_device_info("loneserial").is_none());
    assert!(parse_device_info("").is_none());
}

#[test]
fn parse_device_brief_line() {
    let b = parse_device_brief("emulator-5554\toffline").expect("a parseable line");
    assert_eq!(b.serial, "emulator-5554");
    assert_eq!(b.state, DeviceState::Offline);
}

#[test]
fn track_event_rejects_short_lines() {
    let err = track_event("nothing").unwrap_err();
    match err {
        DeviceError::Adb(m) => assert_eq!(m, "Failed to parse device state"),
        other => panic!("unexpected error {:?}", other),
    }
}

fn online(serial: &str) -> DeviceInfo {
    DeviceInfo {
        serial: serial.to_string(),
        state: DeviceState::Device,
        info: Vec::new(),
    }
}

#[test]
fn device_or_default_picks_sole_online_device() {
    let host = Host::default();
    let devices = vec![
        DeviceInfo {
            serial: "off".to_string(),
            state: DeviceState::Offline,
            info: Vec::new(),
        },
        online("emulator-5554"),
    ];
    let device = host
        .device_or_default(devices, None, AndroidStorageInput::Auto)
        .expect("connected device");
    assert_eq!(device.serial, "emulator-5554");
    assert_eq!(device.storage, AndroidStorage::Sdcard);
    assert_eq!(device.run_as_package, None);
    assert!(device.tempfile.starts_with("/data/local/tmp"));
}

#[test]
fn device_or_default_storage_mapping() {
    for (input, expected) in [
        (AndroidStorageInput::App, AndroidStorage::App),
        (AndroidStorageInput::Auto, AndroidStorage::Sdcard),
        (AndroidStorageInput::Internal, AndroidStorage::Internal),
        (AndroidStorageInput::Sdcard, AndroidStorage::Sdcard),
    ] {
        let host = Host::default();
        let device = host
            .device_or_default(vec![online("serial")], None, input)
            .expect("connected device");
        assert_eq!(device.storage, expected);
    }
}

#[test]
fn device_or_default_invalid_serial() {
    let host = Host::default();
    let err = host
        .device_or_default(
            vec![online("serial")],
            Some("foobar".to_string()),
            AndroidStorageInput::Auto,
        )
        .expect_err("invalid serial");
    match err {
        DeviceError::UnknownDevice(s) => assert_eq!(s, "foobar"),
        other => panic!("unexpected error {:?}", other),
    }
}

#[test]
fn device_or_default_multiple_devices() {
    let host = Host::default();
    let err = host
        .device_or_default(
            vec![online("a"), online("b")],
            None,
            AndroidStorageInput::Auto,
        )
        .expect_err("ambiguous selection");
    assert!(matches!(err, DeviceError::MultipleDevices));
}

#[test]
fn device_or_default_no_devices() {
    let host = Host::default();
    let err = host
        .device_or_default(Vec::new(), None, AndroidStorageInput::Auto)
        .expect_err("no devices");
    match err {
        DeviceError::Adb(m) => assert_eq!(m, "No Android devices are online"),
        other => panic!("unexpected error {:?}", other),
    }
}

#[test]
fn storage_input_words() {
    assert!(matches!(
        AndroidStorageInput::parse("auto"),
        Ok(AndroidStorageInput::Auto)
    ));
    assert!(matches!(
        AndroidStorageInput::parse("app"),
        Ok(AndroidStorageInput::App)
    ));
    assert!(matches!(
        AndroidStorageInput::parse("internal"),
        Ok(AndroidStorageInput::Internal)
    ));
    assert!(matches!(
        AndroidStorageInput::parse("sdcard"),
        Ok(AndroidStorageInput::Sdcard)
    ));
    assert!(matches!(
        AndroidStorageInput::parse("floppy"),
        Err(DeviceError::InvalidStorage)
    ));
}

#[test]
fn staging_path_is_fresh_per_session() {
    let a = Device::new(Host::default(), "s".to_string(), Vec::new(), AndroidStorageInput::Auto);
    let b = Device::new(Host::default(), "s".to_string(), Vec::new(), AndroidStorageInput::Auto);
    assert!(a.tempfile.starts_with("/data/local/tmp/"));
    assert_eq!(a.tempfile.len(), "/data/local/tmp/".len() + 36);
    assert_ne!(a.tempfile, b.tempfile);
}

#[test]
fn run_as_applies_only_under_package_dir() {
    let mut device =
        Device::new(Host::default(), "s".to_string(), Vec::new(), AndroidStorageInput::Auto);
    device.run_as_package = Some("org.example.app".to_string());
    assert!(device.enable_run_as_for_path("/data/data/org.example.app/files/x"));
    assert!(device.enable_run_as_for_path("/data/data/org.example.app"));
    assert!(!device.enable_run_as_for_path("/data/data/org.example.application/x"));
    assert!(!device.enable_run_as_for_path("/sdcard/x"));

    let (indirect, dest) = device.push_destination("/data/data/org.example.app/files/x");
    assert!(indirect);
    assert_eq!(dest, device.tempfile);
    let (direct, dest2) = device.push_destination("/sdcard/x");
    assert!(!direct);
    assert_eq!(dest2, "/sdcard/x");
}

#[test]
fn forward_port_returns_fixed_local_port() {
    assert_eq!(forward_port_result(3035, "").unwrap(), 3035);
}

#[test]
fn forward_port_zero_parses_allocated_port() {
    assert_eq!(forward_port_result(0, "5037").unwrap(), 5037);
    assert!(matches!(
        forward_port_result(0, "000559464"),
        Err(DeviceError::ParseInt)
    ));
    assert!(matches!(forward_port_result(0, ""), Err(DeviceError::ParseInt)));
}

#[test]
fn reverse_port_returns_fixed_remote_port() {
    assert_eq!(reverse_port_result(4035, "").unwrap(), 4035);
    assert_eq!(reverse_port_result(0, "4036").unwrap(), 4036);
}

#[test]
fn device_command_strings() {
    let device =
        Device::new(Host::default(), "serial".to_string(), Vec::new(), AndroidStorageInput::Auto);
    assert_eq!(device.transport_command(), "host:transport:serial");
    assert_eq!(device.forward_command(3035, 3036), "host-serial:serial:forward:tcp:3035;tcp:3036");
    assert_eq!(device.kill_forward_command(3038), "host-serial:serial:killforward:tcp:3038");
    assert_eq!(device.kill_forward_all_command(), "host-serial:serial:killforward-all");
    assert_eq!(device.reverse_command(4035, 4036), "reverse:forward:tcp:4035;tcp:4036");
    assert_eq!(device.kill_reverse_command(4038), "reverse:killforward:tcp:4038");
    assert_eq!(device.tcpip_command(5555), "tcpip:5555");
    assert_eq!(device.exec_command("cat /proc/version"), "exec:cat /proc/version");
}

#[test]
fn host_command_strings() {
    let host = Host::default();
    assert_eq!(host.host_command("version"), "host:version");
    assert_eq!(host.address_string(), "localhost:5037");
    let custom = Host { host: Some("10.0.0.2".to_string()), port: Some(5038) };
    assert_eq!(custom.address_string(), "10.0.0.2:5038");
}

#[test]
fn host_version_parsing() {
    assert_eq!(parse_host_version("0029").unwrap(), 0x29);
    assert!(matches!(
        parse_host_version("xyz"),
        Err(DeviceError::Adb(_))
    ));
    assert!(check_host_version_value(20).is_ok());
    assert!(check_host_version_value(41).is_ok());
    assert!(check_host_version_value(19).is_err());
}

#[test]
fn host_version_overflow_is_rejected() {
    // Seventeen hex digits cannot fit a 64-bit version.
    assert!(parse_host_version("FFFFFFFFFFFFFFFFF").is_err());
    assert_eq!(parse_host_version("ffffffffffffffff").unwrap(), u64::MAX);
}

#[test]
fn features_split_on_commas() {
    let f = split_features("cmd,shell_v2,stat_v2");
    assert_eq!(
        f,
        vec!["cmd".to_string(), "shell_v2".to_string(), "stat_v2".to_string()]
    );
}

#[test]
fn devices_output_parses_per_line() {
    let out = "emulator-5554\tdevice product:x\njunk\nother\toffline\n";
    let devices = parse_devices_output(out);
    assert_eq!(devices.len(), 2);
    assert_eq!(devices[0].serial, "emulator-5554");
    assert_eq!(devices[0].state, DeviceState::Device);
    assert_eq!(devices[1].serial, "other");
    assert_eq!(devices[1].state, DeviceState::Offline);
}

#[test]
fn escape_quotes_posix_style() {
    assert_eq!(escape("plain"), "plain");
    assert_eq!(escape("it's"), "it'\"'\"'s");
    assert_eq!(escape("''"), "'\"'\"''\"'\"'");
    assert_eq!(escape(""), "");
}

#[test]
fn shell_command_wrapping() {
    let pkg = "org.example".to_string();

    // `su` bypasses run-as wrapping.
    let su = shell_command_as("su root id", Some(&pkg), true).unwrap();
    assert_eq!(su, "shell:su root id");

    // Already quoted commands pass through.
    let quoted = shell_command_as("\"ls /data\"", Some(&pkg), true).unwrap();
    assert_eq!(quoted, "shell:run-as org.example \"ls /data\"");

    // Unsafe characters (a space among them) are escaped in place.
    let unsafe_cmd = shell_command_as("echo it's", Some(&pkg), true).unwrap();
    assert_eq!(unsafe_cmd, "shell:run-as org.example echo it'\"'\"'s");
    let spaced = shell_command_as("ls /data", Some(&pkg), true).unwrap();
    assert_eq!(spaced, "shell:run-as org.example ls /data");

    // Commands made only of safe characters are wrapped in double quotes.
    let safe = shell_command_as("ls", Some(&pkg), true).unwrap();
    assert_eq!(safe, "shell:run-as org.example \"ls\"");

    // Without run-as the command is passed straight to the shell.
    let plain = shell_command_as("uname", None, false).unwrap();
    assert_eq!(plain, "shell:uname");

    // Run-as without a configured package is an error.
    let missing = shell_command_as("ls", None, true).unwrap_err();
    assert!(matches!(missing, DeviceError::MissingPackage));
}

#[test]
fn launch_command_quotes_arguments() {
    let args = vec!["--es".to_string(), "arg one".to_string()];
    let cmd = launch_command("org.example", "org.example.Main", &args);
    assert_eq!(cmd, "am start -W -n org.example/org.example.Main --es \"arg one\"");
}

#[test]
fn install_command_flags() {
    assert_eq!(install_command(false, false, "/data/local/tmp/a.apk"), "pm install /data/local/tmp/a.apk");
    assert_eq!(
        install_command(true, true, "/data/local/tmp/a.apk"),
        "pm install -r -g /data/local/tmp/a.apk"
    );
}

#[test]
fn package_manager_success_detection() {
    assert!(package_manager_outcome("Success\n".to_string()).is_ok());
    let err = package_manager_outcome("Failure [INSTALL_FAILED]".to_string()).unwrap_err();
    match err {
        DeviceError::PackageManagerError(m) => assert_eq!(m, "Failure [INSTALL_FAILED]"),
        other => panic!("unexpected error {:?}", other),
    }
}

#[test]
fn package_list_is_sorted() {
    let out = "package:com.android.shell\npackage:com.android.bluetooth\nnoise\n";
    let packages = parse_package_list(out);
    assert_eq!(
        packages,
        vec!["com.android.bluetooth".to_string(), "com.android.shell".to_string()]
    );
    assert!(packages.contains(&"com.android.shell".to_owned()));
}

#[test]
fn list_packages_command_variants() {
    assert_eq!(list_packages_command(false), "pm list packages");
    assert_eq!(list_packages_command(true), "pm list packages -3");
}

#[test]
fn shell_helper_command_strings() {
    assert_eq!(create_dir_command("/sdcard/a"), "mkdir -p /sdcard/a");
    assert_eq!(chmod_command(true, "777", "/sdcard/a"), "chmod  -R 777 /sdcard/a");
    assert_eq!(chmod_command(false, "644", "/sdcard/a"), "chmod  644 /sdcard/a");
    assert_eq!(remove_command("/sdcard/a"), "rm -rf /sdcard/a");
    assert_eq!(copy_staging_command("/data/local/tmp/u", "/data/data/p/f"), "cp -aR /data/local/tmp/u /data/data/p/f");
}

#[test]
fn path_exists_reads_probe_output() {
    assert!(path_exists_output("file.txt\n"));
    assert!(!path_exists_output("ls: /x: No such file or directory\n"));
}

#[test]
fn unix_path_operations() {
    assert_eq!(path_join("/sdcard", "foo.txt"), "/sdcard/foo.txt");
    assert_eq!(path_join("/sdcard/", "foo.txt"), "/sdcard/foo.txt");
    assert_eq!(path_join("", "foo.txt"), "foo.txt");

    assert_eq!(path_parent("/a/b/c").unwrap(), "/a/b");
    assert_eq!(path_parent("/a").unwrap(), "/");
    assert_eq!(path_parent("a").unwrap(), "");
    assert_eq!(path_parent("/"), None);
    assert_eq!(path_parent(""), None);

    assert!(path_starts_with("/data/data/p/x", "/data/data/p"));
    assert!(path_starts_with("/data/data/p", "/data/data/p"));
    assert!(!path_starts_with("/data/datafoo", "/data/data"));
}

#[test]
fn parent_chain_walks_to_root() {
    let chain = parent_chain("/a/b/c");
    assert_eq!(chain, vec!["/a/b".to_string(), "/a".to_string(), "/".to_string()]);

    assert_eq!(ancestor_plan(&chain, 0), None);
    let (leaf, root) = ancestor_plan(&chain, 2).unwrap();
    assert_eq!(leaf, "/a/b");
    assert_eq!(root, "/a");
}

#[test]
fn append_components_builds_device_paths() {
    assert_eq!(append_components("/sdcard/root", "bar/more/foo3.bar").unwrap(), "/sdcard/root/bar/more/foo3.bar");
    assert_eq!(append_components("/sdcard/root", "foo1.bar").unwrap(), "/sdcard/root/foo1.bar");
    assert!(append_components("/sdcard/root", "/abs").is_err());
    assert!(append_components("/sdcard/root", "a/../b").is_err());
    assert!(append_components("/sdcard/root", "./a").is_err());
}

#[test]
fn listing_totals_counts_regular_files() {
    let stream = {
        let mut s = Vec::new();
        for f in [
            (0o100_644u32, 8u32, "foo1.bar"),
            (0o100_644, 8, "foo2.bar"),
            (0o040_755, 4096, "bar"),
            (0o120_777, 3, "link"),
        ] {
            let mut d = b"DENT".to_vec();
            d.extend_from_slice(&write_length_little_endian(f.0 as usize));
            d.extend_from_slice(&write_length_little_endian(f.1 as usize));
            d.extend_from_slice(&write_length_little_endian(100));
            d.extend_from_slice(&write_length_little_endian(f.2.len()));
            d.extend_from_slice(f.2.as_bytes());
            s.extend_from_slice(&d);
        }
        s.extend_from_slice(b"DONE\0\0\0\0");
        s
    };
    let listings = parse_list_payload(&stream, 0, "").unwrap();
    let (files, bytes) = listing_totals(&listings);
    assert_eq!(files, 2);
    assert_eq!(bytes, 16);
}

#[test]
fn recursive_walk_collects_tree() {
    // A tree of four files and two directories, listed directory by
    // directory the way the device answers.
    fn frames(entries: &[(u32, u32, &str)]) -> Vec<u8> {
        let mut s = Vec::new();
        for e in entries {
            let mut d = b"DENT".to_vec();
            d.extend_from_slice(&write_length_little_endian(e.0 as usize));
            d.extend_from_slice(&write_length_little_endian(e.1 as usize));
            d.extend_from_slice(&write_length_little_endian(100));
            d.extend_from_slice(&write_length_little_endian(e.2.len()));
            d.extend_from_slice(e.2.as_bytes());
            s.extend_from_slice(&d);
        }
        s.extend_from_slice(b"DONE\0\0\0\0");
        s
    }

    let mut walk = ListWalk::new("/root");
    while let Some((path, depth, prefix)) = walk.next_job() {
        let stream = if path == "/root" {
            frames(&[
                (0o100_644, 8, "foo1.bar"),
                (0o100_644, 8, "foo2.bar"),
                (0o040_755, 4096, "bar"),
            ])
        } else if path == "/root/bar" {
            frames(&[(0o100_644, 12, "foo3.bar"), (0o040_755, 4096, "more")])
        } else if path == "/root/bar/more" {
            frames(&[(0o100_644, 17, "foo3.bar")])
        } else {
            panic!("unexpected job {}", path);
        };
        let entries = parse_list_payload(&stream, depth, prefix.as_str()).expect("to list_dir");
        walk.feed(depth, entries);
    }
    let mut listings = walk.into_listings();
    listings.sort_by_key(|f| f.depth);

    assert_eq!(listings.len(), 6);
    assert_eq!(listings[0].path, "foo1.bar");
    assert_eq!(listings[1].path, "foo2.bar");
    assert_eq!(listings[2].path, "bar");
    assert_eq!(listings[3].path, "bar/foo3.bar");
    assert_eq!(listings[4].path, "bar/more");
    assert_eq!(listings[5].path, "bar/more/foo3.bar");
    assert_eq!(listings[0].depth, Some(0));
    assert_eq!(listings[2].depth, Some(0));
    assert_eq!(listings[3].depth, Some(1));
    assert_eq!(listings[4].depth, Some(1));
    assert_eq!(listings[5].depth, Some(2));
    assert_eq!(listings[5].file_mode, UnixFileStatus::RegularFile);
}

#[test]
fn pull_entry_steps() {
    fn fm(mode: UnixFileStatus) -> mozdevice::FileMetadata {
        mozdevice::FileMetadata {
            path: "x".to_string(),
            file_mode: mode,
            size: 0,
            modified_time: None,
            depth: None,
        }
    }
    assert_eq!(pull_entry_step(&fm(UnixFileStatus::Directory)), TransferStep::MakeDirectory);
    assert_eq!(pull_entry_step(&fm(UnixFileStatus::RegularFile)), TransferStep::PullFile);
    assert_eq!(pull_entry_step(&fm(UnixFileStatus::SymbolicLink)), TransferStep::Skip);
    assert_eq!(pull_entry_step(&fm(UnixFileStatus::Socket)), TransferStep::Skip);
}

#[test]
fn progress_records_and_thresholds() {
    let initial = initial_directory_progress("/root".to_string(), 4, 45);
    assert_eq!(initial.directory_name, Some("/root".to_string()));
    assert_eq!(initial.total_files, 4);
    assert_eq!(initial.transferred_bytes, 0);

    let agg = aggregated_progress(4, 1, 45, 8, mozdevice::FileTransferProgress {
        total_bytes: 12,
        transferred_bytes: 5,
    });
    assert_eq!(agg.transferred_bytes, 13);
    assert!(agg.transferred_bytes <= agg.total_bytes);

    assert!(should_emit_progress(2 * 1024 * 1024, 0, 1024 * 1024));
    assert!(!should_emit_progress(100, 0, 1024 * 1024));
}

#[test]
fn push_roundtrip_preserves_permission_argument() {
    // The adjusted on-device mode is the server's concern; the library
    // transmits the requested mode verbatim and the content unchanged.
    let frames = encode_push_payload(b"test", 32 * 1024, 1);
    assert_eq!(parse_pull_payload(&frames).unwrap(), b"test".to_vec());
}
