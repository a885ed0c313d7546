//! The device session: its configuration, the service strings of
//! device-scoped operations, and the planning of pushes through the
//! `run-as` staging path.

use vstd::prelude::*;

use crate::codec::{parse_dec_u16, spec_udec, u64_to_dec};
use crate::devices::DeviceSerial;
use crate::error::DeviceError;
use crate::host::Host;
use crate::strutil::{spec_contains, str_contains, str_eq};
use crate::unixpath::{path_join, path_parent, path_starts_with, spec_path_join,
    spec_path_parent, spec_path_starts_with};

verus! {

/// Where a consumer asks transfers to land; `Auto` lets the library pick.
#[derive(Debug, Clone, Copy, PartialEq, Eq, Structural)]
pub enum AndroidStorageInput {
    Auto,
    App,
    Internal,
    Sdcard,
}

impl Default for AndroidStorageInput {
    fn default() -> (r: AndroidStorageInput)
        ensures
            r == AndroidStorageInput::Auto,
    {
        AndroidStorageInput::Auto
    }
}

/// The storage location a session actually uses.
#[derive(Debug, Clone, Copy, PartialEq, Eq, Structural)]
pub enum AndroidStorage {
    App,
    Internal,
    Sdcard,
}

/// The storage input named by a word: `auto`, `app`, `internal` or
/// `sdcard`; anything else is rejected.
pub open spec fn spec_storage_input(s: Seq<char>) -> Option<AndroidStorageInput> {
    if s == "auto"@ {
        Some(AndroidStorageInput::Auto)
    } else if s == "app"@ {
        Some(AndroidStorageInput::App)
    } else if s == "internal"@ {
        Some(AndroidStorageInput::Internal)
    } else if s == "sdcard"@ {
        Some(AndroidStorageInput::Sdcard)
    } else {
        None
    }
}

impl AndroidStorageInput {
    /// Parses a storage word; any word outside the four accepted ones is
    /// the invalid-storage error.
    pub fn parse(s: &str) -> (r: Result<AndroidStorageInput, DeviceError>)
        ensures
            spec_storage_input(s@) matches Some(v) ==> (r matches Ok(x) && x == v),
            spec_storage_input(s@) is None ==> (r matches Err(e) && e
                == DeviceError::InvalidStorage),
    {
        if str_eq(s, "auto") {
            Ok(AndroidStorageInput::Auto)
        } else if str_eq(s, "app") {
            Ok(AndroidStorageInput::App)
        } else if str_eq(s, "internal") {
            Ok(AndroidStorageInput::Internal)
        } else if str_eq(s, "sdcard") {
            Ok(AndroidStorageInput::Sdcard)
        } else {
            Err(DeviceError::InvalidStorage)
        }
    }
}

impl core::str::FromStr for AndroidStorageInput {
    type Err = DeviceError;

    fn from_str(s: &str) -> Result<AndroidStorageInput, DeviceError> {
        AndroidStorageInput::parse(s)
    }
}

/// The storage a session uses for a given input: `Auto` resolves to the
/// shared storage.
pub open spec fn spec_resolve_storage(input: AndroidStorageInput) -> AndroidStorage {
    match input {
        AndroidStorageInput::App => AndroidStorage::App,
        AndroidStorageInput::Internal => AndroidStorage::Internal,
        AndroidStorageInput::Sdcard => AndroidStorage::Sdcard,
        AndroidStorageInput::Auto => AndroidStorage::Sdcard,
    }
}

/// Resolves a storage input to the storage a session uses.
pub fn resolve_storage(input: AndroidStorageInput) -> (r: AndroidStorage)
    ensures
        r == spec_resolve_storage(input),
{
    match input {
        AndroidStorageInput::App => AndroidStorage::App,
        AndroidStorageInput::Internal => AndroidStorage::Internal,
        AndroidStorageInput::Sdcard => AndroidStorage::Sdcard,
        AndroidStorageInput::Auto => AndroidStorage::Sdcard,
    }
}

/// Relies on `uuid::Uuid::new_v4` and `as_hyphenated`: a fresh random
/// UUID rendered in its 36-character hyphenated form.  Nothing can be
/// promised about which characters come back beyond their count.
#[verifier::external_body]
fn fresh_uuid_hyphenated() -> (r: String)
    ensures
        r@.len() == 36,
{
    uuid::Uuid::new_v4().as_hyphenated().to_string()
}

/// A session with one device: the host that reaches it, its serial and
/// attributes, the optional debuggable package for `run-as`, the storage
/// choice, and the session's staging path for indirect pushes.
#[derive(Debug, Clone)]
pub struct Device {
    /// ADB host that controls this device.
    pub host: Host,
    /// Serial number uniquely identifying this device.
    pub serial: DeviceSerial,
    /// The device's listing attributes, keys unique.
    pub info: Vec<(String, String)>,
    /// The package whose sandbox `run-as` operations enter.
    pub run_as_package: Option<String>,
    /// Where transfers land.
    pub storage: AndroidStorage,
    /// Staging path under `/data/local/tmp`, fixed at construction, used
    /// by pushes that go through `run-as`.
    pub tempfile: String,
}

impl Device {
    /// Builds a session for the device with the given serial and
    /// attributes.  The staging path is a fresh name under
    /// `/data/local/tmp`, never reused across sessions.
    pub fn new(
        host: Host,
        serial: DeviceSerial,
        info: Vec<(String, String)>,
        storage: AndroidStorageInput,
    ) -> (r: Device)
        ensures
            r.host == host,
            r.serial == serial,
            r.info == info,
            r.run_as_package is None,
            r.storage == spec_resolve_storage(storage),
            crate::strutil::spec_starts_with(r.tempfile@, "/data/local/tmp/"@),
            r.tempfile@.len() == "/data/local/tmp/"@.len() + 36,
    {
        let name = fresh_uuid_hyphenated();
        let tempfile = String::from_str("/data/local/tmp/").concat(name.as_str());
        proof {
            assert(tempfile@.subrange(0, "/data/local/tmp/"@.len() as int) =~= "/data/local/tmp/"@);
        }
        Device {
            host,
            serial,
            info,
            run_as_package: None,
            storage: resolve_storage(storage),
            tempfile,
        }
    }

    /// Whether a write to `path` must go through `run-as`: a package is
    /// configured and `path` lies under that package's private directory.
    pub open spec fn spec_enable_run_as_for_path(self, path: Seq<char>) -> bool {
        match self.run_as_package {
            Some(p) => spec_path_starts_with(path, spec_path_join("/data/data/"@, p@)),
            None => false,
        }
    }

    /// Decides whether operations on `path` go through `run-as`.
    pub fn enable_run_as_for_path(&self, path: &str) -> (r: bool)
        ensures
            r == self.spec_enable_run_as_for_path(path@),
    {
        match &self.run_as_package {
            Some(package) => {
                let sandbox = path_join("/data/data/", package.as_str());
                path_starts_with(path, sandbox.as_str())
            },
            None => false,
        }
    }

    /// The transport-selection request for this device.
    pub fn transport_command(&self) -> (r: String)
        ensures
            r@ == "host:transport:"@ + self.serial@,
    {
        String::from_str("host:transport:").concat(self.serial.as_str())
    }

    /// The exec service string that runs `cmd` and captures raw bytes.
    pub fn exec_command(&self, cmd: &str) -> (r: String)
        ensures
            r@ == "exec:"@ + cmd@,
    {
        String::from_str("exec:").concat(cmd)
    }

    /// The forward request: `host-serial:<serial>:forward:tcp:<l>;tcp:<r>`.
    pub fn forward_command(&self, local: u16, remote: u16) -> (r: String)
        ensures
            r@ == "host-serial:"@ + self.serial@ + ":forward:tcp:"@ + spec_udec(local as nat)
                + ";tcp:"@ + spec_udec(remote as nat),
    {
        let r = String::from_str("host-serial:").concat(self.serial.as_str()).concat(
            ":forward:tcp:",
        ).concat(u64_to_dec(local as u64).as_str()).concat(";tcp:").concat(
            u64_to_dec(remote as u64).as_str(),
        );
        proof {
            assert(r@ =~= "host-serial:"@ + self.serial@ + ":forward:tcp:"@ + spec_udec(
                local as nat,
            ) + ";tcp:"@ + spec_udec(remote as nat));
        }
        r
    }

    /// The kill-forward request for one local port.
    pub fn kill_forward_command(&self, local: u16) -> (r: String)
        ensures
            r@ == "host-serial:"@ + self.serial@ + ":killforward:tcp:"@ + spec_udec(local as nat),
    {
        let r = String::from_str("host-serial:").concat(self.serial.as_str()).concat(
            ":killforward:tcp:",
        ).concat(u64_to_dec(local as u64).as_str());
        proof {
            assert(r@ =~= "host-serial:"@ + self.serial@ + ":killforward:tcp:"@ + spec_udec(
                local as nat,
            ));
        }
        r
    }

    /// The kill-forward request for every forwarded port.
    pub fn kill_forward_all_command(&self) -> (r: String)
        ensures
            r@ == "host-serial:"@ + self.serial@ + ":killforward-all"@,
    {
        let r = String::from_str("host-serial:").concat(self.serial.as_str()).concat(
            ":killforward-all",
        );
        proof {
            assert(r@ =~= "host-serial:"@ + self.serial@ + ":killforward-all"@);
        }
        r
    }

    /// The reverse request: `reverse:forward:tcp:<r>;tcp:<l>`.
    pub fn reverse_command(&self, remote: u16, local: u16) -> (r: String)
        ensures
            r@ == "reverse:forward:tcp:"@ + spec_udec(remote as nat) + ";tcp:"@ + spec_udec(
                local as nat,
            ),
    {
        let r = String::from_str("reverse:forward:tcp:").concat(
            u64_to_dec(remote as u64).as_str(),
        ).concat(";tcp:").concat(u64_to_dec(local as u64).as_str());
        proof {
            assert(r@ =~= "reverse:forward:tcp:"@ + spec_udec(remote as nat) + ";tcp:"@
                + spec_udec(local as nat));
        }
        r
    }

    /// The kill-reverse request for one remote port.
    pub fn kill_reverse_command(&self, remote: u16) -> (r: String)
        ensures
            r@ == "reverse:killforward:tcp:"@ + spec_udec(remote as nat),
    {
        let r = String::from_str("reverse:killforward:tcp:").concat(
            u64_to_dec(remote as u64).as_str(),
        );
        proof {
            assert(r@ =~= "reverse:killforward:tcp:"@ + spec_udec(remote as nat));
        }
        r
    }

    /// The request that restarts the device daemon in TCP mode.
    pub fn tcpip_command(&self, port: u16) -> (r: String)
        ensures
            r@ == "tcpip:"@ + spec_udec(port as nat),
    {
        String::from_str("tcpip:").concat(u64_to_dec(port as u64).as_str())
    }

    /// The destination a push actually writes to: the session's staging
    /// path when `run-as` indirection applies, the requested destination
    /// otherwise.
    pub fn push_destination(&self, dest: &str) -> (r: (bool, String))
        ensures
            r.0 == self.spec_enable_run_as_for_path(dest@),
            r.0 ==> r.1@ == self.tempfile@,
            !r.0 ==> r.1@ == dest@,
    {
        let enable = self.enable_run_as_for_path(dest);
        if enable {
            (true, self.tempfile.clone())
        } else {
            (false, dest.to_owned())
        }
    }
}

/// The port a forward request reports: a request for a fixed local port
/// returns exactly that port; a request for port 0 returns the
/// server-allocated port from the reply, whose text must be a decimal
/// 16-bit number.
pub fn forward_port_result(local: u16, response: &str) -> (r: Result<u16, DeviceError>)
    ensures
        local != 0 ==> (r matches Ok(p) && p == local),
        local == 0 && crate::codec::all_digits(response@, 10) && response@.len() > 0
            && crate::codec::spec_radix_val(response@, 10) <= 0xFFFF ==> (r matches Ok(p) && p
            as int == crate::codec::spec_radix_val(response@, 10)),
        local == 0 && !(crate::codec::all_digits(response@, 10) && response@.len() > 0
            && crate::codec::spec_radix_val(response@, 10) <= 0xFFFF) ==> (r matches Err(e) && e
            == DeviceError::ParseInt),
{
    if local != 0 {
        Ok(local)
    } else {
        parse_dec_u16(response)
    }
}

/// The port a reverse request reports, with the same rule around remote
/// port 0.
pub fn reverse_port_result(remote: u16, response: &str) -> (r: Result<u16, DeviceError>)
    ensures
        remote != 0 ==> (r matches Ok(p) && p == remote),
        remote == 0 && crate::codec::all_digits(response@, 10) && response@.len() > 0
            && crate::codec::spec_radix_val(response@, 10) <= 0xFFFF ==> (r matches Ok(p) && p
            as int == crate::codec::spec_radix_val(response@, 10)),
        remote == 0 && !(crate::codec::all_digits(response@, 10) && response@.len() > 0
            && crate::codec::spec_radix_val(response@, 10) <= 0xFFFF) ==> (r matches Err(e) && e
            == DeviceError::ParseInt),
{
    if remote != 0 {
        Ok(remote)
    } else {
        parse_dec_u16(response)
    }
}

/// The shell command that creates a directory and its ancestors.
pub fn create_dir_command(path: &str) -> (r: String)
    ensures
        r@ == "mkdir -p "@ + path@,
{
    String::from_str("mkdir -p ").concat(path)
}

/// The shell command that changes a path's mode, recursively when asked;
/// the recursion flag carries its own leading space.
pub fn chmod_command(recursive: bool, mask: &str, path: &str) -> (r: String)
    ensures
        recursive ==> r@ == "chmod "@ + " -R"@ + " "@ + mask@ + " "@ + path@,
        !recursive ==> r@ == "chmod "@ + " "@ + mask@ + " "@ + path@,
{
    let flag: &str = if recursive {
        " -R"
    } else {
        ""
    };
    let r = String::from_str("chmod ").concat(flag).concat(" ").concat(mask).concat(" ").concat(
        path,
    );
    proof {
        reveal_strlit("");
        if recursive {
            assert(r@ =~= "chmod "@ + " -R"@ + " "@ + mask@ + " "@ + path@);
        } else {
            assert(""@ =~= Seq::<char>::empty());
            assert(r@ =~= "chmod "@ + " "@ + mask@ + " "@ + path@);
        }
    }
    r
}

/// The shell command that removes a path tree.
pub fn remove_command(path: &str) -> (r: String)
    ensures
        r@ == "rm -rf "@ + path@,
{
    String::from_str("rm -rf ").concat(path)
}

/// The shell command that probes a path.
pub fn list_path_command(path: &str) -> (r: String)
    ensures
        r@ == "ls "@ + path@,
{
    String::from_str("ls ").concat(path)
}

/// Whether probe output says the path exists: any output without the
/// canonical not-found phrase counts as existing.
pub fn path_exists_output(output: &str) -> (r: bool)
    ensures
        r == !spec_contains(output@, "No such file or directory"@),
{
    !str_contains(output, "No such file or directory")
}

/// The shell command that copies the staged tree onto its destination,
/// preserving the pushed permissions.
pub fn copy_staging_command(staging: &str, dest: &str) -> (r: String)
    ensures
        r@ == "cp -aR "@ + staging@ + " "@ + dest@,
{
    let r = String::from_str("cp -aR ").concat(staging).concat(" ").concat(dest);
    proof {
        assert(r@ =~= "cp -aR "@ + staging@ + " "@ + dest@);
    }
    r
}

/// The package-manager command that clears an app's data.
pub fn clear_app_data_command(package: &str) -> (r: String)
    ensures
        r@ == "pm clear "@ + package@,
{
    String::from_str("pm clear ").concat(package)
}

/// Whether clear-app-data output reports success.
pub fn clear_app_data_output(output: &str) -> (r: bool)
    ensures
        r == spec_contains(output@, "Success"@),
{
    str_contains(output, "Success")
}

/// The package-manager command that asks where a package is installed.
pub fn is_app_installed_command(package: &str) -> (r: String)
    ensures
        r@ == "pm path "@ + package@,
{
    String::from_str("pm path ").concat(package)
}

/// Whether package-path output shows an installed package.
pub fn is_app_installed_output(output: &str) -> (r: bool)
    ensures
        r == spec_contains(output@, "package:"@),
{
    str_contains(output, "package:")
}

/// Whether launch output reports a completed start.
pub fn launch_output_complete(output: &str) -> (r: bool)
    ensures
        r == spec_contains(output@, "Complete"@),
{
    str_contains(output, "Complete")
}

/// The activity-manager command that force-stops a package.
pub fn force_stop_command(package: &str) -> (r: String)
    ensures
        r@ == "am force-stop "@ + package@,
{
    String::from_str("am force-stop ").concat(package)
}

/// The package-manager command that uninstalls a package.
pub fn uninstall_command(package: &str) -> (r: String)
    ensures
        r@ == "pm uninstall "@ + package@,
{
    String::from_str("pm uninstall ").concat(package)
}

/// The package-manager command that lists packages, optionally only
/// third-party ones.
pub fn list_packages_command(third_party: bool) -> (r: String)
    ensures
        third_party ==> r@ == "pm list packages -3"@,
        !third_party ==> r@ == "pm list packages"@,
{
    if third_party {
        String::from_str("pm list packages -3")
    } else {
        String::from_str("pm list packages")
    }
}

/// One step of the ancestor chain: `next` is exactly the parent of
/// `prev`.
pub open spec fn spec_chain_link(prev: Seq<char>, next: Seq<char>) -> bool {
    spec_path_parent(prev) == Some(next)
}

/// The chain of ancestors of `dest`, nearest first, as the pre-push
/// existence probe walks them.
#[verifier::rlimit(50)]
pub fn parent_chain(dest: &str) -> (r: Vec<String>)
    ensures
        r@.len() > 0 ==> spec_chain_link(dest@, r@[0]@),
        r@.len() == 0 ==> spec_path_parent(dest@) is None,
        forall|i: int| 0 < i < r@.len() ==> spec_chain_link(r@[i - 1]@, (#[trigger] r@[i])@),
        r@.len() > 0 ==> spec_path_parent(r@[r@.len() - 1]@) is None,
{
    let mut out: Vec<String> = Vec::new();
    let mut cur: String = dest.to_owned();
    loop
        invariant
            out@.len() == 0 ==> cur@ == dest@,
            out@.len() > 0 ==> cur@ == out@[out@.len() - 1]@,
            out@.len() > 0 ==> spec_chain_link(dest@, out@[0]@),
            forall|i: int|
                0 < i < out@.len() ==> spec_chain_link(out@[i - 1]@, (#[trigger] out@[i])@),
        ensures
            spec_path_parent(cur@) is None,
            out@.len() == 0 ==> cur@ == dest@,
            out@.len() > 0 ==> cur@ == out@[out@.len() - 1]@,
            out@.len() > 0 ==> spec_chain_link(dest@, out@[0]@),
            forall|i: int|
                0 < i < out@.len() ==> spec_chain_link(out@[i - 1]@, (#[trigger] out@[i])@),
        decreases cur@.len(),
    {
        match path_parent(cur.as_str()) {
            Some(parent) => {
                proof {
                    crate::unixpath::lemma_parent_shorter(cur@);
                }
                let ghost old_out = out@;
                out.push(parent.clone());
                proof {
                    assert(forall|i: int| 0 <= i < old_out.len() ==> out@[i] == old_out[i]);
                    assert(out@[out@.len() - 1]@ == parent@);
                    assert(spec_chain_link(cur@, parent@));
                }
                cur = parent;
            },
            None => {
                break ;
            },
        }
    }
    out
}

/// What the pre-push ancestor workaround does, given how many of the
/// nearest ancestors were found missing: nothing when none are, else
/// create the deepest missing ancestor and open up the shallowest.
pub fn ancestor_plan(chain: &Vec<String>, missing: usize) -> (r: Option<(String, String)>)
    requires
        missing <= chain@.len(),
    ensures
        missing == 0 ==> r is None,
        missing > 0 ==> (r matches Some(lr) && lr.0@ == chain@[0]@ && lr.1@ == chain@[
            missing - 1]@),
{
    if missing == 0 {
        None
    } else {
        Some((chain[0].clone(), chain[missing - 1].clone()))
    }
}

} // verus!
