//! The connection to the ADB host server: its address, the host-scoped
//! request strings, and the interpretation of their replies.

use vstd::prelude::*;

use crate::codec::{
    code_matches, four_hex_bytes, parse_hex_u64, read_length, spec_code_at, spec_udec, u64_to_dec,
    SyncCommand,
};
use crate::device::{Device, AndroidStorageInput};
use crate::devices::{spec_parse_device_info, DeviceInfo, DeviceInfoModel, DeviceState};
use crate::error::DeviceError;
use crate::strutil::{spec_lines, split_char, split_lines, str_eq, str_from_utf8};

verus! {

/// An ADB host server to connect to, by host name and TCP port; both
/// default to the local server on port 5037.
#[derive(Debug, Clone, PartialEq)]
pub struct Host {
    /// The TCP host to connect to.  Defaults to `"localhost"`.
    pub host: Option<String>,
    /// The TCP port to connect to.  Defaults to `5037`.
    pub port: Option<u16>,
}

impl Default for Host {
    fn default() -> (r: Host)
        ensures
            r.host matches Some(h) && h@ == "localhost"@,
            r.port == Some(5037u16),
    {
        Host { host: Some(String::from_str("localhost")), port: Some(5037) }
    }
}

/// The socket address an endpoint names, with the defaults filled in.
pub open spec fn spec_address(host: Option<String>, port: Option<u16>) -> Seq<char> {
    (match host {
        Some(h) => h@,
        None => "localhost"@,
    }) + ":"@ + spec_udec(
        match port {
            Some(p) => p as nat,
            None => 5037 as nat,
        },
    )
}

impl Host {
    /// The socket address this endpoint names, with the defaults filled
    /// in: `<host>:<port>`.
    pub fn address_string(&self) -> (r: String)
        ensures
            r@ == spec_address(self.host, self.port),
    {
        let h: String = match &self.host {
            Some(h) => h.clone(),
            None => String::from_str("localhost"),
        };
        let p: u16 = match self.port {
            Some(p) => p,
            None => 5037,
        };
        h.concat(":").concat(u64_to_dec(p as u64).as_str())
    }

    /// The full request for a host-scoped command: `host:<command>`.
    pub fn host_command(&self, command: &str) -> (r: String)
        ensures
            r@ == "host:"@ + command@,
    {
        String::from_str("host:").concat(command)
    }
}

/// The host version a reply carries: its hex value, or a protocol error
/// when the text is not a hex number.
pub fn parse_host_version(response: &str) -> (r: Result<u64, DeviceError>)
    ensures
        response@.len() > 0 && crate::codec::all_digits(response@, 16)
            && crate::codec::spec_radix_val(response@, 16) <= u64::MAX ==> (r matches Ok(v) && v
            as int == crate::codec::spec_radix_val(response@, 16)),
        !(response@.len() > 0 && crate::codec::all_digits(response@, 16)
            && crate::codec::spec_radix_val(response@, 16) <= u64::MAX) ==> (r matches Err(e) && e
            matches DeviceError::Adb(m) && m@ == "Failed to parse host version"@),
{
    match parse_hex_u64(response) {
        Ok(v) => Ok(v),
        Err(_) => Err(DeviceError::Adb(String::from_str("Failed to parse host version"))),
    }
}

/// Whether a host version is recent enough to talk to: versions below 20
/// are too old.
pub fn check_host_version_value(version: u64) -> (r: Result<(), DeviceError>)
    ensures
        version >= 20 ==> r is Ok,
        version < 20 ==> (r matches Err(e) && e matches DeviceError::Adb(m) && m@
            == "Host version is too old"@),
{
    if version < 20 {
        Err(DeviceError::Adb(String::from_str("Host version is too old")))
    } else {
        Ok(())
    }
}

/// The reply payload with a stacked `OKAY` removed: some tunnelled
/// command paths answer `OKAYOKAY`, and the transport acknowledgement has
/// already been consumed.
pub open spec fn spec_after_okay(b: Seq<u8>) -> Seq<u8> {
    if spec_code_at(b, SyncCommand::Okay) {
        b.skip(4)
    } else {
        b
    }
}

/// What a host reply payload means once its status word was `OKAY`.
pub ghost enum HostResponse {
    /// A plain payload, handed through.
    Payload(Seq<u8>),
    /// A length-framed payload, its four hex length digits removed.
    Framed(Seq<u8>),
    /// A stacked failure: `FAIL`, four length bytes, then this message.
    ServerFail(Seq<u8>),
    /// A stacked failure cut off before its length bytes.
    TruncatedFail,
    /// A framed reply whose length digits are not hex.
    BadLength,
    /// A framed reply too short to hold its length digits.
    MissingLength(Seq<u8>),
}

/// The meaning of a host reply payload: a leading stacked `OKAY` is
/// dropped; a then-leading `FAIL` carries an error; a length-framed reply
/// is split behind its four hex digits.
pub open spec fn spec_process_response(b: Seq<u8>, has_length: bool) -> HostResponse {
    let a = spec_after_okay(b);
    if spec_code_at(a, SyncCommand::Fail) {
        if a.len() < 8 {
            HostResponse::TruncatedFail
        } else {
            HostResponse::ServerFail(a.skip(8))
        }
    } else if has_length {
        if a.len() >= 4 {
            if four_hex_bytes(a) {
                HostResponse::Framed(a.skip(4))
            } else {
                HostResponse::BadLength
            }
        } else {
            HostResponse::MissingLength(a)
        }
    } else {
        HostResponse::Payload(a)
    }
}

/// Interprets a host reply payload read after an `OKAY` status:
/// implements the stacked-`OKAY` and `OKAYFAIL` conventions and the
/// optional hex length framing.  The framed length digits are not held
/// against the remaining byte count, as the reply is already complete.
pub fn process_response_payload(response: Vec<u8>, has_length: bool) -> (r: Result<
    Vec<u8>,
    DeviceError,
>)
    ensures
        spec_process_response(response@, has_length) matches HostResponse::Payload(p) ==> (r
            matches Ok(v) && v@ == p),
        spec_process_response(response@, has_length) matches HostResponse::Framed(p) ==> (r
            matches Ok(v) && v@ == p),
        spec_process_response(response@, has_length) matches HostResponse::ServerFail(m) ==> ((
        vstd::utf8::valid_utf8(m) ==> (r matches Err(e) && e matches DeviceError::Adb(msg) && msg@
            == "adb error: "@ + vstd::utf8::decode_utf8(m))) && (!vstd::utf8::valid_utf8(m) ==> (r
            matches Err(e) && e == DeviceError::Utf8))),
        spec_process_response(response@, has_length) == HostResponse::TruncatedFail ==> (r matches
            Err(e) && e matches DeviceError::Io(_)),
        spec_process_response(response@, has_length) == HostResponse::BadLength ==> (r matches Err(
            e,
        ) && e == DeviceError::ParseInt),
        spec_process_response(response@, has_length) matches HostResponse::MissingLength(p) ==> ((
        vstd::utf8::valid_utf8(p) ==> (r matches Err(e) && e matches DeviceError::Adb(msg) && msg@
            == "adb server response did not contain expected hexstring length: \""@
            + vstd::utf8::decode_utf8(p) + "\""@)) && (!vstd::utf8::valid_utf8(p) ==> (r matches
            Err(e) && e == DeviceError::Utf8))),
{
    let mut resp = response;
    let has_okay = resp.len() >= 4 && code_matches(resp.as_slice(), SyncCommand::Okay);
    if has_okay {
        let tail = resp.split_off(4);
        resp = tail;
    }
    let ghost a = spec_after_okay(response@);
    proof {
        assert(resp@ =~= a);
    }
    let has_fail = resp.len() >= 4 && code_matches(resp.as_slice(), SyncCommand::Fail);
    if has_fail {
        if resp.len() < 8 {
            return Err(DeviceError::Io(String::from_str("truncated FAIL response")));
        }
        let message = resp.split_off(8);
        proof {
            assert(message@ =~= a.skip(8));
        }
        match str_from_utf8(message.as_slice()) {
            Some(s) => {
                return Err(DeviceError::Adb(String::from_str("adb error: ").concat(s)));
            },
            None => {
                return Err(DeviceError::Utf8);
            },
        }
    }
    if has_length {
        if resp.len() >= 4 {
            let message = resp.split_off(4);
            proof {
                assert(message@ =~= a.skip(4));
            }
            match read_length(resp.as_slice()) {
                Ok(_) => {
                    return Ok(message);
                },
                Err(e) => {
                    proof {
                        assert(resp@ =~= a.subrange(0, 4));
                        assert(forall|i: int| 0 <= i < 4 ==> a.subrange(0, 4)[i] == a[i]);
                    }
                    return Err(e);
                },
            }
        } else {
            match str_from_utf8(resp.as_slice()) {
                Some(s) => {
                    let msg = String::from_str(
                        "adb server response did not contain expected hexstring length: \"",
                    ).concat(s).concat("\"");
                    proof {
                        assert(msg@
                            =~= "adb server response did not contain expected hexstring length: \""@
                            + vstd::utf8::decode_utf8(a) + "\""@);
                    }
                    return Err(DeviceError::Adb(msg));
                },
                None => {
                    return Err(DeviceError::Utf8);
                },
            }
        }
    }
    Ok(resp)
}

/// The protocol error built from a non-`OKAY` host status reply body.
pub fn host_status_error(bytes: &[u8]) -> (r: DeviceError)
    ensures
        vstd::utf8::valid_utf8(bytes@) ==> (r matches DeviceError::Adb(m) && m@ == "adb error: "@
            + vstd::utf8::decode_utf8(bytes@)),
        !vstd::utf8::valid_utf8(bytes@) ==> r == DeviceError::Utf8,
{
    match str_from_utf8(bytes) {
        Some(s) => DeviceError::Adb(String::from_str("adb error: ").concat(s)),
        None => DeviceError::Utf8,
    }
}

/// Splits a `host:features` reply into its comma-separated feature words.
pub fn split_features(response: &str) -> (r: Vec<String>)
    ensures
        r.deep_view() == crate::strutil::spec_split_char(response@, ','),
{
    split_char(response, ',')
}

/// The models of a sequence of device records.
pub open spec fn di_views(s: Seq<DeviceInfo>) -> Seq<DeviceInfoModel> {
    s.map_values(|d: DeviceInfo| d@)
}

/// The devices a long listing names: one per line that parses.
pub open spec fn spec_device_models(lines: Seq<Seq<char>>) -> Seq<DeviceInfoModel>
    decreases lines.len(),
{
    if lines.len() == 0 {
        Seq::empty()
    } else {
        spec_device_models(lines.drop_last()) + (match spec_parse_device_info(lines.last()) {
            Some(m) => seq![m],
            None => Seq::<DeviceInfoModel>::empty(),
        })
    }
}

/// Parses a `host:devices-l` reply: one device record per line that
/// carries at least a serial and a state; other lines are dropped.
pub fn parse_devices_output(response: &str) -> (r: Vec<DeviceInfo>)
    ensures
        di_views(r@) == spec_device_models(spec_lines(response@)),
        forall|i: int| 0 <= i < r@.len() ==> (#[trigger] r@[i]).wf(),
{
    let lines = split_lines(response);
    let ghost glines = spec_lines(response@);
    let n = lines.len();
    let mut out: Vec<DeviceInfo> = Vec::new();
    let mut i: usize = 0;
    proof {
        assert(lines.deep_view().len() == lines@.len());
        assert(glines.take(0) =~= Seq::<Seq<char>>::empty());
        assert(di_views(out@) =~= spec_device_models(glines.take(0)));
    }
    while i < n
        invariant
            n == lines@.len(),
            glines == spec_lines(response@),
            lines.deep_view() == glines,
            lines@.len() == glines.len(),
            forall|j: int| 0 <= j < n ==> glines[j] == lines@[j]@,
            0 <= i <= n,
            di_views(out@) == spec_device_models(glines.take(i as int)),
            forall|j: int| 0 <= j < out@.len() ==> (#[trigger] out@[j]).wf(),
        decreases n - i,
    {
        let line = &lines[i];
        proof {
            assert(glines.take(i as int + 1).drop_last() =~= glines.take(i as int));
            assert(glines.take(i as int + 1).last() == glines[i as int]);
        }
        match crate::devices::parse_device_info(line.as_str()) {
            Some(d) => {
                let ghost old_views = di_views(out@);
                let ghost dm = d@;
                out.push(d);
                proof {
                    assert(di_views(out@) =~= old_views + seq![dm]);
                    assert(di_views(out@) =~= spec_device_models(glines.take(i as int + 1)));
                }
            },
            None => {
                proof {
                    assert(di_views(out@) + Seq::<DeviceInfoModel>::empty() =~= di_views(out@));
                    assert(di_views(out@) =~= spec_device_models(glines.take(i as int + 1)));
                }
            },
        }
        i = i + 1;
    }
    proof {
        assert(glines.take(n as int) =~= glines);
    }
    out
}

/// The online devices among an enumeration, in order.
pub open spec fn spec_online(devices: Seq<DeviceInfo>) -> Seq<DeviceInfo>
    decreases devices.len(),
{
    if devices.len() == 0 {
        Seq::empty()
    } else {
        (if devices[0].state == DeviceState::Device {
            seq![devices[0]]
        } else {
            Seq::<DeviceInfo>::empty()
        }) + spec_online(devices.drop_first())
    }
}

/// The first online device with the given serial, or -1.
pub open spec fn spec_find_serial(cand: Seq<DeviceInfo>, serial: Seq<char>) -> int
    decreases cand.len(),
{
    if cand.len() == 0 {
        -1
    } else if cand[0].serial@ == serial {
        0
    } else {
        let r = spec_find_serial(cand.drop_first(), serial);
        if r == -1 {
            -1
        } else {
            r + 1
        }
    }
}

fn clone_pairs(v: &Vec<(String, String)>) -> (r: Vec<(String, String)>)
    ensures
        r@ =~= v@,
{
    let n = v.len();
    let mut out: Vec<(String, String)> = Vec::new();
    let mut i: usize = 0;
    while i < n
        invariant
            n == v@.len(),
            0 <= i <= n,
            out@.len() == i,
            forall|j: int| 0 <= j < i ==> out@[j] == v@[j],
        decreases n - i,
    {
        out.push((v[i].0.clone(), v[i].1.clone()));
        i = i + 1;
    }
    proof {
        assert(out@ =~= v@);
    }
    out
}

impl Host {
    /// Selects a device among the enumerated ones and builds a session on
    /// it.  Only devices in the online state count.  With a serial (given
    /// explicitly or resolved from the environment by the caller), that
    /// device is selected or the serial is unknown.  Without one, a single
    /// online device is selected; several are ambiguous; none is a
    /// protocol error.
    #[verifier::loop_isolation(false)]
    pub fn device_or_default(
        self,
        devices: Vec<DeviceInfo>,
        device_serial: Option<String>,
        storage: AndroidStorageInput,
    ) -> (r: Result<Device, DeviceError>)
        ensures
            ({
                let cand = spec_online(devices@);
                match device_serial {
                    Some(s) => {
                        let j = spec_find_serial(cand, s@);
                        if j >= 0 {
                            r matches Ok(d) && d.host == self && d.serial@ == s@ && d.info@
                                =~= cand[j].info@ && d.run_as_package is None && d.storage
                                == crate::device::spec_resolve_storage(storage)
                        } else {
                            r matches Err(e) && e matches DeviceError::UnknownDevice(u) && u@ == s@
                        }
                    },
                    None => {
                        if cand.len() > 1 {
                            r matches Err(e) && e == DeviceError::MultipleDevices
                        } else if cand.len() == 1 {
                            r matches Ok(d) && d.host == self && d.serial@ == cand[0].serial@
                                && d.info@ =~= cand[0].info@ && d.run_as_package is None
                                && d.storage == crate::device::spec_resolve_storage(storage)
                        } else {
                            r matches Err(e) && e matches DeviceError::Adb(m) && m@
                                == "No Android devices are online"@
                        }
                    },
                }
            }),
    {
        let ghost gdevices = devices@;
        let mut rest = devices;
        let mut cand: Vec<DeviceInfo> = Vec::new();
        proof {
            assert(cand@ + spec_online(rest@) =~= spec_online(gdevices));
        }
        while rest.len() > 0
            invariant
                cand@ + spec_online(rest@) == spec_online(gdevices),
            decreases rest@.len(),
        {
            let ghost old_rest = rest@;
            let d = rest.remove(0);
            proof {
                assert(old_rest.remove(0) =~= old_rest.drop_first());
                assert(d == old_rest[0]);
            }
            let ghost old_cand = cand@;
            if d.state == DeviceState::Device {
                cand.push(d);
                proof {
                    assert(cand@ =~= old_cand + seq![old_rest[0]]);
                    assert(old_cand + (seq![old_rest[0]] + spec_online(old_rest.drop_first()))
                        =~= cand@ + spec_online(rest@));
                }
            } else {
                proof {
                    assert(old_cand + (Seq::<DeviceInfo>::empty() + spec_online(
                        old_rest.drop_first(),
                    )) =~= cand@ + spec_online(rest@));
                }
            }
        }
        proof {
            assert(spec_online(rest@) =~= Seq::<DeviceInfo>::empty());
            assert(cand@ + Seq::<DeviceInfo>::empty() =~= cand@);
            assert(cand@ =~= spec_online(gdevices));
        }
        let ghost gcand = cand@;

        match device_serial {
            Some(serial) => {
                let m = cand.len();
                let mut j: usize = 0;
                proof {
                    assert(gcand.skip(0) =~= gcand);
                }
                while j < m
                    invariant
                        m == cand@.len(),
                        gcand == cand@,
                        0 <= j <= m,
                        spec_find_serial(gcand.skip(j as int), serial@) >= 0
                            ==> spec_find_serial(gcand, serial@) == j + spec_find_serial(
                            gcand.skip(j as int),
                            serial@,
                        ),
                        spec_find_serial(gcand.skip(j as int), serial@) == -1
                            ==> spec_find_serial(gcand, serial@) == -1 || spec_find_serial(
                            gcand,
                            serial@,
                        ) < j,
                        forall|k: int| 0 <= k < j ==> (#[trigger] gcand[k]).serial@ != serial@,
                    decreases m - j,
                {
                    proof {
                        assert(gcand.skip(j as int)[0] == gcand[j as int]);
                        assert(gcand.skip(j as int).drop_first() =~= gcand.skip(j as int + 1));
                    }
                    let d = &cand[j];
                    if str_eq(d.serial.as_str(), serial.as_str()) {
                        proof {
                            assert(spec_find_serial(gcand.skip(j as int), serial@) == 0);
                            assert(spec_find_serial(gcand, serial@) == j);
                        }
                        let dev = Device::new(
                            self,
                            d.serial.clone(),
                            clone_pairs(&d.info),
                            storage,
                        );
                        proof {
                            assert(gcand == spec_online(gdevices));
                            assert(spec_find_serial(spec_online(gdevices), serial@) == j);
                            assert(0 <= j < spec_online(gdevices).len());
                            assert(spec_online(gdevices)[j as int] == gcand[j as int]);
                            assert((*d).info@ == gcand[j as int].info@);
                            assert(dev.info@ =~= gcand[j as int].info@);
                            assert(dev.serial@ == serial@);
                        }
                        return Ok(dev);
                    }
                    j = j + 1;
                }
                proof {
                    assert(gcand.skip(m as int) =~= Seq::<DeviceInfo>::empty());
                    assert(spec_find_serial(gcand, serial@) == -1 || spec_find_serial(
                        gcand,
                        serial@,
                    ) < m);
                    if spec_find_serial(gcand, serial@) >= 0 {
                        lemma_find_serial_hit(gcand, serial@);
                    }
                }
                Err(DeviceError::UnknownDevice(serial))
            },
            None => {
                if cand.len() > 1 {
                    Err(DeviceError::MultipleDevices)
                } else if cand.len() == 1 {
                    let d = &cand[0];
                    let dev = Device::new(self, d.serial.clone(), clone_pairs(&d.info), storage);
                    Ok(dev)
                } else {
                    Err(DeviceError::Adb(String::from_str("No Android devices are online")))
                }
            },
        }
    }
}

/// A non-negative find result points at a matching serial.
pub proof fn lemma_find_serial_hit(cand: Seq<DeviceInfo>, serial: Seq<char>)
    ensures
        spec_find_serial(cand, serial) >= 0 ==> 0 <= spec_find_serial(cand, serial) < cand.len()
            && cand[spec_find_serial(cand, serial)].serial@ == serial,
    decreases cand.len(),
{
    if cand.len() > 0 && cand[0].serial@ != serial {
        lemma_find_serial_hit(cand.drop_first(), serial);
        if spec_find_serial(cand.drop_first(), serial) >= 0 {
            assert(cand.drop_first()[spec_find_serial(cand.drop_first(), serial)] == cand[
                spec_find_serial(cand.drop_first(), serial) + 1]);
        }
    }
}

} // verus!
