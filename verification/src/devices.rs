//! Device connection state and the parsing of the server's device listings.

use vstd::prelude::*;

use crate::error::DeviceError;
use crate::strutil::{spec_split_whitespace, split_once_char, split_whitespace, str_eq};

verus! {

/// A serial number uniquely identifying a device.
pub type DeviceSerial = String;

/// The connection state a device reports; unknown words map to `Unknown`.
#[derive(Debug, Clone, Eq, PartialEq, Ord, PartialOrd, Structural)]
pub enum DeviceState {
    Offline,
    Bootloader,
    Device,
    Host,
    Recovery,
    NoPermissions,
    Sideload,
    Unauthorized,
    Authorizing,
    Unknown,
}

/// The state named by a word of the server's device listing.
pub open spec fn spec_state_of(s: Seq<char>) -> DeviceState {
    if s == "offline"@ {
        DeviceState::Offline
    } else if s == "bootloader"@ {
        DeviceState::Bootloader
    } else if s == "device"@ {
        DeviceState::Device
    } else if s == "host"@ {
        DeviceState::Host
    } else if s == "recovery"@ {
        DeviceState::Recovery
    } else if s == "no permissions"@ {
        DeviceState::NoPermissions
    } else if s == "sideload"@ {
        DeviceState::Sideload
    } else if s == "unauthorized"@ {
        DeviceState::Unauthorized
    } else if s == "authorizing"@ {
        DeviceState::Authorizing
    } else {
        DeviceState::Unknown
    }
}

impl<'a> vstd::std_specs::convert::FromSpecImpl<&'a str> for DeviceState {
    open spec fn obeys_from_spec() -> bool {
        true
    }

    open spec fn from_spec(s: &'a str) -> DeviceState {
        spec_state_of(s@)
    }
}

impl<'a> From<&'a str> for DeviceState {
    fn from(s: &'a str) -> (r: DeviceState) {
        if str_eq(s, "offline") {
            DeviceState::Offline
        } else if str_eq(s, "bootloader") {
            DeviceState::Bootloader
        } else if str_eq(s, "device") {
            DeviceState::Device
        } else if str_eq(s, "host") {
            DeviceState::Host
        } else if str_eq(s, "recovery") {
            DeviceState::Recovery
        } else if str_eq(s, "no permissions") {
            DeviceState::NoPermissions
        } else if str_eq(s, "sideload") {
            DeviceState::Sideload
        } else if str_eq(s, "unauthorized") {
            DeviceState::Unauthorized
        } else if str_eq(s, "authorizing") {
            DeviceState::Authorizing
        } else {
            DeviceState::Unknown
        }
    }
}

/// Information about a device's connection state.
#[derive(Debug, Clone, Eq, PartialEq, Ord, PartialOrd)]
pub struct DeviceBrief {
    pub serial: DeviceSerial,
    pub state: DeviceState,
}

/// The mathematical content of a device listing entry: the serial, the
/// state, and the attribute mapping.
pub ghost struct DeviceInfoModel {
    pub serial: Seq<char>,
    pub state: DeviceState,
    pub info: Map<Seq<char>, Seq<char>>,
}

/// Detailed information about a device: the brief fields plus the
/// whitespace-delimited `key:value` attributes of the long listing.
/// Attribute keys are unique; their order carries no meaning.
#[derive(Debug, Clone, Eq, PartialEq, Ord, PartialOrd)]
pub struct DeviceInfo {
    pub serial: DeviceSerial,
    pub state: DeviceState,
    pub info: Vec<(String, String)>,
}

/// The attribute mapping a sequence of key/value pairs denotes.
pub open spec fn spec_pairs_map(pairs: Seq<(String, String)>) -> Map<Seq<char>, Seq<char>>
    decreases pairs.len(),
{
    if pairs.len() == 0 {
        Map::empty()
    } else {
        spec_pairs_map(pairs.drop_last()).insert(pairs.last().0@, pairs.last().1@)
    }
}

impl DeviceInfo {
    /// Attribute keys occur at most once.
    pub open spec fn wf(self) -> bool {
        forall|i: int, j: int|
            0 <= i < j < self.info@.len() ==> self.info@[i].0@ != self.info@[j].0@
    }

    /// The model this value denotes.
    pub open spec fn view(self) -> DeviceInfoModel {
        DeviceInfoModel {
            serial: self.serial@,
            state: self.state,
            info: spec_pairs_map(self.info@),
        }
    }
}

impl vstd::std_specs::convert::FromSpecImpl<DeviceInfo> for DeviceBrief {
    open spec fn obeys_from_spec() -> bool {
        true
    }

    open spec fn from_spec(info: DeviceInfo) -> DeviceBrief {
        DeviceBrief { serial: info.serial, state: info.state }
    }
}

impl From<DeviceInfo> for DeviceBrief {
    fn from(info: DeviceInfo) -> (r: DeviceBrief) {
        DeviceBrief { serial: info.serial, state: info.state }
    }
}

/// The key/value attribute a listing token denotes: tokens with exactly one
/// colon carry an attribute, all others are dropped.
pub open spec fn spec_token_kv(tok: Seq<char>) -> Option<(Seq<char>, Seq<char>)> {
    if crate::strutil::spec_count_char(tok, ':') == 1 {
        let i = crate::strutil::spec_find_char(tok, ':');
        Some((tok.take(i), tok.skip(i + 1)))
    } else {
        None
    }
}

/// The attribute mapping of a token sequence: a key set by several tokens
/// keeps the value of the last one.
pub open spec fn spec_info_map(toks: Seq<Seq<char>>) -> Map<Seq<char>, Seq<char>>
    decreases toks.len(),
{
    if toks.len() == 0 {
        Map::empty()
    } else {
        let rest = spec_info_map(toks.drop_first());
        match spec_token_kv(toks[0]) {
            Some(kv) => if rest.contains_key(kv.0) {
                rest
            } else {
                rest.insert(kv.0, kv.1)
            },
            None => rest,
        }
    }
}

/// The parse of one line of the long device listing:
/// `serial<ws>state key:value key:value ...`.
pub open spec fn spec_parse_device_info(line: Seq<char>) -> Option<DeviceInfoModel> {
    let toks = spec_split_whitespace(line);
    if toks.len() >= 2 {
        Some(
            DeviceInfoModel {
                serial: toks[0],
                state: spec_state_of(toks[1]),
                info: spec_info_map(toks.skip(2)),
            },
        )
    } else {
        None
    }
}

/// Whether `pairs` already binds the key `k`.
fn pairs_has_key(pairs: &Vec<(String, String)>, k: &str) -> (r: bool)
    ensures
        r == exists|i: int| 0 <= i < pairs@.len() && (#[trigger] pairs@[i]).0@ == k@,
{
    let n = pairs.len();
    let mut i: usize = 0;
    while i < n
        invariant
            n == pairs@.len(),
            0 <= i <= n,
            forall|j: int| 0 <= j < i ==> (#[trigger] pairs@[j]).0@ != k@,
        decreases n - i,
    {
        if str_eq(pairs[i].0.as_str(), k) {
            return true;
        }
        i = i + 1;
    }
    false
}

/// A bound key is in the denoted map, and conversely.
proof fn lemma_pairs_map_dom(pairs: Seq<(String, String)>, k: Seq<char>)
    ensures
        spec_pairs_map(pairs).contains_key(k) == exists|i: int|
            0 <= i < pairs.len() && (#[trigger] pairs[i]).0@ == k,
    decreases pairs.len(),
{
    if pairs.len() > 0 {
        lemma_pairs_map_dom(pairs.drop_last(), k);
        if pairs.last().0@ == k {
            assert(pairs[pairs.len() - 1].0@ == k);
        } else {
            assert(forall|i: int|
                0 <= i < pairs.len() - 1 ==> pairs.drop_last()[i] == pairs[i]);
            if exists|i: int| 0 <= i < pairs.len() && (#[trigger] pairs[i]).0@ == k {
                let i = choose|i: int| 0 <= i < pairs.len() && (#[trigger] pairs[i]).0@ == k;
                assert(i < pairs.len() - 1);
                assert(pairs.drop_last()[i] == pairs[i]);
            }
        }
    }
}

/// Parses the attribute tokens `toks[from..]` right to left, keeping for
/// each key the value of its last token.
fn collect_info_pairs(toks: &Vec<String>, from: usize) -> (r: Vec<(String, String)>)
    requires
        from <= toks@.len(),
    ensures
        spec_pairs_map(r@) == spec_info_map(toks.deep_view().skip(from as int)),
        forall|i: int, j: int| 0 <= i < j < r@.len() ==> r@[i].0@ != r@[j].0@,
{
    let n = toks.len();
    let mut out: Vec<(String, String)> = Vec::new();
    let mut i: usize = n;
    proof {
        assert(toks.deep_view().skip(n as int) =~= Seq::<Seq<char>>::empty());
        assert(spec_pairs_map(out@) =~= spec_info_map(toks.deep_view().skip(n as int)));
    }
    while i > from
        invariant
            from <= i <= n,
            n == toks@.len(),
            toks@.len() == toks.deep_view().len(),
            forall|j: int| 0 <= j < n ==> toks.deep_view()[j] == toks@[j]@,
            spec_pairs_map(out@) == spec_info_map(toks.deep_view().skip(i as int)),
            forall|p: int, q: int| 0 <= p < q < out@.len() ==> out@[p].0@ != out@[q].0@,
        decreases i,
    {
        i = i - 1;
        let ghost rest = toks.deep_view().skip(i as int);
        proof {
            assert(rest[0] == toks.deep_view()[i as int]);
            assert(rest.drop_first() =~= toks.deep_view().skip(i as int + 1));
        }
        let tok = &toks[i];
        match split_once_char(tok.as_str(), ':') {
            Some(kv) => {
                let (k, v) = kv;
                if !pairs_has_key(&out, k.as_str()) {
                    proof {
                        lemma_pairs_map_dom(out@, k@);
                        assert(!spec_pairs_map(out@).contains_key(k@));
                    }
                    let ghost old_out = out@;
                    out.push((k, v));
                    proof {
                        assert(out@.drop_last() =~= old_out);
                        assert(spec_pairs_map(out@) == spec_pairs_map(old_out).insert(
                            out@.last().0@,
                            out@.last().1@,
                        ));
                    }
                } else {
                    proof {
                        lemma_pairs_map_dom(out@, k@);
                    }
                }
            },
            None => {
            },
        }
    }
    proof {
        assert(toks.deep_view().skip(from as int) =~= toks.deep_view().skip(i as int));
    }
    out
}

/// Parses one line of `host:devices-l` output, of the shape
/// `serial<ws>state key:value ...`; lines with fewer than two fields parse
/// to nothing.
pub fn parse_device_info(line: &str) -> (r: Option<DeviceInfo>)
    ensures
        (r is Some) == (spec_parse_device_info(line@) is Some),
        r matches Some(d) ==> d@ == spec_parse_device_info(line@).unwrap() && d.wf(),
{
    let toks = split_whitespace(line);
    proof {
        assert(toks.deep_view().len() == toks@.len());
    }
    if toks.len() < 2 {
        return None;
    }
    let info = collect_info_pairs(&toks, 2);
    let serial = toks[0].clone();
    let state = DeviceState::from(toks[1].as_str());
    proof {
        assert(toks.deep_view()[0] == toks@[0]@);
        assert(toks.deep_view()[1] == toks@[1]@);
    }
    Some(DeviceInfo { serial, state, info })
}

/// The parse of one line of the brief device listing: `serial<ws>state`.
pub open spec fn spec_parse_device_brief(line: Seq<char>) -> Option<(Seq<char>, DeviceState)> {
    let toks = spec_split_whitespace(line);
    if toks.len() >= 2 {
        Some((toks[0], spec_state_of(toks[1])))
    } else {
        None
    }
}

/// Parses one line of a `host:track-devices` frame, of the shape
/// `serial<ws>state`; lines with fewer than two fields parse to nothing.
pub fn parse_device_brief(line: &str) -> (r: Option<DeviceBrief>)
    ensures
        (r is Some) == (spec_parse_device_brief(line@) is Some),
        r matches Some(b) ==> {
            let m = spec_parse_device_brief(line@).unwrap();
            b.serial@ == m.0 && b.state == m.1
        },
{
    let toks = split_whitespace(line);
    proof {
        assert(toks.deep_view().len() == toks@.len());
    }
    if toks.len() < 2 {
        return None;
    }
    let serial = toks[0].clone();
    let state = DeviceState::from(toks[1].as_str());
    proof {
        assert(toks.deep_view()[0] == toks@[0]@);
        assert(toks.deep_view()[1] == toks@[1]@);
    }
    Some(DeviceBrief { serial, state })
}

/// Interprets the body of one non-empty `host:track-devices` frame: a
/// parseable line yields a device brief, anything else is a protocol error.
pub fn track_event(line: &str) -> (r: Result<DeviceBrief, DeviceError>)
    ensures
        (r is Ok) == (spec_parse_device_brief(line@) is Some),
        r matches Ok(b) ==> {
            let m = spec_parse_device_brief(line@).unwrap();
            b.serial@ == m.0 && b.state == m.1
        },
        r matches Err(e) ==> (e matches DeviceError::Adb(m) && m@ == "Failed to parse device state"@),
{
    match parse_device_brief(line) {
        Some(b) => Ok(b),
        None => Err(DeviceError::Adb(String::from_str("Failed to parse device state"))),
    }
}

} // verus!
