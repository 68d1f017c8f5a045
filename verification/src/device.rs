//! Devices found on the network, and the probe that tells a mount from an
//! AllSky camera.
//!
//! A probe asks `http://<ip>:5000/api/hostname`. A 401 reply means an AllSky
//! camera; a successful reply with a JSON `hostname` string names the device,
//! which is an AllSky camera when that name holds `allsky` in any case, and a
//! mount otherwise. Anything else falls back to `http://<ip>:5000/api/config`:
//! a successful reply there means an AllSky camera, anything else no device.
//! The requests are made by the caller; `probe_next` decides each step.

use vstd::prelude::*;
use crate::text::{has_substring, contains_text, lowercase_text, to_lowercase};
use crate::json::{json_field, json_string_field};
use crate::unique::no_duplicates;

verus! {

broadcast use vstd::string::group_string_axioms;

/// A device found on the network.
#[derive(Clone, Debug)]
pub struct DeviceInfo {
    pub hostname: String,
    pub ip: String,
    /// `allsky` for an AllSky camera, `sst` for a mount.
    pub device_type: String,
}

/// The texts a `DeviceInfo` holds.
pub struct DeviceInfoView {
    pub hostname: Seq<char>,
    pub ip: Seq<char>,
    pub device_type: Seq<char>,
}

impl View for DeviceInfo {
    type V = DeviceInfoView;

    open spec fn view(&self) -> DeviceInfoView {
        DeviceInfoView {
            hostname: self.hostname@,
            ip: self.ip@,
            device_type: self.device_type@,
        }
    }
}

impl PartialEq for DeviceInfo {
    fn eq(&self, other: &Self) -> (same: bool) {
        self.hostname == other.hostname && self.ip == other.ip && self.device_type
            == other.device_type
    }
}

impl vstd::std_specs::cmp::PartialEqSpecImpl for DeviceInfo {
    open spec fn obeys_eq_spec() -> bool {
        true
    }

    open spec fn eq_spec(&self, other: &Self) -> bool {
        self.hostname@ == other.hostname@ && self.ip@ == other.ip@ && self.device_type@
            == other.device_type@
    }
}

/// The views of a list of devices.
pub open spec fn device_views(v: Seq<DeviceInfo>) -> Seq<DeviceInfoView> {
    v.map_values(|d: DeviceInfo| d@)
}

/// An AllSky camera at `ip` whose name is not known: hostname and type are
/// both `allsky`.
pub open spec fn allsky_at(ip: Seq<char>) -> DeviceInfoView {
    DeviceInfoView { hostname: "allsky"@, ip, device_type: "allsky"@ }
}

/// The type of a device that reported `lower` as its lowercased hostname.
pub open spec fn device_type_of_lowercase(lower: Seq<char>) -> Seq<char> {
    if has_substring(lower, "allsky"@) {
        "allsky"@
    } else {
        "sst"@
    }
}

/// The type of a device that reported `hostname`.
pub open spec fn device_type_of(hostname: Seq<char>) -> Seq<char> {
    device_type_of_lowercase(lowercase_text(hostname))
}

/// The device at `ip` that reported `hostname`.
pub open spec fn named_device(ip: Seq<char>, hostname: Seq<char>) -> DeviceInfoView {
    DeviceInfoView { hostname, ip, device_type: device_type_of(hostname) }
}

/// The AllSky camera at `ip`, named `allsky`.
pub fn allsky_device(ip: &str) -> (d: DeviceInfo)
    ensures
        d@ == allsky_at(ip@),
{
    DeviceInfo {
        hostname: String::from_str("allsky"),
        ip: String::from_str(ip),
        device_type: String::from_str("allsky"),
    }
}

/// The device type for an already lowercased hostname: `allsky` when it
/// holds `allsky`, `sst` otherwise.
pub fn device_type_for_lowercase(lower: &str) -> (t: String)
    ensures
        t@ == device_type_of_lowercase(lower@),
{
    if contains_text(lower, "allsky") {
        String::from_str("allsky")
    } else {
        String::from_str("sst")
    }
}

/// The device type for a reported hostname, which is compared in lowercase.
pub fn device_type_for(hostname: &str) -> (t: String)
    ensures
        t@ == device_type_of(hostname@),
{
    let lower = to_lowercase(hostname);
    device_type_for_lowercase(lower.as_str())
}

/// The device at `ip` that reported `hostname`.
pub fn device_for_hostname(ip: &str, hostname: &str) -> (d: DeviceInfo)
    ensures
        d@ == named_device(ip@, hostname@),
{
    DeviceInfo {
        hostname: String::from_str(hostname),
        ip: String::from_str(ip),
        device_type: device_type_for(hostname),
    }
}

/// The port on which devices serve their web interface.
pub const DEVICE_PORT: u16 = 5000;

/// `http://<ip>:5000`, where a device serves its web interface.
pub open spec fn device_url_text(ip: Seq<char>) -> Seq<char> {
    "http://"@ + ip + ":5000"@
}

/// The address of a device's web interface.
pub fn device_url(ip: &str) -> (url: String)
    ensures
        url@ == device_url_text(ip@),
{
    let mut url = String::from_str("http://");
    url.append(ip);
    url.append(":5000");
    url
}

/// The address a probe asks first.
pub fn hostname_url(ip: &str) -> (url: String)
    ensures
        url@ == device_url_text(ip@) + "/api/hostname"@,
{
    let mut url = device_url(ip);
    url.append("/api/hostname");
    url
}

/// The address a probe falls back to.
pub fn config_url(ip: &str) -> (url: String)
    ensures
        url@ == device_url_text(ip@) + "/api/config"@,
{
    let mut url = device_url(ip);
    url.append("/api/config");
    url
}

/// An HTTP status in the success class, 200 to 299.
pub open spec fn is_success(status: u16) -> bool {
    200 <= status <= 299
}

/// The status with which an AllSky camera refuses the hostname request.
pub const UNAUTHORIZED: u16 = 401;

/// What the caller of a probe has just seen.
pub enum ProbeStep {
    /// The hostname request got no reply.
    HostnameUnreachable,
    /// The hostname request got a reply with this status.
    HostnameStatus(u16),
    /// The body of that successful reply, or `None` if it could not be read.
    HostnameBody(Option<Vec<u8>>),
    /// The status of the reply to the fallback request, or `None` if there
    /// was no reply.
    ConfigReply(Option<u16>),
}

/// What the caller of a probe does next.
pub enum ProbeAction {
    /// Read the body of the hostname reply, then report `HostnameBody`.
    ReadHostnameBody,
    /// Ask the fallback address, then report `ConfigReply`.
    RequestConfig,
    /// The probe is over, with the device found, if any.
    Finish(Option<DeviceInfo>),
}

/// What the probe does next, in terms of texts.
pub enum ProbeActionView {
    ReadHostnameBody,
    RequestConfig,
    Finish(Option<DeviceInfoView>),
}

impl View for ProbeAction {
    type V = ProbeActionView;

    open spec fn view(&self) -> ProbeActionView {
        match self {
            ProbeAction::ReadHostnameBody => ProbeActionView::ReadHostnameBody,
            ProbeAction::RequestConfig => ProbeActionView::RequestConfig,
            ProbeAction::Finish(None) => ProbeActionView::Finish(None),
            ProbeAction::Finish(Some(d)) => ProbeActionView::Finish(Some(d@)),
        }
    }
}

/// The next step of a probe of `ip` after `step`.
pub open spec fn probe_transition(ip: Seq<char>, step: ProbeStep) -> ProbeActionView {
    match step {
        ProbeStep::HostnameUnreachable => ProbeActionView::RequestConfig,
        ProbeStep::HostnameStatus(status) => if status == UNAUTHORIZED {
            ProbeActionView::Finish(Some(allsky_at(ip)))
        } else if is_success(status) {
            ProbeActionView::ReadHostnameBody
        } else {
            ProbeActionView::RequestConfig
        },
        ProbeStep::HostnameBody(body) => match body {
            Some(bytes) => match json_string_field(bytes@, "hostname"@) {
                Some(Some(hostname)) => ProbeActionView::Finish(Some(named_device(ip, hostname))),
                _ => ProbeActionView::RequestConfig,
            },
            None => ProbeActionView::RequestConfig,
        },
        ProbeStep::ConfigReply(status) => match status {
            Some(s) if is_success(s) => ProbeActionView::Finish(Some(allsky_at(ip))),
            _ => ProbeActionView::Finish(None),
        },
    }
}

/// A probe only ever finds a device at the probed address, of type `allsky`
/// or `sst`. It reads the hostname reply's body at most once and asks the
/// fallback address at most once: after the body it never asks for the body
/// again, and after the fallback reply it is over.
pub proof fn lemma_probe_outcomes(ip: Seq<char>, step: ProbeStep)
    ensures
        probe_transition(ip, step) matches ProbeActionView::Finish(Some(d)) ==> d.ip == ip && (
        d.device_type == "allsky"@ || d.device_type == "sst"@),
        step is HostnameBody ==> !(probe_transition(ip, step) is ReadHostnameBody),
        step is ConfigReply ==> probe_transition(ip, step) is Finish,
        step is HostnameUnreachable ==> probe_transition(ip, step) is RequestConfig,
        step matches ProbeStep::ConfigReply(Some(s)) ==> (probe_transition(ip, step) matches ProbeActionView::Finish(
            Some(_),
        ) <==> 200 <= s <= 299),
        step matches ProbeStep::ConfigReply(Some(s)) ==> (!(200 <= s <= 299) ==> probe_transition(
            ip,
            step,
        ) == ProbeActionView::Finish(None)),
        step matches ProbeStep::ConfigReply(None) ==> probe_transition(ip, step)
            == ProbeActionView::Finish(None),
        step matches ProbeStep::HostnameStatus(s) ==> (s == 401 <==> probe_transition(ip, step) is Finish),
        step matches ProbeStep::HostnameStatus(s) ==> (200 <= s <= 299 <==> probe_transition(ip, step) is ReadHostnameBody),
{
}

/// Decides the next step of a probe of `ip` from what was just seen.
pub fn probe_next(ip: &str, step: ProbeStep) -> (action: ProbeAction)
    ensures
        action@ == probe_transition(ip@, step),
        step is HostnameUnreachable ==> action is RequestConfig,
        step matches ProbeStep::HostnameStatus(s) ==> (s == 401 <==> action is Finish),
        step matches ProbeStep::HostnameStatus(s) ==> (200 <= s <= 299 <==> action is ReadHostnameBody),
        step matches ProbeStep::HostnameStatus(s) ==> (action matches ProbeAction::Finish(f) ==> (
        f matches Some(d) && d.ip@ == ip@ && d.hostname@ == "allsky"@ && d.device_type@
            == "allsky"@)),
        step is HostnameBody ==> (action is RequestConfig || action matches ProbeAction::Finish(
            Some(_),
        )),
        step matches ProbeStep::HostnameBody(Some(b)) ==> (action matches ProbeAction::Finish(
            Some(d),
        ) <==> (json_string_field(b@, "hostname"@) matches Some(Some(h)))),
        step matches ProbeStep::HostnameBody(Some(b)) ==> (action matches ProbeAction::Finish(
            Some(d),
        ) ==> json_string_field(b@, "hostname"@) == Some(Some(d.hostname@)) && d.ip@ == ip@),
        step matches ProbeStep::HostnameBody(None) ==> action is RequestConfig,
        step is ConfigReply ==> action is Finish,
        step matches ProbeStep::ConfigReply(Some(s)) ==> (action matches ProbeAction::Finish(Some(_))
            <==> 200 <= s <= 299),
        step matches ProbeStep::ConfigReply(Some(s)) ==> (!(200 <= s <= 299) ==> action matches ProbeAction::Finish(
            None,
        )),
        step matches ProbeStep::ConfigReply(None) ==> action matches ProbeAction::Finish(None),
        action matches ProbeAction::Finish(Some(d)) ==> d.ip@ == ip@ && (d.device_type@ == "allsky"@
            || d.device_type@ == "sst"@),
        step is HostnameBody ==> (action matches ProbeAction::Finish(Some(d)) ==> (d.device_type@
            == "allsky"@ <==> has_substring(lowercase_text(d.hostname@), "allsky"@))),
{
    proof {
        reveal_strlit("hostname");
        reveal_strlit("allsky");
        reveal_strlit("sst");
    }
    match step {
        ProbeStep::HostnameUnreachable => ProbeAction::RequestConfig,
        ProbeStep::HostnameStatus(status) => {
            if status == UNAUTHORIZED {
                ProbeAction::Finish(Some(allsky_device(ip)))
            } else if 200 <= status && status <= 299 {
                ProbeAction::ReadHostnameBody
            } else {
                ProbeAction::RequestConfig
            }
        },
        ProbeStep::HostnameBody(body) => match body {
            Some(bytes) => match json_field(bytes.as_slice(), "hostname") {
                Some(hostname) => ProbeAction::Finish(
                    Some(device_for_hostname(ip, hostname.as_str())),
                ),
                None => ProbeAction::RequestConfig,
            },
            None => ProbeAction::RequestConfig,
        },
        ProbeStep::ConfigReply(status) => match status {
            Some(s) => {
                if 200 <= s && s <= 299 {
                    ProbeAction::Finish(Some(allsky_device(ip)))
                } else {
                    ProbeAction::Finish(None)
                }
            },
            None => ProbeAction::Finish(None),
        },
    }
}

/// The devices among the probe results, in order.
pub open spec fn found_devices(results: Seq<Option<DeviceInfo>>) -> Seq<DeviceInfoView>
    decreases results.len(),
{
    if results.len() == 0 {
        Seq::empty()
    } else {
        let before = found_devices(results.drop_last());
        match results.last() {
            Some(d) => before.push(d@),
            None => before,
        }
    }
}

/// Gathers the devices that probes found, keeping the probes' order.
pub fn collect_devices(results: Vec<Option<DeviceInfo>>) -> (devices: Vec<DeviceInfo>)
    ensures
        device_views(devices@) == found_devices(results@),
        device_views(devices@) == results@.filter_map(
            |r: Option<DeviceInfo>|
                match r {
                    Some(d) => Some(d@),
                    None => None,
                },
        ),
{
    let mut devices: Vec<DeviceInfo> = Vec::new();
    let mut results = results;
    let ghost all = results@;
    let ghost mut taken: int = 0;
    while results.len() > 0
        invariant
            0 <= taken <= all.len(),
            results@ == all.subrange(taken, all.len() as int),
            device_views(devices@) == found_devices(all.take(taken)),
        decreases results@.len(),
    {
        let r = results.remove(0);
        proof {
            assert(r == all[taken]);
            assert(all.take(taken + 1).drop_last() =~= all.take(taken));
            assert(all.take(taken + 1).last() == r);
        }
        match r {
            Some(d) => {
                let ghost before = devices@;
                devices.push(d);
                assert(device_views(devices@) =~= device_views(before).push(d@));
            },
            None => {},
        }
        proof {
            taken = taken + 1;
            assert(results@ =~= all.subrange(taken, all.len() as int));
        }
    }
    assert(all.take(all.len() as int) =~= all);
    proof {
        lemma_found_devices_filter_map(
            all,
            |r: Option<DeviceInfo>|
                match r {
                    Some(d) => Some(d@),
                    None => None,
                },
        );
    }
    devices
}

/// The devices found are the probe results that hold one, in order, none
/// left out: what `Seq::filter_map` keeps of the results.
pub proof fn lemma_found_devices_filter_map(
    results: Seq<Option<DeviceInfo>>,
    f: spec_fn(Option<DeviceInfo>) -> Option<DeviceInfoView>,
)
    requires
        forall|r: Option<DeviceInfo>|
            #[trigger] f(r) == match r {
                Some(d) => Some(d@),
                None => None::<DeviceInfoView>,
            },
    ensures
        found_devices(results) == results.filter_map(f),
    decreases results.len(),
{
    if results.len() > 0 {
        lemma_found_devices_filter_map(results.drop_last(), f);
        let last = results.last();
        let _ = f(last);
        match last {
            Some(d) => {
                assert(found_devices(results.drop_last()).push(d@) =~= results.drop_last().filter_map(f)
                    + seq![d@]);
            },
            None => {},
        }
    }
}

/// Every probe result that holds a device gives one device in the list, and
/// the list holds nothing else: as many devices as results holding one, the
/// i-th found device being the i-th such result.
pub proof fn lemma_found_devices_keep_all(results: Seq<Option<DeviceInfo>>)
    ensures
        found_devices(results).len() == results.filter(|r: Option<DeviceInfo>| r is Some).len(),
        forall|i: int|
            0 <= i < found_devices(results).len() ==> Some(#[trigger] found_devices(results)[i])
                == match results.filter(|r: Option<DeviceInfo>| r is Some)[i] {
                Some(d) => Some(d@),
                None => None::<DeviceInfoView>,
            },
    decreases results.len(),
{
    reveal_with_fuel(Seq::filter, 1);
    let p = |r: Option<DeviceInfo>| r is Some;
    if results.len() > 0 {
        lemma_found_devices_keep_all(results.drop_last());
        assert(results.filter(p) == if p(results.last()) {
            results.drop_last().filter(p).push(results.last())
        } else {
            results.drop_last().filter(p)
        });
    }
}

/// The addresses of a list of devices.
pub open spec fn device_ips(v: Seq<DeviceInfoView>) -> Seq<Seq<char>> {
    v.map_values(|d: DeviceInfoView| d.ip)
}

/// Some device in `v` has the address `ip`.
pub open spec fn has_device_at(v: Seq<DeviceInfoView>, ip: Seq<char>) -> bool {
    exists|k: int| 0 <= k < v.len() && (#[trigger] v[k]).ip == ip
}

/// `v` after a probe found `d`: `d` is added unless a device at its address
/// is already listed.
pub open spec fn with_device(v: Seq<DeviceInfoView>, d: DeviceInfoView) -> Seq<DeviceInfoView> {
    if has_device_at(v, d.ip) {
        v
    } else {
        v.push(d)
    }
}

/// Adds `device` to `devices` unless a device with the same address is
/// listed already, and says whether it was added.
pub fn add_device_if_new(devices: &mut Vec<DeviceInfo>, device: DeviceInfo) -> (added: bool)
    ensures
        device_views(final(devices)@) == with_device(device_views(old(devices)@), device@),
        added == !has_device_at(device_views(old(devices)@), device@.ip),
        added <==> !(exists|k: int|
            0 <= k < old(devices)@.len() && (#[trigger] old(devices)@[k]).ip@ == device.ip@),
        added ==> device_views(final(devices)@) == device_views(old(devices)@).push(device@),
        !added ==> device_views(final(devices)@) == device_views(old(devices)@),
{
    let mut i: usize = 0;
    while i < devices.len()
        invariant
            i <= devices@.len(),
            forall|k: int| 0 <= k < i ==> devices@[k].ip@ != device.ip@,
        decreases devices@.len() - i,
    {
        if devices[i].ip == device.ip {
            assert(device_views(devices@)[i as int].ip == device@.ip);
            return false;
        }
        i = i + 1;
    }
    assert(!has_device_at(device_views(devices@), device@.ip)) by {
        if has_device_at(device_views(devices@), device@.ip) {
            let k = choose|k: int|
                0 <= k < device_views(devices@).len() && (#[trigger] device_views(devices@)[k]).ip
                    == device@.ip;
            assert(devices@[k].ip@ == device.ip@);
        }
    }
    let ghost before = devices@;
    devices.push(device);
    assert(device_views(devices@) =~= device_views(before).push(device@));
    true
}

/// A found device is left out exactly when a listed device has the very same
/// address; otherwise it is appended at the end.
pub proof fn lemma_with_device_exact_address(v: Seq<DeviceInfoView>, d: DeviceInfoView)
    ensures
        (forall|k: int| 0 <= k < v.len() ==> (#[trigger] v[k]).ip != d.ip) ==> with_device(v, d)
            == v.push(d),
        (exists|k: int| 0 <= k < v.len() && (#[trigger] v[k]).ip == d.ip) ==> with_device(v, d)
            == v,
        with_device(v, d).len() == v.len() + 1 <==> !(exists|k: int|
            0 <= k < v.len() && (#[trigger] v[k]).ip == d.ip),
{
}

/// Adding found devices one by one never lists two devices at one address.
pub proof fn lemma_with_device_unique_ips(v: Seq<DeviceInfoView>, d: DeviceInfoView)
    requires
        no_duplicates(device_ips(v)),
    ensures
        no_duplicates(device_ips(with_device(v, d))),
        has_device_at(with_device(v, d), d.ip),
{
    if !has_device_at(v, d.ip) {
        let w = v.push(d);
        assert forall|i: int, j: int|
            0 <= i < j < device_ips(w).len() implies device_ips(w)[i] != device_ips(w)[j] by {
            if j == v.len() {
                assert(device_ips(w)[i] == v[i].ip);
                assert(device_ips(w)[j] == d.ip);
                if v[i].ip == d.ip {
                    assert(has_device_at(v, d.ip));
                }
            } else {
                assert(device_ips(w)[i] == device_ips(v)[i]);
                assert(device_ips(w)[j] == device_ips(v)[j]);
            }
        }
        assert(w[v.len() as int].ip == d.ip);
    }
}

/// `Unable to connect to <ip>`, the answer when no device answers at `ip`.
pub open spec fn unreachable_message(ip: Seq<char>) -> Seq<char> {
    "Unable to connect to "@ + ip
}

/// The answer to a manual check of `ip`: the device the probe found, or the
/// message that nothing answered.
pub fn check_ip_outcome(ip: &str, probed: Option<DeviceInfo>) -> (r: Result<DeviceInfo, String>)
    ensures
        probed matches Some(d) ==> r == Ok::<DeviceInfo, String>(d),
        probed is None ==> (r matches Err(m) && m@ == unreachable_message(ip@)),
{
    match probed {
        Some(device) => Ok(device),
        None => {
            let mut message = String::from_str("Unable to connect to ");
            message.append(ip);
            Err(message)
        },
    }
}

} // verus!
