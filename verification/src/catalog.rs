//! The device catalog: saved devices, the certificate fingerprints trusted per endpoint, and
//! the rules that hold whenever the catalog is saved.

use vstd::prelude::*;
use vstd::string::*;

use crate::model::{
    profile_check, validation_text, CertificatePolicy, ConnectionProfile, DesktopConfig, ProfileId,
    Secret,
};
use crate::text::{
    contains_text, decimal, has_substring, is_space, less_text, lowercase, owned, push_char,
    push_decimal, strings_equal, text_less, trim, trim_str, unicode_lowercase,
};

verus! {

/// A saved device: its profile and the per-device options.
pub struct Device {
    pub profile: ConnectionProfile,
    pub favorite: bool,
    pub remember_password: bool,
    pub password: Option<String>,
    pub direct_touch: bool,
    pub dynamic_resolution: bool,
}

/// A fingerprint that the user trusted for an endpoint.
pub struct TrustEntry {
    pub endpoint: String,
    pub fingerprint: String,
}

/// The devices and the trusted fingerprints, keyed by normalized endpoint.
pub struct Catalog {
    pub devices: Vec<Device>,
    pub trust: Vec<TrustEntry>,
}

/// The Display text of the IP address that `core::net::IpAddr` parses from a text, when it
/// parses one.
pub uninterp spec fn ip_canonical_text(text: Seq<char>) -> Option<Seq<char>>;

/// Calls `str::parse::<core::net::IpAddr>` and, when it succeeds, the address's `Display`
/// (through `to_string`); the grammar and the canonical form are named, not spelled out.
#[verifier::external_body]
fn canonical_ip(text: &str) -> (r: Option<String>)
    ensures
        r is Some <==> ip_canonical_text(text@) is Some,
        r matches Some(s) ==> ip_canonical_text(text@) == Some(s@),
{
    text.parse::<core::net::IpAddr>().ok().map(|ip| ip.to_string())
}

/// `s` without its trailing dots.
pub open spec fn trim_dots(s: Seq<char>) -> Seq<char>
    decreases s.len(),
{
    if s.len() > 0 && s.last() == '.' {
        trim_dots(s.drop_last())
    } else {
        s
    }
}

/// ASCII letters lowered, as `str::to_ascii_lowercase`.
pub open spec fn lower_ascii(s: Seq<char>) -> Seq<char>
    decreases s.len(),
{
    if s.len() == 0 {
        seq![]
    } else {
        lower_ascii(s.drop_last()).push(crate::keys::ascii_lower(s.last()))
    }
}

/// The normalized host of an endpoint: trimmed, without trailing dots, an IP address in its
/// canonical form and a name in lower case.
pub open spec fn normalized_host(host: Seq<char>) -> Seq<char> {
    let h = trim_dots(trim(host));
    match ip_canonical_text(h) {
        Some(ip) => ip,
        None => lower_ascii(h),
    }
}

/// The key under which an endpoint's trusted fingerprint is kept: `[host]:port`.
pub open spec fn endpoint_key_text(host: Seq<char>, port: u16) -> Seq<char> {
    seq!['['] + normalized_host(host) + seq![']', ':'] + decimal(port as nat)
}

/// Trust is scoped to the port: endpoints with different ports never share a key, whatever
/// their hosts.
pub proof fn law_endpoint_key_keeps_port(host_a: Seq<char>, port_a: u16, host_b: Seq<char>, port_b: u16)
    ensures
        endpoint_key_text(host_a, port_a) == endpoint_key_text(host_b, port_b) ==> port_a == port_b,
{
    let ka = endpoint_key_text(host_a, port_a);
    let kb = endpoint_key_text(host_b, port_b);
    if ka == kb {
        let da = decimal(port_a as nat);
        let db = decimal(port_b as nat);
        let pa = seq!['['] + normalized_host(host_a) + seq![']', ':'];
        let pb = seq!['['] + normalized_host(host_b) + seq![']', ':'];
        assert(ka =~= pa + da);
        assert(kb =~= pb + db);
        crate::text::lemma_decimal_digits(port_a as nat);
        crate::text::lemma_decimal_digits(port_b as nat);
        let n = ka.len();
        if da.len() == db.len() {
            assert(da =~= ka.subrange(n - da.len(), n as int));
            assert(db =~= kb.subrange(n - db.len(), n as int));
            crate::text::lemma_decimal_injective(port_a as nat, port_b as nat);
        } else if da.len() < db.len() {
            let j = n - da.len() - 1;
            assert(ka[j] == pa[pa.len() - 1]);
            assert(kb[j] == db[j - pb.len()]);
        } else {
            let j = n - db.len() - 1;
            assert(kb[j] == pb[pb.len() - 1]);
            assert(ka[j] == da[j - pa.len()]);
        }
    }
}

fn lower_ascii_string(s: &str) -> (r: String)
    ensures
        r@ == lower_ascii(s@),
{
    let n = s.unicode_len();
    let mut out = String::new();
    let mut i: usize = 0;
    while i < n
        invariant
            n == s@.len(),
            i <= n,
            out@ == lower_ascii(s@.subrange(0, i as int)),
        decreases n - i,
    {
        let c = s.get_char(i);
        proof {
            let t = s@.subrange(0, i + 1);
            assert(t.drop_last() == s@.subrange(0, i as int));
            assert(t.last() == c);
        }
        let lower = if 'A' <= c && c <= 'Z' {
            ((c as u32) + 32) as u8 as char
        } else {
            c
        };
        push_char(&mut out, lower);
        i = i + 1;
    }
    proof {
        assert(s@.subrange(0, n as int) == s@);
    }
    out
}

fn trim_trailing_dots(s: &str) -> (r: &str)
    ensures
        r@ == trim_dots(s@),
{
    let n = s.unicode_len();
    let mut j: usize = n;
    proof {
        assert(s@.subrange(0, n as int) == s@);
    }
    while j > 0 && s.get_char(j - 1) == '.'
        invariant
            n == s@.len(),
            j <= n,
            trim_dots(s@) == trim_dots(s@.subrange(0, j as int)),
        decreases j,
    {
        proof {
            assert(s@.subrange(0, j as int).drop_last() == s@.subrange(0, j - 1));
        }
        j = j - 1;
    }
    s.substring_char(0, j)
}

/// The key under which the trusted fingerprint of a profile's endpoint is kept.
pub fn endpoint_key(profile: &ConnectionProfile) -> (r: String)
    ensures
        r@ == endpoint_key_text(profile.host@, profile.port),
{
    let host = trim_trailing_dots(trim_str(profile.host.as_str()));
    let normalized = match canonical_ip(host) {
        Some(ip) => ip,
        None => lower_ascii_string(host),
    };
    let mut out = String::new();
    push_char(&mut out, '[');
    out.append(normalized.as_str());
    push_char(&mut out, ']');
    push_char(&mut out, ':');
    push_decimal(&mut out, profile.port as u64);
    proof {
        assert(out@ =~= seq!['['] + normalized@ + seq![']', ':'] + decimal(profile.port as nat));
    }
    out
}

fn retain_other_devices(devices: Vec<Device>, id: ProfileId) -> (r: Vec<Device>)
    ensures
        r@ == without_device(devices@, id),
{
    let ghost given = devices@;
    let ghost pred = |d: Device| d.profile.id != id;
    let n = devices.len();
    let mut rest = devices;
    let mut out: Vec<Device> = Vec::new();
    let mut i: usize = 0;
    while i < n
        invariant
            n == given.len(),
            i <= n,
            rest@ == given.subrange(i as int, n as int),
            out@ == given.subrange(0, i as int).filter(pred),
            pred == (|d: Device| d.profile.id != id),
        decreases n - i,
    {
        let device = rest.remove(0);
        proof {
            assert(device == given[i as int]);
            assert(rest@ =~= given.subrange(i + 1, n as int));
            let s = given.subrange(0, i + 1);
            assert(s.drop_last() == given.subrange(0, i as int));
            assert(s.last() == device);
            reveal_with_fuel(Seq::filter, 1);
        }
        if device.profile.id != id {
            out.push(device);
        }
        i = i + 1;
    }
    proof {
        assert(given.subrange(0, n as int) == given);
    }
    out
}

fn retain_other_endpoints(entries: Vec<TrustEntry>, endpoint: &str) -> (r: Vec<TrustEntry>)
    ensures
        r@ == without_endpoint(entries@, endpoint@),
{
    let ghost given = entries@;
    let ghost pred = |e: TrustEntry| e.endpoint@ != endpoint@;
    let n = entries.len();
    let mut rest = entries;
    let mut out: Vec<TrustEntry> = Vec::new();
    let mut i: usize = 0;
    while i < n
        invariant
            n == given.len(),
            i <= n,
            rest@ == given.subrange(i as int, n as int),
            out@ == given.subrange(0, i as int).filter(pred),
            pred == (|e: TrustEntry| e.endpoint@ != endpoint@),
        decreases n - i,
    {
        let entry = rest.remove(0);
        proof {
            assert(entry == given[i as int]);
            assert(rest@ =~= given.subrange(i + 1, n as int));
            let s = given.subrange(0, i + 1);
            assert(s.drop_last() == given.subrange(0, i as int));
            assert(s.last() == entry);
            reveal_with_fuel(Seq::filter, 1);
        }
        if !strings_equal(entry.endpoint.as_str(), endpoint) {
            out.push(entry);
        }
        i = i + 1;
    }
    proof {
        assert(given.subrange(0, n as int) == given);
    }
    out
}

proof fn lemma_trusted_update(
    before: Seq<TrustEntry>,
    i: int,
    after: Seq<TrustEntry>,
    endpoint: Seq<char>,
)
    requires
        0 <= i < before.len(),
        after.len() == before.len(),
        forall|j: int| 0 <= j < i ==> before[j].endpoint@ != endpoint,
        forall|j: int| 0 <= j < before.len() && j != i ==> after[j] == before[j],
        after[i].endpoint@ == endpoint,
        before[i].endpoint@ == endpoint,
    ensures
        trusted(after, endpoint) == Some(after[i].fingerprint@),
        forall|other: Seq<char>| other != endpoint ==> trusted(after, other) == trusted(before, other),
    decreases i,
{
    if i > 0 {
        lemma_trusted_update(before.drop_first(), i - 1, after.drop_first(), endpoint);
        assert(after[0] == before[0]);
    } else {
        assert(after.drop_first() =~= before.drop_first());
    }
    assert forall|other: Seq<char>| other != endpoint implies trusted(after, other) == trusted(
        before,
        other,
    ) by {
        if i > 0 {
            assert(after[0] == before[0]);
            assert(trusted(after.drop_first(), other) == trusted(before.drop_first(), other));
        } else {
            assert(after.drop_first() =~= before.drop_first());
        }
    }
}

proof fn lemma_trusted_push(before: Seq<TrustEntry>, after: Seq<TrustEntry>, endpoint: Seq<char>)
    requires
        after.len() == before.len() + 1,
        forall|j: int| 0 <= j < before.len() ==> after[j] == before[j],
        forall|j: int| 0 <= j < before.len() ==> before[j].endpoint@ != endpoint,
        after[before.len() as int].endpoint@ == endpoint,
    ensures
        trusted(after, endpoint) == Some(after[before.len() as int].fingerprint@),
        forall|other: Seq<char>| other != endpoint ==> trusted(after, other) == trusted(before, other),
    decreases before.len(),
{
    if before.len() > 0 {
        lemma_trusted_push(before.drop_first(), after.drop_first(), endpoint);
        assert(after[0] == before[0]);
    }
    assert forall|other: Seq<char>| other != endpoint implies trusted(after, other) == trusted(
        before,
        other,
    ) by {
        if before.len() > 0 {
            assert(after[0] == before[0]);
            assert(trusted(after.drop_first(), other) == trusted(before.drop_first(), other));
        } else {
            assert(after.drop_first().len() == 0);
            assert(trusted(after.drop_first(), other) is None);
        }
    }
}

/// The fingerprint trusted for `endpoint`: the first entry for it.
pub open spec fn trusted(entries: Seq<TrustEntry>, endpoint: Seq<char>) -> Option<Seq<char>>
    decreases entries.len(),
{
    if entries.len() == 0 {
        None
    } else if entries[0].endpoint@ == endpoint {
        Some(entries[0].fingerprint@)
    } else {
        trusted(entries.drop_first(), endpoint)
    }
}

/// Whether some device of `devices` has a profile with this identity.
pub open spec fn has_device(devices: Seq<Device>, id: ProfileId) -> bool {
    exists|i: int| 0 <= i < devices.len() && devices[i].profile.id == id
}

/// The index of the first device with this identity.
pub open spec fn device_index(devices: Seq<Device>, id: ProfileId) -> Option<int>
    decreases devices.len(),
{
    if devices.len() == 0 {
        None
    } else if devices[0].profile.id == id {
        Some(0)
    } else {
        match device_index(devices.drop_first(), id) {
            Some(i) => Some(i + 1),
            None => None,
        }
    }
}

proof fn lemma_device_index(devices: Seq<Device>, id: ProfileId)
    ensures
        match device_index(devices, id) {
            Some(i) => 0 <= i < devices.len() && devices[i].profile.id == id && forall|j: int|
                0 <= j < i ==> devices[j].profile.id != id,
            None => forall|j: int| 0 <= j < devices.len() ==> devices[j].profile.id != id,
        },
    decreases devices.len(),
{
    if devices.len() > 0 && devices[0].profile.id != id {
        lemma_device_index(devices.drop_first(), id);
        assert forall|j: int| 0 < j < devices.len() implies devices.drop_first()[j - 1]
            == devices[j] by {}
    }
}

proof fn lemma_trusted(entries: Seq<TrustEntry>, endpoint: Seq<char>)
    ensures
        match trusted(entries, endpoint) {
            Some(f) => exists|i: int|
                0 <= i < entries.len() && entries[i].endpoint@ == endpoint && entries[i].fingerprint@
                    == f && forall|j: int| 0 <= j < i ==> entries[j].endpoint@ != endpoint,
            None => forall|j: int| 0 <= j < entries.len() ==> entries[j].endpoint@ != endpoint,
        },
    decreases entries.len(),
{
    if entries.len() > 0 && entries[0].endpoint@ != endpoint {
        lemma_trusted(entries.drop_first(), endpoint);
        assert forall|j: int| 0 < j < entries.len() implies entries.drop_first()[j - 1]
            == entries[j] by {}
        if let Some(f) = trusted(entries, endpoint) {
            let i = choose|i: int|
                0 <= i < entries.drop_first().len() && entries.drop_first()[i].endpoint@ == endpoint
                    && entries.drop_first()[i].fingerprint@ == f && forall|j: int|
                    0 <= j < i ==> entries.drop_first()[j].endpoint@ != endpoint;
            assert(entries[i + 1] == entries.drop_first()[i]);
            assert forall|j: int| 0 <= j < i + 1 implies entries[j].endpoint@ != endpoint by {
                if j > 0 {
                    assert(entries[j] == entries.drop_first()[j - 1]);
                }
            }
        }
    } else if entries.len() > 0 {
        assert(entries[0].endpoint@ == endpoint);
    }
}

/// The index of the first device whose profile does not validate.
pub open spec fn first_invalid(devices: Seq<Device>) -> Option<int>
    decreases devices.len(),
{
    if devices.len() == 0 {
        None
    } else if profile_check(devices[0].profile) is Err {
        Some(0)
    } else {
        match first_invalid(devices.drop_first()) {
            Some(i) => Some(i + 1),
            None => None,
        }
    }
}

proof fn lemma_first_invalid(devices: Seq<Device>)
    ensures
        match first_invalid(devices) {
            Some(i) => 0 <= i < devices.len() && profile_check(devices[i].profile) is Err
                && forall|j: int| 0 <= j < i ==> profile_check(devices[j].profile) is Ok,
            None => forall|j: int| 0 <= j < devices.len() ==> profile_check(devices[j].profile) is Ok,
        },
    decreases devices.len(),
{
    if devices.len() > 0 && profile_check(devices[0].profile) is Ok {
        lemma_first_invalid(devices.drop_first());
        assert forall|j: int| 0 < j < devices.len() implies devices.drop_first()[j - 1]
            == devices[j] by {}
    }
}

/// A device as it is saved: without its password unless the user chose to remember it.
pub open spec fn saved(d: Device) -> Device {
    if d.remember_password {
        d
    } else {
        Device { password: None, ..d }
    }
}

/// Whether `a` lists the devices of `b` after `saved`, in order.
pub open spec fn all_saved(a: Seq<Device>, b: Seq<Device>) -> bool {
    a.len() == b.len() && forall|i: int| 0 <= i < a.len() ==> a[i] == saved(#[trigger] b[i])
}

/// `entries` without the entries of `endpoint`.
pub open spec fn without_endpoint(entries: Seq<TrustEntry>, endpoint: Seq<char>) -> Seq<TrustEntry> {
    entries.filter(|e: TrustEntry| e.endpoint@ != endpoint)
}

/// Once the entries of an endpoint are taken out, no fingerprint is trusted for it.
pub proof fn law_forgotten_endpoint_is_untrusted(entries: Seq<TrustEntry>, endpoint: Seq<char>)
    ensures
        trusted(without_endpoint(entries, endpoint), endpoint) is None,
{
    broadcast use Seq::lemma_filter_pred;

    let f = without_endpoint(entries, endpoint);
    assert forall|j: int| 0 <= j < f.len() implies f[j].endpoint@ != endpoint by {}
    lemma_trusted(f, endpoint);
}

/// `devices` without the devices of `id`.
pub open spec fn without_device(devices: Seq<Device>, id: ProfileId) -> Seq<Device> {
    devices.filter(|d: Device| d.profile.id != id)
}

/// Whether some device of `devices` is reached at `endpoint`.
pub open spec fn endpoint_in_use(devices: Seq<Device>, endpoint: Seq<char>) -> bool {
    exists|i: int|
        0 <= i < devices.len() && endpoint_key_text(devices[i].profile.host@, devices[i].profile.port)
            == endpoint
}

/// A line of the device list.
pub struct DeviceRow {
    pub id: ProfileId,
    pub name: String,
    pub endpoint: String,
    pub username: String,
    pub favorite: bool,
}

/// Whether `r` is the line of device `d`: its identity, label, endpoint, user name and
/// favorite mark.
pub open spec fn row_of(r: DeviceRow, d: Device) -> bool {
    &&& r.id == d.profile.id
    &&& r.name@ == d.profile.label@
    &&& r.endpoint@ == crate::model::endpoint_text(d.profile.host@, d.profile.port)
    &&& r.username@ == d.profile.username@
    &&& r.favorite == d.favorite
}

/// The text a device is searched in: its label, host and user name, separated by spaces.
pub open spec fn search_text(d: Device) -> Seq<char> {
    d.profile.label@ + seq![' '] + d.profile.host@ + seq![' '] + d.profile.username@
}

/// Whether the device list shows a device: a favorite when only favorites are shown, and one
/// whose lowercased search text contains the lowercased search.
pub open spec fn shown(d: Device, search: Seq<char>, favorites_only: bool) -> bool {
    (!favorites_only || d.favorite) && has_substring(
        unicode_lowercase(search_text(d)),
        unicode_lowercase(search),
    )
}

/// A device is searched by its label, by its host and by its user name: each occurs whole in
/// its search text. And a search for the whole search text of a device shows that device.
pub proof fn law_search_covers_label_host_user(d: Device)
    ensures
        has_substring(search_text(d), d.profile.label@),
        has_substring(search_text(d), d.profile.host@),
        has_substring(search_text(d), d.profile.username@),
        shown(d, search_text(d), false),
{
    let l = d.profile.label@;
    let h = d.profile.host@;
    let u = d.profile.username@;
    let t = search_text(d);
    assert(t.subrange(0int, 0int + l.len()) =~= l);
    let hs: int = l.len() as int + 1;
    assert(t.subrange(hs, hs + h.len() as int) =~= h);
    let us: int = l.len() as int + 1 + h.len() as int + 1;
    assert(t.len() == us + u.len());
    assert(t.subrange(us, us + u.len() as int) =~= u);
    let x = unicode_lowercase(t);
    assert(x.subrange(0int, 0int + x.len()) =~= x);
}

/// The positions of the shown devices, in catalog order.
pub open spec fn shown_indices(devices: Seq<Device>, search: Seq<char>, favorites_only: bool) -> Seq<
    int,
>
    decreases devices.len(),
{
    if devices.len() == 0 {
        seq![]
    } else {
        let rest = shown_indices(devices.drop_last(), search, favorites_only);
        if shown(devices.last(), search, favorites_only) {
            rest.push(devices.len() - 1)
        } else {
            rest
        }
    }
}

/// Whether device `a` is listed before device `b`: favorites first, then by label.
pub open spec fn listed_before(a: Device, b: Device) -> bool {
    (a.favorite && !b.favorite) || (a.favorite == b.favorite && text_less(
        a.profile.label@,
        b.profile.label@,
    ))
}

/// `order` with position `i` placed after the last position that is not listed after it.
pub open spec fn insert_listed(devices: Seq<Device>, order: Seq<int>, i: int) -> Seq<int>
    decreases order.len(),
{
    if order.len() == 0 {
        seq![i]
    } else if listed_before(devices[i], devices[order.last()]) {
        insert_listed(devices, order.drop_last(), i).push(order.last())
    } else {
        order.push(i)
    }
}

/// `positions` in listing order; positions whose devices tie keep their order (a stable sort).
pub open spec fn listing_order(devices: Seq<Device>, positions: Seq<int>) -> Seq<int>
    decreases positions.len(),
{
    if positions.len() == 0 {
        seq![]
    } else {
        insert_listed(devices, listing_order(devices, positions.drop_last()), positions.last())
    }
}

proof fn lemma_insert_at(devices: Seq<Device>, order: Seq<int>, i: int, j: int)
    requires
        0 <= j <= order.len(),
        forall|t: int| j <= t < order.len() ==> listed_before(devices[i], #[trigger] devices[order[t]]),
        j > 0 ==> !listed_before(devices[i], devices[order[j - 1]]),
    ensures
        insert_listed(devices, order, i) == order.subrange(0, j).push(i) + order.subrange(
            j,
            order.len() as int,
        ),
    decreases order.len(),
{
    if order.len() == 0 {
        assert(seq![i] =~= order.subrange(0, j).push(i) + order.subrange(j, order.len() as int));
    } else if j == order.len() {
        assert(order.push(i) =~= order.subrange(0, j).push(i) + order.subrange(
            j,
            order.len() as int,
        ));
    } else {
        let rest = order.drop_last();
        assert forall|t: int| j <= t < rest.len() implies listed_before(
            devices[i],
            #[trigger] devices[rest[t]],
        ) by {
            assert(rest[t] == order[t]);
        }
        assert(listed_before(devices[i], devices[order[order.len() - 1]]));
        lemma_insert_at(devices, rest, i, j);
        assert(insert_listed(devices, order, i) =~= order.subrange(0, j).push(i) + order.subrange(
            j,
            order.len() as int,
        ));
    }
}

/// Whether the positions of `order` are listed in order: no device is listed before one that
/// precedes it.
pub open spec fn in_listing_order(devices: Seq<Device>, order: Seq<int>) -> bool {
    forall|a: int, b: int|
        0 <= a < b < order.len() ==> !listed_before(devices[order[b]], devices[order[a]])
}

proof fn lemma_listed_before_order(x: Device, y: Device, z: Device)
    ensures
        !(listed_before(x, y) && listed_before(y, x)),
        listed_before(x, z) ==> listed_before(x, y) || listed_before(y, z),
{
    crate::text::lemma_text_less_total(x.profile.label@, y.profile.label@);
    crate::text::lemma_text_less_total(y.profile.label@, z.profile.label@);
    crate::text::lemma_text_less_total(x.profile.label@, z.profile.label@);
    if text_less(x.profile.label@, z.profile.label@) && !text_less(x.profile.label@, y.profile.label@)
        && !text_less(y.profile.label@, z.profile.label@) {
        if text_less(y.profile.label@, x.profile.label@) {
            crate::text::lemma_text_less_transitive(
                y.profile.label@,
                x.profile.label@,
                z.profile.label@,
            );
        }
    }
}

proof fn lemma_insert_listed(devices: Seq<Device>, order: Seq<int>, i: int)
    requires
        in_listing_order(devices, order),
    ensures
        in_listing_order(devices, insert_listed(devices, order, i)),
        insert_listed(devices, order, i).len() == order.len() + 1,
        forall|t: int|
            0 <= t < order.len() + 1 ==> #[trigger] insert_listed(devices, order, i)[t] == i
                || order.contains(insert_listed(devices, order, i)[t]),
    decreases order.len(),
{
    if order.len() > 0 {
        let last = order.last();
        let rest = order.drop_last();
        if listed_before(devices[i], devices[last]) {
            lemma_insert_listed(devices, rest, i);
            let ins = insert_listed(devices, rest, i);
            let r = ins.push(last);
            assert forall|t: int| 0 <= t < ins.len() implies !listed_before(
                devices[last],
                devices[#[trigger] ins[t]],
            ) by {
                if ins[t] == i {
                    lemma_listed_before_order(devices[i], devices[last], devices[i]);
                } else {
                    assert(rest.contains(ins[t]));
                    let u = choose|u: int| 0 <= u < rest.len() && rest[u] == ins[t];
                    assert(order[u] == ins[t]);
                    assert(order[order.len() - 1] == last);
                }
            }
            assert forall|a: int, b: int| 0 <= a < b < r.len() implies !listed_before(
                devices[r[b]],
                devices[r[a]],
            ) by {
                if b == r.len() - 1 {
                    assert(r[a] == ins[a]);
                } else {
                    assert(r[a] == ins[a] && r[b] == ins[b]);
                }
            }
            assert forall|t: int| 0 <= t < order.len() + 1 implies #[trigger] r[t] == i
                || order.contains(r[t]) by {
                if t == order.len() {
                    assert(order[order.len() - 1] == last);
                } else {
                    assert(r[t] == ins[t]);
                    if ins[t] != i {
                        assert(rest.contains(ins[t]));
                        let u = choose|u: int| 0 <= u < rest.len() && rest[u] == ins[t];
                        assert(order[u] == ins[t]);
                    }
                }
            }
        } else {
            let r = order.push(i);
            assert forall|a: int, b: int| 0 <= a < b < r.len() implies !listed_before(
                devices[r[b]],
                devices[r[a]],
            ) by {
                if b == r.len() - 1 {
                    if a < order.len() - 1 {
                        assert(!listed_before(devices[order[order.len() - 1]], devices[order[a]]));
                        lemma_listed_before_order(devices[i], devices[last], devices[order[a]]);
                    }
                } else {
                    assert(r[a] == order[a] && r[b] == order[b]);
                }
            }
            assert forall|t: int| 0 <= t < order.len() + 1 implies #[trigger] r[t] == i
                || order.contains(r[t]) by {
                if t < order.len() {
                    assert(r[t] == order[t]);
                }
            }
        }
    }
}

/// The device list is in order: favorites before the others, and within each group by label.
pub proof fn law_listing_is_ordered(devices: Seq<Device>, positions: Seq<int>)
    ensures
        in_listing_order(devices, listing_order(devices, positions)),
        listing_order(devices, positions).len() == positions.len(),
    decreases positions.len(),
{
    if positions.len() > 0 {
        law_listing_is_ordered(devices, positions.drop_last());
        lemma_insert_listed(devices, listing_order(devices, positions.drop_last()), positions.last());
    }
}

fn listed_before_exec(a: &Device, b: &Device) -> (r: bool)
    ensures
        r == listed_before(*a, *b),
{
    (a.favorite && !b.favorite) || (a.favorite == b.favorite && less_text(
        a.profile.label.as_str(),
        b.profile.label.as_str(),
    ))
}

fn search_text_of(d: &Device) -> (r: String)
    ensures
        r@ == search_text(*d),
{
    let mut out = owned(d.profile.label.as_str());
    push_char(&mut out, ' ');
    out.append(d.profile.host.as_str());
    push_char(&mut out, ' ');
    out.append(d.profile.username.as_str());
    out
}

/// What connecting to a saved device does.
pub enum ConnectAction {
    /// Connect with the remembered password.
    Connect(Secret),
    /// Open the editor so that a password can be entered.
    Edit,
}

/// Connecting to a saved device uses its remembered password, unless there is none or it is
/// empty, in which case the editor opens.
pub fn connect_action(stored_password: Option<&str>) -> (r: ConnectAction)
    ensures
        match stored_password {
            Some(p) if p@.len() > 0 => r matches ConnectAction::Connect(s) && s@ == p@,
            _ => r is Edit,
        },
{
    match stored_password {
        Some(p) => if p.unicode_len() > 0 {
            ConnectAction::Connect(Secret::new(owned(p)))
        } else {
            ConnectAction::Edit
        },
        None => ConnectAction::Edit,
    }
}

/// A session is only started with a password; an empty one is refused with the message the
/// user sees.
pub fn launch_check(password: &Secret) -> (r: Result<(), String>)
    ensures
        r is Err <==> password@.len() == 0,
        r matches Err(m) ==> m@ == "请输入连接密码"@,
{
    if password.is_empty() {
        Err(String::from_str("请输入连接密码"))
    } else {
        Ok(())
    }
}

/// Where the vault key of the device repository comes from.
pub enum KeySource {
    /// Unprotect the stored key.
    Load,
    /// Generate a key and store it protected; there is no device file yet.
    Generate,
    /// Refuse to open: a device file exists but its key is missing, and it must not be
    /// overwritten.
    Refuse(String),
}

/// The stored key is loaded when it exists; without it a new key is generated only when no
/// device file exists, so existing device data is never overwritten.
pub fn key_source(key_file: bool, data_file: bool) -> (r: KeySource)
    ensures
        key_file ==> r is Load,
        !key_file && !data_file ==> r is Generate,
        !key_file && data_file ==> (r matches KeySource::Refuse(m) && m@
            == "设备文件存在但安全密钥丢失，未覆盖原数据"@),
{
    if key_file {
        KeySource::Load
    } else if data_file {
        KeySource::Refuse(String::from_str("设备文件存在但安全密钥丢失，未覆盖原数据"))
    } else {
        KeySource::Generate
    }
}

fn copy_text(o: &Option<String>) -> (r: Option<String>)
    ensures
        r == *o,
{
    match o {
        Some(s) => Some(s.clone()),
        None => None,
    }
}

fn copy_profile(p: &ConnectionProfile) -> (r: ConnectionProfile)
    ensures
        r == *p,
{
    ConnectionProfile {
        id: p.id,
        label: p.label.clone(),
        host: p.host.clone(),
        port: p.port,
        username: p.username.clone(),
        domain: copy_text(&p.domain),
        desktop: DesktopConfig {
            width: p.desktop.width,
            height: p.desktop.height,
            scale_factor: p.desktop.scale_factor,
        },
        scale_mode: p.scale_mode,
        certificate_policy: match &p.certificate_policy {
            CertificatePolicy::Strict => CertificatePolicy::Strict,
            CertificatePolicy::TrustOnFirstUse { fingerprint } => CertificatePolicy::TrustOnFirstUse {
                fingerprint: copy_text(fingerprint),
            },
        },
    }
}

impl Catalog {
    pub fn new() -> (r: Self)
        ensures
            r.devices@.len() == 0,
            r.trust@.len() == 0,
    {
        Catalog { devices: Vec::new(), trust: Vec::new() }
    }

    /// The first device with this identity.
    pub fn device(&self, id: ProfileId) -> (r: Option<&Device>)
        ensures
            match device_index(self.devices@, id) {
                Some(i) => r matches Some(d) && *d == self.devices@[i],
                None => r is None,
            },
    {
        proof {
            lemma_device_index(self.devices@, id);
        }
        let n = self.devices.len();
        let mut i: usize = 0;
        while i < n
            invariant
                n == self.devices@.len(),
                i <= n,
                forall|j: int| 0 <= j < i ==> self.devices@[j].profile.id != id,
                match device_index(self.devices@, id) {
                    Some(k) => 0 <= k < self.devices@.len() && self.devices@[k].profile.id == id
                        && forall|j: int| 0 <= j < k ==> self.devices@[j].profile.id != id,
                    None => forall|j: int|
                        0 <= j < self.devices@.len() ==> self.devices@[j].profile.id != id,
                },
            decreases n - i,
        {
            if self.devices[i].profile.id == id {
                proof {
                    if let Some(k) = device_index(self.devices@, id) {
                        assert(k == i);
                    }
                }
                return Some(&self.devices[i]);
            }
            i = i + 1;
        }
        None
    }

    /// The fingerprint trusted for an endpoint key.
    pub fn trusted_fingerprint(&self, endpoint: &str) -> (r: Option<&str>)
        ensures
            match trusted(self.trust@, endpoint@) {
                Some(f) => r matches Some(s) && s@ == f,
                None => r is None,
            },
    {
        proof {
            lemma_trusted(self.trust@, endpoint@);
        }
        let n = self.trust.len();
        let mut i: usize = 0;
        while i < n
            invariant
                n == self.trust@.len(),
                i <= n,
                forall|j: int| 0 <= j < i ==> self.trust@[j].endpoint@ != endpoint@,
                match trusted(self.trust@, endpoint@) {
                    Some(f) => exists|k: int|
                        0 <= k < self.trust@.len() && self.trust@[k].endpoint@ == endpoint@
                            && self.trust@[k].fingerprint@ == f && forall|j: int|
                            0 <= j < k ==> self.trust@[j].endpoint@ != endpoint@,
                    None => forall|j: int|
                        0 <= j < self.trust@.len() ==> self.trust@[j].endpoint@ != endpoint@,
                },
            decreases n - i,
        {
            if strings_equal(self.trust[i].endpoint.as_str(), endpoint) {
                proof {
                    if let Some(f) = trusted(self.trust@, endpoint@) {
                        let k = choose|k: int|
                            0 <= k < self.trust@.len() && self.trust@[k].endpoint@ == endpoint@
                                && self.trust@[k].fingerprint@ == f && forall|j: int|
                                0 <= j < k ==> self.trust@[j].endpoint@ != endpoint@;
                        assert(k == i);
                    }
                }
                return Some(self.trust[i].fingerprint.as_str());
            }
            i = i + 1;
        }
        None
    }

    /// Makes the catalog ready to be written: every profile must validate (else the message of
    /// the first invalid one), and a password that is not to be remembered is dropped.
    pub fn prepare_for_save(self) -> (r: Result<Catalog, String>)
        ensures
            match first_invalid(self.devices@) {
                Some(i) => r matches Err(m) && (profile_check(self.devices@[i].profile) matches Err(
                    e,
                ) && m@ == validation_text(e)),
                None => r matches Ok(c) && all_saved(c.devices@, self.devices@) && c.trust
                    == self.trust,
            },
    {
        proof {
            lemma_first_invalid(self.devices@);
        }
        let Catalog { devices, trust } = self;
        let ghost given = devices@;
        let n = devices.len();
        let mut rest = devices;
        let mut out: Vec<Device> = Vec::new();
        let mut i: usize = 0;
        while i < n
            invariant
                n == given.len(),
                given == self.devices@,
                i <= n,
                rest@ == given.subrange(i as int, n as int),
                out@.len() == i,
                forall|k: int| 0 <= k < i ==> out@[k] == saved(#[trigger] given[k]),
                forall|k: int| 0 <= k < i ==> profile_check(#[trigger] given[k].profile) is Ok,
                match first_invalid(given) {
                    Some(x) => 0 <= x < given.len() && profile_check(given[x].profile) is Err
                        && forall|j: int| 0 <= j < x ==> profile_check(given[j].profile) is Ok,
                    None => forall|j: int|
                        0 <= j < given.len() ==> profile_check(given[j].profile) is Ok,
                },
            decreases n - i,
        {
            let device = rest.remove(0);
            proof {
                assert(device == given[i as int]);
                assert(rest@ =~= given.subrange(i + 1, n as int));
            }
            match device.profile.validate() {
                Err(e) => {
                    proof {
                        if let Some(x) = first_invalid(given) {
                            assert(x == i);
                        }
                    }
                    return Err(owned(e.message()));
                },
                Ok(()) => {},
            }
            let kept = if device.remember_password {
                device
            } else {
                Device { password: None, ..device }
            };
            out.push(kept);
            i = i + 1;
        }
        Ok(Catalog { devices: out, trust })
    }

    /// Adds the device, or replaces the first device with the same identity.
    pub fn upsert(&mut self, device: Device)
        ensures
            final(self).trust == old(self).trust,
            match device_index(old(self).devices@, device.profile.id) {
                Some(i) => final(self).devices@ == old(self).devices@.update(i, device),
                None => final(self).devices@ == old(self).devices@.push(device),
            },
    {
        proof {
            lemma_device_index(self.devices@, device.profile.id);
        }
        match self.index_of(device.profile.id) {
            Some(i) => {
                self.devices.set(i, device);
            },
            None => {
                self.devices.push(device);
            },
        }
    }

    fn index_of(&self, id: ProfileId) -> (r: Option<usize>)
        ensures
            r matches Some(k) ==> device_index(self.devices@, id) == Some(k as int),
            r is None ==> device_index(self.devices@, id) is None,
    {
        proof {
            lemma_device_index(self.devices@, id);
        }
        let n = self.devices.len();
        let mut i: usize = 0;
        while i < n
            invariant
                n == self.devices@.len(),
                i <= n,
                forall|j: int| 0 <= j < i ==> self.devices@[j].profile.id != id,
                match device_index(self.devices@, id) {
                    Some(k) => 0 <= k < self.devices@.len() && self.devices@[k].profile.id == id
                        && forall|j: int| 0 <= j < k ==> self.devices@[j].profile.id != id,
                    None => forall|j: int|
                        0 <= j < self.devices@.len() ==> self.devices@[j].profile.id != id,
                },
            decreases n - i,
        {
            if self.devices[i].profile.id == id {
                proof {
                    if let Some(k) = device_index(self.devices@, id) {
                        assert(k == i);
                    }
                }
                return Some(i);
            }
            i = i + 1;
        }
        None
    }

    /// Flips the favorite mark of the first device with this identity.
    pub fn toggle_favorite(&mut self, id: ProfileId)
        ensures
            final(self).trust == old(self).trust,
            match device_index(old(self).devices@, id) {
                Some(i) => final(self).devices@ == old(self).devices@.update(
                    i,
                    Device { favorite: !old(self).devices@[i].favorite, ..old(self).devices@[i] },
                ),
                None => final(self).devices@ == old(self).devices@,
            },
    {
        proof {
            lemma_device_index(self.devices@, id);
        }
        if let Some(i) = self.index_of(id) {
            let device = self.devices.remove(i);
            proof {
                assert(device == old(self).devices@[i as int]);
                assert(device_index(old(self).devices@, id) == Some(i as int));
            }
            let flipped = Device { favorite: !device.favorite, ..device };
            self.devices.insert(i, flipped);
            proof {
                assert(self.devices@ =~= old(self).devices@.update(i as int, flipped));
            }
        }
    }

    /// Trusts `fingerprint` for `endpoint`, replacing the fingerprint trusted before.
    pub fn set_trust(&mut self, endpoint: String, fingerprint: String)
        ensures
            final(self).devices == old(self).devices,
            trusted(final(self).trust@, endpoint@) == Some(fingerprint@),
            forall|other: Seq<char>|
                other != endpoint@ ==> trusted(final(self).trust@, other) == trusted(
                    old(self).trust@,
                    other,
                ),
    {
        let ghost before = self.trust@;
        let n = self.trust.len();
        let mut i: usize = 0;
        while i < n
            invariant
                n == self.trust@.len(),
                self.trust@ == before,
                before == old(self).trust@,
                self.devices == old(self).devices,
                i <= n,
                forall|j: int| 0 <= j < i ==> self.trust@[j].endpoint@ != endpoint@,
            decreases n - i,
        {
            if strings_equal(self.trust[i].endpoint.as_str(), endpoint.as_str()) {
                self.trust.set(i, TrustEntry { endpoint, fingerprint });
                proof {
                    lemma_trusted_update(before, i as int, self.trust@, endpoint@);
                }
                return;
            }
            i = i + 1;
        }
        self.trust.push(TrustEntry { endpoint, fingerprint });
        proof {
            lemma_trusted_push(before, self.trust@, endpoint@);
        }
    }

    /// Deletes the devices with this identity. When no device is left at the deleted device's
    /// endpoint, the fingerprint trusted for it is forgotten too.
    pub fn remove_device(&mut self, id: ProfileId)
        ensures
            final(self).devices@ == without_device(old(self).devices@, id),
            match device_index(old(self).devices@, id) {
                Some(i) => {
                    let key = endpoint_key_text(
                        old(self).devices@[i].profile.host@,
                        old(self).devices@[i].profile.port,
                    );
                    if endpoint_in_use(final(self).devices@, key) {
                        final(self).trust@ == old(self).trust@
                    } else {
                        final(self).trust@ == without_endpoint(old(self).trust@, key) && trusted(
                            final(self).trust@,
                            key,
                        ) is None
                    }
                },
                None => final(self).trust@ == old(self).trust@,
            },
    {
        proof {
            lemma_device_index(self.devices@, id);
        }
        let found = self.index_of(id);
        let endpoint = match found {
            Some(i) => {
                let key = endpoint_key(&self.devices[i].profile);
                proof {
                    assert(device_index(old(self).devices@, id) == Some(i as int));
                    assert(key@ == endpoint_key_text(
                        old(self).devices@[i as int].profile.host@,
                        old(self).devices@[i as int].profile.port,
                    ));
                }
                Some(key)
            },
            None => None,
        };
        proof {
            match device_index(old(self).devices@, id) {
                Some(i) => {
                    assert(endpoint matches Some(k) && k@ == endpoint_key_text(
                        old(self).devices@[i].profile.host@,
                        old(self).devices@[i].profile.port,
                    ));
                },
                None => {
                    assert(endpoint is None);
                },
            }
        }
        let mut devices: Vec<Device> = Vec::new();
        std::mem::swap(&mut devices, &mut self.devices);
        self.devices = retain_other_devices(devices, id);
        if let Some(key) = endpoint {
            if !self.endpoint_used(key.as_str()) {
                let mut trust: Vec<TrustEntry> = Vec::new();
                std::mem::swap(&mut trust, &mut self.trust);
                self.trust = retain_other_endpoints(trust, key.as_str());
                proof {
                    law_forgotten_endpoint_is_untrusted(old(self).trust@, key@);
                }
            }
        }
    }

    fn endpoint_used(&self, endpoint: &str) -> (r: bool)
        ensures
            r == endpoint_in_use(self.devices@, endpoint@),
    {
        let n = self.devices.len();
        let mut i: usize = 0;
        while i < n
            invariant
                n == self.devices@.len(),
                i <= n,
                forall|j: int|
                    0 <= j < i ==> endpoint_key_text(
                        self.devices@[j].profile.host@,
                        self.devices@[j].profile.port,
                    ) != endpoint@,
            decreases n - i,
        {
            let key = endpoint_key(&self.devices[i].profile);
            if strings_equal(key.as_str(), endpoint) {
                return true;
            }
            i = i + 1;
        }
        false
    }

    /// The profile a device connects with: its own, trusting on first use the fingerprint
    /// saved for its endpoint, if any.
    pub fn session_profile(&self, device: &Device) -> (r: ConnectionProfile)
        ensures
            r == (ConnectionProfile { certificate_policy: r.certificate_policy, ..device.profile }),
            r.certificate_policy matches CertificatePolicy::TrustOnFirstUse { fingerprint } && match trusted(
                self.trust@,
                endpoint_key_text(device.profile.host@, device.profile.port),
            ) {
                Some(f) => fingerprint matches Some(s) && s@ == f,
                None => fingerprint is None,
            },
    {
        let key = endpoint_key(&device.profile);
        let fingerprint = match self.trusted_fingerprint(key.as_str()) {
            Some(f) => Some(owned(f)),
            None => None,
        };
        let mut profile = copy_profile(&device.profile);
        profile.certificate_policy = CertificatePolicy::TrustOnFirstUse { fingerprint };
        profile
    }

    /// The device that the editor saves: the profile and options given, the favorite mark of
    /// the device it replaces, and the password only when it is to be remembered and not
    /// empty.
    pub fn device_for_save(
        &self,
        profile: ConnectionProfile,
        remember_password: bool,
        password: &str,
        direct_touch: bool,
        dynamic_resolution: bool,
    ) -> (r: Device)
        ensures
            r.profile == profile,
            r.favorite == match device_index(self.devices@, profile.id) {
                Some(i) => self.devices@[i].favorite,
                None => false,
            },
            r.remember_password == remember_password,
            remember_password && password@.len() > 0 ==> (r.password matches Some(p) && p@
                == password@),
            !(remember_password && password@.len() > 0) ==> r.password is None,
            r.direct_touch == direct_touch,
            r.dynamic_resolution == dynamic_resolution,
    {
        let favorite = match self.device(profile.id) {
            Some(d) => d.favorite,
            None => false,
        };
        let kept = if remember_password && password.unicode_len() > 0 {
            Some(owned(password))
        } else {
            None
        };
        Device { profile, favorite, remember_password, password: kept, direct_touch, dynamic_resolution }
    }

    /// The lines of the device list for a search: the shown devices, favorites first, then by
    /// label.
    pub fn rows(&self, search: &str, favorites_only: bool) -> (r: Vec<DeviceRow>)
        ensures
            ({
                let order = listing_order(
                    self.devices@,
                    shown_indices(self.devices@, search@, favorites_only),
                );
                &&& r@.len() == order.len()
                &&& forall|k: int| 0 <= k < order.len() ==> row_of(#[trigger] r@[k], self.devices@[order[k]])
            }),
    {
        let devices = &self.devices;
        let n = devices.len();
        let needle = lowercase(search);
        let mut shown_at: Vec<usize> = Vec::new();
        let mut i: usize = 0;
        while i < n
            invariant
                n == devices@.len(),
                i <= n,
                needle@ == unicode_lowercase(search@),
                shown_at@.map_values(|x: usize| x as int) == shown_indices(
                    devices@.subrange(0, i as int),
                    search@,
                    favorites_only,
                ),
                forall|t: int| 0 <= t < shown_at@.len() ==> shown_at@[t] < i,
            decreases n - i,
        {
            let d = &devices[i];
            let hay = lowercase(search_text_of(d).as_str());
            let keep = (!favorites_only || d.favorite) && contains_text(hay.as_str(), needle.as_str());
            proof {
                let s = devices@.subrange(0, i + 1);
                assert(s.drop_last() =~= devices@.subrange(0, i as int));
                assert(s.last() == *d);
                assert(keep == shown(*d, search@, favorites_only));
            }
            let ghost before = shown_at@;
            if keep {
                shown_at.push(i);
                proof {
                    assert(shown_at@.map_values(|x: usize| x as int) =~= before.map_values(
                        |x: usize| x as int,
                    ).push(i as int));
                }
            }
            i = i + 1;
        }
        proof {
            assert(devices@.subrange(0, n as int) =~= devices@);
        }
        let ghost positions = shown_at@.map_values(|x: usize| x as int);
        let mut order: Vec<usize> = Vec::new();
        let m = shown_at.len();
        let mut k: usize = 0;
        while k < m
            invariant
                n == devices@.len(),
                m == shown_at@.len(),
                positions == shown_at@.map_values(|x: usize| x as int),
                forall|t: int| 0 <= t < shown_at@.len() ==> shown_at@[t] < n,
                k <= m,
                order@.map_values(|x: usize| x as int) == listing_order(
                    devices@,
                    positions.subrange(0, k as int),
                ),
                forall|t: int| 0 <= t < order@.len() ==> order@[t] < n,
            decreases m - k,
        {
            let at = shown_at[k];
            let len = order.len();
            let mut j: usize = len;
            while j > 0 && listed_before_exec(&devices[at], &devices[order[j - 1]])
                invariant
                    n == devices@.len(),
                    at < n,
                    len == order@.len(),
                    j <= len,
                    forall|t: int| 0 <= t < order@.len() ==> order@[t] < n,
                    forall|t: int|
                        j <= t < len ==> listed_before(
                            devices@[at as int],
                            #[trigger] devices@[order@[t] as int],
                        ),
                decreases j,
            {
                j = j - 1;
            }
            let ghost o = order@.map_values(|x: usize| x as int);
            proof {
                assert forall|t: int| j <= t < o.len() implies listed_before(
                    devices@[at as int],
                    #[trigger] devices@[o[t]],
                ) by {
                    assert(o[t] == order@[t] as int);
                }
                if j > 0 {
                    assert(o[j - 1] == order@[j - 1] as int);
                }
                lemma_insert_at(devices@, o, at as int, j as int);
                let p = positions.subrange(0, k + 1);
                assert(p.drop_last() =~= positions.subrange(0, k as int));
                assert(p.last() == at as int);
            }
            order.insert(j, at);
            proof {
                assert(order@.map_values(|x: usize| x as int) =~= o.subrange(0, j as int).push(
                    at as int,
                ) + o.subrange(j as int, o.len() as int));
            }
            k = k + 1;
        }
        proof {
            assert(positions.subrange(0, m as int) =~= positions);
        }
        let mut rows: Vec<DeviceRow> = Vec::new();
        let count = order.len();
        let mut t: usize = 0;
        while t < count
            invariant
                n == devices@.len(),
                count == order@.len(),
                forall|u: int| 0 <= u < order@.len() ==> order@[u] < n,
                t <= count,
                rows@.len() == t,
                forall|u: int| 0 <= u < t ==> row_of(#[trigger] rows@[u], devices@[order@[u] as int]),
            decreases count - t,
        {
            let d = &devices[order[t]];
            rows.push(
                DeviceRow {
                    id: d.profile.id,
                    name: d.profile.label.clone(),
                    endpoint: d.profile.endpoint(),
                    username: d.profile.username.clone(),
                    favorite: d.favorite,
                },
            );
            t = t + 1;
        }
        proof {
            let order_spec = listing_order(
                self.devices@,
                shown_indices(self.devices@, search@, favorites_only),
            );
            assert(order_spec == order@.map_values(|x: usize| x as int));
            assert forall|u: int| 0 <= u < order_spec.len() implies row_of(
                #[trigger] rows@[u],
                self.devices@[order_spec[u]],
            ) by {
                assert(order_spec[u] == order@[u] as int);
            }
        }
        rows
    }

    /// Whether some fingerprint is trusted for the endpoint.
    pub fn trusts(&self, endpoint: &str) -> (r: bool)
        ensures
            r == trusted(self.trust@, endpoint@) is Some,
    {
        self.trusted_fingerprint(endpoint).is_some()
    }
}

} // verus!
