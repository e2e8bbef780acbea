//! Load-test statistics: which devices registered and how many INVITEs each received.
use vstd::prelude::*;
use dashmap::DashMap;

verus! {

/// The map of registered devices.
pub type RegisteredMap = DashMap<String, bool>;

/// The map of INVITE counts per device.
pub type InviteMap = DashMap<String, u64>;

/// The entries of the registered-devices map.
pub uninterp spec fn registered_entries(m: RegisteredMap) -> Map<Seq<char>, bool>;

/// The entries of the INVITE-count map.
pub uninterp spec fn invite_entries(m: InviteMap) -> Map<Seq<char>, u64>;

/// `DashMap::new`: an empty map.
#[verifier::external_body]
fn registered_map_new() -> (r: RegisteredMap)
    ensures
        registered_entries(r).dom() == Set::<Seq<char>>::empty(),
{
    DashMap::new()
}

/// `DashMap::insert`: the key now maps to the value, others are unchanged.
#[verifier::external_body]
fn registered_map_insert(m: &mut RegisteredMap, key: String, value: bool)
    ensures
        registered_entries(*final(m)) == registered_entries(*old(m)).insert(key@, value),
{
    m.insert(key, value);
}

/// `DashMap::len`: the number of keys.
#[verifier::external_body]
fn registered_map_len(m: &RegisteredMap) -> (r: usize)
    ensures
        r == registered_entries(*m).dom().len(),
{
    m.len()
}

/// `DashMap::new`: an empty map.
#[verifier::external_body]
fn invite_map_new() -> (r: InviteMap)
    ensures
        invite_entries(r).dom() == Set::<Seq<char>>::empty(),
{
    DashMap::new()
}

/// `DashMap::insert`: the key now maps to the value, others are unchanged.
#[verifier::external_body]
fn invite_map_insert(m: &mut InviteMap, key: String, value: u64)
    ensures
        invite_entries(*final(m)) == invite_entries(*old(m)).insert(key@, value),
{
    m.insert(key, value);
}

/// `DashMap::get`, copying the value found.
#[verifier::external_body]
fn invite_map_get(m: &InviteMap, key: &str) -> (r: Option<u64>)
    ensures
        match r {
            Some(v) => invite_entries(*m).contains_key(key@) && v == invite_entries(*m)[key@],
            None => !invite_entries(*m).contains_key(key@),
        },
{
    m.get(key).map(|v| *v)
}

/// `DashMap::len`: the number of keys.
#[verifier::external_body]
fn invite_map_len(m: &InviteMap) -> (r: usize)
    ensures
        r == invite_entries(*m).dom().len(),
{
    m.len()
}

/// The statistics of a load test.
pub struct Stats {
    registered: RegisteredMap,
    invite_counts: InviteMap,
    total_invites: u64,
    total_devices: u64,
}

/// The statistics as values of specifications.
pub struct StatsView {
    /// The devices marked registered.
    pub registered: Set<Seq<char>>,
    /// INVITEs received, per device that received any.
    pub invites: Map<Seq<char>, u64>,
    /// INVITEs received in all.
    pub total_invites: u64,
    /// The number of simulated devices.
    pub total_devices: u64,
}

impl View for Stats {
    type V = StatsView;

    closed spec fn view(&self) -> StatsView {
        StatsView {
            registered: registered_entries(self.registered).dom(),
            invites: invite_entries(self.invite_counts),
            total_invites: self.total_invites,
            total_devices: self.total_devices,
        }
    }
}

impl Stats {
    /// The statistics are consistent: finitely many devices are recorded, each
    /// recorded count is positive and no count exceeds the total.
    pub closed spec fn wf(&self) -> bool {
        &&& registered_entries(self.registered).dom().finite()
        &&& invite_entries(self.invite_counts).dom().finite()
        &&& forall|d: Seq<char>| #[trigger]
            invite_entries(self.invite_counts).contains_key(d) ==> 1 <= invite_entries(
                self.invite_counts,
            )[d] <= self.total_invites
    }

    /// Statistics for `total_devices` devices with nothing recorded.
    pub fn new(total_devices: u64) -> (r: Stats)
        ensures
            r.wf(),
            r@.registered == Set::<Seq<char>>::empty(),
            r@.invites == Map::<Seq<char>, u64>::empty(),
            r@.registered.finite(),
            r@.invites.dom().finite(),
            r@.total_invites == 0,
            r@.total_devices == total_devices,
    {
        let registered = registered_map_new();
        let invite_counts = invite_map_new();
        assert(invite_entries(invite_counts) =~= Map::<Seq<char>, u64>::empty());
        Stats { registered, invite_counts, total_invites: 0, total_devices }
    }

    /// Records that a device registered.
    pub fn mark_registered(&mut self, device_id: &str)
        requires
            old(self).wf(),
        ensures
            final(self).wf(),
            final(self)@.registered == old(self)@.registered.insert(device_id@),
            final(self)@.registered.finite(),
            final(self)@.registered.len() == old(self)@.registered.len() + if old(
                self,
            )@.registered.contains(device_id@) {
                0int
            } else {
                1int
            },
            final(self)@.invites == old(self)@.invites,
            final(self)@.invites.dom().finite(),
            final(self)@.total_invites == old(self)@.total_invites,
            final(self)@.total_devices == old(self)@.total_devices,
    {
        registered_map_insert(&mut self.registered, device_id.to_owned(), true);
    }

    /// Records one INVITE received by a device.
    pub fn mark_invite(&mut self, device_id: &str)
        requires
            old(self).wf(),
            old(self)@.total_invites < u64::MAX,
        ensures
            final(self).wf(),
            final(self)@.total_invites == old(self)@.total_invites + 1,
            final(self)@.invites == old(self)@.invites.insert(
                device_id@,
                (invite_count(old(self)@, device_id@) + 1) as u64,
            ),
            final(self)@.invites.dom().finite(),
            final(self)@.invites.dom().len() == old(self)@.invites.dom().len() + if old(
                self,
            )@.invites.contains_key(device_id@) {
                0int
            } else {
                1int
            },
            final(self)@.registered == old(self)@.registered,
            final(self)@.registered.finite(),
            final(self)@.total_devices == old(self)@.total_devices,
    {
        self.total_invites = self.total_invites + 1;
        let current: u64 = match invite_map_get(&self.invite_counts, device_id) {
            Some(c) => c,
            None => 0,
        };
        invite_map_insert(&mut self.invite_counts, device_id.to_owned(), current + 1);
    }

    /// The number of devices marked registered.
    pub fn registered_count(&self) -> (r: usize)
        ensures
            r == self@.registered.len(),
    {
        registered_map_len(&self.registered)
    }

    /// The number of INVITEs received in all.
    pub fn total_invites(&self) -> (r: u64)
        ensures
            r == self@.total_invites,
    {
        self.total_invites
    }

    /// The number of devices that received at least one INVITE.
    pub fn invited_devices_count(&self) -> (r: usize)
        ensures
            r == self@.invites.dom().len(),
    {
        invite_map_len(&self.invite_counts)
    }

    /// The number of simulated devices.
    pub fn total_devices(&self) -> (r: u64)
        ensures
            r == self@.total_devices,
    {
        self.total_devices
    }
}

/// The INVITEs a device has received.
pub open spec fn invite_count(v: StatsView, device_id: Seq<char>) -> nat {
    if v.invites.contains_key(device_id) {
        v.invites[device_id] as nat
    } else {
        0
    }
}


/// Counting an INVITE for one device raises that device's count by one and
/// leaves every other device's count as it was.
pub proof fn law_invite_counted_once(v: StatsView, w: StatsView, device: Seq<char>, other: Seq<char>)
    requires
        other != device,
        invite_count(v, device) < u64::MAX,
        w.invites == v.invites.insert(device, (invite_count(v, device) + 1) as u64),
    ensures
        invite_count(w, device) == invite_count(v, device) + 1,
        invite_count(w, other) == invite_count(v, other),
{
}

} // verus!
