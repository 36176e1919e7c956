//! Collecting the devices that answer an mDNS query, and listing them: each
//! device once, speaker groups first, each kind sorted by name.
use vstd::prelude::*;
use crate::device::{ChromecastDevice, DeviceView, DnsRecord, devices_view, response_device, device_from_response};
use crate::text::{lex_less, precedes, lemma_lex_asymmetric, lemma_lex_not_less_transitive};
use vstd::seq_lib::{lemma_multiset_commutative, to_multiset_build, to_multiset_contains, to_multiset_insert};

verus! {

/// Two devices are the same device when they have the same address and name.
pub open spec fn same_key(a: DeviceView, b: DeviceView) -> bool {
    a.ip == b.ip && a.name == b.name
}

/// No two devices of the sequence are the same device.
pub open spec fn unique_keys(s: Seq<DeviceView>) -> bool {
    forall|i: int, j: int| 0 <= i < j < s.len() ==> !same_key(#[trigger] s[i], #[trigger] s[j])
}

/// Some device of the sequence is the same device as `d`.
pub open spec fn has_key(s: Seq<DeviceView>, d: DeviceView) -> bool {
    exists|i: int| 0 <= i < s.len() && same_key(#[trigger] s[i], d)
}

/// The position at which `x` goes into `s`, sorted by name: after every device
/// whose name does not come after `x`'s, scanning from the end.
pub open spec fn insert_index(s: Seq<DeviceView>, x: DeviceView) -> nat
    decreases s.len(),
{
    if s.len() == 0 || !lex_less(x.name, s.last().name) {
        s.len()
    } else {
        insert_index(s.drop_last(), x)
    }
}

/// Sorting by name by insertion, each device placed after those of equal name
/// that came before it.
pub open spec fn sort_by_name(s: Seq<DeviceView>) -> Seq<DeviceView>
    decreases s.len(),
{
    if s.len() == 0 {
        s
    } else {
        let sorted = sort_by_name(s.drop_last());
        sorted.insert(insert_index(sorted, s.last()) as int, s.last())
    }
}

/// Speaker groups.
pub open spec fn group_pred() -> spec_fn(DeviceView) -> bool {
    |d: DeviceView| d.is_group
}

/// Single devices.
pub open spec fn single_pred() -> spec_fn(DeviceView) -> bool {
    |d: DeviceView| !d.is_group
}

/// The listing of collected devices: the speaker groups sorted by name, then
/// the single devices sorted by name.
pub open spec fn listing(s: Seq<DeviceView>) -> Seq<DeviceView> {
    sort_by_name(s.filter(group_pred())) + sort_by_name(s.filter(single_pred()))
}

/// Names never decrease along the sequence.
pub open spec fn sorted_by_name(s: Seq<DeviceView>) -> bool {
    forall|i: int, j: int| 0 <= i < j < s.len() ==> !lex_less(#[trigger] s[j].name, #[trigger] s[i].name)
}

proof fn lemma_devices_view_insert(v: Seq<ChromecastDevice>, i: int, d: ChromecastDevice)
    requires
        0 <= i <= v.len(),
    ensures
        devices_view(v.insert(i, d)) == devices_view(v).insert(i, d@),
{
    assert(devices_view(v.insert(i, d)) =~= devices_view(v).insert(i, d@));
}

proof fn lemma_devices_view_push(v: Seq<ChromecastDevice>, d: ChromecastDevice)
    ensures
        devices_view(v.push(d)) == devices_view(v).push(d@),
{
    assert(devices_view(v.push(d)) =~= devices_view(v).push(d@));
}

proof fn lemma_devices_view_skip(v: Seq<ChromecastDevice>, i: int)
    requires
        0 <= i <= v.len(),
    ensures
        devices_view(v.skip(i)) == devices_view(v).skip(i),
{
    assert(devices_view(v.skip(i)) =~= devices_view(v).skip(i));
}

/// Where `x` goes among devices sorted so far, found by scanning back from the
/// end past every device whose name comes after `x`'s.
fn find_insert_index(sorted: &Vec<ChromecastDevice>, x: &ChromecastDevice) -> (k: usize)
    ensures
        k == insert_index(devices_view(sorted@), x@),
{
    let ghost s = devices_view(sorted@);
    let mut j = sorted.len();
    assert(s.take(j as int) =~= s);
    while j > 0
        invariant
            j <= sorted@.len(),
            s == devices_view(sorted@),
            insert_index(s, x@) == insert_index(s.take(j as int), x@),
        ensures
            insert_index(s, x@) == j,
        decreases j,
    {
        let ghost t = s.take(j as int);
        assert(t.last() == s[j - 1]);
        if !precedes(x.name.as_str(), sorted[j - 1].name.as_str()) {
            return j;
        }
        assert(t.drop_last() =~= s.take(j - 1));
        j = j - 1;
    }
    j
}

/// Sorts devices by name, keeping devices of equal name in their order.
fn sort_devices(input: Vec<ChromecastDevice>) -> (sorted: Vec<ChromecastDevice>)
    ensures
        devices_view(sorted@) == sort_by_name(devices_view(input@)),
{
    let ghost orig = devices_view(input@);
    let mut rest = input;
    let mut sorted: Vec<ChromecastDevice> = Vec::new();
    let n = rest.len();
    let mut i: usize = 0;
    assert(orig.take(0) =~= Seq::<DeviceView>::empty());
    assert(devices_view(sorted@) =~= Seq::<DeviceView>::empty());
    assert(input@.skip(0) =~= input@);
    while i < n
        invariant
            n == input@.len(),
            orig == devices_view(input@),
            i <= n,
            rest@ == input@.skip(i as int),
            devices_view(sorted@) == sort_by_name(orig.take(i as int)),
        decreases n - i,
    {
        let x = rest.remove(0);
        assert(x == input@[i as int]);
        assert(input@.skip(i as int).remove(0) =~= input@.skip(i + 1));
        let k = find_insert_index(&sorted, &x);
        proof {
            lemma_insert_index_bound(devices_view(sorted@), x@);
            lemma_devices_view_insert(sorted@, k as int, x);
            assert(orig.take(i + 1).drop_last() =~= orig.take(i as int));
            assert(orig.take(i + 1).last() == x@);
        }
        sorted.insert(k, x);
        i = i + 1;
    }
    assert(orig.take(n as int) =~= orig);
    sorted
}

/// Splits devices into speaker groups and single devices, each in their order.
fn split_by_kind(input: Vec<ChromecastDevice>) -> (parts: (Vec<ChromecastDevice>, Vec<ChromecastDevice>))
    ensures
        devices_view(parts.0@) == devices_view(input@).filter(group_pred()),
        devices_view(parts.1@) == devices_view(input@).filter(single_pred()),
{
    let ghost orig = devices_view(input@);
    let mut rest = input;
    let mut groups: Vec<ChromecastDevice> = Vec::new();
    let mut singles: Vec<ChromecastDevice> = Vec::new();
    let n = rest.len();
    let mut i: usize = 0;
    assert(orig.take(0) =~= Seq::<DeviceView>::empty());
    assert(orig.take(0).filter(group_pred()) =~= Seq::<DeviceView>::empty()) by { reveal(Seq::filter); }
    assert(orig.take(0).filter(single_pred()) =~= Seq::<DeviceView>::empty()) by { reveal(Seq::filter); }
    assert(devices_view(groups@) =~= Seq::<DeviceView>::empty());
    assert(devices_view(singles@) =~= Seq::<DeviceView>::empty());
    assert(input@.skip(0) =~= input@);
    while i < n
        invariant
            n == input@.len(),
            orig == devices_view(input@),
            i <= n,
            rest@ == input@.skip(i as int),
            devices_view(groups@) == orig.take(i as int).filter(group_pred()),
            devices_view(singles@) == orig.take(i as int).filter(single_pred()),
        decreases n - i,
    {
        let x = rest.remove(0);
        assert(x == input@[i as int]);
        assert(input@.skip(i as int).remove(0) =~= input@.skip(i + 1));
        proof {
            assert(orig.take(i + 1) =~= orig.take(i as int).push(x@));
            orig.take(i as int).lemma_filter_push(x@, group_pred());
            orig.take(i as int).lemma_filter_push(x@, single_pred());
            lemma_devices_view_push(groups@, x);
            lemma_devices_view_push(singles@, x);
        }
        if x.is_group {
            groups.push(x);
        } else {
            singles.push(x);
        }
        i = i + 1;
    }
    assert(orig.take(n as int) =~= orig);
    (groups, singles)
}

/// The insertion point lies within the sequence.
pub proof fn lemma_insert_index_bound(s: Seq<DeviceView>, x: DeviceView)
    ensures
        insert_index(s, x) <= s.len(),
    decreases s.len(),
{
    if s.len() > 0 && lex_less(x.name, s.last().name) {
        lemma_insert_index_bound(s.drop_last(), x);
    }
}

/// Where sorting by name puts `x` into sorted `t`: after every device whose
/// name is not after `x`'s, before every device whose name is.
pub proof fn lemma_insert_index_places(t: Seq<DeviceView>, x: DeviceView)
    requires
        sorted_by_name(t),
    ensures
        insert_index(t, x) <= t.len(),
        forall|i: int| 0 <= i < insert_index(t, x) ==> !lex_less(x.name, #[trigger] t[i].name),
        forall|i: int| insert_index(t, x) <= i < t.len() ==> lex_less(x.name, #[trigger] t[i].name),
    decreases t.len(),
{
    if t.len() == 0 {
    } else if !lex_less(x.name, t.last().name) {
        assert forall|i: int| 0 <= i < t.len() implies !lex_less(x.name, #[trigger] t[i].name) by {
            if i < t.len() - 1 {
                lemma_lex_not_less_transitive(t[i].name, t.last().name, x.name);
            }
        }
    } else {
        let u = t.drop_last();
        assert(sorted_by_name(u));
        lemma_insert_index_places(u, x);
        assert forall|i: int| 0 <= i < insert_index(t, x) implies !lex_less(x.name, #[trigger] t[i].name) by {
            assert(u[i] == t[i]);
        }
        assert forall|i: int| insert_index(t, x) <= i < t.len() implies lex_less(x.name, #[trigger] t[i].name) by {
            if i < t.len() - 1 {
                assert(u[i] == t[i]);
            }
        }
    }
}

/// Sorting by name gives names in order.
pub proof fn lemma_sort_by_name_sorted(s: Seq<DeviceView>)
    ensures
        sorted_by_name(sort_by_name(s)),
    decreases s.len(),
{
    if s.len() > 0 {
        let t = sort_by_name(s.drop_last());
        lemma_sort_by_name_sorted(s.drop_last());
        let x = s.last();
        let k = insert_index(t, x) as int;
        lemma_insert_index_places(t, x);
        t.insert_ensures(k, x);
        let u = t.insert(k, x);
        assert forall|i: int, j: int| 0 <= i < j < u.len() implies !lex_less(#[trigger] u[j].name, #[trigger] u[i].name) by {
            if j < k {
            } else if j == k {
            } else if i < k {
                assert(u[j] == t[j - 1]);
            } else if i == k {
                assert(u[j] == t[j - 1]);
                lemma_lex_asymmetric(x.name, t[j - 1].name);
            } else {
                assert(u[i] == t[i - 1]);
                assert(u[j] == t[j - 1]);
            }
        }
    }
}

/// Sorting by name only rearranges: the same devices, each as often.
pub proof fn lemma_sort_by_name_permutes(s: Seq<DeviceView>)
    ensures
        sort_by_name(s).to_multiset() == s.to_multiset(),
    decreases s.len(),
{
    if s.len() > 0 {
        let t = sort_by_name(s.drop_last());
        lemma_sort_by_name_permutes(s.drop_last());
        lemma_insert_index_bound(t, s.last());
        to_multiset_insert(t, insert_index(t, s.last()) as int, s.last());
        assert(s =~= s.drop_last().push(s.last()));
        to_multiset_build(s.drop_last(), s.last());
    }
}

/// Splitting by kind loses and adds nothing: the groups and the single devices
/// together are the devices.
pub proof fn lemma_split_by_kind_permutes(s: Seq<DeviceView>)
    ensures
        s.filter(group_pred()).to_multiset().add(s.filter(single_pred()).to_multiset()) == s.to_multiset(),
    decreases s.len(),
{
    broadcast use vstd::multiset::group_multiset_axioms;
    if s.len() == 0 {
        assert(s.filter(group_pred()) =~= s) by { reveal(Seq::filter); }
        assert(s.filter(single_pred()) =~= s) by { reveal(Seq::filter); }
        assert(s.to_multiset() =~= vstd::multiset::Multiset::empty()) by {
            broadcast use vstd::seq_lib::group_to_multiset_ensures;
        }
        assert(s.filter(group_pred()).to_multiset().add(s.filter(single_pred()).to_multiset()) =~= s.to_multiset());
    } else {
        let p = s.drop_last();
        let x = s.last();
        lemma_split_by_kind_permutes(p);
        assert(s =~= p.push(x));
        p.lemma_filter_push(x, group_pred());
        p.lemma_filter_push(x, single_pred());
        to_multiset_build(p, x);
        to_multiset_build(p.filter(group_pred()), x);
        to_multiset_build(p.filter(single_pred()), x);
        assert(s.filter(group_pred()).to_multiset().add(s.filter(single_pred()).to_multiset()) =~= s.to_multiset());
    }
}

/// Rearranging devices that are each heard once keeps them each heard once.
pub proof fn lemma_rearranging_keeps_unique_keys(s: Seq<DeviceView>, t: Seq<DeviceView>)
    requires
        unique_keys(s),
        t.to_multiset() == s.to_multiset(),
    ensures
        unique_keys(t),
{
    broadcast use vstd::seq_lib::group_to_multiset_ensures;
    assert(s.no_duplicates()) by {
        assert forall|i: int, j: int| 0 <= i < s.len() && 0 <= j < s.len() && i != j implies s[i] != s[j] by {
            if i < j {
                assert(!same_key(s[i], s[j]));
            } else {
                assert(!same_key(s[j], s[i]));
            }
        }
    }
    s.lemma_multiset_has_no_duplicates();
    t.lemma_multiset_has_no_duplicates_conv();
    assert forall|i: int, j: int| 0 <= i < j < t.len() implies !same_key(#[trigger] t[i], #[trigger] t[j]) by {
        if same_key(t[i], t[j]) {
            assert(t.contains(t[i]));
            assert(t.contains(t[j]));
            assert(s.to_multiset().count(t[i]) > 0);
            assert(s.to_multiset().count(t[j]) > 0);
            let p = choose|p: int| 0 <= p < s.len() && s[p] == t[i];
            let q = choose|q: int| 0 <= q < s.len() && s[q] == t[j];
            assert(t[i] != t[j]);
            if p < q {
                assert(same_key(s[p], s[q]));
            } else {
                assert(same_key(s[q], s[p]));
            }
        }
    }
}

/// The listing holds the devices collected, each as often.
pub proof fn lemma_listing_permutes(s: Seq<DeviceView>)
    ensures
        listing(s).to_multiset() == s.to_multiset(),
{
    let g = s.filter(group_pred());
    let h = s.filter(single_pred());
    lemma_sort_by_name_permutes(g);
    lemma_sort_by_name_permutes(h);
    lemma_multiset_commutative(sort_by_name(g), sort_by_name(h));
    lemma_split_by_kind_permutes(s);
}

/// The listing names each device once when the devices collected do.
pub proof fn lemma_listing_unique(s: Seq<DeviceView>)
    requires
        unique_keys(s),
    ensures
        unique_keys(listing(s)),
{
    lemma_listing_permutes(s);
    lemma_rearranging_keeps_unique_keys(s, listing(s));
}

proof fn lemma_sorted_part_kind(s: Seq<DeviceView>, pred: spec_fn(DeviceView) -> bool, i: int)
    requires
        0 <= i < sort_by_name(s.filter(pred)).len(),
    ensures
        pred(sort_by_name(s.filter(pred))[i]),
{
    broadcast use vstd::seq_lib::group_to_multiset_ensures;
    let f = s.filter(pred);
    let u = sort_by_name(f);
    lemma_sort_by_name_permutes(f);
    assert(u.contains(u[i]));
    assert(f.to_multiset().count(u[i]) > 0);
    let k = choose|k: int| 0 <= k < f.len() && f[k] == u[i];
    s.lemma_filter_pred(pred, k);
}

/// Speaker groups come first: no single device is listed before a group.
pub proof fn lemma_listing_groups_first(s: Seq<DeviceView>)
    ensures
        forall|i: int, j: int| 0 <= i < j < listing(s).len() && (#[trigger] listing(s)[j]).is_group ==> (#[trigger] listing(s)[i]).is_group,
{
    let g = sort_by_name(s.filter(group_pred()));
    let h = sort_by_name(s.filter(single_pred()));
    let l = listing(s);
    assert forall|i: int, j: int| 0 <= i < j < l.len() && (#[trigger] l[j]).is_group implies (#[trigger] l[i]).is_group by {
        if j >= g.len() {
            assert(l[j] == h[j - g.len()]);
            lemma_sorted_part_kind(s, single_pred(), j - g.len());
        }
        assert(l[i] == g[i]);
        lemma_sorted_part_kind(s, group_pred(), i);
    }
}

/// Within each kind, the listing is sorted by name.
pub proof fn lemma_listing_sorted_within_kind(s: Seq<DeviceView>)
    ensures
        forall|i: int, j: int| 0 <= i < j < listing(s).len() && (#[trigger] listing(s)[i]).is_group == (#[trigger] listing(s)[j]).is_group
            ==> !lex_less(listing(s)[j].name, listing(s)[i].name),
{
    let g = sort_by_name(s.filter(group_pred()));
    let h = sort_by_name(s.filter(single_pred()));
    let l = listing(s);
    lemma_sort_by_name_sorted(s.filter(group_pred()));
    lemma_sort_by_name_sorted(s.filter(single_pred()));
    assert forall|i: int, j: int| 0 <= i < j < l.len() && (#[trigger] l[i]).is_group == (#[trigger] l[j]).is_group
        implies !lex_less(l[j].name, l[i].name) by {
        if j < g.len() {
            assert(l[i] == g[i] && l[j] == g[j]);
        } else if i >= g.len() {
            assert(l[i] == h[i - g.len()] && l[j] == h[j - g.len()]);
        } else {
            assert(l[i] == g[i] && l[j] == h[j - g.len()]);
            lemma_sorted_part_kind(s, group_pred(), i);
            lemma_sorted_part_kind(s, single_pred(), j - g.len());
        }
    }
}

/// What a response did to the discovery.
#[derive(Clone, Copy, Debug, PartialEq, Eq, Structural)]
pub enum Step {
    /// Keep listening.
    Continue,
    /// A device answered a second time: every device has been heard.
    Stop,
}

/// The devices heard so far, each once.
pub struct Discovery {
    devices: Vec<ChromecastDevice>,
}

impl View for Discovery {
    type V = Seq<DeviceView>;

    closed spec fn view(&self) -> Seq<DeviceView> {
        devices_view(self.devices@)
    }
}

impl Discovery {
    #[verifier::type_invariant]
    spec fn inv(self) -> bool {
        unique_keys(devices_view(self.devices@))
    }

    /// A discovery that has heard nothing.
    pub fn new() -> (r: Discovery)
        ensures
            r@ == Seq::<DeviceView>::empty(),
    {
        let r = Discovery { devices: Vec::new() };
        assert(devices_view(r.devices@) =~= Seq::<DeviceView>::empty());
        r
    }

    /// Ends the discovery: the devices heard, speaker groups first, then single
    /// devices, each kind sorted by name; each device once.
    pub fn finish(self) -> (listed: Vec<ChromecastDevice>)
        ensures
            devices_view(listed@) == listing(self@),
            unique_keys(devices_view(listed@)),
    {
        proof { use_type_invariant(&self); }
        let ghost heard = self@;
        let Discovery { devices } = self;
        let (groups, singles) = split_by_kind(devices);
        let mut listed = sort_devices(groups);
        let mut rest = sort_devices(singles);
        let ghost g = listed@;
        let ghost h = rest@;
        listed.append(&mut rest);
        proof {
            assert(devices_view(listed@) =~= devices_view(g) + devices_view(h));
            lemma_listing_unique(heard);
        }
        listed
    }

    fn find(&self, d: &ChromecastDevice) -> (found: bool)
        ensures
            found == has_key(self@, d@),
    {
        let n = self.devices.len();
        for i in 0..n
            invariant
                n == self.devices@.len(),
                forall|k: int| 0 <= k < i ==> !same_key(#[trigger] devices_view(self.devices@)[k], d@),
        {
            let other = &self.devices[i];
            if other.ip == d.ip && other.name == d.name {
                assert(same_key(devices_view(self.devices@)[i as int], d@));
                return true;
            }
        }
        false
    }

    /// Takes in one response. A response without an address record is passed
    /// over. A device heard before ends the discovery and is not added again;
    /// any other device is added after those heard before.
    pub fn handle_response(&mut self, records: &Vec<DnsRecord>) -> (step: Step)
        ensures
            unique_keys(final(self)@),
            match response_device(records@) {
                None => step == Step::Continue && final(self)@ == old(self)@,
                Some(d) => if has_key(old(self)@, d) {
                    step == Step::Stop && final(self)@ == old(self)@
                } else {
                    step == Step::Continue && final(self)@ == old(self)@.push(d)
                },
            },
    {
        proof { use_type_invariant(&*self); }
        match device_from_response(records) {
            None => Step::Continue,
            Some(d) => {
                if self.find(&d) {
                    Step::Stop
                } else {
                    let ghost before = devices_view(self.devices@);
                    proof {
                        assert(devices_view(self.devices@.push(d)) =~= before.push(d@));
                        assert forall|i: int, j: int| 0 <= i < j < before.push(d@).len() implies
                            !same_key(#[trigger] before.push(d@)[i], #[trigger] before.push(d@)[j]) by {
                            if j == before.len() {
                                assert(before[i] == before.push(d@)[i]);
                            }
                        }
                    }
                    let mut devices: Vec<ChromecastDevice> = Vec::new();
                    std::mem::swap(&mut devices, &mut self.devices);
                    devices.push(d);
                    self.devices = devices;
                    Step::Continue
                }
            },
        }
    }
}

} // verus!
