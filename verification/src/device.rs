//! The device record that the cache persists, and address-based reasoning
//! about lists of records: membership, uniqueness, deduplication.

use vstd::prelude::*;

verus! {

/// A known lighthouse. `address` is the stable unique identifier; `name` is
/// the advertised local name (a sentinel when none was advertised).
/// Equality and cache membership are decided by address alone.
#[derive(Debug, PartialEq)]
pub struct DeviceInfo {
    pub name: String,
    pub address: String,
}

/// Mathematical model of a `DeviceInfo`: both fields as character sequences.
#[verifier::ext_equal]
pub ghost struct DeviceView {
    pub name: Seq<char>,
    pub address: Seq<char>,
}

impl View for DeviceInfo {
    type V = DeviceView;

    open spec fn view(&self) -> DeviceView {
        DeviceView { name: self.name@, address: self.address@ }
    }
}

impl Clone for DeviceInfo {
    fn clone(&self) -> (r: Self)
        ensures
            r@ == self@,
    {
        DeviceInfo { name: self.name.clone(), address: self.address.clone() }
    }
}

/// The models of a sequence of records.
pub open spec fn device_views(s: Seq<DeviceInfo>) -> Seq<DeviceView> {
    s.map_values(|d: DeviceInfo| d@)
}

/// Whether some record in `s` has address `a`.
pub open spec fn has_address(s: Seq<DeviceView>, a: Seq<char>) -> bool {
    exists|i: int| 0 <= i < s.len() && s[i].address == a
}

/// No two records in `s` share an address.
pub open spec fn unique_addresses(s: Seq<DeviceView>) -> bool {
    forall|i: int, j: int| 0 <= i < j < s.len() ==> s[i].address != s[j].address
}

/// Keep-first deduplication by address: a record stays iff no earlier record
/// has its address.
pub open spec fn spec_dedup(s: Seq<DeviceView>) -> Seq<DeviceView>
    decreases s.len(),
{
    if s.len() == 0 {
        Seq::empty()
    } else if has_address(s.drop_last(), s.last().address) {
        spec_dedup(s.drop_last())
    } else {
        spec_dedup(s.drop_last()).push(s.last())
    }
}

/// Deduplication keeps exactly the addresses of the input.
pub proof fn lemma_dedup_same_addresses(s: Seq<DeviceView>, a: Seq<char>)
    ensures
        has_address(spec_dedup(s), a) == has_address(s, a),
    decreases s.len(),
{
    if s.len() > 0 {
        let p = s.drop_last();
        let x = s.last();
        lemma_dedup_same_addresses(p, a);
        if has_address(s, a) {
            let i = choose|i: int| 0 <= i < s.len() && s[i].address == a;
            if i < s.len() - 1 {
                assert(p[i].address == a);
                assert(has_address(p, a));
                let j = choose|j: int| 0 <= j < spec_dedup(p).len() && spec_dedup(p)[j].address
                    == a;
                assert(spec_dedup(s)[j].address == a);
            } else {
                assert(x.address == a);
                if has_address(p, x.address) {
                    let j = choose|j: int| 0 <= j < spec_dedup(p).len() && spec_dedup(p)[j].address
                        == a;
                    assert(spec_dedup(s)[j].address == a);
                } else {
                    assert(spec_dedup(s).last().address == a);
                }
            }
            assert(has_address(spec_dedup(s), a));
        }
        if has_address(spec_dedup(s), a) {
            let i = choose|i: int| 0 <= i < spec_dedup(s).len() && spec_dedup(s)[i].address == a;
            if has_address(p, x.address) {
                assert(spec_dedup(p)[i].address == a);
                let j = choose|j: int| 0 <= j < p.len() && p[j].address == a;
                assert(s[j].address == a);
            } else {
                if i < spec_dedup(s).len() - 1 {
                    assert(spec_dedup(p)[i].address == a);
                    let j = choose|j: int| 0 <= j < p.len() && p[j].address == a;
                    assert(s[j].address == a);
                } else {
                    assert(s[s.len() - 1].address == a);
                }
            }
            assert(has_address(s, a));
        }
    }
}

/// The deduplicated list has no repeated address.
pub proof fn lemma_dedup_unique(s: Seq<DeviceView>)
    ensures
        unique_addresses(spec_dedup(s)),
    decreases s.len(),
{
    if s.len() > 0 {
        lemma_dedup_unique(s.drop_last());
        if !has_address(s.drop_last(), s.last().address) {
            let p = spec_dedup(s.drop_last());
            lemma_dedup_same_addresses(s.drop_last(), s.last().address);
            assert forall|i: int, j: int| 0 <= i < j < p.push(s.last()).len() implies p.push(
                s.last(),
            )[i].address != p.push(s.last())[j].address by {
                if j < p.len() {
                } else {
                    assert(p[i].address != s.last().address);
                }
            }
        }
    }
}

/// A copy of a record list, record by record.
pub fn clone_devices(devs: &Vec<DeviceInfo>) -> (r: Vec<DeviceInfo>)
    ensures
        device_views(r@) == device_views(devs@),
{
    let mut out: Vec<DeviceInfo> = Vec::new();
    let mut i: usize = 0;
    while i < devs.len()
        invariant
            i <= devs.len(),
            device_views(out@) == device_views(devs@).take(i as int),
        decreases devs.len() - i,
    {
        let ghost pre = device_views(out@);
        out.push(devs[i].clone());
        assert(device_views(out@) =~= pre.push(devs@[i as int]@));
        assert(pre.push(devs@[i as int]@) =~= device_views(devs@).take(i as int + 1));
        i += 1;
    }
    assert(device_views(devs@).take(devs@.len() as int) =~= device_views(devs@));
    out
}

/// Whether `devs` contains a record with the given address.
pub fn contains_address(devs: &Vec<DeviceInfo>, addr: &String) -> (b: bool)
    ensures
        b == has_address(device_views(devs@), addr@),
{
    let mut i: usize = 0;
    while i < devs.len()
        invariant
            i <= devs.len(),
            forall|k: int| 0 <= k < i ==> device_views(devs@)[k].address != addr@,
        decreases devs.len() - i,
    {
        if devs[i].address == *addr {
            assert(device_views(devs@)[i as int].address == addr@);
            return true;
        }
        i += 1;
    }
    false
}

/// Remove every record whose address already occurred earlier in the list.
pub fn dedup_by_address(devs: &Vec<DeviceInfo>) -> (r: Vec<DeviceInfo>)
    ensures
        device_views(r@) == spec_dedup(device_views(devs@)),
        unique_addresses(device_views(r@)),
{
    let ghost all = device_views(devs@);
    let mut out: Vec<DeviceInfo> = Vec::new();
    let mut i: usize = 0;
    while i < devs.len()
        invariant
            i <= devs.len(),
            device_views(out@) == spec_dedup(all.take(i as int)),
            all == device_views(devs@),
        decreases devs.len() - i,
    {
        let ghost pre = all.take(i as int);
        assert(all.take(i as int + 1).drop_last() =~= pre);
        assert(all.take(i as int + 1).last() == devs@[i as int]@);
        proof {
            lemma_dedup_same_addresses(pre, devs@[i as int]@.address);
        }
        if !contains_address(&out, &devs[i].address) {
            assert(!has_address(device_views(out@), devs@[i as int]@.address));
            out.push(devs[i].clone());
            assert(device_views(out@) =~= spec_dedup(pre).push(devs@[i as int]@));
        } else {
            assert(device_views(out@) =~= spec_dedup(all.take(i as int + 1)));
        }
        i += 1;
    }
    assert(all.take(devs@.len() as int) =~= all);
    proof {
        lemma_dedup_unique(all);
    }
    out
}

} // verus!
