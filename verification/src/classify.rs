//! Deciding which discovered peripherals are lighthouses, from their
//! advertisement data alone: the advertised local name must start with `LHB`
//! and the manufacturer data must hold the lighthouse manufacturer id.

use crate::device::{device_views, spec_dedup, unique_addresses, DeviceInfo, DeviceView};
use vstd::prelude::*;

verus! {

broadcast use vstd::string::axiom_spec_iter, vstd::string::next_postcondition;

/// The manufacturer id that lighthouse base stations advertise.
pub const LIGHTHOUSE_MANUFACTURER_ID: u16 = 1373;

/// What one scan saw of one peripheral: its address, its advertised local
/// name if any, and the manufacturer ids from its advertisement data. A
/// value of this type is only as good as the scan that produced it.
pub struct Advertisement {
    pub address: String,
    pub local_name: Option<String>,
    pub manufacturer_ids: Vec<u16>,
}

/// Mathematical model of an `Advertisement`.
#[verifier::ext_equal]
pub ghost struct AdvertisementView {
    pub address: Seq<char>,
    pub local_name: Option<Seq<char>>,
    pub manufacturer_ids: Seq<u16>,
}

impl View for Advertisement {
    type V = AdvertisementView;

    open spec fn view(&self) -> AdvertisementView {
        AdvertisementView {
            address: self.address@,
            local_name: match self.local_name {
                Some(n) => Some(n@),
                None => None,
            },
            manufacturer_ids: self.manufacturer_ids@,
        }
    }
}

/// The models of a sequence of advertisements.
pub open spec fn ad_views(s: Seq<Advertisement>) -> Seq<AdvertisementView> {
    s.map_values(|a: Advertisement| a@)
}

/// The advertised name, with the sentinel for a missing one.
pub open spec fn spec_name_or_unknown(ad: AdvertisementView) -> Seq<char> {
    match ad.local_name {
        Some(n) => n,
        None => "Unknown"@,
    }
}

/// Whether a name starts with the lighthouse prefix `LHB`.
pub open spec fn spec_has_lhb_prefix(s: Seq<char>) -> bool {
    s.len() >= 3 && s[0] == 'L' && s[1] == 'H' && s[2] == 'B'
}

/// A peripheral is a lighthouse iff both: its advertised name (the sentinel
/// when missing, which never matches) starts with `LHB`, and its
/// manufacturer data holds id 1373.
pub open spec fn spec_classify(ad: AdvertisementView) -> bool {
    spec_has_lhb_prefix(spec_name_or_unknown(ad)) && ad.manufacturer_ids.contains(
        LIGHTHOUSE_MANUFACTURER_ID,
    )
}

/// Whether the string starts with `LHB`.
fn str_has_lhb_prefix(s: &str) -> (b: bool)
    ensures
        b == spec_has_lhb_prefix(s@),
{
    let mut it = s.chars();
    let c0 = it.next();
    let c1 = it.next();
    let c2 = it.next();
    match (c0, c1, c2) {
        (Some(a), Some(b2), Some(c)) => a == 'L' && b2 == 'H' && c == 'B',
        _ => false,
    }
}

/// Whether `ids` holds `id`.
fn contains_id(ids: &Vec<u16>, id: u16) -> (b: bool)
    ensures
        b == ids@.contains(id),
{
    let mut i: usize = 0;
    while i < ids.len()
        invariant
            i <= ids.len(),
            forall|k: int| 0 <= k < i ==> ids@[k] != id,
        decreases ids.len() - i,
    {
        if ids[i] == id {
            assert(ids@[i as int] == id);
            return true;
        }
        i += 1;
    }
    assert(!ids@.contains(id)) by {
        if ids@.contains(id) {
            let j = choose|j: int| 0 <= j < ids@.len() && ids@[j] == id;
            assert(ids@[j] != id);
        }
    }
    false
}

/// Decide whether a peripheral is a lighthouse, from its advertisement data
/// alone: a pure predicate, no connection is made.
pub fn classify(ad: &Advertisement) -> (b: bool)
    ensures
        b == spec_classify(ad@),
{
    let name_matches = match &ad.local_name {
        Some(n) => str_has_lhb_prefix(n.as_str()),
        None => {
            proof {
                reveal_strlit("Unknown");
                assert(!spec_has_lhb_prefix("Unknown"@));
            }
            false
        },
    };
    if !name_matches {
        return false;
    }
    contains_id(&ad.manufacturer_ids, LIGHTHOUSE_MANUFACTURER_ID)
}

/// The record persisted for a classified peripheral.
pub open spec fn record_of(ad: AdvertisementView) -> DeviceView {
    DeviceView { name: spec_name_or_unknown(ad), address: ad.address }
}

/// The classified members of a scan, as records, before deduplication.
pub open spec fn spec_classified_raw(ads: Seq<AdvertisementView>) -> Seq<DeviceView> {
    ads.filter(|a: AdvertisementView| spec_classify(a)).map_values(
        (|a: AdvertisementView| record_of(a)),
    )
}

/// What a fresh scan contributes to the cache: the classified members of the
/// scan, deduplicated by address.
pub open spec fn spec_classified(ads: Seq<AdvertisementView>) -> Seq<DeviceView> {
    spec_dedup(spec_classified_raw(ads))
}

/// One step of classification: how the raw classified records grow when a
/// scan grows by one advertisement.
proof fn lemma_classified_raw_step(ads: Seq<AdvertisementView>)
    requires
        ads.len() > 0,
    ensures
        spec_classified_raw(ads) == if spec_classify(ads.last()) {
            spec_classified_raw(ads.drop_last()).push(record_of(ads.last()))
        } else {
            spec_classified_raw(ads.drop_last())
        },
{
    reveal(Seq::<_>::filter);
    let pred = |a: AdvertisementView| spec_classify(a);
    let f = ads.filter(pred);
    let fp = ads.drop_last().filter(pred);
    if pred(ads.last()) {
        assert(f == fp.push(ads.last()));
        assert(f.map_values(|a: AdvertisementView| record_of(a)) =~= fp.map_values(
            |a: AdvertisementView| record_of(a),
        ).push(record_of(ads.last())));
    } else {
        assert(f == fp);
    }
}

/// The sentinel name for a peripheral that advertised none.
fn unknown_name() -> (r: String)
    ensures
        r@ == "Unknown"@,
{
    "Unknown".to_owned()
}

/// The record persisted for one classified peripheral.
fn make_record(ad: &Advertisement) -> (r: DeviceInfo)
    ensures
        r@ == record_of(ad@),
{
    let name = match &ad.local_name {
        Some(n) => n.clone(),
        None => unknown_name(),
    };
    DeviceInfo { name, address: ad.address.clone() }
}

/// Filter a scan down to its lighthouses and turn them into cache records,
/// deduplicated by address.
pub fn classify_scan(ads: &Vec<Advertisement>) -> (r: Vec<DeviceInfo>)
    ensures
        device_views(r@) == spec_classified(ad_views(ads@)),
        unique_addresses(device_views(r@)),
{
    let ghost all = ad_views(ads@);
    let mut matched: Vec<DeviceInfo> = Vec::new();
    let mut i: usize = 0;
    while i < ads.len()
        invariant
            i <= ads.len(),
            all == ad_views(ads@),
            all.len() == ads.len(),
            device_views(matched@) == spec_classified_raw(all.take(i as int)),
        decreases ads.len() - i,
    {
        let ghost pre = all.take(i as int);
        proof {
            assert(all.take(i as int + 1).drop_last() =~= pre);
            assert(all.take(i as int + 1).last() == all[i as int]);
            lemma_classified_raw_step(all.take(i as int + 1));
        }
        if classify(&ads[i]) {
            let rec = make_record(&ads[i]);
            matched.push(rec);
            proof {
                assert(spec_classified_raw(all.take(i as int + 1)) == spec_classified_raw(
                    pre,
                ).push(record_of(all[i as int])));
                assert(device_views(matched@) =~= spec_classified_raw(all.take(i as int + 1)));
            }
        } else {
            proof {
                assert(device_views(matched@) =~= spec_classified_raw(all.take(i as int + 1)));
            }
        }
        i += 1;
    }
    proof {
        assert(all.take(all.len() as int) =~= all);
    }
    crate::device::dedup_by_address(&matched)
}

} // verus!
