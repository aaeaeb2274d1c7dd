//! Capacity reporter: overall and per-zone fill percentages, the occupied
//! slot listing and the empty-slot count, all derived read-only from the
//! slot store.

use vstd::prelude::*;
use crate::codec::lemma_topology_products;
use crate::ledger::{Warehouse, Record, quantities, sum_quantities, lemma_occupied_le_total};
use crate::sums::lemma_sum_take_le;

verus! {

/// Fill percentages carry one decimal place; with floating point out of the
/// core they are reported in tenths of a percent, rounded to the nearest
/// tenth (halves up): `(used * 1000 + capacity / 2) / capacity`.
pub open spec fn spec_percent_tenths(used: int, capacity: int) -> int {
    (used * 1000 + capacity / 2) / capacity
}

/// Fill percentage in tenths of a percent, rounded to the nearest tenth
/// (halves up). A value of 179 reads as 17.9%.
pub fn percent_tenths(used: u32, capacity: u32) -> (t: u64)
    requires
        1 <= capacity,
    ensures
        t == spec_percent_tenths(used as int, capacity as int),
{
    ((used as u64) * 1000 + (capacity as u64) / 2) / (capacity as u64)
}

/// Stock held in zone `z`: the sum of the quantities of the records whose
/// address lies in that zone.
pub open spec fn zone_used(s: Seq<Record>, z: u32) -> int
    decreases s.len(),
{
    if s.len() == 0 {
        0
    } else {
        zone_used(s.drop_last(), z) + if s.last().address.zone == z {
            s.last().quantity as int
        } else {
            0
        }
    }
}

/// A zone's stock is nonnegative and never exceeds the whole store's stock.
pub proof fn lemma_zone_used_le_sum(s: Seq<Record>, z: u32)
    ensures
        0 <= zone_used(s, z) <= sum_quantities(s),
    decreases s.len(),
{
    if s.len() > 0 {
        lemma_zone_used_le_sum(s.drop_last(), z);
        assert(quantities(s).drop_last() =~= quantities(s.drop_last()));
    }
}

/// Fill of one zone, for rendering: the zone offset, its stock, its
/// theoretical capacity, and the fill in tenths of a percent.
pub struct ZoneFill {
    pub zone: u32,
    pub used_units: u32,
    pub capacity_units: u32,
    pub fill_tenths: u64,
}

/// A full capacity report. The occupied-slot listing is read through
/// [`Warehouse::occupied`]; everything else stands here.
pub struct WarehouseReport {
    pub overall_fill_tenths: u64,
    pub zones: Vec<ZoneFill>,
    pub occupied_count: usize,
    pub empty_slots: u32,
}

impl Warehouse {
    /// Overall fill: used capacity against the configured total, in tenths
    /// of a percent.
    pub fn overall_fill_tenths(&self) -> (t: u64)
        requires
            self.wf(),
        ensures
            t == spec_percent_tenths(
                self.used_capacity as int,
                self.topology.total_capacity_units as int,
            ),
    {
        percent_tenths(self.used_capacity, self.topology.total_capacity_units)
    }

    /// Stock held in zone `zone`, by one scan over the occupied slots.
    pub fn zone_used_units(&self, zone: u32) -> (u: u32)
        requires
            self.wf(),
        ensures
            u == zone_used(self.records@, zone),
    {
        let s = Ghost(self.records@);
        let n = self.records.len();
        let mut acc: u32 = 0;
        let mut i: usize = 0;
        proof {
            assert(s@.take(0) =~= Seq::<Record>::empty());
        }
        while i < n
            invariant
                i <= n,
                n == s@.len(),
                s@ == self.records@,
                self.wf(),
                acc == zone_used(s@.take(i as int), zone),
            decreases n - i,
        {
            proof {
                assert(s@.take(i + 1).drop_last() =~= s@.take(i as int));
                assert(s@.take(i + 1).last() == s@[i as int]);
                lemma_zone_used_le_sum(s@.take(i + 1), zone);
                assert(quantities(s@).take(i + 1) =~= quantities(s@.take(i + 1)));
                lemma_sum_take_le(quantities(s@), i + 1);
            }
            if self.records[i].address.zone == zone {
                acc = acc + self.records[i].quantity;
            }
            i += 1;
        }
        proof {
            assert(s@.take(n as int) =~= s@);
        }
        acc
    }

    /// The occupied-slot listing: every current record, each exactly once.
    pub fn occupied(&self) -> (r: &Vec<Record>)
        ensures
            r@ == self.records@,
    {
        &self.records
    }

    pub fn occupied_count(&self) -> (n: usize)
        ensures
            n == self.records@.len(),
    {
        self.records.len()
    }

    /// Slots currently holding nothing: the grid size minus the occupied
    /// count.
    pub fn empty_slots(&self) -> (n: u32)
        requires
            self.wf(),
        ensures
            n == self.topology.spec_total_slots() - self.records@.len(),
    {
        proof {
            lemma_occupied_le_total(*self);
        }
        let total = self.topology.total_slots();
        total - (self.records.len() as u32)
    }

    /// The full report: overall fill, every zone's fill (zones are always
    /// enumerated in full, even when empty), the occupied count and the
    /// empty-slot count.
    pub fn info(&self) -> (rep: WarehouseReport)
        requires
            self.wf(),
        ensures
            rep.overall_fill_tenths == spec_percent_tenths(
                self.used_capacity as int,
                self.topology.total_capacity_units as int,
            ),
            rep.zones@.len() == self.topology.zone_count,
            forall|z: int|
                0 <= z < self.topology.zone_count ==> {
                    &&& (#[trigger] rep.zones@[z]).zone == z
                    &&& rep.zones@[z].used_units == zone_used(self.records@, z as u32)
                    &&& rep.zones@[z].capacity_units == self.topology.spec_zone_capacity()
                    &&& rep.zones@[z].fill_tenths == spec_percent_tenths(
                        zone_used(self.records@, z as u32),
                        self.topology.spec_zone_capacity(),
                    )
                },
            rep.occupied_count == self.records@.len(),
            rep.empty_slots == self.topology.spec_total_slots() - self.records@.len(),
    {
        proof {
            lemma_topology_products(self.topology);
        }
        let zcap = self.topology.zone_capacity();
        let zc = self.topology.zone_count;
        let mut zones: Vec<ZoneFill> = Vec::new();
        let mut z: u32 = 0;
        while z < zc
            invariant
                z <= zc,
                zc == self.topology.zone_count,
                self.wf(),
                1 <= zcap <= 80190,
                zcap == self.topology.spec_zone_capacity(),
                zones@.len() == z,
                forall|k: int|
                    0 <= k < z ==> {
                        &&& (#[trigger] zones@[k]).zone == k
                        &&& zones@[k].used_units == zone_used(self.records@, k as u32)
                        &&& zones@[k].capacity_units == zcap
                        &&& zones@[k].fill_tenths == spec_percent_tenths(
                            zone_used(self.records@, k as u32),
                            zcap as int,
                        )
                    },
            decreases zc - z,
        {
            let u = self.zone_used_units(z);
            let ft = percent_tenths(u, zcap);
            zones.push(ZoneFill { zone: z, used_units: u, capacity_units: zcap, fill_tenths: ft });
            z += 1;
        }
        let occupied_count = self.records.len();
        let empty = self.empty_slots();
        let overall = self.overall_fill_tenths();
        WarehouseReport {
            overall_fill_tenths: overall,
            zones,
            occupied_count,
            empty_slots: empty,
        }
    }
}

} // verus!
