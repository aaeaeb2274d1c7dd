//! Slot store and stock ledger: the warehouse aggregate state, the mutation
//! operations with their business rules, and the invariants that hold after
//! every operation.

use vstd::prelude::*;
use vstd::set_lib::{lemma_int_range, lemma_len_subset, set_int_range};
use crate::codec::{Address, Topology, spec_decode, lemma_topology_products, SLOT_CAPACITY};
use crate::sums::{sum_ints, lemma_sum_push, lemma_sum_update, lemma_sum_upper, lemma_sum_lower};

verus! {

/// Occupancy record of one slot: exists only while the slot holds stock.
pub struct Record {
    /// The slot this record occupies (also the lookup key).
    pub address: Address,
    /// Product identity: exact string equality, no normalization.
    pub product: String,
    /// Stored units; always between 1 and `SLOT_CAPACITY`.
    pub quantity: u32,
}

/// Why a mutation was rejected. Every failure leaves the warehouse
/// byte-for-byte unchanged; the context fields carry what a caller needs to
/// render a message.
#[derive(Debug, PartialEq, Eq)]
pub enum StockError {
    /// The raw address token did not decode to a valid address.
    InvalidAddress,
    /// A single request for more than `SLOT_CAPACITY` units, rejected even
    /// into an empty slot.
    RequestExceedsSlotCapacity,
    /// The slot holds a different product; `occupant` is the one stored.
    ProductMismatch { occupant: String },
    /// Adding would push the slot beyond `SLOT_CAPACITY`; `current` is the
    /// quantity already stored.
    SlotWouldOverflow { current: u32 },
    /// Stock-out from a slot that holds nothing.
    EmptySlot,
    /// Stock-out of more units than the slot holds; `available` is the
    /// quantity actually stored.
    InsufficientStock { available: u32 },
}

/// The quantities of a record sequence, as mathematical integers.
pub open spec fn quantities(s: Seq<Record>) -> Seq<int> {
    s.map_values(|r: Record| r.quantity as int)
}

/// Total stock held by a record sequence.
pub open spec fn sum_quantities(s: Seq<Record>) -> int {
    sum_ints(quantities(s))
}

/// The warehouse aggregate state: the immutable topology, the occupancy
/// records (one per occupied slot), and a running counter caching the sum of
/// all stored quantities.
pub struct Warehouse {
    pub topology: Topology,
    pub records: Vec<Record>,
    pub used_capacity: u32,
}

impl Warehouse {
    /// Every record sits at a valid address and holds between 1 and
    /// `SLOT_CAPACITY` units.
    pub open spec fn records_ok(self) -> bool {
        forall|i: int|
            0 <= i < self.records@.len() ==> {
                &&& (#[trigger] self.records@[i]).address.valid(self.topology)
                &&& 1 <= self.records@[i].quantity <= SLOT_CAPACITY
            }
    }

    /// At most one record per slot.
    pub open spec fn addrs_distinct(self) -> bool {
        forall|i: int, j: int|
            0 <= i < j < self.records@.len()
                ==> (#[trigger] self.records@[i]).address != (#[trigger] self.records@[j]).address
    }

    /// The invariant that holds after every operation: a well-formed
    /// topology, valid records with in-range quantities, one product per
    /// slot, and a used-capacity counter equal to the sum of all stored
    /// quantities.
    pub open spec fn wf(self) -> bool {
        &&& self.topology.wf()
        &&& self.records_ok()
        &&& self.addrs_distinct()
        &&& self.used_capacity == sum_quantities(self.records@)
    }

    /// Some record occupies slot `a`.
    pub open spec fn has_addr(self, a: Address) -> bool {
        exists|i: int| 0 <= i < self.records@.len() && (#[trigger] self.records@[i]).address == a
    }

    /// Index of the record at `a` (unique under `addrs_distinct`).
    pub open spec fn index_of(self, a: Address) -> int {
        choose|i: int| 0 <= i < self.records@.len() && (#[trigger] self.records@[i]).address == a
    }

    /// The occupancy view of slot `a`: the stored product (as characters)
    /// and quantity, or `None` for an empty slot. This is the mathematical
    /// model the mutation contracts are stated over.
    pub open spec fn slot(self, a: Address) -> Option<(Seq<char>, u32)> {
        if self.has_addr(a) {
            let i = self.index_of(a);
            Some((self.records@[i].product@, self.records@[i].quantity))
        } else {
            None
        }
    }
}

/// Under distinct addresses, the slot view at a record's own address is
/// exactly that record's product and quantity.
pub proof fn lemma_slot_at(w: Warehouse, k: int)
    requires
        w.addrs_distinct(),
        0 <= k < w.records@.len(),
    ensures
        w.slot(w.records@[k].address) == Some((w.records@[k].product@, w.records@[k].quantity)),
{
    let a = w.records@[k].address;
    assert(w.has_addr(a));
    let j = w.index_of(a);
    assert(0 <= j < w.records@.len() && w.records@[j].address == a);
    if j != k {
        if j < k {
            assert(w.records@[j].address != w.records@[k].address);
        } else {
            assert(w.records@[k].address != w.records@[j].address);
        }
    }
}

/// Linear index of a valid address in the slot grid, zone-major.
pub open spec fn addr_index(a: Address, t: Topology) -> int {
    ((a.zone * t.shelves_per_zone + (a.shelf - 1)) * t.sections_per_shelf + (a.section - 1))
        * t.slots_per_section + (a.slot - 1)
}

pub proof fn lemma_addr_index_range(a: Address, t: Topology)
    requires
        t.wf(),
        a.valid(t),
    ensures
        0 <= addr_index(a, t) < t.spec_total_slots(),
{
    assert(0 <= ((a.zone * t.shelves_per_zone + (a.shelf - 1)) * t.sections_per_shelf + (
    a.section - 1)) * t.slots_per_section + (a.slot - 1) < t.zone_count * t.shelves_per_zone
        * t.sections_per_shelf * t.slots_per_section) by (nonlinear_arith)
        requires
            a.zone < t.zone_count,
            1 <= a.shelf <= t.shelves_per_zone,
            1 <= a.section <= t.sections_per_shelf,
            1 <= a.slot <= t.slots_per_section,
            t.shelves_per_zone >= 1,
            t.sections_per_shelf >= 1,
            t.slots_per_section >= 1,
    ;
}

/// Mixed-radix digit uniqueness: one place value.
proof fn lemma_radix_digit(x1: int, r1: int, x2: int, r2: int, base: int)
    requires
        0 <= r1 < base,
        0 <= r2 < base,
        x1 * base + r1 == x2 * base + r2,
    ensures
        x1 == x2,
        r1 == r2,
{
    assert(x1 == x2 && r1 == r2) by (nonlinear_arith)
        requires
            0 <= r1 < base,
            0 <= r2 < base,
            x1 * base + r1 == x2 * base + r2,
    ;
}

pub proof fn lemma_addr_index_injective(a: Address, b: Address, t: Topology)
    requires
        t.wf(),
        a.valid(t),
        b.valid(t),
        addr_index(a, t) == addr_index(b, t),
    ensures
        a == b,
{
    let ia = (a.zone * t.shelves_per_zone + (a.shelf - 1)) * t.sections_per_shelf + (a.section
        - 1);
    let ib = (b.zone * t.shelves_per_zone + (b.shelf - 1)) * t.sections_per_shelf + (b.section
        - 1);
    lemma_radix_digit(ia, a.slot - 1, ib, b.slot - 1, t.slots_per_section as int);
    lemma_radix_digit(
        a.zone * t.shelves_per_zone + (a.shelf - 1),
        a.section - 1,
        b.zone * t.shelves_per_zone + (b.shelf - 1),
        b.section - 1,
        t.sections_per_shelf as int,
    );
    lemma_radix_digit(
        a.zone as int,
        a.shelf - 1,
        b.zone as int,
        b.shelf - 1,
        t.shelves_per_zone as int,
    );
}

/// Distinct valid addresses are at most as many as the grid has slots.
pub proof fn lemma_occupied_le_total(w: Warehouse)
    requires
        w.topology.wf(),
        w.records_ok(),
        w.addrs_distinct(),
    ensures
        w.records@.len() <= w.topology.spec_total_slots(),
{
    let t = w.topology;
    let s = w.records@;
    let idxs = s.map_values(|r: Record| addr_index(r.address, t));
    assert forall|i: int, j: int| 0 <= i < idxs.len() && 0 <= j < idxs.len() && i != j implies
        idxs[i] != idxs[j] by {
        if idxs[i] == idxs[j] {
            lemma_addr_index_injective(s[i].address, s[j].address, t);
        }
    }
    assert(idxs.no_duplicates());
    idxs.unique_seq_to_set();
    let range = set_int_range(0, t.spec_total_slots());
    assert forall|x: int| idxs.to_set().contains(x) implies range.contains(x) by {
        let i = choose|i: int| 0 <= i < idxs.len() && idxs[i] == x;
        lemma_addr_index_range(s[i].address, t);
    }
    lemma_int_range(0, t.spec_total_slots());
    lemma_len_subset(idxs.to_set(), range);
}

/// The cached used-capacity counter of a well-formed warehouse is bounded by
/// the grid's theoretical capacity, and in particular fits comfortably in a
/// `u32`.
pub proof fn lemma_used_bound(w: Warehouse)
    requires
        w.wf(),
    ensures
        w.used_capacity <= SLOT_CAPACITY * w.topology.spec_total_slots(),
        w.used_capacity <= 2084940,
{
    lemma_sum_upper(quantities(w.records@), SLOT_CAPACITY as int);
    lemma_occupied_le_total(w);
    lemma_topology_products(w.topology);
    assert(SLOT_CAPACITY * w.records@.len() <= SLOT_CAPACITY * w.topology.spec_total_slots())
        by (nonlinear_arith)
        requires
            w.records@.len() <= w.topology.spec_total_slots(),
    ;
    assert(SLOT_CAPACITY * w.topology.spec_total_slots() <= 2084940) by (nonlinear_arith)
        requires
            0 < w.topology.spec_total_slots() <= 208494,
    ;
}

impl Warehouse {
    /// A fresh warehouse over the given topology: every slot empty, nothing
    /// used. The five integers are the zone count, shelves per zone,
    /// sections per shelf, slots per section, and the configured total
    /// capacity in stock units.
    pub fn new(z: u32, spz: u32, sections: u32, slots: u32, cap: u32) -> (w: Warehouse)
        requires
            1 <= z <= 26,
            1 <= spz <= 99,
            1 <= sections <= 9,
            1 <= slots <= 9,
            1 <= cap,
        ensures
            w.wf(),
            w.topology == (Topology {
                zone_count: z,
                shelves_per_zone: spz,
                sections_per_shelf: sections,
                slots_per_section: slots,
                total_capacity_units: cap,
            }),
            w.records@.len() == 0,
            w.used_capacity == 0,
            forall|a: Address| w.slot(a) is None,
    {
        Warehouse {
            topology: Topology {
                zone_count: z,
                shelves_per_zone: spz,
                sections_per_shelf: sections,
                slots_per_section: slots,
                total_capacity_units: cap,
            },
            records: Vec::new(),
            used_capacity: 0,
        }
    }

    /// Validity of a raw address token against this warehouse's topology.
    pub fn address_valid(&self, address: &str) -> (b: bool)
        ensures
            b == (spec_decode(self.topology, address@) is Some),
    {
        self.topology.decode(address).is_some()
    }

    /// First (and under `addrs_distinct`, only) record index for `a`.
    fn find_index(&self, a: Address) -> (r: Option<usize>)
        requires
            self.addrs_distinct(),
        ensures
            match r {
                Some(i) => {
                    &&& i < self.records@.len()
                    &&& self.records@[i as int].address == a
                    &&& self.has_addr(a)
                    &&& self.index_of(a) == i
                },
                None => !self.has_addr(a),
            },
    {
        let n = self.records.len();
        let mut i: usize = 0;
        while i < n
            invariant
                i <= n,
                n == self.records@.len(),
                self.addrs_distinct(),
                forall|j: int| 0 <= j < i ==> (#[trigger] self.records@[j]).address != a,
            decreases n - i,
        {
            if self.records[i].address == a {
                proof {
                    assert(self.has_addr(a));
                    let k = self.index_of(a);
                    assert(0 <= k < self.records@.len() && self.records@[k].address == a);
                    if k < i as int {
                        assert(self.records@[k].address != self.records@[i as int].address);
                    } else if k > i as int {
                        assert(self.records@[i as int].address != self.records@[k].address);
                    }
                }
                return Some(i);
            }
            i += 1;
        }
        None
    }

    /// Occupancy of a decoded address: the record stored there, or `None`
    /// for an empty slot. No validation happens here; the mutation rules
    /// live in `add` and `remove`.
    pub fn get(&self, a: Address) -> (r: Option<&Record>)
        requires
            self.wf(),
        ensures
            match r {
                Some(rec) => {
                    &&& rec.address == a
                    &&& self.slot(a) == Some((rec.product@, rec.quantity))
                },
                None => self.slot(a) is None,
            },
    {
        match self.find_index(a) {
            Some(i) => {
                proof {
                    lemma_slot_at(*self, i as int);
                }
                Some(&self.records[i])
            },
            None => None,
        }
    }

    /// Stock-in: place `quantity` units of `product` at the slot named by
    /// `address`. Preconditions are checked in order, each with its own
    /// failure; any failure leaves the warehouse unchanged. On success the
    /// slot holds the product with the combined quantity and the used
    /// counter grows by exactly `quantity`.
    pub fn add(&mut self, product: &str, quantity: u32, address: &str) -> (r: Result<
        (),
        StockError,
    >)
        requires
            old(self).wf(),
            1 <= quantity,
        ensures
            final(self).wf(),
            final(self).topology == old(self).topology,
            match r {
                Ok(()) => spec_decode(old(self).topology, address@) matches Some(a) && {
                    &&& quantity <= SLOT_CAPACITY
                    &&& match old(self).slot(a) {
                        None => final(self).slot(a) == Some((product@, quantity)),
                        Some((p, q)) => {
                            &&& p == product@
                            &&& q + quantity <= SLOT_CAPACITY
                            &&& final(self).slot(a) == Some((product@, (q + quantity) as u32))
                        },
                    }
                    &&& forall|b: Address| b != a ==> final(self).slot(b) == old(self).slot(b)
                    &&& final(self).used_capacity == old(self).used_capacity + quantity
                },
                Err(e) => *final(self) == *old(self) && match e {
                    StockError::InvalidAddress => spec_decode(old(self).topology, address@)
                        is None,
                    StockError::RequestExceedsSlotCapacity => {
                        &&& spec_decode(old(self).topology, address@) is Some
                        &&& quantity > SLOT_CAPACITY
                    },
                    StockError::ProductMismatch { occupant } => {
                        &&& quantity <= SLOT_CAPACITY
                        &&& spec_decode(old(self).topology, address@) matches Some(a)
                            && old(self).slot(a) matches Some((p, q)) && p != product@
                            && occupant@ == p
                    },
                    StockError::SlotWouldOverflow { current } => {
                        &&& quantity <= SLOT_CAPACITY
                        &&& spec_decode(old(self).topology, address@) matches Some(a)
                            && old(self).slot(a) matches Some((p, q)) && p == product@
                            && current == q && q + quantity > SLOT_CAPACITY
                    },
                    _ => false,
                },
            },
    {
        let a = match self.topology.decode(address) {
            Some(a) => a,
            None => {
                return Err(StockError::InvalidAddress);
            },
        };
        if quantity > SLOT_CAPACITY {
            return Err(StockError::RequestExceedsSlotCapacity);
        }
        proof {
            lemma_used_bound(*self);
        }
        match self.find_index(a) {
            Some(i) => {
                proof {
                    lemma_slot_at(*self, i as int);
                }
                let same_product = {
                    let p = product.to_owned();
                    p == self.records[i].product
                };
                if !same_product {
                    return Err(StockError::ProductMismatch {
                        occupant: self.records[i].product.clone(),
                    });
                }
                let cur = self.records[i].quantity;
                if cur + quantity > SLOT_CAPACITY {
                    return Err(StockError::SlotWouldOverflow { current: cur });
                }
                let ghost oldw = *self;
                self.records[i].quantity = cur + quantity;
                self.used_capacity = self.used_capacity + quantity;
                proof {
                    let neww = *self;
                    let nq = (cur + quantity) as int;
                    assert(quantities(neww.records@) =~= quantities(oldw.records@).update(
                        i as int,
                        nq,
                    ));
                    lemma_sum_update(quantities(oldw.records@), i as int, nq);
                    lemma_slot_at(neww, i as int);
                    assert forall|b: Address| b != a implies neww.slot(b) == oldw.slot(b) by {
                        lemma_slot_unchanged_update(oldw, neww, a, i as int, b);
                    }
                }
                Ok(())
            },
            None => {
                let ghost oldw = *self;
                self.records.push(
                    Record { address: a, product: product.to_owned(), quantity },
                );
                self.used_capacity = self.used_capacity + quantity;
                proof {
                    let neww = *self;
                    assert(quantities(neww.records@) =~= quantities(oldw.records@).push(
                        quantity as int,
                    ));
                    lemma_sum_push(quantities(oldw.records@), quantity as int);
                    let n = oldw.records@.len() as int;
                    assert(neww.addrs_distinct());
                    lemma_slot_at(neww, n);
                    assert forall|b: Address| b != a implies neww.slot(b) == oldw.slot(b) by {
                        lemma_slot_unchanged_push(oldw, neww, a, b);
                    }
                }
                Ok(())
            },
        }
    }

    /// Stock-out: take `quantity` units of `product` from the slot named by
    /// `address`. Preconditions are checked in order, each with its own
    /// failure; any failure leaves the warehouse unchanged. On success the
    /// quantity drops by exactly `quantity`, the record is erased the moment
    /// it reaches zero (an empty slot is absence, never a zero-quantity
    /// record), and the used counter shrinks by `quantity`.
    pub fn remove(&mut self, product: &str, quantity: u32, address: &str) -> (r: Result<
        (),
        StockError,
    >)
        requires
            old(self).wf(),
            1 <= quantity,
        ensures
            final(self).wf(),
            final(self).topology == old(self).topology,
            match r {
                Ok(()) => spec_decode(old(self).topology, address@) matches Some(a) && old(
                    self,
                ).slot(a) matches Some((p, q)) && {
                    &&& p == product@
                    &&& quantity <= q
                    &&& final(self).slot(a) == if quantity == q {
                        Option::<(Seq<char>, u32)>::None
                    } else {
                        Some((p, (q - quantity) as u32))
                    }
                    &&& forall|b: Address| b != a ==> final(self).slot(b) == old(self).slot(b)
                    &&& final(self).used_capacity == old(self).used_capacity - quantity
                },
                Err(e) => *final(self) == *old(self) && match e {
                    StockError::InvalidAddress => spec_decode(old(self).topology, address@)
                        is None,
                    StockError::EmptySlot => spec_decode(old(self).topology, address@) matches
                        Some(a) && old(self).slot(a) is None,
                    StockError::ProductMismatch { occupant } => spec_decode(
                        old(self).topology,
                        address@,
                    ) matches Some(a) && old(self).slot(a) matches Some((p, q)) && p != product@
                        && occupant@ == p,
                    StockError::InsufficientStock { available } => spec_decode(
                        old(self).topology,
                        address@,
                    ) matches Some(a) && old(self).slot(a) matches Some((p, q)) && p == product@
                        && q < quantity && available == q,
                    _ => false,
                },
            },
    {
        let a = match self.topology.decode(address) {
            Some(a) => a,
            None => {
                return Err(StockError::InvalidAddress);
            },
        };
        let i = match self.find_index(a) {
            Some(i) => i,
            None => {
                return Err(StockError::EmptySlot);
            },
        };
        proof {
            lemma_slot_at(*self, i as int);
        }
        let same_product = {
            let p = product.to_owned();
            p == self.records[i].product
        };
        if !same_product {
            return Err(StockError::ProductMismatch {
                occupant: self.records[i].product.clone(),
            });
        }
        let cur = self.records[i].quantity;
        if cur < quantity {
            return Err(StockError::InsufficientStock { available: cur });
        }
        let ghost oldw = *self;
        proof {
            let qs = quantities(oldw.records@);
            lemma_sum_update(qs, i as int, 0);
            lemma_sum_lower(qs.update(i as int, 0), 0);
        }
        if cur == quantity {
            let _ = self.records.swap_remove(i);
            self.used_capacity = self.used_capacity - quantity;
            proof {
                let neww = *self;
                let qs = quantities(oldw.records@);
                let qs2 = qs.update(i as int, qs.last());
                lemma_sum_update(qs, i as int, qs.last());
                assert(quantities(neww.records@) =~= qs2.drop_last());
                lemma_swap_remove_slots(oldw, neww, a, i as int);
            }
        } else {
            self.records[i].quantity = cur - quantity;
            self.used_capacity = self.used_capacity - quantity;
            proof {
                let neww = *self;
                let nq = (cur - quantity) as int;
                assert(quantities(neww.records@) =~= quantities(oldw.records@).update(
                    i as int,
                    nq,
                ));
                lemma_sum_update(quantities(oldw.records@), i as int, nq);
                lemma_slot_at(neww, i as int);
                assert forall|b: Address| b != a implies neww.slot(b) == oldw.slot(b) by {
                    lemma_slot_unchanged_update(oldw, neww, a, i as int, b);
                }
            }
        }
        Ok(())
    }
}

/// The accounting invariant, stated on its own: in a well-formed warehouse
/// the cached used-capacity counter equals the sum of all current record
/// quantities, and every record quantity lies in `[1, SLOT_CAPACITY]`. Both
/// `add` and `remove` ensure `wf`, so this holds after any sequence of
/// operations on a fresh warehouse.
pub proof fn lemma_invariant_accounting(w: Warehouse)
    requires
        w.wf(),
    ensures
        w.used_capacity == sum_quantities(w.records@),
        forall|i: int|
            0 <= i < w.records@.len() ==> 1 <= (#[trigger] w.records@[i]).quantity
                <= SLOT_CAPACITY,
{
}

/// Round-trip law: stocking `q` units of a product into an empty slot and
/// then immediately stocking the same `q` units out returns every slot to
/// its prior occupancy and the used-capacity counter to its prior value.
/// The premises are exactly what the success contracts of `add` (into an
/// empty slot) and `remove` (of the full stored quantity) give.
pub proof fn lemma_round_trip(
    w0: Warehouse,
    w1: Warehouse,
    w2: Warehouse,
    a: Address,
    p: Seq<char>,
    q: u32,
)
    requires
        w0.slot(a) is None,
        w1.slot(a) == Some((p, q)),
        forall|b: Address| b != a ==> w1.slot(b) == w0.slot(b),
        w1.used_capacity == w0.used_capacity + q,
        w2.slot(a) is None,
        forall|b: Address| b != a ==> w2.slot(b) == w1.slot(b),
        w2.used_capacity == w1.used_capacity - q,
    ensures
        forall|b: Address| w2.slot(b) == w0.slot(b),
        w2.used_capacity == w0.used_capacity,
{
}

/// After removing the record at index `i` (which sits at `a`) by swapping
/// the last record into its place, slot `a` is empty and every other slot is
/// untouched.
proof fn lemma_swap_remove_slots(w1: Warehouse, w2: Warehouse, a: Address, i: int)
    requires
        w1.addrs_distinct(),
        0 <= i < w1.records@.len(),
        w1.records@[i].address == a,
        w2.records@ == w1.records@.update(i, w1.records@.last()).drop_last(),
    ensures
        w2.addrs_distinct(),
        !w2.has_addr(a),
        forall|b: Address| b != a ==> w2.slot(b) == w1.slot(b),
{
    let n = w1.records@.len() as int;
    assert forall|k: int| 0 <= k < n - 1 implies #[trigger] w2.records@[k] == if k == i {
        w1.records@[n - 1]
    } else {
        w1.records@[k]
    } by {}
    assert forall|k: int, l: int| 0 <= k < l < w2.records@.len() implies (
    #[trigger] w2.records@[k]).address != (#[trigger] w2.records@[l]).address by {
        let mk = if k == i { n - 1 } else { k };
        let ml = if l == i { n - 1 } else { l };
        assert(w1.records@[mk].address != w1.records@[ml].address);
    }
    assert forall|k: int| 0 <= k < n - 1 implies (#[trigger] w2.records@[k]).address != a by {
        if k == i {
            assert(w1.records@[i].address != w1.records@[n - 1].address);
        } else {
            assert(w1.records@[k].address != w1.records@[i].address);
        }
    }
    assert(!w2.has_addr(a));
    assert forall|b: Address| b != a implies w2.slot(b) == w1.slot(b) by {
        if w1.has_addr(b) {
            let k = choose|k: int| 0 <= k < w1.records@.len() && (
            #[trigger] w1.records@[k]).address == b;
            lemma_slot_at(w1, k);
            if k == n - 1 {
                lemma_slot_at(w2, i);
            } else {
                lemma_slot_at(w2, k);
            }
        } else {
            if w2.has_addr(b) {
                let k = choose|k: int| 0 <= k < w2.records@.len() && (
                #[trigger] w2.records@[k]).address == b;
                let mk = if k == i { n - 1 } else { k };
                assert(w1.records@[mk].address == b);
            }
        }
    }
}

/// Slots other than `a` are untouched when only the record at index `i`
/// (which sits at `a`) changes, keeping its address.
proof fn lemma_slot_unchanged_update(w1: Warehouse, w2: Warehouse, a: Address, i: int, b: Address)
    requires
        w1.addrs_distinct(),
        0 <= i < w1.records@.len(),
        w1.records@[i].address == a,
        w2.records@.len() == w1.records@.len(),
        w2.records@[i].address == a,
        forall|k: int| 0 <= k < w1.records@.len() && k != i ==> w2.records@[k] == w1.records@[k],
        b != a,
    ensures
        w2.slot(b) == w1.slot(b),
{
    assert forall|k: int| 0 <= k < w2.records@.len() implies (#[trigger] w2.records@[k]).address
        == w1.records@[k].address by {}
    assert(w2.addrs_distinct());
    if w1.has_addr(b) {
        let k = choose|k: int| 0 <= k < w1.records@.len() && (#[trigger] w1.records@[k]).address
            == b;
        lemma_slot_at(w1, k);
        lemma_slot_at(w2, k);
        assert(w2.records@[k] == w1.records@[k]);
    } else {
        if w2.has_addr(b) {
            let k = choose|k: int| 0 <= k < w2.records@.len() && (
            #[trigger] w2.records@[k]).address == b;
            assert(w1.records@[k].address == b);
        }
    }
}

/// Slots other than `a` are untouched when a record at `a` is appended to a
/// store that had no record at `a`.
proof fn lemma_slot_unchanged_push(w1: Warehouse, w2: Warehouse, a: Address, b: Address)
    requires
        w1.addrs_distinct(),
        !w1.has_addr(a),
        w2.records@.len() == w1.records@.len() + 1,
        forall|k: int| 0 <= k < w1.records@.len() ==> w2.records@[k] == w1.records@[k],
        w2.records@[w1.records@.len() as int].address == a,
        b != a,
    ensures
        w2.addrs_distinct(),
        w2.slot(b) == w1.slot(b),
{
    let n = w1.records@.len() as int;
    assert forall|i: int, j: int| 0 <= i < j < w2.records@.len() implies (
    #[trigger] w2.records@[i]).address != (#[trigger] w2.records@[j]).address by {
        if j < n {
            assert(w1.records@[i].address != w1.records@[j].address);
        } else {
            assert(w2.records@[i] == w1.records@[i]);
            assert(!(0 <= i < w1.records@.len() && w1.records@[i].address == a));
        }
    }
    if w1.has_addr(b) {
        let k = choose|k: int| 0 <= k < w1.records@.len() && (#[trigger] w1.records@[k]).address
            == b;
        lemma_slot_at(w1, k);
        lemma_slot_at(w2, k);
    } else {
        if w2.has_addr(b) {
            let k = choose|k: int| 0 <= k < w2.records@.len() && (
            #[trigger] w2.records@[k]).address == b;
            assert(k != n);
            assert(w1.records@[k].address == b);
        }
    }
}

} // verus!
