//! Address codec: the warehouse topology and the fixed-format location
//! addresses, with a pure decoder that validates a raw token against the
//! configured bounds.

use vstd::prelude::*;
use vstd::string::{StringExecFns, StrSliceExecFns};

verus! {

/// Fixed capacity of every slot, in stock units.
pub const SLOT_CAPACITY: u32 = 10;

/// Immutable warehouse configuration, set once at construction. It defines
/// the space of valid addresses and the theoretical capacity of the
/// warehouse and of each zone.
pub struct Topology {
    /// Number of zones; zone letters run from `A` through `A + zone_count - 1`.
    pub zone_count: u32,
    /// Shelves in each zone, numbered `1..=shelves_per_zone`.
    pub shelves_per_zone: u32,
    /// Sections on each shelf, numbered `1..=sections_per_shelf`.
    pub sections_per_shelf: u32,
    /// Slots in each section, numbered `1..=slots_per_section`.
    pub slots_per_section: u32,
    /// Configured total capacity of the warehouse, in stock units. Kept
    /// independent of the product-derived capacity, as a deliberate open
    /// point of the design.
    pub total_capacity_units: u32,
}

/// A decoded storage location: the structured 4-tuple behind a 5-character
/// address token. `zone` is the offset from the first zone letter (0-based);
/// the other coordinates are 1-based, as they appear in the token.
#[derive(Clone, Copy, PartialEq, Eq, Structural, Debug)]
pub struct Address {
    pub zone: u32,
    pub shelf: u32,
    pub section: u32,
    pub slot: u32,
}

impl Topology {
    /// Bounds forced by the address format: one zone letter, a two-digit
    /// shelf number, one section digit and one slot digit; and a positive
    /// configured capacity so that fill percentages are defined.
    pub open spec fn wf(self) -> bool {
        &&& 1 <= self.zone_count <= 26
        &&& 1 <= self.shelves_per_zone <= 99
        &&& 1 <= self.sections_per_shelf <= 9
        &&& 1 <= self.slots_per_section <= 9
        &&& 1 <= self.total_capacity_units
    }

    /// Number of addressable slots in the whole warehouse.
    pub open spec fn spec_total_slots(self) -> int {
        self.zone_count * self.shelves_per_zone * self.sections_per_shelf
            * self.slots_per_section
    }

    /// Theoretical capacity of one zone, in stock units.
    pub open spec fn spec_zone_capacity(self) -> int {
        self.shelves_per_zone * self.sections_per_shelf * self.slots_per_section
            * SLOT_CAPACITY
    }

    pub fn total_slots(&self) -> (n: u32)
        requires
            self.wf(),
        ensures
            n == self.spec_total_slots(),
            n <= 208494,
    {
        proof {
            lemma_topology_products(*self);
        }
        self.zone_count * self.shelves_per_zone * self.sections_per_shelf
            * self.slots_per_section
    }

    pub fn zone_capacity(&self) -> (n: u32)
        requires
            self.wf(),
        ensures
            n == self.spec_zone_capacity(),
            n <= 80190,
    {
        proof {
            lemma_topology_products(*self);
        }
        self.shelves_per_zone * self.sections_per_shelf * self.slots_per_section
            * SLOT_CAPACITY
    }
}

/// Numeric bounds of the derived capacities under a well-formed topology.
pub proof fn lemma_topology_products(t: Topology)
    requires
        t.wf(),
    ensures
        0 < t.zone_count * t.shelves_per_zone <= 2574,
        0 < t.zone_count * t.shelves_per_zone * t.sections_per_shelf <= 23166,
        0 < t.spec_total_slots() <= 208494,
        0 < t.shelves_per_zone * t.sections_per_shelf <= 891,
        0 < t.shelves_per_zone * t.sections_per_shelf * t.slots_per_section <= 8019,
        0 < t.spec_zone_capacity() <= 80190,
{
    assert(0 < t.zone_count * t.shelves_per_zone <= 2574
        && 0 < t.zone_count * t.shelves_per_zone * t.sections_per_shelf <= 23166
        && 0 < t.zone_count * t.shelves_per_zone * t.sections_per_shelf
            * t.slots_per_section <= 208494
        && 0 < t.shelves_per_zone * t.sections_per_shelf <= 891
        && 0 < t.shelves_per_zone * t.sections_per_shelf * t.slots_per_section <= 8019
        && 0 < t.shelves_per_zone * t.sections_per_shelf * t.slots_per_section * 10
            <= 80190) by (nonlinear_arith)
        requires
            1 <= t.zone_count <= 26,
            1 <= t.shelves_per_zone <= 99,
            1 <= t.sections_per_shelf <= 9,
            1 <= t.slots_per_section <= 9,
    ;
}

impl Address {
    /// Validity of a decoded address against a topology: every coordinate
    /// lies in its configured range.
    pub open spec fn valid(self, t: Topology) -> bool {
        &&& self.zone < t.zone_count
        &&& 1 <= self.shelf <= t.shelves_per_zone
        &&& 1 <= self.section <= t.sections_per_shelf
        &&& 1 <= self.slot <= t.slots_per_section
    }
}

pub open spec fn is_decimal_digit(c: char) -> bool {
    48 <= c as int <= 57
}

pub open spec fn char_digit(c: char) -> int {
    c as int - 48
}

pub open spec fn digit_char(d: int) -> char {
    if d == 0 {
        '0'
    } else if d == 1 {
        '1'
    } else if d == 2 {
        '2'
    } else if d == 3 {
        '3'
    } else if d == 4 {
        '4'
    } else if d == 5 {
        '5'
    } else if d == 6 {
        '6'
    } else if d == 7 {
        '7'
    } else if d == 8 {
        '8'
    } else {
        '9'
    }
}

/// The letter naming zone offset `z`, `A` for 0 through `Z` for 25.
pub open spec fn zone_letter(z: int) -> char {
    "ABCDEFGHIJKLMNOPQRSTUVWXYZ"@[z]
}

pub(crate) fn append_digit(s: &mut String, d: u32)
    requires
        d < 10,
    ensures
        final(s)@ == old(s)@.push(digit_char(d as int)),
{
    match d {
        0 => {
            s.append("0");
            proof {
                reveal_strlit("0");
                assert(old(s)@ + "0"@ =~= old(s)@.push(digit_char(0)));
            }
        },
        1 => {
            s.append("1");
            proof {
                reveal_strlit("1");
                assert(old(s)@ + "1"@ =~= old(s)@.push(digit_char(1)));
            }
        },
        2 => {
            s.append("2");
            proof {
                reveal_strlit("2");
                assert(old(s)@ + "2"@ =~= old(s)@.push(digit_char(2)));
            }
        },
        3 => {
            s.append("3");
            proof {
                reveal_strlit("3");
                assert(old(s)@ + "3"@ =~= old(s)@.push(digit_char(3)));
            }
        },
        4 => {
            s.append("4");
            proof {
                reveal_strlit("4");
                assert(old(s)@ + "4"@ =~= old(s)@.push(digit_char(4)));
            }
        },
        5 => {
            s.append("5");
            proof {
                reveal_strlit("5");
                assert(old(s)@ + "5"@ =~= old(s)@.push(digit_char(5)));
            }
        },
        6 => {
            s.append("6");
            proof {
                reveal_strlit("6");
                assert(old(s)@ + "6"@ =~= old(s)@.push(digit_char(6)));
            }
        },
        7 => {
            s.append("7");
            proof {
                reveal_strlit("7");
                assert(old(s)@ + "7"@ =~= old(s)@.push(digit_char(7)));
            }
        },
        8 => {
            s.append("8");
            proof {
                reveal_strlit("8");
                assert(old(s)@ + "8"@ =~= old(s)@.push(digit_char(8)));
            }
        },
        _ => {
            s.append("9");
            proof {
                reveal_strlit("9");
                assert(old(s)@ + "9"@ =~= old(s)@.push(digit_char(9)));
            }
        },
    }
}

/// The 5-character token naming an address: the zone letter, the two-digit
/// shelf number, the section digit and the slot digit.
pub open spec fn spec_encode(a: Address) -> Seq<char> {
    seq![
        zone_letter(a.zone as int),
        digit_char(a.shelf as int / 10),
        digit_char(a.shelf as int % 10),
        digit_char(a.section as int),
        digit_char(a.slot as int),
    ]
}

/// Encoding a valid address and decoding the token against the same
/// topology gives the address back: the codec loses nothing.
pub proof fn lemma_encode_decode(t: Topology, a: Address)
    requires
        t.wf(),
        a.valid(t),
    ensures
        spec_decode(t, spec_encode(a)) == Some(a),
{
    reveal_strlit("ABCDEFGHIJKLMNOPQRSTUVWXYZ");
    let s = spec_encode(a);
    assert(s[0] as int - 65 == a.zone);
    assert(10 * char_digit(s[1]) + char_digit(s[2]) == a.shelf);
}

impl Address {
    /// Render the address as its 5-character token.
    pub fn encode(&self) -> (r: String)
        requires
            self.zone <= 25,
            1 <= self.shelf <= 99,
            1 <= self.section <= 9,
            1 <= self.slot <= 9,
        ensures
            r@ == spec_encode(*self),
    {
        let letters = "ABCDEFGHIJKLMNOPQRSTUVWXYZ";
        proof {
            reveal_strlit("ABCDEFGHIJKLMNOPQRSTUVWXYZ");
            assert(letters.is_ascii());
        }
        let z = self.zone as usize;
        let mut r = String::from_str(letters.substring_ascii(z, z + 1));
        append_digit(&mut r, self.shelf / 10);
        append_digit(&mut r, self.shelf % 10);
        append_digit(&mut r, self.section);
        append_digit(&mut r, self.slot);
        proof {
            assert(r@ =~= spec_encode(*self));
        }
        r
    }
}

/// What `decode` returns, as a pure function of the topology and the
/// character sequence alone. Rules in order, first failure short-circuits:
/// the token has exactly 5 characters; character 0 is a letter whose offset
/// from the first zone letter lies below `zone_count`; characters 1 and 2
/// form a two-digit shelf number in `[1, shelves_per_zone]`; character 3 is
/// a section digit in `[1, sections_per_shelf]`; character 4 is a slot digit
/// in `[1, slots_per_section]`.
pub open spec fn spec_decode(t: Topology, s: Seq<char>) -> Option<Address> {
    if s.len() != 5 {
        None
    } else {
        let zone = s[0] as int - 65;
        let shelf = 10 * char_digit(s[1]) + char_digit(s[2]);
        if !(0 <= zone < t.zone_count) {
            None
        } else if !(is_decimal_digit(s[1]) && is_decimal_digit(s[2])
            && 1 <= shelf <= t.shelves_per_zone) {
            None
        } else if !(is_decimal_digit(s[3]) && 1 <= char_digit(s[3]) <= t.sections_per_shelf) {
            None
        } else if !(is_decimal_digit(s[4]) && 1 <= char_digit(s[4]) <= t.slots_per_section) {
            None
        } else {
            Some(Address {
                zone: zone as u32,
                shelf: shelf as u32,
                section: char_digit(s[3]) as u32,
                slot: char_digit(s[4]) as u32,
            })
        }
    }
}

/// `decode` is total and deterministic: on every topology and every string
/// it yields either a valid address or nothing, and the answer is a function
/// of its two arguments alone.
pub proof fn lemma_decode_total(t: Topology, s: Seq<char>)
    ensures
        spec_decode(t, s) matches Some(a) ==> a.valid(t),
{
}

fn digit_value(c: char) -> (r: Option<u32>)
    ensures
        r is Some <==> is_decimal_digit(c),
        r matches Some(d) ==> d == char_digit(c),
{
    let u = c as u32;
    if 48 <= u && u <= 57 {
        Some(u - 48)
    } else {
        None
    }
}

impl Topology {
    /// Decode and validate a raw address token. Pure: no state, no side
    /// effects; any failure yields the single "invalid" outcome `None`.
    pub fn decode(&self, raw: &str) -> (r: Option<Address>)
        ensures
            r == spec_decode(*self, raw@),
            r matches Some(a) ==> a.valid(*self),
    {
        proof {
            lemma_decode_total(*self, raw@);
        }
        if raw.unicode_len() != 5 {
            return None;
        }
        let c0 = raw.get_char(0) as u32;
        if c0 < 65 || c0 - 65 >= self.zone_count {
            return None;
        }
        let zone = c0 - 65;
        let d1 = digit_value(raw.get_char(1));
        let d2 = digit_value(raw.get_char(2));
        let (shelf, shelf_ok) = match (d1, d2) {
            (Some(a), Some(b)) => (10 * a + b, true),
            _ => (0, false),
        };
        if !shelf_ok || shelf < 1 || shelf > self.shelves_per_zone {
            return None;
        }
        let section = match digit_value(raw.get_char(3)) {
            Some(d) => d,
            None => {
                return None;
            },
        };
        if section < 1 || section > self.sections_per_shelf {
            return None;
        }
        let slot = match digit_value(raw.get_char(4)) {
            Some(d) => d,
            None => {
                return None;
            },
        };
        if slot < 1 || slot > self.slots_per_section {
            return None;
        }
        Some(Address { zone, shelf, section, slot })
    }
}

} // verus!
