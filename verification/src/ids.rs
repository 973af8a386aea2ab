//! Identifiers of the data model: regions, files and datanodes.

use vstd::prelude::*;

verus! {

/// Identifier of a region: the unit of data partitioning.  A region id is
/// carried on the wire as a single `u64` holding the table id in the high
/// 32 bits and the region number in the low 32 bits.
#[derive(Clone, Copy, PartialEq, Eq, Structural, Hash, Debug)]
pub struct RegionId {
    pub table_id: u32,
    pub region_number: u32,
}

impl RegionId {
    /// The `u64` encoding of a region id: high half table id, low half
    /// region number.
    pub open spec fn spec_as_u64(self) -> u64 {
        (self.table_id as u64 * 0x1_0000_0000 + self.region_number as u64) as u64
    }

    pub fn new(table_id: u32, region_number: u32) -> (r: RegionId)
        ensures
            r == (RegionId { table_id, region_number }),
    {
        RegionId { table_id, region_number }
    }

    /// Packs the two halves into the wire encoding.
    pub fn as_u64(&self) -> (r: u64)
        ensures
            r == self.spec_as_u64(),
    {
        self.table_id as u64 * 0x1_0000_0000 + self.region_number as u64
    }

    /// Recovers the two halves from the wire encoding.
    pub fn from_u64(v: u64) -> (r: RegionId)
        ensures
            r.spec_as_u64() == v,
            r == RegionId::spec_from_u64(v),
    {
        let r = RegionId {
            table_id: (v / 0x1_0000_0000) as u32,
            region_number: (v % 0x1_0000_0000) as u32,
        };
        proof {
            lemma_region_id_split(v);
        }
        r
    }

    pub open spec fn spec_from_u64(v: u64) -> RegionId {
        RegionId {
            table_id: (v / 0x1_0000_0000) as u32,
            region_number: (v % 0x1_0000_0000) as u32,
        }
    }
}

/// Splitting a `u64` into high and low halves and re-packing them gives the
/// value back.
proof fn lemma_region_id_split(v: u64)
    ensures
        (v / 0x1_0000_0000) * 0x1_0000_0000 + (v % 0x1_0000_0000) == v,
        v / 0x1_0000_0000 <= 0xFFFF_FFFF,
{
    assert((v / 0x1_0000_0000) * 0x1_0000_0000 + (v % 0x1_0000_0000) == v) by {
        vstd::arithmetic::div_mod::lemma_fundamental_div_mod(v as int, 0x1_0000_0000);
    }
}

/// The round trip from the two halves through the wire encoding is the
/// identity.
pub proof fn lemma_region_id_round_trip(r: RegionId)
    ensures
        RegionId::spec_from_u64(r.spec_as_u64()) == r,
{
    let v = r.spec_as_u64();
    assert(v / 0x1_0000_0000 == r.table_id && v % 0x1_0000_0000 == r.region_number) by {
        vstd::arithmetic::div_mod::lemma_fundamental_div_mod_converse(
            v as int,
            0x1_0000_0000,
            r.table_id as int,
            r.region_number as int,
        );
    }
}

/// Identifier of an SST file within a region.  Stable, unique per file.
#[derive(Clone, Copy, PartialEq, Eq, Structural, Hash, Debug)]
pub struct FileId {
    pub hi: u64,
    pub lo: u64,
}

impl FileId {
    pub fn new(hi: u64, lo: u64) -> (r: FileId)
        ensures
            r == (FileId { hi, lo }),
    {
        FileId { hi, lo }
    }
}

/// A datanode.  The id is stable across restarts; the address may change,
/// so peers are compared by id throughout the control plane.
#[derive(Clone, Debug)]
pub struct Peer {
    pub id: u64,
    pub addr: String,
}

impl Peer {
    pub fn new(id: u64, addr: String) -> (r: Peer)
        ensures
            r.id == id,
            r.addr@ == addr@,
    {
        Peer { id, addr }
    }

    /// A field-preserving copy of the peer (a derived clone says nothing
    /// about the copy, so the control plane uses this instead).
    pub fn duplicate(&self) -> (r: Peer)
        ensures
            r.id == self.id,
            r.addr@ == self.addr@,
    {
        Peer { id: self.id, addr: self.addr.clone() }
    }
}

} // verus!
