//! The root system description pointer in its two versions.
use crate::elf::{
    le_u32, le_u64, lemma_le_u32_bytes, lemma_le_u64_bytes, read_u32, read_u64,
};
use vstd::prelude::*;

verus! {

/// The sum of the first `count` bytes of `bytes`.
pub open spec fn sum_bytes(bytes: Seq<u8>, count: int) -> int
    decreases count,
{
    if count <= 0 {
        0
    } else {
        sum_bytes(bytes, count - 1) + bytes[count - 1]
    }
}

/// The signature that opens a root pointer: `RSD PTR `.
pub open spec fn rsdp_signature() -> Seq<u8> {
    seq![0x52u8, 0x53u8, 0x44u8, 0x20u8, 0x50u8, 0x54u8, 0x52u8, 0x20u8]
}

/// The least significant byte of `value`, and the three above it.
proof fn lemma_bytes_of_u32(value: u32)
    ensures
        value & 0xFF == value % 0x100,
        (value >> 8) & 0xFF == value / 0x100 % 0x100,
        (value >> 16) & 0xFF == value / 0x1_0000 % 0x100,
        (value >> 24) & 0xFF == value / 0x100_0000,
{
    assert(value & 0xFF == value % 0x100 && (value >> 8) & 0xFF == value / 0x100 % 0x100 && (value
        >> 16) & 0xFF == value / 0x1_0000 % 0x100 && (value >> 24) & 0xFF == value / 0x100_0000)
        by (bit_vector);
}

/// The root pointer of ACPI 1.0: twenty bytes.
#[derive(Copy, Clone, Debug)]
pub struct RsdpV1 {
    signature: [u8; 8],
    checksum: u8,
    oem_id: [u8; 6],
    revision: u8,
    rsdt_physical_address: u32,
}

impl RsdpV1 {
    /// The twenty bytes of the structure, in the order in which they lie in
    /// memory.
    pub closed spec fn encoded(&self) -> Seq<u8> {
        self.signature@ + seq![self.checksum] + self.oem_id@ + seq![
            self.revision,
            (self.rsdt_physical_address % 0x100) as u8,
            (self.rsdt_physical_address / 0x100 % 0x100) as u8,
            (self.rsdt_physical_address / 0x1_0000 % 0x100) as u8,
            (self.rsdt_physical_address / 0x100_0000) as u8,
        ]
    }

    /// The physical address of the root table.
    pub closed spec fn rsdt_address(&self) -> u32 {
        self.rsdt_physical_address
    }

    /// The root pointer in the first twenty bytes of `bytes`; none where
    /// `bytes` is shorter.
    pub fn parse(bytes: &[u8]) -> (r: Option<RsdpV1>)
        ensures
            r is Some <==> bytes@.len() >= 20,
            r matches Some(rsdp) ==> rsdp.encoded() == bytes@.subrange(0, 20)
                && rsdp.rsdt_address() == le_u32(bytes@, 16),
    {
        if bytes.len() < 20 {
            return None;
        }
        let rsdp = RsdpV1 {
            signature: [
                bytes[0],
                bytes[1],
                bytes[2],
                bytes[3],
                bytes[4],
                bytes[5],
                bytes[6],
                bytes[7],
            ],
            checksum: bytes[8],
            oem_id: [bytes[9], bytes[10], bytes[11], bytes[12], bytes[13], bytes[14]],
            revision: bytes[15],
            rsdt_physical_address: read_u32(bytes, 16),
        };
        proof {
            lemma_le_u32_bytes(bytes@, 16);
            assert(rsdp.encoded() =~= bytes@.subrange(0, 20));
        }
        Some(rsdp)
    }

    /// The signature is right and the bytes sum to a multiple of 256.
    pub fn is_valid(&self) -> (r: bool)
        ensures
            r == (self.encoded().subrange(0, 8) == rsdp_signature() && sum_bytes(
                self.encoded(),
                20,
            ) % 0x100 == 0),
    {
        self.valid_signature() && self.valid_checksum()
    }

    /// The address of the root table where all of physical memory is mapped
    /// `offset` bytes up; none where that is beyond 64 bits.
    pub fn get_rsdt(&self, offset: u64) -> (r: Option<u64>)
        ensures
            r == if self.rsdt_address() + offset <= u64::MAX {
                Some((self.rsdt_address() + offset) as u64)
            } else {
                None::<u64>
            },
    {
        (self.rsdt_physical_address as u64).checked_add(offset)
    }

    /// The structure starts with `RSD PTR `.
    pub fn valid_signature(&self) -> (r: bool)
        ensures
            r == (self.encoded().subrange(0, 8) == rsdp_signature()),
    {
        let r = self.signature[0] == 0x52 && self.signature[1] == 0x53 && self.signature[2] == 0x44
            && self.signature[3] == 0x20 && self.signature[4] == 0x50 && self.signature[5] == 0x54
            && self.signature[6] == 0x52 && self.signature[7] == 0x20;
        proof {
            let start = self.encoded().subrange(0, 8);
            assert(forall|k: int| 0 <= k < 8 ==> start[k] == self.signature@[k]);
            if r {
                assert(start =~= rsdp_signature());
            } else {
                assert(rsdp_signature()[0] == 0x52 && rsdp_signature()[1] == 0x53
                    && rsdp_signature()[2] == 0x44 && rsdp_signature()[3] == 0x20
                    && rsdp_signature()[4] == 0x50 && rsdp_signature()[5] == 0x54
                    && rsdp_signature()[6] == 0x52 && rsdp_signature()[7] == 0x20);
            }
        }
        r
    }

    /// The twenty bytes sum to a multiple of 256.
    pub fn valid_checksum(&self) -> (r: bool)
        ensures
            r == (sum_bytes(self.encoded(), 20) % 0x100 == 0),
    {
        let mut sum_u8: u64 = 0;
        sum_u8 += self.signature[0] as u64;
        sum_u8 += self.signature[1] as u64;
        sum_u8 += self.signature[2] as u64;
        sum_u8 += self.signature[3] as u64;
        sum_u8 += self.signature[4] as u64;
        sum_u8 += self.signature[5] as u64;
        sum_u8 += self.signature[6] as u64;
        sum_u8 += self.signature[7] as u64;
        sum_u8 += self.oem_id[0] as u64;
        sum_u8 += self.oem_id[1] as u64;
        sum_u8 += self.oem_id[2] as u64;
        sum_u8 += self.oem_id[3] as u64;
        sum_u8 += self.oem_id[4] as u64;
        sum_u8 += self.oem_id[5] as u64;
        sum_u8 += self.checksum as u64;
        sum_u8 += self.revision as u64;
        proof {
            lemma_bytes_of_u32(self.rsdt_physical_address);
        }
        sum_u8 += (self.rsdt_physical_address & 0xFF) as u64;
        sum_u8 += (self.rsdt_physical_address >> 8 & 0xFF) as u64;
        sum_u8 += (self.rsdt_physical_address >> 16 & 0xFF) as u64;
        sum_u8 += (self.rsdt_physical_address >> 24 & 0xFF) as u64;
        proof {
            reveal_with_fuel(sum_bytes, 21);
            assert(sum_u8 == sum_bytes(self.encoded(), 20));
            assert(sum_u8 & 0xFF == sum_u8 % 0x100) by (bit_vector);
        }
        sum_u8 & 0xFF == 0
    }
}

/// The root pointer of ACPI 2.0: the twenty bytes of version 1.0 and
/// sixteen more.
#[derive(Copy, Clone, Debug)]
pub struct RsdpV2 {
    v1: RsdpV1,
    length: u32,
    xsdt_physical_address: u64,
    extended_checksum: u8,
    reserved: [u8; 3],
}

impl RsdpV2 {
    /// The part that version 1.0 has too.
    pub closed spec fn first_part(&self) -> RsdpV1 {
        self.v1
    }

    /// The sixteen bytes that version 2.0 adds, in the order in which they
    /// lie in memory.
    pub closed spec fn extension(&self) -> Seq<u8> {
        seq![
            (self.length % 0x100) as u8,
            (self.length / 0x100 % 0x100) as u8,
            (self.length / 0x1_0000 % 0x100) as u8,
            (self.length / 0x100_0000) as u8,
            (self.xsdt_physical_address % 0x100) as u8,
            (self.xsdt_physical_address / 0x100 % 0x100) as u8,
            (self.xsdt_physical_address / 0x1_0000 % 0x100) as u8,
            (self.xsdt_physical_address / 0x100_0000 % 0x100) as u8,
            (self.xsdt_physical_address / 0x1_0000_0000 % 0x100) as u8,
            (self.xsdt_physical_address / 0x100_0000_0000 % 0x100) as u8,
            (self.xsdt_physical_address / 0x1_0000_0000_0000 % 0x100) as u8,
            (self.xsdt_physical_address / 0x100_0000_0000_0000) as u8,
            self.extended_checksum,
            self.reserved@[0],
            self.reserved@[1],
            self.reserved@[2],
        ]
    }

    /// The physical address of the extended root table.
    pub closed spec fn xsdt_address(&self) -> u64 {
        self.xsdt_physical_address
    }

    /// The root pointer in the first 36 bytes of `bytes`; none where
    /// `bytes` is shorter.
    pub fn parse(bytes: &[u8]) -> (r: Option<RsdpV2>)
        ensures
            r is Some <==> bytes@.len() >= 36,
            r matches Some(rsdp) ==> {
                &&& rsdp.first_part().encoded() == bytes@.subrange(0, 20)
                &&& rsdp.extension() == bytes@.subrange(20, 36)
                &&& rsdp.xsdt_address() == le_u64(bytes@, 24)
            },
    {
        if bytes.len() < 36 {
            return None;
        }
        match RsdpV1::parse(bytes) {
            Some(v1) => {
                let rsdp = RsdpV2 {
                    v1,
                    length: read_u32(bytes, 20),
                    xsdt_physical_address: read_u64(bytes, 24),
                    extended_checksum: bytes[32],
                    reserved: [bytes[33], bytes[34], bytes[35]],
                };
                proof {
                    lemma_le_u32_bytes(bytes@, 20);
                    lemma_le_u64_bytes(bytes@, 24);
                    assert(rsdp.extension() =~= bytes@.subrange(20, 36));
                }
                Some(rsdp)
            },
            None => None,
        }
    }

    /// The first part is valid and the bytes of the extension sum to a
    /// multiple of 256.
    pub fn is_valid(&self) -> (r: bool)
        ensures
            r == (self.first_part().encoded().subrange(0, 8) == rsdp_signature() && sum_bytes(
                self.first_part().encoded(),
                20,
            ) % 0x100 == 0 && sum_bytes(self.extension(), 16) % 0x100 == 0),
    {
        self.v1.is_valid() && self.valid_checksum()
    }

    /// The address of the extended root table where all of physical memory
    /// is mapped `offset` bytes up; none where that is beyond 64 bits.
    pub fn get_xsdt(&self, offset: u64) -> (r: Option<u64>)
        ensures
            r == if self.xsdt_address() + offset <= u64::MAX {
                Some((self.xsdt_address() + offset) as u64)
            } else {
                None::<u64>
            },
    {
        self.xsdt_physical_address.checked_add(offset)
    }

    /// The sixteen bytes of the extension sum to a multiple of 256.
    pub fn valid_checksum(&self) -> (r: bool)
        ensures
            r == (sum_bytes(self.extension(), 16) % 0x100 == 0),
    {
        let mut sum_u8: u64 = 0;
        let address = self.xsdt_physical_address;
        proof {
            lemma_bytes_of_u32(self.length);
            assert(address & 0xFF == address % 0x100 && (address >> 8) & 0xFF == address / 0x100
                % 0x100 && (address >> 16) & 0xFF == address / 0x1_0000 % 0x100 && (address >> 24)
                & 0xFF == address / 0x100_0000 % 0x100 && (address >> 32) & 0xFF == address
                / 0x1_0000_0000 % 0x100 && (address >> 40) & 0xFF == address / 0x100_0000_0000
                % 0x100 && (address >> 48) & 0xFF == address / 0x1_0000_0000_0000 % 0x100 && (
            address >> 56) & 0xFF == address / 0x100_0000_0000_0000) by (bit_vector);
        }
        sum_u8 += (self.length & 0xFF) as u64;
        sum_u8 += (self.length >> 8 & 0xFF) as u64;
        sum_u8 += (self.length >> 16 & 0xFF) as u64;
        sum_u8 += (self.length >> 24 & 0xFF) as u64;
        sum_u8 += address & 0xFF;
        sum_u8 += address >> 8 & 0xFF;
        sum_u8 += address >> 16 & 0xFF;
        sum_u8 += address >> 24 & 0xFF;
        sum_u8 += address >> 32 & 0xFF;
        sum_u8 += address >> 40 & 0xFF;
        sum_u8 += address >> 48 & 0xFF;
        sum_u8 += address >> 56 & 0xFF;
        sum_u8 += self.extended_checksum as u64;
        sum_u8 += self.reserved[0] as u64;
        sum_u8 += self.reserved[1] as u64;
        sum_u8 += self.reserved[2] as u64;
        proof {
            reveal_with_fuel(sum_bytes, 17);
            assert(sum_u8 == sum_bytes(self.extension(), 16));
            assert(sum_u8 & 0xFF == sum_u8 % 0x100) by (bit_vector);
        }
        sum_u8 & 0xFF == 0
    }
}

} // verus!
