//! The packed 64-bit asset identifier: engine, type, platform, region,
//! locale and serial index share one word, with the type field stored
//! bit-reversed.

use vstd::prelude::*;

verus! {

/// A decomposed asset identifier. The stored type field is one-based, so a
/// packable value has `type_` at least 1.
#[derive(Clone, Copy, PartialEq, Eq, Structural, Debug)]
pub struct Guid {
    pub engine: u8,
    pub type_: u16,
    pub platform: u8,
    pub region: u8,
    pub locale: u8,
    pub index: u32,
}

/// A 16-bit word with its bits in reverse order, as four swaps of ever wider
/// halves.
pub open spec fn rev16(x: u16) -> u16 {
    let a = ((x & 0x5555) << 1u16) | ((x >> 1u16) & 0x5555);
    let b = ((a & 0x3333) << 2u16) | ((a >> 2u16) & 0x3333);
    let c = ((b & 0x0F0F) << 4u16) | ((b >> 4u16) & 0x0F0F);
    ((c & 0x00FF) << 8u16) | (c >> 8u16)
}

fn rev16_exec(x: u16) -> (r: u16)
    ensures
        r == rev16(x),
{
    let a = ((x & 0x5555) << 1) | ((x >> 1) & 0x5555);
    let b = ((a & 0x3333) << 2) | ((a >> 2) & 0x3333);
    let c = ((b & 0x0F0F) << 4) | ((b >> 4) & 0x0F0F);
    ((c & 0x00FF) << 8) | (c >> 8)
}

/// The packed word: the low four bits of each narrow field, the type less
/// one shifted up by four and bit-reversed into twelve bits, and the serial
/// index in the low word.
pub open spec fn spec_guid_raw(g: Guid) -> u64
    recommends
        g.type_ >= 1,
{
    (((g.engine & 0xF) as u64) << 60u64) | (((rev16(((g.type_ - 1) as u16) << 4u16)
        & 0xFFF) as u64) << 48u64) | (((g.platform & 0xF) as u64) << 44u64) | (((g.region
        & 0x1F) as u64) << 39u64) | (((g.locale & 0x1F) as u64) << 32u64) | (g.index as u64)
}

/// The decomposition of a packed word.
pub open spec fn spec_guid_from(value: u64) -> Guid {
    Guid {
        engine: ((value >> 60u64) & 0xF) as u8,
        type_: ((rev16(((value >> 48u64) & 0xFFF) as u16) >> 4u16) + 1) as u16,
        platform: ((value >> 44u64) & 0xF) as u8,
        region: ((value >> 39u64) & 0x1F) as u8,
        locale: ((value >> 32u64) & 0x1F) as u8,
        index: (value & 0xFFFFFFFF) as u32,
    }
}

impl Guid {
    /// Pack the fields into one word.
    pub fn to_raw(&self) -> (r: u64)
        requires
            self.type_ >= 1,
        ensures
            r == spec_guid_raw(*self),
    {
        (((self.engine & 0xF) as u64) << 60) | (((rev16_exec((self.type_ - 1) << 4)
            & 0xFFF) as u64) << 48) | (((self.platform & 0xF) as u64) << 44) | (((self.region
            & 0x1F) as u64) << 39) | (((self.locale & 0x1F) as u64) << 32) | (self.index as u64)
    }
}

impl From<u64> for Guid {
    /// Unpack a word into its fields.
    fn from(value: u64) -> (r: Guid) {
        let t = rev16_exec(((value >> 48) & 0xFFF) as u16);
        proof {
            let t0 = t;
            assert(t0 >> 4u16 <= 0xFFF) by (bit_vector);
        }
        Guid {
            engine: ((value >> 60) & 0xF) as u8,
            type_: (t >> 4) + 1,
            platform: ((value >> 44) & 0xF) as u8,
            region: ((value >> 39) & 0x1F) as u8,
            locale: ((value >> 32) & 0x1F) as u8,
            index: (value & 0xFFFFFFFF) as u32,
        }
    }
}

impl vstd::std_specs::convert::FromSpecImpl<u64> for Guid {
    open spec fn obeys_from_spec() -> bool {
        true
    }

    open spec fn from_spec(value: u64) -> Guid {
        spec_guid_from(value)
    }
}

/// Unpacking a packed identifier recovers every field that lies within its
/// declared width.
pub proof fn lemma_guid_round_trip(g: Guid)
    requires
        1 <= g.type_ <= 0x1000,
        g.engine <= 0xF,
        g.platform <= 0xF,
        g.region <= 0x1F,
        g.locale <= 0x1F,
    ensures
        spec_guid_from(spec_guid_raw(g)) == g,
{
    let e = g.engine;
    let t = g.type_;
    let p = g.platform;
    let rg = g.region;
    let lc = g.locale;
    let ix = g.index;
    let raw = spec_guid_raw(g);
    assert({
        let rw = (((e & 0xF) as u64) << 60u64) | (((rev16(((t - 1) as u16) << 4u16)
            & 0xFFF) as u64) << 48u64) | (((p & 0xF) as u64) << 44u64) | (((rg & 0x1F) as u64)
            << 39u64) | (((lc & 0x1F) as u64) << 32u64) | (ix as u64);
        ((rw >> 60u64) & 0xF) as u8 == e && ((rev16(((rw >> 48u64) & 0xFFF) as u16) >> 4u16)
            + 1) as u16 == t && ((rw >> 44u64) & 0xF) as u8 == p && ((rw >> 39u64) & 0x1F) as u8
            == rg && ((rw >> 32u64) & 0x1F) as u8 == lc && (rw & 0xFFFFFFFF) as u32 == ix
    }) by (bit_vector)
        requires
            1 <= t <= 0x1000,
            e <= 0xF,
            p <= 0xF,
            rg <= 0x1F,
            lc <= 0x1F,
    ;
}

} // verus!
