//! Debug-mesh directives exchanged with the scripting host as packed
//! 128-bit values.

use vstd::prelude::*;

verus! {

/// Packed value that stands for [`SpawnCommand::Clear`].
pub const CLEAR_CODE: u128 = 69420;

/// A directive for the debug-mesh spawner. A sphere carries the IEEE-754
/// bit patterns of its centre's coordinates and of its radius.
#[derive(Clone, Copy, Debug, PartialEq, Eq, Structural)]
pub enum SpawnCommand {
    Sphere { x: u32, y: u32, z: u32, r: u32 },
    Clear,
}

/// The four 32-bit words `x, y, z, r` packed from the most significant end.
pub open spec fn pack_words(x: u32, y: u32, z: u32, r: u32) -> int {
    x * 0x1_0000_0000_0000_0000_0000_0000 + y * 0x1_0000_0000_0000_0000 + z * 0x1_0000_0000 + r
}

/// Packed value of a directive.
pub open spec fn encoding(c: SpawnCommand) -> int {
    match c {
        SpawnCommand::Sphere { x, y, z, r } => pack_words(x, y, z, r),
        SpawnCommand::Clear => CLEAR_CODE as int,
    }
}

/// The directive a packed value stands for.
pub open spec fn decoding(p: u128) -> SpawnCommand {
    if p == CLEAR_CODE {
        SpawnCommand::Clear
    } else {
        SpawnCommand::Sphere {
            x: (p / 0x1_0000_0000_0000_0000_0000_0000) as u32,
            y: (p / 0x1_0000_0000_0000_0000 % 0x1_0000_0000) as u32,
            z: (p / 0x1_0000_0000 % 0x1_0000_0000) as u32,
            r: (p % 0x1_0000_0000) as u32,
        }
    }
}

impl SpawnCommand {
    pub fn encode(&self) -> (p: u128)
        ensures
            p == encoding(*self),
    {
        match self {
            SpawnCommand::Sphere { x, y, z, r } => {
                let (x, y, z, r) = (*x as u128, *y as u128, *z as u128, *r as u128);
                assert((x << 96u128) | (y << 64u128) | (z << 32u128) | r == x * 0x1_0000_0000_0000_0000_0000_0000
                    + y * 0x1_0000_0000_0000_0000 + z * 0x1_0000_0000 + r) by (bit_vector)
                    requires
                        x < 0x1_0000_0000,
                        y < 0x1_0000_0000,
                        z < 0x1_0000_0000,
                        r < 0x1_0000_0000,
                ;
                (x << 96u128) | (y << 64u128) | (z << 32u128) | r
            },
            SpawnCommand::Clear => CLEAR_CODE,
        }
    }

    pub fn decode(packed: u128) -> (c: SpawnCommand)
        ensures
            c == decoding(packed),
    {
        if packed == CLEAR_CODE {
            return SpawnCommand::Clear;
        }
        let p = packed;
        assert((p >> 96u128) as u32 == (p / 0x1_0000_0000_0000_0000_0000_0000) as u32) by (bit_vector);
        assert((p >> 64u128) as u32 == (p / 0x1_0000_0000_0000_0000 % 0x1_0000_0000) as u32) by (bit_vector);
        assert((p >> 32u128) as u32 == (p / 0x1_0000_0000 % 0x1_0000_0000) as u32) by (bit_vector);
        assert(p as u32 == (p % 0x1_0000_0000) as u32) by (bit_vector);
        SpawnCommand::Sphere {
            x: (p >> 96u128) as u32,
            y: (p >> 64u128) as u32,
            z: (p >> 32u128) as u32,
            r: p as u32,
        }
    }
}

/// Decoding undoes encoding for every directive but the one sphere whose
/// packed value is the clear code (zero centre bits, radius bits 69420).
pub proof fn lemma_decode_encode(c: SpawnCommand)
    requires
        encoding(c) != CLEAR_CODE || c is Clear,
    ensures
        0 <= encoding(c) <= u128::MAX,
        decoding(encoding(c) as u128) == c,
{
    if let SpawnCommand::Sphere { x, y, z, r } = c {
        let p = encoding(c);
        let (xx, yy, zz, rr) = (x as u128, y as u128, z as u128, r as u128);
        assert(xx * 0x1_0000_0000_0000_0000_0000_0000 + yy * 0x1_0000_0000_0000_0000 + zz * 0x1_0000_0000 + rr
            <= 0xffff_ffff_ffff_ffff_ffff_ffff_ffff_ffff) by (nonlinear_arith)
            requires
                xx < 0x1_0000_0000,
                yy < 0x1_0000_0000,
                zz < 0x1_0000_0000,
                rr < 0x1_0000_0000,
        ;
        let q = p as u128;
        assert(q == xx * 0x1_0000_0000_0000_0000_0000_0000 + yy * 0x1_0000_0000_0000_0000 + zz * 0x1_0000_0000 + rr);
        assert(q / 0x1_0000_0000_0000_0000_0000_0000 == xx && q / 0x1_0000_0000_0000_0000 % 0x1_0000_0000 == yy && q
            / 0x1_0000_0000 % 0x1_0000_0000 == zz && q % 0x1_0000_0000 == rr) by (bit_vector)
            requires
                xx < 0x1_0000_0000,
                yy < 0x1_0000_0000,
                zz < 0x1_0000_0000,
                rr < 0x1_0000_0000,
                q == xx * 0x1_0000_0000_0000_0000_0000_0000 + yy * 0x1_0000_0000_0000_0000 + zz * 0x1_0000_0000 + rr,
        ;
    }
}

/// Encoding undoes decoding for every packed value.
pub proof fn lemma_encode_decode(p: u128)
    ensures
        encoding(decoding(p)) == p,
{
    if p != CLEAR_CODE {
        let x = p / 0x1_0000_0000_0000_0000_0000_0000;
        let y = p / 0x1_0000_0000_0000_0000 % 0x1_0000_0000;
        let z = p / 0x1_0000_0000 % 0x1_0000_0000;
        let r = p % 0x1_0000_0000;
        assert(p == x * 0x1_0000_0000_0000_0000_0000_0000 + y * 0x1_0000_0000_0000_0000 + z * 0x1_0000_0000 + r)
            by (bit_vector)
            requires
                x == p / 0x1_0000_0000_0000_0000_0000_0000,
                y == p / 0x1_0000_0000_0000_0000 % 0x1_0000_0000,
                z == p / 0x1_0000_0000 % 0x1_0000_0000,
                r == p % 0x1_0000_0000,
        ;
    }
}

} // verus!
