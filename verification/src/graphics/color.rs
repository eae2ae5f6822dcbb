use vstd::prelude::*;

verus! {

/// The red, green, blue and alpha bytes of a hexadecimal color: `0xRRGGBB` (opaque) when
/// it fits in 24 bits, `0xRRGGBBAA` otherwise.
pub open spec fn srgba_of_hex(hex: u32) -> Seq<u8> {
    if hex <= 0xffffff {
        seq![((hex / 0x10000) % 0x100) as u8, ((hex / 0x100) % 0x100) as u8, (hex % 0x100) as u8, 255u8]
    } else {
        seq![
            ((hex / 0x1000000) % 0x100) as u8,
            ((hex / 0x10000) % 0x100) as u8,
            ((hex / 0x100) % 0x100) as u8,
            (hex % 0x100) as u8,
        ]
    }
}

/// Law: the bytes of a hexadecimal color put back together give the number again. An
/// `0xRRGGBBAA` color is its four bytes read big-endian; an `0xRRGGBB` color is its first
/// three bytes read big-endian, with the alpha byte fully opaque.
pub proof fn law_hex_bytes_recompose(hex: u32)
    ensures
        hex > 0xffffff ==> srgba_of_hex(hex)[0] * 0x1000000 + srgba_of_hex(hex)[1] * 0x10000
            + srgba_of_hex(hex)[2] * 0x100 + srgba_of_hex(hex)[3] == hex,
        hex <= 0xffffff ==> srgba_of_hex(hex)[0] * 0x10000 + srgba_of_hex(hex)[1] * 0x100
            + srgba_of_hex(hex)[2] == hex && srgba_of_hex(hex)[3] == 255,
{
    assert((hex >> 24u32) & 0xff == (hex / 0x1000000) % 0x100) by (bit_vector);
    assert((hex >> 16u32) & 0xff == (hex / 0x10000) % 0x100) by (bit_vector);
    assert((hex >> 8u32) & 0xff == (hex / 0x100) % 0x100) by (bit_vector);
    assert(hex & 0xff == hex % 0x100) by (bit_vector);
    assert(((hex >> 24u32) & 0xff) * 0x1000000 + ((hex >> 16u32) & 0xff) * 0x10000
        + ((hex >> 8u32) & 0xff) * 0x100 + (hex & 0xff) == hex) by (bit_vector);
    assert(hex <= 0xffffff ==> ((hex >> 16u32) & 0xff) * 0x10000 + ((hex >> 8u32) & 0xff) * 0x100
        + (hex & 0xff) == hex) by (bit_vector);
}

/// Splits a hexadecimal RGB or RGBA number into its sRGB bytes.
pub fn hex_to_srgba(hex: u32) -> (r: [u8; 4])
    ensures
        r@ == srgba_of_hex(hex),
        hex > 0xffffff ==> r[0] * 0x1000000 + r[1] * 0x10000 + r[2] * 0x100 + r[3] == hex,
        hex <= 0xffffff ==> r[0] * 0x10000 + r[1] * 0x100 + r[2] == hex && r[3] == 255,
{
    proof {
        law_hex_bytes_recompose(hex);
    }
    assert((hex >> 24u32) & 0xff == (hex / 0x1000000) % 0x100) by (bit_vector);
    assert((hex >> 16u32) & 0xff == (hex / 0x10000) % 0x100) by (bit_vector);
    assert((hex >> 8u32) & 0xff == (hex / 0x100) % 0x100) by (bit_vector);
    assert(hex & 0xff == hex % 0x100) by (bit_vector);
    let r: [u8; 4] = if hex <= 0xffffff {
        [((hex >> 16u32) & 0xff) as u8, ((hex >> 8u32) & 0xff) as u8, (hex & 0xff) as u8, 255u8]
    } else {
        [((hex >> 24u32) & 0xff) as u8, ((hex >> 16u32) & 0xff) as u8, ((hex >> 8u32) & 0xff) as u8, (hex & 0xff) as u8]
    };
    assert(r@ =~= srgba_of_hex(hex));
    r
}

} // verus!
