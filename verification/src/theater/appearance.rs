//! The player customization window of a roster snapshot.
use super::bits::{bit_len, matches_spec, read_spec, Bits};
use super::summary::{le_bits, lemma_le_bits_bound, read_le_bits, valid_name};
use super::types::{ArmorAppearance, ArmorAttachments, ArmorRegion};
use crate::text::{
    char_is_control, decode_utf16_units, is_control, string_from_chars, trim_both, trimmed,
    utf16_strict, CharClass,
};
use vstd::prelude::*;

verus! {

/// A 32-bit two's-complement value.
pub open spec fn as_i32(v: nat) -> i32 {
    if v < 0x8000_0000 {
        v as i32
    } else {
        (v - 0x1_0000_0000) as i32
    }
}

/// A little-endian signed 32-bit identifier at bit `at`.
pub open spec fn id_spec(p: Seq<u8>, at: int) -> i32 {
    as_i32(le_bits(p, at, 4))
}

/// The 22 base regions, 64 bits apart from 110 bits after the marker: region id,
/// then permutation id.
pub open spec fn regions_spec(p: Seq<u8>, o: int) -> Seq<ArmorRegion> {
    Seq::new(
        22,
        |i: int| ArmorRegion { region_id: id_spec(p, o + 110 + 64 * i), permutation_id: id_spec(p, o + 142 + 64 * i) },
    )
}

/// Region ids that are all non-zero and distinct.
pub open spec fn distinct_regions(r: Seq<ArmorRegion>) -> bool {
    (forall|i: int| 0 <= i < r.len() ==> (#[trigger] r[i]).region_id != 0) && forall|i: int, j: int|
        0 <= i < j < r.len() ==> (#[trigger] r[i]).region_id != (#[trigger] r[j]).region_id
}

/// The sixteen little-endian name units 488 bits before the marker.
pub open spec fn snapshot_units(p: Seq<u8>, o: int) -> Seq<u16> {
    Seq::new(16, |i: int| le_bits(p, o - 488 + 16 * i, 2) as u16)
}

/// The recorded name: strict UTF-16 of all sixteen units, with NULs and then
/// whitespace trimmed from both ends; non-empty and free of control characters.
pub open spec fn snapshot_name(p: Seq<u8>, o: int) -> Option<Seq<char>> {
    match utf16_strict(snapshot_units(p, o)) {
        None => None,
        Some(cs) => {
            let n = trim_both(trim_both(cs, CharClass::Nul), CharClass::Whitespace);
            if valid_name(n) {
                Some(n)
            } else {
                None
            }
        },
    }
}

/// The fixed frame of a snapshot at roster marker `o`: at least 488 bits before it,
/// the marker `0010110111000000`, a 30-bit flag of at most 1, 22 base regions, 56
/// zero bits, 21 zero bytes from 232 bits before the marker, and room for every field.
pub open spec fn snapshot_frame(p: Seq<u8>, o: int) -> bool {
    o >= 488 && matches_spec(p, o, 0x2dc0, 16) && read_spec(p, o + 16, 30) is Some && read_spec(
        p,
        o + 16,
        30,
    )->0 <= 1 && read_spec(p, o + 46, 8) == Some(22u64) && read_spec(p, o + 54, 56) == Some(0u64)
        && (forall|i: int| 0 <= i < 21 ==> #[trigger] read_spec(p, o - 232 + 8 * i, 8) == Some(0u64))
        && o + 2638 <= bit_len(p)
}

/// A customization snapshot at roster marker `o`: the frame, a non-zero XUID in the
/// eight little-endian bytes before the marker, the recorded name, distinct non-zero
/// region ids, and the visor, colour, variant, coating, attachment and mythic-effect
/// identifiers at their offsets.
pub open spec fn snapshot_spec(p: Seq<u8>, o: int) -> Option<(u64, Seq<char>)> {
    if !snapshot_frame(p, o) || le_bits(p, o - 64, 8) == 0 || !distinct_regions(regions_spec(p, o)) {
        None
    } else {
        match snapshot_name(p, o) {
            Some(name) => Some((le_bits(p, o - 64, 8) as u64, name)),
            None => None,
        }
    }
}

/// The identifiers of a snapshot's appearance at marker `o`.
pub open spec fn appearance_matches(p: Seq<u8>, o: int, a: ArmorAppearance) -> bool {
    a.regions@ == regions_spec(p, o) && a.visor_id == id_spec(p, o + 2318) && a.visor_color_id
        == id_spec(p, o + 2414) && a.armor_variant_id == id_spec(p, o + 2574) && a.coating_style_id
        == id_spec(p, o + 2606) && a.attachments == Some(
        ArmorAttachments {
            chest_tag_id: id_spec(p, o + 2030),
            utility_tag_id: id_spec(p, o + 2094),
            wrist_tag_id: id_spec(p, o + 2126),
            left_shoulder_tag_id: id_spec(p, o + 2158),
            right_shoulder_tag_id: id_spec(p, o + 2190),
        },
    ) && a.mythic_effect_ids == Some(
        [id_spec(p, o + 2446), id_spec(p, o + 2478), id_spec(p, o + 2510), id_spec(p, o + 2542)],
    )
}

fn id(bits: Bits, at: usize) -> (r: i32)
    requires
        at + 32 <= bit_len(bits@),
        bits@.len() * 8 + 64 <= usize::MAX,
    ensures
        r == id_spec(bits@, at as int),
{
    proof {
        lemma_le_bits_bound(bits@, at as int, 4);
        vstd::arithmetic::power2::lemma2_to64();
    }
    let v = read_le_bits(bits, at, 4);
    if v < 0x8000_0000 {
        v as i32
    } else {
        ((v - 0x8000_0000) as i32) - 0x7fff_ffff - 1
    }
}

pub fn snapshot(bits: Bits, o: usize) -> (r: Option<(u64, String, ArmorAppearance)>)
    requires
        bits@.len() * 8 + 4096 <= usize::MAX,
    ensures
        match snapshot_spec(bits@, o as int) {
            Some((xuid, name)) => r matches Some(x) && x.0 == xuid && x.1@ == name && appearance_matches(bits@, o as int, x.2),
            None => r is None,
        },
{
    let n = bits.len();
    if o < 488 || o > n || n - o < 2638 {
        return None;
    }
    if !bits.matches(o, 0x2dc0, 16) {
        return None;
    }
    match bits.read(o + 16, 30) {
        Some(v) => if v > 1 {
            return None;
        },
        None => return None,
    }
    match bits.read(o + 46, 8) {
        Some(22) => {},
        _ => return None,
    }
    match bits.read(o + 54, 56) {
        Some(0) => {},
        _ => return None,
    }
    let mut i: usize = 0;
    while i < 21
        invariant
            488 <= o,
            o + 2638 <= n == bit_len(bits@),
            i <= 21,
            forall|k: int| 0 <= k < i ==> #[trigger] read_spec(bits@, o - 232 + 8 * k, 8) == Some(0u64),
        decreases 21 - i,
    {
        match bits.read(o - 232 + 8 * i, 8) {
            Some(0) => {},
            _ => return None,
        }
        i += 1;
    }
    assert(snapshot_frame(bits@, o as int));
    let xuid = read_le_bits(bits, o - 64, 8);
    if xuid == 0 {
        return None;
    }
    let mut regions: Vec<ArmorRegion> = Vec::new();
    let ghost want = regions_spec(bits@, o as int);
    let mut i: usize = 0;
    while i < 22
        invariant
            488 <= o,
            o + 2638 <= n == bit_len(bits@),
            bits@.len() * 8 + 4096 <= usize::MAX,
            i <= 22,
            want == regions_spec(bits@, o as int),
            regions@ == want.subrange(0, i as int),
            distinct_regions(regions@),
        decreases 22 - i,
    {
        let region_id = id(bits, o + 110 + 64 * i);
        let mut j: usize = 0;
        while j < i
            invariant
                i < 22,
                j <= i,
                regions@.len() == i,
                want.len() == 22,
                want == regions_spec(bits@, o as int),
                regions@ == want.subrange(0, i as int),
                region_id == want[i as int].region_id,
                forall|k: int| 0 <= k < j ==> (#[trigger] regions@[k]).region_id != region_id,
            decreases i - j,
        {
            if regions[j].region_id == region_id {
                proof {
                    assert(!distinct_regions(want)) by {
                        assert(regions@[j as int] == want[j as int]);
                        assert(want[j as int].region_id == want[i as int].region_id);
                    }
                }
                return None;
            }
            j += 1;
        }
        if region_id == 0 {
            proof {
                assert(!distinct_regions(want)) by {
                    assert(want[i as int].region_id == 0);
                }
            }
            return None;
        }
        let permutation_id = id(bits, o + 142 + 64 * i);
        regions.push(ArmorRegion { region_id, permutation_id });
        i += 1;
        proof {
            assert(regions@ =~= want.subrange(0, i as int));
        }
    }
    proof {
        assert(regions@ =~= want);
    }
    let mut units: Vec<u16> = Vec::new();
    let ghost u = snapshot_units(bits@, o as int);
    let mut i: usize = 0;
    while i < 16
        invariant
            488 <= o,
            o + 2638 <= n == bit_len(bits@),
            bits@.len() * 8 + 4096 <= usize::MAX,
            i <= 16,
            u == snapshot_units(bits@, o as int),
            units@ == u.subrange(0, i as int),
        decreases 16 - i,
    {
        proof {
            lemma_le_bits_bound(bits@, o - 488 + 16 * i, 2);
            vstd::arithmetic::power2::lemma2_to64();
        }
        let unit = read_le_bits(bits, o - 488 + 16 * i, 2) as u16;
        units.push(unit);
        i += 1;
        proof {
            assert(units@ =~= u.subrange(0, i as int));
        }
    }
    proof {
        assert(units@ =~= u);
    }
    let chars = match decode_utf16_units(units.as_slice(), true) {
        Some(c) => c,
        None => return None,
    };
    let name = trimmed(&trimmed(&chars, CharClass::Nul), CharClass::Whitespace);
    if name.len() == 0 {
        return None;
    }
    proof {
        assert(snapshot_spec(bits@, o as int) == (if valid_name(name@) {
            Some((xuid, name@))
        } else {
            None::<(u64, Seq<char>)>
        }));
    }
    let mut j: usize = 0;
    while j < name.len()
        invariant
            j <= name@.len(),
            snapshot_spec(bits@, o as int) == (if valid_name(name@) {
                Some((xuid, name@))
            } else {
                None::<(u64, Seq<char>)>
            }),
            forall|k: int| 0 <= k < j ==> !is_control(#[trigger] name@[k]),
        decreases name@.len() - j,
    {
        if char_is_control(name[j]) {
            assert(!valid_name(name@)) by {
                assert(is_control(name@[j as int]));
            }
            return None;
        }
        j += 1;
    }
    let appearance = ArmorAppearance {
        regions,
        visor_id: id(bits, o + 2318),
        visor_color_id: id(bits, o + 2414),
        armor_variant_id: id(bits, o + 2574),
        coating_style_id: id(bits, o + 2606),
        attachments: Some(ArmorAttachments {
            chest_tag_id: id(bits, o + 2030),
            utility_tag_id: id(bits, o + 2094),
            wrist_tag_id: id(bits, o + 2126),
            left_shoulder_tag_id: id(bits, o + 2158),
            right_shoulder_tag_id: id(bits, o + 2190),
        }),
        mythic_effect_ids: Some([id(bits, o + 2446), id(bits, o + 2478), id(bits, o + 2510), id(bits, o + 2542)]),
    };
    Some((xuid, string_from_chars(&name), appearance))
}

} // verus!
