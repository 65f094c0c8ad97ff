//! Recorded player identities and their replication roster indices.
use std::collections::BTreeMap;

use super::bits::{bits_value, Bits};
use crate::clients::hi::film::{
    add_player, chunks_addressable, find_bit_pattern, le_bytes_of, lemma_player_table_increasing,
    pattern_positions, player_table, players_view, roster_entries, roster_entry_at,
    u64_le_bytes, xuids_increase, FilmPlayer,
};
use crate::clients::hi::models::FilmChunkData;
use vstd::prelude::*;

verus! {

/// The two roster markers, in precedence order.
pub open spec fn roster_marker(k: int) -> Seq<u8> {
    if k == 0 {
        seq![0x2du8, 0xc0u8]
    } else {
        seq![0x25u8, 0xc0u8]
    }
}

/// Roster entries of one chunk: every entry at the first marker, then every entry at
/// the second, each in bit order.
pub open spec fn chunk_roster(data: Seq<u8>) -> Seq<(u64, Seq<char>)> {
    roster_entries(data, pattern_positions(data, roster_marker(0))) + roster_entries(
        data,
        pattern_positions(data, roster_marker(1)),
    )
}

/// Roster entries of every chunk except the footer (manifest type 3), in order.
pub open spec fn all_chunk_rosters(chunks: Seq<FilmChunkData>) -> Seq<(u64, Seq<char>)>
    decreases chunks.len(),
{
    if chunks.len() == 0 {
        seq![]
    } else {
        all_chunk_rosters(chunks.drop_last()) + if chunks.last().metadata.chunk_type != 3 {
            chunk_roster(chunks.last().data@)
        } else {
            seq![]
        }
    }
}

/// Recorded identities from the checked name, padding, XUID and marker layout: one
/// per XUID (the first recorded), ordered by XUID.
pub fn decode_players(chunks: &[FilmChunkData]) -> (r: Vec<FilmPlayer>)
    requires
        chunks_addressable(chunks@),
    ensures
        players_view(r@) == player_table(all_chunk_rosters(chunks@)),
        xuids_increase(players_view(r@)),
{
    let mut players: Vec<FilmPlayer> = Vec::new();
    let markers: Vec<Vec<u8>> = vec![vec![0x2du8, 0xc0u8], vec![0x25u8, 0xc0u8]];
    let ghost mut seen: Seq<(u64, Seq<char>)> = seq![];
    let mut c: usize = 0;
    while c < chunks.len()
        invariant
            c <= chunks@.len(),
            chunks_addressable(chunks@),
            markers@.len() == 2,
            markers@[0]@ == roster_marker(0),
            markers@[1]@ == roster_marker(1),
            seen == all_chunk_rosters(chunks@.subrange(0, c as int)),
            players_view(players@) == player_table(seen),
        decreases chunks@.len() - c,
    {
        let chunk = &chunks[c];
        let ghost before = seen;
        proof {
            assert(chunks@.subrange(0, c + 1).drop_last() =~= chunks@.subrange(0, c as int));
            assert(chunks@[c as int].data@.len() * 8 + 64 <= usize::MAX);
        }
        if chunk.metadata.chunk_type != 3 {
            let data = chunk.data.as_slice();
            let mut mk: usize = 0;
            while mk < 2
                invariant
                    mk <= 2,
                    data@ == chunk.data@,
                    data@.len() * 8 + 64 <= usize::MAX,
                    markers@.len() == 2,
                    markers@[0]@ == roster_marker(0),
                    markers@[1]@ == roster_marker(1),
                    mk == 0 ==> seen == before,
                    mk == 1 ==> seen == before + roster_entries(data@, pattern_positions(data@, roster_marker(0))),
                    mk == 2 ==> seen == before + chunk_roster(data@),
                    players_view(players@) == player_table(seen),
                decreases 2 - mk,
            {
                let positions = find_bit_pattern(data, markers[mk].as_slice());
                let ghost at_marker = seen;
                let mut t: usize = 0;
                while t < positions.len()
                    invariant
                        t <= positions@.len(),
                        data@ == chunk.data@,
                        data@.len() * 8 + 64 <= usize::MAX,
                        seen == at_marker + roster_entries(data@, positions@.subrange(0, t as int)),
                        players_view(players@) == player_table(seen),
                    decreases positions@.len() - t,
                {
                    let ghost prev = seen;
                    proof {
                        assert(positions@.subrange(0, t + 1).drop_last() =~= positions@.subrange(0, t as int));
                    }
                    match roster_entry_at(data, positions[t]) {
                        Some((xuid, gamertag)) => {
                            proof {
                                seen = seen.push((xuid, gamertag@));
                                assert(seen.drop_last() =~= prev);
                            }
                            add_player(&mut players, xuid, gamertag);
                        },
                        None => {},
                    }
                    proof {
                        assert(seen =~= at_marker + roster_entries(data@, positions@.subrange(0, t + 1)));
                    }
                    t += 1;
                }
                proof {
                    assert(positions@.subrange(0, positions@.len() as int) =~= positions@);
                    if mk == 1 {
                        assert(seen =~= before + chunk_roster(data@));
                    }
                }
                mk += 1;
            }
        } else {
            proof {
                assert(seen =~= before + Seq::<(u64, Seq<char>)>::empty());
            }
        }
        c += 1;
    }
    proof {
        assert(chunks@.subrange(0, chunks@.len() as int) =~= chunks@);
        lemma_player_table_increasing(seen);
    }
    players
}

/// One player's index step in a chunk: unless already indexed, the five bits just
/// before the first occurrence of the player's little-endian XUID.
pub open spec fn roster_index_step(m: Map<u64, u8>, data: Seq<u8>, xuid: u64) -> Map<u64, u8> {
    if m.contains_key(xuid) {
        m
    } else if pattern_positions(data, le_bytes_of(xuid as nat, 8)).len() == 0 {
        m
    } else if pattern_positions(data, le_bytes_of(xuid as nat, 8))[0] < 5 {
        m
    } else {
        m.insert(xuid, bits_value(data, pattern_positions(data, le_bytes_of(xuid as nat, 8))[0] - 5, 5) as u8)
    }
}

pub open spec fn roster_chunk_indices(m: Map<u64, u8>, data: Seq<u8>, players: Seq<FilmPlayer>) -> Map<u64, u8>
    decreases players.len(),
{
    if players.len() == 0 {
        m
    } else {
        roster_index_step(roster_chunk_indices(m, data, players.drop_last()), data, players.last().xuid)
    }
}

/// Replication indices found across the replication chunks (manifest type 2), in order.
pub open spec fn roster_indices_spec(chunks: Seq<FilmChunkData>, players: Seq<FilmPlayer>) -> Map<u64, u8>
    decreases chunks.len(),
{
    if chunks.len() == 0 {
        Map::empty()
    } else if chunks.last().metadata.chunk_type == 2 {
        roster_chunk_indices(roster_indices_spec(chunks.drop_last(), players), chunks.last().data@, players)
    } else {
        roster_indices_spec(chunks.drop_last(), players)
    }
}

/// Finds the recorded five-bit replication index preceding each known XUID.
pub fn decode_player_indices(chunks: &[FilmChunkData], players: &[FilmPlayer]) -> (r: BTreeMap<u64, u8>)
    requires
        chunks_addressable(chunks@),
    ensures
        r@ == roster_indices_spec(chunks@, players@),
{
    let mut indices: BTreeMap<u64, u8> = BTreeMap::new();
    let mut c: usize = 0;
    while c < chunks.len()
        invariant
            c <= chunks@.len(),
            chunks_addressable(chunks@),
            indices@ == roster_indices_spec(chunks@.subrange(0, c as int), players@),
        decreases chunks@.len() - c,
    {
        let chunk = &chunks[c];
        let ghost before = indices@;
        proof {
            assert(chunks@.subrange(0, c + 1).drop_last() =~= chunks@.subrange(0, c as int));
            assert(chunks@[c as int].data@.len() * 8 + 64 <= usize::MAX);
        }
        if chunk.metadata.chunk_type == 2 {
            let data = chunk.data.as_slice();
            let bits = Bits(data);
            let mut k: usize = 0;
            while k < players.len()
                invariant
                    k <= players@.len(),
                    data@ == chunk.data@,
                    bits@ == data@,
                    data@.len() * 8 + 64 <= usize::MAX,
                    indices@ == roster_chunk_indices(before, data@, players@.subrange(0, k as int)),
                decreases players@.len() - k,
            {
                let player = &players[k];
                proof {
                    assert(players@.subrange(0, k + 1).drop_last() =~= players@.subrange(0, k as int));
                }
                if !indices.contains_key(&player.xuid) {
                    let xuid = u64_le_bytes(player.xuid);
                    let positions = find_bit_pattern(data, xuid.as_slice());
                    if positions.len() > 0 && positions[0] >= 5 {
                        proof {
                            crate::clients::hi::film::lemma_pattern_position_in_range(data@, xuid@, positions@);
                            crate::theater::bits::lemma_bits_bound(data@, positions@[0] - 5, 5);
                            vstd::arithmetic::power2::lemma2_to64();
                        }
                        let v = bits.read(positions[0] - 5, 5).unwrap();
                        indices.insert(player.xuid, v as u8);
                    }
                }
                k += 1;
            }
            proof {
                assert(players@.subrange(0, players@.len() as int) =~= players@);
            }
        }
        c += 1;
    }
    proof {
        assert(chunks@.subrange(0, chunks@.len() as int) =~= chunks@);
    }
    indices
}

} // verus!
