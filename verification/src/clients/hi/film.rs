//! Decoder for Halo Infinite Theater film chunks: the bootstrap component
//! registry, FRAME record headers, packet framing, recorded roster identities
//! and footer highlight events.
use std::collections::BTreeMap;

use super::models::FilmChunkData;
use crate::text::{
    chars_of, copy_range, decode_utf16_units, push_char, string_from_chars, trim_both, trimmed,
    utf16_lossy, CharClass,
};
use crate::theater::bits::{bit_of, bits_value, Bits};
use crate::theater::summary::{by_index, chunks_at, index_order};
use vstd::prelude::*;

verus! {

pub const REGISTRY_SLOT_SIZE: usize = 260;

pub const REGISTRY_BLOCK_SLOTS: usize = 64;

pub const REGISTRY_BLOCK_SIZE: usize = 16640;

/// Ordered replication components for one ECS entity archetype.
#[derive(Debug, Clone, PartialEq, Eq)]
pub struct FilmArchetype {
    pub index: usize,
    pub components: Vec<String>,
}

/// Entity-component schema serialized in a Theater film's bootstrap chunk.
#[derive(Debug, Clone, PartialEq, Eq)]
pub struct FilmRegistry {
    pub archetypes: Vec<FilmArchetype>,
}

/// The texts of a list of strings.
pub open spec fn texts(v: Seq<String>) -> Seq<Seq<char>> {
    v.map_values(|s: String| s@)
}

impl FilmRegistry {
    /// The archetype at `index`, if the registry has one.
    pub fn archetype(&self, index: usize) -> (r: Option<&FilmArchetype>)
        ensures
            index < self.archetypes@.len() ==> r == Some(&self.archetypes@[index as int]),
            index >= self.archetypes@.len() ==> r is None,
    {
        if index < self.archetypes.len() {
            Some(&self.archetypes[index])
        } else {
            None
        }
    }
}

/// A printable, non-space ASCII byte.
pub open spec fn is_ascii_graphic(b: u8) -> bool {
    0x21 <= b <= 0x7E
}

/// Index of the first zero byte at or after `i`, or the length.
pub open spec fn first_zero(s: Seq<u8>, i: int) -> int
    decreases s.len() - i,
{
    if i >= s.len() {
        s.len() as int
    } else if s[i] == 0 {
        i
    } else {
        first_zero(s, i + 1)
    }
}

/// The component name stored in a registry slot: the bytes after the eight-byte
/// slot header up to the first zero, accepted when non-empty and all graphic ASCII.
pub open spec fn slot_name_spec(slot: Seq<u8>) -> Option<Seq<char>> {
    if slot.len() < 8 {
        None
    } else if slot_name_bytes(slot).len() > 0 && all_graphic(slot_name_bytes(slot)) {
        Some(slot_name_bytes(slot).map_values(|b: u8| b as char))
    } else {
        None
    }
}

/// The bytes after the slot header, up to the first zero.
pub open spec fn slot_name_bytes(slot: Seq<u8>) -> Seq<u8> {
    let bytes = slot.subrange(8, slot.len() as int);
    bytes.subrange(0, first_zero(bytes, 0))
}

pub open spec fn all_graphic(s: Seq<u8>) -> bool {
    forall|i: int| 0 <= i < s.len() ==> is_ascii_graphic(#[trigger] s[i])
}

/// Slot `j` of registry block `block`.
pub open spec fn registry_slot(data: Seq<u8>, block: int, j: int) -> Seq<u8> {
    data.subrange(block * 16640 + j * 260, block * 16640 + (j + 1) * 260)
}

/// Names of consecutive named slots of a block, from slot `j` to the first unnamed one.
pub open spec fn block_components(data: Seq<u8>, block: int, j: nat) -> Seq<Seq<char>>
    decreases 64 - j,
{
    if j >= 64 {
        seq![]
    } else {
        match slot_name_spec(registry_slot(data, block, j as int)) {
            Some(n) => seq![n] + block_components(data, block, j + 1),
            None => seq![],
        }
    }
}

/// A printable, non-space ASCII character.
pub open spec fn is_graphic_char(c: char) -> bool {
    0x21 <= (c as int) <= 0x7E
}

proof fn lemma_block_component_names(data: Seq<u8>, block: int, j: nat)
    ensures
        forall|c: int| 0 <= c < block_components(data, block, j).len() ==> {
            &&& (#[trigger] block_components(data, block, j)[c]).len() > 0
            &&& forall|i: int| 0 <= i < block_components(data, block, j)[c].len() ==> is_graphic_char(block_components(data, block, j)[c][i])
        },
    decreases 64 - j,
{
    if j < 64 {
        lemma_block_component_names(data, block, j + 1);
        let slot = registry_slot(data, block, j as int);
        match slot_name_spec(slot) {
            Some(n) => {
                let b = slot_name_bytes(slot);
                assert forall|i: int| 0 <= i < n.len() implies is_graphic_char(n[i]) by {
                    assert(is_ascii_graphic(b[i]));
                    assert(n[i] == b[i] as char);
                }
                let r = block_components(data, block, j);
                let rest = block_components(data, block, j + 1);
                assert forall|c: int| 0 <= c < r.len() implies {
                    &&& (#[trigger] r[c]).len() > 0
                    &&& forall|i: int| 0 <= i < r[c].len() ==> is_graphic_char(r[c][i])
                } by {
                    if c > 0 {
                        assert(r[c] == rest[c - 1]);
                    }
                }
            },
            None => {},
        }
    }
}

/// In a registry decoded from a bootstrap chunk, archetype `k` carries index `k`, and
/// each of its component names is a non-empty run of printable, non-space ASCII.
pub proof fn lemma_registry_names(reg: FilmRegistry, data: Seq<u8>, k: int, c: int)
    requires
        registry_matches(reg, data),
        0 <= k < reg.archetypes@.len(),
        0 <= c < reg.archetypes@[k].components@.len(),
    ensures
        reg.archetypes@[k].index == k,
        reg.archetypes@[k].components@[c]@.len() > 0,
        forall|i: int| 0 <= i < reg.archetypes@[k].components@[c]@.len() ==> is_graphic_char(#[trigger] reg.archetypes@[k].components@[c]@[i]),
{
    lemma_block_component_names(data, k, 0);
    let a = reg.archetypes@[k];
    assert(texts(a.components@) == block_components(data, k, 0));
    assert(texts(a.components@)[c] == a.components@[c]@);
}

/// The registry a bootstrap chunk's bytes describe: one archetype per complete block.
pub open spec fn registry_matches(r: FilmRegistry, data: Seq<u8>) -> bool {
    &&& r.archetypes@.len() == data.len() / 16640
    &&& archetypes_match(r.archetypes@, data)
}

/// Archetype `k` is block `k`, with the block's leading named slots as components.
pub open spec fn archetypes_match(archetypes: Seq<FilmArchetype>, data: Seq<u8>) -> bool {
    forall|k: int|
        0 <= k < archetypes.len() ==> (#[trigger] archetypes[k]).index == k && texts(
            archetypes[k].components@,
        ) == block_components(data, k, 0)
}

/// Index of the chunk of the given manifest type with the lowest manifest index (the
/// earliest of chunks with equal indices), so the choice does not depend on the order
/// in which the chunks are listed.
pub open spec fn lowest_of_type(chunks: Seq<FilmChunkData>, chunk_type: i32) -> Option<int>
    decreases chunks.len(),
{
    if chunks.len() == 0 {
        None
    } else {
        let prior = lowest_of_type(chunks.drop_last(), chunk_type);
        if chunks.last().metadata.chunk_type != chunk_type {
            prior
        } else {
            match prior {
                None => Some(chunks.len() - 1),
                Some(i) => if chunks.last().metadata.index < chunks[i].metadata.index {
                    Some(chunks.len() - 1)
                } else {
                    Some(i)
                },
            }
        }
    }
}

pub proof fn lemma_lowest_of_type(chunks: Seq<FilmChunkData>, chunk_type: i32)
    ensures
        lowest_of_type(chunks, chunk_type) matches Some(i) ==> {
            &&& 0 <= i < chunks.len() && chunks[i].metadata.chunk_type == chunk_type
            &&& forall|k: int| 0 <= k < chunks.len() && chunks[k].metadata.chunk_type == chunk_type
                ==> chunks[i].metadata.index <= (#[trigger] chunks[k]).metadata.index
        },
        lowest_of_type(chunks, chunk_type) is None ==> forall|k: int| 0 <= k < chunks.len() ==> (#[trigger] chunks[k]).metadata.chunk_type != chunk_type,
    decreases chunks.len(),
{
    if chunks.len() > 0 {
        let d = chunks.drop_last();
        lemma_lowest_of_type(d, chunk_type);
        assert forall|k: int| 0 <= k < d.len() implies d[k] == chunks[k] by {}
    }
}

/// Index of the chunk of this manifest type with the lowest manifest index.
pub fn find_chunk_of_type(chunks: &[FilmChunkData], chunk_type: i32) -> (r: Option<usize>)
    ensures
        r matches Some(i) ==> i < chunks@.len() && lowest_of_type(chunks@, chunk_type) == Some(i as int),
        r is None ==> lowest_of_type(chunks@, chunk_type) is None,
{
    let mut best: Option<usize> = None;
    let mut i: usize = 0;
    proof {
        assert(chunks@.subrange(0, 0) =~= Seq::<FilmChunkData>::empty());
    }
    while i < chunks.len()
        invariant
            i <= chunks@.len(),
            best matches Some(j) ==> j < i,
            lowest_of_type(chunks@.subrange(0, i as int), chunk_type) == match best {
                Some(j) => Some(j as int),
                None => None,
            },
        decreases chunks@.len() - i,
    {
        proof {
            let s = chunks@.subrange(0, i + 1);
            assert(s.drop_last() =~= chunks@.subrange(0, i as int));
            assert(s.last() == chunks@[i as int]);
            match best {
                Some(j) => {
                    assert(s[j as int] == chunks@[j as int]);
                },
                None => {},
            }
        }
        if chunks[i].metadata.chunk_type == chunk_type {
            best = match best {
                None => Some(i),
                Some(j) => if chunks[i].metadata.index < chunks[j].metadata.index {
                    Some(i)
                } else {
                    Some(j)
                },
            };
        }
        i += 1;
    }
    proof {
        assert(chunks@.subrange(0, i as int) =~= chunks@);
    }
    best
}

/// Parses the fixed-width ECS component registry from the film bootstrap chunk
/// (the chunk of manifest type 1 with the lowest manifest index).
pub fn decode_registry(chunks: &[FilmChunkData]) -> (r: Option<FilmRegistry>)
    ensures
        match lowest_of_type(chunks@, 1) {
            None => r is None,
            Some(i) => r matches Some(reg) && registry_matches(reg, chunks@[i].data@),
        },
{
    let found = find_chunk_of_type(chunks, 1);
    let i = match found {
        Some(i) => i,
        None => return None,
    };
    let data = &chunks[i].data;
    assert(data@ == chunks@[i as int].data@);
    let blocks = data.len() / 16640;
    let mut archetypes: Vec<FilmArchetype> = Vec::new();
    let mut k: usize = 0;
    while k < blocks
        invariant
            k <= blocks == data@.len() / 16640,
            archetypes@.len() == k,
            archetypes_match(archetypes@, data@),
        decreases blocks - k,
    {
        let components = block_names(data, k);
        let ghost before = archetypes@;
        let ghost cs = components@;
        assert(texts(cs) == block_components(data@, k as int, 0));
        archetypes.push(FilmArchetype { index: k, components });
        proof {
            assert(archetypes@[k as int].components@ == cs);
            assert(archetypes@[k as int].index == k);
            assert forall|q: int| 0 <= q < k + 1 implies (#[trigger] archetypes@[q]).index == q
                && texts(archetypes@[q].components@) == block_components(data@, q, 0) by {
                if q < k {
                    assert(archetypes@[q] == before[q]);
                }
            }
        }
        k += 1;
    }
    let r = FilmRegistry { archetypes };
    assert(registry_matches(r, chunks@[i as int].data@));
    Some(r)
}

/// Names of the leading named slots of block `block`.
fn block_names(data: &Vec<u8>, block: usize) -> (r: Vec<String>)
    requires
        block < data@.len() / 16640,
    ensures
        texts(r@) == block_components(data@, block as int, 0),
{
    let n = data.len();
    proof {
        assert(block * 16640 + 16640 <= data@.len()) by (nonlinear_arith)
            requires
                block < data@.len() / 16640,
        ;
    }
    let base = block * 16640;
    let mut names: Vec<String> = Vec::new();
    let mut j: usize = 0;
    while j < 64
        invariant
            j <= 64,
            block < data@.len() / 16640,
            base == block * 16640,
            base + 16640 <= data@.len(),
            n == data@.len(),
            block_components(data@, block as int, 0) == texts(names@) + block_components(
                data@,
                block as int,
                j as nat,
            ),
        decreases 64 - j,
    {
        let start = base + j * 260;
        let slot = copy_range(data, start, start + 260);
        proof {
            assert(slot@ =~= registry_slot(data@, block as int, j as int));
        }
        match registry_slot_name(slot.as_slice()) {
            Some(name) => {
                let ghost before = names@;
                names.push(name);
                proof {
                    assert(texts(names@) =~= texts(before) + seq![name@]);
                    assert(texts(before) + (seq![name@] + block_components(
                        data@,
                        block as int,
                        (j + 1) as nat,
                    )) =~= texts(names@) + block_components(data@, block as int, (j + 1) as nat));
                }
            },
            None => {
                proof {
                    assert(texts(names@) + Seq::<Seq<char>>::empty() =~= texts(names@));
                }
                return names;
            },
        }
        j += 1;
    }
    proof {
        assert(texts(names@) + Seq::<Seq<char>>::empty() =~= texts(names@));
    }
    names
}

/// The component name of one registry slot.
pub fn registry_slot_name(slot: &[u8]) -> (r: Option<String>)
    ensures
        match slot_name_spec(slot@) {
            Some(n) => r matches Some(s) && s@ == n,
            None => r is None,
        },
{
    if slot.len() < 8 {
        return None;
    }
    let ghost bytes = slot@.subrange(8, slot@.len() as int);
    let mut end: usize = 8;
    while end < slot.len() && slot[end] != 0
        invariant
            8 <= end <= slot@.len(),
            bytes == slot@.subrange(8, slot@.len() as int),
            first_zero(bytes, 0) == first_zero(bytes, end - 8),
            forall|q: int| 8 <= q < end ==> slot@[q] != 0,
        decreases slot@.len() - end,
    {
        end += 1;
    }
    let ghost name = slot_name_bytes(slot@);
    proof {
        assert(first_zero(bytes, end - 8) == end - 8);
        assert(name =~= slot@.subrange(8, end as int));
    }
    if end == 8 {
        return None;
    }
    let mut s = String::new();
    let mut i: usize = 8;
    while i < end
        invariant
            8 <= i <= end <= slot@.len(),
            name =~= slot@.subrange(8, end as int),
            name == slot_name_bytes(slot@),
            forall|q: int| 0 <= q < i - 8 ==> is_ascii_graphic(name[q]),
            s@ == slot@.subrange(8, i as int).map_values(|b: u8| b as char),
        decreases end - i,
    {
        let b = slot[i];
        if !(0x21u8 <= b && b <= 0x7Eu8) {
            proof {
                assert(name[i - 8] == b);
                assert(!is_ascii_graphic(name[i - 8]));
                assert(!all_graphic(name));
                assert(slot_name_spec(slot@) is None);
            }
            return None;
        }
        push_char(&mut s, b as char);
        proof {
            assert(s@ =~= slot@.subrange(8, i + 1).map_values(|b: u8| b as char));
        }
        i += 1;
    }
    Some(s)
}


/// Binding of one replicated entity slot.
#[derive(Debug, Clone, Copy, PartialEq, Eq, Structural)]
pub struct FilmEntityState {
    pub full_id: u32,
    pub archetype_index: u8,
}

/// Persistent entity bindings required to interpret FRAME delta records. Every bound
/// slot holds an identity whose low 30 bits are that slot.
#[derive(Debug)]
pub struct FilmWorld {
    entities: BTreeMap<u32, FilmEntityState>,
}

impl View for FilmWorld {
    type V = Map<u32, FilmEntityState>;

    closed spec fn view(&self) -> Map<u32, FilmEntityState> {
        self.entities@
    }
}

/// Every bound slot holds an identity whose low 30 bits are that slot.
pub open spec fn world_wf(m: Map<u32, FilmEntityState>) -> bool {
    forall|slot: u32| #[trigger] m.contains_key(slot) ==> m[slot].full_id & 0x3fff_ffff == slot
}

impl Clone for FilmWorld {
    /// A world with the same bindings.
    fn clone(&self) -> (w: Self)
        ensures
            w@ == self@,
    {
        proof {
            use_type_invariant(self);
        }
        FilmWorld { entities: self.entities.clone() }
    }
}

impl Default for FilmWorld {
    /// An empty world.
    fn default() -> (w: Self)
        ensures
            w@ == Map::<u32, FilmEntityState>::empty(),
    {
        FilmWorld::new()
    }
}

impl FilmWorld {
    #[verifier::type_invariant]
    spec fn inv(self) -> bool {
        world_wf(self.entities@)
    }

    /// An empty world.
    pub fn new() -> (w: Self)
        ensures
            w@ == Map::<u32, FilmEntityState>::empty(),
    {
        let w = FilmWorld { entities: BTreeMap::new() };
        proof {
            assert(w.entities@ =~= Map::<u32, FilmEntityState>::empty());
        }
        w
    }

    /// Binds the slot of `full_id` (its low 30 bits) to this identity and archetype.
    pub fn bind(&mut self, full_id: u32, archetype_index: u8)
        ensures
            final(self)@ == old(self)@.insert(
                full_id & 0x3fff_ffff,
                FilmEntityState { full_id, archetype_index },
            ),
    {
        proof {
            use_type_invariant(&*self);
            assert((full_id & 0x3fff_ffff) & 0x3fff_ffff == full_id & 0x3fff_ffff) by (bit_vector);
        }
        let mut entities = BTreeMap::new();
        std::mem::swap(&mut entities, &mut self.entities);
        entities.insert(full_id & 0x3fff_ffff, FilmEntityState { full_id, archetype_index });
        self.entities = entities;
    }

    /// Removes the binding of `slot`.
    pub fn unbind(&mut self, slot: u32)
        ensures
            final(self)@ == old(self)@.remove(slot),
    {
        proof {
            use_type_invariant(&*self);
        }
        let mut entities = BTreeMap::new();
        std::mem::swap(&mut entities, &mut self.entities);
        entities.remove(&slot);
        self.entities = entities;
    }

    /// Archetype bound to `slot`.
    pub fn archetype_index(&self, slot: u32) -> (r: Option<u8>)
        ensures
            r == (if self@.contains_key(slot) {
                Some(self@[slot].archetype_index)
            } else {
                None
            }),
    {
        match self.entities.get(&slot) {
            Some(state) => Some(state.archetype_index),
            None => None,
        }
    }

    /// Full identity bound to `slot`; its low 30 bits are the slot.
    pub fn full_id(&self, slot: u32) -> (r: Option<u32>)
        ensures
            r == (if self@.contains_key(slot) {
                Some(self@[slot].full_id)
            } else {
                None
            }),
            r matches Some(f) ==> f & 0x3fff_ffff == slot,
    {
        proof {
            use_type_invariant(self);
        }
        match self.entities.get(&slot) {
            Some(state) => Some(state.full_id),
            None => None,
        }
    }

    /// Number of bound slots.
    pub fn len(&self) -> (n: usize)
        ensures
            n == self@.len(),
    {
        self.entities.len()
    }

    /// Whether no slot is bound.
    pub fn is_empty(&self) -> (r: bool)
        ensures
            r == (self@.len() == 0),
    {
        let r = self.entities.is_empty();
        proof {
            if !r {
                assert(self@.dom().len() > 0) by {
                    let k = choose|k: u32| self@.dom().contains(k);
                    assert(self@.dom().contains(k));
                }
            }
        }
        r
    }
}

/// An MSB-first cursor over a byte buffer.
#[derive(Debug, Clone)]
pub struct FilmBitReader<'a> {
    data: &'a [u8],
    position: usize,
}

impl<'a> FilmBitReader<'a> {
    pub closed spec fn spec_data(&self) -> Seq<u8> {
        self.data@
    }

    pub closed spec fn spec_position(&self) -> nat {
        self.position as nat
    }

    /// A reader at bit zero.
    pub fn new(data: &'a [u8]) -> (r: Self)
        ensures
            r.spec_data() == data@,
            r.spec_position() == 0,
    {
        Self { data, position: 0 }
    }

    /// Reads `width <= 64` bits and advances, or returns `None` without moving
    /// when fewer than `width` bits remain.
    pub fn read(&mut self, width: usize) -> (r: Option<u64>)
        requires
            old(self).spec_data().len() * 8 <= usize::MAX,
        ensures
            final(self).spec_data() == old(self).spec_data(),
            width <= 64 && old(self).spec_position() + width <= old(self).spec_data().len() * 8
                ==> r == Some(bits_value(old(self).spec_data(), old(self).spec_position() as int, width as nat) as u64)
                && final(self).spec_position() == old(self).spec_position() + width,
            !(width <= 64 && old(self).spec_position() + width <= old(self).spec_data().len() * 8)
                ==> r is None && final(self).spec_position() == old(self).spec_position(),
    {
        if width > 64 {
            return None;
        }
        let end = match self.position.checked_add(width) {
            Some(end) => end,
            None => return None,
        };
        if end > self.data.len() * 8 {
            return None;
        }
        let value = Bits(self.data).read(self.position, width);
        self.position = end;
        value
    }

    /// Bits consumed so far.
    pub fn position(&self) -> (p: usize)
        ensures
            p == self.spec_position(),
    {
        self.position
    }
}

/// Whether bit `position` of `data` is set (false past the end).
pub fn bit_at(data: &[u8], position: usize) -> (r: bool)
    ensures
        r == (bit_of(data@, position as int) == 1),
{
    Bits(data).bit(position) == 1
}

#[derive(Debug, Clone, Copy, PartialEq, Eq, Structural, PartialOrd, Ord)]
pub enum FilmRecordKind {
    End,
    New,
    Delete,
    Delta,
}

#[derive(Debug, Clone, Copy, PartialEq, Eq, Structural)]
pub struct FilmRecordHeader {
    pub kind: FilmRecordKind,
    pub full_id: Option<u32>,
    pub slot: Option<u32>,
    pub header_bits: usize,
}

#[derive(Debug, Clone, Copy, PartialEq, Eq, Structural)]
pub struct FilmDeltaHeader {
    pub record: FilmRecordHeader,
    pub component_mask: u64,
    pub data_bit_offset: usize,
}

/// The prefix-coded header of the first entity record: `1` for DELTA, otherwise
/// a two-bit kind (END, NEW, DELETE, DELTA); non-END records continue with an
/// `id_width`-bit slot and a two-bit generation tag.
pub open spec fn record_header_spec(payload: Seq<u8>, id_width: nat) -> Option<FilmRecordHeader> {
    let len = payload.len() * 8;
    if len < 1 {
        None
    } else {
        let (kind, p) = if bits_value(payload, 0, 1) == 1 {
            (FilmRecordKind::Delta, 1nat)
        } else {
            (
                if bits_value(payload, 1, 2) == 0 {
                    FilmRecordKind::End
                } else if bits_value(payload, 1, 2) == 1 {
                    FilmRecordKind::New
                } else if bits_value(payload, 1, 2) == 2 {
                    FilmRecordKind::Delete
                } else {
                    FilmRecordKind::Delta
                },
                3nat,
            )
        };
        if p > len {
            None
        } else if kind == FilmRecordKind::End {
            Some(FilmRecordHeader { kind, full_id: None, slot: None, header_bits: p as usize })
        } else if id_width > 64 || p + id_width + 2 > len {
            None
        } else {
            let low = bits_value(payload, p as int, id_width) as u64 as u32;
            let tag = bits_value(payload, (p + id_width) as int, 2) as u32;
            Some(
                FilmRecordHeader {
                    kind,
                    full_id: Some((tag << 30u32) | low),
                    slot: Some(low),
                    header_bits: (p + id_width + 2) as usize,
                },
            )
        }
    }
}

proof fn lemma_record_header_bits(payload: Seq<u8>, id_width: nat)
    ensures
        record_header_spec(payload, id_width) matches Some(h) ==> h.header_bits <= payload.len()
            * 8 && h.header_bits <= 3 + id_width + 2,
{
}

/// Decodes the prefix-coded header of the first entity record in a FRAME payload.
pub fn decode_frame_record_header(payload: &[u8]) -> (r: Option<FilmRecordHeader>)
    requires
        payload@.len() * 8 <= usize::MAX,
    ensures
        r == record_header_spec(payload@, 11),
{
    decode_frame_record_header_with_id_width(payload, 11)
}

pub fn decode_frame_record_header_with_id_width(payload: &[u8], id_width: usize) -> (r: Option<
    FilmRecordHeader,
>)
    requires
        payload@.len() * 8 <= usize::MAX,
    ensures
        r == record_header_spec(payload@, id_width as nat),
{
    let mut reader = FilmBitReader::new(payload);
    let first = match reader.read(1) {
        Some(v) => v,
        None => return None,
    };
    let kind = if first != 0 {
        FilmRecordKind::Delta
    } else {
        match reader.read(2) {
            Some(0) => FilmRecordKind::End,
            Some(1) => FilmRecordKind::New,
            Some(2) => FilmRecordKind::Delete,
            Some(_) => FilmRecordKind::Delta,
            None => return None,
        }
    };
    proof {
        vstd::arithmetic::power2::lemma2_to64();
        crate::theater::bits::lemma_bits_bound(payload@, 0, 1);
        crate::theater::bits::lemma_bits_bound(payload@, 1, 2);
    }
    if kind == FilmRecordKind::End {
        return Some(
            FilmRecordHeader { kind, full_id: None, slot: None, header_bits: reader.position() },
        );
    }
    let low = match reader.read(id_width) {
        Some(v) => v as u32,
        None => return None,
    };
    let tag = match reader.read(2) {
        Some(v) => v as u32,
        None => return None,
    };
    proof {
        crate::theater::bits::lemma_bits_bound(payload@, reader.spec_position() - 2, 2);
    }
    let full_id = (tag << 30u32) | low;
    Some(
        FilmRecordHeader {
            kind,
            full_id: Some(full_id),
            slot: Some(low),
            header_bits: reader.position(),
        },
    )
}


/// Component-presence bits read component-0 first, as an ordinary bit set.
pub open spec fn lsb_first_value(data: Seq<u8>, offset: int, width: nat) -> nat
    decreases width,
{
    if width == 0 {
        0
    } else {
        lsb_first_value(data, offset, (width - 1) as nat) + bit_of(data, offset + width - 1)
            * vstd::arithmetic::power2::pow2((width - 1) as nat)
    }
}

/// Union of `count` six-bit component indices read from `offset`.
pub open spec fn sparse_mask(data: Seq<u8>, offset: int, count: nat) -> u64
    decreases count,
{
    if count == 0 {
        0
    } else {
        sparse_mask(data, offset, (count - 1) as nat) | (1u64 << (bits_value(
            data,
            offset + 6 * (count - 1),
            6,
        ) as u64))
    }
}

/// The first DELTA record's header and component mask: after a `1` flag a dense
/// 64-bit presence set (component 0 first), otherwise a three-bit count of six-bit indices.
pub open spec fn delta_header_spec(payload: Seq<u8>) -> Option<FilmDeltaHeader> {
    let len = payload.len() * 8;
    match record_header_spec(payload, 11) {
        None => None,
        Some(record) => {
            let p = record.header_bits as int;
            if record.kind != FilmRecordKind::Delta || p + 1 > len {
                None
            } else if bits_value(payload, p, 1) == 1 {
                if p + 65 > len {
                    None
                } else {
                    Some(
                        FilmDeltaHeader {
                            record,
                            component_mask: lsb_first_value(payload, p + 1, 64) as u64,
                            data_bit_offset: (p + 65) as usize,
                        },
                    )
                }
            } else if p + 4 > len {
                None
            } else {
                let count = bits_value(payload, p + 1, 3);
                if p + 4 + 6 * count > len {
                    None
                } else {
                    Some(
                        FilmDeltaHeader {
                            record,
                            component_mask: sparse_mask(payload, p + 4, count),
                            data_bit_offset: (p + 4 + 6 * count) as usize,
                        },
                    )
                }
            }
        },
    }
}

proof fn lemma_lsb_first_bound(data: Seq<u8>, offset: int, width: nat)
    ensures
        lsb_first_value(data, offset, width) < vstd::arithmetic::power2::pow2(width),
    decreases width,
{
    vstd::arithmetic::power2::lemma2_to64();
    if width > 0 {
        lemma_lsb_first_bound(data, offset, (width - 1) as nat);
        crate::theater::bits::lemma_bit_of_le_1(data, offset + width - 1);
        vstd::arithmetic::power2::lemma_pow2_unfold(width);
        let x = lsb_first_value(data, offset, (width - 1) as nat);
        let b = bit_of(data, offset + width - 1);
        let q = vstd::arithmetic::power2::pow2((width - 1) as nat);
        assert(x + b * q < 2 * q) by (nonlinear_arith)
            requires
                x < q,
                b <= 1,
        ;
    }
}

/// Decodes the first DELTA record through its component-presence mask.
pub fn decode_first_delta_header(payload: &[u8]) -> (r: Option<FilmDeltaHeader>)
    requires
        payload@.len() * 8 <= usize::MAX,
    ensures
        r == delta_header_spec(payload@),
{
    let record = match decode_frame_record_header(payload) {
        Some(record) => record,
        None => return None,
    };
    if record.kind != FilmRecordKind::Delta {
        return None;
    }
    proof {
        lemma_record_header_bits(payload@, 11);
    }
    let mut reader = FilmBitReader::new(payload);
    if reader.read(record.header_bits).is_none() {
        return None;
    }
    let flag = match reader.read(1) {
        Some(v) => v,
        None => return None,
    };
    let ghost p = record.header_bits as int;
    proof {
        crate::theater::bits::lemma_bits_bound(payload@, p, 1);
        vstd::arithmetic::power2::lemma2_to64();
        assert(reader.spec_position() == p + 1);
        assert(flag == bits_value(payload@, p, 1));
    }
    let component_mask: u64 = if flag != 0 {
        // Component bitsets are serialized component-0 first, so the first bit
        // read is the lowest bit of the mask.
        let mut mask: u64 = 0;
        let mut weight: u64 = 1;
        let mut i: usize = 0;
        proof {
            vstd::arithmetic::power2::lemma2_to64();
            vstd::arithmetic::power2::lemma2_to64_rest();
        }
        if reader.position() > usize::MAX - 64 || reader.position() + 64 > payload.len() * 8 {
            return None;
        }
        while i < 64
            invariant
                i <= 64,
                reader.spec_data() == payload@,
                payload@.len() * 8 <= usize::MAX,
                reader.spec_position() == p + 1 + i,
                p + 65 <= payload@.len() * 8,
                mask as nat == lsb_first_value(payload@, p + 1, i as nat),
                i < 64 ==> weight as nat == vstd::arithmetic::power2::pow2(i as nat),
                vstd::arithmetic::power2::pow2(63) == 0x8000_0000_0000_0000,
            decreases 64 - i,
        {
            let b = reader.read(1).unwrap();
            proof {
                assert(bits_value(payload@, p + 1 + i, 1) == bit_of(payload@, p + 1 + i)) by {
                    assert(bits_value(payload@, p + 1 + i, 0) == 0);
                }
                crate::theater::bits::lemma_bit_of_le_1(payload@, p + 1 + i);
                lemma_lsb_first_bound(payload@, p + 1, i as nat);
                if i < 63 {
                    vstd::arithmetic::power2::lemma_pow2_strictly_increases(i as nat, 63);
                }
                vstd::arithmetic::power2::lemma_pow2_unfold((i + 1) as nat);
                if i < 63 {
                    vstd::arithmetic::power2::lemma_pow2_strictly_increases((i + 1) as nat, 64);
                }
            }
            let add: u64 = if b == 1 {
                weight
            } else {
                0
            };
            proof {
                if i < 63 {
                    assert(mask + add < vstd::arithmetic::power2::pow2((i + 1) as nat));
                    if i + 1 < 63 {
                        vstd::arithmetic::power2::lemma_pow2_strictly_increases(
                            (i + 1) as nat,
                            63,
                        );
                    }
                    assert(vstd::arithmetic::power2::pow2((i + 1) as nat) <= 0x8000_0000_0000_0000);
                } else {
                    assert(mask + add < 0x8000_0000_0000_0000 * 2);
                }
            }
            proof {
                assert(b as nat == bit_of(payload@, p + 1 + i));
                assert(weight as nat == vstd::arithmetic::power2::pow2(i as nat));
                if b == 1 {
                    assert(bit_of(payload@, p + 1 + i) * vstd::arithmetic::power2::pow2(i as nat)
                        == add) by {
                        vstd::arithmetic::mul::lemma_mul_basics(
                            vstd::arithmetic::power2::pow2(i as nat) as int,
                        );
                    }
                } else {
                    assert(bit_of(payload@, p + 1 + i) == 0);
                    assert(bit_of(payload@, p + 1 + i) * vstd::arithmetic::power2::pow2(i as nat)
                        == 0);
                }
                assert(lsb_first_value(payload@, p + 1, (i + 1) as nat) == lsb_first_value(
                    payload@,
                    p + 1,
                    i as nat,
                ) + bit_of(payload@, p + 1 + i) * vstd::arithmetic::power2::pow2(i as nat));
            }
            mask = mask + add;
            if i < 63 {
                weight = weight * 2;
            }
            i += 1;
        }
        proof {
            lemma_lsb_first_bound(payload@, p + 1, 64);
        }
        mask
    } else {
        let count = match reader.read(3) {
            Some(v) => v,
            None => return None,
        };
        proof {
            crate::theater::bits::lemma_bits_bound(payload@, p + 1, 3);
            vstd::arithmetic::power2::lemma2_to64();
        }
        let mut mask: u64 = 0;
        let mut k: u64 = 0;
        while k < count
            invariant
                k <= count,
                count == bits_value(payload@, p + 1, 3),
                record_header_spec(payload@, 11) == Some(record),
                record.kind == FilmRecordKind::Delta,
                p == record.header_bits as int,
                bits_value(payload@, p, 1) == 0,
                p + 4 <= payload@.len() * 8,
                reader.spec_data() == payload@,
                payload@.len() * 8 <= usize::MAX,
                reader.spec_position() == p + 4 + 6 * k,
                p + 4 + 6 * k <= payload@.len() * 8,
                mask == sparse_mask(payload@, p + 4, k as nat),
            decreases count - k,
        {
            let index = match reader.read(6) {
                Some(v) => v,
                None => {
                    proof {
                        assert(p + 4 + 6 * k + 6 > payload@.len() * 8);
                        assert(p + 4 + 6 * count > payload@.len() * 8);
                    }
                    return None;
                },
            };
            proof {
                crate::theater::bits::lemma_bits_bound(payload@, p + 4 + 6 * k, 6);
                vstd::arithmetic::power2::lemma2_to64();
            }
            mask = mask | (1u64 << index);
            k += 1;
        }
        mask
    };
    let r = FilmDeltaHeader { record, component_mask, data_bit_offset: reader.position() };
    proof {
        let spec = delta_header_spec(payload@);
        if flag != 0 {
            assert(bits_value(payload@, p, 1) == 1);
            assert(p + 65 <= payload@.len() * 8);
            assert(component_mask == lsb_first_value(payload@, p + 1, 64) as u64);
            assert(reader.spec_position() == p + 65);
        } else {
            let count = bits_value(payload@, p + 1, 3);
            assert(reader.spec_position() == p + 4 + 6 * count);
            assert(component_mask == sparse_mask(payload@, p + 4, count));
        }
        assert(spec == Some(r));
    }
    Some(r)
}

#[derive(Debug, Clone, Copy, PartialEq, Eq, Structural)]
pub struct FilmPacket {
    pub chunk_index: i32,
    pub packet_type: u16,
    pub byte_2: u8,
    pub byte_3: u8,
    pub payload_offset: usize,
    pub payload_size: usize,
    pub timestamp_us: u64,
}

/// Little-endian unsigned integer of `n` bytes at `o`.
pub open spec fn le_value(data: Seq<u8>, o: int, n: nat) -> nat
    decreases n,
{
    if n == 0 {
        0
    } else {
        data[o] as nat + 256 * le_value(data, o + 1, (n - 1) as nat)
    }
}

/// The packet whose sixteen-byte header starts at `off`.
pub open spec fn packet_at(data: Seq<u8>, chunk_index: i32, off: int) -> FilmPacket {
    FilmPacket {
        chunk_index,
        packet_type: le_value(data, off, 2) as u16,
        byte_2: data[off + 2],
        byte_3: data[off + 3],
        payload_offset: (off + 16) as usize,
        payload_size: le_value(data, off + 4, 4) as usize,
        timestamp_us: le_value(data, off + 8, 8) as u64,
    }
}

/// Byte-aligned packets of one replication chunk from `off`: each has a
/// sixteen-byte header (type, two opaque bytes, payload size, timestamp); the
/// stream stops at an incomplete header or payload, and after a type-7 packet.
pub open spec fn chunk_packets(data: Seq<u8>, chunk_index: i32, off: int) -> Seq<FilmPacket>
    decreases data.len() - off,
{
    if off < 0 || off + 16 > data.len() {
        seq![]
    } else {
        let next = off + 16 + le_value(data, off + 4, 4);
        if next > data.len() {
            seq![]
        } else if le_value(data, off, 2) == 7 {
            seq![packet_at(data, chunk_index, off)]
        } else {
            seq![packet_at(data, chunk_index, off)] + chunk_packets(data, chunk_index, next)
        }
    }
}

/// Packets of every replication chunk (manifest type 2), in chunk order.
pub open spec fn packets_spec(chunks: Seq<FilmChunkData>) -> Seq<FilmPacket>
    decreases chunks.len(),
{
    if chunks.len() == 0 {
        seq![]
    } else {
        let last = chunks.last();
        packets_spec(chunks.drop_last()) + if last.metadata.chunk_type == 2 {
            chunk_packets(last.data@, last.metadata.index, 0)
        } else {
            seq![]
        }
    }
}

pub proof fn lemma_le_bound(data: Seq<u8>, o: int, n: nat)
    ensures
        le_value(data, o, n) < vstd::arithmetic::power2::pow2(8 * n),
    decreases n,
{
    vstd::arithmetic::power2::lemma2_to64();
    if n > 0 {
        lemma_le_bound(data, o + 1, (n - 1) as nat);
        vstd::arithmetic::power2::lemma_pow2_adds(8, (8 * (n - 1)) as nat);
        assert(8 + 8 * (n - 1) == 8 * n);
    }
}

/// Reads a little-endian unsigned integer of `n <= 8` bytes.
pub fn read_le(data: &[u8], o: usize, n: usize) -> (v: u64)
    requires
        n <= 8,
        o + n <= data@.len(),
    ensures
        v as nat == le_value(data@, o as int, n as nat),
{
    let mut value: u64 = 0;
    let mut k: usize = n;
    let len = data.len();
    proof {
        vstd::arithmetic::power2::lemma2_to64();
        vstd::arithmetic::power2::lemma2_to64_rest();
    }
    while k > 0
        invariant
            k <= n <= 8,
            o + n <= data@.len(),
            len == data@.len(),
            value as nat == le_value(data@, o + k, (n - k) as nat),
            vstd::arithmetic::power2::pow2(56) == 0x100_0000_0000_0000,
        decreases k,
    {
        proof {
            lemma_le_bound(data@, o + k, (n - k) as nat);
            if n - k < 7 {
                vstd::arithmetic::power2::lemma_pow2_strictly_increases(
                    (8 * (n - k)) as nat,
                    56,
                );
            }
        }
        value = data[o + k - 1] as u64 + 256 * value;
        k -= 1;
    }
    value
}

/// Indexes the byte-aligned packet stream inside decompressed replication chunks.
pub fn index_packets(chunks: &[FilmChunkData]) -> (r: Vec<FilmPacket>)
    requires
        forall|i: int| 0 <= i < chunks@.len() ==> chunks@[i].data@.len() + 16 <= usize::MAX,
    ensures
        r@ == packets_spec(chunks@),
{
    let mut packets: Vec<FilmPacket> = Vec::new();
    let mut c: usize = 0;
    while c < chunks.len()
        invariant
            c <= chunks@.len(),
            forall|i: int| 0 <= i < chunks@.len() ==> chunks@[i].data@.len() + 16 <= usize::MAX,
            packets@ == packets_spec(chunks@.subrange(0, c as int)),
        decreases chunks@.len() - c,
    {
        let chunk = &chunks[c];
        let ghost before = packets@;
        if chunk.metadata.chunk_type == 2 {
            let data = chunk.data.as_slice();
            let mut header_offset: usize = 0;
            let ghost base = packets@;
            loop
                invariant_except_break
                    data@ == chunk.data@,
                    data@.len() + 16 <= usize::MAX,
                    header_offset <= data@.len(),
                    packets@ + chunk_packets(data@, chunk.metadata.index, header_offset as int)
                        == base + chunk_packets(data@, chunk.metadata.index, 0),
                ensures
                    packets@ == base + chunk_packets(data@, chunk.metadata.index, 0),
                decreases data@.len() - header_offset,
            {
                if header_offset + 16 > data.len() {
                    proof {
                        assert(packets@ + Seq::<FilmPacket>::empty() =~= packets@);
                    }
                    break;
                }
                proof {
                    lemma_le_bound(data@, header_offset + 4, 4);
                    lemma_le_bound(data@, header_offset as int, 2);
                    vstd::arithmetic::power2::lemma2_to64();
                }
                let packet_type = read_le(data, header_offset, 2) as u16;
                let payload_size = read_le(data, header_offset + 4, 4) as usize;
                let timestamp_us = read_le(data, header_offset + 8, 8);
                let payload_offset = header_offset + 16;
                let next_header = match payload_offset.checked_add(payload_size) {
                    Some(n) => n,
                    None => {
                        proof {
                            assert(packets@ + Seq::<FilmPacket>::empty() =~= packets@);
                        }
                        break;
                    },
                };
                if next_header > data.len() {
                    proof {
                        assert(packets@ + Seq::<FilmPacket>::empty() =~= packets@);
                    }
                    break;
                }
                let packet = FilmPacket {
                    chunk_index: chunk.metadata.index,
                    packet_type,
                    byte_2: data[header_offset + 2],
                    byte_3: data[header_offset + 3],
                    payload_offset,
                    payload_size,
                    timestamp_us,
                };
                proof {
                    assert(packet == packet_at(data@, chunk.metadata.index, header_offset as int));
                }
                let ghost prev = packets@;
                packets.push(packet);
                header_offset = next_header;
                if packet_type == 7 {
                    proof {
                        assert(prev + seq![packet] =~= packets@);
                    }
                    break;
                }
                proof {
                    assert(prev + (seq![packet] + chunk_packets(
                        data@,
                        chunk.metadata.index,
                        header_offset as int,
                    )) =~= packets@ + chunk_packets(
                        data@,
                        chunk.metadata.index,
                        header_offset as int,
                    ));
                }
            }
        }
        proof {
            assert(chunks@.subrange(0, c + 1).drop_last() =~= chunks@.subrange(0, c as int));
            if chunk.metadata.chunk_type != 2 {
                assert(before + Seq::<FilmPacket>::empty() =~= before);
            }
            assert(chunks@.subrange(0, c + 1).last() == chunks@[c as int]);
        }
        c += 1;
    }
    proof {
        assert(chunks@.subrange(0, c as int) =~= chunks@);
    }
    packets
}


/// The byte made of the eight bits at `position`, zero-filled past the end.
pub open spec fn byte_at(data: Seq<u8>, position: int) -> u8 {
    bits_value(data, position, 8) as u8
}

/// Whether `pattern` occurs byte for byte at bit `position`.
pub open spec fn pattern_at(data: Seq<u8>, pattern: Seq<u8>, position: int) -> bool {
    forall|i: int| 0 <= i < pattern.len() ==> #[trigger] pattern[i] == byte_at(data, position + 8 * i)
}

/// The positions below `n` at which `pattern` occurs, in increasing order.
pub open spec fn matching_positions(data: Seq<u8>, pattern: Seq<u8>, n: nat) -> Seq<usize>
    decreases n,
{
    if n == 0 {
        seq![]
    } else if pattern_at(data, pattern, n - 1) {
        matching_positions(data, pattern, (n - 1) as nat).push((n - 1) as usize)
    } else {
        matching_positions(data, pattern, (n - 1) as nat)
    }
}

/// Every bit position at which a non-empty `pattern` lies wholly inside `data`
/// and occurs there, in increasing order.
pub open spec fn pattern_positions(data: Seq<u8>, pattern: Seq<u8>) -> Seq<usize> {
    if pattern.len() == 0 || pattern.len() > data.len() {
        seq![]
    } else {
        matching_positions(data, pattern, (data.len() * 8 - pattern.len() * 8 + 1) as nat)
    }
}

proof fn lemma_matching_positions_len(data: Seq<u8>, pattern: Seq<u8>, n: nat)
    ensures
        matching_positions(data, pattern, n).len() <= n,
        forall|k: int|
            0 <= k < matching_positions(data, pattern, n).len() ==> #[trigger] matching_positions(
                data,
                pattern,
                n,
            )[k] < n,
    decreases n,
{
    if n > 0 {
        lemma_matching_positions_len(data, pattern, (n - 1) as nat);
    }
}

/// Every position of a found pattern leaves room for the whole pattern.
pub proof fn lemma_pattern_position_in_range(data: Seq<u8>, pattern: Seq<u8>, ps: Seq<usize>)
    requires
        ps == pattern_positions(data, pattern),
    ensures
        forall|k: int| 0 <= k < ps.len() ==> #[trigger] ps[k] + 8 * pattern.len() <= data.len() * 8,
{
    if pattern.len() > 0 && pattern.len() <= data.len() {
        lemma_matching_positions_len(data, pattern, (data.len() * 8 - pattern.len() * 8 + 1) as nat);
    }
}

/// The eight bits at `position` as a byte.
fn byte_at_bit(data: &[u8], position: usize) -> (b: u8)
    requires
        position + 8 <= usize::MAX,
    ensures
        b == byte_at(data@, position as int),
        b as nat == bits_value(data@, position as int, 8),
{
    let bits = Bits(data);
    let mut value: u8 = 0;
    let mut i: usize = 0;
    proof {
        vstd::arithmetic::power2::lemma2_to64();
    }
    while i < 8
        invariant
            i <= 8,
            position + 8 <= usize::MAX,
            bits@ == data@,
            value as nat == bits_value(data@, position as int, i as nat),
            vstd::arithmetic::power2::pow2(7) == 128,
        decreases 8 - i,
    {
        proof {
            crate::theater::bits::lemma_bits_bound(data@, position as int, i as nat);
            if i < 7 {
                vstd::arithmetic::power2::lemma_pow2_strictly_increases(i as nat, 7);
            }
        }
        let b = bits.bit(position + i);
        value = value * 2 + b as u8;
        i += 1;
    }
    value
}

/// Whether `pattern` occurs at bit `position`.
fn bit_pattern_matches(data: &[u8], pattern: &[u8], position: usize) -> (r: bool)
    requires
        position + 8 * pattern@.len() + 8 <= usize::MAX,
    ensures
        r == pattern_at(data@, pattern@, position as int),
{
    let mut i: usize = 0;
    while i < pattern.len()
        invariant
            i <= pattern@.len(),
            position + 8 * pattern@.len() + 8 <= usize::MAX,
            forall|k: int| 0 <= k < i ==> #[trigger] pattern@[k] == byte_at(data@, position + 8 * k),
        decreases pattern@.len() - i,
    {
        let actual = byte_at_bit(data, position + 8 * i);
        if actual != pattern[i] {
            return false;
        }
        i += 1;
    }
    true
}

/// Every bit offset at which `pattern` occurs byte for byte, in increasing order.
pub fn find_bit_pattern(data: &[u8], pattern: &[u8]) -> (r: Vec<usize>)
    requires
        data@.len() * 8 + 64 <= usize::MAX,
    ensures
        r@ == pattern_positions(data@, pattern@),
{
    if pattern.len() == 0 || pattern.len() > data.len() {
        return Vec::new();
    }
    let end = data.len() * 8 - pattern.len() * 8;
    let mut positions: Vec<usize> = Vec::new();
    let mut position: usize = 0;
    while position <= end
        invariant
            data@.len() * 8 + 64 <= usize::MAX,
            0 < pattern@.len() <= data@.len(),
            end == data@.len() * 8 - pattern@.len() * 8,
            position <= end + 1,
            positions@ == matching_positions(data@, pattern@, position as nat),
        decreases end + 1 - position,
    {
        if bit_pattern_matches(data, pattern, position) {
            positions.push(position);
        }
        position += 1;
    }
    positions
}

/// The bytes of the `length` bits at `position`, each byte read MSB first and the
/// last one zero-filled past the end of the data.
pub open spec fn extract_spec(data: Seq<u8>, position: int, length: nat) -> Option<Seq<u8>> {
    if length == 0 || position + length > data.len() * 8 {
        None
    } else {
        Some(Seq::new((length + 7) / 8, |i: int| byte_at(data, position + 8 * i)))
    }
}

/// Copies `length` bits starting at bit `position` into bytes.
pub fn extract_bits(data: &[u8], position: usize, length: usize) -> (r: Option<Vec<u8>>)
    requires
        data@.len() * 8 + 64 <= usize::MAX,
    ensures
        match extract_spec(data@, position as int, length as nat) {
            Some(bytes) => r is Some && r->0@ == bytes,
            None => r is None,
        },
{
    if length == 0 {
        return None;
    }
    let end = match position.checked_add(length) {
        Some(end) => end,
        None => return None,
    };
    if end > data.len() * 8 {
        return None;
    }
    let byte_count = length / 8 + if length % 8 == 0 {
        0
    } else {
        1
    };
    assert(byte_count == (length + 7) / 8);
    let mut output: Vec<u8> = Vec::new();
    let mut index: usize = 0;
    while index < byte_count
        invariant
            data@.len() * 8 + 64 <= usize::MAX,
            position + length <= data@.len() * 8,
            byte_count == (length + 7) / 8,
            index <= byte_count,
            output@ =~= Seq::new(index as nat, |i: int| byte_at(data@, position + 8 * i)),
        decreases byte_count - index,
    {
        assert(8 * index < length + 7);
        let b = byte_at_bit(data, position + 8 * index);
        output.push(b);
        index += 1;
    }
    Some(output)
}

/// Whether the `length` bits at `position` lie inside the data and are all zero,
/// byte by byte.
pub open spec fn zero_bits(data: Seq<u8>, position: int, length: nat) -> bool {
    match extract_spec(data, position, length) {
        Some(bytes) => forall|i: int| 0 <= i < bytes.len() ==> #[trigger] bytes[i] == 0,
        None => false,
    }
}

fn bits_are_zero(data: &[u8], position: usize, length: usize) -> (r: bool)
    requires
        data@.len() * 8 + 64 <= usize::MAX,
    ensures
        r == zero_bits(data@, position as int, length as nat),
{
    let bytes = match extract_bits(data, position, length) {
        Some(bytes) => bytes,
        None => return false,
    };
    let mut i: usize = 0;
    while i < bytes.len()
        invariant
            i <= bytes@.len(),
            extract_spec(data@, position as int, length as nat) == Some(bytes@),
            forall|k: int| 0 <= k < i ==> #[trigger] bytes@[k] == 0,
        decreases bytes@.len() - i,
    {
        if bytes[i] != 0 {
            assert(!zero_bits(data@, position as int, length as nat)) by {
                let bs = extract_spec(data@, position as int, length as nat)->0;
                assert(bs == bytes@);
                assert(bs[i as int] != 0);
            }
            return false;
        }
        i += 1;
    }
    true
}


/// Little-endian 16-bit code units of consecutive byte pairs; an odd trailing byte is ignored.
pub open spec fn le_units(bytes: Seq<u8>) -> Seq<u16> {
    Seq::new(bytes.len() / 2, |i: int| (bytes[2 * i] + 256 * bytes[2 * i + 1]) as u16)
}

/// Text of a UTF-16LE byte field: lossy decoding, then NULs and then white space
/// trimmed from both ends.
pub open spec fn utf16_field_text(bytes: Seq<u8>) -> Seq<char> {
    trim_both(trim_both(utf16_lossy(le_units(bytes)), CharClass::Nul), CharClass::Whitespace)
}

/// Decodes a NUL-padded UTF-16LE text field.
pub fn decode_utf16(bytes: &[u8]) -> (r: String)
    ensures
        r@ == utf16_field_text(bytes@),
{
    let len = bytes.len();
    let n = len / 2;
    let mut units: Vec<u16> = Vec::new();
    let mut i: usize = 0;
    while i < n
        invariant
            len == bytes@.len(),
            n == bytes@.len() / 2,
            n * 2 <= bytes@.len(),
            i <= n,
            units@ =~= Seq::new(
                i as nat,
                |k: int| (bytes@[2 * k] + 256 * bytes@[2 * k + 1]) as u16,
            ),
        decreases n - i,
    {
        assert(2 * i + 1 < bytes@.len());
        let unit: u16 = bytes[2 * i] as u16 + 256 * (bytes[2 * i + 1] as u16);
        units.push(unit);
        i += 1;
    }
    let chars = match decode_utf16_units(units.as_slice(), false) {
        Some(chars) => chars,
        None => Vec::new(),
    };
    let without_nul = trimmed(&chars, CharClass::Nul);
    let text = trimmed(&without_nul, CharClass::Whitespace);
    string_from_chars(&text)
}

/// The UTF-16 code units of one character.
pub open spec fn char_units(c: char) -> Seq<u16> {
    if (c as u32) < 0x10000 {
        seq![c as u32 as u16]
    } else {
        seq![
            (0xD800 + (c as u32 - 0x10000) / 0x400) as u16,
            (0xDC00 + (c as u32 - 0x10000) % 0x400) as u16,
        ]
    }
}

/// UTF-16 encoding of a text.
pub open spec fn utf16_units(cs: Seq<char>) -> Seq<u16>
    decreases cs.len(),
{
    if cs.len() == 0 {
        seq![]
    } else {
        utf16_units(cs.drop_last()) + char_units(cs.last())
    }
}

/// Little-endian bytes of 16-bit code units.
pub open spec fn units_le_bytes(u: Seq<u16>) -> Seq<u8> {
    Seq::new(
        2 * u.len(),
        |k: int|
            if k % 2 == 0 {
                (u[k / 2] % 256) as u8
            } else {
                (u[k / 2] / 256) as u8
            },
    )
}

/// A gamertag as the 32-byte, NUL-padded UTF-16LE field of a highlight event, or
/// `None` when its encoding is longer than the field.
pub open spec fn gamertag_field_spec(gamertag: Seq<char>) -> Option<Seq<u8>> {
    if units_le_bytes(utf16_units(gamertag)).len() <= 32 {
        Some(
            units_le_bytes(utf16_units(gamertag)) + Seq::new(
                (32 - units_le_bytes(utf16_units(gamertag)).len()) as nat,
                |k: int| 0u8,
            ),
        )
    } else {
        None
    }
}

/// Encodes a gamertag as a highlight event's 32-byte UTF-16LE field.
pub fn padded_gamertag_field(gamertag: &str) -> (r: Option<Vec<u8>>)
    ensures
        match gamertag_field_spec(gamertag@) {
            Some(field) => r is Some && r->0@ == field,
            None => r is None,
        },
{
    let chars = chars_of(gamertag);
    let mut units: Vec<u16> = Vec::new();
    let mut i: usize = 0;
    while i < chars.len()
        invariant
            i <= chars@.len(),
            chars@ == gamertag@,
            units@ == utf16_units(chars@.subrange(0, i as int)),
        decreases chars@.len() - i,
    {
        let c = chars[i];
        let x = c as u32;
        proof {
            assert(chars@.subrange(0, i + 1).drop_last() =~= chars@.subrange(0, i as int));
            assert(chars@.subrange(0, i + 1).last() == c);
            vstd::utf8::char_is_scalar(c);
        }
        let ghost prev = units@;
        if x < 0x10000 {
            units.push(x as u16);
        } else {
            let v = x - 0x10000;
            units.push((0xD800 + v / 0x400) as u16);
            units.push((0xDC00 + v % 0x400) as u16);
        }
        proof {
            assert(units@ =~= prev + char_units(c));
            assert(units@ =~= utf16_units(chars@.subrange(0, i + 1)));
        }
        i += 1;
    }
    proof {
        assert(chars@.subrange(0, chars@.len() as int) =~= chars@);
    }
    if units.len() > 16 {
        return None;
    }
    let mut field: Vec<u8> = Vec::new();
    let mut k: usize = 0;
    while k < 2 * units.len()
        invariant
            units@.len() <= 16,
            k <= 2 * units@.len(),
            field@ =~= units_le_bytes(units@).subrange(0, k as int),
        decreases 2 * units@.len() - k,
    {
        let unit = units[k / 2];
        if k % 2 == 0 {
            field.push((unit % 256) as u8);
        } else {
            field.push((unit / 256) as u8);
        }
        k += 1;
    }
    while field.len() < 32
        invariant
            units@.len() <= 16,
            2 * units@.len() <= field@.len() <= 32,
            field@.subrange(0, 2 * units@.len() as int) =~= units_le_bytes(units@),
            forall|j: int| 2 * units@.len() <= j < field@.len() ==> #[trigger] field@[j] == 0,
        decreases 32 - field@.len(),
    {
        field.push(0);
    }
    proof {
        let e = units_le_bytes(units@);
        assert(field@ =~= e + Seq::new((32 - e.len()) as nat, |k: int| 0u8));
    }
    Some(field)
}


/// Highlight event type decoded from its code and medal flag.
#[derive(Debug, Clone, Copy, PartialEq, Eq, Structural)]
pub enum FilmEventKind {
    Mode,
    Death,
    Kill,
    Medal,
    Other(u8),
}

/// A film medal: a catalogued one with its name, or an unknown identifier.
#[derive(Debug, Clone, Copy, PartialEq, Eq)]
pub enum FilmMedal {
    Known { id: u8, name: &'static str },
    Unknown(u8),
}

/// Known film-medal identifiers and their names.
pub const KNOWN_FILM_MEDALS: [(u8, &'static str); 110] = [
    (0, "Double Kill"),
    (1, "Triple Kill"),
    (2, "Overkill"),
    (3, "Killtacular"),
    (4, "Killtrocity"),
    (5, "Killamanjaro"),
    (6, "Killtastrophe"),
    (7, "Killpocalypse"),
    (8, "Killionaire"),
    (9, "Killing Spree"),
    (10, "Killing Frenzy"),
    (11, "Running Riot"),
    (12, "Rampage"),
    (13, "Perfection"),
    (26, "Killjoy"),
    (27, "Nightmare"),
    (28, "Boogeyman"),
    (29, "Grim Reaper"),
    (30, "Demon"),
    (31, "Flawless Victory"),
    (32, "Steaktacular"),
    (36, "Stopped Short"),
    (37, "Flag Joust"),
    (38, "Goal Line Stand"),
    (39, "Necromancer"),
    (43, "Ace"),
    (44, "Extermination"),
    (45, "Sole Survivor"),
    (46, "Untainted"),
    (47, "Blight"),
    (48, "Disease"),
    (49, "Plague"),
    (51, "Pestilence"),
    (53, "Culling"),
    (54, "Cleansing"),
    (55, "Purge"),
    (56, "Purification"),
    (57, "Divine Intervention"),
    (58, "Zombie Slayer"),
    (59, "Undead Hunter"),
    (60, "Hell's Janitor"),
    (61, "The Sickness"),
    (62, "Spotter"),
    (63, "Treasure Hunter"),
    (64, "Saboteur"),
    (65, "Wingman"),
    (66, "Wheelman"),
    (67, "Gunner"),
    (68, "Driver"),
    (69, "Pilot"),
    (70, "Tanker"),
    (71, "Rifleman"),
    (72, "Bomber"),
    (73, "Grenadier"),
    (74, "Boxer"),
    (75, "Warrior"),
    (76, "Gunslinger"),
    (77, "Scattergunner"),
    (78, "Sharpshooter"),
    (79, "Marksman"),
    (80, "Heavy"),
    (81, "Bodyguard"),
    (82, "Back Smack"),
    (83, "Nuclear Football"),
    (84, "Boom Block"),
    (85, "Bulltrue"),
    (86, "Cluster Luck"),
    (87, "Dogfight"),
    (88, "Harpoon"),
    (89, "Mind the Gap"),
    (90, "Ninja"),
    (91, "Odin's Raven"),
    (92, "Pancake"),
    (93, "Quigley"),
    (94, "Remote Detonation"),
    (95, "Return to Sender"),
    (96, "Rideshare"),
    (97, "Skyjack"),
    (98, "Stick"),
    (99, "Tag & Bag"),
    (108, "Snipe"),
    (109, "Perfect"),
    (114, "No Scope"),
    (127, "From the Grave"),
    (128, "From the Void"),
    (129, "Grapple-jack"),
    (130, "Hold This"),
    (131, "Last Shot"),
    (132, "Lawnmower"),
    (133, "Mount Up"),
    (134, "Off the Rack"),
    (135, "Quick Draw"),
    (137, "Pineapple Express"),
    (138, "Ramming Speed"),
    (139, "Reclaimer"),
    (140, "Shot Caller"),
    (141, "Yard Sale"),
    (142, "Special Delivery"),
    (146, "Fumble"),
    (148, "Straight Balling"),
    (151, "Always Rotating"),
    (152, "Hill Guardian"),
    (153, "Clock Stop"),
    (154, "Secure Line"),
    (156, "Splatter"),
    (162, "All That Juice"),
    (163, "Great Journey"),
    (165, "Breacher"),
    (166, "Mounted"),
    (168, "Counter-snipe"),
];

/// The medal for `id` from catalogue entry `i` on: the first entry with that
/// identifier, or `Unknown(id)` when none has it.
pub open spec fn medal_from(id: u8, i: int) -> FilmMedal
    decreases 110 - i,
{
    if i < 0 || i >= 110 {
        FilmMedal::Unknown(id)
    } else if KNOWN_FILM_MEDALS@[i].0 == id {
        FilmMedal::Known { id, name: KNOWN_FILM_MEDALS@[i].1 }
    } else {
        medal_from(id, i + 1)
    }
}

impl FilmMedal {
    /// The first catalogued medal for `id`, or `Unknown(id)`.
    pub fn from_id(id: u8) -> (r: Self)
        ensures
            r == medal_from(id, 0),
    {
        let mut i: usize = 0;
        while i < 110
            invariant
                i <= 110,
                medal_from(id, 0) == medal_from(id, i as int),
            decreases 110 - i,
        {
            let (known, name) = KNOWN_FILM_MEDALS[i];
            if known == id {
                return FilmMedal::Known { id, name };
            }
            i += 1;
        }
        FilmMedal::Unknown(id)
    }

    /// The medal's name, or `Unknown medal`.
    pub fn name(self) -> (r: &'static str)
        ensures
            r == (match self {
                FilmMedal::Known { name, .. } => name,
                FilmMedal::Unknown(_) => "Unknown medal",
            }),
    {
        match self {
            FilmMedal::Known { name, .. } => name,
            FilmMedal::Unknown(_) => "Unknown medal",
        }
    }
}

/// Event kind: a set medal flag wins; otherwise codes 10, 20 and 50 are mode,
/// death and kill.
pub open spec fn event_kind_spec(code: u8, medal_flag: u8) -> FilmEventKind {
    if medal_flag != 0 {
        FilmEventKind::Medal
    } else if code == 10 {
        FilmEventKind::Mode
    } else if code == 20 {
        FilmEventKind::Death
    } else if code == 50 {
        FilmEventKind::Kill
    } else {
        FilmEventKind::Other(code)
    }
}

impl FilmEventKind {
    /// Event kind: a set medal flag wins; otherwise codes 10, 20 and 50 are mode,
    /// death and kill.
    pub fn from_fields(code: u8, medal_flag: u8) -> (r: Self)
        ensures
            r == event_kind_spec(code, medal_flag),
    {
        if medal_flag != 0 {
            return FilmEventKind::Medal;
        }
        match code {
            10 => FilmEventKind::Mode,
            20 => FilmEventKind::Death,
            50 => FilmEventKind::Kill,
            other => FilmEventKind::Other(other),
        }
    }
}

/// One highlight event of the film footer.
#[derive(Debug, Clone, PartialEq, Eq)]
pub struct FilmEvent {
    pub xuid: u64,
    pub gamertag: String,
    pub timestamp_ms: u32,
    pub kind: FilmEventKind,
    pub medal_flag: u8,
    pub metadata: u8,
}

impl FilmEvent {
    /// The medal of a medal event, named from its metadata byte.
    pub fn medal(&self) -> (r: Option<FilmMedal>)
        ensures
            self.kind != FilmEventKind::Medal ==> r is None,
            self.kind == FilmEventKind::Medal ==> r == Some(medal_from(self.metadata, 0)),
    {
        if self.kind == FilmEventKind::Medal {
            Some(FilmMedal::from_id(self.metadata))
        } else {
            None
        }
    }
}

/// A recorded human player: XUID and gamertag.
#[derive(Debug, Clone, PartialEq, Eq)]
pub struct FilmPlayer {
    pub xuid: u64,
    pub gamertag: String,
}

/// The two bytes that follow a roster entry's XUID.
pub open spec fn player_marker() -> Seq<u8> {
    seq![0x2du8, 0xc0u8]
}

/// A player's XUID and gamertag text.
pub open spec fn player_view(p: FilmPlayer) -> (u64, Seq<char>) {
    (p.xuid, p.gamertag@)
}

pub open spec fn players_view(s: Seq<FilmPlayer>) -> Seq<(u64, Seq<char>)> {
    s.map_values(|p: FilmPlayer| player_view(p))
}

/// The roster entry ending at a marker at bit `m`: a 32-byte UTF-16 gamertag, 21 zero
/// bytes, then a little-endian XUID just before the marker. Accepted when the padding
/// is zero, the XUID is not zero and the gamertag text is not empty.
pub open spec fn roster_entry(data: Seq<u8>, m: int) -> Option<(u64, Seq<char>)> {
    if m < 488 {
        None
    } else {
        match (extract_spec(data, m - 64, 64), extract_spec(data, m - 488, 256)) {
            (Some(xuid_bytes), Some(gamertag_bytes)) => {
                if !zero_bits(data, m - 232, 168) || le_value(xuid_bytes, 0, 8) == 0
                    || utf16_field_text(gamertag_bytes).len() == 0 {
                    None
                } else {
                    Some((le_value(xuid_bytes, 0, 8) as u64, utf16_field_text(gamertag_bytes)))
                }
            },
            _ => None,
        }
    }
}

/// Roster entries at the given marker positions, in order.
pub open spec fn roster_entries(data: Seq<u8>, ps: Seq<usize>) -> Seq<(u64, Seq<char>)>
    decreases ps.len(),
{
    if ps.len() == 0 {
        seq![]
    } else {
        roster_entries(data, ps.drop_last()) + match roster_entry(data, ps.last() as int) {
            Some(e) => seq![e],
            None => seq![],
        }
    }
}

/// Roster entries of every chunk except the footer (manifest type 3), in order.
pub open spec fn all_roster_entries(chunks: Seq<FilmChunkData>) -> Seq<(u64, Seq<char>)>
    decreases chunks.len(),
{
    if chunks.len() == 0 {
        seq![]
    } else {
        all_roster_entries(chunks.drop_last()) + if chunks.last().metadata.chunk_type != 3 {
            roster_entries(
                chunks.last().data@,
                pattern_positions(chunks.last().data@, player_marker()),
            )
        } else {
            seq![]
        }
    }
}

/// Adds a player to a table ordered by XUID unless its XUID is already there.
pub open spec fn insert_player(s: Seq<(u64, Seq<char>)>, c: (u64, Seq<char>)) -> Seq<
    (u64, Seq<char>),
>
    decreases s.len(),
{
    if s.len() == 0 {
        seq![c]
    } else if c.0 == s[0].0 {
        s
    } else if c.0 < s[0].0 {
        seq![c] + s
    } else {
        seq![s[0]] + insert_player(s.drop_first(), c)
    }
}

/// The players of a sequence of roster entries: one per XUID, the first entry
/// seen for it, ordered by XUID.
pub open spec fn player_table(cands: Seq<(u64, Seq<char>)>) -> Seq<(u64, Seq<char>)>
    decreases cands.len(),
{
    if cands.len() == 0 {
        seq![]
    } else {
        insert_player(player_table(cands.drop_last()), cands.last())
    }
}

/// XUIDs strictly increase along the table.
pub open spec fn xuids_increase(s: Seq<(u64, Seq<char>)>) -> bool {
    forall|i: int, j: int| 0 <= i < j < s.len() ==> #[trigger] s[i].0 < #[trigger] s[j].0
}

proof fn lemma_insert_player_at(s: Seq<(u64, Seq<char>)>, c: (u64, Seq<char>), j: int)
    requires
        0 <= j <= s.len(),
        forall|k: int| 0 <= k < j ==> #[trigger] s[k].0 < c.0,
        j < s.len() ==> s[j].0 >= c.0,
    ensures
        insert_player(s, c) == (if j < s.len() && s[j].0 == c.0 {
            s
        } else {
            s.insert(j, c)
        }),
    decreases j,
{
    if j == 0 {
        if s.len() > 0 && c.0 < s[0].0 {
            assert(seq![c] + s =~= s.insert(0, c));
        } else if s.len() == 0 {
            assert(seq![c] =~= s.insert(0, c));
        }
    } else {
        let t = s.drop_first();
        assert forall|k: int| 0 <= k < j - 1 implies #[trigger] t[k].0 < c.0 by {
            assert(t[k] == s[k + 1]);
        }
        lemma_insert_player_at(t, c, j - 1);
        if j < s.len() && s[j].0 == c.0 {
            assert(seq![s[0]] + t =~= s);
        } else {
            assert(seq![s[0]] + t.insert(j - 1, c) =~= s.insert(j, c));
        }
    }
}

proof fn lemma_insert_player_increasing(s: Seq<(u64, Seq<char>)>, c: (u64, Seq<char>))
    requires
        xuids_increase(s),
    ensures
        xuids_increase(insert_player(s, c)),
        forall|k: int|
            0 <= k < insert_player(s, c).len() ==> (#[trigger] insert_player(s, c)[k].0 == c.0
                || exists|m: int| 0 <= m < s.len() && s[m].0 == insert_player(s, c)[k].0),
    decreases s.len(),
{
    if s.len() > 0 && c.0 > s[0].0 {
        let t = s.drop_first();
        assert(xuids_increase(t)) by {
            assert forall|i: int, j: int| 0 <= i < j < t.len() implies #[trigger] t[i].0
                < #[trigger] t[j].0 by {
                assert(s[i + 1].0 < s[j + 1].0);
            }
        }
        lemma_insert_player_increasing(t, c);
        let r = insert_player(t, c);
        assert forall|k: int| 0 <= k < r.len() implies r[k].0 > s[0].0 by {
            if r[k].0 != c.0 {
                let m = choose|m: int| 0 <= m < t.len() && t[m].0 == r[k].0;
                assert(s[0].0 < s[m + 1].0);
            }
        }
        let full = seq![s[0]] + r;
        assert forall|k: int|
            0 <= k < full.len() implies (#[trigger] full[k].0 == c.0 || exists|m: int|
                0 <= m < s.len() && s[m].0 == full[k].0) by {
            if k == 0 {
                assert(s[0].0 == full[0].0);
            } else if full[k].0 != c.0 {
                assert(full[k] == r[k - 1]);
                let m = choose|m: int| 0 <= m < t.len() && t[m].0 == r[k - 1].0;
                assert(s[m + 1].0 == full[k].0);
            }
        }
    } else if s.len() > 0 && c.0 < s[0].0 {
        let full = seq![c] + s;
        assert forall|k: int|
            0 <= k < full.len() implies (#[trigger] full[k].0 == c.0 || exists|m: int|
                0 <= m < s.len() && s[m].0 == full[k].0) by {
            if k > 0 {
                assert(s[k - 1].0 == full[k].0);
            }
        }
    } else if s.len() > 0 {
        assert forall|k: int|
            0 <= k < s.len() implies (#[trigger] s[k].0 == c.0 || exists|m: int|
                0 <= m < s.len() && s[m].0 == s[k].0) by {
            assert(s[k].0 == s[k].0);
        }
    }
}

/// The player table is ordered by strictly increasing XUID.
pub proof fn lemma_player_table_increasing(cands: Seq<(u64, Seq<char>)>)
    ensures
        xuids_increase(player_table(cands)),
    decreases cands.len(),
{
    if cands.len() > 0 {
        lemma_player_table_increasing(cands.drop_last());
        lemma_insert_player_increasing(player_table(cands.drop_last()), cands.last());
    }
}

/// Adds a roster entry to the XUID-ordered player list unless its XUID is known.
pub fn add_player(players: &mut Vec<FilmPlayer>, xuid: u64, gamertag: String)
    ensures
        players_view(final(players)@) == insert_player(players_view(old(players)@), (xuid, gamertag@)),
{
    let ghost s = players_view(players@);
    let mut j: usize = 0;
    while j < players.len() && players[j].xuid < xuid
        invariant
            j <= players@.len(),
            s == players_view(players@),
            forall|k: int| 0 <= k < j ==> #[trigger] s[k].0 < xuid,
        decreases players@.len() - j,
    {
        j += 1;
    }
    proof {
        lemma_insert_player_at(s, (xuid, gamertag@), j as int);
    }
    if j < players.len() && players[j].xuid == xuid {
        return;
    }
    let ghost old_players = players@;
    players.insert(j, FilmPlayer { xuid, gamertag });
    proof {
        assert(players_view(players@) =~= s.insert(j as int, (xuid, gamertag@)));
    }
}

/// Every chunk's bit length, plus room for a 64-bit window, fits in `usize`.
pub open spec fn chunks_addressable(chunks: Seq<FilmChunkData>) -> bool {
    forall|i: int| 0 <= i < chunks.len() ==> #[trigger] chunks[i].data@.len() * 8 + 64 <= usize::MAX
}

/// Little-endian `u64` of eight bytes.
fn le_u64(bytes: &Vec<u8>) -> (v: u64)
    requires
        bytes@.len() == 8,
    ensures
        v as nat == le_value(bytes@, 0, 8),
{
    read_le(bytes.as_slice(), 0, 8)
}

/// The roster entry ending at the marker at bit `m`.
pub fn roster_entry_at(data: &[u8], m: usize) -> (r: Option<(u64, String)>)
    requires
        data@.len() * 8 + 64 <= usize::MAX,
    ensures
        match roster_entry(data@, m as int) {
            Some(e) => r matches Some(p) && p.0 == e.0 && p.1@ == e.1,
            None => r is None,
        },
{
    if m < 488 {
        return None;
    }
    let xuid_position = m - 64;
    let padding_position = xuid_position - 168;
    let gamertag_position = padding_position - 256;
    let xuid_bytes = match extract_bits(data, xuid_position, 64) {
        Some(b) => b,
        None => return None,
    };
    if !bits_are_zero(data, padding_position, 168) {
        return None;
    }
    let xuid = le_u64(&xuid_bytes);
    if xuid == 0 {
        return None;
    }
    let gamertag_bytes = match extract_bits(data, gamertag_position, 256) {
        Some(b) => b,
        None => return None,
    };
    let gamertag = decode_utf16(gamertag_bytes.as_slice());
    if gamertag.as_str().is_empty() {
        return None;
    }
    Some((xuid, gamertag))
}

/// Recorded human players from the roster entries of every non-footer chunk: one
/// per XUID (its first entry), ordered by XUID.
pub fn decode_players(chunks: &[FilmChunkData]) -> (r: Vec<FilmPlayer>)
    requires
        chunks_addressable(chunks@),
    ensures
        players_view(r@) == player_table(all_roster_entries(by_index(chunks@))),
        xuids_increase(players_view(r@)),
{
    let mut players: Vec<FilmPlayer> = Vec::new();
    let marker: Vec<u8> = vec![0x2du8, 0xc0u8];
    let ghost mut seen: Seq<(u64, Seq<char>)> = seq![];
    let order = index_order(chunks);
    let ghost ordered = by_index(chunks@);
    let mut c: usize = 0;
    while c < order.len()
        invariant
            c <= order@.len(),
            ordered == chunks_at(chunks@, order@),
            forall|k: int| 0 <= k < order@.len() ==> #[trigger] order@[k] < chunks@.len(),
            chunks_addressable(chunks@),
            marker@ == player_marker(),
            seen == all_roster_entries(ordered.subrange(0, c as int)),
            players_view(players@) == player_table(seen),
        decreases order@.len() - c,
    {
        let chunk = &chunks[order[c]];
        let ghost before = seen;
        proof {
            assert(ordered.subrange(0, c + 1).drop_last() =~= ordered.subrange(0, c as int));
            assert(ordered[c as int] == chunks@[order@[c as int] as int]);
            assert(ordered.subrange(0, c + 1).last() == ordered[c as int]);
            assert(chunks@[order@[c as int] as int].data@.len() * 8 + 64 <= usize::MAX);
        }
        if chunk.metadata.chunk_type != 3 {
            let data = chunk.data.as_slice();
            let positions = find_bit_pattern(data, marker.as_slice());
            let mut t: usize = 0;
            while t < positions.len()
                invariant
                    t <= positions@.len(),
                    data@ == chunk.data@,
                    data@.len() * 8 + 64 <= usize::MAX,
                    seen == before + roster_entries(data@, positions@.subrange(0, t as int)),
                    players_view(players@) == player_table(seen),
                decreases positions@.len() - t,
            {
                let ghost prev = seen;
                proof {
                    assert(positions@.subrange(0, t + 1).drop_last() =~= positions@.subrange(
                        0,
                        t as int,
                    ));
                }
                match roster_entry_at(data, positions[t]) {
                    Some((xuid, gamertag)) => {
                        proof {
                            seen = seen.push((xuid, gamertag@));
                            assert(seen.drop_last() =~= prev);
                        }
                        add_player(&mut players, xuid, gamertag);
                    },
                    None => {},
                }
                proof {
                    assert(seen =~= before + roster_entries(data@, positions@.subrange(0, t + 1)));
                }
                t += 1;
            }
            proof {
                assert(positions@.subrange(0, positions@.len() as int) =~= positions@);
            }
        } else {
            proof {
                assert(seen =~= before + Seq::<(u64, Seq<char>)>::empty());
            }
        }
        c += 1;
    }
    proof {
        assert(ordered.subrange(0, order@.len() as int) =~= ordered);
        lemma_player_table_increasing(seen);
    }
    players
}

/// Counters that explain how many roster markers yielded players.
#[derive(Debug, Clone, Copy, Default, PartialEq, Eq, Structural)]
pub struct FilmDecodeDiagnostics {
    pub player_markers: usize,
    pub markers_with_zero_padding: usize,
    pub decoded_gamertags: usize,
}

/// What one marker at bit `m` contributes: the marker itself; zero padding 232 to
/// 64 bits before it; and, with that padding, a non-empty gamertag field before it.
pub open spec fn marker_diagnostics(data: Seq<u8>, m: int) -> (nat, nat, nat) {
    if m >= 232 && zero_bits(data, m - 232, 168) {
        if m >= 488 && (match extract_spec(data, m - 488, 256) {
            Some(bytes) => utf16_field_text(bytes).len() > 0,
            None => false,
        }) {
            (1, 1, 1)
        } else {
            (1, 1, 0)
        }
    } else {
        (1, 0, 0)
    }
}

pub open spec fn add3(a: (nat, nat, nat), b: (nat, nat, nat)) -> (nat, nat, nat) {
    (a.0 + b.0, a.1 + b.1, a.2 + b.2)
}

/// Diagnostic counts over the markers at the given positions.
pub open spec fn marker_counts(data: Seq<u8>, ps: Seq<usize>) -> (nat, nat, nat)
    decreases ps.len(),
{
    if ps.len() == 0 {
        (0, 0, 0)
    } else {
        add3(marker_counts(data, ps.drop_last()), marker_diagnostics(data, ps.last() as int))
    }
}

/// Diagnostic counts over the roster markers of every non-footer chunk.
pub open spec fn diagnostics_spec(chunks: Seq<FilmChunkData>) -> (nat, nat, nat)
    decreases chunks.len(),
{
    if chunks.len() == 0 {
        (0, 0, 0)
    } else {
        add3(
            diagnostics_spec(chunks.drop_last()),
            if chunks.last().metadata.chunk_type != 3 {
                marker_counts(
                    chunks.last().data@,
                    pattern_positions(chunks.last().data@, player_marker()),
                )
            } else {
                (0, 0, 0)
            },
        )
    }
}

/// A count as a `usize` holds it: the count itself, or the largest `usize` past it.
pub open spec fn cap(x: nat) -> nat {
    if x <= usize::MAX {
        x
    } else {
        usize::MAX as nat
    }
}

pub open spec fn cap3(x: (nat, nat, nat)) -> (nat, nat, nat) {
    (cap(x.0), cap(x.1), cap(x.2))
}

/// Counts roster markers, those with zero padding, and those whose gamertag decodes;
/// a count stays at the largest `usize` once it reaches it.
pub fn decode_diagnostics(chunks: &[FilmChunkData]) -> (r: FilmDecodeDiagnostics)
    requires
        chunks_addressable(chunks@),
    ensures
        (r.player_markers as nat, r.markers_with_zero_padding as nat, r.decoded_gamertags as nat)
            == cap3(diagnostics_spec(chunks@)),
{
    let mut markers: usize = 0;
    let mut padded: usize = 0;
    let mut decoded: usize = 0;
    let marker: Vec<u8> = vec![0x2du8, 0xc0u8];
    proof {
        assert(chunks@.subrange(0, 0) =~= Seq::<FilmChunkData>::empty());
    }
    let mut c: usize = 0;
    while c < chunks.len()
        invariant
            c <= chunks@.len(),
            chunks_addressable(chunks@),
            marker@ == player_marker(),
            (markers as nat, padded as nat, decoded as nat) == cap3(diagnostics_spec(
                chunks@.subrange(0, c as int),
            )),
        decreases chunks@.len() - c,
    {
        let chunk = &chunks[c];
        let ghost before = diagnostics_spec(chunks@.subrange(0, c as int));
        proof {
            assert(chunks@.subrange(0, c + 1).drop_last() =~= chunks@.subrange(0, c as int));
            assert(chunks@[c as int].data@.len() * 8 + 64 <= usize::MAX);
        }
        if chunk.metadata.chunk_type != 3 {
            let data = chunk.data.as_slice();
            let positions = find_bit_pattern(data, marker.as_slice());
            let ghost total = marker_counts(data@, positions@);
            let mut t: usize = 0;
            while t < positions.len()
                invariant
                    t <= positions@.len(),
                    data@ == chunk.data@,
                    data@.len() * 8 + 64 <= usize::MAX,
                    total == marker_counts(data@, positions@),
                    (markers as nat, padded as nat, decoded as nat) == cap3(add3(
                        before,
                        marker_counts(data@, positions@.subrange(0, t as int)),
                    )),
                decreases positions@.len() - t,
            {
                proof {
                    assert(positions@.subrange(0, t + 1).drop_last() =~= positions@.subrange(
                        0,
                        t as int,
                    ));
                }
                let m = positions[t];
                proof {
                    let step = marker_diagnostics(data@, m as int);
                    assert(marker_counts(data@, positions@.subrange(0, t + 1)) == add3(
                        marker_counts(data@, positions@.subrange(0, t as int)),
                        step,
                    ));
                }
                markers = if markers < usize::MAX { markers + 1 } else { markers };
                if m >= 232 && bits_are_zero(data, m - 232, 168) {
                    padded = if padded < usize::MAX { padded + 1 } else { padded };
                    if m >= 488 {
                        match extract_bits(data, m - 488, 256) {
                            Some(bytes) => {
                                let text = decode_utf16(bytes.as_slice());
                                if !text.as_str().is_empty() {
                                    decoded = if decoded < usize::MAX { decoded + 1 } else { decoded };
                                }
                            },
                            None => {},
                        }
                    }
                }
                t += 1;
            }
            proof {
                assert(positions@.subrange(0, positions@.len() as int) =~= positions@);
            }
        }
        c += 1;
    }
    proof {
        assert(chunks@.subrange(0, chunks@.len() as int) =~= chunks@);
    }
    FilmDecodeDiagnostics {
        player_markers: markers,
        markers_with_zero_padding: padded,
        decoded_gamertags: decoded,
    }
}

/// The `n` low-order bytes of `x`, least significant first.
pub open spec fn le_bytes_of(x: nat, n: nat) -> Seq<u8>
    decreases n,
{
    if n == 0 {
        seq![]
    } else {
        seq![(x % 256) as u8] + le_bytes_of(x / 256, (n - 1) as nat)
    }
}

/// The eight little-endian bytes of a `u64`.
pub fn u64_le_bytes(x: u64) -> (r: Vec<u8>)
    ensures
        r@ == le_bytes_of(x as nat, 8),
{
    let mut out: Vec<u8> = Vec::new();
    let mut v: u64 = x;
    let mut i: usize = 0;
    while i < 8
        invariant
            i <= 8,
            out@ + le_bytes_of(v as nat, (8 - i) as nat) == le_bytes_of(x as nat, 8),
        decreases 8 - i,
    {
        let ghost rest = le_bytes_of((v / 256) as nat, (8 - i - 1) as nat);
        let ghost before = out@;
        out.push((v % 256) as u8);
        proof {
            assert(le_bytes_of(v as nat, (8 - i) as nat) == seq![(v % 256) as u8] + rest);
            assert(before + (seq![(v % 256) as u8] + rest) =~= out@ + rest);
        }
        v = v / 256;
        i += 1;
    }
    proof {
        assert(out@ + Seq::<u8>::empty() =~= out@);
    }
    out
}

/// One player's step of the index search in a chunk: unless already indexed, the
/// five bits just before the first occurrence of the player's little-endian XUID.
pub open spec fn index_step(m: Map<u64, u8>, data: Seq<u8>, xuid: u64) -> Map<u64, u8> {
    if m.contains_key(xuid) {
        m
    } else if pattern_positions(data, le_bytes_of(xuid as nat, 8)).len() == 0 {
        m
    } else if pattern_positions(data, le_bytes_of(xuid as nat, 8))[0] < 5 {
        m
    } else {
        match extract_spec(data, pattern_positions(data, le_bytes_of(xuid as nat, 8))[0] - 5, 5) {
            Some(bits) => m.insert(xuid, bits[0] >> 3u8),
            None => m,
        }
    }
}

/// The index search over the given players in one chunk.
pub open spec fn chunk_indices(m: Map<u64, u8>, data: Seq<u8>, players: Seq<FilmPlayer>) -> Map<
    u64,
    u8,
>
    decreases players.len(),
{
    if players.len() == 0 {
        m
    } else {
        index_step(chunk_indices(m, data, players.drop_last()), data, players.last().xuid)
    }
}

/// Replication indices found across the replication chunks (manifest type 2), in order.
pub open spec fn player_indices_spec(chunks: Seq<FilmChunkData>, players: Seq<FilmPlayer>) -> Map<
    u64,
    u8,
>
    decreases chunks.len(),
{
    if chunks.len() == 0 {
        Map::empty()
    } else if chunks.last().metadata.chunk_type == 2 {
        chunk_indices(
            player_indices_spec(chunks.drop_last(), players),
            chunks.last().data@,
            players,
        )
    } else {
        player_indices_spec(chunks.drop_last(), players)
    }
}

/// Finds the film's 5-bit replication index for each known human player.
pub fn decode_player_indices(chunks: &[FilmChunkData], players: &[FilmPlayer]) -> (r: BTreeMap<
    u64,
    u8,
>)
    requires
        chunks_addressable(chunks@),
    ensures
        r@ == player_indices_spec(by_index(chunks@), players@),
{
    let mut indices: BTreeMap<u64, u8> = BTreeMap::new();
    let order = index_order(chunks);
    let ghost ordered = by_index(chunks@);
    let mut c: usize = 0;
    while c < order.len()
        invariant
            c <= order@.len(),
            ordered == chunks_at(chunks@, order@),
            forall|k: int| 0 <= k < order@.len() ==> #[trigger] order@[k] < chunks@.len(),
            chunks_addressable(chunks@),
            indices@ == player_indices_spec(ordered.subrange(0, c as int), players@),
        decreases order@.len() - c,
    {
        let chunk = &chunks[order[c]];
        let ghost before = indices@;
        proof {
            assert(ordered.subrange(0, c + 1).drop_last() =~= ordered.subrange(0, c as int));
            assert(ordered[c as int] == chunks@[order@[c as int] as int]);
            assert(ordered.subrange(0, c + 1).last() == ordered[c as int]);
            assert(chunks@[order@[c as int] as int].data@.len() * 8 + 64 <= usize::MAX);
        }
        if chunk.metadata.chunk_type == 2 {
            let data = chunk.data.as_slice();
            let mut k: usize = 0;
            while k < players.len()
                invariant
                    k <= players@.len(),
                    data@ == chunk.data@,
                    data@.len() * 8 + 64 <= usize::MAX,
                    indices@ == chunk_indices(before, data@, players@.subrange(0, k as int)),
                decreases players@.len() - k,
            {
                let player = &players[k];
                proof {
                    assert(players@.subrange(0, k + 1).drop_last() =~= players@.subrange(
                        0,
                        k as int,
                    ));
                }
                if !indices.contains_key(&player.xuid) {
                    let xuid = u64_le_bytes(player.xuid);
                    let positions = find_bit_pattern(data, xuid.as_slice());
                    if positions.len() > 0 && positions[0] >= 5 {
                        match extract_bits(data, positions[0] - 5, 5) {
                            Some(bits) => {
                                indices.insert(player.xuid, bits[0] >> 3u8);
                            },
                            None => {},
                        }
                    }
                }
                k += 1;
            }
            proof {
                assert(players@.subrange(0, players@.len() as int) =~= players@);
            }
        }
        c += 1;
    }
    proof {
        assert(ordered.subrange(0, order@.len() as int) =~= ordered);
    }
    indices
}

/// An event's fields, its gamertag as text.
pub type EventView = (u64, Seq<char>, u32, FilmEventKind, u8, u8);

pub open spec fn event_view(e: FilmEvent) -> EventView {
    (e.xuid, e.gamertag@, e.timestamp_ms, e.kind, e.medal_flag, e.metadata)
}

pub open spec fn events_view(s: Seq<FilmEvent>) -> Seq<EventView> {
    s.map_values(|e: FilmEvent| event_view(e))
}

/// Big-endian value of four bytes at `o`.
pub open spec fn be_u32(d: Seq<u8>, o: int) -> u32 {
    (d[o] * 0x100_0000 + d[o + 1] * 0x1_0000 + d[o + 2] * 0x100 + d[o + 3]) as u32
}

/// The highlight event whose gamertag field starts at bit `pos`: three zero bytes and
/// a twelve-byte header before the field, and sixty bytes from the field on that start
/// with the player's exact field; timestamp (big-endian), code, medal flag and
/// metadata sit at bytes 48, 47, 55 and 59 of them.
pub open spec fn event_at(data: Seq<u8>, pos: int, xuid: u64, gamertag: Seq<char>, field: Seq<u8>) -> Option<EventView> {
    if pos < 120 || !zero_bits(data, pos - 120, 24) {
        None
    } else {
        match extract_spec(data, pos, 480) {
            Some(d) => if d.subrange(0, 32) == field {
                Some((xuid, gamertag, be_u32(d, 48), event_kind_spec(d[47], d[55]), d[55], d[59]))
            } else {
                None
            },
            None => None,
        }
    }
}

/// Events at the given field positions, in order.
pub open spec fn events_at(data: Seq<u8>, xuid: u64, gamertag: Seq<char>, field: Seq<u8>, ps: Seq<usize>) -> Seq<EventView>
    decreases ps.len(),
{
    if ps.len() == 0 {
        seq![]
    } else {
        events_at(data, xuid, gamertag, field, ps.drop_last()) + match event_at(data, ps.last() as int, xuid, gamertag, field) {
            Some(e) => seq![e],
            None => seq![],
        }
    }
}

/// One player's events in a footer chunk: at every occurrence of the player's field.
pub open spec fn player_events(data: Seq<u8>, p: FilmPlayer) -> Seq<EventView> {
    match gamertag_field_spec(p.gamertag@) {
        Some(field) => events_at(data, p.xuid, p.gamertag@, field, pattern_positions(data, field)),
        None => seq![],
    }
}

/// Events of a footer chunk, player by player.
pub open spec fn chunk_events(data: Seq<u8>, players: Seq<FilmPlayer>) -> Seq<EventView>
    decreases players.len(),
{
    if players.len() == 0 {
        seq![]
    } else {
        chunk_events(data, players.drop_last()) + player_events(data, players.last())
    }
}

/// Events of every footer chunk (manifest type 3), in discovery order.
pub open spec fn found_events(chunks: Seq<FilmChunkData>, players: Seq<FilmPlayer>) -> Seq<EventView>
    decreases chunks.len(),
{
    if chunks.len() == 0 {
        seq![]
    } else {
        found_events(chunks.drop_last(), players) + if chunks.last().metadata.chunk_type == 3 {
            chunk_events(chunks.last().data@, players)
        } else {
            seq![]
        }
    }
}

/// Inserts an event after every event that is not later than it.
pub open spec fn insert_by_time(s: Seq<EventView>, e: EventView) -> Seq<EventView>
    decreases s.len(),
{
    if s.len() == 0 {
        seq![e]
    } else if e.2 < s[0].2 {
        seq![e] + s
    } else {
        seq![s[0]] + insert_by_time(s.drop_first(), e)
    }
}

/// Events ordered by timestamp, equal timestamps kept in discovery order.
pub open spec fn sort_by_time(s: Seq<EventView>) -> Seq<EventView>
    decreases s.len(),
{
    if s.len() == 0 {
        seq![]
    } else {
        insert_by_time(sort_by_time(s.drop_last()), s.last())
    }
}

/// Drops each event equal to the one before it.
pub open spec fn dedup_events(s: Seq<EventView>) -> Seq<EventView>
    decreases s.len(),
{
    if s.len() <= 1 {
        s
    } else if s.last() == s[s.len() - 2] {
        dedup_events(s.drop_last())
    } else {
        dedup_events(s.drop_last()).push(s.last())
    }
}

proof fn lemma_insert_by_time_at(s: Seq<EventView>, e: EventView, j: int)
    requires
        0 <= j <= s.len(),
        forall|k: int| 0 <= k < j ==> #[trigger] s[k].2 <= e.2,
        j < s.len() ==> e.2 < s[j].2,
    ensures
        insert_by_time(s, e) == s.insert(j, e),
    decreases j,
{
    if j == 0 {
        if s.len() > 0 {
            assert(seq![e] + s =~= s.insert(0, e));
        } else {
            assert(seq![e] =~= s.insert(0, e));
        }
    } else {
        let t = s.drop_first();
        assert forall|k: int| 0 <= k < j - 1 implies #[trigger] t[k].2 <= e.2 by {
            assert(t[k] == s[k + 1]);
        }
        lemma_insert_by_time_at(t, e, j - 1);
        assert(seq![s[0]] + t.insert(j - 1, e) =~= s.insert(j, e));
    }
}

/// Timestamps never decrease along the list.
pub open spec fn times_ordered(s: Seq<EventView>) -> bool {
    forall|i: int, j: int| 0 <= i < j < s.len() ==> #[trigger] s[i].2 <= #[trigger] s[j].2
}

/// No event equals the one right before it.
pub open spec fn no_repeats(s: Seq<EventView>) -> bool {
    forall|i: int| 0 < i < s.len() ==> #[trigger] s[i] != s[i - 1]
}

proof fn lemma_insert_by_time_ordered(s: Seq<EventView>, e: EventView)
    requires
        times_ordered(s),
    ensures
        times_ordered(insert_by_time(s, e)),
        forall|k: int|
            0 <= k < insert_by_time(s, e).len() ==> (#[trigger] insert_by_time(s, e)[k] == e
                || s.contains(insert_by_time(s, e)[k])),
    decreases s.len(),
{
    if s.len() > 0 && e.2 >= s[0].2 {
        let t = s.drop_first();
        assert(times_ordered(t)) by {
            assert forall|i: int, j: int| 0 <= i < j < t.len() implies #[trigger] t[i].2
                <= #[trigger] t[j].2 by {
                assert(s[i + 1].2 <= s[j + 1].2);
            }
        }
        lemma_insert_by_time_ordered(t, e);
        let r = insert_by_time(t, e);
        let full = seq![s[0]] + r;
        assert forall|k: int| 0 <= k < full.len() implies (#[trigger] full[k] == e
            || s.contains(full[k])) by {
            if k == 0 {
                assert(s[0] == full[0]);
            } else if full[k] != e {
                assert(full[k] == r[k - 1]);
                let m = choose|m: int| 0 <= m < t.len() && t[m] == r[k - 1];
                assert(s[m + 1] == full[k]);
            }
        }
        assert forall|k: int| 0 <= k < r.len() implies s[0].2 <= #[trigger] r[k].2 by {
            if r[k] != e {
                let m = choose|m: int| 0 <= m < t.len() && t[m] == r[k];
                assert(s[0].2 <= s[m + 1].2);
            }
        }
        assert forall|i: int, j: int| 0 <= i < j < full.len() implies #[trigger] full[i].2
            <= #[trigger] full[j].2 by {
            if i > 0 {
                assert(full[i] == r[i - 1] && full[j] == r[j - 1]);
            } else {
                assert(full[j] == r[j - 1]);
            }
        }
    } else if s.len() > 0 {
        let full = seq![e] + s;
        assert forall|k: int| 0 <= k < full.len() implies (#[trigger] full[k] == e
            || s.contains(full[k])) by {
            if k > 0 {
                assert(s[k - 1] == full[k]);
            }
        }
        assert forall|i: int, j: int| 0 <= i < j < full.len() implies #[trigger] full[i].2
            <= #[trigger] full[j].2 by {
            if i > 0 {
                assert(full[i] == s[i - 1] && full[j] == s[j - 1]);
            } else {
                assert(full[j] == s[j - 1]);
                assert(s[0].2 <= s[j - 1].2);
            }
        }
    }
}

proof fn lemma_sort_by_time_ordered(s: Seq<EventView>)
    ensures
        times_ordered(sort_by_time(s)),
    decreases s.len(),
{
    if s.len() > 0 {
        lemma_sort_by_time_ordered(s.drop_last());
        lemma_insert_by_time_ordered(sort_by_time(s.drop_last()), s.last());
    }
}

proof fn lemma_dedup_events(s: Seq<EventView>)
    requires
        times_ordered(s),
    ensures
        times_ordered(dedup_events(s)),
        no_repeats(dedup_events(s)),
        s.len() > 0 ==> dedup_events(s).len() > 0 && dedup_events(s).last() == s.last(),
        forall|k: int| 0 <= k < dedup_events(s).len() ==> s.contains(#[trigger] dedup_events(s)[k]),
    decreases s.len(),
{
    if s.len() > 1 {
        let t = s.drop_last();
        assert(times_ordered(t)) by {
            assert forall|i: int, j: int| 0 <= i < j < t.len() implies #[trigger] t[i].2
                <= #[trigger] t[j].2 by {
                assert(s[i].2 <= s[j].2);
            }
        }
        lemma_dedup_events(t);
        let d = dedup_events(t);
        assert(t.last() == s[s.len() - 2]);
        if s.last() != s[s.len() - 2] {
            let full = d.push(s.last());
            assert forall|k: int| 0 <= k < full.len() implies s.contains(#[trigger] full[k]) by {
                if k < d.len() {
                    let m = choose|m: int| 0 <= m < t.len() && t[m] == d[k];
                    assert(s[m] == full[k]);
                } else {
                    assert(s[s.len() - 1] == full[k]);
                }
            }
            assert forall|i: int, j: int| 0 <= i < j < full.len() implies #[trigger] full[i].2
                <= #[trigger] full[j].2 by {
                if j == d.len() {
                    let m = choose|m: int| 0 <= m < t.len() && t[m] == d[i];
                    assert(s[m].2 <= s[s.len() - 1].2);
                } else {
                    assert(full[i] == d[i] && full[j] == d[j]);
                }
            }
            assert forall|i: int| 0 < i < full.len() implies #[trigger] full[i] != full[i - 1] by {
                if i == d.len() {
                    assert(full[i - 1] == d.last());
                } else {
                    assert(full[i] == d[i] && full[i - 1] == d[i - 1]);
                }
            }
        } else {
            assert forall|k: int| 0 <= k < d.len() implies s.contains(#[trigger] d[k]) by {
                let m = choose|m: int| 0 <= m < t.len() && t[m] == d[k];
                assert(s[m] == d[k]);
            }
        }
    } else if s.len() == 1 {
        assert(s.contains(s[0]));
    }
}

/// Decoded events are ordered by timestamp and no event repeats the one before it.
pub proof fn lemma_decoded_events_ordered(found: Seq<EventView>)
    ensures
        times_ordered(dedup_events(sort_by_time(found))),
        no_repeats(dedup_events(sort_by_time(found))),
{
    lemma_sort_by_time_ordered(found);
    lemma_dedup_events(sort_by_time(found));
}

/// Inserts a found event into the time-ordered list.
fn insert_event(events: &mut Vec<FilmEvent>, e: FilmEvent)
    ensures
        events_view(final(events)@) == insert_by_time(events_view(old(events)@), event_view(e)),
{
    let ghost s = events_view(events@);
    let mut j: usize = 0;
    while j < events.len() && events[j].timestamp_ms <= e.timestamp_ms
        invariant
            j <= events@.len(),
            s == events_view(events@),
            forall|k: int| 0 <= k < j ==> #[trigger] s[k].2 <= e.timestamp_ms,
        decreases events@.len() - j,
    {
        j += 1;
    }
    proof {
        lemma_insert_by_time_at(s, event_view(e), j as int);
    }
    let ghost ev = event_view(e);
    events.insert(j, e);
    proof {
        assert(events_view(events@) =~= s.insert(j as int, ev));
    }
}

/// Whether two events agree in every field.
fn same_event(a: &FilmEvent, b: &FilmEvent) -> (r: bool)
    ensures
        r == (event_view(*a) == event_view(*b)),
{
    a.xuid == b.xuid && a.gamertag == b.gamertag && a.timestamp_ms == b.timestamp_ms && a.kind
        == b.kind && a.medal_flag == b.medal_flag && a.metadata == b.metadata
}

/// A field-by-field copy of an event.
fn copy_event(e: &FilmEvent) -> (r: FilmEvent)
    ensures
        event_view(r) == event_view(*e),
{
    FilmEvent {
        xuid: e.xuid,
        gamertag: e.gamertag.clone(),
        timestamp_ms: e.timestamp_ms,
        kind: e.kind,
        medal_flag: e.medal_flag,
        metadata: e.metadata,
    }
}

/// The event whose gamertag field starts at bit `pos`, for this player.
fn event_at_position(data: &[u8], pos: usize, player: &FilmPlayer, field: &Vec<u8>) -> (r: Option<FilmEvent>)
    requires
        data@.len() * 8 + 64 <= usize::MAX,
        field@.len() == 32,
    ensures
        match event_at(data@, pos as int, player.xuid, player.gamertag@, field@) {
            Some(e) => r matches Some(ev) && event_view(ev) == e,
            None => r is None,
        },
{
    if pos < 120 {
        return None;
    }
    if !bits_are_zero(data, pos - 120, 24) {
        return None;
    }
    let d = match extract_bits(data, pos, 480) {
        Some(d) => d,
        None => return None,
    };
    let mut i: usize = 0;
    while i < 32
        invariant
            i <= 32,
            d@.len() == 60,
            field@.len() == 32,
            pos >= 120,
            zero_bits(data@, pos - 120, 24),
            extract_spec(data@, pos as int, 480) == Some(d@),
            forall|k: int| 0 <= k < i ==> d@[k] == field@[k],
        decreases 32 - i,
    {
        if d[i] != field[i] {
            proof {
                assert(d@.subrange(0, 32)[i as int] != field@[i as int]);
            }
            return None;
        }
        i += 1;
    }
    proof {
        assert(d@.subrange(0, 32) =~= field@);
    }
    let timestamp_ms: u32 = (d[48] as u32) * 0x100_0000 + (d[49] as u32) * 0x1_0000
        + (d[50] as u32) * 0x100 + d[51] as u32;
    let kind = FilmEventKind::from_fields(d[47], d[55]);
    Some(FilmEvent {
        xuid: player.xuid,
        gamertag: player.gamertag.clone(),
        timestamp_ms,
        kind,
        medal_flag: d[55],
        metadata: d[59],
    })
}

/// Highlight events of the footer chunks for the given players, ordered by timestamp
/// with equal timestamps in discovery order, and without consecutive duplicates.
pub fn decode_events(chunks: &[FilmChunkData], players: &[FilmPlayer]) -> (r: Vec<FilmEvent>)
    requires
        chunks_addressable(chunks@),
    ensures
        events_view(r@) == dedup_events(sort_by_time(found_events(by_index(chunks@), players@))),
        times_ordered(events_view(r@)),
        no_repeats(events_view(r@)),
{
    let mut sorted: Vec<FilmEvent> = Vec::new();
    let ghost mut seen: Seq<EventView> = seq![];
    let order = index_order(chunks);
    let ghost ordered = by_index(chunks@);
    let mut c: usize = 0;
    while c < order.len()
        invariant
            c <= order@.len(),
            ordered == chunks_at(chunks@, order@),
            forall|k: int| 0 <= k < order@.len() ==> #[trigger] order@[k] < chunks@.len(),
            chunks_addressable(chunks@),
            seen == found_events(ordered.subrange(0, c as int), players@),
            events_view(sorted@) == sort_by_time(seen),
        decreases order@.len() - c,
    {
        let chunk = &chunks[order[c]];
        let ghost before = seen;
        proof {
            assert(ordered.subrange(0, c + 1).drop_last() =~= ordered.subrange(0, c as int));
            assert(ordered[c as int] == chunks@[order@[c as int] as int]);
            assert(ordered.subrange(0, c + 1).last() == ordered[c as int]);
            assert(chunks@[order@[c as int] as int].data@.len() * 8 + 64 <= usize::MAX);
        }
        if chunk.metadata.chunk_type == 3 {
            let data = chunk.data.as_slice();
            let mut k: usize = 0;
            while k < players.len()
                invariant
                    k <= players@.len(),
                    data@ == chunk.data@,
                    data@.len() * 8 + 64 <= usize::MAX,
                    seen == before + chunk_events(data@, players@.subrange(0, k as int)),
                    events_view(sorted@) == sort_by_time(seen),
                decreases players@.len() - k,
            {
                let player = &players[k];
                let ghost at_player = seen;
                proof {
                    assert(players@.subrange(0, k + 1).drop_last() =~= players@.subrange(
                        0,
                        k as int,
                    ));
                }
                match padded_gamertag_field(player.gamertag.as_str()) {
                    Some(field) => {
                        let positions = find_bit_pattern(data, field.as_slice());
                        let mut t: usize = 0;
                        while t < positions.len()
                            invariant
                                t <= positions@.len(),
                                data@ == chunk.data@,
                                data@.len() * 8 + 64 <= usize::MAX,
                                field@.len() == 32,
                                gamertag_field_spec(player.gamertag@) == Some(field@),
                                positions@ == pattern_positions(data@, field@),
                                seen == at_player + events_at(
                                    data@,
                                    player.xuid,
                                    player.gamertag@,
                                    field@,
                                    positions@.subrange(0, t as int),
                                ),
                                events_view(sorted@) == sort_by_time(seen),
                            decreases positions@.len() - t,
                        {
                            let ghost prev = seen;
                            proof {
                                assert(positions@.subrange(0, t + 1).drop_last()
                                    =~= positions@.subrange(0, t as int));
                            }
                            match event_at_position(data, positions[t], player, &field) {
                                Some(ev) => {
                                    proof {
                                        seen = seen.push(event_view(ev));
                                        assert(seen.drop_last() =~= prev);
                                    }
                                    insert_event(&mut sorted, ev);
                                },
                                None => {},
                            }
                            proof {
                                assert(seen =~= at_player + events_at(
                                    data@,
                                    player.xuid,
                                    player.gamertag@,
                                    field@,
                                    positions@.subrange(0, t + 1),
                                ));
                            }
                            t += 1;
                        }
                        proof {
                            assert(positions@.subrange(0, positions@.len() as int) =~= positions@);
                        }
                    },
                    None => {
                        proof {
                            assert(seen =~= at_player + Seq::<EventView>::empty());
                        }
                    },
                }
                proof {
                    assert(seen =~= before + chunk_events(data@, players@.subrange(0, k + 1)));
                }
                k += 1;
            }
            proof {
                assert(players@.subrange(0, players@.len() as int) =~= players@);
            }
        } else {
            proof {
                assert(seen =~= before + Seq::<EventView>::empty());
            }
        }
        c += 1;
    }
    proof {
        assert(ordered.subrange(0, order@.len() as int) =~= ordered);
    }
    let ghost sv = events_view(sorted@);
    let mut out: Vec<FilmEvent> = Vec::new();
    let mut i: usize = 0;
    while i < sorted.len()
        invariant
            i <= sorted@.len(),
            sv == events_view(sorted@),
            events_view(out@) == dedup_events(sv.subrange(0, i as int)),
        decreases sorted@.len() - i,
    {
        let ghost prev = out@;
        proof {
            assert(sv.subrange(0, i + 1).drop_last() =~= sv.subrange(0, i as int));
        }
        if i == 0 || !same_event(&sorted[i], &sorted[i - 1]) {
            let e = copy_event(&sorted[i]);
            out.push(e);
            proof {
                assert(events_view(out@) =~= events_view(prev).push(sv[i as int]));
                if i == 0 {
                    assert(sv.subrange(0, 1) =~= seq![sv[0]]);
                }
            }
        }
        i += 1;
    }
    proof {
        assert(sv.subrange(0, sv.len() as int) =~= sv);
        lemma_decoded_events_ordered(found_events(by_index(chunks@), players@));
    }
    out
}
} // verus!
