use halo_api::theater::appearance::snapshot;
use halo_api::theater::bits::Bits;
use halo_api::theater::combat::{
    clock, firing, grenade, melee, reload, serial, weapon_damage, zoom, CLOCK_SIGNATURES,
    FIRING_GUARD, INPUT_END,
};
use halo_api::theater::input::{sequence, terminal};
use halo_api::theater::motion::{
    aim, body, clocked_delta, clocked_fields, coordinates, crouch_input, input_chain,
    isolated_vitality, pawn_header, position, shield, spawn, weapon_delta, COORD_PREFIXES,
    COORD_SUFFIX, SPAWN_BODY,
};
use halo_api::theater::projectile::{
    birth, delta, fields, record, Birth, Record, Tracks, PROJECTILE_DELTA, PROJECTILE_SPAWN,
};
use halo_api::theater::velocity::{direction, packed, read};
use halo_api::theater::{
    Aim, BodyVitality, CoordinateLayout, Firing, InputAxes, Life, Magazine, PlayerTrack, Sample,
    ShieldVitality, SourceSpan, Velocity, ZoomStage,
};

/// Bits placed at absolute positions, most significant bit first.
struct BitBuf(Vec<bool>);

impl BitBuf {
    fn new() -> Self {
        BitBuf(Vec::new())
    }
    fn put(&mut self, pos: usize, value: u64, width: usize) -> &mut Self {
        if self.0.len() < pos + width {
            self.0.resize(pos + width, false);
        }
        for i in 0..width {
            self.0[pos + i] = (value >> (width - 1 - i)) & 1 == 1;
        }
        self
    }
    fn len(&self) -> usize {
        self.0.len()
    }
    fn pad(&mut self, len: usize) -> &mut Self {
        if self.0.len() < len {
            self.0.resize(len, false);
        }
        self
    }
    fn bytes(&self) -> Vec<u8> {
        let mut out = vec![0u8; self.0.len().div_ceil(8)];
        for (i, bit) in self.0.iter().enumerate() {
            if *bit {
                out[i / 8] |= 0x80 >> (i % 8);
            }
        }
        out
    }
}

fn firing_record(buf: &mut BitBuf, o: usize, wire: u64, tag: u64, low: u64, high: u64, player: u64, window: u64) {
    buf.put(o + 1, 0b10100100110, 11)
        .put(o + 12, wire, 8)
        .put(o + 20, tag, 2)
        .put(o + 22, 0, 4)
        .put(o + 26, low, 7)
        .put(o + 33, high, 1)
        .put(o + 34, 0, 1)
        .put(o + 35, player, 5)
        .put(o + 40, window, 40)
        .put(o + 80, FIRING_GUARD, 28);
}

#[test]
fn serial_adds_the_generation_to_the_wire_identity() {
    for (tag, generation) in [(1u64, 0u16), (2, 1), (3, 2), (0, 3)] {
        let mut buf = BitBuf::new();
        buf.put(0, 0x22, 8).put(8, tag, 2);
        let data = buf.bytes();
        assert_eq!(serial(Bits(&data), 0, 8), Some(0x22 + 256 * generation));
    }
    assert_eq!(serial(Bits(&[0x22]), 0, 8), None);
}

#[test]
fn strict_and_relaxed_round_clocks() {
    let sig = CLOCK_SIGNATURES[0];
    let mut buf = BitBuf::new();
    buf.put(0, sig, 29).put(29, 42, 8);
    let data = buf.bytes();
    assert_eq!(clock(Bits(&data), 0, true), Some(((sig & 0x3ff_ffff) as u32, 42)));
    let mut relaxed = BitBuf::new();
    relaxed.put(0, (sig & 0x3ff_ffff) | (1 << 26), 29).put(29, 7, 8);
    let data = relaxed.bytes();
    assert_eq!(clock(Bits(&data), 0, true), None);
    assert_eq!(clock(Bits(&data), 0, false), Some(((sig & 0x3ff_ffff) as u32, 7)));
    let mut other = BitBuf::new();
    other.put(0, (sig & 0x3ff_ffff) | (3 << 26), 29).put(29, 7, 8);
    assert_eq!(clock(Bits(&other.bytes()), 0, false), None);
    assert_eq!(clock(Bits(&data[..4]), 0, false), None);
}

#[test]
fn firing_and_hit_records_decode_their_fields() {
    let window = (1u64 << 36) | (0xdead_beef << 4) | 4;
    let mut buf = BitBuf::new();
    firing_record(&mut buf, 0, 0x22, 0b01, 5, 1, 3, window);
    buf.put(109, 0b1010101010, 10).put(119, 0x05, 8).put(127, 0b10, 2).put(129, 0b000010000000000000, 18);
    let data = buf.bytes();
    let e = firing(Bits(&data), 0).unwrap();
    assert_eq!((e.serial, e.player, e.end), (0x22, Some(3), 108));
    assert_eq!(e.value, Firing { sequence: 133, weapon_window: window });
    assert_eq!(e.value.weapon_slot(), Some(0));
    assert_eq!(e.value.weapon_fingerprint(), Some(0xdead_beef));
    let hit = weapon_damage(Bits(&data), 108).unwrap();
    assert_eq!((hit.serial, hit.player, hit.end), (256 + 5, None, 147));
    let mut broken = buf.bytes();
    broken[10] ^= 0x01;
    assert!(firing(Bits(&broken), 0).is_none());
    assert!(weapon_damage(Bits(&broken), 108).is_none());
    assert!(weapon_damage(Bits(&data), 100).is_none());
}

#[test]
fn melee_grenade_reload_and_scope_records() {
    let mut m = BitBuf::new();
    m.put(1, 0b101001101, 9).put(10, 0x3a5, 10).put(20, 0b0011000, 7).put(27, 6, 5);
    m.put(32, 0b101010001, 9).put(41, 0x3a5, 10).put(51, 0b000010, 6).put(57, 0x12_3456_789a, 40).put(97, FIRING_GUARD, 28);
    let data = m.bytes();
    let e = melee(Bits(&data), 31).unwrap();
    assert_eq!((e.serial, e.player, e.value, e.end), (0xe9, Some(6), 0x12_3456_789a, 125));
    assert!(melee(Bits(&data), 30).is_none());

    let mut g = BitBuf::new();
    g.put(1, 0b101001111, 9).put(10, 0x10, 8).put(18, 0b01, 2).put(20, 0b0000010, 7).put(27, 2, 5);
    g.put(32, CLOCK_SIGNATURES[1] & 0xfff_ffff, 28).put(60, 0, 8);
    let e = grenade(Bits(&g.bytes()), 0).unwrap();
    assert_eq!((e.serial, e.player, e.end), (0x10, Some(2), 68));

    let mut r = BitBuf::new();
    r.put(1, 0b101001101, 9).put(10, 0x11, 8).put(18, 0b01, 2).put(20, 0b0001000, 7);
    r.put(31, CLOCK_SIGNATURES[2], 29).put(60, 9, 8);
    let e = reload(Bits(&r.bytes()), 0).unwrap();
    assert_eq!((e.serial, e.player, e.end), (0x11, Some(1), 68));

    let mut z = BitBuf::new();
    z.put(1, 0b1001010110, 10).put(11, 0x12, 8).put(19, 0b01, 2).put(21, 0, 2).put(23, 0, 1);
    z.put(24, CLOCK_SIGNATURES[0], 29).put(53, 1, 8);
    let e = zoom(Bits(&z.bytes()), 0).unwrap();
    assert_eq!((e.serial, e.player, e.value, e.end), (0x12, None, ZoomStage::First, 61));
}

fn pawn(buf: &mut BitBuf, o: usize, wire: u64, tag: u64, ids: &[u64]) -> usize {
    buf.put(o, 0b100010, 6).put(o + 6, wire, 8).put(o + 14, tag, 2).put(o + 16, 0, 2).put(o + 18, ids.len() as u64, 3);
    for (i, id) in ids.iter().enumerate() {
        buf.put(o + 21 + 6 * i, *id, 6);
    }
    o + 21 + 6 * ids.len()
}

#[test]
fn pawn_headers_and_clocked_records() {
    let mut buf = BitBuf::new();
    let at = pawn(&mut buf, 0, 0x40, 0b01, &[0, 21, 25]);
    assert_eq!(at, 39);
    buf.put(39, 0, 5).put(44, 1000, 15).put(59, 2000, 15).put(74, 3000, 17).put(91, 0, 2);
    buf.put(93, 1, 1).put(94, 0x123, 12).put(106, 0x456, 11).put(117, 0, 1);
    buf.put(118, 512 + 2 * 7, 10).put(128, INPUT_END, 16);
    let data = buf.bytes();
    let b = Bits(&data);
    let (serial, ids, end) = pawn_header(b, 0).unwrap();
    assert_eq!((serial, ids, end), (0x40, vec![0, 21, 25], 39));
    let layout = CoordinateLayout::X15Y15Z17;
    assert_eq!(coordinates(b, 44, layout), Some([1000, 2000, 3000]));
    assert_eq!(position(b, 39, layout), Some([1000, 2000, 3000]));
    assert_eq!(aim(b, 93), Some(Aim { yaw: 0x123, pitch: 0x456 }));
    let d = clocked_fields(b, 0, layout, 7).unwrap();
    assert_eq!(d.position, Some([1000, 2000, 3000]));
    assert_eq!(d.aim, Some(Aim { yaw: 0x123, pitch: 0x456 }));
    assert_eq!(d.end, 128);
    assert!(clocked_fields(b, 0, layout, 8).is_none());
    assert_eq!(clocked_delta(b, 0, layout, 7).unwrap().end, 128);
    let mut unsorted = BitBuf::new();
    pawn(&mut unsorted, 0, 1, 1, &[21, 0]);
    assert!(pawn_header(Bits(&unsorted.bytes()), 0).is_none());
}

#[test]
fn vitality_and_weapon_records() {
    let mut buf = BitBuf::new();
    let at = pawn(&mut buf, 0, 5, 0b01, &[5]);
    buf.put(at, 40, 8).put(at + 8, 0, 8).put(at + 16, 120, 9).put(at + 25, 1, 4).put(at + 29, INPUT_END, 16);
    let data = buf.bytes();
    assert_eq!(shield(Bits(&data), at), Some(ShieldVitality { raw: 40, delay_ticks: 120, state: 1 }));
    let d = isolated_vitality(Bits(&data), 0).unwrap();
    assert_eq!(d.shield, Some(ShieldVitality { raw: 40, delay_ticks: 120, state: 1 }));
    assert_eq!(d.end, at + 29);

    let mut v = BitBuf::new();
    v.put(0, 1, 1).put(1, 100, 7).put(8, 4, 3);
    assert_eq!(body(Bits(&v.bytes()), 0), Some(BodyVitality { raw: 100, state: 4 }));
    v.put(8, 5, 3);
    assert_eq!(body(Bits(&v.bytes()), 0), None);

    let mut w = BitBuf::new();
    let at = pawn(&mut w, 0, 5, 0b01, &[30]);
    w.put(at, 0, 1).put(at + 1, 12, 8).put(at + 9, 1, 1).put(at + 10, INPUT_END, 16);
    let d = weapon_delta(Bits(&w.bytes()), 0, CoordinateLayout::X15Y15Z17, None).unwrap();
    assert_eq!(d.magazines, vec![Magazine { slot: 0, rounds: 12 }]);
    assert_eq!(d.end, at + 10);
}

#[test]
fn input_chain_crouch_and_terminal_commands() {
    let mut buf = BitBuf::new();
    buf.put(0, CLOCK_SIGNATURES[0], 29).put(29, 3, 8).put(37, 0, 3).put(40, 0x100d, 13).put(53, 40, 6).put(59, 20, 6);
    let data = buf.bytes();
    let c = input_chain(Bits(&data), CoordinateLayout::X15Y15Z17).unwrap();
    assert_eq!(c.input, Some(InputAxes { forward: 40, left: 20 }));
    assert_eq!((c.end, c.position, c.secondary, c.auxiliaries), (65, None, false, 0));

    let mut crouch = BitBuf::new();
    crouch.put(3, 0x84, 10).pad(16);
    assert_eq!(crouch_input(Bits(&crouch.bytes()), 3), Some((true, 13)));
    crouch.put(15, 1, 1);
    assert_eq!(crouch_input(Bits(&crouch.bytes()), 3), None);

    let mut t = BitBuf::new();
    t.put(13, 1, 1).put(14, 0, 8).put(22, 13, 4).put(26, 31, 6).put(32, 31, 6).put(38, 0, 5).pad(48);
    let data = t.bytes();
    let rows = terminal(Bits(&data)).unwrap();
    assert_eq!(rows.len(), 1);
    assert_eq!((rows[0].player, rows[0].crouch, rows[0].start, rows[0].buttons, rows[0].end), (0, false, 13, 38, 43));
    assert_eq!(rows[0].axes, InputAxes { forward: 31, left: 31 });
    assert_eq!(sequence(Bits(&data), 13).unwrap().len(), 1);
    assert!(terminal(Bits(&data[..5])).is_none());
}

#[test]
fn spawn_records_find_their_single_coordinate_layout() {
    let mut buf = BitBuf::new();
    buf.put(0, 0, 2).put(2, 0x22, 8).put(10, 0x07, 8).put(18, 0b01, 2).put(20, SPAWN_BODY, 49).put(69, 4, 5);
    buf.put(192, COORD_PREFIXES[0], 63).put(263, 11, 15).put(278, 22, 15).put(293, 33, 17).put(310, COORD_SUFFIX, 30);
    let data = buf.bytes();
    let s = spawn(Bits(&data), 0).unwrap();
    assert_eq!((s.serial, s.player, s.xyz, s.layout, s.end), (0x07, 4, [11, 22, 33], CoordinateLayout::X15Y15Z17, 340));
    let mut flagged = BitBuf::new();
    flagged.0 = buf.0.clone();
    flagged.put(0, 3, 2);
    assert!(spawn(Bits(&flagged.bytes()), 0).is_none());
}

#[test]
fn velocity_forms_and_unused_direction_codes() {
    for code in [293, 293 * 294, 87_380, 524_286, 524_287, u32::MAX] {
        assert!(direction(code).is_none());
    }
    assert_eq!(direction(0), Some((0, 0, 0)));
    assert_eq!(direction(87_381 + 294 * 2 + 5), Some((1, 2, 5)));
    let mut s = BitBuf::new();
    s.put(3, 0b01, 2).pad(8);
    assert_eq!(read(Bits(&s.bytes()), 3), Some((Some(Velocity::Stationary), 5)));
    let mut d = BitBuf::new();
    d.put(0, 0b00, 2).put(2, 1000, 19).put(21, 418, 10);
    let data = d.bytes();
    assert_eq!(read(Bits(&data), 0), Some((Some(Velocity::Directed { direction_code: 1000, magnitude_code: 418 }), 31)));
    assert_eq!(read(Bits(&data[..3]), 0), None);
    let mut bad = BitBuf::new();
    bad.put(0, 0b00, 2).put(2, 524_287, 19).put(21, 1, 10);
    assert_eq!(read(Bits(&bad.bytes()), 0), Some((None, 31)));
    let mut form = BitBuf::new();
    form.put(0, 0b10, 2).pad(40);
    assert_eq!(read(Bits(&form.bytes()), 0), None);
    assert_eq!(read(Bits(&data), usize::MAX), None);
    let mut p = BitBuf::new();
    p.put(0, 0, 1).put(1, 1000, 19).put(20, 3, 10);
    assert_eq!(packed(Bits(&p.bytes()), 0), Some((Velocity::Directed { direction_code: 1000, magnitude_code: 3 }, 30)));
    assert_eq!(packed(Bits(&[0x80]), 0), Some((Velocity::Stationary, 1)));
}

#[test]
fn projectile_records_and_deltas() {
    let mut buf = BitBuf::new();
    buf.put(0, 9216, 14).put(14, 1, 2).put(16, 0, 2).put(18, 2, 3).put(21, 1, 6).put(27, 2, 6);
    buf.put(33, 1, 1).put(34, 1, 1).put(35, 0xab, 8).put(43, INPUT_END, 16);
    let data = buf.bytes();
    let r = fields(Bits(&data), 0, CoordinateLayout::X15Y15Z17).unwrap();
    assert_eq!((r.id, r.generation, r.position, r.velocity, r.rest, r.end), (9216, 1, None, (33, 34, Velocity::Stationary), None, 43));
    assert!(record(Bits(&data), 0, CoordinateLayout::X15Y15Z17).is_some());
    assert!(record(Bits(&data[..6]), 0, CoordinateLayout::X15Y15Z17).is_none());

    let mut d = BitBuf::new();
    d.put(0, PROJECTILE_DELTA, 18).put(18, 3, 3).put(21, 0, 6).put(27, 1, 6).put(33, 2, 6);
    d.put(39, 0, 3).put(42, 5, 15).put(57, 6, 15).put(72, 7, 17).put(89, 0, 2).put(149, INPUT_END, 16);
    assert_eq!(delta(Bits(&d.bytes()), 0), Some(([5, 6, 7], 165)));

    let mut s = BitBuf::new();
    s.put(0, PROJECTILE_SPAWN[0], 64).put(64, PROJECTILE_SPAWN[1], 64).put(128, PROJECTILE_SPAWN[2], 64).put(192, PROJECTILE_SPAWN[3], 34);
    s.put(226, 8, 15).put(241, 9, 15).put(256, 10, 17);
    assert_eq!(halo_api::theater::projectile::spawn(Bits(&s.bytes()), 0), Some(([8, 9, 10], 273)));
}

#[test]
fn projectile_births_name_their_owner_and_life() {
    let mut b = BitBuf::new();
    b.put(0, 0, 2).put(2, 0, 2).put(4, 9216, 14).put(18, 1, 2);
    b.put(20, 0xa60600580b883121, 64).put(84, 0x64b3cf8001, 40).put(124, 3, 5).put(129, 0xe, 4);
    b.put(133, 0x21, 8).put(141, 0b01, 2).put(143, 0xa00b000000000010, 64).put(207, 0x70078, 19);
    b.put(226, 100, 15).put(241, 200, 15).put(256, 300, 17).put(273, 0, 2).put(275, 1, 1);
    let data = b.bytes();
    let (value, end) = birth(Bits(&data), 0, CoordinateLayout::X15Y15Z17).unwrap();
    assert_eq!(end, 276);
    assert_eq!((value.id, value.generation, value.player, value.life, value.xyz), (9216, 1, 3, 0x21, [100, 200, 300]));
    assert_eq!(value.velocity, (275, 276, Velocity::Stationary));
    let mut other = BitBuf::new();
    other.0 = b.0.clone();
    other.put(20, 0, 1);
    assert!(birth(Bits(&other.bytes()), 0, CoordinateLayout::X15Y15Z17).is_none());
}

fn span(bit: usize) -> SourceSpan {
    SourceSpan { chunk: 2, payload_byte: 10, bit, end_bit: bit + 1 }
}

fn life(id: u16, player: u8) -> Life {
    Life {
        id,
        wire: (id % 256) as u8,
        generation: 1,
        player,
        start_us: 0,
        end_us: 1_000_000,
        death_us: None,
        round_reset: false,
        position: [0, 0, 0],
        layout: CoordinateLayout::X15Y15Z17,
        source: span(0),
    }
}

fn moving(time_us: u64, xyz: [u32; 3]) -> Sample<Record> {
    Sample {
        time_us,
        life: 0,
        value: Record {
            id: 9216,
            generation: 1,
            position: Some((5, 52, xyz)),
            velocity: (52, 53, Velocity::Stationary),
            rest: None,
            end: 80,
        },
        source: span(0),
    }
}

#[test]
fn projectile_tracks_follow_continuous_owned_updates() {
    let mut player = PlayerTrack::default();
    player.id = 0;
    player.lives = vec![life(7, 0)];
    let spawn = Sample {
        time_us: 1000,
        life: 7,
        value: Birth { id: 9216, generation: 1, player: 0, life: 7, xyz: [100, 100, 100], velocity: (3, 4, Velocity::Stationary) },
        source: span(1),
    };
    let tracks = Tracks {
        births: vec![spawn.clone()],
        records: vec![moving(1200, [120, 100, 100]), moving(1100, [110, 100, 100])],
        terminals: vec![],
    };
    let out = tracks.finish(&[player.clone()]);
    assert_eq!(out.len(), 1);
    let t = &out[0];
    assert_eq!((t.id, t.generation, t.player, t.life, t.start_us, t.end_us), (9216, 1, 0, 7, 1000, 1201));
    assert_eq!(t.positions.iter().map(|s| s.value).collect::<Vec<_>>(), vec![[100, 100, 100], [110, 100, 100], [120, 100, 100]]);
    assert_eq!(t.velocities.len(), 3);
    assert_eq!(t.velocities[0].source.bit, 3);
    assert!(t.terminal.is_none());

    let far = Tracks {
        births: vec![spawn.clone()],
        records: vec![moving(1100, [400, 100, 100]), moving(1200, [410, 100, 100])],
        terminals: vec![],
    };
    assert!(far.finish(&[player.clone()]).is_empty());
    let late = Tracks {
        births: vec![spawn.clone()],
        records: vec![moving(200_000, [110, 100, 100]), moving(200_100, [120, 100, 100])],
        terminals: vec![],
    };
    assert!(late.finish(&[player.clone()]).is_empty());
    let unowned = Tracks {
        births: vec![spawn],
        records: vec![moving(1100, [110, 100, 100]), moving(1200, [120, 100, 100])],
        terminals: vec![],
    };
    let mut stranger = player;
    stranger.id = 1;
    assert!(unowned.finish(&[stranger]).is_empty());
}

#[test]
fn all_record_readers_tolerate_short_arbitrary_payloads() {
    let mut state = 0x12345678u32;
    for length in 0..128 {
        let data: Vec<u8> = (0..length)
            .map(|_| {
                state ^= state << 13;
                state ^= state >> 17;
                state ^= state << 5;
                state as u8
            })
            .collect();
        let b = Bits(&data);
        for o in 0..=b.len() {
            let _ = (firing(b, o), weapon_damage(b, o), melee(b, o), grenade(b, o), reload(b, o), zoom(b, o));
            let _ = (
                spawn(b, o).is_some(),
                clocked_delta(b, o, CoordinateLayout::X18Y18Z15, 0).is_some(),
                weapon_delta(b, o, CoordinateLayout::X15Y15Z17, None).is_some(),
                isolated_vitality(b, o).is_some(),
                crouch_input(b, o),
            );
            let _ = (halo_api::theater::projectile::spawn(b, o), delta(b, o), snapshot(b, o).is_some());
        }
        let _ = input_chain(b, CoordinateLayout::X15Y15Z17);
        let _ = terminal(b);
    }
}

#[test]
fn clocked_records_keep_their_velocity_with_its_bit_range() {
    let mut buf = BitBuf::new();
    let at = pawn(&mut buf, 0, 0x40, 0b01, &[1, 25]);
    buf.put(at, 0b00, 2).put(at + 2, 1000, 19).put(at + 21, 418, 10).put(at + 31, 512 + 2 * 9, 10).put(at + 41, 1, 1);
    let data = buf.bytes();
    let d = clocked_delta(Bits(&data), 0, CoordinateLayout::X15Y15Z17, 9).unwrap();
    assert_eq!(d.velocity, Some((at, at + 31, Velocity::Directed { direction_code: 1000, magnitude_code: 418 })));
    assert_eq!(d.end, at + 41);
    let mut unused = BitBuf::new();
    let at = pawn(&mut unused, 0, 0x40, 0b01, &[1, 25]);
    unused.put(at, 0b00, 2).put(at + 2, 524_287, 19).put(at + 21, 1, 10).put(at + 31, 512 + 2 * 9, 10).put(at + 41, 1, 1);
    let d = clocked_delta(Bits(&unused.bytes()), 0, CoordinateLayout::X15Y15Z17, 9).unwrap();
    assert_eq!((d.velocity, d.end), (None, at + 41));
    let mut form = BitBuf::new();
    let at = pawn(&mut form, 0, 0x40, 0b01, &[1, 25]);
    form.put(at, 0b10, 2).pad(at + 64);
    assert!(clocked_delta(Bits(&form.bytes()), 0, CoordinateLayout::X15Y15Z17, 9).is_none());
}

#[test]
fn text_patterns_match_bit_by_bit_and_the_empty_pattern_everywhere() {
    let data = [0b1010_0000u8, 0xff, 0x00, 0x0f, 0xaa, 0x55, 0x12, 0x34, 0x56, 0x78];
    let b = Bits(&data);
    assert!(b.is(0, "101"));
    assert!(!b.is(0, "100"));
    assert!(b.is(8, "11111111000000000000"));
    assert!(b.is(79, "0"));
    assert!(!b.is(79, "00"));
    assert!(b.is(0, ""));
    assert!(b.is(80, ""));
    assert!(b.is(1_000, ""));
    let long = "1010000011111111000000000000111110101010010101010001001000110100010101100111100";
    assert_eq!(long.len(), 79);
    assert!(b.is(0, long));
    let mut wrong = long.to_string();
    wrong.replace_range(70..71, if &long[70..71] == "1" { "0" } else { "1" });
    assert!(!b.is(0, &wrong));
}

#[test]
fn rolling_windows_hold_the_reads_at_every_offset() {
    let data = [0x9du8, 0x01, 0xf0, 0x3c, 0x55, 0xaa, 0x00, 0xff, 0x12, 0x80, 0x7e];
    let b = Bits(&data);
    let mut ws = b.windows();
    let mut expected = 0usize;
    while let Some((o, w)) = ws.next() {
        assert_eq!(o, expected);
        expected += 1;
        for width in 1..=64usize {
            if o + width <= b.len() {
                assert_eq!(w >> (64 - width), b.read(o, width).unwrap());
            }
        }
    }
    assert_eq!(expected, b.len());
}
