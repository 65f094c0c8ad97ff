//! Film medal codes, distinct from the stats API NameId namespace.
use crate::clients::hi::models::{Medal, MedalMetadata};
use crate::text::owned;
use vstd::prelude::*;

verus! {

/// A known film-code mapping. Metadata fields are absent for medals missing from the CMS snapshot.
#[derive(Debug, Clone, Copy, PartialEq, Eq)]
pub struct FilmMedalDefinition {
    pub film_id: u8,
    pub name: &'static str,
    pub name_id: Option<u32>,
    pub sorting_weight: Option<u16>,
}

/// All 155 published film codes in increasing order: code, name, whether the CMS
/// catalog has the medal, its NameId and its sorting weight (both zero when it has not).
pub const FILM_MEDAL_TABLE: [(u8, &'static str, bool, u32, u16); 155] = [
    (0, "Double Kill", true, 622331684, 100),
    (1, "Triple Kill", true, 2063152177, 150),
    (2, "Overkill", true, 835814121, 220),
    (3, "Killtacular", true, 2137071619, 225),
    (4, "Killtrocity", true, 1430343434, 230),
    (5, "Killamanjaro", true, 3835606176, 235),
    (6, "Killtastrophe", true, 2242633421, 240),
    (7, "Killpocalypse", true, 3352648716, 245),
    (8, "Killionaire", true, 3233051772, 250),
    (9, "Killing Spree", true, 2780740615, 100),
    (10, "Killing Frenzy", true, 4261842076, 150),
    (11, "Running Riot", true, 418532952, 205),
    (12, "Rampage", true, 1486797009, 210),
    (13, "Perfection", true, 865763896, 200),
    (26, "Killjoy", true, 3233952928, 50),
    (27, "Nightmare", true, 710323196, 220),
    (28, "Boogeyman", true, 1720896992, 230),
    (29, "Grim Reaper", true, 2567026752, 240),
    (30, "Demon", true, 2875941471, 250),
    (31, "Flawless Victory", true, 1680000231, 150),
    (32, "Steaktacular", true, 1169390319, 150),
    (36, "Stopped Short", true, 3488248720, 50),
    (37, "Flag Joust", true, 976049027, 50),
    (38, "Goal Line Stand", true, 3227840152, 100),
    (39, "Necromancer", true, 3011158621, 150),
    (40, "Immortal", true, 3120600565, 150),
    (41, "Lone Wolf", true, 2623698509, 100),
    (42, "Duelist", true, 4247875860, 50),
    (43, "Ace", true, 521420212, 150),
    (44, "Extermination", true, 4100966367, 200),
    (45, "Sole Survivor", true, 2717755703, 50),
    (46, "Untainted", true, 1064731598, 150),
    (47, "Blight", true, 88914608, 100),
    (48, "Disease", true, 1155542859, 150),
    (49, "Plague", true, 3786134933, 205),
    (50, "Scourge", true, 3520382976, 220),
    (51, "Pestilence", true, 1719203329, 210),
    (52, "Apocalypse", true, 3653884673, 230),
    (53, "Culling", true, 1025827095, 100),
    (54, "Cleansing", true, 1765213446, 205),
    (55, "Purge", true, 3467301935, 150),
    (56, "Purification", true, 496411737, 220),
    (57, "Divine Intervention", true, 2164872967, 230),
    (58, "Zombie Slayer", true, 557309779, 100),
    (59, "Undead Hunter", true, 1447057920, 150),
    (60, "Hell's Janitor", true, 217730222, 200),
    (61, "The Sickness", true, 17866865, 200),
    (62, "Spotter", true, 2477555653, 50),
    (63, "Treasure Hunter", true, 1685043466, 50),
    (64, "Saboteur", true, 20397755, 50),
    (65, "Wingman", true, 1284032216, 50),
    (66, "Wheelman", true, 2926348688, 50),
    (67, "Gunner", true, 3783455472, 50),
    (68, "Driver", true, 3027762381, 50),
    (69, "Pilot", true, 2593226288, 50),
    (70, "Tanker", true, 2278023431, 50),
    (71, "Rifleman", true, 2852571933, 50),
    (72, "Bomber", true, 1146876011, 50),
    (73, "Grenadier", true, 2648272972, 50),
    (74, "Boxer", true, 269174970, 50),
    (75, "Warrior", true, 1210678802, 50),
    (76, "Gunslinger", true, 1172766553, 50),
    (77, "Scattergunner", true, 3347922939, 50),
    (78, "Sharpshooter", true, 4277328263, 50),
    (79, "Marksman", true, 2758320809, 50),
    (80, "Heavy", true, 4086138034, 50),
    (81, "Bodyguard", true, 555849395, 50),
    (82, "Back Smack", true, 548533137, 50),
    (83, "Nuclear Football", true, 2253222811, 150),
    (84, "Boom Block", true, 524758914, 150),
    (85, "Bulltrue", true, 3114137341, 100),
    (86, "Cluster Luck", true, 3905838030, 100),
    (87, "Dogfight", true, 1229018603, 50),
    (88, "Harpoon", true, 2418616582, 50),
    (89, "Mind the Gap", true, 1880789493, 100),
    (90, "Ninja", true, 3085856613, 200),
    (91, "Odin's Raven", true, 87172902, 50),
    (92, "Pancake", true, 3876426273, 100),
    (93, "Quigley", true, 1312042926, 200),
    (94, "Remote Detonation", true, 3160646854, 200),
    (95, "Return to Sender", true, 3059799290, 150),
    (96, "Rideshare", true, 656245292, 100),
    (97, "Skyjack", true, 731054446, 50),
    (98, "Stick", true, 3655682764, 50),
    (99, "Tag & Bag", true, 1841872491, 100),
    (100, "Whiplash", true, 1734214473, 100),
    (101, "Kong", true, 3546244406, 50),
    (102, "Autopilot Engaged", true, 1623236079, 150),
    (103, "Sneak King", true, 670606868, 150),
    (104, "Windshield Wiper", true, 2827657131, 100),
    (105, "Reversal", true, 2123530881, 50),
    (106, "Hail Mary", true, 3934547153, 100),
    (107, "Nade Shot", true, 265478668, 100),
    (108, "Snipe", true, 4229934157, 50),
    (109, "Perfect", true, 1512363953, 100),
    (110, "Bank Shot", true, 2414983178, 100),
    (111, "Fire & Forget", true, 988255960, 100),
    (112, "Ballista", true, 4215552487, 100),
    (113, "Pull", true, 4132863117, 100),
    (114, "No Scope", true, 2602963073, 100),
    (115, "Achilles Spine", true, 3217141618, 150),
    (116, "Grand Slam", true, 1646928910, 150),
    (117, "Guardian Angel", true, 3334154676, 50),
    (118, "Interlinked", true, 651256911, 150),
    (119, "Death Race", true, 677323068, 100),
    (120, "Chain Reaction", true, 1969067783, 50),
    (121, "360", true, 1427176344, 150),
    (122, "Combat Evolved", true, 641726424, 150),
    (123, "Deadly Catch", true, 2396845048, 150),
    (124, "Driveby", true, 197913196, 150),
    (125, "Fastball", true, 1211820913, 200),
    (126, "Flyin' High", true, 3739610597, 50),
    (127, "From the Grave", true, 2625820422, 50),
    (128, "From the Void", true, 3588869844, 100),
    (129, "Grapple-jack", true, 690125105, 100),
    (130, "Hold This", true, 175594566, 100),
    (131, "Last Shot", true, 3091261182, 50),
    (132, "Lawnmower", true, 3475540930, 100),
    (133, "Mount Up", true, 1065136443, 50),
    (134, "Off the Rack", true, 1283796619, 100),
    (135, "Quick Draw", true, 2861418269, 50),
    (136, "Party's Over", true, 3583966655, 100),
    (137, "Pineapple Express", true, 2019283350, 100),
    (138, "Ramming Speed", true, 1298835518, 100),
    (139, "Reclaimer", true, 1445036152, 50),
    (140, "Shot Caller", true, 1169571763, 100),
    (141, "Yard Sale", true, 1176569867, 100),
    (142, "Special Delivery", true, 275666139, 50),
    (143, "Street Sweeper", true, 2967011722, 150),
    (146, "Fumble", true, 3732790338, 100),
    (148, "Straight Balling", true, 781229683, 150),
    (150, "Big Deal", false, 0, 0),
    (151, "Always Rotating", true, 1472686630, 50),
    (152, "Hill Guardian", true, 580478179, 100),
    (153, "Clock Stop", true, 3630529364, 100),
    (154, "Secure Line", true, 2426456555, 101),
    (155, "Signal Block", true, 3931425309, 101),
    (156, "Splatter", true, 221693153, 50),
    (157, "Clash of Kings", false, 0, 0),
    (158, "Contract Killer", false, 0, 0),
    (160, "Watch the Throne", false, 0, 0),
    (162, "All That Juice", true, 3528500956, 150),
    (163, "Great Journey", true, 1376646881, 100),
    (164, "Power Outage", true, 629165579, 150),
    (165, "Breacher", true, 2750622016, 50),
    (166, "Mounted & Loaded", true, 1331361851, 100),
    (167, "Monopoly", true, 1090931685, 100),
    (168, "Counter-snipe", true, 1477806194, 100),
    (174, "Driving Spree", true, 3169118333, 100),
    (175, "Death Cabbie", true, 2848470465, 150),
    (176, "Immortal Chauffeur", true, 1739996188, 200),
    (177, "Blind Fire", true, 4007438389, 150),
    (178, "Hang Up", true, 4285712605, 51),
    (179, "Call Blocked", true, 2964157454, 52),
    (180, "Clear Reception", true, 394349536, 101),
];

/// The definition built from table row `i`.
pub open spec fn definition_at(i: int) -> FilmMedalDefinition {
    FilmMedalDefinition {
        film_id: FILM_MEDAL_TABLE@[i].0,
        name: FILM_MEDAL_TABLE@[i].1,
        name_id: if FILM_MEDAL_TABLE@[i].2 {
            Some(FILM_MEDAL_TABLE@[i].3)
        } else {
            None
        },
        sorting_weight: if FILM_MEDAL_TABLE@[i].2 {
            Some(FILM_MEDAL_TABLE@[i].4)
        } else {
            None
        },
    }
}

/// The definition of film code `id` from row `i` on: the first row with that code.
pub open spec fn definition_from(id: u8, i: int) -> Option<FilmMedalDefinition>
    decreases 155 - i,
{
    if i < 0 || i >= 155 {
        None
    } else if FILM_MEDAL_TABLE@[i].0 == id {
        Some(definition_at(i))
    } else {
        definition_from(id, i + 1)
    }
}

/// The definition of a film medal code, without assuming it is a stats API NameId.
pub open spec fn definition_spec(id: u8) -> Option<FilmMedalDefinition> {
    definition_from(id, 0)
}

/// The known film medal codes with their English names, in table order.
pub fn legacy_names() -> (r: Vec<(u8, &'static str)>)
    ensures
        r@.len() == 155,
        forall|i: int| 0 <= i < 155 ==> #[trigger] r@[i] == (FILM_MEDAL_TABLE@[i].0, FILM_MEDAL_TABLE@[i].1),
{
    let mut out: Vec<(u8, &'static str)> = Vec::new();
    let mut i: usize = 0;
    while i < 155
        invariant
            i <= 155,
            out@.len() == i,
            forall|k: int| 0 <= k < i ==> #[trigger] out@[k] == (FILM_MEDAL_TABLE@[k].0, FILM_MEDAL_TABLE@[k].1),
        decreases 155 - i,
    {
        let (id, name, _, _, _) = FILM_MEDAL_TABLE[i];
        out.push((id, name));
        i += 1;
    }
    out
}

/// The definitions as a list, in table order.
pub fn film_medal_definitions() -> (r: Vec<FilmMedalDefinition>)
    ensures
        r@.len() == 155,
        forall|i: int| 0 <= i < 155 ==> #[trigger] r@[i] == definition_at(i),
{
    let mut out: Vec<FilmMedalDefinition> = Vec::new();
    let mut i: usize = 0;
    while i < 155
        invariant
            i <= 155,
            out@.len() == i,
            forall|k: int| 0 <= k < i ==> #[trigger] out@[k] == definition_at(k),
        decreases 155 - i,
    {
        out.push(definition_row(i));
        i += 1;
    }
    out
}

fn definition_row(i: usize) -> (r: FilmMedalDefinition)
    requires
        i < 155,
    ensures
        r == definition_at(i as int),
{
    let (film_id, name, catalogued, name_id, sorting_weight) = FILM_MEDAL_TABLE[i];
    FilmMedalDefinition {
        film_id,
        name,
        name_id: if catalogued {
            Some(name_id)
        } else {
            None
        },
        sorting_weight: if catalogued {
            Some(sorting_weight)
        } else {
            None
        },
    }
}

/// Resolves an on-film code without assuming it is a stats API NameId.
pub fn film_medal_definition(id: u8) -> (r: Option<FilmMedalDefinition>)
    ensures
        r == definition_spec(id),
{
    let mut i: usize = 0;
    while i < 155
        invariant
            i <= 155,
            definition_from(id, 0) == definition_from(id, i as int),
        decreases 155 - i,
    {
        if FILM_MEDAL_TABLE[i].0 == id {
            return Some(definition_row(i));
        }
        i += 1;
    }
    None
}

/// A film medal: a catalogued code with its name, or an unknown code.
#[derive(Debug, Clone, Copy, PartialEq, Eq)]
pub enum FilmMedal {
    Known { id: u8, name: &'static str },
    Unknown(u8),
}

/// The medal of a film code.
pub open spec fn film_medal_spec(id: u8) -> FilmMedal {
    match definition_spec(id) {
        Some(d) => FilmMedal::Known { id, name: d.name },
        None => FilmMedal::Unknown(id),
    }
}

pub open spec fn medal_id(m: FilmMedal) -> u8 {
    match m {
        FilmMedal::Known { id, .. } => id,
        FilmMedal::Unknown(id) => id,
    }
}

impl FilmMedal {
    /// The medal of a film code: known with its name when the table has the code.
    pub fn from_id(id: u8) -> (r: Self)
        ensures
            r == film_medal_spec(id),
    {
        match film_medal_definition(id) {
            Some(d) => FilmMedal::Known { id, name: d.name },
            None => FilmMedal::Unknown(id),
        }
    }

    /// The film code.
    pub fn id(self) -> (r: u8)
        ensures
            r == medal_id(self),
    {
        match self {
            FilmMedal::Known { id, .. } => id,
            FilmMedal::Unknown(id) => id,
        }
    }

    /// The medal's name, or `Unknown medal`.
    pub fn name(self) -> (r: &'static str)
        ensures
            r == (match self {
                FilmMedal::Known { name, .. } => name,
                FilmMedal::Unknown(_) => "Unknown medal",
            }),
    {
        match self {
            FilmMedal::Known { name, .. } => name,
            FilmMedal::Unknown(_) => "Unknown medal",
        }
    }

    /// The stats API NameId of the medal's code, when the CMS catalog has it.
    pub fn name_id(self) -> (r: Option<u32>)
        ensures
            r == (match definition_spec(medal_id(self)) {
                Some(d) => d.name_id,
                None => None,
            }),
    {
        match film_medal_definition(self.id()) {
            Some(d) => d.name_id,
            None => None,
        }
    }

    /// Live or localized CMS metadata, found through the checked NameId mapping.
    pub fn metadata<'a>(self, catalog: &'a MedalMetadata) -> (r: Option<&'a Medal>)
        ensures
            match (match definition_spec(medal_id(self)) {
                Some(d) => d.name_id,
                None => None,
            }) {
                None => r is None,
                Some(name_id) => match r {
                    Some(m) => exists|i: int| 0 <= i < catalog.medals@.len() && catalog.medals@[i] == *m
                        && m.name_id == name_id as i64 && forall|j: int| 0 <= j < i ==> #[trigger] catalog.medals@[j].name_id != name_id as i64,
                    None => forall|i: int| 0 <= i < catalog.medals@.len() ==> #[trigger] catalog.medals@[i].name_id != name_id as i64,
                },
            },
    {
        match self.name_id() {
            Some(name_id) => catalog.medal(name_id as i64),
            None => None,
        }
    }
}

/// Portable medal identity. Unknown codes remain present with no invented name or NameId.
#[derive(Debug, Clone, PartialEq, Eq)]
pub struct MedalAward {
    pub film_id: u8,
    pub name: Option<String>,
    pub name_id: Option<u32>,
}

/// A medal award's code, name text and NameId.
pub open spec fn award_view(a: MedalAward) -> (u8, Option<Seq<char>>, Option<u32>) {
    (a.film_id, match a.name {
        Some(n) => Some(n@),
        None => None,
    }, a.name_id)
}

/// The award of a film code: its name and NameId from the table, when it has the code.
pub open spec fn award_spec(id: u8) -> (u8, Option<Seq<char>>, Option<u32>) {
    (id, match definition_spec(id) {
        Some(d) => Some(d.name@),
        None => None,
    }, match definition_spec(id) {
        Some(d) => d.name_id,
        None => None,
    })
}

impl MedalAward {
    pub fn from_film_id(id: u8) -> (r: Self)
        ensures
            award_view(r) == award_spec(id),
    {
        match film_medal_definition(id) {
            Some(d) => MedalAward { film_id: id, name: Some(owned(d.name)), name_id: d.name_id },
            None => MedalAward { film_id: id, name: None, name_id: None },
        }
    }
}

} // verus!
