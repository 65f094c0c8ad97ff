//! Typed, offline Halo Infinite Theater decoding of decompressed film chunks.
pub mod bits;
pub mod medals;
pub mod types;

pub use medals::{film_medal_definition, FilmMedal, FilmMedalDefinition, MedalAward};
pub use types::{
    Aim, AppearanceSample, ArmorAppearance, ArmorAttachments, ArmorRegion, BodyVitality,
    CheckedRegion, ClockSample, CoordinateLayout, DecodeDiagnostics, DecodeError, DecodeOptions,
    Film, Firing, InputAxes, Life, Magazine, PlayerTrack, Position, ProjectileTrack, Sample,
    ShieldVitality, SourceSpan, SummaryEvent, SummaryKind, Velocity, WeaponObservation, ZoomStage,
};
pub mod summary;
pub mod roster;
pub mod packets;
pub mod highlights;
pub mod registry;
pub mod combat;
pub mod motion;
pub mod input;
pub mod appearance;
pub mod velocity;
pub mod projectile;
pub mod decode;
pub mod validation;

pub use highlights::{FilmEvent, FilmEventReport, FilmEventValidation, FilmPlayerEventValidation};
pub use registry::{decode_registry, FilmArchetype, FilmRegistry};
pub use roster::{decode_player_indices, decode_players};
pub use summary::{
    decode_summary_events, FilmEventCounts, MedalCountComparison, SummaryEventReport,
    SummaryEventValidation, SummaryPacketDiagnostics, SummaryPlayerValidation,
    ValidatedSummaryEventReport,
};
pub use validation::validate_summary_events;
