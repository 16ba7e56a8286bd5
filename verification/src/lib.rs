pub mod campaign;
pub mod clusters;
pub mod defs;
pub mod director;
pub mod grid;
pub mod hand;
pub mod lookup;
pub mod mapdoc;
pub mod maps;
pub mod modifiers;
pub mod openings;
pub mod orders;
pub mod pack;
pub mod path;
pub mod placement;
pub mod rng;
pub mod sim;
pub mod snapshot;

pub use campaign::{campaign, challenge_by_id, challenges, mission_by_id, Challenge, Mission};
pub use defs::{BuildKind, CreepKind, StrikeKind, TargetMode, STARTING_CREDITS, STARTING_INTEGRITY};
pub use director::{WavePlan, WaveScript};
pub use grid::{Grid, Occupant, Terrain};
pub use mapdoc::{
    grid_to_doc, parse_and_validate, theater_to_doc, validate_map, MapDoc, MapError,
    WORKSHOP_MAP_ID,
};
pub use maps::{theater_by_id, theater_by_slug, theaters, TheaterInfo};
pub use modifiers::{daily_pick, modifiers, DailyPick, MatchRules, Modifier, ModifierInfo};
pub use orders::{replay_hash, verify_replay, Order, OrderOp, ReplayFile, RunOutcome, VerifyReport};
pub use pack::PackError;
pub use path::FlowField;
pub use placement::PlaceError;
pub use snapshot::{KindCount, MapStatic, WaveIntel};
