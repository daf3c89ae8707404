//! The rules of a sheet-nesting application: what a nest request must satisfy,
//! how a job's runs escalate, which result is kept, how parts are numbered, how
//! an export is laid out, what an audit says, and the state the screens share.
//!
//! Everything here works on plain values. Coordinates and percentages are
//! carried as [`scalar::Scalar`], the bit pattern of a 64-bit float: the rules
//! only compare them, and comparing is exact on the bits.

// Numbers, texts and shapes.
pub mod scalar;
pub mod text;
pub mod order;
pub mod shape;
pub mod bounds;
pub mod placement;

// A job: its settings, its parts, its runs and its result.
pub mod config;
pub mod parts;
pub mod ranking;
pub mod escalation;
pub mod tidy;
pub mod result;
pub mod cancel;
pub mod live;

// What is asked about a result, and what is made of it.
pub mod requests;
pub mod audit;
pub mod export;
pub mod report;

// The state that the screens share, and everything that happens to it.
pub mod i18n;
pub mod console;
pub mod store;
pub mod state;
pub mod session;
pub mod job;
pub mod events;
pub mod editing;
pub mod table;
pub mod library;
pub mod exporting;
pub mod nudge;
pub mod chart;

// The screens' own rules, and what is kept between sessions.
pub mod keys;
pub mod prefs;
pub mod theme;
pub mod effects;
pub mod layers;
pub mod sound;
pub mod paths;
pub mod update;
pub mod calc;

// The program without a window.
pub mod cli;
pub mod headless;
