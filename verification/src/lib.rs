//! Core of a memory guard for one supervised command.
pub mod bignat;
pub mod cli;
pub mod decimal_laws;
pub mod disk;
pub mod duration;
pub mod event;
pub mod event_laws;
pub mod exact;
pub mod files;
pub mod guard;
pub mod guard_laws;
pub mod install;
pub mod install_laws;
pub mod job;
pub mod meminfo;
pub mod meminfo_laws;
pub mod number;
pub mod path;
pub mod place_laws;
pub mod placement;
pub mod process;
pub mod process_laws;
pub mod profile;
pub mod profile_laws;
pub mod report;
pub mod report_laws;
pub mod rounding;
pub mod safety;
pub mod shim;
pub mod signal;
pub mod size;
pub mod skills;
pub mod stop;
pub mod terminal;
pub mod text;
pub mod text_laws;
pub mod wait;
pub mod wrap;
pub mod wrap_laws;
