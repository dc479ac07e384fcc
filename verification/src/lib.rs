//! seki — typed prompt-segment logic: markup rendering, status labels,
//! and the small text protocols the prompt segments read.

pub mod text;
pub mod markup;
pub mod tear;
pub mod tend;
pub mod fields;
pub mod tatara_workload;
pub mod kasou_vm;
pub mod mado_session;
pub mod shigoto;
pub mod paths;
pub mod fleet_node;
pub mod cofre_tier;
pub mod kindling_posture;
pub mod engenho;
pub mod vigy;
pub mod arnes_cache;
pub mod nix_shell;
pub mod hostname;
pub mod git_branch;
pub mod git_status;
pub mod nix_flake_drift;
pub mod cmd_duration;
pub mod caixa;
pub mod directory;
pub mod shikumi_tier;
pub mod blackmatter;
pub mod stylix;
pub mod custom;
pub mod shikumi_config;
pub mod discovered;
pub mod borealis;
pub mod daemon;
pub mod rust;
pub mod table;
pub mod probe_cache;
