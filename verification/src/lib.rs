pub mod text;
pub mod seqs;
pub mod blockdev;
pub mod models;
pub mod planner;
pub mod labels;
pub mod linux;
pub mod diskpart;
pub mod windows;
pub mod boot;
pub mod bootcfg;
pub mod events;
pub mod workflow;
pub mod saga;
pub mod ipc;
pub mod bitlocker;
pub mod validation;
pub mod network;
pub mod payload;
pub mod iso;
pub mod cli;
pub mod hashing;
