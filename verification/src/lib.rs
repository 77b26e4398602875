//! Compact reports from Unreal Engine build, UAT, commandlet and automation-test logs.
//!
//! A log is cleared of terminal escape sequences and cut into lines ([`text`]), each line is
//! classified ([`patterns`], [`scan`]), what matters is collected in lists of limited length
//! ([`capped`]), and the report is written ([`report`], [`filter`]). [`laws`] states what holds of
//! every report, and [`layout`] that its text holds the lines that were written. What the single
//! steps are for is stated beside them: in [`text_laws`], [`line_laws`], [`scan_laws`],
//! [`args_laws`] and [`report_laws`].

pub mod args;
pub mod args_laws;
pub mod capped;
pub mod command;
pub mod filter;
pub mod laws;
pub mod layout;
pub mod line_laws;
pub mod mode;
pub mod patterns;
pub mod report;
pub mod report_laws;
pub mod scan;
pub mod scan_laws;
pub mod text;
pub mod text_laws;
