//! The rules of a clan event: loot notifications are parsed, checked against
//! what a team's buildings give access to, turned into resources and booked on
//! the team's ledger; resources are spent again on upgrading the buildings.

pub mod access;
pub mod bestiary;
pub mod buildings;
pub mod deduction_laws;
pub mod dink;
pub mod dink_laws;
pub mod display;
pub mod drops;
pub mod ledger;
pub mod modifiers;
pub mod patterns;
pub mod strmap;
pub mod team;
pub mod text;
pub mod upgrade;
pub mod upgrade_laws;
pub mod webhook;
