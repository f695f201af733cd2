//! Keyboard focus navigation across independently mounted regions of a user interface.
//!
//! A [`navigator::DomainNavigator`] keeps the registry of domains (regions of focusable
//! elements), the single active domain and cursor, and the record that brings the focus back
//! when a region or element unmounts and mounts again. Directional keys move the cursor inside
//! a domain by its layout ([`layout`] for grids and lists, [`spatial`] for free placement) and,
//! at a domain's edge, towards the nearest domain that way.

pub mod ambience;
pub mod assets;
pub mod domain;
pub mod laws;
pub mod layout;
pub mod navigator;
pub mod spatial;
pub mod types;
pub mod window;
