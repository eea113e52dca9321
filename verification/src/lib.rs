//! Compares two generations of a corpus of JSON documents and reports where
//! they differ, up to the differences that are known and accepted.
//!
//! [`differ`] walks two documents and reports the places that differ;
//! [`findings`] states what it reports, and [`laws`] and [`places`] what
//! holds of every comparison. [`policy`] decides where nothing is reported, [`html`] brings
//! markup into the form in which it is compared, [`dedup`] lets a difference
//! that recurs be rendered once, and [`corpus`] and [`report`] compare whole
//! generations and write the result down. [`resolve`], [`links`], [`macros`]
//! and [`baseline`] hold the text work of the pages themselves: where a URL
//! leads, how a link is written, what replaces a macro, and what status a
//! feature has.
pub mod allowlist;
pub mod baseline;
pub mod corpus;
pub mod dedup;
pub mod differ;
pub mod divergence;
pub mod findings;
pub mod html;
pub mod json;
pub mod laws;
pub mod links;
pub mod macros;
pub mod options;
pub mod order;
pub mod path;
pub mod places;
pub mod policy;
pub mod render;
pub mod report;
pub mod resolve;
pub mod sorting;
pub mod text;
