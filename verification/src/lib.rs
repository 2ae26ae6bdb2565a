//! feedhub: feed parsing, date normalization and feed storage rules.
pub mod api;
pub mod ctl;
pub mod date;
pub mod domfeed;
pub mod datetime;
pub mod dto;
pub mod feed;
pub mod feeddate;
pub mod fetch;
pub mod fileserve;
pub mod fixtures;
pub mod httpwire;
pub mod instant;
pub mod model;
pub mod onepass;
pub mod parser;
pub mod params;
pub mod pathparse;
pub mod refresh;
pub mod rest;
pub mod router;
pub mod store;
pub mod storedate;
pub mod strs;
pub mod text;
pub mod xml;
