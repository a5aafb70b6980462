//! A robots.txt compliance engine: the text of a site's `robots.txt` is parsed
//! into groups of directives, a policy built from them says whether an agent
//! may fetch a path, and a client keeps that policy fresh for one host.

pub mod client;
pub mod robots;

pub use client::{Client, Decision, Empty, GetError, HTTPClient, RobotFetched, RobotUnfetched};
