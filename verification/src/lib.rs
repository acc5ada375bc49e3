//! Request, job and project logic of the Koharu headless server, with its
//! behaviour stated as contracts and proved.

pub mod text;
pub mod project;
pub mod jobs;
pub mod events;
pub mod media;
pub mod api;
pub mod pages;
pub mod translation;
pub mod config;
