//! A system fetch tool that themes itself from the desktop's wallpaper: what it reads from the
//! system, worked out into the lines it shows, and the colouring of its logo and labels.
use vstd::prelude::*;

pub mod text;
pub mod desktop;
pub mod colour;
pub mod info;
pub mod config;
pub mod cli;
