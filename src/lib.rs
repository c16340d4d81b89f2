//! A pager for streams and large files: its verified core.
//!
//! The modules hold the logic of the pager apart from the terminal, the
//! file system and threads: the newline index of a loading file and the
//! bytes behind it, reading ranges out of cached blocks, folding overstrike
//! sequences and parsing lines into spans, showing spans in columns,
//! searching and marking matches, the rows that need redrawing,
//! scroll planning and key bindings, controlled files, configuration,
//! prompt editing and history, the ruler's text, the screens of the files,
//! and the policy of the direct (pre-fullscreen) mode.
pub mod bindings;
pub mod cache;
pub mod command;
pub mod config;
pub mod controlled;
pub mod direct;
pub mod event;
pub mod file;
pub mod highlight;
pub mod history;
pub mod index;
pub mod line;
pub mod line_drawing;
pub mod overstrike;
pub mod prompt;
pub mod refresh;
pub mod render;
pub mod ruler;
pub mod screens;
pub mod search;
pub mod text;
pub mod view;
