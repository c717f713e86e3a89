//! voxfont: the logic of a console MIDI / SoundFont player.

pub mod app;
pub mod app_laws;
pub mod ascii;
pub mod browser;
pub mod browser_laws;
pub mod calendar;
pub mod cli;
pub mod conf;
pub mod cursor;
pub mod favourites;
pub mod favourites_laws;
pub mod history;
pub mod history_laws;
pub mod host;
pub mod kept_laws;
pub mod keys;
pub mod keys_laws;
pub mod lines;
pub mod listing_laws;
pub mod lists;
pub mod lists_laws;
pub mod midi;
pub mod midi_laws;
pub mod overlay;
pub mod paths;
pub mod places_laws;
pub mod player;
pub mod playlist;
pub mod playlist_laws;
pub mod prompt;
pub mod queue;
pub mod raw;
pub mod rows_laws;
pub mod screen_laws;
pub mod sorting;
pub mod sound_laws;
pub mod start_laws;
pub mod state;
pub mod synth;
pub mod text;
pub mod text_laws;
pub mod ui;
pub mod vfs;
