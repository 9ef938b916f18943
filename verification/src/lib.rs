//! The logic of a clipboard recorder: what it reads, what it remembers, and what it
//! writes to which file.
pub mod autostart;
pub mod by_day;
pub mod capture;
pub mod chars;
pub mod clock;
pub mod history;
pub mod journal;
pub mod order;
pub mod recorder;
pub mod std_items;
pub mod utf16;
pub mod window;
pub mod xml;
