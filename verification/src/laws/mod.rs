//! What holds of the library as a whole: public proof functions that relate what goes in to what
//! comes out.
pub mod addresses;
pub mod authorities;
pub mod decisions;
pub mod exchange;
pub mod faults;
pub mod files;
pub mod flows;
pub mod frames;
pub mod heads;
pub mod hellos;
pub mod names;
pub mod reports;
pub mod texts;
