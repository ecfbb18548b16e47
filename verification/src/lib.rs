//! The decision logic of a personal resume site: the colour theme and its
//! persistence format, the calendar arithmetic behind the "N+ years" figure,
//! the text helpers that shape links and project descriptions, and the
//! navigation bar's scroll-spy and keyboard behaviour.

pub mod calendar;
pub mod links;
pub mod nav;
pub mod text;
pub mod theme;
