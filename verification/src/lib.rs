//! Extraction of structured article content from an archived blog's
//! pages: parsing an index page into ordered cases and sections, and
//! extracting each section page's article body while excluding
//! boilerplate, tables, image links and cross-references.

pub mod compose;
pub mod dom;
pub mod scan;
pub mod extract;
pub mod index;
pub mod skip_last;
