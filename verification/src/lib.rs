//! Renders a byte slice the way a hex editor shows it: one row per group of
//! bytes, each with an address, the bytes in hexadecimal and the bytes as
//! characters of a codepage.
//!
//! The settings of a view are kept in a [`HexView`], which a
//! [`HexViewBuilder`] constructs:
//!
//! ```text
//! let data: Vec<u8> = (0u8..200u8).collect();
//! let view = HexViewBuilder::new(&data[40..72])
//!     .address_offset(40)
//!     .row_width(16)
//!     .finish();
//! println!("{}", view.to_string());
//! ```
//!
//! This prints
//!
//! ```text
//! 00000020                          28 29 2A 2B 2C 2D 2E 2F  |         ()*+,-./ |
//! 00000030  30 31 32 33 34 35 36 37 38 39 3A 3B 3C 3D 3E 3F  | 0123456789:;<=>? |
//! 00000040  40 41 42 43 44 45 46 47                          | @ABCDEFG         |
//! ```
pub mod byte_mapping;
pub mod color;
pub mod format;
pub mod sink;
pub mod theory;

pub use byte_mapping::CODEPAGE_0850;
pub use byte_mapping::CODEPAGE_1252;
pub use byte_mapping::CODEPAGE_ASCII;
pub use format::HexView;
pub use format::HexViewBuilder;
